//! Preview rendering for stored text pastes: canvas, corner mask, text
//! layout, render cache keys and the request rules around them.

pub mod canvas;
pub mod corners;
pub mod coverage;
pub mod wrap;
pub mod text;
pub mod layout;
pub mod outside;
pub mod render;
pub mod id;
pub mod state;
pub mod client;
pub mod html;
pub mod links;
pub mod paste;
