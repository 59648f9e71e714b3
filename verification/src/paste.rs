//! The rules of the paste bin apart from the preview: what becomes of a
//! body, how an answer is shaped for a client and where a paste lives.

use crate::client::ClientType;
use vstd::prelude::*;
use vstd::string::StringExecFns;

verus! {

/// What becomes of the body of a new paste.
#[derive(Clone, Copy, Debug, PartialEq, Eq, Structural)]
pub enum BodyVerdict {
    /// There is no body: nothing is stored.
    Empty,
    /// The body is stored whole.
    Whole,
    /// The body is longer than a paste may be: its beginning is stored.
    Truncated,
}

/// How a stored paste is shown.
#[derive(Clone, Copy, Debug, PartialEq, Eq, Structural)]
pub enum PasteView {
    /// The bytes as they are, as plain text.
    Raw,
    /// A page with the source highlighted.
    Highlighted,
    /// An embed card for a chat service.
    Embed,
}

/// Which of the three forms of a page a client gets.
#[derive(Clone, Copy, Debug, PartialEq, Eq, Structural)]
pub enum PageForm {
    Html,
    Text,
    Embed,
}

/// The verdict on a body of `length` bytes where a paste may hold `max`.
pub fn judge_body(length: usize, max: usize) -> (verdict: BodyVerdict)
    ensures
        verdict == if length == 0 {
            BodyVerdict::Empty
        } else if length <= max {
            BodyVerdict::Whole
        } else {
            BodyVerdict::Truncated
        },
{
    if length == 0 {
        BodyVerdict::Empty
    } else if length <= max {
        BodyVerdict::Whole
    } else {
        BodyVerdict::Truncated
    }
}

/// What is stored of a body: its first `max` bytes.
pub fn stored_part(data: Vec<u8>, max: usize) -> (kept: Vec<u8>)
    ensures
        kept@ == if data@.len() <= max {
            data@
        } else {
            data@.take(max as int)
        },
{
    let mut kept = data;
    if kept.len() > max {
        kept.truncate(max);
        proof {
            assert(kept@ =~= data@.take(max as int));
        }
    }
    kept
}

/// How a paste is shown to a client. A browser gets the highlighted page
/// where an extension was asked for, the paste is text and the extension
/// names a grammar; it gets the raw text otherwise, as a plain client
/// always does. Chat services get an embed card.
pub fn choose_view(client: ClientType, has_extension: bool, is_text: bool, has_grammar: bool) -> (view:
    PasteView)
    ensures
        view == match client {
            ClientType::HTML => if has_extension && is_text && has_grammar {
                PasteView::Highlighted
            } else {
                PasteView::Raw
            },
            ClientType::NoHtml => PasteView::Raw,
            _ => PasteView::Embed,
        },
{
    match client {
        ClientType::HTML => if has_extension && is_text && has_grammar {
            PasteView::Highlighted
        } else {
            PasteView::Raw
        },
        ClientType::NoHtml => PasteView::Raw,
        _ => PasteView::Embed,
    }
}

/// Which form of a page a client gets: browsers the HTML, plain clients
/// the text, chat services the embed card.
pub fn choose_page(client: ClientType) -> (form: PageForm)
    ensures
        form == match client {
            ClientType::HTML => PageForm::Html,
            ClientType::NoHtml => PageForm::Text,
            _ => PageForm::Embed,
        },
{
    match client {
        ClientType::HTML => PageForm::Html,
        ClientType::NoHtml => PageForm::Text,
        _ => PageForm::Embed,
    }
}

/// `.` and the extension, or nothing without one.
pub open spec fn suffix_model(extension: Option<Seq<char>>) -> Seq<char> {
    match extension {
        Some(e) => "."@ + e,
        None => Seq::empty(),
    }
}

/// The address of something under `base`: the base, the path that leads
/// there, the name and the extension.
pub open spec fn address_model(
    base: Seq<char>,
    path: Seq<char>,
    name: Seq<char>,
    extension: Option<Seq<char>>,
) -> Seq<char> {
    base + path + name + suffix_model(extension)
}

/// The address of `name` under `base` at `path`, with its extension if it
/// has one. The page of a paste is at the path `/`, its preview image at
/// `/i/`, its analytics at `/a/`.
pub fn address(base: &str, path: &str, name: &str, extension: Option<&str>) -> (out: String)
    ensures
        out@ == address_model(base@, path@, name@, match extension {
            Some(e) => Some(e@),
            None => None,
        }),
{
    let mut out = base.to_owned();
    out.append(path);
    out.append(name);
    match extension {
        Some(e) => {
            out.append(".");
            out.append(e);
            proof {
                assert(out@ =~= base@ + path@ + name@ + ("."@ + e@));
            }
        },
        None => {
            proof {
                assert(out@ =~= base@ + path@ + name@ + Seq::<char>::empty());
            }
        },
    }
    out
}

} // verus!
