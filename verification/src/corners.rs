//! The corner mask: the four corners of a canvas cut to quarter discs, each
//! with a radius of its own, anti-aliased through the pixel's alpha.

use crate::canvas::{RasterImage, Rgba};
use crate::coverage::{
    blend, blend_alpha, column_heights, coverage, is_column_height, lemma_alpha_falls_outward,
    lemma_blend_ends, lemma_blend_keeps_order, lemma_blend_monotone, lemma_coverage_bound,
    lemma_coverage_monotone, lemma_heights_fit, lemma_inner_pixel_untouched,
    lemma_outer_pixel_cleared, pixel_coverage,
};
use vstd::prelude::*;

verus! {

/// One of the four corners of a canvas.
#[derive(Clone, Copy, Debug, PartialEq, Eq, Structural)]
pub enum Corner {
    TopLeft,
    TopRight,
    BottomRight,
    BottomLeft,
}

/// Why a set of corner radii does not fit a canvas: the two radii that share
/// the named edge are together longer than that edge.
#[derive(Clone, Copy, Debug, PartialEq, Eq, Structural)]
pub enum RadiiError {
    TopEdge,
    BottomEdge,
    LeftEdge,
    RightEdge,
}

/// The offsets `(i, j)` of pixel `(x, y)` from the circle centre of a
/// corner, counted outward, when the pixel lies in the corner's `r x r`
/// square; `None` for every other pixel.
pub open spec fn corner_offsets(corner: Corner, r: nat, w: nat, h: nat, x: int, y: int) -> Option<
    (nat, nat),
> {
    match corner {
        Corner::TopLeft => if 0 <= x < r && 0 <= y < r {
            Some(((r - 1 - x) as nat, (r - 1 - y) as nat))
        } else {
            None
        },
        Corner::TopRight => if w - r <= x < w && 0 <= y < r {
            Some(((x - (w - r)) as nat, (r - 1 - y) as nat))
        } else {
            None
        },
        Corner::BottomRight => if w - r <= x < w && h - r <= y < h {
            Some(((x - (w - r)) as nat, (y - (h - r)) as nat))
        } else {
            None
        },
        Corner::BottomLeft => if 0 <= x < r && h - r <= y < h {
            Some(((r - 1 - x) as nat, (y - (h - r)) as nat))
        } else {
            None
        },
    }
}

/// The coverage that a corner of radius `r` gives pixel `(x, y)`: that of
/// its place in the corner's square, and full coverage outside the square.
pub open spec fn corner_weight(corner: Corner, r: nat, w: nat, h: nat, x: int, y: int) -> nat {
    match corner_offsets(corner, r, w, h, x, y) {
        Some((i, j)) => coverage(r, i, j),
        None => 256,
    }
}

/// The alpha that one corner leaves of `alpha` at pixel `(x, y)`.
pub open spec fn mask_corner(
    corner: Corner,
    r: nat,
    w: nat,
    h: nat,
    x: int,
    y: int,
    alpha: u8,
) -> u8 {
    blend(corner_weight(corner, r, w, h, x, y), alpha)
}

/// The alpha that the four corners leave of `alpha` at pixel `(x, y)`,
/// applied in the order top left, top right, bottom right, bottom left.
/// `radii` names the radii in that same order.
pub open spec fn mask_alpha(
    radii: (u32, u32, u32, u32),
    w: nat,
    h: nat,
    x: int,
    y: int,
    alpha: u8,
) -> u8 {
    let a0 = mask_corner(Corner::TopLeft, radii.0 as nat, w, h, x, y, alpha);
    let a1 = mask_corner(Corner::TopRight, radii.1 as nat, w, h, x, y, a0);
    let a2 = mask_corner(Corner::BottomRight, radii.2 as nat, w, h, x, y, a1);
    mask_corner(Corner::BottomLeft, radii.3 as nat, w, h, x, y, a2)
}

/// The first edge, in the order top, bottom, left, right, that is shorter
/// than the two radii on it together; `None` when the radii fit.
pub open spec fn radii_fault(radii: (u32, u32, u32, u32), w: nat, h: nat) -> Option<RadiiError> {
    if radii.0 + radii.1 > w {
        Some(RadiiError::TopEdge)
    } else if radii.3 + radii.2 > w {
        Some(RadiiError::BottomEdge)
    } else if radii.0 + radii.3 > h {
        Some(RadiiError::LeftEdge)
    } else if radii.1 + radii.2 > h {
        Some(RadiiError::RightEdge)
    } else {
        None
    }
}

/// Whether `(x, y)` lies in the square of one of the four corners.
pub open spec fn in_corner_square(
    radii: (u32, u32, u32, u32),
    w: nat,
    h: nat,
    x: int,
    y: int,
) -> bool {
    ||| corner_offsets(Corner::TopLeft, radii.0 as nat, w, h, x, y) is Some
    ||| corner_offsets(Corner::TopRight, radii.1 as nat, w, h, x, y) is Some
    ||| corner_offsets(Corner::BottomRight, radii.2 as nat, w, h, x, y) is Some
    ||| corner_offsets(Corner::BottomLeft, radii.3 as nat, w, h, x, y) is Some
}

/// The mask changes nothing outside the four corner squares.
pub proof fn lemma_mask_outside_squares(
    radii: (u32, u32, u32, u32),
    w: nat,
    h: nat,
    x: int,
    y: int,
    alpha: u8,
)
    requires
        !in_corner_square(radii, w, h, x, y),
    ensures
        mask_alpha(radii, w, h, x, y, alpha) == alpha,
{
    lemma_blend_ends(alpha);
    assert(mask_corner(Corner::TopLeft, radii.0 as nat, w, h, x, y, alpha) == alpha);
    assert(mask_corner(Corner::TopRight, radii.1 as nat, w, h, x, y, alpha) == alpha);
    assert(mask_corner(Corner::BottomRight, radii.2 as nat, w, h, x, y, alpha) == alpha);
    assert(mask_corner(Corner::BottomLeft, radii.3 as nat, w, h, x, y, alpha) == alpha);
}

/// The mask never raises an alpha.
pub proof fn lemma_mask_never_raises(
    radii: (u32, u32, u32, u32),
    w: nat,
    h: nat,
    x: int,
    y: int,
    alpha: u8,
)
    ensures
        mask_alpha(radii, w, h, x, y, alpha) <= alpha,
{
    let a0 = mask_corner(Corner::TopLeft, radii.0 as nat, w, h, x, y, alpha);
    let a1 = mask_corner(Corner::TopRight, radii.1 as nat, w, h, x, y, a0);
    let a2 = mask_corner(Corner::BottomRight, radii.2 as nat, w, h, x, y, a1);
    lemma_corner_never_raises(Corner::TopLeft, radii.0 as nat, w, h, x, y, alpha);
    lemma_corner_never_raises(Corner::TopRight, radii.1 as nat, w, h, x, y, a0);
    lemma_corner_never_raises(Corner::BottomRight, radii.2 as nat, w, h, x, y, a1);
    lemma_corner_never_raises(Corner::BottomLeft, radii.3 as nat, w, h, x, y, a2);
}

/// One corner never raises an alpha.
pub proof fn lemma_corner_never_raises(
    corner: Corner,
    r: nat,
    w: nat,
    h: nat,
    x: int,
    y: int,
    alpha: u8,
)
    ensures
        mask_corner(corner, r, w, h, x, y, alpha) <= alpha,
{
    let cov = corner_weight(corner, r, w, h, x, y);
    match corner_offsets(corner, r, w, h, x, y) {
        Some((i, j)) => {
            lemma_coverage_bound(r, i, j);
        },
        None => {},
    }
    lemma_blend_monotone(cov, 256, alpha);
}

/// Within one corner's square, stepping away from the circle's centre in
/// either direction never raises the alpha that the corner leaves of one and
/// the same starting alpha: of two pixels with offsets `(i1, j1)` and
/// `(i2, j2)`, the second no nearer to the centre in either direction, the
/// second keeps at most as much.
pub proof fn lemma_corner_falls_outward(
    corner: Corner,
    r: nat,
    w: nat,
    h: nat,
    x1: int,
    y1: int,
    x2: int,
    y2: int,
    i1: nat,
    j1: nat,
    i2: nat,
    j2: nat,
    alpha: u8,
)
    requires
        corner_offsets(corner, r, w, h, x1, y1) == Some((i1, j1)),
        corner_offsets(corner, r, w, h, x2, y2) == Some((i2, j2)),
        i1 <= i2,
        j1 <= j2,
    ensures
        mask_corner(corner, r, w, h, x2, y2, alpha) <= mask_corner(corner, r, w, h, x1, y1, alpha),
{
    lemma_alpha_falls_outward(r, i1, j1, i2, j2, alpha);
}

/// The radius that `radii` gives a corner.
pub open spec fn radius_of(radii: (u32, u32, u32, u32), corner: Corner) -> nat {
    match corner {
        Corner::TopLeft => radii.0 as nat,
        Corner::TopRight => radii.1 as nat,
        Corner::BottomRight => radii.2 as nat,
        Corner::BottomLeft => radii.3 as nat,
    }
}

/// In a corner's square, a pixel that lies wholly inside the quarter disc
/// keeps its alpha, and a pixel that lies wholly outside it loses it. The
/// offsets count whole pixels from the circle centre outward, so the pixel
/// at offsets `(i, j)` reaches from distance `(i, j)` to `(i + 1, j + 1)`.
pub proof fn lemma_corner_cuts_disc(
    corner: Corner,
    r: nat,
    w: nat,
    h: nat,
    x: int,
    y: int,
    alpha: u8,
)
    ensures
        corner_offsets(corner, r, w, h, x, y) matches Some((i, j)) ==> {
            &&& (i + 1) * (i + 1) + (j + 1) * (j + 1) <= r * r ==> mask_corner(
                corner,
                r,
                w,
                h,
                x,
                y,
                alpha,
            ) == alpha
            &&& i * i + j * j >= r * r ==> mask_corner(corner, r, w, h, x, y, alpha) == 0
        },
{
    match corner_offsets(corner, r, w, h, x, y) {
        Some((i, j)) => {
            if (i + 1) * (i + 1) + (j + 1) * (j + 1) <= r * r {
                lemma_inner_pixel_untouched(r, i, j, alpha);
            }
            if i * i + j * j >= r * r {
                lemma_outer_pixel_cleared(r, i, j, alpha);
            }
        },
        None => {},
    }
}

/// Whether pixel `(x, y)` lies in the square of `corner` and wholly outside
/// its quarter disc.
pub open spec fn outside_disc(
    radii: (u32, u32, u32, u32),
    corner: Corner,
    w: nat,
    h: nat,
    x: int,
    y: int,
) -> bool {
    let r = radius_of(radii, corner);
    corner_offsets(corner, r, w, h, x, y) matches Some((i, j)) && i * i + j * j >= r * r
}

/// Whether pixel `(x, y)` lies outside the square of `corner` or wholly
/// inside its quarter disc.
pub open spec fn clear_of_rim(
    radii: (u32, u32, u32, u32),
    corner: Corner,
    w: nat,
    h: nat,
    x: int,
    y: int,
) -> bool {
    let r = radius_of(radii, corner);
    corner_offsets(corner, r, w, h, x, y) matches Some((i, j)) ==> (i + 1) * (i + 1) + (j + 1) * (
    j + 1) <= r * r
}

/// A pixel that lies wholly outside the quarter disc of one corner ends
/// with alpha 0, whatever the other corners do.
pub proof fn lemma_mask_clears_outside_disc(
    radii: (u32, u32, u32, u32),
    corner: Corner,
    w: nat,
    h: nat,
    x: int,
    y: int,
    alpha: u8,
)
    requires
        outside_disc(radii, corner, w, h, x, y),
    ensures
        mask_alpha(radii, w, h, x, y, alpha) == 0,
{
    let a0 = mask_corner(Corner::TopLeft, radii.0 as nat, w, h, x, y, alpha);
    let a1 = mask_corner(Corner::TopRight, radii.1 as nat, w, h, x, y, a0);
    let a2 = mask_corner(Corner::BottomRight, radii.2 as nat, w, h, x, y, a1);
    lemma_corner_cuts_disc(Corner::TopLeft, radii.0 as nat, w, h, x, y, alpha);
    lemma_corner_cuts_disc(Corner::TopRight, radii.1 as nat, w, h, x, y, a0);
    lemma_corner_cuts_disc(Corner::BottomRight, radii.2 as nat, w, h, x, y, a1);
    lemma_corner_cuts_disc(Corner::BottomLeft, radii.3 as nat, w, h, x, y, a2);
    lemma_corner_never_raises(Corner::TopRight, radii.1 as nat, w, h, x, y, a0);
    lemma_corner_never_raises(Corner::BottomRight, radii.2 as nat, w, h, x, y, a1);
    lemma_corner_never_raises(Corner::BottomLeft, radii.3 as nat, w, h, x, y, a2);
}

/// A pixel that every corner either leaves out of its square or holds
/// wholly inside its quarter disc keeps its alpha.
pub proof fn lemma_mask_keeps_inside_discs(
    radii: (u32, u32, u32, u32),
    w: nat,
    h: nat,
    x: int,
    y: int,
    alpha: u8,
)
    requires
        clear_of_rim(radii, Corner::TopLeft, w, h, x, y),
        clear_of_rim(radii, Corner::TopRight, w, h, x, y),
        clear_of_rim(radii, Corner::BottomRight, w, h, x, y),
        clear_of_rim(radii, Corner::BottomLeft, w, h, x, y),
    ensures
        mask_alpha(radii, w, h, x, y, alpha) == alpha,
{
    lemma_blend_ends(alpha);
    lemma_corner_cuts_disc(Corner::TopLeft, radii.0 as nat, w, h, x, y, alpha);
    lemma_corner_cuts_disc(Corner::TopRight, radii.1 as nat, w, h, x, y, alpha);
    lemma_corner_cuts_disc(Corner::BottomRight, radii.2 as nat, w, h, x, y, alpha);
    lemma_corner_cuts_disc(Corner::BottomLeft, radii.3 as nat, w, h, x, y, alpha);
    assert(mask_corner(Corner::TopLeft, radii.0 as nat, w, h, x, y, alpha) == alpha);
    assert(mask_corner(Corner::TopRight, radii.1 as nat, w, h, x, y, alpha) == alpha);
    assert(mask_corner(Corner::BottomRight, radii.2 as nat, w, h, x, y, alpha) == alpha);
    assert(mask_corner(Corner::BottomLeft, radii.3 as nat, w, h, x, y, alpha) == alpha);
}

/// The weight of a corner is a coverage: at most 256.
pub proof fn lemma_corner_weight_bound(corner: Corner, r: nat, w: nat, h: nat, x: int, y: int)
    ensures
        corner_weight(corner, r, w, h, x, y) <= 256,
{
    match corner_offsets(corner, r, w, h, x, y) {
        Some((i, j)) => {
            lemma_coverage_bound(r, i, j);
        },
        None => {},
    }
}

/// A pixel that a corner covers no more than another, and that starts with
/// no more alpha, keeps no more alpha.
pub proof fn lemma_corner_keeps_order(
    corner: Corner,
    r: nat,
    w: nat,
    h: nat,
    x1: int,
    y1: int,
    alpha1: u8,
    x2: int,
    y2: int,
    alpha2: u8,
)
    requires
        corner_weight(corner, r, w, h, x2, y2) <= corner_weight(corner, r, w, h, x1, y1),
        alpha2 <= alpha1,
    ensures
        mask_corner(corner, r, w, h, x2, y2, alpha2) <= mask_corner(corner, r, w, h, x1, y1, alpha1),
{
    let c1 = corner_weight(corner, r, w, h, x1, y1);
    let c2 = corner_weight(corner, r, w, h, x2, y2);
    lemma_corner_weight_bound(corner, r, w, h, x1, y1);
    lemma_blend_monotone(c2, c1, alpha2);
    lemma_blend_keeps_order(c1, alpha2, alpha1);
}

/// Of two pixels with one and the same starting alpha, the one that no
/// corner covers more than the other keeps no more alpha under the whole
/// mask.
pub proof fn lemma_mask_keeps_order(
    radii: (u32, u32, u32, u32),
    w: nat,
    h: nat,
    x1: int,
    y1: int,
    x2: int,
    y2: int,
    alpha: u8,
)
    requires
        corner_weight(Corner::TopLeft, radii.0 as nat, w, h, x2, y2) <= corner_weight(
            Corner::TopLeft,
            radii.0 as nat,
            w,
            h,
            x1,
            y1,
        ),
        corner_weight(Corner::TopRight, radii.1 as nat, w, h, x2, y2) <= corner_weight(
            Corner::TopRight,
            radii.1 as nat,
            w,
            h,
            x1,
            y1,
        ),
        corner_weight(Corner::BottomRight, radii.2 as nat, w, h, x2, y2) <= corner_weight(
            Corner::BottomRight,
            radii.2 as nat,
            w,
            h,
            x1,
            y1,
        ),
        corner_weight(Corner::BottomLeft, radii.3 as nat, w, h, x2, y2) <= corner_weight(
            Corner::BottomLeft,
            radii.3 as nat,
            w,
            h,
            x1,
            y1,
        ),
    ensures
        mask_alpha(radii, w, h, x2, y2, alpha) <= mask_alpha(radii, w, h, x1, y1, alpha),
{
    let a1 = mask_corner(Corner::TopLeft, radii.0 as nat, w, h, x1, y1, alpha);
    let a2 = mask_corner(Corner::TopLeft, radii.0 as nat, w, h, x2, y2, alpha);
    lemma_corner_keeps_order(Corner::TopLeft, radii.0 as nat, w, h, x1, y1, alpha, x2, y2, alpha);
    let b1 = mask_corner(Corner::TopRight, radii.1 as nat, w, h, x1, y1, a1);
    let b2 = mask_corner(Corner::TopRight, radii.1 as nat, w, h, x2, y2, a2);
    lemma_corner_keeps_order(Corner::TopRight, radii.1 as nat, w, h, x1, y1, a1, x2, y2, a2);
    let c1 = mask_corner(Corner::BottomRight, radii.2 as nat, w, h, x1, y1, b1);
    let c2 = mask_corner(Corner::BottomRight, radii.2 as nat, w, h, x2, y2, b2);
    lemma_corner_keeps_order(Corner::BottomRight, radii.2 as nat, w, h, x1, y1, b1, x2, y2, b2);
    lemma_corner_keeps_order(Corner::BottomLeft, radii.3 as nat, w, h, x1, y1, c1, x2, y2, c2);
}

/// Under the whole mask, alpha does not rise outward within a corner: of
/// two pixels of one corner's square, the second no nearer to the circle's
/// centre in either direction, the second keeps at most as much of one and
/// the same starting alpha. This holds wherever no other corner covers the
/// second pixel more than the first, as it is wherever the squares of the
/// corners keep apart.
pub proof fn lemma_mask_falls_outward(
    radii: (u32, u32, u32, u32),
    w: nat,
    h: nat,
    corner: Corner,
    x1: int,
    y1: int,
    x2: int,
    y2: int,
    i1: nat,
    j1: nat,
    i2: nat,
    j2: nat,
    alpha: u8,
)
    requires
        corner_offsets(corner, radius_of(radii, corner), w, h, x1, y1) == Some((i1, j1)),
        corner_offsets(corner, radius_of(radii, corner), w, h, x2, y2) == Some((i2, j2)),
        i1 <= i2,
        j1 <= j2,
        forall|other: Corner|
            other != corner ==> corner_weight(other, radius_of(radii, other), w, h, x2, y2)
                <= #[trigger] corner_weight(other, radius_of(radii, other), w, h, x1, y1),
    ensures
        mask_alpha(radii, w, h, x2, y2, alpha) <= mask_alpha(radii, w, h, x1, y1, alpha),
{
    lemma_coverage_monotone(radius_of(radii, corner), i1, j1, i2, j2);
    assert(corner_weight(Corner::TopLeft, radius_of(radii, Corner::TopLeft), w, h, x2, y2)
        <= corner_weight(Corner::TopLeft, radius_of(radii, Corner::TopLeft), w, h, x1, y1));
    assert(corner_weight(Corner::TopRight, radius_of(radii, Corner::TopRight), w, h, x2, y2)
        <= corner_weight(Corner::TopRight, radius_of(radii, Corner::TopRight), w, h, x1, y1));
    assert(corner_weight(Corner::BottomRight, radius_of(radii, Corner::BottomRight), w, h, x2, y2)
        <= corner_weight(
        Corner::BottomRight,
        radius_of(radii, Corner::BottomRight),
        w,
        h,
        x1,
        y1,
    ));
    assert(corner_weight(Corner::BottomLeft, radius_of(radii, Corner::BottomLeft), w, h, x2, y2)
        <= corner_weight(Corner::BottomLeft, radius_of(radii, Corner::BottomLeft), w, h, x1, y1));
    lemma_mask_keeps_order(radii, w, h, x1, y1, x2, y2, alpha);
}

/// Whether the squares of opposite corners keep apart. Those of corners
/// that share an edge do wherever the radii fit the canvas.
pub open spec fn squares_apart(radii: (u32, u32, u32, u32), w: nat, h: nat) -> bool {
    &&& radii.0 + radii.2 <= w || radii.0 + radii.2 <= h
    &&& radii.1 + radii.3 <= w || radii.1 + radii.3 <= h
}

/// Where the radii fit the canvas and the squares of opposite corners keep
/// apart, alpha does not rise outward within a corner under the whole mask:
/// of two pixels of one corner's square, the second no nearer to the
/// circle's centre in either direction, the second keeps at most as much of
/// one and the same starting alpha.
pub proof fn lemma_mask_falls_outward_apart(
    radii: (u32, u32, u32, u32),
    w: nat,
    h: nat,
    corner: Corner,
    x1: int,
    y1: int,
    x2: int,
    y2: int,
    i1: nat,
    j1: nat,
    i2: nat,
    j2: nat,
    alpha: u8,
)
    requires
        radii_fault(radii, w, h) is None,
        squares_apart(radii, w, h),
        corner_offsets(corner, radius_of(radii, corner), w, h, x1, y1) == Some((i1, j1)),
        corner_offsets(corner, radius_of(radii, corner), w, h, x2, y2) == Some((i2, j2)),
        i1 <= i2,
        j1 <= j2,
    ensures
        mask_alpha(radii, w, h, x2, y2, alpha) <= mask_alpha(radii, w, h, x1, y1, alpha),
{
    assert forall|other: Corner| other != corner implies corner_weight(
        other,
        radius_of(radii, other),
        w,
        h,
        x2,
        y2,
    ) <= #[trigger] corner_weight(other, radius_of(radii, other), w, h, x1, y1) by {
        assert(corner_offsets(other, radius_of(radii, other), w, h, x1, y1) is None);
        assert(corner_offsets(other, radius_of(radii, other), w, h, x2, y2) is None);
    }
    lemma_mask_falls_outward(radii, w, h, corner, x1, y1, x2, y2, i1, j1, i2, j2, alpha);
}

/// The pixel of a corner's square that has the offsets `(i, j)`.
pub open spec fn corner_pixel(corner: Corner, r: nat, w: nat, h: nat, i: nat, j: nat) -> (int, int) {
    match corner {
        Corner::TopLeft => (r - 1 - i, r - 1 - j),
        Corner::TopRight => (w - r + i, r - 1 - j),
        Corner::BottomRight => (w - r + i, h - r + j),
        Corner::BottomLeft => (r - 1 - i, h - r + j),
    }
}

/// Whether the walk over a corner's square, row `j` by row and within a row
/// from offset 0 up, has passed the offsets `o` when it stands at `(i, j)`.
pub open spec fn walk_passed(o: Option<(nat, nat)>, i: nat, j: nat) -> bool {
    match o {
        Some((oi, oj)) => oj < j || (oj == j && oi < i),
        None => false,
    }
}

/// The pixel at `(x, y)` while the walk stands at `(i, j)`: masked once
/// passed, as before until then.
pub open spec fn walk_pixel(
    corner: Corner,
    r: nat,
    w: nat,
    h: nat,
    x: int,
    y: int,
    i: nat,
    j: nat,
    before: Rgba,
) -> Rgba {
    if walk_passed(corner_offsets(corner, r, w, h, x, y), i, j) {
        before.with_alpha(mask_corner(corner, r, w, h, x, y, before.a))
    } else {
        before
    }
}

fn corner_position(corner: Corner, r: u32, w: u32, h: u32, i: u32, j: u32) -> (p: (u32, u32))
    requires
        i < r,
        j < r,
        r <= w,
        r <= h,
    ensures
        (p.0 as int, p.1 as int) == corner_pixel(
            corner,
            r as nat,
            w as nat,
            h as nat,
            i as nat,
            j as nat,
        ),
        p.0 < w,
        p.1 < h,
        corner_offsets(corner, r as nat, w as nat, h as nat, p.0 as int, p.1 as int) == Some(
            (i as nat, j as nat),
        ),
{
    match corner {
        Corner::TopLeft => (r - 1 - i, r - 1 - j),
        Corner::TopRight => (w - r + i, r - 1 - j),
        Corner::BottomRight => (w - r + i, h - r + j),
        Corner::BottomLeft => (r - 1 - i, h - r + j),
    }
}

/// Cuts one corner of the canvas to a quarter disc of radius `r`.
///
/// Every pixel of the corner's `r x r` square keeps its colour and has its
/// alpha scaled by the pixel's coverage; nothing else changes. A radius of 0
/// changes nothing.
pub fn border_radius(img: &mut RasterImage, r: u32, corner: Corner)
    requires
        old(img).wf(),
        r <= old(img)@.width,
        r <= old(img)@.height,
    ensures
        final(img).wf(),
        final(img)@.width == old(img)@.width,
        final(img)@.height == old(img)@.height,
        forall|x: int, y: int|
            old(img)@.contains(x, y) ==> #[trigger] final(img)@.at(x, y) == old(img)@.at(
                x,
                y,
            ).with_alpha(
                mask_corner(
                    corner,
                    r as nat,
                    old(img)@.width,
                    old(img)@.height,
                    x,
                    y,
                    old(img)@.at(x, y).a,
                ),
            ),
{
    let (w, h) = img.dimensions();
    let pixels = img.pixel_count();
    proof {
        assert(pixels == w as nat * h as nat);
        assert(r as nat * r as nat <= w as nat * h as nat) by (nonlinear_arith)
            requires
                r <= w,
                r <= h,
        ;
        lemma_heights_fit(r as nat);
    }
    let heights = column_heights(r);
    let ghost before = img@;
    let mut j: u32 = 0;
    while j < r
        invariant
            j <= r,
            r <= w,
            r <= h,
            img.wf(),
            img@.width == w,
            img@.height == h,
            before.width == w,
            before.height == h,
            heights@.len() == 16 * r,
            forall|sx: int|
                0 <= sx < heights@.len() ==> is_column_height(
                    r as nat,
                    sx as nat,
                    #[trigger] heights@[sx] as nat,
                ),
            forall|x: int, y: int|
                before.contains(x, y) ==> #[trigger] img@.at(x, y) == walk_pixel(
                    corner,
                    r as nat,
                    w as nat,
                    h as nat,
                    x,
                    y,
                    0,
                    j as nat,
                    before.at(x, y),
                ),
        decreases r - j,
    {
        let mut i: u32 = 0;
        while i < r
            invariant
                i <= r,
                j < r,
                r <= w,
                r <= h,
                img.wf(),
                img@.width == w,
                img@.height == h,
                before.width == w,
                before.height == h,
                heights@.len() == 16 * r,
                forall|sx: int|
                    0 <= sx < heights@.len() ==> is_column_height(
                        r as nat,
                        sx as nat,
                        #[trigger] heights@[sx] as nat,
                    ),
                forall|x: int, y: int|
                    before.contains(x, y) ==> #[trigger] img@.at(x, y) == walk_pixel(
                        corner,
                        r as nat,
                        w as nat,
                        h as nat,
                        x,
                        y,
                        i as nat,
                        j as nat,
                        before.at(x, y),
                    ),
            decreases r - i,
        {
            let cov = pixel_coverage(r, &heights, i, j);
            let (x0, y0) = corner_position(corner, r, w, h, i, j);
            let p = img.get_pixel(x0, y0);
            let ghost mid = img@;
            img.set_alpha(x0, y0, blend_alpha(cov, p.a));
            proof {
                assert forall|x: int, y: int| before.contains(x, y) implies #[trigger] img@.at(
                    x,
                    y,
                ) == walk_pixel(
                    corner,
                    r as nat,
                    w as nat,
                    h as nat,
                    x,
                    y,
                    (i + 1) as nat,
                    j as nat,
                    before.at(x, y),
                ) by {
                    assert(mid.at(x, y) == walk_pixel(
                        corner,
                        r as nat,
                        w as nat,
                        h as nat,
                        x,
                        y,
                        i as nat,
                        j as nat,
                        before.at(x, y),
                    ));
                }
            }
            i = i + 1;
        }
        j = j + 1;
    }
    proof {
        assert forall|x: int, y: int| before.contains(x, y) implies #[trigger] img@.at(x, y)
            == before.at(x, y).with_alpha(
            mask_corner(corner, r as nat, w as nat, h as nat, x, y, before.at(x, y).a),
        ) by {
            let p = before.at(x, y);
            assert(img@.at(x, y) == walk_pixel(
                corner,
                r as nat,
                w as nat,
                h as nat,
                x,
                y,
                0,
                r as nat,
                p,
            ));
            if corner_offsets(corner, r as nat, w as nat, h as nat, x, y) is None {
                lemma_blend_ends(p.a);
                assert(p.with_alpha(p.a) == p);
            }
        }
    }
}

/// Cuts the four corners of the canvas to quarter discs with the radii
/// `(top left, top right, bottom right, bottom left)`.
///
/// Radii that do not fit the canvas are refused before anything is drawn.
/// Otherwise every pixel keeps its colour and has its alpha scaled by the
/// four corners in turn; outside the corner squares nothing changes.
pub fn round(img: &mut RasterImage, radius: (u32, u32, u32, u32)) -> (res: Result<(), RadiiError>)
    requires
        old(img).wf(),
    ensures
        final(img).wf(),
        final(img)@.width == old(img)@.width,
        final(img)@.height == old(img)@.height,
        res == match radii_fault(radius, old(img)@.width, old(img)@.height) {
            Some(e) => Err::<(), RadiiError>(e),
            None => Ok::<(), RadiiError>(()),
        },
        res is Err ==> final(img)@ == old(img)@,
        res is Ok ==> forall|x: int, y: int|
            old(img)@.contains(x, y) ==> #[trigger] final(img)@.at(x, y) == old(img)@.at(
                x,
                y,
            ).with_alpha(
                mask_alpha(radius, old(img)@.width, old(img)@.height, x, y, old(img)@.at(x, y).a),
            ),
{
    let (width, height) = img.dimensions();
    if radius.0 as u64 + radius.1 as u64 > width as u64 {
        return Err(RadiiError::TopEdge);
    }
    if radius.3 as u64 + radius.2 as u64 > width as u64 {
        return Err(RadiiError::BottomEdge);
    }
    if radius.0 as u64 + radius.3 as u64 > height as u64 {
        return Err(RadiiError::LeftEdge);
    }
    if radius.1 as u64 + radius.2 as u64 > height as u64 {
        return Err(RadiiError::RightEdge);
    }
    let ghost s0 = img@;
    border_radius(img, radius.0, Corner::TopLeft);
    let ghost s1 = img@;
    border_radius(img, radius.1, Corner::TopRight);
    let ghost s2 = img@;
    border_radius(img, radius.2, Corner::BottomRight);
    let ghost s3 = img@;
    border_radius(img, radius.3, Corner::BottomLeft);
    proof {
        assert forall|x: int, y: int| s0.contains(x, y) implies #[trigger] img@.at(x, y) == s0.at(
            x,
            y,
        ).with_alpha(mask_alpha(radius, s0.width, s0.height, x, y, s0.at(x, y).a)) by {
            assert(s1.contains(x, y) && s2.contains(x, y) && s3.contains(x, y));
        }
    }
    Ok(())
}

} // verus!
