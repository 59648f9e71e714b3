//! The anti-aliasing arithmetic of a rounded corner, apart from any canvas.
//!
//! A corner of radius `r` pixels is a quarter disc whose centre lies `r`
//! pixels in from both edges. Every pixel of the corner's `r x r` square is
//! named by its offsets `(i, j)` from the centre, counted outward. Each pixel
//! is cut into `16 x 16` sub-samples. The rim of the disc is walked once,
//! sub-column by sub-column, with the stepping rule of the midpoint circle:
//! a decision variable says at every step whether the rim falls by one
//! sub-row. The walk is trusted as far as the diagonal and mirrored beyond
//! it. The coverage of a pixel is the number of its sub-samples under the
//! rim, from 0 to 256, and scales the pixel's alpha.

use vstd::prelude::*;

verus! {

/// The walk along the rim when it has reached sub-column `x`: the highest
/// covered sub-row and the decision variable. The walk starts on the
/// sub-row just inside the radius; at every step to the next sub-column a
/// negative decision variable keeps the sub-row, any other lowers it by one.
pub open spec fn rim(r: nat, x: nat) -> (int, int)
    decreases x,
{
    if x == 0 {
        (16 * r - 1, 2 - 16 * r)
    } else {
        let before = rim(r, (x - 1) as nat);
        if before.1 < 0 {
            (before.0, before.1 + (2 * x + 2))
        } else {
            (before.0 - 1, before.1 - (2 * (before.0 - x) + 2))
        }
    }
}

/// The highest covered sub-row of sub-column `x` on the walk.
pub open spec fn rim_height(r: nat, x: nat) -> int {
    rim(r, x).0
}

/// Whether sub-sample `(sx, sy)` lies under the rim of the disc of radius
/// `16 * r` sub-samples. Offsets count outward from the circle's centre.
/// On the side of the diagonal where the walk has not yet crossed it, a
/// sub-sample is covered up to the rim's height in its sub-column; on the
/// other side the same holds with the two axes exchanged.
pub open spec fn sample_inside(r: nat, sx: nat, sy: nat) -> bool {
    ||| (sx <= rim_height(r, sx) && sy <= rim_height(r, sx))
    ||| (sy <= rim_height(r, sy) && sx <= rim_height(r, sy))
}

/// How many of the `n` sub-samples `(sx, lo), .., (sx, lo + n - 1)` of one
/// sub-column are covered.
pub open spec fn column_count(r: nat, sx: nat, lo: nat, n: nat) -> nat
    decreases n,
{
    if n == 0 {
        0
    } else {
        column_count(r, sx, lo, (n - 1) as nat) + if sample_inside(r, sx, (lo + n - 1) as nat) {
            1nat
        } else {
            0nat
        }
    }
}

/// How many sub-samples of pixel `(i, j)` are covered in its first `n`
/// sub-columns.
pub open spec fn coverage_upto(r: nat, i: nat, j: nat, n: nat) -> nat
    decreases n,
{
    if n == 0 {
        0
    } else {
        coverage_upto(r, i, j, (n - 1) as nat) + column_count(
            r,
            (16 * i + n - 1) as nat,
            16 * j,
            16,
        )
    }
}

/// The coverage of pixel `(i, j)` of a corner of radius `r`: how many of its
/// 256 sub-samples the disc covers.
pub open spec fn coverage(r: nat, i: nat, j: nat) -> nat {
    coverage_upto(r, i, j, 16)
}

/// The alpha that is left of `alpha` under coverage `cov`:
/// `alpha * cov / 256`, rounded to the nearest whole number.
pub open spec fn blend(cov: nat, alpha: u8) -> u8 {
    ((cov * alpha + 128) / 256) as u8
}

/// The number of covered sub-samples of sub-column `sx`, counted from the
/// centre outward: every sub-sample below it is covered, none from it on.
pub open spec fn is_column_height(r: nat, sx: nat, h: nat) -> bool {
    &&& h <= 16 * r
    &&& h > 0 ==> sample_inside(r, sx, (h - 1) as nat)
    &&& !sample_inside(r, sx, h)
}

/// `min(max(h - lo, 0), n)`: the part of `[lo, lo + n)` that lies below `h`.
pub open spec fn clamp_span(h: nat, lo: nat, n: nat) -> nat {
    if h <= lo {
        0
    } else if h - lo >= n {
        n
    } else {
        (h - lo) as nat
    }
}

/// The rim never rises along the walk, falls by at most one sub-row per
/// sub-column and starts just inside the radius.
pub proof fn lemma_rim_falls(r: nat, a: nat, b: nat)
    requires
        a <= b,
    ensures
        rim_height(r, b) <= rim_height(r, a),
        rim_height(r, a) - (b - a) <= rim_height(r, b),
        rim_height(r, a) <= 16 * r - 1,
    decreases b,
{
    if a < b {
        lemma_rim_falls(r, a, (b - 1) as nat);
    } else if a > 0 {
        lemma_rim_falls(r, 0, (a - 1) as nat);
    }
}

/// A sub-sample nearer to the centre in both directions than a covered one
/// is covered too.
pub proof fn lemma_inside_monotone(r: nat, sx1: nat, sy1: nat, sx2: nat, sy2: nat)
    requires
        sx1 <= sx2,
        sy1 <= sy2,
        sample_inside(r, sx2, sy2),
    ensures
        sample_inside(r, sx1, sy1),
{
    lemma_rim_falls(r, sx1, sx2);
    lemma_rim_falls(r, sy1, sy2);
}

/// No sub-sample beyond the radius is covered.
pub proof fn lemma_inside_bound(r: nat, sx: nat, sy: nat)
    requires
        sample_inside(r, sx, sy),
    ensures
        sx < 16 * r,
        sy < 16 * r,
{
    lemma_rim_falls(r, sx, sx);
    lemma_rim_falls(r, sy, sy);
}

/// A count over `n` sub-samples lies between 0 and `n`.
pub proof fn lemma_column_count_bound(r: nat, sx: nat, lo: nat, n: nat)
    ensures
        column_count(r, sx, lo, n) <= n,
    decreases n,
{
    if n > 0 {
        lemma_column_count_bound(r, sx, lo, (n - 1) as nat);
    }
}

/// The coverage of a pixel is at most 256.
pub proof fn lemma_coverage_bound(r: nat, i: nat, j: nat)
    ensures
        coverage(r, i, j) <= 256,
{
    lemma_coverage_upto_bound(r, i, j, 16);
}

/// The covered sub-samples in the first `n` sub-columns number at most
/// `16 * n`.
pub proof fn lemma_coverage_upto_bound(r: nat, i: nat, j: nat, n: nat)
    ensures
        coverage_upto(r, i, j, n) <= 16 * n,
    decreases n,
{
    if n > 0 {
        lemma_coverage_upto_bound(r, i, j, (n - 1) as nat);
        lemma_column_count_bound(r, (16 * i + n - 1) as nat, 16 * j, 16);
    }
}

/// Once the height `h` of a sub-column is known, counting its covered
/// sub-samples in a span is a subtraction.
pub proof fn lemma_column_count_from_height(r: nat, sx: nat, h: nat, lo: nat, n: nat)
    requires
        is_column_height(r, sx, h),
    ensures
        column_count(r, sx, lo, n) == clamp_span(h, lo, n),
    decreases n,
{
    if n > 0 {
        lemma_column_count_from_height(r, sx, h, lo, (n - 1) as nat);
        let top = (lo + n - 1) as nat;
        if top < h {
            lemma_inside_monotone(r, sx, top, sx, (h - 1) as nat);
        } else {
            if sample_inside(r, sx, top) {
                lemma_inside_monotone(r, sx, h, sx, top);
            }
        }
    }
}

/// Moving a span outward, in either direction, never raises its count.
pub proof fn lemma_column_count_monotone(r: nat, sx1: nat, lo1: nat, sx2: nat, lo2: nat, n: nat)
    requires
        sx1 <= sx2,
        lo1 <= lo2,
    ensures
        column_count(r, sx2, lo2, n) <= column_count(r, sx1, lo1, n),
    decreases n,
{
    if n > 0 {
        lemma_column_count_monotone(r, sx1, lo1, sx2, lo2, (n - 1) as nat);
        if sample_inside(r, sx2, (lo2 + n - 1) as nat) {
            lemma_inside_monotone(r, sx1, (lo1 + n - 1) as nat, sx2, (lo2 + n - 1) as nat);
        }
    }
}

proof fn lemma_coverage_upto_monotone(r: nat, i1: nat, j1: nat, i2: nat, j2: nat, n: nat)
    requires
        i1 <= i2,
        j1 <= j2,
    ensures
        coverage_upto(r, i2, j2, n) <= coverage_upto(r, i1, j1, n),
    decreases n,
{
    if n > 0 {
        lemma_coverage_upto_monotone(r, i1, j1, i2, j2, (n - 1) as nat);
        lemma_column_count_monotone(
            r,
            (16 * i1 + n - 1) as nat,
            16 * j1,
            (16 * i2 + n - 1) as nat,
            16 * j2,
            16,
        );
    }
}

/// Coverage never grows outward: a pixel that lies at least as far from the
/// circle's centre in both directions is covered at most as much. Every ray
/// from the centre into the corner passes its pixels in this order.
pub proof fn lemma_coverage_monotone(r: nat, i1: nat, j1: nat, i2: nat, j2: nat)
    requires
        i1 <= i2,
        j1 <= j2,
    ensures
        coverage(r, i2, j2) <= coverage(r, i1, j1),
{
    lemma_coverage_upto_monotone(r, i1, j1, i2, j2, 16);
}

/// Less coverage leaves less alpha.
pub proof fn lemma_blend_monotone(cov1: nat, cov2: nat, alpha: u8)
    requires
        cov1 <= cov2 <= 256,
    ensures
        blend(cov1, alpha) <= blend(cov2, alpha),
{
    assert(cov1 * alpha <= cov2 * alpha) by (nonlinear_arith)
        requires
            cov1 <= cov2,
            alpha >= 0,
    ;
    assert(cov2 * alpha <= 256 * 255) by (nonlinear_arith)
        requires
            cov2 <= 256,
            0 <= alpha <= 255,
    ;
}

/// Under one and the same coverage, less alpha stays less.
pub proof fn lemma_blend_keeps_order(cov: nat, alpha1: u8, alpha2: u8)
    requires
        alpha1 <= alpha2,
        cov <= 256,
    ensures
        blend(cov, alpha1) <= blend(cov, alpha2),
{
    assert(cov * alpha1 <= cov * alpha2) by (nonlinear_arith)
        requires
            alpha1 <= alpha2,
            cov >= 0,
    ;
    assert(cov * alpha2 <= 256 * 255) by (nonlinear_arith)
        requires
            cov <= 256,
            0 <= alpha2 <= 255,
    ;
}

/// Along a ray from the circle's centre into the corner, in the direction
/// `(dx, dy)` and stepped in `q`-ths of that direction, the pixel that the
/// ray has reached after more steps keeps at most as much of one and the
/// same starting alpha.
pub proof fn lemma_alpha_falls_along_ray(
    r: nat,
    dx: nat,
    dy: nat,
    q: nat,
    t1: nat,
    t2: nat,
    alpha: u8,
)
    requires
        q > 0,
        t1 <= t2,
    ensures
        blend(coverage(r, t2 * dx / q, t2 * dy / q), alpha) <= blend(
            coverage(r, t1 * dx / q, t1 * dy / q),
            alpha,
        ),
{
    assert(t1 * dx / q <= t2 * dx / q) by (nonlinear_arith)
        requires
            q > 0,
            t1 <= t2,
    ;
    assert(t1 * dy / q <= t2 * dy / q) by (nonlinear_arith)
        requires
            q > 0,
            t1 <= t2,
    ;
    lemma_alpha_falls_outward(r, t1 * dx / q, t1 * dy / q, t2 * dx / q, t2 * dy / q, alpha);
}

/// Along any outward step of a corner, the alpha that the mask leaves of one
/// and the same starting alpha does not rise.
pub proof fn lemma_alpha_falls_outward(r: nat, i1: nat, j1: nat, i2: nat, j2: nat, alpha: u8)
    requires
        i1 <= i2,
        j1 <= j2,
    ensures
        blend(coverage(r, i2, j2), alpha) <= blend(coverage(r, i1, j1), alpha),
{
    lemma_coverage_monotone(r, i1, j1, i2, j2);
    lemma_coverage_bound(r, i1, j1);
    lemma_blend_monotone(coverage(r, i2, j2), coverage(r, i1, j1), alpha);
}

/// Full coverage leaves alpha as it is and no coverage leaves none.
pub proof fn lemma_blend_ends(alpha: u8)
    ensures
        blend(256, alpha) == alpha,
        blend(0, alpha) == 0,
{
}

/// The decision variable in closed form: at sub-column `x` and height `y`
/// it is `x^2 + 3x + y^2 + 5y + 6 - 4R - R^2` for the radius `R` in
/// sub-samples. It never falls below `-2y - 2`.
pub proof fn lemma_rim_decision(r: nat, x: nat)
    ensures
        rim(r, x).1 == x * x + 3 * x + rim(r, x).0 * rim(r, x).0 + 5 * rim(r, x).0 + 6 - 4 * (16
            * r) - (16 * r) * (16 * r),
        rim(r, x).1 >= -2 * rim(r, x).0 - 2,
    decreases x,
{
    let n = 16 * r as int;
    if x == 0 {
        assert(2 - n == 0 * 0 + 3 * 0 + (n - 1) * (n - 1) + 5 * (n - 1) + 6 - 4 * n - n * n)
            by (nonlinear_arith);
    } else {
        lemma_rim_decision(r, (x - 1) as nat);
        let x0 = x as int - 1;
        let y0 = rim(r, (x - 1) as nat).0;
        let d0 = rim(r, (x - 1) as nat).1;
        let x1 = x as int;
        let y1 = rim(r, x).0;
        let d1 = rim(r, x).1;
        if d0 < 0 {
            assert(d1 == x1 * x1 + 3 * x1 + y1 * y1 + 5 * y1 + 6 - 4 * n - n * n)
                by (nonlinear_arith)
                requires
                    d1 == d0 + (2 * x1 + 2),
                    x1 == x0 + 1,
                    y1 == y0,
                    d0 == x0 * x0 + 3 * x0 + y0 * y0 + 5 * y0 + 6 - 4 * n - n * n,
            ;
        } else {
            assert(d1 == x1 * x1 + 3 * x1 + y1 * y1 + 5 * y1 + 6 - 4 * n - n * n)
                by (nonlinear_arith)
                requires
                    d1 == d0 - (2 * (y0 - x1) + 2),
                    x1 == x0 + 1,
                    y1 == y0 - 1,
                    d0 == x0 * x0 + 3 * x0 + y0 * y0 + 5 * y0 + 6 - 4 * n - n * n,
            ;
        }
    }
}

/// Where the decision variable is negative and the walk has not passed the
/// diagonal, the rim stands high: `x + 5y + 5 >= 4R`.
proof fn lemma_rim_stands_high(n: int, x: int, y: int, p: int)
    requires
        n >= 16,
        0 <= x <= y,
        p == x * x + 3 * x + y * y + 5 * y + 6 - 4 * n - n * n,
        p >= -2 * y - 2,
    ensures
        x + 5 * y + 5 >= 4 * n,
{
    if x + 5 * y <= 4 * n - 6 {
        let f = x * x + y * y;
        let t = 4 * n - 6;
        assert(18 * f <= (x + 5 * y) * (x + 5 * y)) by (nonlinear_arith)
            requires
                f == x * x + y * y,
                0 <= x <= y,
        {
            assert((17 * x + 7 * y) * (y - x) >= 0);
        }
        assert((x + 5 * y) * (x + 5 * y) <= t * t) by (nonlinear_arith)
            requires
                0 <= x + 5 * y <= t,
        ;
        assert(f >= n * n - 4 * n + 4);
        assert(18 * (n * n - 4 * n + 4) > (4 * n - 6) * (4 * n - 6)) by (nonlinear_arith)
            requires
                n >= 16,
        ;
    }
}

/// As far as the diagonal the rim keeps inside the circle: where the walk
/// has not passed the diagonal, `x^2 + y^2 < R^2`.
pub proof fn lemma_rim_in_circle(r: nat, x: nat)
    requires
        r >= 1,
        x <= rim_height(r, x),
    ensures
        x * x + rim_height(r, x) * rim_height(r, x) < (16 * r) * (16 * r),
    decreases x,
{
    let n = 16 * r as int;
    if x == 0 {
        assert((n - 1) * (n - 1) < n * n) by (nonlinear_arith)
            requires
                n >= 16,
        ;
    } else {
        let x0 = x as int - 1;
        let y0 = rim(r, (x - 1) as nat).0;
        let d0 = rim(r, (x - 1) as nat).1;
        let x1 = x as int;
        let y1 = rim(r, x).0;
        lemma_rim_falls(r, (x - 1) as nat, x);
        lemma_rim_in_circle(r, (x - 1) as nat);
        lemma_rim_decision(r, (x - 1) as nat);
        if d0 < 0 {
            lemma_rim_stands_high(n, x0, y0, d0);
            assert(x1 * x1 + y1 * y1 < n * n) by (nonlinear_arith)
                requires
                    x1 == x0 + 1,
                    y1 == y0,
                    d0 < 0,
                    d0 == x0 * x0 + 3 * x0 + y0 * y0 + 5 * y0 + 6 - 4 * n - n * n,
                    x0 + 5 * y0 + 5 >= 4 * n,
            ;
        } else {
            assert(x1 * x1 + y1 * y1 <= x0 * x0 + y0 * y0) by (nonlinear_arith)
                requires
                    x1 == x0 + 1,
                    y1 == y0 - 1,
                    x1 <= y1,
            ;
        }
    }
}

/// A covered sub-sample lies inside the circle of the radius.
pub proof fn lemma_inside_circle(r: nat, sx: nat, sy: nat)
    requires
        sample_inside(r, sx, sy),
    ensures
        sx * sx + sy * sy < (16 * r) * (16 * r),
{
    lemma_inside_bound(r, sx, sy);
    let n = 16 * r as int;
    if sx <= rim_height(r, sx) && sy <= rim_height(r, sx) {
        lemma_rim_in_circle(r, sx);
        let y = rim_height(r, sx);
        assert(sx * sx + sy * sy <= sx * sx + y * y) by (nonlinear_arith)
            requires
                0 <= sy <= y,
        ;
    } else {
        lemma_rim_in_circle(r, sy);
        let y = rim_height(r, sy);
        assert(sx * sx + sy * sy <= sy * sy + y * y) by (nonlinear_arith)
            requires
                0 <= sx <= y,
        ;
    }
}

proof fn lemma_column_empty(r: nat, sx: nat, lo: nat, n: nat)
    requires
        !sample_inside(r, sx, lo),
    ensures
        column_count(r, sx, lo, n) == 0,
    decreases n,
{
    if n > 0 {
        lemma_column_empty(r, sx, lo, (n - 1) as nat);
        if sample_inside(r, sx, (lo + n - 1) as nat) {
            lemma_inside_monotone(r, sx, lo, sx, (lo + n - 1) as nat);
        }
    }
}

proof fn lemma_coverage_upto_empty(r: nat, i: nat, j: nat, n: nat)
    requires
        !sample_inside(r, 16 * i, 16 * j),
    ensures
        coverage_upto(r, i, j, n) == 0,
    decreases n,
{
    if n > 0 {
        lemma_coverage_upto_empty(r, i, j, (n - 1) as nat);
        let sx = (16 * i + n - 1) as nat;
        if sample_inside(r, sx, 16 * j) {
            lemma_inside_monotone(r, 16 * i, 16 * j, sx, 16 * j);
        }
        lemma_column_empty(r, sx, 16 * j, 16);
    }
}

/// A sub-sample on or above the diagonal whose far corner is within the
/// radius lies under the rim of its sub-column.
proof fn lemma_rim_clears(r: nat, sx: nat, sy: nat)
    requires
        sx <= sy,
        (sx + 1) * (sx + 1) + (sy + 1) * (sy + 1) <= (16 * r) * (16 * r),
    ensures
        sy <= rim_height(r, sx),
{
    let n = 16 * r as int;
    let x = sx as int;
    let b = sy as int + 1;
    let y = rim(r, sx).0;
    let p = rim(r, sx).1;
    lemma_rim_decision(r, sx);
    lemma_rim_falls(r, 0, sx);
    assert(x + 1 <= n && b <= n) by (nonlinear_arith)
        requires
            (x + 1) * (x + 1) + b * b <= n * n,
            x >= 0,
            b >= 1,
            n >= 0,
    ;
    if y < sy {
        assert((x + 1) * (x + 1) + (y + 2) * (y + 2) > n * n) by (nonlinear_arith)
            requires
                p == x * x + 3 * x + y * y + 5 * y + 6 - 4 * n - n * n,
                p >= -2 * y - 2,
                x + 1 <= n,
                y + 2 <= n,
        ;
        assert((y + 2) * (y + 2) <= b * b) by (nonlinear_arith)
            requires
                0 <= y + 2 <= b,
        ;
    }
}

/// A sub-sample whose far corner is within the radius is covered.
pub proof fn lemma_circle_inside(r: nat, sx: nat, sy: nat)
    requires
        (sx + 1) * (sx + 1) + (sy + 1) * (sy + 1) <= (16 * r) * (16 * r),
    ensures
        sample_inside(r, sx, sy),
{
    if sx <= sy {
        lemma_rim_clears(r, sx, sy);
    } else {
        lemma_rim_clears(r, sy, sx);
    }
}

proof fn lemma_column_full(r: nat, sx: nat, lo: nat, n: nat)
    requires
        n > 0 ==> sample_inside(r, sx, (lo + n - 1) as nat),
    ensures
        column_count(r, sx, lo, n) == n,
    decreases n,
{
    if n > 0 {
        if n > 1 {
            lemma_inside_monotone(r, sx, (lo + n - 2) as nat, sx, (lo + n - 1) as nat);
        }
        lemma_column_full(r, sx, lo, (n - 1) as nat);
    }
}

proof fn lemma_coverage_upto_full(r: nat, i: nat, j: nat, n: nat)
    requires
        n <= 16,
        sample_inside(r, 16 * i + 15, 16 * j + 15),
    ensures
        coverage_upto(r, i, j, n) == 16 * n,
    decreases n,
{
    if n > 0 {
        lemma_coverage_upto_full(r, i, j, (n - 1) as nat);
        let sx = (16 * i + n - 1) as nat;
        lemma_inside_monotone(r, sx, 16 * j + 15, 16 * i + 15, 16 * j + 15);
        lemma_column_full(r, sx, 16 * j, 16);
    }
}

/// A pixel whose far corner is within the radius lies wholly in the disc: it
/// is fully covered, and the mask leaves its alpha untouched.
pub proof fn lemma_inner_pixel_untouched(r: nat, i: nat, j: nat, alpha: u8)
    requires
        (i + 1) * (i + 1) + (j + 1) * (j + 1) <= r * r,
    ensures
        coverage(r, i, j) == 256,
        blend(coverage(r, i, j), alpha) == alpha,
{
    let sx = 16 * i + 15;
    let sy = 16 * j + 15;
    assert((sx + 1) * (sx + 1) + (sy + 1) * (sy + 1) <= (16 * r) * (16 * r)) by (nonlinear_arith)
        requires
            sx + 1 == 16 * (i + 1),
            sy + 1 == 16 * (j + 1),
            (i + 1) * (i + 1) + (j + 1) * (j + 1) <= r * r,
    ;
    lemma_circle_inside(r, sx, sy);
    lemma_coverage_upto_full(r, i, j, 16);
    lemma_blend_ends(alpha);
}

/// A pixel whose near corner is at least the radius away from the centre
/// lies wholly outside the disc: nothing of it is covered, and its alpha
/// becomes 0.
pub proof fn lemma_outer_pixel_cleared(r: nat, i: nat, j: nat, alpha: u8)
    requires
        i * i + j * j >= r * r,
    ensures
        coverage(r, i, j) == 0,
        blend(coverage(r, i, j), alpha) == 0,
{
    if sample_inside(r, 16 * i, 16 * j) {
        lemma_inside_circle(r, 16 * i, 16 * j);
        assert((16 * i) * (16 * i) + (16 * j) * (16 * j) >= (16 * r) * (16 * r))
            by (nonlinear_arith)
            requires
                i * i + j * j >= r * r,
        ;
    }
    lemma_coverage_upto_empty(r, i, j, 16);
}

/// Walks the rim of the disc once, sub-column by sub-column from the centre
/// outward, and notes the rim's height in every sub-column.
pub fn rim_heights(r: u32) -> (heights: Vec<u64>)
    requires
        16 * r <= usize::MAX,
    ensures
        heights@.len() == 16 * r,
        forall|x: int|
            0 <= x < heights@.len() ==> (#[trigger] heights@[x]) as int == rim_height(
                r as nat,
                x as nat,
            ),
{
    let n: u64 = 16 * (r as u64);
    let mut heights: Vec<u64> = Vec::new();
    let mut x: u64 = 0;
    let mut y: i128 = n as i128 - 1;
    let mut p: i128 = 2 - n as i128;
    while x < n
        invariant
            n == 16 * r,
            n <= usize::MAX,
            x <= n,
            heights@.len() == x,
            (y as int, p as int) == rim(r as nat, x as nat),
            n - 1 - x <= y <= n - 1,
            forall|k: int|
                0 <= k < heights@.len() ==> (#[trigger] heights@[k]) as int == rim_height(
                    r as nat,
                    k as nat,
                ),
        decreases n - x,
    {
        heights.push(y as u64);
        proof {
            let x0 = x as int;
            let y0 = y as int;
            let m = n as int;
            lemma_rim_decision(r as nat, x as nat);
            assert(0 <= x0 * x0 <= 0x10_0000_0000 * 0x10_0000_0000) by (nonlinear_arith)
                requires
                    0 <= x0 <= 0x10_0000_0000,
            ;
            assert(0 <= y0 * y0 <= 0x10_0000_0000 * 0x10_0000_0000) by (nonlinear_arith)
                requires
                    -1 <= y0 <= 0x10_0000_0000,
            ;
            assert(0 <= m * m <= 0x10_0000_0000 * 0x10_0000_0000) by (nonlinear_arith)
                requires
                    0 <= m <= 0x10_0000_0000,
            ;
        }
        x = x + 1;
        if p < 0 {
            p = p + (2 * (x as i128) + 2);
        } else {
            p = p - (2 * (y - x as i128) + 2);
            y = y - 1;
        }
    }
    heights
}

/// Whether sub-sample `(sx, sy)` is covered, read off the rim's heights.
pub fn is_inside(r: u32, rim: &Vec<u64>, sx: u64, sy: u64) -> (inside: bool)
    requires
        sx < 16 * r,
        sy < 16 * r,
        rim@.len() == 16 * r,
        forall|x: int|
            0 <= x < rim@.len() ==> (#[trigger] rim@[x]) as int == rim_height(r as nat, x as nat),
    ensures
        inside == sample_inside(r as nat, sx as nat, sy as nat),
{
    let total = rim.len();
    let at_x = rim[sx as usize];
    let at_y = rim[sy as usize];
    (sx <= at_x && sy <= at_x) || (sy <= at_y && sx <= at_y)
}

/// The number of covered sub-samples of every sub-column, from the centre
/// outward: entry `sx` of the result counts those of sub-column `sx`. The
/// counts never rise, so one pass that steps the count down finds them all.
pub fn column_heights(r: u32) -> (heights: Vec<u64>)
    requires
        16 * r <= usize::MAX,
    ensures
        heights@.len() == 16 * r,
        forall|sx: int|
            0 <= sx < heights@.len() ==> is_column_height(
                r as nat,
                sx as nat,
                #[trigger] heights@[sx] as nat,
            ),
{
    let n: u64 = 16 * (r as u64);
    let rim = rim_heights(r);
    let mut heights: Vec<u64> = Vec::new();
    let mut h: u64 = n;
    let mut sx: u64 = 0;
    proof {
        // No sub-sample of the row just beyond the radius is covered.
        if sample_inside(r as nat, 0, n as nat) {
            lemma_inside_bound(r as nat, 0, n as nat);
        }
    }
    while sx < n
        invariant
            n == 16 * r,
            n <= usize::MAX,
            sx <= n,
            h <= n,
            heights@.len() == sx,
            rim@.len() == 16 * r,
            forall|x: int|
                0 <= x < rim@.len() ==> (#[trigger] rim@[x]) as int == rim_height(
                    r as nat,
                    x as nat,
                ),
            !sample_inside(r as nat, sx as nat, h as nat),
            forall|k: int|
                0 <= k < heights@.len() ==> is_column_height(
                    r as nat,
                    k as nat,
                    #[trigger] heights@[k] as nat,
                ),
        decreases n - sx,
    {
        while h > 0 && !is_inside(r, &rim, sx, h - 1)
            invariant
                n == 16 * r,
                sx < n,
                h <= n,
                rim@.len() == 16 * r,
                forall|x: int|
                    0 <= x < rim@.len() ==> (#[trigger] rim@[x]) as int == rim_height(
                        r as nat,
                        x as nat,
                    ),
                !sample_inside(r as nat, sx as nat, h as nat),
            decreases h,
        {
            h = h - 1;
        }
        heights.push(h);
        proof {
            if sample_inside(r as nat, (sx + 1) as nat, h as nat) {
                lemma_inside_monotone(r as nat, sx as nat, h as nat, (sx + 1) as nat, h as nat);
            }
        }
        sx = sx + 1;
    }
    heights
}

/// The coverage of pixel `(i, j)`, summed from the heights of its sixteen
/// sub-columns.
pub fn pixel_coverage(r: u32, heights: &Vec<u64>, i: u32, j: u32) -> (cov: u32)
    requires
        i < r,
        j < r,
        heights@.len() == 16 * r,
        forall|sx: int|
            0 <= sx < heights@.len() ==> is_column_height(
                r as nat,
                sx as nat,
                #[trigger] heights@[sx] as nat,
            ),
    ensures
        cov == coverage(r as nat, i as nat, j as nat),
        cov <= 256,
{
    let total: usize = heights.len();
    let lo: u64 = 16 * (j as u64);
    let base: usize = 16 * (i as usize);
    let mut cov: u32 = 0;
    let mut k: usize = 0;
    while k < 16
        invariant
            i < r,
            j < r,
            heights@.len() == 16 * r,
            lo == 16 * j,
            base == 16 * i,
            k <= 16,
            cov == coverage_upto(r as nat, i as nat, j as nat, k as nat),
            cov <= 16 * k,
            forall|sx: int|
                0 <= sx < heights@.len() ==> is_column_height(
                    r as nat,
                    sx as nat,
                    #[trigger] heights@[sx] as nat,
                ),
        decreases 16 - k,
    {
        let h = heights[base + k];
        let part: u32 = if h <= lo {
            0
        } else if h - lo >= 16 {
            16
        } else {
            (h - lo) as u32
        };
        proof {
            lemma_column_count_from_height(
                r as nat,
                (base + k) as nat,
                h as nat,
                lo as nat,
                16,
            );
        }
        cov = cov + part;
        k = k + 1;
    }
    cov
}

/// The coverage of every pixel of a corner of radius `r`, row by row: entry
/// `j * r + i` is the coverage of pixel `(i, j)`.
pub fn coverage_table(r: u32) -> (table: Vec<u32>)
    requires
        r as nat * r as nat <= usize::MAX,
    ensures
        table@.len() == r as nat * r as nat,
        forall|i: nat, j: nat|
            i < r && j < r ==> #[trigger] table@[(j * r as nat + i) as int] == coverage(
                r as nat,
                i,
                j,
            ),
{
    proof {
        lemma_heights_fit(r as nat);
    }
    let heights = column_heights(r);
    let mut table: Vec<u32> = Vec::new();
    let mut j: u32 = 0;
    while j < r
        invariant
            j <= r,
            r as nat * r as nat <= usize::MAX,
            heights@.len() == 16 * r,
            table@.len() == j as nat * r as nat,
            forall|sx: int|
                0 <= sx < heights@.len() ==> is_column_height(
                    r as nat,
                    sx as nat,
                    #[trigger] heights@[sx] as nat,
                ),
            forall|i2: nat, j2: nat|
                i2 < r && j2 < j ==> #[trigger] table@[(j2 * r as nat + i2) as int] == coverage(
                    r as nat,
                    i2,
                    j2,
                ),
        decreases r - j,
    {
        let mut i: u32 = 0;
        while i < r
            invariant
                i <= r,
                j < r,
                heights@.len() == 16 * r,
                table@.len() == j as nat * r as nat + i as nat,
                forall|sx: int|
                    0 <= sx < heights@.len() ==> is_column_height(
                        r as nat,
                        sx as nat,
                        #[trigger] heights@[sx] as nat,
                    ),
                forall|i2: nat, j2: nat|
                    i2 < r && (j2 < j || (j2 == j && i2 < i)) ==> #[trigger] table@[(j2 * r as nat
                        + i2) as int] == coverage(r as nat, i2, j2),
            decreases r - i,
        {
            let cov = pixel_coverage(r, &heights, i, j);
            let ghost before = table@;
            table.push(cov);
            proof {
                assert forall|i2: nat, j2: nat|
                    i2 < r && (j2 < j || (j2 == j && i2 < i + 1)) implies #[trigger] table@[(j2
                    * r as nat + i2) as int] == coverage(r as nat, i2, j2) by {
                    if j2 < j {
                        crate::canvas::lemma_index_in_grid(r as nat, j as nat, i2, j2);
                        assert(j as nat * r as nat == r as nat * j as nat) by (nonlinear_arith);
                    }
                }
            }
            i = i + 1;
        }
        proof {
            assert((j + 1) as nat * r as nat == j as nat * r as nat + r as nat)
                by (nonlinear_arith);
        }
        j = j + 1;
    }
    table
}

/// A table of sixteen heights per pixel column fits wherever the table of
/// coverages fits.
pub proof fn lemma_heights_fit(r: nat)
    requires
        r * r <= usize::MAX,
    ensures
        16 * r <= usize::MAX,
{
    if r >= 16 {
        assert(16 * r <= r * r) by (nonlinear_arith)
            requires
                r >= 16,
        ;
    }
}

/// `alpha` under coverage `cov`.
pub fn blend_alpha(cov: u32, alpha: u8) -> (out: u8)
    requires
        cov <= 256,
    ensures
        out == blend(cov as nat, alpha),
{
    proof {
        assert(cov * alpha <= 256 * 255) by (nonlinear_arith)
            requires
                cov <= 256,
                alpha <= 255,
        ;
    }
    ((cov * (alpha as u32) + 128) / 256) as u8
}

} // verus!
