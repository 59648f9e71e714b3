//! The text layout engine: highlighted lines become drawing operations.
//!
//! Each line gets its number in the gutter and a rule under it, then its
//! runs from left to right. A run that does not fit what is left of the row
//! is cut at a character boundary and goes on in fresh rows that start just
//! past the gutter. Horizontal positions are kept in hundredths of a pixel,
//! so that a fractional glyph advance adds up without rounding; a glyph is
//! budgeted one advance per byte of UTF-8, which never underestimates the
//! drawn width.
//!
//! Nothing is drawn here: the result is a list of operations for whoever
//! owns the fonts. Bold and italic are carried along on every text
//! operation; one face serves all three.

use crate::canvas::Rgba;
use crate::outside::{decimal_string, without_newlines};
use crate::text::{all_space, decimal_digits, is_blank, strip_newlines};
use crate::wrap::{
    byte_len, fragment_bytes, lemma_wrap_fits, wrap, wrap_run,
};
use vstd::prelude::*;
use vstd::string::StringSliceAdditionalSpecFns;
use vstd::utf8::{decode_utf8, encode_utf8, encode_utf8_decode_utf8, encode_utf8_valid_utf8};

verus! {

/// The font of a text operation.
#[derive(Clone, Copy, Debug, PartialEq, Eq, Structural)]
pub enum Face {
    /// The display face of banners.
    Logo,
    /// The monospace face of source text.
    Mono,
}

/// One contiguous span of a source line that shares one highlight style.
#[derive(Clone, Debug)]
pub struct StyleRun {
    pub color: Rgba,
    pub bold: bool,
    pub italic: bool,
    pub text: String,
}

/// One source line: its 1-based number and its runs in order.
#[derive(Clone, Debug)]
pub struct Line {
    pub number: u32,
    pub runs: Vec<StyleRun>,
}

/// One drawing operation. Coordinates are whole pixels from the top left of
/// the canvas.
#[derive(Clone, Debug)]
pub enum DrawOp {
    /// `text` with its top left corner at `(x, y)`.
    Text {
        x: u64,
        y: u64,
        size: u32,
        face: Face,
        color: Rgba,
        bold: bool,
        italic: bool,
        text: String,
    },
    /// A hairline from `(x0, y0)` to `(x1, y1)`.
    Rule { x0: u64, y0: u64, x1: u64, y1: u64, color: Rgba },
}

/// The style of a run.
pub struct StyleModel {
    pub color: Rgba,
    pub bold: bool,
    pub italic: bool,
}

/// What a run is: its style and its characters.
pub struct RunModel {
    pub style: StyleModel,
    pub text: Seq<char>,
}

/// What a line is: its number and its runs.
pub struct LineModel {
    pub number: nat,
    pub runs: Seq<RunModel>,
}

/// What a drawing operation is; text is held as its UTF-8 bytes.
pub enum OpModel {
    Text {
        x: nat,
        y: nat,
        size: nat,
        face: Face,
        color: Rgba,
        bold: bool,
        italic: bool,
        text: Seq<u8>,
    },
    Rule { x0: nat, y0: nat, x1: nat, y1: nat, color: Rgba },
}

impl View for StyleRun {
    type V = RunModel;

    open spec fn view(&self) -> RunModel {
        RunModel {
            style: StyleModel { color: self.color, bold: self.bold, italic: self.italic },
            text: self.text@,
        }
    }
}

impl View for Line {
    type V = LineModel;

    open spec fn view(&self) -> LineModel {
        LineModel { number: self.number as nat, runs: run_models(self.runs@) }
    }
}

impl View for DrawOp {
    type V = OpModel;

    open spec fn view(&self) -> OpModel {
        match *self {
            DrawOp::Text { x, y, size, face, color, bold, italic, text } => OpModel::Text {
                x: x as nat,
                y: y as nat,
                size: size as nat,
                face,
                color,
                bold,
                italic,
                text: encode_utf8(text@),
            },
            DrawOp::Rule { x0, y0, x1, y1, color } => OpModel::Rule {
                x0: x0 as nat,
                y0: y0 as nat,
                x1: x1 as nat,
                y1: y1 as nat,
                color,
            },
        }
    }
}

/// The models of a sequence of runs.
pub open spec fn run_models(runs: Seq<StyleRun>) -> Seq<RunModel> {
    Seq::new(runs.len(), |i: int| runs[i]@)
}

/// The models of a sequence of lines.
pub open spec fn line_models(lines: Seq<Line>) -> Seq<LineModel> {
    Seq::new(lines.len(), |i: int| lines[i]@)
}

/// The models of a sequence of operations.
pub open spec fn op_models(ops: Seq<DrawOp>) -> Seq<OpModel> {
    Seq::new(ops.len(), |i: int| ops[i]@)
}

/// Colour of the line numbers.
pub open spec fn label_color() -> Rgba {
    Rgba { r: 247, g: 118, b: 142, a: 255 }
}

/// Colour of the rules.
pub open spec fn rule_color() -> Rgba {
    Rgba { r: 65, g: 72, b: 104, a: 255 }
}

/// Why a layout configuration cannot be used.
#[derive(Clone, Copy, Debug, PartialEq, Eq, Structural)]
pub enum LayoutError {
    /// The glyph advance is zero.
    ZeroAdvance,
    /// The line height is zero.
    ZeroLineHeight,
    /// Padding and gutter leave no room between the margins.
    MarginsTooWide,
    /// The first row lies below the canvas.
    TopBelowCanvas,
    /// A row has no room for four bytes, the longest single character.
    RowTooNarrow,
    /// The canvas is wider than sub-pixel positions can address here.
    CanvasTooWide,
}

/// The geometry of a layout. Lengths are pixels, but for `advance`, the
/// width of one glyph in hundredths of a pixel.
#[derive(Clone, Copy, Debug)]
pub struct LayoutConfig {
    pub width: u32,
    pub height: u32,
    pub padding: u32,
    pub gutter: u32,
    pub advance: u32,
    pub line_height: u32,
    pub top: u32,
    pub font_size: u32,
}

/// A place on the canvas: `x` in hundredths of a pixel, `y` in pixels.
pub struct Cursor {
    pub x: nat,
    pub y: nat,
}

impl LayoutConfig {
    /// What is wrong with the configuration, if anything: the first fault
    /// in the order of `LayoutError`.
    pub open spec fn fault(&self) -> Option<LayoutError> {
        if self.advance == 0 {
            Some(LayoutError::ZeroAdvance)
        } else if self.line_height == 0 {
            Some(LayoutError::ZeroLineHeight)
        } else if 2 * self.padding + self.gutter > self.width {
            Some(LayoutError::MarginsTooWide)
        } else if self.top > self.height {
            Some(LayoutError::TopBelowCanvas)
        } else if 4 * self.advance > (self.width - 2 * self.padding - self.gutter) * 100 {
            Some(LayoutError::RowTooNarrow)
        } else if self.width * 100 > usize::MAX {
            Some(LayoutError::CanvasTooWide)
        } else {
            None
        }
    }

    /// Whether the configuration can be laid out with.
    pub open spec fn valid(&self) -> bool {
        self.fault() is None
    }

    /// Where text starts on a fresh row, in pixels.
    pub open spec fn text_left(&self) -> nat {
        (self.padding + self.gutter) as nat
    }

    /// The right margin, in hundredths of a pixel.
    pub open spec fn limit(&self) -> nat {
        ((self.width - self.padding) * 100) as nat
    }

    /// How many glyphs fit between `x` and the right margin.
    pub open spec fn budget(&self, x: nat) -> nat {
        if x >= self.limit() {
            0
        } else {
            (self.limit() - x) as nat / (self.advance as nat)
        }
    }

    /// How many glyphs fit on a fresh row.
    pub open spec fn capacity(&self) -> nat {
        self.budget(self.text_left() * 100)
    }

    /// The top of the row below the one at `y`. Rows that would start below
    /// the canvas all collapse onto its bottom edge, where nothing shows.
    pub open spec fn next_row(&self, y: nat) -> nat {
        if y + self.line_height >= self.height {
            self.height as nat
        } else {
            y + self.line_height as nat
        }
    }

    /// How far below its top a row of text reaches: four fifths of the line
    /// height.
    pub open spec fn extent(&self) -> nat {
        self.line_height as nat * 4 / 5
    }

    /// Whether a row at `y` shows on the canvas at all.
    pub open spec fn shows(&self, y: nat) -> bool {
        y < self.height
    }

    /// Where the label of `digits` glyphs starts so that it ends at the
    /// gutter's right edge, but never left of the padding; in hundredths of
    /// a pixel.
    pub open spec fn label_left(&self, digits: nat) -> nat {
        if self.gutter * 100 >= self.padding * 100 + digits * self.advance {
            (self.gutter * 100 - digits * self.advance) as nat
        } else {
            (self.padding * 100) as nat
        }
    }

    /// The configuration of the standard preview: a 1200 by 600 canvas,
    /// 5 pixels of padding, a 48 pixel gutter, 42 pixel rows under an 80
    /// pixel header and glyphs 22.26 pixels apart.
    pub fn standard() -> (cfg: LayoutConfig)
        ensures
            cfg.valid(),
            cfg == (LayoutConfig {
                width: 1200,
                height: 600,
                padding: 5,
                gutter: 48,
                advance: 2226,
                line_height: 42,
                top: 85,
                font_size: 42,
            }),
    {
        LayoutConfig {
            width: 1200,
            height: 600,
            padding: 5,
            gutter: 48,
            advance: 2226,
            line_height: 42,
            top: 85,
            font_size: 42,
        }
    }

    /// Checks the configuration.
    pub fn check(&self) -> (res: Result<(), LayoutError>)
        ensures
            res == match self.fault() {
                Some(e) => Err::<(), LayoutError>(e),
                None => Ok::<(), LayoutError>(()),
            },
    {
        if self.advance == 0 {
            return Err(LayoutError::ZeroAdvance);
        }
        if self.line_height == 0 {
            return Err(LayoutError::ZeroLineHeight);
        }
        if 2 * (self.padding as u64) + self.gutter as u64 > self.width as u64 {
            return Err(LayoutError::MarginsTooWide);
        }
        if self.top > self.height {
            return Err(LayoutError::TopBelowCanvas);
        }
        let room: u64 = (self.width as u64 - 2 * (self.padding as u64) - self.gutter as u64) * 100;
        if 4 * (self.advance as u64) > room {
            return Err(LayoutError::RowTooNarrow);
        }
        if (self.width as u64) * 100 > usize::MAX as u64 {
            return Err(LayoutError::CanvasTooWide);
        }
        Ok(())
    }

    /// How many glyphs fit between `x` and the right margin.
    pub fn glyphs_left(&self, x: u64) -> (n: usize)
        requires
            self.valid(),
        ensures
            n == self.budget(x as nat),
            n * self.advance + x <= self.limit() || n == 0,
    {
        let limit: u64 = (self.width as u64 - self.padding as u64) * 100;
        if x >= limit {
            0
        } else {
            let n = (limit - x) / (self.advance as u64);
            proof {
                let a = self.advance as nat;
                let d = (limit - x) as nat;
                assert(n as nat * a <= d) by (nonlinear_arith)
                    requires
                        n as nat == d / a,
                        a > 0,
                ;
                assert(n <= d) by (nonlinear_arith)
                    requires
                        n as nat == d / a,
                        a > 0,
                ;
            }
            n as usize
        }
    }
}

/// The bytes that a run puts on the canvas: its text without line feeds, in
/// UTF-8.
pub open spec fn run_bytes(run: RunModel) -> Seq<u8> {
    encode_utf8(strip_newlines(run.text))
}

/// Whether a fragment holds nothing but white space.
pub open spec fn blank_bytes(frag: Seq<u8>) -> bool {
    all_space(decode_utf8(frag))
}

/// The operation that draws fragment `frag` in style `style` at `at`.
pub open spec fn text_op(cfg: LayoutConfig, style: StyleModel, at: Cursor, frag: Seq<u8>) -> OpModel {
    OpModel::Text {
        x: at.x / 100,
        y: at.y,
        size: cfg.font_size as nat,
        face: Face::Mono,
        color: style.color,
        bold: style.bold,
        italic: style.italic,
        text: frag,
    }
}

/// The operations of one fragment at `at`: one text operation, or none when
/// the fragment is empty or the row does not show.
pub open spec fn fragment_ops(
    cfg: LayoutConfig,
    style: StyleModel,
    at: Cursor,
    frag: Seq<u8>,
) -> Seq<OpModel> {
    if frag.len() > 0 && cfg.shows(at.y) {
        seq![text_op(cfg, style, at, frag)]
    } else {
        Seq::empty()
    }
}

/// Where the cursor stands after a fragment drawn at `at`.
pub open spec fn after_fragment(cfg: LayoutConfig, at: Cursor, frag: Seq<u8>) -> Cursor {
    Cursor { x: at.x + frag.len() * cfg.advance as nat, y: at.y }
}

/// Where a fresh row below `at` starts.
pub open spec fn fresh_row(cfg: LayoutConfig, at: Cursor) -> Cursor {
    Cursor { x: cfg.text_left() * 100, y: cfg.next_row(at.y) }
}

/// The layout of the fragments that follow the first of a run: each starts
/// a fresh row, but for blank ones, which are passed over without a row.
pub open spec fn place_rows(
    cfg: LayoutConfig,
    style: StyleModel,
    frags: Seq<Seq<u8>>,
    at: Cursor,
) -> (Seq<OpModel>, Cursor)
    decreases frags.len(),
{
    if frags.len() == 0 {
        (Seq::empty(), at)
    } else if blank_bytes(frags[0]) {
        place_rows(cfg, style, frags.drop_first(), at)
    } else {
        let start = fresh_row(cfg, at);
        let rest = place_rows(
            cfg,
            style,
            frags.drop_first(),
            after_fragment(cfg, start, frags[0]),
        );
        (fragment_ops(cfg, style, start, frags[0]) + rest.0, rest.1)
    }
}

/// The fragments of a run when the cursor stands at `at`.
pub open spec fn run_fragments(cfg: LayoutConfig, run: RunModel, at: Cursor) -> Seq<Seq<u8>> {
    wrap(run_bytes(run), cfg.budget(at.x), cfg.capacity())
}

/// The layout of one run from `at`: its operations and where the cursor
/// stands after it.
pub open spec fn place_run(cfg: LayoutConfig, run: RunModel, at: Cursor) -> (Seq<OpModel>, Cursor) {
    let frags = run_fragments(cfg, run, at);
    let rest = place_rows(cfg, run.style, frags.drop_first(), after_fragment(cfg, at, frags[0]));
    (fragment_ops(cfg, run.style, at, frags[0]) + rest.0, rest.1)
}

/// The layout of runs one after another from `at`.
pub open spec fn place_runs(cfg: LayoutConfig, runs: Seq<RunModel>, at: Cursor) -> (
    Seq<OpModel>,
    Cursor,
)
    decreases runs.len(),
{
    if runs.len() == 0 {
        (Seq::empty(), at)
    } else {
        let first = place_run(cfg, runs[0], at);
        let rest = place_runs(cfg, runs.drop_first(), first.1);
        (first.0 + rest.0, rest.1)
    }
}

/// The label of a line: its number in decimal, in the label colour, ending
/// at the gutter's right edge.
pub open spec fn label_op(cfg: LayoutConfig, number: nat, y: nat) -> OpModel {
    let digits = encode_utf8(decimal_digits(number));
    OpModel::Text {
        x: cfg.label_left(digits.len()) / 100,
        y,
        size: cfg.font_size as nat,
        face: Face::Mono,
        color: label_color(),
        bold: false,
        italic: false,
        text: digits,
    }
}

/// The rule under a line's first row, from the canvas edge to the gutter's
/// right edge.
pub open spec fn gutter_rule(cfg: LayoutConfig, y: nat) -> OpModel {
    OpModel::Rule {
        x0: 0,
        y0: y + cfg.line_height as nat,
        x1: cfg.gutter as nat,
        y1: y + cfg.line_height as nat,
        color: rule_color(),
    }
}

/// The layout of one line whose first row is at `y`: its operations and the
/// top of the row after its last.
pub open spec fn place_line(cfg: LayoutConfig, line: LineModel, y: nat) -> (Seq<OpModel>, nat) {
    let body = place_runs(cfg, line.runs, Cursor { x: cfg.text_left() * 100, y });
    (seq![label_op(cfg, line.number, y), gutter_rule(cfg, y)] + body.0, cfg.next_row(body.1.y))
}

/// Whether a row at `y` still fits above the bottom padding.
pub open spec fn row_fits(cfg: LayoutConfig, y: nat) -> bool {
    y + cfg.padding + cfg.extent() <= cfg.height
}

/// The layout of lines from row `y` on: line after line, until the row
/// after a line would reach into the bottom padding. What is left then is
/// not drawn.
pub open spec fn place_lines(cfg: LayoutConfig, lines: Seq<LineModel>, y: nat) -> Seq<OpModel>
    decreases lines.len(),
{
    if lines.len() == 0 {
        Seq::empty()
    } else {
        let first = place_line(cfg, lines[0], y);
        if row_fits(cfg, first.1) {
            first.0 + place_lines(cfg, lines.drop_first(), first.1)
        } else {
            first.0
        }
    }
}

/// The whole layout: the lines from the configured top row on.
pub open spec fn layout_model(cfg: LayoutConfig, lines: Seq<LineModel>) -> Seq<OpModel> {
    place_lines(cfg, lines, cfg.top as nat)
}


/// A valid configuration has room for any one character on a fresh row, and
/// its rows start inside the margins.
pub proof fn lemma_capacity(cfg: LayoutConfig)
    requires
        cfg.valid(),
    ensures
        cfg.capacity() >= 4,
        cfg.text_left() * 100 <= cfg.limit(),
        cfg.limit() <= usize::MAX,
{
    let room = (cfg.limit() - cfg.text_left() * 100) as nat;
    let a = cfg.advance as nat;
    assert(room / a >= 4) by (nonlinear_arith)
        requires
            4 * a <= room,
            a > 0,
    ;
}

/// Pushing an operation pushes its model.
proof fn lemma_push_model(ops: Seq<DrawOp>, op: DrawOp)
    ensures
        op_models(ops.push(op)) == op_models(ops).push(op@),
{
    assert(op_models(ops.push(op)) =~= op_models(ops).push(op@));
}

/// Appends the operations of one run to `ops`, starting at `(x, y)` with
/// `x` in hundredths of a pixel, and returns where the cursor then stands.
pub fn layout_run(cfg: &LayoutConfig, run: &StyleRun, x: u64, y: u64, ops: &mut Vec<DrawOp>) -> (at:
    (u64, u64))
    requires
        cfg.valid(),
        x <= cfg.limit(),
        y <= cfg.height,
    ensures
        op_models(final(ops)@) == op_models(old(ops)@) + place_run(
            *cfg,
            run@,
            Cursor { x: x as nat, y: y as nat },
        ).0,
        (Cursor { x: at.0 as nat, y: at.1 as nat }) == place_run(
            *cfg,
            run@,
            Cursor { x: x as nat, y: y as nat },
        ).1,
        at.0 <= cfg.limit(),
        at.1 <= cfg.height,
{
    let text = without_newlines(run.text.as_str());
    let left: u64 = (cfg.padding as u64 + cfg.gutter as u64) * 100;
    proof {
        lemma_capacity(*cfg);
    }
    let first = cfg.glyphs_left(x);
    let cap = cfg.glyphs_left(left);
    let frags = wrap_run(text.as_str(), first, cap);
    let ghost start = Cursor { x: x as nat, y: y as nat };
    let ghost style = run@.style;
    let ghost bytes = run_bytes(run@);
    let ghost fb = fragment_bytes(frags@);
    let ghost before = ops@;
    proof {
        encode_utf8_valid_utf8(strip_newlines(run.text@));
        assert(fb == run_fragments(*cfg, run@, start));
        assert(fb.len() >= 1);
        lemma_wrap_fits(bytes, first as nat, cap as nat, 0);
    }
    let n0 = byte_len(frags[0].as_str());
    proof {
        assert(n0 as nat == fb[0].len());
        assert(n0 as nat * cfg.advance as nat + x as nat <= cfg.limit()) by (nonlinear_arith)
            requires
                n0 <= first,
                first as nat * cfg.advance as nat + x as nat <= cfg.limit() || first == 0,
                x as nat <= cfg.limit(),
        ;
    }
    if n0 > 0 && y < cfg.height as u64 {
        let op = DrawOp::Text {
            x: x / 100,
            y,
            size: cfg.font_size,
            face: Face::Mono,
            color: run.color,
            bold: run.bold,
            italic: run.italic,
            text: frags[0].clone(),
        };
        proof {
            lemma_push_model(ops@, op);
        }
        ops.push(op);
    }
    let mut cx: u64 = x + (n0 as u64) * (cfg.advance as u64);
    let mut cy: u64 = y;
    let mut k: usize = 1;
    proof {
        assert(fb.drop_first() =~= fb.skip(1));
        assert(op_models(ops@) =~= op_models(before) + fragment_ops(*cfg, style, start, fb[0]));
    }
    while k < frags.len()
        invariant
            cfg.valid(),
            1 <= k <= frags@.len(),
            fb == fragment_bytes(frags@),
            fb == wrap(bytes, first as nat, cap as nat),
            vstd::utf8::valid_utf8(bytes),
            cap as nat == cfg.capacity(),
            cap >= 4,
            cap as nat * cfg.advance as nat + left as nat <= cfg.limit(),
            left == cfg.text_left() * 100,
            left <= cfg.limit(),
            cfg.limit() <= usize::MAX,
            style == run@.style,
            cx <= cfg.limit(),
            cy <= cfg.height,
            op_models(ops@) + place_rows(
                *cfg,
                style,
                fb.skip(k as int),
                Cursor { x: cx as nat, y: cy as nat },
            ).0 == op_models(before) + place_run(*cfg, run@, start).0,
            place_rows(*cfg, style, fb.skip(k as int), Cursor { x: cx as nat, y: cy as nat }).1
                == place_run(*cfg, run@, start).1,
        decreases frags@.len() - k,
    {
        let frag = frags[k].as_str();
        let n = byte_len(frag);
        let ghost here = Cursor { x: cx as nat, y: cy as nat };
        let ghost rest = fb.skip(k as int);
        let ghost done = ops@;
        proof {
            assert(rest[0] == fb[k as int]);
            assert(rest.drop_first() =~= fb.skip(k + 1));
            encode_utf8_decode_utf8(frag@);
            lemma_wrap_fits(bytes, first as nat, cap as nat, k as int);
            assert(n as nat * cfg.advance as nat + left as nat <= cfg.limit()) by (nonlinear_arith)
                requires
                    n <= cap,
                    cap as nat * cfg.advance as nat + left as nat <= cfg.limit(),
            ;
        }
        if !is_blank(frag) {
            cy = if cy + cfg.line_height as u64 >= cfg.height as u64 {
                cfg.height as u64
            } else {
                cy + cfg.line_height as u64
            };
            cx = left;
            if n > 0 && cy < cfg.height as u64 {
                let op = DrawOp::Text {
                    x: cx / 100,
                    y: cy,
                    size: cfg.font_size,
                    face: Face::Mono,
                    color: run.color,
                    bold: run.bold,
                    italic: run.italic,
                    text: frags[k].clone(),
                };
                proof {
                    lemma_push_model(ops@, op);
                }
                ops.push(op);
            }
            proof {
                assert(op_models(ops@) =~= op_models(done) + fragment_ops(
                    *cfg,
                    style,
                    fresh_row(*cfg, here),
                    rest[0],
                ));
            }
            cx = cx + (n as u64) * (cfg.advance as u64);
        }
        k = k + 1;
        proof {
            let now = Cursor { x: cx as nat, y: cy as nat };
            let tail = place_rows(*cfg, style, fb.skip(k as int), now);
            assert(op_models(ops@) + tail.0 =~= op_models(done) + place_rows(
                *cfg,
                style,
                rest,
                here,
            ).0);
        }
    }
    proof {
        assert(fb.skip(k as int) =~= Seq::<Seq<u8>>::empty());
        assert(op_models(ops@) + Seq::<OpModel>::empty() =~= op_models(ops@));
    }
    (cx, cy)
}

/// Appends the operations of one line whose first row is at `y`, and
/// returns the top of the row after its last.
pub fn layout_line(cfg: &LayoutConfig, line: &Line, y: u64, ops: &mut Vec<DrawOp>) -> (next: u64)
    requires
        cfg.valid(),
        y <= cfg.height,
    ensures
        op_models(final(ops)@) == op_models(old(ops)@) + place_line(*cfg, line@, y as nat).0,
        next == place_line(*cfg, line@, y as nat).1,
        next <= cfg.height,
{
    let ghost before = ops@;
    let label = decimal_string(line.number);
    let digits = byte_len(label.as_str());
    proof {
        assert((digits as u128) * (cfg.advance as u128) <= 0xffff_ffff_ffff_ffff * 0xffff_ffff)
            by (nonlinear_arith)
            requires
                digits <= 0xffff_ffff_ffff_ffff,
                cfg.advance <= 0xffff_ffff,
        ;
    }
    let reach: u128 = (cfg.padding as u128) * 100 + (digits as u128) * (cfg.advance as u128);
    let edge: u128 = (cfg.gutter as u128) * 100;
    let label_x: u64 = if edge >= reach {
        (edge - (digits as u128) * (cfg.advance as u128)) as u64
    } else {
        (cfg.padding as u64) * 100
    };
    let number_op = DrawOp::Text {
        x: label_x / 100,
        y,
        size: cfg.font_size,
        face: Face::Mono,
        color: Rgba { r: 247, g: 118, b: 142, a: 255 },
        bold: false,
        italic: false,
        text: label,
    };
    let rule = DrawOp::Rule {
        x0: 0,
        y0: y + cfg.line_height as u64,
        x1: cfg.gutter as u64,
        y1: y + cfg.line_height as u64,
        color: Rgba { r: 65, g: 72, b: 104, a: 255 },
    };
    proof {
        lemma_push_model(ops@, number_op);
        lemma_push_model(ops@.push(number_op), rule);
        lemma_capacity(*cfg);
    }
    ops.push(number_op);
    ops.push(rule);
    let ghost runs = line@.runs;
    let ghost home = Cursor { x: cfg.text_left() * 100, y: y as nat };
    let ghost head = op_models(ops@);
    let mut cx: u64 = (cfg.padding as u64 + cfg.gutter as u64) * 100;
    let mut cy: u64 = y;
    let mut i: usize = 0;
    proof {
        assert(head =~= op_models(before) + seq![
            label_op(*cfg, line@.number, y as nat),
            gutter_rule(*cfg, y as nat),
        ]);
        assert(runs.skip(0) =~= runs);
    }
    while i < line.runs.len()
        invariant
            cfg.valid(),
            i <= line.runs@.len(),
            runs == run_models(line.runs@),
            cx <= cfg.limit(),
            cy <= cfg.height,
            op_models(ops@) + place_runs(
                *cfg,
                runs.skip(i as int),
                Cursor { x: cx as nat, y: cy as nat },
            ).0 == head + place_runs(*cfg, runs, home).0,
            place_runs(*cfg, runs.skip(i as int), Cursor { x: cx as nat, y: cy as nat }).1
                == place_runs(*cfg, runs, home).1,
        decreases line.runs@.len() - i,
    {
        let ghost here = Cursor { x: cx as nat, y: cy as nat };
        let ghost rest = runs.skip(i as int);
        let ghost done = ops@;
        proof {
            assert(rest[0] == line.runs@[i as int]@);
            assert(rest.drop_first() =~= runs.skip(i + 1));
        }
        let at = layout_run(cfg, &line.runs[i], cx, cy, ops);
        cx = at.0;
        cy = at.1;
        i = i + 1;
        proof {
            let now = Cursor { x: cx as nat, y: cy as nat };
            let step = place_run(*cfg, rest[0], here);
            let tail = place_runs(*cfg, runs.skip(i as int), now);
            assert(op_models(ops@) + tail.0 =~= op_models(done) + (step.0 + tail.0));
        }
    }
    proof {
        assert(runs.skip(i as int) =~= Seq::<RunModel>::empty());
        assert(op_models(ops@) + Seq::<OpModel>::empty() =~= op_models(ops@));
        assert(op_models(ops@) =~= op_models(before) + place_line(*cfg, line@, y as nat).0);
    }
    if cy + cfg.line_height as u64 >= cfg.height as u64 {
        cfg.height as u64
    } else {
        cy + cfg.line_height as u64
    }
}

/// Lays out `lines` on a canvas of the configured geometry and returns the
/// operations that draw them, in drawing order.
pub fn layout(cfg: &LayoutConfig, lines: &Vec<Line>) -> (ops: Vec<DrawOp>)
    requires
        cfg.valid(),
    ensures
        op_models(ops@) == layout_model(*cfg, line_models(lines@)),
{
    let mut ops: Vec<DrawOp> = Vec::new();
    let ghost all = line_models(lines@);
    let extent: u64 = (cfg.line_height as u64) * 4 / 5;
    let mut y: u64 = cfg.top as u64;
    let mut i: usize = 0;
    proof {
        assert(all.skip(0) =~= all);
        assert(op_models(ops@) =~= Seq::<OpModel>::empty());
        assert(op_models(ops@) + place_lines(*cfg, all, y as nat) =~= place_lines(
            *cfg,
            all,
            y as nat,
        ));
    }
    while i < lines.len()
        invariant
            cfg.valid(),
            i <= lines@.len(),
            all == line_models(lines@),
            extent == cfg.extent(),
            y <= cfg.height,
            op_models(ops@) + place_lines(*cfg, all.skip(i as int), y as nat) == layout_model(
                *cfg,
                all,
            ),
        decreases lines@.len() - i,
    {
        let ghost rest = all.skip(i as int);
        let ghost done = ops@;
        let ghost from = y;
        proof {
            assert(rest[0] == lines@[i as int]@);
            assert(rest.drop_first() =~= all.skip(i + 1));
        }
        y = layout_line(cfg, &lines[i], y, &mut ops);
        i = i + 1;
        if y + cfg.padding as u64 + extent > cfg.height as u64 {
            proof {
                assert(op_models(ops@) =~= op_models(done) + place_lines(*cfg, rest, from as nat));
            }
            return ops;
        }
        proof {
            let step = place_line(*cfg, rest[0], from as nat);
            let tail = place_lines(*cfg, all.skip(i as int), y as nat);
            assert(op_models(ops@) + tail =~= op_models(done) + (step.0 + tail));
        }
    }
    proof {
        assert(all.skip(i as int) =~= Seq::<LineModel>::empty());
        assert(op_models(ops@) + Seq::<OpModel>::empty() =~= op_models(ops@));
    }
    ops
}


/// Whether an operation keeps to the right margin: a text operation ends,
/// at one glyph advance per byte, at or before it.
pub open spec fn within_margin(cfg: LayoutConfig, op: OpModel) -> bool {
    match op {
        OpModel::Text { x, text, .. } => x * 100 + text.len() * cfg.advance as nat <= cfg.limit(),
        OpModel::Rule { .. } => true,
    }
}

/// What fits the budget at `x` ends at or before the right margin.
pub proof fn lemma_budget_fits(cfg: LayoutConfig, x: nat, n: nat)
    requires
        cfg.advance > 0,
        x <= cfg.limit(),
        n <= cfg.budget(x),
    ensures
        x + n * cfg.advance as nat <= cfg.limit(),
{
    let a = cfg.advance as nat;
    let d = (cfg.limit() - x) as nat;
    if x < cfg.limit() {
        assert(n * a <= d) by (nonlinear_arith)
            requires
                n <= d / a,
                a > 0,
        ;
    } else {
        assert(n * a == 0) by (nonlinear_arith)
            requires
                n == 0,
        ;
    }
}

/// The rows after the first of a run keep to the right margin, and so does
/// the cursor after them.
pub proof fn lemma_rows_within_margin(
    cfg: LayoutConfig,
    style: StyleModel,
    frags: Seq<Seq<u8>>,
    at: Cursor,
)
    requires
        cfg.valid(),
        at.x <= cfg.limit(),
        forall|k: int| 0 <= k < frags.len() ==> (#[trigger] frags[k]).len() <= cfg.capacity(),
    ensures
        place_rows(cfg, style, frags, at).1.x <= cfg.limit(),
        forall|i: int|
            0 <= i < place_rows(cfg, style, frags, at).0.len() ==> within_margin(
                cfg,
                #[trigger] place_rows(cfg, style, frags, at).0[i],
            ),
    decreases frags.len(),
{
    if frags.len() > 0 {
        let tail = frags.drop_first();
        assert forall|k: int| 0 <= k < tail.len() implies (#[trigger] tail[k]).len()
            <= cfg.capacity() by {
            assert(tail[k] == frags[k + 1]);
        }
        if blank_bytes(frags[0]) {
            lemma_rows_within_margin(cfg, style, tail, at);
        } else {
            lemma_capacity(cfg);
            let start = fresh_row(cfg, at);
            lemma_budget_fits(cfg, start.x, frags[0].len());
            lemma_rows_within_margin(cfg, style, tail, after_fragment(cfg, start, frags[0]));
            assert((start.x / 100) * 100 <= start.x);
        }
    }
}

/// Every text operation of a run keeps to the right margin, however long
/// the run is, and so does the cursor after it.
pub proof fn lemma_run_within_margin(cfg: LayoutConfig, run: RunModel, at: Cursor)
    requires
        cfg.valid(),
        at.x <= cfg.limit(),
    ensures
        place_run(cfg, run, at).1.x <= cfg.limit(),
        forall|i: int|
            0 <= i < place_run(cfg, run, at).0.len() ==> within_margin(
                cfg,
                #[trigger] place_run(cfg, run, at).0[i],
            ),
{
    let bytes = run_bytes(run);
    let frags = run_fragments(cfg, run, at);
    let tail = frags.drop_first();
    encode_utf8_valid_utf8(strip_newlines(run.text));
    lemma_capacity(cfg);
    lemma_wrap_fits(bytes, cfg.budget(at.x), cfg.capacity(), 0);
    lemma_budget_fits(cfg, at.x, frags[0].len());
    assert forall|k: int| 0 <= k < tail.len() implies (#[trigger] tail[k]).len()
        <= cfg.capacity() by {
        lemma_wrap_fits(bytes, cfg.budget(at.x), cfg.capacity(), k + 1);
        assert(tail[k] == frags[k + 1]);
    }
    lemma_rows_within_margin(cfg, run.style, tail, after_fragment(cfg, at, frags[0]));
    assert((at.x / 100) * 100 <= at.x);
}

/// Every text operation of a sequence of runs keeps to the right margin.
pub proof fn lemma_runs_within_margin(cfg: LayoutConfig, runs: Seq<RunModel>, at: Cursor)
    requires
        cfg.valid(),
        at.x <= cfg.limit(),
    ensures
        place_runs(cfg, runs, at).1.x <= cfg.limit(),
        forall|i: int|
            0 <= i < place_runs(cfg, runs, at).0.len() ==> within_margin(
                cfg,
                #[trigger] place_runs(cfg, runs, at).0[i],
            ),
    decreases runs.len(),
{
    if runs.len() > 0 {
        lemma_run_within_margin(cfg, runs[0], at);
        lemma_runs_within_margin(cfg, runs.drop_first(), place_run(cfg, runs[0], at).1);
    }
}

/// Whether the label of line `number` ends at or before the right margin
/// even where it starts at the padding.
pub open spec fn label_fits(cfg: LayoutConfig, number: nat) -> bool {
    cfg.padding * 100 + encode_utf8(decimal_digits(number)).len() * cfg.advance as nat
        <= cfg.limit()
}

/// The label of a line and the rule under it keep to the right margin
/// wherever the label fits.
pub proof fn lemma_label_within_margin(cfg: LayoutConfig, number: nat, y: nat)
    requires
        cfg.valid(),
        label_fits(cfg, number),
    ensures
        within_margin(cfg, label_op(cfg, number, y)),
        within_margin(cfg, gutter_rule(cfg, y)),
{
    let digits = encode_utf8(decimal_digits(number)).len();
    let left = cfg.label_left(digits);
    assert(left / 100 * 100 <= left) by (nonlinear_arith);
}

/// Every operation of a line keeps to the right margin wherever its label
/// fits.
pub proof fn lemma_line_within_margin(cfg: LayoutConfig, line: LineModel, y: nat)
    requires
        cfg.valid(),
        label_fits(cfg, line.number),
    ensures
        forall|i: int|
            0 <= i < place_line(cfg, line, y).0.len() ==> within_margin(
                cfg,
                #[trigger] place_line(cfg, line, y).0[i],
            ),
{
    lemma_capacity(cfg);
    lemma_label_within_margin(cfg, line.number, y);
    lemma_runs_within_margin(cfg, line.runs, Cursor { x: cfg.text_left() * 100, y });
}

/// Every operation of a layout keeps to the right margin wherever the
/// labels of its lines fit: no text is drawn past the right padding,
/// however long a line is.
pub proof fn lemma_lines_within_margin(cfg: LayoutConfig, lines: Seq<LineModel>, y: nat)
    requires
        cfg.valid(),
        forall|k: int| 0 <= k < lines.len() ==> label_fits(cfg, #[trigger] lines[k].number),
    ensures
        forall|i: int|
            0 <= i < place_lines(cfg, lines, y).len() ==> within_margin(
                cfg,
                #[trigger] place_lines(cfg, lines, y)[i],
            ),
    decreases lines.len(),
{
    if lines.len() > 0 {
        let first = place_line(cfg, lines[0], y);
        lemma_line_within_margin(cfg, lines[0], y);
        if row_fits(cfg, first.1) {
            let rest = lines.drop_first();
            assert forall|k: int| 0 <= k < rest.len() implies label_fits(
                cfg,
                #[trigger] rest[k].number,
            ) by {
                assert(rest[k] == lines[k + 1]);
            }
            lemma_lines_within_margin(cfg, rest, first.1);
            let tail = place_lines(cfg, rest, first.1);
            assert forall|i: int| 0 <= i < place_lines(cfg, lines, y).len() implies within_margin(
                cfg,
                #[trigger] place_lines(cfg, lines, y)[i],
            ) by {
                if i < first.0.len() {
                    assert(place_lines(cfg, lines, y)[i] == first.0[i]);
                } else {
                    assert(place_lines(cfg, lines, y)[i] == tail[i - first.0.len()]);
                }
            }
        }
    }
}

} // verus!
