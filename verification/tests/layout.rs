use oxiilink::canvas::Rgba;
use oxiilink::layout::{
    layout, layout_line, layout_run, DrawOp, Face, LayoutConfig, LayoutError, Line, StyleRun,
};

const WHITE: Rgba = Rgba { r: 255, g: 255, b: 255, a: 255 };
const LABEL: Rgba = Rgba { r: 247, g: 118, b: 142, a: 255 };
const RULE: Rgba = Rgba { r: 65, g: 72, b: 104, a: 255 };

fn run(text: &str) -> StyleRun {
    StyleRun { color: WHITE, bold: false, italic: false, text: text.to_string() }
}

fn line(number: u32, texts: &[&str]) -> Line {
    Line { number, runs: texts.iter().map(|t| run(t)).collect() }
}

fn texts_of(ops: &[DrawOp]) -> Vec<(u64, u64, String)> {
    let mut out = Vec::new();
    for op in ops {
        if let DrawOp::Text { x, y, text, .. } = op {
            out.push((*x, *y, text.clone()));
        }
    }
    out
}

#[test]
fn the_standard_configuration_is_valid() {
    let cfg = LayoutConfig::standard();
    assert_eq!(cfg.check(), Ok(()));
    assert_eq!((cfg.width, cfg.height, cfg.padding, cfg.gutter), (1200, 600, 5, 48));
    assert_eq!((cfg.advance, cfg.line_height, cfg.top, cfg.font_size), (2226, 42, 85, 42));
    // (1200 - 5 - 53) / 22.26 glyphs fit a fresh row.
    assert_eq!(cfg.glyphs_left(5300), 51);
    assert_eq!(cfg.glyphs_left(0), 53);
    assert_eq!(cfg.glyphs_left(119500), 0);
    assert_eq!(cfg.glyphs_left(119500 - 2226), 1);
    assert_eq!(cfg.glyphs_left(119500 - 2225), 0);
    assert_eq!(cfg.glyphs_left(u64::MAX), 0);
}

#[test]
fn every_fault_of_a_configuration_is_named() {
    let good = LayoutConfig::standard();
    assert_eq!(LayoutConfig { advance: 0, ..good }.check(), Err(LayoutError::ZeroAdvance));
    assert_eq!(LayoutConfig { line_height: 0, ..good }.check(), Err(LayoutError::ZeroLineHeight));
    assert_eq!(LayoutConfig { gutter: 1191, ..good }.check(), Err(LayoutError::MarginsTooWide));
    assert_eq!(LayoutConfig { padding: u32::MAX, ..good }.check(), Err(LayoutError::MarginsTooWide));
    assert_eq!(LayoutConfig { top: 601, ..good }.check(), Err(LayoutError::TopBelowCanvas));
    assert_eq!(LayoutConfig { width: 100, ..good }.check(), Err(LayoutError::RowTooNarrow));
    assert_eq!(LayoutConfig { advance: 28551, ..good }.check(), Err(LayoutError::RowTooNarrow));
    assert_eq!(LayoutConfig { advance: 28550, ..good }.check(), Ok(()));
    assert_eq!(
        LayoutConfig { advance: 0, line_height: 0, top: 700, ..good }.check(),
        Err(LayoutError::ZeroAdvance)
    );
}

#[test]
fn one_short_line() {
    let cfg = LayoutConfig::standard();
    let ops = layout(&cfg, &vec![line(1, &["fn", " ", "main() {}\n"])]);
    assert_eq!(ops.len(), 5);
    match &ops[0] {
        DrawOp::Text { x, y, size, face, color, bold, italic, text } => {
            // One digit, ending at the gutter's right edge: 48 - 22.26.
            assert_eq!((*x, *y, *size, *face, *color), (25, 85, 42, Face::Mono, LABEL));
            assert_eq!((*bold, *italic), (false, false));
            assert_eq!(text, "1");
        }
        other => panic!("{:?}", other),
    }
    match &ops[1] {
        DrawOp::Rule { x0, y0, x1, y1, color } => {
            assert_eq!((*x0, *y0, *x1, *y1, *color), (0, 127, 48, 127, RULE));
        }
        other => panic!("{:?}", other),
    }
    assert_eq!(
        texts_of(&ops[2..]),
        vec![
            (53, 85, "fn".to_string()),
            (97, 85, " ".to_string()),
            (119, 85, "main() {}".to_string()),
        ]
    );
}

#[test]
fn styles_are_carried_onto_the_operations() {
    let cfg = LayoutConfig::standard();
    let styled = StyleRun {
        color: Rgba { r: 1, g: 2, b: 3, a: 4 },
        bold: true,
        italic: true,
        text: "x".to_string(),
    };
    let mut ops = Vec::new();
    let at = layout_run(&cfg, &styled, 5300, 85, &mut ops);
    assert_eq!(at, (5300 + 2226, 85));
    match &ops[0] {
        DrawOp::Text { color, bold, italic, face, size, .. } => {
            assert_eq!(*color, Rgba { r: 1, g: 2, b: 3, a: 4 });
            assert!(*bold && *italic);
            assert_eq!((*face, *size), (Face::Mono, 42));
        }
        other => panic!("{:?}", other),
    }
}

#[test]
fn labels_end_at_the_gutter_but_never_start_left_of_the_padding() {
    let cfg = LayoutConfig::standard();
    for (number, want_x) in [(7u32, 25u64), (42, 5), (123, 5), (4_000_000_000, 5)] {
        let mut ops = Vec::new();
        let next = layout_line(&cfg, &line(number, &[]), 85, &mut ops);
        assert_eq!(next, 127);
        assert_eq!(texts_of(&ops), vec![(want_x, 85, number.to_string())]);
    }
    let wide = LayoutConfig { gutter: 100, ..cfg };
    let mut ops = Vec::new();
    layout_line(&wide, &line(42, &[]), 85, &mut ops);
    // 100 - 2 * 22.26 = 55.48
    assert_eq!(texts_of(&ops), vec![(55, 85, "42".to_string())]);
}

#[test]
fn an_empty_line_has_a_label_and_no_body() {
    let cfg = LayoutConfig::standard();
    let ops = layout(&cfg, &vec![line(1, &["\n"]), line(2, &[])]);
    assert_eq!(
        texts_of(&ops),
        vec![(25, 85, "1".to_string()), (25, 127, "2".to_string())]
    );
    assert_eq!(ops.len(), 4);
}

#[test]
fn a_long_line_wraps_inside_the_margins() {
    let cfg = LayoutConfig::standard();
    let long = "x".repeat(10_000);
    let mut ops = Vec::new();
    let at = layout_run(&cfg, &run(&long), 5300, 85, &mut ops);
    let rows = texts_of(&ops);
    // 51 glyphs per row; rows below the canvas are not drawn.
    assert!(rows.len() > 1);
    assert_eq!(rows.len(), 13);
    let mut seen = String::new();
    for (k, (x, y, text)) in rows.iter().enumerate() {
        assert_eq!(*x, 53);
        assert_eq!(*y, 85 + 42 * k as u64);
        assert_eq!(text.len(), 51);
        assert!(x * 100 + text.len() as u64 * 2226 <= (1200 - 5) * 100);
        assert!(*y < 600);
        seen.push_str(text);
    }
    assert!(long.starts_with(&seen));
    // 10_000 = 196 * 51 + 4: the cursor ends four glyphs into a row on the
    // bottom edge.
    assert_eq!(at, (5300 + 4 * 2226, 600));
}

#[test]
fn a_run_goes_on_where_the_row_stands() {
    let cfg = LayoutConfig::standard();
    let mut ops = Vec::new();
    // 40 glyphs are taken; 11 are left on the row.
    let at = layout_run(&cfg, &run(&"y".repeat(20)), 5300 + 40 * 2226, 85, &mut ops);
    assert_eq!(
        texts_of(&ops),
        vec![(943, 85, "y".repeat(11)), (53, 127, "y".repeat(9))]
    );
    assert_eq!(at, (5300 + 9 * 2226, 127));
}

#[test]
fn wrapped_rows_start_past_the_gutter_not_under_the_run() {
    let cfg = LayoutConfig::standard();
    let ops = layout(&cfg, &vec![line(1, &[&"a".repeat(30), &"b".repeat(30)])]);
    assert_eq!(
        texts_of(&ops[2..]),
        vec![
            (53, 85, "a".repeat(30)),
            (53 + 667, 85, "b".repeat(21)),
            (53, 127, "b".repeat(9)),
        ]
    );
}

#[test]
fn a_blank_remainder_takes_no_row() {
    let cfg = LayoutConfig::standard();
    let mut ops = Vec::new();
    // 51 glyphs fit; the 30 spaces that follow would start a blank row.
    let text = format!("{}{}", "z".repeat(51), " ".repeat(30));
    let at = layout_run(&cfg, &run(&text), 5300, 85, &mut ops);
    assert_eq!(texts_of(&ops), vec![(53, 85, "z".repeat(51))]);
    assert_eq!(at, (5300 + 51 * 2226, 85));
    // A run of nothing but spaces that overflows draws its first row only.
    let mut ops = Vec::new();
    let at = layout_run(&cfg, &run(&" ".repeat(200)), 5300, 85, &mut ops);
    assert_eq!(texts_of(&ops), vec![(53, 85, " ".repeat(51))]);
    assert_eq!(at.1, 85);
}

#[test]
fn line_feeds_are_not_drawn() {
    let cfg = LayoutConfig::standard();
    let mut ops = Vec::new();
    let at = layout_run(&cfg, &run("ab\ncd\n"), 5300, 85, &mut ops);
    assert_eq!(texts_of(&ops), vec![(53, 85, "abcd".to_string())]);
    assert_eq!(at, (5300 + 4 * 2226, 85));
}

#[test]
fn multi_byte_text_is_never_cut_inside_a_character() {
    let cfg = LayoutConfig::standard();
    let text = "日本語".repeat(40);
    let mut ops = Vec::new();
    layout_run(&cfg, &run(&text), 5300, 85, &mut ops);
    let rows = texts_of(&ops);
    let joined: String = rows.iter().map(|r| r.2.as_str()).collect();
    assert_eq!(joined, text);
    for (x, _, t) in &rows {
        assert!(t.len() <= 51);
        assert_eq!(t.len() % 3, 0);
        assert!(x * 100 + t.len() as u64 * 2226 <= 119500);
    }
}

#[test]
fn layout_stops_where_the_next_row_would_reach_the_bottom_padding() {
    let cfg = LayoutConfig::standard();
    let lines: Vec<Line> = (1..=100).map(|n| line(n, &["text\n"])).collect();
    let ops = layout(&cfg, &lines);
    let labels: Vec<String> = texts_of(&ops)
        .into_iter()
        .filter(|(x, _, _)| *x < 53)
        .map(|(_, _, t)| t)
        .collect();
    let want: Vec<String> = (1..=12).map(|n: u32| n.to_string()).collect();
    assert_eq!(labels, want);
    // Rows at 85, 127, .., 547; a row at 589 would end at 622 > 595.
    let last = texts_of(&ops).last().unwrap().clone();
    assert_eq!(last, (53, 547, "text".to_string()));
    assert_eq!(ops.len(), 12 * 3);
}

#[test]
fn no_lines_no_operations() {
    assert!(layout(&LayoutConfig::standard(), &vec![]).is_empty());
}
