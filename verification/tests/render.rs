use oxiilink::canvas::{RasterImage, Rgba};
use oxiilink::layout::{DrawOp, Face, LayoutConfig, Line, StyleRun};
use oxiilink::render::{
    begin, blank_canvas, cache_cost, caption_from, choose_syntax, copy_runs, create_image,
    created_caption, default_syntaxes, grammar_by_token,
    draw_plan, encode_canvas, finish, header_ops, highlight_lines, invalidation_keys, number_lines,
    on_cache, on_content, paste_text, resolve_syntax, round_template, split_target, template_ops,
    Begin, Cached, Finished, Located, Paste, RenderKey,
};
use syntect::highlighting::ThemeSet;
use syntect::parsing::SyntaxSet;

fn run(text: &str) -> StyleRun {
    StyleRun { color: Rgba { r: 1, g: 2, b: 3, a: 255 }, bold: false, italic: false, text: text.to_string() }
}

#[test]
fn targets_split_at_the_first_dot() {
    let cases: [(&str, &str, Option<&str>); 7] = [
        ("abc.rs", "abc", Some("rs")),
        ("abc", "abc", None),
        ("a.b.c", "a", Some("b.c")),
        (".rs", "", Some("rs")),
        ("abc.", "abc", Some("")),
        ("", "", None),
        ("héé.ü", "héé", Some("ü")),
    ];
    for (target, id, ext) in cases {
        let parts = split_target(target);
        assert_eq!(parts.id, id);
        assert_eq!(parts.extension.as_deref(), ext);
        assert_eq!(
            (parts.id.as_str(), parts.extension.as_deref()),
            match target.split_once('.') {
                Some((a, b)) => (a, Some(b)),
                None => (target, None),
            }
        );
    }
}

#[test]
fn an_id_that_is_too_long_is_not_found_at_once() {
    assert!(matches!(begin("abcd.rs", 3), Begin::NotFound));
    assert!(matches!(begin("abcd", 3), Begin::NotFound));
    // 'é' counts two bytes.
    assert!(matches!(begin("aéb", 3), Begin::NotFound));
    match begin("abc.rs", 3) {
        Begin::Fetch { id, extension } => {
            assert_eq!(id, "abc");
            assert_eq!(extension.as_deref(), Some("rs"));
        }
        Begin::NotFound => panic!("abc is short enough"),
    }
    match begin("ab", 3) {
        Begin::Fetch { id, extension } => {
            assert_eq!(id, "ab");
            assert_eq!(extension, None);
        }
        Begin::NotFound => panic!("ab is short enough"),
    }
}

#[test]
fn content_that_is_not_text_is_replaced() {
    assert_eq!(paste_text(&b"fn main() {}\n".to_vec()), "fn main() {}\n");
    assert_eq!(paste_text(&"héllo".as_bytes().to_vec()), "héllo");
    assert_eq!(paste_text(&vec![0xff, 0xfe, 0x00]), "Binary paste");
    assert_eq!(paste_text(&vec![0xc3]), "Binary paste");
    assert_eq!(paste_text(&vec![0xed, 0xa0, 0x80]), "Binary paste");
    assert_eq!(paste_text(&vec![]), "");
}

#[test]
fn the_extension_beats_the_first_line_beats_plain_text() {
    assert_eq!(choose_syntax(Some(1), Some(2), Some(3)), Some(1));
    assert_eq!(choose_syntax(None, Some(2), Some(3)), Some(2));
    assert_eq!(choose_syntax(None, None, Some(3)), Some(3));
    assert_eq!(choose_syntax::<u8>(None, None, None), None);
    assert_eq!(choose_syntax(Some(1), None, None), Some(1));
}

#[test]
fn rust_source_resolves_to_the_rust_grammar() {
    let set = default_syntaxes();
    let body = "fn main() {}\n";
    let syntax = resolve_syntax(&set, Some("rs"), body).unwrap();
    assert_eq!(syntax.name, "Rust");
    // Another hint for the same grammar gives the same name, hence the same key.
    let again = resolve_syntax(&set, Some("rust"), body).unwrap();
    assert_eq!(again.name, "Rust");
    // No hint: the first line decides, else plain text.
    assert_eq!(resolve_syntax(&set, None, "#!/bin/bash\necho hi\n").unwrap().name,
        "Bourne Again Shell (bash)");
    assert_eq!(resolve_syntax(&set, None, body).unwrap().name, "Plain Text");
    assert_eq!(resolve_syntax(&set, Some("no-such-language"), body).unwrap().name, "Plain Text");
    assert_eq!(grammar_by_token(&set, "rs").unwrap().name, "Rust");
    assert_eq!(grammar_by_token(&set, "RUST").unwrap().name, "Rust");
    assert!(grammar_by_token(&set, "no-such-language").is_none());
    assert!(set.syntaxes().iter().any(|s| s.name == "Plain Text"));
    // A set without grammars has nothing to fall back on.
    assert!(resolve_syntax(&SyntaxSet::new(), Some("rs"), body).is_none());
    assert!(resolve_syntax(&SyntaxSet::new(), None, "#!/bin/bash\n").is_none());
    // A set with the plain-text grammar always gives a grammar.
    for hint in [None, Some(""), Some("rs"), Some("\u{0}"), Some("no such thing")] {
        for text in ["", "\n", "#!/", "\u{feff}x"] {
            assert!(resolve_syntax(&set, hint, text).is_some());
        }
    }
}

#[test]
fn a_rust_paste_is_drawn_under_its_grammars_name() {
    let set = default_syntaxes();
    let themes = ThemeSet::load_defaults();
    let theme = &themes.themes["Solarized (dark)"];
    let paste = Paste { bytes: b"fn main() {}\n".to_vec(), created_at: 1_700_000_000 };
    let (key, syntax, text, created_at) = match on_content(&set, "abc", Some("rs"), Some(paste)) {
        Located::Lookup { key, syntax, text, created_at } => (key, syntax, text, created_at),
        _ => panic!("the paste exists"),
    };
    assert_eq!(key.paste_id, "abc");
    assert_eq!(key.syntax_name, "Rust");
    assert_eq!(key.cache_key(), "abcRust");
    assert_eq!(text, "fn main() {}\n");
    assert_eq!(created_at, 1_700_000_000);
    let lines = highlight_lines(&set, theme, syntax, &text);
    assert_eq!(lines.len(), 1);
    assert_eq!(lines[0].number, 1);
    let joined: String = lines[0].runs.iter().map(|r| r.text.as_str()).collect();
    assert_eq!(joined, "fn main() {}\n");
    assert!(lines[0].runs.len() > 1);
    let ops = draw_plan(&LayoutConfig::standard(), &key.syntax_name, created_at, &lines);
    match &ops[0] {
        DrawOp::Text { x, y, size, face, text, color, .. } => {
            assert_eq!(text, "Rust");
            assert_eq!((*x, *y, *size, *face), (5, 5, 50, Face::Logo));
            assert_eq!(*color, Rgba { r: 169, g: 177, b: 214, a: 255 });
        }
        other => panic!("{:?}", other),
    }
    match &ops[1] {
        DrawOp::Text { x, y, size, face, text, .. } => {
            assert_eq!(text, "Created: 22:13 14/11/2023");
            assert_eq!((*x, *y, *size, *face), (5, 50, 30, Face::Mono));
        }
        other => panic!("{:?}", other),
    }
    match &ops[2] {
        DrawOp::Text { x, y, text, .. } => {
            assert_eq!(text, "1");
            assert_eq!((*x, *y), (25, 85));
        }
        other => panic!("{:?}", other),
    }
    assert!(matches!(ops[3], DrawOp::Rule { .. }));
    let body: String = ops[4..]
        .iter()
        .map(|op| match op {
            DrawOp::Text { text, .. } => text.clone(),
            _ => String::new(),
        })
        .collect();
    assert_eq!(body, "fn main() {}");
}

#[test]
fn hints_for_one_grammar_share_one_key() {
    let set = default_syntaxes();
    let mut keys = Vec::new();
    for hint in ["rs", "rust", "Rust"] {
        let paste = Paste { bytes: b"fn main() {}\n".to_vec(), created_at: 0 };
        match on_content(&set, "abc", Some(hint), Some(paste)) {
            Located::Lookup { key, .. } => keys.push(key.cache_key()),
            _ => panic!("the paste exists"),
        }
    }
    assert_eq!(keys, vec!["abcRust", "abcRust", "abcRust"]);
}

#[test]
fn a_deleted_paste_is_not_found_whatever_the_cache_holds() {
    let set = default_syntaxes();
    assert!(matches!(on_content(&set, "abc", Some("rs"), None), Located::NotFound));
    assert!(matches!(on_content(&set, "abc", None, None), Located::NotFound));
    let paste = Paste { bytes: vec![], created_at: 0 };
    assert!(matches!(on_content(&SyntaxSet::new(), "abc", None, Some(paste)), Located::NoGrammar));
}

#[test]
fn a_cache_hit_is_answered_byte_for_byte() {
    let png = vec![0x89, b'P', b'N', b'G', 1, 2, 3];
    match on_cache(Some(png.clone())) {
        Cached::Respond { png: out } => assert_eq!(out, png),
        Cached::Render => panic!("the cache held the render"),
    }
    assert!(matches!(on_cache(None), Cached::Render));
    assert!(matches!(on_cache(Some(vec![])), Cached::Respond { .. }));
}

#[test]
fn keys_and_invalidation() {
    let key = RenderKey::new("abc", "Plain Text");
    assert_eq!(key.cache_key(), "abcPlain Text");
    let names = vec!["Rust".to_string(), "Plain Text".to_string(), "".to_string()];
    assert_eq!(
        invalidation_keys("abc", &names),
        vec!["abcRust", "abcPlain Text", "abc"]
    );
    assert!(invalidation_keys("abc", &vec![]).is_empty());
}

#[test]
fn the_creation_time_is_printed_in_utc() {
    assert_eq!(created_caption(0).as_deref(), Some("Created: 00:00 01/01/1970"));
    assert_eq!(created_caption(1_700_000_000).as_deref(), Some("Created: 22:13 14/11/2023"));
    assert_eq!(created_caption(951_782_399).as_deref(), Some("Created: 23:59 28/02/2000"));
    assert_eq!(created_caption(-1).as_deref(), Some("Created: 23:59 31/12/1969"));
    assert_eq!(created_caption(i64::MAX), None);
    assert_eq!(created_caption(i64::MIN), None);
    assert_eq!(caption_from(Some("x".to_string())).as_deref(), Some("Created: x"));
    assert_eq!(caption_from(None), None);
}

#[test]
fn the_header_is_the_banner_and_the_caption() {
    let ops = header_ops(5, "Rust", Some("Created: then".to_string()));
    assert_eq!(ops.len(), 2);
    let ops = header_ops(7, "Plain Text", None);
    assert_eq!(ops.len(), 1);
    match &ops[0] {
        DrawOp::Text { x, y, size, face, text, bold, italic, .. } => {
            assert_eq!((*x, *y, *size, *face), (7, 7, 50, Face::Logo));
            assert_eq!(text, "Plain Text");
            assert!(!*bold && !*italic);
        }
        other => panic!("{:?}", other),
    }
}

#[test]
fn lines_are_numbered_from_one_and_failed_lines_take_no_number() {
    let outcomes = vec![
        Some(vec![run("a")]),
        None,
        Some(vec![]),
        Some(vec![run("b"), run("c")]),
        None,
    ];
    let lines: Vec<Line> = number_lines(&outcomes);
    assert_eq!(lines.len(), 3);
    assert_eq!(lines.iter().map(|l| l.number).collect::<Vec<_>>(), vec![1, 2, 3]);
    assert_eq!(lines[0].runs[0].text, "a");
    assert!(lines[1].runs.is_empty());
    assert_eq!(lines[2].runs[1].text, "c");
    assert!(number_lines(&vec![]).is_empty());
    let copy = copy_runs(&vec![run("x"), run("y")]);
    assert_eq!(copy.len(), 2);
    assert_eq!(copy[1].text, "y");
    assert_eq!(copy[1].color, Rgba { r: 1, g: 2, b: 3, a: 255 });
}

#[test]
fn every_line_of_a_text_is_highlighted() {
    let set = default_syntaxes();
    let themes = ThemeSet::load_defaults();
    let theme = &themes.themes["Solarized (dark)"];
    let text = "let a = 1;\n\nlet b = \"two\";\nlast line without feed";
    let syntax = resolve_syntax(&set, Some("rs"), text).unwrap();
    let lines = highlight_lines(&set, theme, syntax, text);
    assert_eq!(lines.len(), 4);
    let mut joined = String::new();
    for (k, l) in lines.iter().enumerate() {
        assert_eq!(l.number as usize, k + 1);
        for r in &l.runs {
            joined.push_str(&r.text);
        }
    }
    assert_eq!(joined, text);
    assert!(highlight_lines(&set, theme, syntax, "").is_empty());
    // The keyword and the string are coloured differently.
    let colours: std::collections::HashSet<(u8, u8, u8)> = lines[2]
        .runs
        .iter()
        .map(|r| (r.color.r, r.color.g, r.color.b))
        .collect();
    assert!(colours.len() > 1);
}

#[test]
fn the_template_is_background_with_rounded_corners() {
    let img = create_image((1000, 500), 5);
    assert_eq!(img.dimensions(), (1000, 500));
    assert_eq!(img.get_pixel(500, 250), Rgba { r: 17, g: 18, b: 29, a: 255 });
    for (x, y) in [(0, 0), (999, 0), (0, 499), (999, 499)] {
        assert_eq!(img.get_pixel(x, y), Rgba { r: 17, g: 18, b: 29, a: 0 });
    }
    assert_eq!(img.get_pixel(16, 0).a, 255);
    assert_eq!(img.get_pixel(15, 15).a, 255);
    assert_eq!(create_image((1000, 500), 5).into_pixels(), img.clone().into_pixels());
    // The same in two steps, with room for the banner in between.
    let mut stepwise = blank_canvas((1000, 500));
    assert_eq!(stepwise.get_pixel(0, 0), Rgba { r: 17, g: 18, b: 29, a: 255 });
    assert_eq!(round_template(&mut stepwise), Ok(()));
    assert_eq!(stepwise.into_pixels(), img.into_pixels());
    let mut small = blank_canvas((20, 40));
    assert!(round_template(&mut small).is_err());
    assert_eq!(create_image((32, 32), 0).get_pixel(16, 16).a, 255);
    let ops = template_ops((1200, 600), 5);
    assert_eq!(ops.len(), 3);
    match &ops[0] {
        DrawOp::Text { x, y, size, face, text, color, .. } => {
            assert_eq!((*x, *y, *size, *face), (865, 5, 80, Face::Logo));
            assert_eq!(text, "OxiiLink");
            assert_eq!(*color, Rgba { r: 247, g: 118, b: 142, a: 255 });
        }
        other => panic!("{:?}", other),
    }
    match (&ops[1], &ops[2]) {
        (
            DrawOp::Rule { x0, y0, x1, y1, .. },
            DrawOp::Rule { x0: a0, y0: b0, x1: a1, y1: b1, .. },
        ) => {
            assert_eq!((*x0, *y0, *x1, *y1), (0, 80, 1200, 80));
            assert_eq!((*a0, *b0, *a1, *b1), (50, 80, 50, 600));
        }
        other => panic!("{:?}", other),
    }
    match &template_ops((100, 50), 5)[0] {
        DrawOp::Text { x, .. } => assert_eq!(*x, 0),
        other => panic!("{:?}", other),
    }
}

#[test]
fn a_canvas_becomes_a_png_that_decodes_to_the_same_pixels() {
    let mut img = RasterImage::from_pixel(40, 30, Rgba { r: 17, g: 18, b: 29, a: 255 });
    img.put_pixel(3, 4, Rgba { r: 200, g: 100, b: 50, a: 25 });
    assert_eq!(round_template(&mut img), Err(oxiilink::corners::RadiiError::LeftEdge));
    assert_eq!(oxiilink::corners::round(&mut img, (8, 8, 8, 8)), Ok(()));
    let png = encode_canvas(&img).unwrap();
    assert_eq!(&png[0..8], &[0x89, b'P', b'N', b'G', 0x0d, 0x0a, 0x1a, 0x0a]);
    // The same canvas gives the same bytes.
    assert_eq!(encode_canvas(&img.clone()).unwrap(), png);
    let back = image::load_from_memory_with_format(&png, image::ImageFormat::Png)
        .unwrap()
        .to_rgba8();
    assert_eq!(back.dimensions(), (40, 30));
    assert_eq!(back.into_raw(), img.to_bytes());
    assert_eq!(cache_cost(&png), png.len() as i64);
    assert_eq!(cache_cost(&vec![]), 0);
    // An image without pixels is refused by the encoder.
    assert!(encode_canvas(&RasterImage::from_pixel(0, 0, Rgba::new(0, 0, 0, 0))).is_none());
}

#[test]
fn a_finished_render_is_offered_to_the_cache_under_its_key() {
    let img = RasterImage::from_pixel(4, 3, Rgba { r: 17, g: 18, b: 29, a: 255 });
    let key = RenderKey::new("abc", "Rust");
    match finish(&key, &img) {
        Finished::Store { key, png, cost } => {
            assert_eq!(key, "abcRust");
            assert_eq!(png, encode_canvas(&img).unwrap());
            assert_eq!(cost, png.len() as i64);
        }
        Finished::Failed => panic!("a canvas with pixels encodes"),
    }
    let empty = RasterImage::from_pixel(0, 0, Rgba::new(0, 0, 0, 0));
    assert!(matches!(finish(&key, &empty), Finished::Failed));
}
