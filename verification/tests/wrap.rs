use oxiilink::text::{char_is_space, is_blank};
use oxiilink::wrap::{byte_len, cut_for_row, floor_char_boundary, wrap_run};

#[test]
fn ascii_wraps_greedily() {
    assert_eq!(wrap_run("abcdefghij", 3, 4), vec!["abc", "defg", "hij"]);
    assert_eq!(wrap_run("abcdefgh", 0, 4), vec!["", "abcd", "efgh"]);
    assert_eq!(wrap_run("abc", 3, 4), vec!["abc"]);
    assert_eq!(wrap_run("abc", 10, 4), vec!["abc"]);
    assert_eq!(wrap_run("", 0, 4), vec![""]);
    assert_eq!(wrap_run("abcd", 2, 2), vec!["ab", "cd"]);
}

#[test]
fn cuts_move_down_to_character_boundaries() {
    // 'é' takes two bytes, '€' three, '𝄞' four.
    assert_eq!(wrap_run("aé€𝄞b", 2, 4), vec!["a", "é", "€", "𝄞", "b"]);
    assert_eq!(wrap_run("ééééé", 3, 5), vec!["é", "éé", "éé"]);
    assert_eq!(wrap_run("𝄞𝄞", 3, 4), vec!["", "𝄞", "𝄞"]);
}

#[test]
fn fragments_put_together_are_the_run() {
    let texts = [
        "fn main() { println!(\"héllo wörld\"); }",
        "日本語のテキストを折り返す",
        "mixed ascii и кириллица and 𝄞 clefs 𝄞𝄞𝄞",
        "",
        "    ",
        "a",
    ];
    for text in texts {
        for first in 0..12 {
            for cap in 4..12 {
                let frags = wrap_run(text, first, cap);
                assert_eq!(frags.concat(), text);
                assert!(!frags.is_empty());
                assert!(frags[0].len() <= first);
                for f in &frags[1..] {
                    assert!(!f.is_empty() && f.len() <= cap, "{:?} in {:?}", f, text);
                }
                // Greedy: no fragment could have taken the next character.
                for w in frags.windows(2) {
                    let next = w[1].chars().next().unwrap().len_utf8();
                    let room = if std::ptr::eq(&w[0], &frags[0]) { first } else { cap };
                    assert!(w[0].len() + next > room);
                }
            }
        }
    }
}

#[test]
fn a_row_too_narrow_for_a_character_still_ends_the_text() {
    assert_eq!(wrap_run("𝄞𝄞", 0, 3), vec!["", "𝄞𝄞"]);
    assert_eq!(wrap_run("ab", 0, 0), vec!["", "ab"]);
}

#[test]
fn floor_boundary_and_cuts() {
    let text = "a€b";
    assert_eq!(byte_len(text), 5);
    assert_eq!(floor_char_boundary(text, 0), 0);
    assert_eq!(floor_char_boundary(text, 1), 1);
    assert_eq!(floor_char_boundary(text, 2), 1);
    assert_eq!(floor_char_boundary(text, 3), 1);
    assert_eq!(floor_char_boundary(text, 4), 4);
    assert_eq!(floor_char_boundary(text, 5), 5);
    assert_eq!(floor_char_boundary(text, 9), 5);
    assert_eq!(cut_for_row(text, 3), 1);
    assert_eq!(cut_for_row(text, 5), 5);
    assert_eq!(cut_for_row(text, 100), 5);
}

#[test]
fn white_space_is_what_std_says() {
    for u in 0..=0x10ffffu32 {
        if let Some(c) = char::from_u32(u) {
            assert_eq!(char_is_space(c), c.is_whitespace(), "U+{:04X}", u);
        }
    }
}

#[test]
fn blank_texts() {
    assert!(is_blank(""));
    assert!(is_blank("  \t\n"));
    assert!(is_blank("\u{a0}\u{2003}\u{3000}"));
    assert!(!is_blank("  a "));
    assert!(!is_blank("\u{200b}"));
    for text in ["", " ", "x", " x", "\n\n", "é ", "\u{2028}"] {
        assert_eq!(is_blank(text), text.trim().is_empty());
    }
}

#[test]
fn a_long_run_takes_as_many_rows_as_its_bytes_need() {
    let text = "x".repeat(10_000);
    let frags = wrap_run(&text, 30, 48);
    assert_eq!(frags.len(), 1 + (10_000 - 30 + 47) / 48);
    assert_eq!(frags[0].len(), 30);
    assert!(frags[1..frags.len() - 1].iter().all(|f| f.len() == 48));
    assert_eq!(frags[frags.len() - 1].len(), (10_000 - 30) % 48);
    let wide = "é".repeat(100);
    let frags = wrap_run(&wide, 5, 7);
    assert!(frags.len() > 1);
    assert!(wide.len() <= 5 + (frags.len() - 1) * 7);
    assert!(frags[1..].iter().all(|f| !f.is_empty() && f.len() <= 7));
}
