use oxiilink::html::{
    analytics_text, embed_description, frame_page, highlight_to_html, new_embed, piece_text,
    prefix_at, sanitize_html, slot_after, tidy_text, Slot,
};
use oxiilink::render::{default_syntaxes, resolve_syntax};

#[test]
fn markup_is_escaped() {
    assert_eq!(sanitize_html("<b>Tom & Jerry</b>"), "&lt;b&gt;Tom &amp; Jerry&lt;/b&gt;");
    assert_eq!(sanitize_html("a<"), "a&lt;");
    assert_eq!(sanitize_html("&&"), "&amp;&amp;");
    assert_eq!(sanitize_html("&amp;"), "&amp;amp;");
    assert_eq!(sanitize_html("plain text"), "plain text");
    assert_eq!(sanitize_html(""), "");
    assert_eq!(sanitize_html("héllo <wörld> 𝄞&"), "héllo &lt;wörld&gt; 𝄞&amp;");
    assert_eq!(sanitize_html("日本語"), "日本語");
}

#[test]
fn descriptions_are_cut_at_the_limit() {
    assert_eq!(embed_description("hello world", 5), ("hello".to_string(), true));
    assert_eq!(embed_description("hello", 5), ("hello".to_string(), false));
    assert_eq!(embed_description("hello", 50), ("hello".to_string(), false));
    assert_eq!(embed_description("", 0), ("".to_string(), false));
    assert_eq!(embed_description("abc", 0), ("".to_string(), true));
    // A cut inside a character shows nothing.
    assert_eq!(embed_description("aé", 2), ("".to_string(), true));
    assert_eq!(embed_description("aé", 3), ("aé".to_string(), false));
    assert_eq!(prefix_at("aé", 2), None);
    assert_eq!(prefix_at("aé", 1).as_deref(), Some("a"));
    assert_eq!(prefix_at("aé", 9).as_deref(), Some("aé"));
}

#[test]
fn the_page_frames_every_row() {
    let rows = vec!["<span>a</span>".to_string(), "".to_string(), "b".to_string()];
    assert_eq!(
        frame_page("<p>x</p>", &rows),
        "<!DOCTYPE html>\n<html><head>\n<link rel=\"stylesheet\" href=\"/files/maintheme.css\"></head><body><p>x</p><pre class=\"code\"><i></i><span>a</span>\n<i></i>\n<i></i>b\n</pre>\n</body></html>"
    );
    assert_eq!(
        frame_page("", &vec![]),
        "<!DOCTYPE html>\n<html><head>\n<link rel=\"stylesheet\" href=\"/files/maintheme.css\"></head><body><pre class=\"code\"></pre>\n</body></html>"
    );
}

#[test]
fn source_is_highlighted_into_a_page() {
    let set = default_syntaxes();
    let text = "fn main() {}\nlet x = 1;\n";
    let syntax = resolve_syntax(&set, Some("rs"), text).unwrap();
    let page = highlight_to_html(text, &set, syntax, "<nav></nav>").unwrap();
    assert!(page.starts_with("<!DOCTYPE html>\n<html><head>"));
    assert!(page.contains("</head><body><nav></nav><pre class=\"code\"><i></i><span class=\"source rust\">"));
    assert!(page.ends_with("</span>\n</pre>\n</body></html>"));
    // Two lines of source and the row that closes the outermost span.
    assert_eq!(page.matches("<i></i>").count(), 3);
    assert!(page.contains("main"));
    // Source without lines always gives a page: the frame around nothing.
    assert_eq!(
        highlight_to_html("", &set, syntax, "<nav></nav>").as_deref(),
        Some(frame_page("<nav></nav>", &vec![]).as_str())
    );
}

#[test]
fn rows_come_without_their_line_ends() {
    let set = default_syntaxes();
    let plain = resolve_syntax(&set, None, "x").unwrap();
    let page = highlight_to_html("a\r\nb\n\nc\r", &set, plain, "").unwrap();
    let body = page.split("<pre class=\"code\">").nth(1).unwrap();
    // Four rows: the carriage return before a line feed goes, a bare one stays.
    assert_eq!(body.matches("<i></i>").count(), 4);
    assert!(body.contains("a\n<i></i>b\n<i></i>\n<i></i>c\r"));
}

#[test]
fn rendered_pages_are_tidied() {
    assert_eq!(
        tidy_text("# Title\nsee [the docs][1] here\n\n[1]: https://example.org/docs\n").as_deref(),
        Some(" Title\nsee the docs here")
    );
    assert_eq!(tidy_text("`curl example`\nnext").as_deref(), Some("    curl example\nnext"));
    assert_eq!(
        tidy_text("Made by CordlessCoder:source  \n\n").as_deref(),
        Some("Made by CordlessCoder")
    );
    assert_eq!(tidy_text("a\n \n b").as_deref(), Some("ab"));
    assert_eq!(tidy_text("").as_deref(), Some(""));
}

fn card(title: &str, site_name: &str, description: &str, url: &str, image: &str) -> String {
    format!(
        "<meta name='twitter:card' content='summary_large_image' /><meta name='twitter:image:src' content='{image}' /><meta name='twitter:title' content='{title}' /><meta name='twitter:description' content='{description}' /><meta property='og:image' content='{image}' /><meta property='og:image:alt' content='{description}' /><meta property='og:site_name' content='{site_name}' /><meta property='og:type' content='object' /><meta property='og:title' content='{title}' /><meta property='og:url' content='{url}' /><meta property='og:description' content='{description}' />
<html>
  <head>
    <meta charset='utf-8' />
    <title>{title}</title>
    <meta name='og:site_name' content='{site_name}' />
    'meta name='author' content='CordlessCoder' />
    <meta
      name='description'
      content='{description}'
    />
    <meta property='og:title' content='{title}' />
    <meta
      content='{description}'
      property='og:description'
    />
    <meta property='og:url' content='{url}' />
    <meta content='#F7768E' data-react-helmet='true' name='theme-color' />
  </head>
</html>"
    )
}

#[test]
fn embed_cards_are_written_out() {
    assert_eq!(
        new_embed("Title", "Site", "short", "https://a.b/c", 50, "https://a.b/i/c"),
        card("Title", "Site", "short", "https://a.b/c", "https://a.b/i/c")
    );
    assert_eq!(
        new_embed("T", "S", "a long description", "u", 6, "i"),
        card("T", "S", "a long...", "u", "i")
    );
    assert_eq!(new_embed("T", "S", "éé", "u", 1, ""), card("T", "S", "...", "u", ""));
    assert_eq!(new_embed("", "", "", "", 0, ""), card("", "", "", "", ""));
    assert_eq!(piece_text(9), "' />\n<html>\n  <head>\n    <meta charset='utf-8' />\n    <title>");
    assert_eq!(slot_after(0), Slot::Image);
    assert_eq!(slot_after(14), Slot::Url);
}

#[test]
fn analytics_are_three_lines() {
    assert_eq!(
        analytics_text(12, 0, "14/11/2023 22:13"),
        "Views: 12\nScrapes: 0\nCreated: 14/11/2023 22:13"
    );
    assert_eq!(
        analytics_text(u32::MAX, 7, ""),
        "Views: 4294967295\nScrapes: 7\nCreated: "
    );
}
