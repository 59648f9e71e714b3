//! Text on its way into HTML: escaping, the cut of an embed card's
//! description and the frame around highlighted source.

use crate::outside::{
    classed_html, classed_markup, holds, lines_without_endings, text_lines, text_view, usable,
    utf8_text,
};
use crate::wrap::byte_len;
use vstd::prelude::*;
use vstd::string::StringExecFns;
use vstd::string::StringSliceAdditionalSpecFns;
use vstd::utf8::{
    decode_utf8, encode_utf8, encode_utf8_decode_utf8, encode_utf8_valid_utf8, is_char_boundary,
    length_of_first_scalar, pop_first_scalar, take_first_scalar, valid_utf8, valid_utf8_concat,
};

verus! {

/// Whether `b` is one of the three bytes that HTML reads as markup.
pub open spec fn is_markup(b: u8) -> bool {
    b == 0x3c || b == 0x3e || b == 0x26
}

/// What stands for one byte in escaped text: `&lt;`, `&gt;` and `&amp;` for
/// the three markup bytes, the byte itself for any other.
pub open spec fn escape_byte(b: u8) -> Seq<u8> {
    if b == 0x3c {
        seq![0x26u8, 0x6c, 0x74, 0x3b]
    } else if b == 0x3e {
        seq![0x26u8, 0x67, 0x74, 0x3b]
    } else if b == 0x26 {
        seq![0x26u8, 0x61, 0x6d, 0x70, 0x3b]
    } else {
        seq![b]
    }
}

/// Escaped text: every byte replaced by what stands for it.
pub open spec fn escaped(bytes: Seq<u8>) -> Seq<u8>
    decreases bytes.len(),
{
    if bytes.len() == 0 {
        Seq::empty()
    } else {
        escaped(bytes.drop_last()) + escape_byte(bytes.last())
    }
}

/// Text without markup bytes is its own escape.
pub proof fn lemma_escaped_plain(bytes: Seq<u8>)
    requires
        forall|k: int| 0 <= k < bytes.len() ==> !is_markup(bytes[k]),
    ensures
        escaped(bytes) == bytes,
    decreases bytes.len(),
{
    if bytes.len() > 0 {
        lemma_escaped_plain(bytes.drop_last());
        assert(bytes.drop_last() + seq![bytes.last()] =~= bytes);
    }
}

/// Escaping goes piece by piece.
pub proof fn lemma_escaped_concat(a: Seq<u8>, b: Seq<u8>)
    ensures
        escaped(a + b) == escaped(a) + escaped(b),
    decreases b.len(),
{
    if b.len() == 0 {
        assert(a + b =~= a);
        assert(escaped(a) + escaped(b) =~= escaped(a));
    } else {
        lemma_escaped_concat(a, b.drop_last());
        assert((a + b).drop_last() =~= a + b.drop_last());
        assert((a + b).last() == b.last());
        assert(escaped(a) + (escaped(b.drop_last()) + escape_byte(b.last())) =~= (escaped(a)
            + escaped(b.drop_last())) + escape_byte(b.last()));
    }
}

/// Bytes below 128 are valid UTF-8.
pub proof fn lemma_ascii_valid(bytes: Seq<u8>)
    requires
        forall|k: int| 0 <= k < bytes.len() ==> bytes[k] < 0x80,
    ensures
        valid_utf8(bytes),
    decreases bytes.len(),
{
    if bytes.len() > 0 {
        assert(bytes[0] < 0x80);
        let rest = pop_first_scalar(bytes);
        assert forall|k: int| 0 <= k < rest.len() implies rest[k] < 0x80 by {
            assert(rest[k] == bytes[k + 1]);
        }
        lemma_ascii_valid(rest);
    }
}

/// Escaped text is valid UTF-8 wherever the text was: escaping touches
/// single-byte characters only and puts single-byte characters in their
/// place.
pub proof fn lemma_escaped_valid(bytes: Seq<u8>)
    requires
        valid_utf8(bytes),
    ensures
        valid_utf8(escaped(bytes)),
    decreases bytes.len(),
{
    if bytes.len() == 0 {
    } else {
        let n = length_of_first_scalar(bytes);
        let head = take_first_scalar(bytes);
        let tail = pop_first_scalar(bytes);
        assert(head + tail =~= bytes);
        lemma_escaped_concat(head, tail);
        lemma_escaped_valid(tail);
        if n == 1 {
            assert(head =~= seq![bytes[0]]);
            assert(head.drop_last() =~= Seq::<u8>::empty());
            assert(head.last() == bytes[0]);
            assert(escaped(head.drop_last()) =~= Seq::<u8>::empty());
            assert(escaped(head) =~= escape_byte(bytes[0]));
            lemma_ascii_valid(escape_byte(bytes[0]));
        } else {
            assert forall|k: int| 0 <= k < head.len() implies !is_markup(head[k]) by {
                assert(head[k] == bytes[k]);
            }
            lemma_escaped_plain(head);
            assert(valid_utf8(head)) by {
                reveal_with_fuel(valid_utf8, 2);
                assert(pop_first_scalar(head) =~= Seq::<u8>::empty());
            }
        }
        valid_utf8_concat(escaped(head), escaped(tail));
    }
}

/// Escapes the three markup characters `<`, `>` and `&` of `input` as
/// `&lt;`, `&gt;` and `&amp;`. Text without them comes back as it is.
pub fn sanitize_html(input: &str) -> (out: String)
    ensures
        encode_utf8(out@) == escaped(encode_utf8(input@)),
{
    let bytes = input.as_bytes();
    let first = match memchr::memchr3(0x3cu8, 0x3eu8, 0x26u8, bytes) {
        Some(first) => first,
        None => {
            proof {
                lemma_escaped_plain(bytes@);
            }
            return input.to_owned();
        },
    };
    let mut output: Vec<u8> = Vec::new();
    let mut i: usize = 0;
    while i < first
        invariant
            first < bytes@.len(),
            i <= first,
            output@ == bytes@.take(i as int),
        decreases first - i,
    {
        output.push(bytes[i]);
        proof {
            assert(bytes@.take(i + 1) =~= bytes@.take(i as int).push(bytes@[i as int]));
        }
        i = i + 1;
    }
    proof {
        assert forall|k: int| 0 <= k < bytes@.take(first as int).len() implies !is_markup(
            bytes@.take(first as int)[k],
        ) by {}
        lemma_escaped_plain(bytes@.take(first as int));
    }
    while i < bytes.len()
        invariant
            i <= bytes@.len(),
            output@ == escaped(bytes@.take(i as int)),
        decreases bytes@.len() - i,
    {
        let c = bytes[i];
        let ghost before = output@;
        if c == 0x3cu8 {
            output.push(0x26u8);
            output.push(0x6cu8);
            output.push(0x74u8);
            output.push(0x3bu8);
        } else if c == 0x3eu8 {
            output.push(0x26u8);
            output.push(0x67u8);
            output.push(0x74u8);
            output.push(0x3bu8);
        } else if c == 0x26u8 {
            output.push(0x26u8);
            output.push(0x61u8);
            output.push(0x6du8);
            output.push(0x70u8);
            output.push(0x3bu8);
        } else {
            output.push(c);
        }
        proof {
            assert(output@ =~= before + escape_byte(c));
            assert(bytes@.take(i + 1).drop_last() =~= bytes@.take(i as int));
            assert(bytes@.take(i + 1).last() == c);
        }
        i = i + 1;
    }
    proof {
        assert(bytes@.take(bytes@.len() as int) =~= bytes@);
        encode_utf8_valid_utf8(input@);
        lemma_escaped_valid(bytes@);
    }
    match utf8_text(output.as_slice()) {
        Some(text) => text.to_owned(),
        None => String::new(),
    }
}

/// The part of `text` that is shown where at most `limit` bytes may be: its
/// first `limit` bytes, or all of it if it is shorter. Where the cut would
/// fall inside a character there is no such part.
pub open spec fn shown_prefix(text: Seq<char>, limit: nat) -> Option<Seq<u8>> {
    let bytes = encode_utf8(text);
    let cut = if limit < bytes.len() {
        limit
    } else {
        bytes.len()
    };
    if is_char_boundary(bytes, cut as int) {
        Some(bytes.take(cut as int))
    } else {
        None
    }
}

/// The first `limit` bytes of `text`, all of it if it is shorter, `None`
/// where the cut would fall inside a character.
pub fn prefix_at(text: &str, limit: usize) -> (shown: Option<String>)
    ensures
        match shown {
            Some(s) => shown_prefix(text@, limit as nat) == Some(encode_utf8(s@)),
            None => shown_prefix(text@, limit as nat) is None,
        },
{
    let n = byte_len(text);
    let cut = if limit < n {
        limit
    } else {
        n
    };
    if text.is_char_boundary(cut) {
        let (head, _) = text.split_at(cut);
        proof {
            assert(text.spec_bytes().take(cut as int) =~= head.spec_bytes());
        }
        Some(head.to_owned())
    } else {
        None
    }
}

/// The description of an embed card: what is shown of it and whether an
/// ellipsis follows. A description longer than `limit` bytes is cut there
/// and gets the ellipsis; where the cut would fall inside a character
/// nothing is shown.
pub fn embed_description(description: &str, limit: usize) -> (shown: (String, bool))
    ensures
        shown.1 == (encode_utf8(description@).len() > limit),
        encode_utf8(shown.0@) == match shown_prefix(description@, limit as nat) {
            Some(s) => s,
            None => Seq::<u8>::empty(),
        },
{
    let long = byte_len(description) > limit;
    match prefix_at(description, limit) {
        Some(s) => (s, long),
        None => {
            let empty = String::new();
            proof {
                assert(encode_utf8(empty@) =~= Seq::<u8>::empty());
            }
            (empty, long)
        },
    }
}

/// The page around highlighted source: the head, the caller's extra
/// markup, then one row per line of the highlighted source.
pub open spec fn page_model(extra: Seq<char>, rows: Seq<Seq<char>>) -> Seq<char> {
    "<!DOCTYPE html>\n<html><head>\n<link rel=\"stylesheet\" href=\"/files/maintheme.css\"></head><body>"@
        + extra + "<pre class=\"code\">"@ + rows_model(rows) + "</pre>\n</body></html>"@
}

/// The rows of the page: each line behind an empty `<i>` element, which
/// carries the line number in the style sheet, and ended by a line feed.
pub open spec fn rows_model(rows: Seq<Seq<char>>) -> Seq<char>
    decreases rows.len(),
{
    if rows.len() == 0 {
        Seq::empty()
    } else {
        rows_model(rows.drop_last()) + "<i></i>"@ + rows.last() + "\n"@
    }
}

/// Puts the page around the lines of highlighted source.
pub fn frame_page(extra: &str, rows: &Vec<String>) -> (html: String)
    ensures
        html@ == page_model(extra@, crate::outside::text_views(rows@)),
{
    let ghost views = crate::outside::text_views(rows@);
    let mut html = String::new();
    html.append(
        "<!DOCTYPE html>\n<html><head>\n<link rel=\"stylesheet\" href=\"/files/maintheme.css\"></head><body>",
    );
    html.append(extra);
    html.append("<pre class=\"code\">");
    let ghost head = html@;
    let mut i: usize = 0;
    proof {
        assert(views.take(0) =~= Seq::<Seq<char>>::empty());
        assert(head + rows_model(views.take(0)) =~= head);
    }
    while i < rows.len()
        invariant
            i <= rows@.len(),
            views == crate::outside::text_views(rows@),
            html@ == head + rows_model(views.take(i as int)),
        decreases rows@.len() - i,
    {
        html.append("<i></i>");
        html.append(rows[i].as_str());
        html.append("\n");
        proof {
            assert(views.take(i + 1).drop_last() =~= views.take(i as int));
            assert(views.take(i + 1).last() == rows@[i as int]@);
            assert(html@ =~= head + rows_model(views.take(i + 1)));
        }
        i = i + 1;
    }
    proof {
        assert(views.take(rows@.len() as int) =~= views);
    }
    html.append("</pre>\n</body></html>");
    proof {
        assert(html@ =~= page_model(extra@, views));
    }
    html
}

/// The page that shows `data` highlighted with `syntax` through style
/// classes, with `extra` markup ahead of the source: the frame around the
/// lines of the generated markup. `None` exactly where the highlighter
/// gives up on a line; source without lines always gives a page. The
/// grammar has to be one of the set's.
pub fn highlight_to_html(
    data: &str,
    ss: &syntect::parsing::SyntaxSet,
    syntax: &syntect::parsing::SyntaxReference,
    extra: &str,
) -> (html: Option<String>)
    requires
        usable(*ss),
        holds(*ss, *syntax),
    ensures
        text_view(html) == match classed_markup(*ss, *syntax, data@) {
            Some(markup) => Some(page_model(extra@, lines_without_endings(markup))),
            None => None,
        },
        data@.len() == 0 ==> html is Some,
{
    match classed_html(ss, syntax, data) {
        None => None,
        Some(generated) => {
            let rows = text_lines(generated.as_str());
            Some(frame_page(extra, &rows))
        },
    }
}

/// One rewrite of the tidying: a pattern and what replaces its matches.
pub open spec fn rewrite_model(step: nat) -> (Seq<char>, Seq<char>) {
    if step == 0 {
        ("\\[(?P<link>[^\\[\\]]+)\\]\\[\\d{1}\\]"@, "$link"@)
    } else if step == 1 {
        ("\\[(\\d*)\\]: [ -~]*"@, ""@)
    } else if step == 2 {
        ("(?m:^[#]+)"@, ""@)
    } else if step == 3 {
        ("(?m:\\n \\n )"@, ""@)
    } else {
        ("(?m:^`(?P<req>[^`]+)*`)"@, "    $req"@)
    }
}

/// The text after the rewrites `from`, `from + 1`, .. up to the fifth, in
/// that order; `None` as soon as one of the patterns is refused.
pub open spec fn rewritten(text: Seq<char>, from: nat) -> Option<Seq<char>>
    decreases 5 - from,
{
    if from >= 5 {
        Some(text)
    } else {
        match crate::outside::regex_replaced(rewrite_model(from).0, text, rewrite_model(from).1) {
            Some(next) => rewritten(next, from + 1),
            None => None,
        }
    }
}

/// The tidied form of a page that was rendered as text: link markers give
/// way to the link's words, the list of link targets and heading marks go,
/// blank pairs of lines close up, requests in back quotes are indented, the
/// source link behind the author's name goes, and so does white space at
/// the end.
pub open spec fn tidy_model(rendered: Seq<char>) -> Option<Seq<char>> {
    match rewritten(rendered, 0) {
        Some(text) => Some(
            crate::outside::trimmed_end(
                crate::outside::replaced(text, "CordlessCoder:source"@, "CordlessCoder"@),
            ),
        ),
        None => None,
    }
}

/// Tidies a page that was rendered as text for plain clients.
pub fn tidy_text(rendered: &str) -> (out: Option<String>)
    ensures
        crate::outside::text_view(out) == tidy_model(rendered@),
{
    proof {
        reveal_with_fuel(rewritten, 6);
        reveal_strlit("CordlessCoder:source");
    }
    let a = match crate::outside::regex_replace_all(
        "\\[(?P<link>[^\\[\\]]+)\\]\\[\\d{1}\\]",
        rendered,
        "$link",
    ) {
        Some(a) => a,
        None => {
            return None;
        },
    };
    let b = match crate::outside::regex_replace_all("\\[(\\d*)\\]: [ -~]*", a.as_str(), "") {
        Some(b) => b,
        None => {
            return None;
        },
    };
    let c = match crate::outside::regex_replace_all("(?m:^[#]+)", b.as_str(), "") {
        Some(c) => c,
        None => {
            return None;
        },
    };
    let d = match crate::outside::regex_replace_all("(?m:\\n \\n )", c.as_str(), "") {
        Some(d) => d,
        None => {
            return None;
        },
    };
    let e = match crate::outside::regex_replace_all(
        "(?m:^`(?P<req>[^`]+)*`)",
        d.as_str(),
        "    $req",
    ) {
        Some(e) => e,
        None => {
            return None;
        },
    };
    let f = crate::outside::replace_text(e.as_str(), "CordlessCoder:source", "CordlessCoder");
    Some(crate::outside::trim_text_end(f.as_str()))
}

/// The values that an embed card shows.
pub struct CardModel {
    pub title: Seq<char>,
    pub site_name: Seq<char>,
    pub description: Seq<char>,
    pub url: Seq<char>,
    pub image: Seq<char>,
}

/// The places of an embed card where a value stands.
#[derive(Clone, Copy, Debug, PartialEq, Eq, Structural)]
pub enum Slot {
    Title,
    SiteName,
    Description,
    Url,
    Image,
}

/// The markup of an embed card is sixteen fixed pieces with a value between
/// each two of them. This is piece `k`.
pub open spec fn card_piece(k: nat) -> Seq<char> {
    if k == 0 {
        "<meta name='twitter:card' content='summary_large_image' /><meta name='twitter:image:src' content='"@
    }     else if k == 1 {
        "' /><meta name='twitter:title' content='"@
    }     else if k == 2 {
        "' /><meta name='twitter:description' content='"@
    }     else if k == 3 {
        "' /><meta property='og:image' content='"@
    }     else if k == 4 {
        "' /><meta property='og:image:alt' content='"@
    }     else if k == 5 {
        "' /><meta property='og:site_name' content='"@
    }     else if k == 6 {
        "' /><meta property='og:type' content='object' /><meta property='og:title' content='"@
    }     else if k == 7 {
        "' /><meta property='og:url' content='"@
    }     else if k == 8 {
        "' /><meta property='og:description' content='"@
    }     else if k == 9 {
        "' />\n<html>\n  <head>\n    <meta charset='utf-8' />\n    <title>"@
    }     else if k == 10 {
        "</title>\n    <meta name='og:site_name' content='"@
    }     else if k == 11 {
        "' />\n    'meta name='author' content='CordlessCoder' />\n    <meta\n      name='description'\n      content='"@
    }     else if k == 12 {
        "'\n    />\n    <meta property='og:title' content='"@
    }     else if k == 13 {
        "' />\n    <meta\n      content='"@
    }     else if k == 14 {
        "'\n      property='og:description'\n    />\n    <meta property='og:url' content='"@
    } else {
        "' />\n    <meta content='#F7768E' data-react-helmet='true' name='theme-color' />\n  </head>\n</html>"@
    }
}

/// Which value follows piece `k`.
pub open spec fn card_slot(k: nat) -> Slot {
    if k == 0 {
        Slot::Image
    }     else if k == 1 {
        Slot::Title
    }     else if k == 2 {
        Slot::Description
    }     else if k == 3 {
        Slot::Image
    }     else if k == 4 {
        Slot::Description
    }     else if k == 5 {
        Slot::SiteName
    }     else if k == 6 {
        Slot::Title
    }     else if k == 7 {
        Slot::Url
    }     else if k == 8 {
        Slot::Description
    }     else if k == 9 {
        Slot::Title
    }     else if k == 10 {
        Slot::SiteName
    }     else if k == 11 {
        Slot::Description
    }     else if k == 12 {
        Slot::Title
    }     else if k == 13 {
        Slot::Description
    }     else {
        Slot::Url
    }
}

/// The value of a card that fills a slot.
pub open spec fn slot_value(card: CardModel, slot: Slot) -> Seq<char> {
    match slot {
        Slot::Title => card.title,
        Slot::SiteName => card.site_name,
        Slot::Description => card.description,
        Slot::Url => card.url,
        Slot::Image => card.image,
    }
}

/// The first `n` pieces of a card, each with the value behind it.
pub open spec fn card_upto(card: CardModel, n: nat) -> Seq<char>
    decreases n,
{
    if n == 0 {
        Seq::empty()
    } else {
        card_upto(card, (n - 1) as nat) + card_piece((n - 1) as nat) + slot_value(
            card,
            card_slot((n - 1) as nat),
        )
    }
}

/// The markup of an embed card.
pub open spec fn card_model(card: CardModel) -> Seq<char> {
    card_upto(card, 15) + card_piece(15)
}

/// What an embed card shows of a description: what `limit` bytes leave of
/// it, and an ellipsis where that is not all.
pub open spec fn card_description(description: Seq<char>, limit: nat) -> Seq<char> {
    let shown = match shown_prefix(description, limit) {
        Some(s) => decode_utf8(s),
        None => Seq::empty(),
    };
    if encode_utf8(description).len() > limit {
        shown + "..."@
    } else {
        shown
    }
}

/// Piece `k` of the markup of an embed card.
pub fn piece_text(k: usize) -> (piece: &'static str)
    ensures
        piece@ == card_piece(k as nat),
{
    if k == 0 {
        "<meta name='twitter:card' content='summary_large_image' /><meta name='twitter:image:src' content='"
    }     else if k == 1 {
        "' /><meta name='twitter:title' content='"
    }     else if k == 2 {
        "' /><meta name='twitter:description' content='"
    }     else if k == 3 {
        "' /><meta property='og:image' content='"
    }     else if k == 4 {
        "' /><meta property='og:image:alt' content='"
    }     else if k == 5 {
        "' /><meta property='og:site_name' content='"
    }     else if k == 6 {
        "' /><meta property='og:type' content='object' /><meta property='og:title' content='"
    }     else if k == 7 {
        "' /><meta property='og:url' content='"
    }     else if k == 8 {
        "' /><meta property='og:description' content='"
    }     else if k == 9 {
        "' />\n<html>\n  <head>\n    <meta charset='utf-8' />\n    <title>"
    }     else if k == 10 {
        "</title>\n    <meta name='og:site_name' content='"
    }     else if k == 11 {
        "' />\n    'meta name='author' content='CordlessCoder' />\n    <meta\n      name='description'\n      content='"
    }     else if k == 12 {
        "'\n    />\n    <meta property='og:title' content='"
    }     else if k == 13 {
        "' />\n    <meta\n      content='"
    }     else if k == 14 {
        "'\n      property='og:description'\n    />\n    <meta property='og:url' content='"
    } else {
        "' />\n    <meta content='#F7768E' data-react-helmet='true' name='theme-color' />\n  </head>\n</html>"
    }
}

/// Which value follows piece `k`.
pub fn slot_after(k: usize) -> (slot: Slot)
    ensures
        slot == card_slot(k as nat),
{
    if k == 0 {
        Slot::Image
    }     else if k == 1 {
        Slot::Title
    }     else if k == 2 {
        Slot::Description
    }     else if k == 3 {
        Slot::Image
    }     else if k == 4 {
        Slot::Description
    }     else if k == 5 {
        Slot::SiteName
    }     else if k == 6 {
        Slot::Title
    }     else if k == 7 {
        Slot::Url
    }     else if k == 8 {
        Slot::Description
    }     else if k == 9 {
        Slot::Title
    }     else if k == 10 {
        Slot::SiteName
    }     else if k == 11 {
        Slot::Description
    }     else if k == 12 {
        Slot::Title
    }     else if k == 13 {
        Slot::Description
    }     else {
        Slot::Url
    }
}

/// The embed card of a page for chat services: its markup around the title,
/// the site's name, the address, the image and what `limit` bytes leave of
/// the description.
pub fn new_embed(
    title: &str,
    site_name: &str,
    description: &str,
    url: &str,
    limit: usize,
    image: &str,
) -> (html: String)
    ensures
        html@ == card_model(
            CardModel {
                title: title@,
                site_name: site_name@,
                description: card_description(description@, limit as nat),
                url: url@,
                image: image@,
            },
        ),
{
    let (mut shown, long) = embed_description(description, limit);
    proof {
        encode_utf8_decode_utf8(shown@);
    }
    if long {
        shown.append("...");
    }
    let ghost card = CardModel {
        title: title@,
        site_name: site_name@,
        description: card_description(description@, limit as nat),
        url: url@,
        image: image@,
    };
    let mut html = String::new();
    let mut k: usize = 0;
    while k < 15
        invariant
            k <= 15,
            shown@ == card.description,
            card.title == title@,
            card.site_name == site_name@,
            card.url == url@,
            card.image == image@,
            html@ == card_upto(card, k as nat),
        decreases 15 - k,
    {
        html.append(piece_text(k));
        match slot_after(k) {
            Slot::Title => html.append(title),
            Slot::SiteName => html.append(site_name),
            Slot::Description => html.append(shown.as_str()),
            Slot::Url => html.append(url),
            Slot::Image => html.append(image),
        }
        k = k + 1;
    }
    html.append(piece_text(15));
    html
}

/// The analytics of an entry as plain text.
pub open spec fn analytics_model(views: nat, scrapes: nat, created: Seq<char>) -> Seq<char> {
    "Views: "@ + crate::text::decimal_digits(views) + "\nScrapes: "@ + crate::text::decimal_digits(
        scrapes,
    ) + "\nCreated: "@ + created
}

/// The analytics of an entry as plain text: its views, its scrapes and when
/// it was created, a line each.
pub fn analytics_text(views: u32, scrapes: u32, created: &str) -> (text: String)
    ensures
        text@ == analytics_model(views as nat, scrapes as nat, created@),
{
    let mut text = "Views: ".to_owned();
    text.append(crate::outside::decimal_string(views).as_str());
    text.append("\nScrapes: ");
    text.append(crate::outside::decimal_string(scrapes).as_str());
    text.append("\nCreated: ");
    text.append(created);
    text
}

} // verus!
