//! What the library takes on trust from `std` and from other crates.
//!
//! Every function here is a thin call into code that is not verified; its
//! contract is believed, not proved. The rest of the library is proved
//! against these contracts.

use crate::canvas::Rgba;
use crate::layout::{run_models, RunModel, StyleRun};
use crate::links::UrlParts;
use chrono::TimeZone;
use std::fmt::Write;
use vstd::prelude::*;
use vstd::string::StringSliceAdditionalSpecFns;
use vstd::utf8::valid_utf8;

verus! {

/// `syntect`'s set of grammars.
#[verifier::external_type_specification]
#[verifier::external_body]
pub struct ExSyntaxSet(syntect::parsing::SyntaxSet);

/// One grammar of a `syntect` set.
#[verifier::external_type_specification]
#[verifier::external_body]
pub struct ExSyntaxReference(syntect::parsing::SyntaxReference);

/// A `syntect` colour theme.
#[verifier::external_type_specification]
#[verifier::external_body]
pub struct ExTheme(syntect::highlighting::Theme);

/// What `chrono` prints for the UTC time `secs` seconds after the Unix epoch
/// under the `strftime` pattern `pattern`; `None` when `secs` is outside
/// `chrono`'s range or the pattern cannot be printed.
pub uninterp spec fn utc_text(secs: int, pattern: Seq<char>) -> Option<Seq<char>>;

/// The PNG file that the `image` crate writes for a `width x height` RGBA8
/// image with the given bytes; `None` when it refuses to.
pub uninterp spec fn png_bytes(width: nat, height: nat, rgba: Seq<u8>) -> Option<Seq<u8>>;

/// The view of an optional string.
pub open spec fn text_view(text: Option<String>) -> Option<Seq<char>> {
    match text {
        Some(t) => Some(t@),
        None => None,
    }
}

/// The view of an optional byte vector.
pub open spec fn bytes_view(bytes: Option<Vec<u8>>) -> Option<Seq<u8>> {
    match bytes {
        Some(b) => Some(b@),
        None => None,
    }
}

/// The names of the grammars that a `syntect` set holds, in the order in
/// which it holds them.
pub uninterp spec fn grammar_names(set: syntect::parsing::SyntaxSet) -> Seq<Seq<char>>;

/// Whether a `syntect` set can be searched and parsed with: every
/// first-line pattern of its grammars compiles, and every grammar has the
/// contexts that a parse starts in. The sets that `syntect` ships are.
pub uninterp spec fn usable(set: syntect::parsing::SyntaxSet) -> bool;

/// Whether `syntax` is one of the grammars of `set`.
pub uninterp spec fn holds(
    set: syntect::parsing::SyntaxSet,
    syntax: syntect::parsing::SyntaxReference,
) -> bool;

/// The display name of a grammar: its field `name`.
pub uninterp spec fn grammar_name(syntax: syntect::parsing::SyntaxReference) -> Seq<char>;

/// The name of the grammar that `find_syntax_by_token` finds in `set` for
/// `token`, if it finds one.
pub uninterp spec fn token_grammar(set: syntect::parsing::SyntaxSet, token: Seq<char>) -> Option<
    Seq<char>,
>;

/// The name of the grammar that `find_syntax_by_first_line` finds in `set`
/// for `text`, if it finds one.
pub uninterp spec fn first_line_grammar(
    set: syntect::parsing::SyntaxSet,
    text: Seq<char>,
) -> Option<Seq<char>>;

/// What `syntect` makes of `text` when it highlights it line by line with
/// `syntax` under `theme`, every line in the state that the lines before
/// left: for every line its styled runs, or `None` where `syntect` reports
/// an error for that line.
pub uninterp spec fn highlighted(
    set: syntect::parsing::SyntaxSet,
    theme: syntect::highlighting::Theme,
    syntax: syntect::parsing::SyntaxReference,
    text: Seq<char>,
) -> Seq<Option<Seq<RunModel>>>;

/// The markup with style classes that `syntect` generates for `data` with
/// `syntax`; `None` where it reports an error for a line.
pub uninterp spec fn classed_markup(
    set: syntect::parsing::SyntaxSet,
    syntax: syntect::parsing::SyntaxReference,
    data: Seq<char>,
) -> Option<Seq<char>>;

/// The name of a grammar that was found, if one was.
pub open spec fn found_name(found: Option<&syntect::parsing::SyntaxReference>) -> Option<
    Seq<char>,
> {
    match found {
        Some(s) => Some(grammar_name(*s)),
        None => None,
    }
}

/// Whether a grammar that was found in `set` is one of its grammars, under
/// one of its names.
pub open spec fn found_in(
    set: syntect::parsing::SyntaxSet,
    found: Option<&syntect::parsing::SyntaxReference>,
) -> bool {
    found matches Some(s) ==> holds(set, *s) && grammar_names(set).contains(grammar_name(*s))
}

/// The models of the outcomes of highlighting.
pub open spec fn outcome_models(outcomes: Seq<Option<Vec<StyleRun>>>) -> Seq<
    Option<Seq<RunModel>>,
> {
    Seq::new(
        outcomes.len(),
        |i: int|
            match outcomes[i] {
                Some(runs) => Some(run_models(runs@)),
                None => None,
            },
    )
}

/// `SyntaxSet::load_defaults_newlines`: the grammars that `syntect` ships,
/// for lines that keep their line feed. The set is usable and holds the
/// grammar named "Plain Text".
#[verifier::external_body]
pub(crate) fn load_default_grammars() -> (set: syntect::parsing::SyntaxSet)
    ensures
        usable(set),
        grammar_names(set).contains("Plain Text"@),
{
    syntect::parsing::SyntaxSet::load_defaults_newlines()
}

/// `SyntaxSet::find_syntax_by_token`: the grammar that `token` names, by
/// file extension first and by grammar name second. It is one of the set's
/// grammars.
#[verifier::external_body]
pub(crate) fn syntax_by_token<'a>(
    set: &'a syntect::parsing::SyntaxSet,
    token: &str,
) -> (found: Option<&'a syntect::parsing::SyntaxReference>)
    ensures
        found_name(found) == token_grammar(*set, token@),
        found matches Some(s) ==> holds(*set, *s) && grammar_names(*set).contains(
            grammar_name(*s),
        ),
{
    set.find_syntax_by_token(token)
}

/// `SyntaxSet::find_syntax_by_first_line`: the grammar whose first-line
/// pattern matches `text`, if the set holds one. It is one of the set's
/// grammars. The patterns are compiled on first use, which panics on one
/// that does not compile: the set has to be usable.
#[verifier::external_body]
pub(crate) fn syntax_by_first_line<'a>(
    set: &'a syntect::parsing::SyntaxSet,
    text: &str,
) -> (found: Option<&'a syntect::parsing::SyntaxReference>)
    requires
        usable(*set),
    ensures
        found_name(found) == first_line_grammar(*set, text@),
        found matches Some(s) ==> holds(*set, *s) && grammar_names(*set).contains(
            grammar_name(*s),
        ),
{
    set.find_syntax_by_first_line(text)
}

/// `SyntaxSet::find_syntax_by_name` for the grammar named `name`: there is
/// one exactly when the set holds a grammar of that name, and it bears that
/// name. `find_syntax_plain_text` is this call for the name "Plain Text",
/// but panics where this returns `None`.
#[verifier::external_body]
pub(crate) fn syntax_by_name<'a>(
    set: &'a syntect::parsing::SyntaxSet,
    name: &str,
) -> (found: Option<&'a syntect::parsing::SyntaxReference>)
    ensures
        found is Some <==> grammar_names(*set).contains(name@),
        found matches Some(s) ==> grammar_name(*s) == name@ && holds(*set, *s),
{
    set.find_syntax_by_name(name)
}

/// The field `name` of a grammar: its display name.
#[verifier::external_body]
pub(crate) fn syntax_name(syntax: &syntect::parsing::SyntaxReference) -> (name: String)
    ensures
        name@ == grammar_name(*syntax),
{
    syntax.name.clone()
}

/// `HighlightLines::new` and then, for every line that `LinesWithEndings`
/// yields of `text`, `HighlightLines::highlight_line`, the spans of each
/// line converted field by field. There is one outcome per line. Parsing
/// panics on a grammar that is not of the set or that lacks its start
/// contexts: the set has to be usable and to hold the grammar.
#[verifier::external_body]
pub(crate) fn highlight_text(
    set: &syntect::parsing::SyntaxSet,
    theme: &syntect::highlighting::Theme,
    syntax: &syntect::parsing::SyntaxReference,
    text: &str,
) -> (outcomes: Vec<Option<Vec<StyleRun>>>)
    requires
        usable(*set),
        holds(*set, *syntax),
    ensures
        outcome_models(outcomes@) == highlighted(*set, *theme, *syntax, text@),
        outcomes@.len() == lines_with_endings(text@).len(),
{
    let mut highlighter = syntect::easy::HighlightLines::new(syntax, theme);
    syntect::util::LinesWithEndings::from(text).map(|line| {
        let spans = highlighter.highlight_line(line, set).ok()?;
        Some(spans.into_iter().map(|(s, t)| StyleRun {
            color: Rgba { r: s.foreground.r, g: s.foreground.g, b: s.foreground.b, a: s.foreground.a },
            bold: s.font_style.contains(syntect::highlighting::FontStyle::BOLD),
            italic: s.font_style.contains(syntect::highlighting::FontStyle::ITALIC),
            text: t.to_string(),
        }).collect())
    }).collect()
}

/// The lines of `text`, each with its line feed, as `syntect`'s
/// `LinesWithEndings` yields them.
pub open spec fn lines_with_endings(text: Seq<char>) -> Seq<Seq<char>>
    decreases text.len(),
    via lines_with_endings_ends
{
    if text.len() == 0 {
        Seq::empty()
    } else {
        let n = line_length(text);
        seq![text.take(n as int)] + lines_with_endings(text.skip(n as int))
    }
}

/// The length of the first line of a text that is not empty: up to and with
/// its first line feed, or all of it where there is none.
pub open spec fn line_length(text: Seq<char>) -> nat
    decreases text.len(),
{
    if text.len() <= 1 || text[0] == '\n' {
        1
    } else {
        1 + line_length(text.drop_first())
    }
}

#[via_fn]
proof fn lines_with_endings_ends(text: Seq<char>) {
    if text.len() > 0 {
        lemma_line_length(text);
    }
}

/// The first line of a text that is not empty holds at least one character
/// and no more than the text.
pub proof fn lemma_line_length(text: Seq<char>)
    requires
        text.len() > 0,
    ensures
        1 <= line_length(text) <= text.len(),
    decreases text.len(),
{
    if !(text.len() <= 1 || text[0] == '\n') {
        lemma_line_length(text.drop_first());
    }
}

/// The views of a sequence of strings.
pub open spec fn text_views(texts: Seq<String>) -> Seq<Seq<char>> {
    Seq::new(texts.len(), |i: int| texts[i]@)
}

/// `chrono`'s `Utc.timestamp_opt(secs, 0)` printed with `format(pattern)`.
#[verifier::external_body]
pub(crate) fn format_utc(secs: i64, pattern: &str) -> (text: Option<String>)
    ensures
        text_view(text) == utc_text(secs as int, pattern@),
{
    let time = chrono::Utc.timestamp_opt(secs, 0).single()?;
    let mut out = String::new();
    write!(out, "{}", time.format(pattern)).ok()?;
    Some(out)
}

/// `chrono`'s `Utc::now().timestamp()`: the seconds since the Unix epoch on
/// this machine's clock. Nothing is known of the value.
#[verifier::external_body]
pub(crate) fn unix_now() -> i64 {
    chrono::Utc::now().timestamp()
}

/// `std::str::from_utf8`: the bytes as text, exactly when they are valid
/// UTF-8.
#[verifier::external_body]
pub(crate) fn utf8_text(bytes: &[u8]) -> (text: Option<&str>)
    ensures
        text is Some <==> valid_utf8(bytes@),
        text matches Some(t) ==> t.spec_bytes() == bytes@,
{
    std::str::from_utf8(bytes).ok()
}

/// `image`'s `RgbaImage::from_raw` and `write_to` in the PNG format, into
/// memory.
#[verifier::external_body]
pub(crate) fn png_encode(width: u32, height: u32, rgba: Vec<u8>) -> (png: Option<Vec<u8>>)
    requires
        rgba@.len() == 4 * width * height,
    ensures
        bytes_view(png) == png_bytes(width as nat, height as nat, rgba@),
{
    let img = image::RgbaImage::from_raw(width, height, rgba)?;
    let mut out = std::io::Cursor::new(Vec::new());
    img.write_to(&mut out, image::ImageFormat::Png).ok()?;
    Some(out.into_inner())
}

/// `rand`'s generator that is local to the running thread.
#[verifier::external_type_specification]
#[verifier::external_body]
pub struct ExThreadRng(rand::rngs::ThreadRng);

/// `ThreadRng::default`: the generator of this thread.
#[verifier::external_body]
pub(crate) fn thread_rng() -> rand::rngs::ThreadRng {
    rand::rngs::ThreadRng::default()
}

/// `Rng::gen::<u8>`: the next random byte. Every value can come.
#[verifier::external_body]
pub(crate) fn random_byte(rng: &mut rand::rngs::ThreadRng) -> u8 {
    rand::Rng::gen::<u8>(rng)
}

/// `ClassedHTMLGenerator::new_with_class_style` with the style `Spaced`,
/// then `parse_html_for_line_which_includes_newline` for every line that
/// `LinesWithEndings` yields of `data`, then `finalize`. Source without
/// lines always gives markup. Parsing panics on a grammar that is not of the
/// set or that lacks its start contexts: the set has to be usable and to
/// hold the grammar.
#[verifier::external_body]
pub(crate) fn classed_html(
    set: &syntect::parsing::SyntaxSet,
    syntax: &syntect::parsing::SyntaxReference,
    data: &str,
) -> (markup: Option<String>)
    requires
        usable(*set),
        holds(*set, *syntax),
    ensures
        text_view(markup) == classed_markup(*set, *syntax, data@),
        data@.len() == 0 ==> markup is Some,
{
    let style = syntect::html::ClassStyle::Spaced;
    let mut generator = syntect::html::ClassedHTMLGenerator::new_with_class_style(syntax, set, style);
    for line in syntect::util::LinesWithEndings::from(data) {
        generator.parse_html_for_line_which_includes_newline(line).ok()?;
    }
    Some(generator.finalize())
}

/// A line without its ending: without the line feed at its end and without
/// a carriage return just before that line feed.
pub open spec fn without_ending(line: Seq<char>) -> Seq<char> {
    if line.len() > 0 && line.last() == '\n' {
        let body = line.drop_last();
        if body.len() > 0 && body.last() == '\r' {
            body.drop_last()
        } else {
            body
        }
    } else {
        line
    }
}

/// The lines of `text` without their endings.
pub open spec fn lines_without_endings(text: Seq<char>) -> Seq<Seq<char>> {
    Seq::new(
        lines_with_endings(text).len(),
        |i: int| without_ending(lines_with_endings(text)[i]),
    )
}

/// `std`'s `str::lines`: the text is split after every line feed; a line
/// comes without its line feed and without a carriage return just before
/// it; a last line needs no line feed.
#[verifier::external_body]
pub(crate) fn text_lines(text: &str) -> (lines: Vec<String>)
    ensures
        text_views(lines@) == lines_without_endings(text@),
{
    text.lines().map(|l| l.to_string()).collect()
}

/// What the `url` crate reads from an address: its scheme, its user name,
/// its host if it has one, and the address as `url` writes it back; `None`
/// where `url` cannot parse it.
pub uninterp spec fn url_parts(text: Seq<char>) -> Option<
    (Seq<char>, Seq<char>, Option<Seq<char>>, Seq<char>),
>;

/// The four parts as plain values.
pub open spec fn parts_view(parts: Option<UrlParts>) -> Option<
    (Seq<char>, Seq<char>, Option<Seq<char>>, Seq<char>),
> {
    match parts {
        Some(p) => Some((p.scheme@, p.username@, text_view(p.host), p.text@)),
        None => None,
    }
}

/// `Url::parse` and, of the address it gives, `scheme`, `username`,
/// `host_str` and `as_str`, each copied as it is.
#[verifier::external_body]
pub(crate) fn url_read(text: &str) -> (parts: Option<UrlParts>)
    ensures
        parts_view(parts) == url_parts(text@),
{
    let url = url::Url::parse(text).ok()?;
    Some(UrlParts {
        scheme: url.scheme().to_string(),
        username: url.username().to_string(),
        host: url.host_str().map(|h| h.to_string()),
        text: url.as_str().to_string(),
    })
}

/// What `regex` makes of `text` when every match of `pattern` is replaced
/// by `replacement`, in which `$name` stands for a capture group; `None`
/// where the pattern does not compile.
pub uninterp spec fn regex_replaced(
    pattern: Seq<char>,
    text: Seq<char>,
    replacement: Seq<char>,
) -> Option<Seq<char>>;

/// `Regex::new` and, on the expression it gives, `Regex::replace_all`.
#[verifier::external_body]
pub(crate) fn regex_replace_all(pattern: &str, text: &str, replacement: &str) -> (out: Option<
    String,
>)
    ensures
        text_view(out) == regex_replaced(pattern@, text@, replacement@),
{
    let expression = regex::Regex::new(pattern).ok()?;
    Some(expression.replace_all(text, replacement).into_owned())
}

/// `text` with every occurrence of `from` replaced by `to`, found from the
/// left and never overlapping.
pub open spec fn replaced(text: Seq<char>, from: Seq<char>, to: Seq<char>) -> Seq<char>
    decreases text.len(),
{
    if from.len() == 0 || text.len() < from.len() {
        text
    } else if text.take(from.len() as int) == from {
        to + replaced(text.skip(from.len() as int), from, to)
    } else {
        seq![text[0]] + replaced(text.drop_first(), from, to)
    }
}

/// `std`'s `str::replace` with a pattern that is a string and not empty:
/// every match of `from`, found from the left and never overlapping, is
/// replaced by `to`.
#[verifier::external_body]
pub(crate) fn replace_text(text: &str, from: &str, to: &str) -> (out: String)
    requires
        from@.len() > 0,
    ensures
        out@ == replaced(text@, from@, to@),
{
    text.replace(from, to)
}

/// `text` without the white space at its end.
pub open spec fn trimmed_end(text: Seq<char>) -> Seq<char>
    decreases text.len(),
{
    if text.len() > 0 && crate::text::is_space(text.last()) {
        trimmed_end(text.drop_last())
    } else {
        text
    }
}

/// `std`'s `str::trim_end`: the text up to its last character that is not
/// white space.
#[verifier::external_body]
pub(crate) fn trim_text_end(text: &str) -> (out: String)
    ensures
        out@ == trimmed_end(text@),
{
    text.trim_end().to_string()
}

/// `std`'s `str::replace`, used to delete every line feed: the result holds
/// the characters of `text` other than `'\n'`, in their order.
#[verifier::external_body]
pub(crate) fn without_newlines(text: &str) -> (out: String)
    ensures
        out@ == crate::text::strip_newlines(text@),
{
    text.replace('\n', "")
}

/// `std`'s `to_string` on a `u32`: the number in decimal digits, most
/// significant first, with no sign and no leading zeros.
#[verifier::external_body]
pub(crate) fn decimal_string(n: u32) -> (out: String)
    ensures
        out@ == crate::text::decimal_digits(n as nat),
{
    n.to_string()
}

/// `memchr3`: the index of the first byte of `haystack` that is one of the
/// three needles, or `None` where none of them occurs.
pub assume_specification[ memchr::memchr3 ](
    needle1: u8,
    needle2: u8,
    needle3: u8,
    haystack: &[u8],
) -> (at: Option<usize>)
    ensures
        match at {
            Some(i) => i < haystack@.len() && (haystack@[i as int] == needle1 || haystack@[i as int]
                == needle2 || haystack@[i as int] == needle3) && forall|k: int|
                0 <= k < i ==> haystack@[k] != needle1 && haystack@[k] != needle2 && haystack@[k]
                    != needle3,
            None => forall|k: int|
                0 <= k < haystack@.len() ==> haystack@[k] != needle1 && haystack@[k] != needle2
                    && haystack@[k] != needle3,
        },
;

} // verus!
