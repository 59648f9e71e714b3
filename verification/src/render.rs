//! Orchestration of a preview: from a request to the bytes of a PNG.
//!
//! Fetching a paste, asking the cache and drawing text need services that
//! only the caller has. So the orchestration is cut into steps: each step
//! takes what the last service answered and says what to do next. The order
//! is fixed: the paste id is checked, then the content is fetched, and only
//! for content that exists is the cache asked and, on a miss, a render made.

use crate::canvas::{pixel_bytes, RasterImage, Rgba};
use crate::corners::{
    lemma_mask_clears_outside_disc, lemma_mask_outside_squares, round, Corner, RadiiError,
};
use crate::layout::{
    layout, layout_model, line_models, op_models, run_models, DrawOp, Face, LayoutConfig, Line,
    LineModel, OpModel, RunModel, StyleRun,
};
use crate::outside::{
    bytes_view, first_line_grammar, format_utc, found_in, found_name, grammar_name, grammar_names,
    highlight_text, highlighted, holds, lines_with_endings, load_default_grammars,
    outcome_models, png_bytes, png_encode, syntax_by_first_line, syntax_by_name, syntax_by_token,
    syntax_name, token_grammar, usable, utc_text, utf8_text,
};
use crate::wrap::byte_len;
use vstd::prelude::*;
use vstd::string::StringExecFns;
use vstd::string::StringSliceAdditionalSpecFns;
use vstd::string::StrSliceExecFns;
use vstd::utf8::{decode_utf8, encode_utf8, encode_utf8_decode_utf8, valid_utf8};

verus! {

/// Radius of the four corners of the blank template, in pixels.
pub const TEMPLATE_RADIUS: u32 = 16;

/// A stored paste as the content source hands it over.
pub struct Paste {
    pub bytes: Vec<u8>,
    pub created_at: i64,
}

/// The identity of a render in the cache: the paste and the name of the
/// grammar that was resolved for it, not the extension that was asked for.
pub struct RenderKey {
    pub paste_id: String,
    pub syntax_name: String,
}

/// What a request names: a paste id and, after the first dot, an extension.
pub struct Target {
    pub id: String,
    pub extension: Option<String>,
}

/// The first step of a request.
pub enum Begin {
    /// The id is longer than any stored id: there is no such paste.
    NotFound,
    /// Ask the content source for this paste.
    Fetch { id: String, extension: Option<String> },
}

/// The step after the content source has answered.
pub enum Located<'a> {
    /// The content source holds no such paste.
    NotFound,
    /// The grammar set holds no grammar to fall back on.
    NoGrammar,
    /// Ask the cache for `key`; on a miss render `text` with `syntax`.
    Lookup {
        key: RenderKey,
        syntax: &'a syntect::parsing::SyntaxReference,
        text: String,
        created_at: i64,
    },
}

/// The last step of a render.
pub enum Finished {
    /// The canvas could not be encoded: the request fails, nothing is
    /// stored.
    Failed,
    /// Answer with `png` and offer it to the cache under `key` at the cost
    /// of its length.
    Store { key: String, png: Vec<u8>, cost: i64 },
}

/// The step after the cache has answered.
pub enum Cached {
    /// Answer with these bytes.
    Respond { png: Vec<u8> },
    /// Nothing cached: render.
    Render,
}

/// Colour of the background of the canvas.
pub open spec fn background() -> Rgba {
    Rgba { r: 17, g: 18, b: 29, a: 255 }
}

/// Colour of the logo and of line numbers.
pub open spec fn foreground() -> Rgba {
    Rgba { r: 247, g: 118, b: 142, a: 255 }
}

/// Colour of the header text.
pub open spec fn header_color() -> Rgba {
    Rgba { r: 169, g: 177, b: 214, a: 255 }
}

/// Colour of the rules of the template.
pub open spec fn template_rule_color() -> Rgba {
    Rgba { r: 65, g: 72, b: 104, a: 255 }
}

/// How many characters stand before the first dot of `text`; all of them
/// where there is none.
pub open spec fn stem_length(text: Seq<char>) -> nat
    decreases text.len(),
{
    if text.len() == 0 || text[0] == '.' {
        0
    } else {
        1 + stem_length(text.drop_first())
    }
}

/// The id of a target: what stands before its first dot.
pub open spec fn target_id(text: Seq<char>) -> Seq<char> {
    text.take(stem_length(text) as int)
}

/// The extension of a target: what follows its first dot, if it has one.
pub open spec fn target_extension(text: Seq<char>) -> Option<Seq<char>> {
    if stem_length(text) < text.len() {
        Some(text.skip(stem_length(text) as int + 1))
    } else {
        None
    }
}

/// The stem ends at the first dot and nowhere before.
pub proof fn lemma_stem_length(text: Seq<char>, i: nat)
    requires
        i <= text.len(),
        forall|k: int| 0 <= k < i ==> text[k] != '.',
        i == text.len() || text[i as int] == '.',
    ensures
        stem_length(text) == i,
    decreases i,
{
    if i > 0 {
        let tail = text.drop_first();
        assert forall|k: int| 0 <= k < i - 1 implies tail[k] != '.' by {
            assert(tail[k] == text[k + 1]);
        }
        lemma_stem_length(tail, (i - 1) as nat);
    }
}

/// Splits a request target at its first dot into paste id and extension.
pub fn split_target(target: &str) -> (parts: Target)
    ensures
        parts.id@ == target_id(target@),
        crate::outside::text_view(parts.extension) == target_extension(target@),
{
    let n = target.unicode_len();
    let mut i: usize = 0;
    while i < n && target.get_char(i) != '.'
        invariant
            n == target@.len(),
            i <= n,
            forall|k: int| 0 <= k < i ==> target@[k] != '.',
        decreases n - i,
    {
        i = i + 1;
    }
    proof {
        lemma_stem_length(target@, i as nat);
    }
    let id = target.substring_char(0, i).to_owned();
    let extension = if i < n {
        Some(target.substring_char(i + 1, n).to_owned())
    } else {
        None
    };
    proof {
        assert(target@.subrange(0, i as int) =~= target@.take(i as int));
        if i < n {
            assert(target@.subrange(i + 1, n as int) =~= target@.skip(i + 1));
        }
    }
    Target { id, extension }
}

/// The first step: a target whose id is longer than `max_id_len` bytes names
/// no paste and is turned away before any work; any other is fetched.
pub fn begin(target: &str, max_id_len: usize) -> (step: Begin)
    ensures
        encode_utf8(target_id(target@)).len() > max_id_len ==> step is NotFound,
        encode_utf8(target_id(target@)).len() <= max_id_len ==> (step matches Begin::Fetch {
            id,
            extension,
        } && id@ == target_id(target@) && crate::outside::text_view(extension) == target_extension(
            target@,
        )),
{
    let parts = split_target(target);
    if byte_len(parts.id.as_str()) > max_id_len {
        Begin::NotFound
    } else {
        Begin::Fetch { id: parts.id, extension: parts.extension }
    }
}

/// The text that stands for content that is not valid UTF-8.
pub open spec fn placeholder() -> Seq<char> {
    "Binary paste"@
}

/// The text of a paste: its bytes decoded, or the placeholder where they
/// are not valid UTF-8.
pub open spec fn text_of(bytes: Seq<u8>) -> Seq<char> {
    if valid_utf8(bytes) {
        decode_utf8(bytes)
    } else {
        placeholder()
    }
}

/// The text of a paste.
pub fn paste_text(bytes: &Vec<u8>) -> (text: String)
    ensures
        text@ == text_of(bytes@),
{
    match utf8_text(bytes.as_slice()) {
        Some(t) => {
            proof {
                encode_utf8_decode_utf8(t@);
            }
            t.to_owned()
        },
        None => "Binary paste".to_owned(),
    }
}

/// The grammar to render with: the one the extension names, else the one
/// sniffed from the content, else plain text.
pub open spec fn chosen<T>(by_token: Option<T>, sniffed: Option<T>, plain: Option<T>) -> Option<T> {
    if by_token is Some {
        by_token
    } else if sniffed is Some {
        sniffed
    } else {
        plain
    }
}

/// Picks the grammar to render with from the three lookups.
pub fn choose_syntax<T>(by_token: Option<T>, sniffed: Option<T>, plain: Option<T>) -> (pick: Option<
    T,
>)
    ensures
        pick == chosen(by_token, sniffed, plain),
{
    if by_token.is_some() {
        by_token
    } else if sniffed.is_some() {
        sniffed
    } else {
        plain
    }
}

/// The name of the grammar that a paste is rendered with in `set`: that of
/// the grammar the extension names as a token, else of the one sniffed from
/// the content's first line, else "Plain Text" where the set holds a
/// grammar of that name. `None` where all three fail.
pub open spec fn resolved_name(
    set: syntect::parsing::SyntaxSet,
    extension: Option<Seq<char>>,
    text: Seq<char>,
) -> Option<Seq<char>> {
    chosen(
        match extension {
            Some(token) => token_grammar(set, token),
            None => None,
        },
        first_line_grammar(set, text),
        if grammar_names(set).contains("Plain Text"@) {
            Some("Plain Text"@)
        } else {
            None
        },
    )
}

/// The view of an optional string slice.
pub open spec fn hint_view(hint: Option<&str>) -> Option<Seq<char>> {
    match hint {
        Some(h) => Some(h@),
        None => None,
    }
}

/// The grammars that are shipped with the highlighter: a usable set that
/// holds the plain-text grammar.
pub fn default_syntaxes() -> (set: syntect::parsing::SyntaxSet)
    ensures
        usable(set),
        grammar_names(set).contains("Plain Text"@),
{
    load_default_grammars()
}

/// The grammar of `set` that `token` names as a file extension or as a
/// grammar name, if there is one.
pub fn grammar_by_token<'a>(set: &'a syntect::parsing::SyntaxSet, token: &str) -> (found: Option<
    &'a syntect::parsing::SyntaxReference,
>)
    ensures
        found_name(found) == token_grammar(*set, token@),
        found_in(*set, found),
{
    syntax_by_token(set, token)
}

/// Resolves the grammar of a paste: by the extension hint as a token, else
/// from the content's first line, else the plain-text grammar. A set that
/// holds the plain-text grammar always gives a grammar; a set without
/// grammars never does.
pub fn resolve_syntax<'a>(
    set: &'a syntect::parsing::SyntaxSet,
    extension: Option<&str>,
    text: &str,
) -> (found: Option<&'a syntect::parsing::SyntaxReference>)
    requires
        usable(*set),
    ensures
        found_name(found) == resolved_name(*set, hint_view(extension), text@),
        found_in(*set, found),
        grammar_names(*set).contains("Plain Text"@) ==> found is Some,
        grammar_names(*set).len() == 0 ==> found is None,
{
    let by_token = match extension {
        Some(token) => syntax_by_token(set, token),
        None => None,
    };
    if by_token.is_some() {
        return choose_syntax(by_token, None, None);
    }
    let sniffed = syntax_by_first_line(set, text);
    if sniffed.is_some() {
        return choose_syntax(by_token, sniffed, None);
    }
    choose_syntax(by_token, sniffed, syntax_by_name(set, "Plain Text"))
}

impl RenderKey {
    /// The key under which the cache holds the render: the paste id
    /// followed by the grammar name.
    pub open spec fn cache_key_text(paste_id: Seq<char>, syntax_name: Seq<char>) -> Seq<char> {
        paste_id + syntax_name
    }

    /// The key of a paste rendered with a grammar.
    pub fn new(paste_id: &str, syntax_name: &str) -> (key: RenderKey)
        ensures
            key.paste_id@ == paste_id@,
            key.syntax_name@ == syntax_name@,
    {
        RenderKey { paste_id: paste_id.to_owned(), syntax_name: syntax_name.to_owned() }
    }

    /// The key as the cache takes it.
    pub fn cache_key(&self) -> (key: String)
        ensures
            key@ == Self::cache_key_text(self.paste_id@, self.syntax_name@),
    {
        let mut key = self.paste_id.clone();
        key.append(self.syntax_name.as_str());
        key
    }
}

/// The cache keys of a paste under every grammar named in `names`, in their
/// order: what has to leave the cache when the paste is deleted.
pub fn invalidation_keys(paste_id: &str, names: &Vec<String>) -> (keys: Vec<String>)
    ensures
        keys@.len() == names@.len(),
        forall|i: int|
            0 <= i < names@.len() ==> (#[trigger] keys@[i])@ == RenderKey::cache_key_text(
                paste_id@,
                names@[i]@,
            ),
{
    let mut keys: Vec<String> = Vec::new();
    let mut i: usize = 0;
    while i < names.len()
        invariant
            i <= names@.len(),
            keys@.len() == i,
            forall|k: int|
                0 <= k < i ==> (#[trigger] keys@[k])@ == RenderKey::cache_key_text(
                    paste_id@,
                    names@[k]@,
                ),
        decreases names@.len() - i,
    {
        let mut key = paste_id.to_owned();
        key.append(names[i].as_str());
        keys.push(key);
        i = i + 1;
    }
    keys
}

/// The step after the content source has answered. A paste that the source
/// does not hold is not found, whatever the cache may still hold: the cache
/// is not asked before this step. For a paste that exists the grammar is
/// resolved and the cache key built from the id and the name of the grammar
/// that was resolved, not from the extension that was asked for.
pub fn on_content<'a>(
    set: &'a syntect::parsing::SyntaxSet,
    id: &str,
    extension: Option<&str>,
    fetched: Option<Paste>,
) -> (step: Located<'a>)
    requires
        usable(*set),
    ensures
        match fetched {
            None => step is NotFound,
            Some(p) => match resolved_name(*set, hint_view(extension), text_of(p.bytes@)) {
                None => step is NoGrammar,
                Some(name) => step matches Located::Lookup { key, syntax, text, created_at }
                    && key.paste_id@ == id@ && key.syntax_name@ == name && grammar_name(*syntax)
                    == name && holds(*set, *syntax) && text@ == text_of(p.bytes@) && created_at
                    == p.created_at,
            },
        },
{
    match fetched {
        None => Located::NotFound,
        Some(paste) => {
            let text = paste_text(&paste.bytes);
            match resolve_syntax(set, extension, text.as_str()) {
                None => Located::NoGrammar,
                Some(syntax) => {
                    let name = syntax_name(syntax);
                    let key = RenderKey::new(id, name.as_str());
                    Located::Lookup { key, syntax, text, created_at: paste.created_at }
                },
            }
        },
    }
}

/// The step after the cache has answered: bytes that the cache holds are
/// the answer, unchanged; without them a render is due. A cache that failed
/// looks like a cache that missed.
pub fn on_cache(cached: Option<Vec<u8>>) -> (step: Cached)
    ensures
        match cached {
            Some(bytes) => step == (Cached::Respond { png: bytes }),
            None => step is Render,
        },
        step matches Cached::Respond { png } ==> Some(png@) == answer_of(
            bytes_view(cached),
            None,
        ),
{
    match cached {
        Some(bytes) => Cached::Respond { png: bytes },
        None => Cached::Render,
    }
}

/// What a request for a paste that exists is answered with: what the cache
/// holds under the render's key, else what the render gives.
pub open spec fn answer_of(cached: Option<Seq<u8>>, rendered: Option<Seq<u8>>) -> Option<Seq<u8>> {
    match cached {
        Some(bytes) => Some(bytes),
        None => rendered,
    }
}

/// While the cache keeps what a first render stored under a key, every
/// later request with that key is answered with those very bytes, whatever
/// a new render would give.
pub proof fn lemma_repeat_answers_alike(
    cache: Map<Seq<char>, Seq<u8>>,
    key: Seq<char>,
    png: Seq<u8>,
    rendered_again: Option<Seq<u8>>,
)
    ensures
        answer_of(
            if cache.insert(key, png).dom().contains(key) {
                Some(cache.insert(key, png)[key])
            } else {
                None
            },
            rendered_again,
        ) == Some(png),
{
}

/// A copy of a run.
pub fn copy_run(run: &StyleRun) -> (copy: StyleRun)
    ensures
        copy@ == run@,
{
    StyleRun { color: run.color, bold: run.bold, italic: run.italic, text: run.text.clone() }
}

/// A copy of a sequence of runs.
pub fn copy_runs(runs: &Vec<StyleRun>) -> (copy: Vec<StyleRun>)
    ensures
        run_models(copy@) == run_models(runs@),
{
    let mut copy: Vec<StyleRun> = Vec::new();
    let mut i: usize = 0;
    while i < runs.len()
        invariant
            i <= runs@.len(),
            copy@.len() == i,
            forall|k: int| 0 <= k < i ==> (#[trigger] copy@[k])@ == runs@[k]@,
        decreases runs@.len() - i,
    {
        copy.push(copy_run(&runs[i]));
        i = i + 1;
    }
    proof {
        assert(run_models(copy@) =~= run_models(runs@));
    }
    copy
}

/// The numbered lines of a text whose lines were highlighted with the given
/// outcomes: a line that could not be highlighted is left out and takes no
/// number; the others are numbered from `next` on. Numbering ends where
/// numbers do.
pub open spec fn numbered(outcomes: Seq<Option<Vec<StyleRun>>>, next: nat) -> Seq<LineModel>
    decreases outcomes.len(),
{
    if outcomes.len() == 0 || next > u32::MAX {
        Seq::empty()
    } else {
        match outcomes[0] {
            Some(runs) => seq![LineModel { number: next, runs: run_models(runs@) }] + numbered(
                outcomes.drop_first(),
                next + 1,
            ),
            None => numbered(outcomes.drop_first(), next),
        }
    }
}

/// Numbers the highlighted lines of a text from 1.
pub fn number_lines(outcomes: &Vec<Option<Vec<StyleRun>>>) -> (lines: Vec<Line>)
    ensures
        line_models(lines@) == numbered(outcomes@, 1),
{
    let mut lines: Vec<Line> = Vec::new();
    let mut next: u64 = 1;
    let mut i: usize = 0;
    proof {
        assert(outcomes@.skip(0) =~= outcomes@);
        assert(line_models(lines@) + numbered(outcomes@, 1) =~= numbered(outcomes@, 1));
    }
    while i < outcomes.len() && next <= u32::MAX as u64
        invariant
            i <= outcomes@.len(),
            1 <= next <= u32::MAX + 1,
            line_models(lines@) + numbered(outcomes@.skip(i as int), next as nat) == numbered(
                outcomes@,
                1,
            ),
        decreases outcomes@.len() - i,
    {
        let ghost rest = outcomes@.skip(i as int);
        let ghost done = lines@;
        proof {
            assert(rest[0] == outcomes@[i as int]);
            assert(rest.drop_first() =~= outcomes@.skip(i + 1));
        }
        match &outcomes[i] {
            Some(runs) => {
                let line = Line { number: next as u32, runs: copy_runs(runs) };
                lines.push(line);
                proof {
                    assert(line_models(lines@) =~= line_models(done) + seq![
                        LineModel { number: next as nat, runs: run_models(runs@) },
                    ]);
                    assert(line_models(lines@) + numbered(rest.drop_first(), (next + 1) as nat)
                        =~= line_models(done) + numbered(rest, next as nat));
                }
                next = next + 1;
            },
            None => {},
        }
        i = i + 1;
    }
    proof {
        let left = numbered(outcomes@.skip(i as int), next as nat);
        assert(left =~= Seq::<LineModel>::empty());
        assert(line_models(lines@) + left =~= line_models(lines@));
    }
    lines
}

/// The numbered lines of a text from the models of its outcomes: what
/// `numbered` says, over plain values.
pub open spec fn numbered_models(outcomes: Seq<Option<Seq<RunModel>>>, next: nat) -> Seq<
    LineModel,
>
    decreases outcomes.len(),
{
    if outcomes.len() == 0 || next > u32::MAX {
        Seq::empty()
    } else {
        match outcomes[0] {
            Some(runs) => seq![LineModel { number: next, runs }] + numbered_models(
                outcomes.drop_first(),
                next + 1,
            ),
            None => numbered_models(outcomes.drop_first(), next),
        }
    }
}

/// Numbering the outcomes is numbering their models.
pub proof fn lemma_numbered_models(outcomes: Seq<Option<Vec<StyleRun>>>, next: nat)
    ensures
        numbered(outcomes, next) == numbered_models(outcome_models(outcomes), next),
    decreases outcomes.len(),
{
    if outcomes.len() > 0 && next <= u32::MAX {
        assert(outcome_models(outcomes).drop_first() =~= outcome_models(outcomes.drop_first()));
        match outcomes[0] {
            Some(runs) => lemma_numbered_models(outcomes.drop_first(), next + 1),
            None => lemma_numbered_models(outcomes.drop_first(), next),
        }
    }
}

/// Highlights `text` line by line with `syntax`, every line in the state
/// that the lines before it left, and numbers the lines that highlight from
/// 1. The grammar has to be one of the set's.
pub fn highlight_lines(
    set: &syntect::parsing::SyntaxSet,
    theme: &syntect::highlighting::Theme,
    syntax: &syntect::parsing::SyntaxReference,
    text: &str,
) -> (lines: Vec<Line>)
    requires
        usable(*set),
        holds(*set, *syntax),
    ensures
        line_models(lines@) == numbered_models(highlighted(*set, *theme, *syntax, text@), 1),
        lines@.len() <= lines_with_endings(text@).len(),
        forall|i: int| 0 <= i < lines@.len() ==> (#[trigger] lines@[i]).number == i + 1,
{
    let outcomes = highlight_text(set, theme, syntax, text);
    let lines = number_lines(&outcomes);
    proof {
        lemma_numbered_models(outcomes@, 1);
        lemma_numbered_length(outcomes@, 1);
        assert(line_models(lines@).len() == lines@.len());
        assert forall|i: int| 0 <= i < lines@.len() implies (#[trigger] lines@[i]).number == i
            + 1 by {
            lemma_numbered_counts(outcomes@, 1, i);
            assert(line_models(lines@)[i] == lines@[i]@);
        }
    }
    lines
}

/// There are no more numbered lines than outcomes.
pub proof fn lemma_numbered_length(outcomes: Seq<Option<Vec<StyleRun>>>, next: nat)
    ensures
        numbered(outcomes, next).len() <= outcomes.len(),
    decreases outcomes.len(),
{
    if outcomes.len() > 0 && next <= u32::MAX {
        match outcomes[0] {
            Some(runs) => lemma_numbered_length(outcomes.drop_first(), next + 1),
            None => lemma_numbered_length(outcomes.drop_first(), next),
        }
    }
}

/// The numbers of numbered lines count up by one from `next`.
pub proof fn lemma_numbered_counts(outcomes: Seq<Option<Vec<StyleRun>>>, next: nat, i: int)
    requires
        0 <= i < numbered(outcomes, next).len(),
    ensures
        numbered(outcomes, next)[i].number == next + i,
    decreases outcomes.len(),
{
    if outcomes.len() > 0 && next <= u32::MAX {
        match outcomes[0] {
            Some(runs) => {
                if i > 0 {
                    lemma_numbered_counts(outcomes.drop_first(), next + 1, i - 1);
                }
            },
            None => lemma_numbered_counts(outcomes.drop_first(), next, i),
        }
    }
}

/// The pattern of the creation time: hours and minutes, then day, month and
/// year.
pub open spec fn caption_pattern() -> Seq<char> {
    "%H:%M %d/%m/%Y"@
}

/// The caption of a paste created `secs` seconds after the Unix epoch.
pub open spec fn caption_of(secs: int) -> Option<Seq<char>> {
    match utc_text(secs, caption_pattern()) {
        Some(t) => Some("Created: "@ + t),
        None => None,
    }
}

/// Puts the caption together from the printed time.
pub fn caption_from(printed: Option<String>) -> (caption: Option<String>)
    ensures
        crate::outside::text_view(caption) == match printed {
            Some(t) => Some("Created: "@ + t@),
            None => None,
        },
{
    match printed {
        Some(t) => {
            let mut caption = "Created: ".to_owned();
            caption.append(t.as_str());
            Some(caption)
        },
        None => None,
    }
}

/// The caption under the banner: "Created: " and the creation time in UTC.
/// `None` for a time that the calendar cannot hold.
pub fn created_caption(created_at: i64) -> (caption: Option<String>)
    ensures
        crate::outside::text_view(caption) == caption_of(created_at as int),
{
    caption_from(format_utc(created_at, "%H:%M %d/%m/%Y"))
}

/// The creation time as the analytics show it: day, month and year, then
/// hours and minutes, in UTC. `None` for a time that the calendar cannot
/// hold.
pub fn analytics_date(created_at: i64) -> (date: Option<String>)
    ensures
        crate::outside::text_view(date) == utc_text(created_at as int, "%d/%m/%Y %H:%M"@),
{
    format_utc(created_at, "%d/%m/%Y %H:%M")
}

/// The operations of the header: the grammar's name as the banner and,
/// under it, the caption if there is one.
pub open spec fn header_model(padding: nat, name: Seq<char>, caption: Option<Seq<char>>) -> Seq<
    OpModel,
> {
    let banner = OpModel::Text {
        x: padding,
        y: padding,
        size: 50,
        face: Face::Logo,
        color: header_color(),
        bold: false,
        italic: false,
        text: encode_utf8(name),
    };
    match caption {
        Some(c) => seq![
            banner,
            OpModel::Text {
                x: padding,
                y: padding + 45,
                size: 30,
                face: Face::Mono,
                color: header_color(),
                bold: false,
                italic: false,
                text: encode_utf8(c),
            },
        ],
        None => seq![banner],
    }
}

/// The operations that draw the header of a preview.
pub fn header_ops(padding: u32, name: &str, caption: Option<String>) -> (ops: Vec<DrawOp>)
    ensures
        op_models(ops@) == header_model(padding as nat, name@, crate::outside::text_view(caption)),
{
    let mut ops: Vec<DrawOp> = Vec::new();
    let color = Rgba { r: 169, g: 177, b: 214, a: 255 };
    ops.push(
        DrawOp::Text {
            x: padding as u64,
            y: padding as u64,
            size: 50,
            face: Face::Logo,
            color,
            bold: false,
            italic: false,
            text: name.to_owned(),
        },
    );
    match caption {
        Some(c) => {
            ops.push(
                DrawOp::Text {
                    x: padding as u64,
                    y: padding as u64 + 45,
                    size: 30,
                    face: Face::Mono,
                    color,
                    bold: false,
                    italic: false,
                    text: c,
                },
            );
        },
        None => {},
    }
    proof {
        assert(op_models(ops@) =~= header_model(
            padding as nat,
            name@,
            crate::outside::text_view(caption),
        ));
    }
    ops
}

/// Everything that is drawn onto a copy of the blank template for one
/// preview: the header, then the laid out lines.
pub fn draw_plan(
    cfg: &LayoutConfig,
    name: &str,
    created_at: i64,
    lines: &Vec<Line>,
) -> (ops: Vec<DrawOp>)
    requires
        cfg.valid(),
    ensures
        op_models(ops@) == header_model(cfg.padding as nat, name@, caption_of(created_at as int))
            + layout_model(*cfg, line_models(lines@)),
{
    let mut ops = header_ops(cfg.padding, name, created_caption(created_at));
    let mut body = layout(cfg, lines);
    let ghost head = ops@;
    let ghost tail = body@;
    ops.append(&mut body);
    proof {
        assert(op_models(ops@) =~= op_models(head) + op_models(tail));
    }
    ops
}

/// The operations that draw the banner of the blank template: the logo at
/// the top right and two rules, one under the header and one at the right
/// edge of the gutter.
pub open spec fn template_model(size: (u32, u32), padding: u32) -> Seq<OpModel> {
    seq![
        OpModel::Text {
            x: if size.0 >= padding + 330 {
                (size.0 - padding - 330) as nat
            } else {
                0
            },
            y: padding as nat,
            size: 80,
            face: Face::Logo,
            color: foreground(),
            bold: false,
            italic: false,
            text: encode_utf8("OxiiLink"@),
        },
        OpModel::Rule { x0: 0, y0: 80, x1: size.0 as nat, y1: 80, color: template_rule_color() },
        OpModel::Rule { x0: 50, y0: 80, x1: 50, y1: size.1 as nat, color: template_rule_color() },
    ]
}

/// The operations that draw the banner of the blank template.
pub fn template_ops(size: (u32, u32), padding: u32) -> (ops: Vec<DrawOp>)
    ensures
        op_models(ops@) == template_model(size, padding),
{
    let mut ops: Vec<DrawOp> = Vec::new();
    let rule = Rgba { r: 65, g: 72, b: 104, a: 255 };
    let x: u64 = if size.0 as u64 >= padding as u64 + 330 {
        size.0 as u64 - padding as u64 - 330
    } else {
        0
    };
    ops.push(
        DrawOp::Text {
            x,
            y: padding as u64,
            size: 80,
            face: Face::Logo,
            color: Rgba { r: 247, g: 118, b: 142, a: 255 },
            bold: false,
            italic: false,
            text: "OxiiLink".to_owned(),
        },
    );
    ops.push(DrawOp::Rule { x0: 0, y0: 80, x1: size.0 as u64, y1: 80, color: rule });
    ops.push(DrawOp::Rule { x0: 50, y0: 80, x1: 50, y1: size.1 as u64, color: rule });
    proof {
        assert(op_models(ops@) =~= template_model(size, padding));
    }
    ops
}

/// A canvas of the given size with every pixel in the background colour:
/// what the banner of `template_ops` is drawn on before `round_template`
/// cuts the corners.
pub fn blank_canvas(size: (u32, u32)) -> (img: RasterImage)
    requires
        size.0 as nat * size.1 as nat <= usize::MAX,
    ensures
        img.wf(),
        img@.width == size.0,
        img@.height == size.1,
        forall|x: int, y: int| img@.contains(x, y) ==> #[trigger] img@.at(x, y) == background(),
{
    RasterImage::from_pixel(size.0, size.1, Rgba { r: 17, g: 18, b: 29, a: 255 })
}

/// The blank template of the given size, short of its banner: every pixel
/// in the background colour, and the four corners cut with the template's
/// radius. The canvas must have room for two such corners along every
/// edge. The banner that belongs `padding` pixels in from the edges needs
/// fonts; where they are at hand it is drawn on `blank_canvas` and
/// `round_template` finishes the template.
pub fn create_image(size: (u32, u32), padding: u32) -> (img: RasterImage)
    requires
        size.0 as nat * size.1 as nat <= usize::MAX,
        size.0 >= 32,
        size.1 >= 32,
    ensures
        img.wf(),
        img@.width == size.0,
        img@.height == size.1,
        forall|x: int, y: int|
            img@.contains(x, y) ==> #[trigger] img@.at(x, y) == background().with_alpha(
                crate::corners::mask_alpha(
                    (16u32, 16u32, 16u32, 16u32),
                    size.0 as nat,
                    size.1 as nat,
                    x,
                    y,
                    255,
                ),
            ),
        forall|x: int, y: int|
            img@.contains(x, y) && 16 <= x < size.0 - 16 ==> #[trigger] img@.at(x, y)
                == background(),
        forall|x: int, y: int|
            img@.contains(x, y) && 16 <= y < size.1 - 16 ==> #[trigger] img@.at(x, y)
                == background(),
        img@.at(0, 0) == background().with_alpha(0),
        img@.at(size.0 - 1, 0) == background().with_alpha(0),
        img@.at(size.0 - 1, size.1 - 1) == background().with_alpha(0),
        img@.at(0, size.1 - 1) == background().with_alpha(0),
{
    let mut img = blank_canvas(size);
    let ghost blank = img@;
    let rounded = round_template(&mut img);
    proof {
        assert(rounded is Ok);
        assert forall|x: int, y: int| img@.contains(x, y) implies #[trigger] img@.at(x, y)
            == background().with_alpha(
            crate::corners::mask_alpha(
                (16u32, 16u32, 16u32, 16u32),
                size.0 as nat,
                size.1 as nat,
                x,
                y,
                255,
            ),
        ) by {
            assert(blank.contains(x, y));
            assert(blank.at(x, y) == background());
        }
        let radii = (16u32, 16u32, 16u32, 16u32);
        let w = size.0 as nat;
        let h = size.1 as nat;
        assert(background().with_alpha(255) == background());
        assert forall|x: int, y: int| img@.contains(x, y) && 16 <= x < size.0 - 16 implies
            #[trigger] img@.at(x, y) == background() by {
            lemma_mask_outside_squares(radii, w, h, x, y, 255);
        }
        assert forall|x: int, y: int| img@.contains(x, y) && 16 <= y < size.1 - 16 implies
            #[trigger] img@.at(x, y) == background() by {
            lemma_mask_outside_squares(radii, w, h, x, y, 255);
        }
        assert(15 * 15 + 15 * 15 >= 16 * 16);
        lemma_mask_clears_outside_disc(radii, Corner::TopLeft, w, h, 0, 0, 255);
        lemma_mask_clears_outside_disc(
            radii,
            Corner::TopRight,
            w,
            h,
            size.0 - 1,
            0,
            255,
        );
        lemma_mask_clears_outside_disc(
            radii,
            Corner::BottomRight,
            w,
            h,
            size.0 - 1,
            size.1 - 1,
            255,
        );
        lemma_mask_clears_outside_disc(
            radii,
            Corner::BottomLeft,
            w,
            h,
            0,
            size.1 - 1,
            255,
        );
        assert(img@.contains(0, 0));
        assert(img@.contains(size.0 - 1, 0));
        assert(img@.contains(size.0 - 1, size.1 - 1));
        assert(img@.contains(0, size.1 - 1));
    }
    img
}

/// Cuts the corners of the blank template, all four with the template's
/// radius.
pub fn round_template(img: &mut RasterImage) -> (res: Result<(), RadiiError>)
    requires
        old(img).wf(),
    ensures
        final(img).wf(),
        final(img)@.width == old(img)@.width,
        final(img)@.height == old(img)@.height,
        res == match crate::corners::radii_fault(
            (16u32, 16u32, 16u32, 16u32),
            old(img)@.width,
            old(img)@.height,
        ) {
            Some(e) => Err::<(), RadiiError>(e),
            None => Ok::<(), RadiiError>(()),
        },
        res is Err ==> final(img)@ == old(img)@,
        res is Ok ==> forall|x: int, y: int|
            old(img)@.contains(x, y) ==> #[trigger] final(img)@.at(x, y) == old(img)@.at(
                x,
                y,
            ).with_alpha(
                crate::corners::mask_alpha(
                    (16u32, 16u32, 16u32, 16u32),
                    old(img)@.width,
                    old(img)@.height,
                    x,
                    y,
                    old(img)@.at(x, y).a,
                ),
            ),
{
    round(img, (TEMPLATE_RADIUS, TEMPLATE_RADIUS, TEMPLATE_RADIUS, TEMPLATE_RADIUS))
}

/// The PNG of a canvas.
pub open spec fn png_of(img: crate::canvas::RasterView) -> Option<Seq<u8>> {
    png_bytes(img.width, img.height, pixel_bytes(img.pixels))
}

/// Encodes the canvas as a PNG in memory. `None` where the encoder refuses
/// the image; the same canvas always gives the same bytes.
pub fn encode_canvas(img: &RasterImage) -> (png: Option<Vec<u8>>)
    requires
        img.wf(),
        img@.pixels.len() * 4 <= usize::MAX,
    ensures
        bytes_view(png) == png_of(img@),
{
    let pixels = img.pixel_count();
    let bytes = img.to_bytes();
    proof {
        assert(pixels == img@.width * img@.height);
        crate::canvas::lemma_pixel_bytes_len(img@.pixels);
        assert(4 * (img@.width * img@.height) == 4 * img@.width * img@.height)
            by (nonlinear_arith);
    }
    png_encode(img.width(), img.height(), bytes)
}

/// The last step of a render: the drawn canvas is encoded; the bytes are
/// the answer and go to the cache under the render's key, at the cost of
/// their length.
pub fn finish(key: &RenderKey, canvas: &RasterImage) -> (step: Finished)
    requires
        canvas.wf(),
        canvas@.pixels.len() * 4 <= usize::MAX,
    ensures
        match png_of(canvas@) {
            None => step is Failed,
            Some(bytes) => step matches Finished::Store { key: k, png, cost } && k@
                == RenderKey::cache_key_text(key.paste_id@, key.syntax_name@) && png@ == bytes
                && cost == if bytes.len() <= i64::MAX {
                bytes.len() as int
            } else {
                i64::MAX as int
            },
        },
{
    match encode_canvas(canvas) {
        None => Finished::Failed,
        Some(png) => {
            let cost = cache_cost(&png);
            Finished::Store { key: key.cache_key(), png, cost }
        },
    }
}

/// What a render costs the cache: its length in bytes.
pub fn cache_cost(png: &Vec<u8>) -> (cost: i64)
    ensures
        cost == if png@.len() <= i64::MAX {
            png@.len() as int
        } else {
            i64::MAX as int
        },
{
    let n = png.len();
    if n as u64 <= i64::MAX as u64 {
        n as i64
    } else {
        i64::MAX
    }
}

} // verus!
