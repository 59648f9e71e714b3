//! The rules of the link shortener: which addresses are taken and which
//! custom ids fit.

use crate::outside::{parts_view, url_parts, url_read};
use vstd::prelude::*;

verus! {

/// What the rules read of a parsed address.
pub struct UrlParts {
    pub scheme: String,
    pub username: String,
    pub host: Option<String>,
    /// The address as the parser writes it back.
    pub text: String,
}

/// What becomes of an address that someone wants shortened.
pub enum LinkVerdict {
    /// It is no address at all.
    Unparsable,
    /// It is an address, but of a kind that is not shortened.
    Refused,
    /// It is stored, in this spelling.
    Accepted { address: String },
}

/// Whether a scheme is one of the web's two.
pub open spec fn is_web_scheme(scheme: Seq<char>) -> bool {
    scheme == "http"@ || scheme == "https"@
}

/// Whether an address with these parts may be stored under an id that its
/// owner chose: it must be a web address without a user name.
pub open spec fn storable(scheme: Seq<char>, username: Seq<char>) -> bool {
    username.len() == 0 && is_web_scheme(scheme)
}

/// Whether an address with these parts may be shortened: it must be
/// storable and point at a host other than the shortener's own.
pub open spec fn shortenable(
    scheme: Seq<char>,
    username: Seq<char>,
    host: Option<Seq<char>>,
    own_host: Seq<char>,
) -> bool {
    storable(scheme, username) && host is Some && host != Some(own_host)
}

/// Whether `a` reads `b`.
pub fn same_text(a: &String, b: &str) -> (same: bool)
    ensures
        same == (a@ == b@),
{
    let other = b.to_owned();
    *a == other
}

/// Whether a custom id of `length` bytes fits: more than one byte and no
/// more than sixteen.
pub fn custom_id_fits(length: usize) -> (fits: bool)
    ensures
        fits == (1 < length <= 16),
{
    !(length > 16 || length <= 1)
}

/// Whether an address with these parts may be stored under a custom id.
pub fn may_store(parts: &UrlParts) -> (ok: bool)
    ensures
        ok == storable(parts.scheme@, parts.username@),
{
    proof {
        reveal_strlit("");
        assert(parts.username@.len() == 0 <==> parts.username@ =~= ""@);
    }
    same_text(&parts.username, "") && (same_text(&parts.scheme, "http") || same_text(
        &parts.scheme,
        "https",
    ))
}

/// Whether an address with these parts may be shortened by a shortener
/// that lives at `own_host`.
pub fn may_shorten(parts: &UrlParts, own_host: &str) -> (ok: bool)
    ensures
        ok == shortenable(
            parts.scheme@,
            parts.username@,
            crate::outside::text_view(parts.host),
            own_host@,
        ),
{
    if !may_store(parts) {
        return false;
    }
    match &parts.host {
        Some(host) => !same_text(host, own_host),
        None => false,
    }
}

/// The verdict on parts that were read from an address, or on none where
/// the address could not be read.
pub fn judge_link(parts: Option<UrlParts>, own_host: &str) -> (verdict: LinkVerdict)
    ensures
        match parts {
            None => verdict is Unparsable,
            Some(p) => if shortenable(
                p.scheme@,
                p.username@,
                crate::outside::text_view(p.host),
                own_host@,
            ) {
                verdict matches LinkVerdict::Accepted { address } && address@ == p.text@
            } else {
                verdict is Refused
            },
        },
{
    match parts {
        None => LinkVerdict::Unparsable,
        Some(p) => {
            if may_shorten(&p, own_host) {
                LinkVerdict::Accepted { address: p.text }
            } else {
                LinkVerdict::Refused
            }
        },
    }
}

/// The verdict on an address, from what is read of it: none where nothing
/// can be read, the address as it was read where it may be shortened.
pub open spec fn verdict_of(
    parts: Option<(Seq<char>, Seq<char>, Option<Seq<char>>, Seq<char>)>,
    own_host: Seq<char>,
    verdict: LinkVerdict,
) -> bool {
    match parts {
        None => verdict is Unparsable,
        Some(p) => if shortenable(p.0, p.1, p.2, own_host) {
            verdict matches LinkVerdict::Accepted { address } && address@ == p.3
        } else {
            verdict is Refused
        },
    }
}

/// Reads an address into its parts; `None` where it cannot be parsed.
pub fn read_url(text: &str) -> (parts: Option<UrlParts>)
    ensures
        parts_view(parts) == url_parts(text@),
{
    url_read(text)
}

/// The verdict on an address that someone wants shortened: what
/// `judge_link` makes of the parts that are read of it.
pub fn vet_link(text: &str, own_host: &str) -> (verdict: LinkVerdict)
    ensures
        verdict_of(url_parts(text@), own_host@, verdict),
{
    judge_link(read_url(text), own_host)
}

} // verus!
