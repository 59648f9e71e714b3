//! Who is asking: a chat service that wants an embed card, a browser, or a
//! plain client.

use vstd::prelude::*;
use vstd::string::StringSliceAdditionalSpecFns;
use vstd::utf8::encode_utf8;

verus! {

/// The kinds of client that are answered differently.
#[allow(clippy::upper_case_acronyms)]
#[derive(Clone, Copy, Debug, PartialEq, Eq, Structural)]
pub enum ClientType {
    Discord,
    Slack,
    Twitter,
    WhatsApp,
    UnknownBot,
    NoHtml,
    HTML,
}

/// One request header as the classification sees it.
#[derive(Clone, Copy, Debug)]
pub enum Header<'a> {
    /// The request has no such header.
    Missing,
    /// The header is there, but its value is not printable text.
    Opaque,
    /// The header's value.
    Text(&'a str),
}

/// Whether `needle` occurs in `hay` at position `at`.
pub open spec fn occurs_at(hay: Seq<u8>, needle: Seq<u8>, at: int) -> bool {
    0 <= at && at + needle.len() <= hay.len() && hay.subrange(at, at + needle.len()) == needle
}

/// Whether `needle` occurs in `hay`.
pub open spec fn occurs(hay: Seq<u8>, needle: Seq<u8>) -> bool {
    exists|at: int| occurs_at(hay, needle, at)
}

/// Whether the text holds the word, byte for byte.
pub open spec fn mentions(text: Seq<char>, word: Seq<char>) -> bool {
    occurs(encode_utf8(text), encode_utf8(word))
}

/// The kind of client behind a user agent that names itself as `agent`,
/// where one of the known services is named: the first of Discord, Twitter,
/// WhatsApp, Slack and any other bot.
pub open spec fn service_of(agent: Seq<char>) -> Option<ClientType> {
    if mentions(agent, "Discordbot"@) {
        Some(ClientType::Discord)
    } else if mentions(agent, "Twitterbot"@) {
        Some(ClientType::Twitter)
    } else if mentions(agent, "WhatsApp"@) {
        Some(ClientType::WhatsApp)
    } else if mentions(agent, "Slackbot"@) || mentions(agent, "Slack-ImgProxy"@) {
        Some(ClientType::Slack)
    } else if mentions(agent, "bot"@) {
        Some(ClientType::UnknownBot)
    } else {
        None
    }
}

/// Whether a client that sent this `Accept` header takes HTML.
pub open spec fn takes_html(accept: Header) -> bool {
    match accept {
        Header::Text(a) => mentions(a@, "html"@),
        _ => false,
    }
}

/// The kind of client that sent these two headers. Without a readable user
/// agent it is a plain client. A user agent that names a known service is
/// that service. Any other is a browser if it accepts HTML and a plain
/// client if not.
pub open spec fn client_of(user_agent: Header, accept: Header) -> ClientType {
    match user_agent {
        Header::Text(agent) => match service_of(agent@) {
            Some(kind) => kind,
            None => if takes_html(accept) {
                ClientType::HTML
            } else {
                ClientType::NoHtml
            },
        },
        _ => ClientType::NoHtml,
    }
}

/// Whether `needle` stands in `hay` at `at`.
fn matches_at(hay: &[u8], needle: &[u8], at: usize) -> (hit: bool)
    requires
        at + needle@.len() <= hay@.len(),
    ensures
        hit == occurs_at(hay@, needle@, at as int),
{
    let n = hay.len();
    let mut k: usize = 0;
    while k < needle.len()
        invariant
            k <= needle@.len(),
            n == hay@.len(),
            at + needle@.len() <= hay@.len(),
            forall|j: int| 0 <= j < k ==> hay@[at + j] == needle@[j],
        decreases needle@.len() - k,
    {
        if hay[at + k] != needle[k] {
            proof {
                let part = hay@.subrange(at as int, at + needle@.len());
                assert(part[k as int] == hay@[at + k]);
            }
            return false;
        }
        k = k + 1;
    }
    proof {
        assert(hay@.subrange(at as int, at + needle@.len()) =~= needle@);
    }
    true
}

/// Whether `text` holds `word`.
pub fn contains(text: &str, word: &str) -> (found: bool)
    ensures
        found == mentions(text@, word@),
{
    let hay = text.as_bytes();
    let needle = word.as_bytes();
    if needle.len() > hay.len() {
        return false;
    }
    if needle.len() == 0 {
        proof {
            assert(hay@.subrange(0, 0) =~= needle@);
            assert(occurs_at(hay@, needle@, 0));
        }
        return true;
    }
    let count = hay.len() - needle.len() + 1;
    let mut at: usize = 0;
    while at < count
        invariant
            hay@ == encode_utf8(text@),
            needle@ == encode_utf8(word@),
            count == hay@.len() - needle@.len() + 1,
            at <= count,
            forall|j: int| 0 <= j < at ==> !occurs_at(hay@, needle@, j),
        decreases count - at,
    {
        if matches_at(hay, needle, at) {
            return true;
        }
        at = at + 1;
    }
    false
}

impl ClientType {
    /// The kind of client that sent the given `User-Agent` and `Accept`
    /// headers.
    pub fn from(user_agent: Header, accept: Header) -> (kind: ClientType)
        ensures
            kind == client_of(user_agent, accept),
    {
        let agent = match user_agent {
            Header::Text(agent) => agent,
            _ => {
                return ClientType::NoHtml;
            },
        };
        if contains(agent, "Discordbot") {
            ClientType::Discord
        } else if contains(agent, "Twitterbot") {
            ClientType::Twitter
        } else if contains(agent, "WhatsApp") {
            ClientType::WhatsApp
        } else if contains(agent, "Slackbot") || contains(agent, "Slack-ImgProxy") {
            ClientType::Slack
        } else if contains(agent, "bot") {
            ClientType::UnknownBot
        } else {
            match accept {
                Header::Text(a) => {
                    if contains(a, "html") {
                        ClientType::HTML
                    } else {
                        ClientType::NoHtml
                    }
                },
                _ => ClientType::NoHtml,
            }
        }
    }
}

} // verus!
