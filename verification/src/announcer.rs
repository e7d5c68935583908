//! What a node needs in order to announce itself: an identifier of its
//! own, and the URLs of the services it offers.

use vstd::prelude::*;
use crate::text::{starts_with, trim, trimmed};

verus! {

/// The time between two announcements of a node: 10 seconds.
pub const ANNOUNCE_INTERVAL: u64 = 10_000_000_000;

/// A digit of a lower-case hexadecimal numeral.
pub open spec fn is_lower_hex(c: char) -> bool {
    ('0' <= c <= '9') || ('a' <= c <= 'f')
}

/// The written form of a UUID: 32 lower-case hexadecimal digits in groups
/// of 8, 4, 4, 4 and 12, with a hyphen between two groups.
pub open spec fn is_uuid_text(s: Seq<char>) -> bool {
    &&& s.len() == 36
    &&& forall|i: int|
        0 <= i < 36 ==> if i == 8 || i == 13 || i == 18 || i == 23 {
            #[trigger] s[i] == '-'
        } else {
            is_lower_hex(s[i])
        }
}

/// `hostname::get` of the `hostname` crate: the name of this machine, where
/// the system gives one and it is valid Unicode. Nothing is promised of it.
#[verifier::external_body]
fn machine_name() -> (name: Option<String>) {
    hostname::get().ok().and_then(|name| name.into_string().ok())
}

/// `uuid::Uuid::new_v4` of the `uuid` crate, written out as the crate's
/// `Display` writes a UUID: a random UUID in the hyphenated lower-case
/// form. Which one it is depends on chance; the crate panics where the
/// system has no source of random numbers.
#[verifier::external_body]
fn random_uuid() -> (text: String)
    ensures
        is_uuid_text(text@),
{
    uuid::Uuid::new_v4().to_string()
}

/// The host name that stands in for a machine without a usable name.
pub open spec fn unknown_host() -> Seq<char> {
    "unknown-host"@
}

/// The identifier of a node on the machine `hostname` with the UUID
/// `uuid`: the two with a hyphen between them.
pub open spec fn node_id_spec(hostname: Option<Seq<char>>, uuid: Seq<char>) -> Seq<char> {
    (match hostname {
        Some(name) => name,
        None => unknown_host(),
    }) + seq!['-'] + uuid
}

/// The view of a host name that may be missing.
pub open spec fn name_view(name: Option<String>) -> Option<Seq<char>> {
    match name {
        Some(n) => Some(n@),
        None => None,
    }
}

/// Puts a node's identifier together from the machine's name and a UUID.
pub fn node_id(hostname: Option<String>, uuid: &str) -> (id: String)
    ensures
        id@ == node_id_spec(name_view(hostname), uuid@),
{
    let mut id = match hostname {
        Some(name) => name,
        None => "unknown-host".to_owned(),
    };
    id.push('-');
    id.append(uuid);
    id
}

/// Makes an identifier for this node: the machine's name, or
/// `unknown-host` where it has none, a hyphen, and a fresh random UUID.
pub fn fresh_node_id() -> (id: String)
    ensures
        exists|hostname: Option<Seq<char>>, uuid: Seq<char>|
            is_uuid_text(uuid) && id@ == #[trigger] node_id_spec(hostname, uuid),
{
    let hostname = machine_name();
    let uuid = random_uuid();
    let id = node_id(hostname, uuid.as_str());
    assert(id@ == node_id_spec(name_view(hostname), uuid@));
    id
}

/// What a line of input says of a service.
#[derive(Debug)]
pub enum UrlInput {
    /// The line is empty: the node does not offer the service.
    Blank,
    /// The line holds the URL of the service.
    Accepted(String),
    /// The line holds something that is no URL of a service.
    Rejected,
}

/// What a [`UrlInput`] holds, as a mathematical value.
pub enum UrlInputView {
    Blank,
    Accepted(Seq<char>),
    Rejected,
}

impl View for UrlInput {
    type V = UrlInputView;

    open spec fn view(&self) -> UrlInputView {
        match *self {
            UrlInput::Blank => UrlInputView::Blank,
            UrlInput::Accepted(url) => UrlInputView::Accepted(url@),
            UrlInput::Rejected => UrlInputView::Rejected,
        }
    }
}

/// What a line of input says of a service: nothing where it is empty but
/// for white space; else the line without the white space at its ends is
/// the URL, provided that it begins with `http://` or `https://`.
pub open spec fn url_input_spec(line: Seq<char>) -> UrlInputView {
    let url = trim(line);
    if url.len() == 0 {
        UrlInputView::Blank
    } else if "http://"@.is_prefix_of(url) || "https://"@.is_prefix_of(url) {
        UrlInputView::Accepted(url)
    } else {
        UrlInputView::Rejected
    }
}

/// Reads a service URL from a line of input.
pub fn read_service_url(line: &str) -> (input: UrlInput)
    ensures
        input@ == url_input_spec(line@),
{
    let url = trimmed(line);
    if url.unicode_len() == 0 {
        UrlInput::Blank
    } else if starts_with(url, "http://") || starts_with(url, "https://") {
        UrlInput::Accepted(url.to_owned())
    } else {
        UrlInput::Rejected
    }
}

impl UrlInput {
    /// The URL, where the line held one.
    pub fn accepted(self) -> (url: Option<String>)
        ensures
            match self {
                UrlInput::Accepted(u) => url == Some(u),
                _ => url is None,
            },
    {
        match self {
            UrlInput::Accepted(url) => Some(url),
            _ => None,
        }
    }
}

} // verus!
