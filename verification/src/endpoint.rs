//! Where a node is reached. A node that announces itself under a loopback
//! host means the machine it runs on, so the balancer puts the address that
//! the datagram came from in the host's place.
//!
//! Reading and rewriting URLs is the work of the `url` crate. What it makes
//! of a text is named here, not described: [`url_host`] and
//! [`url_with_host`].

use vstd::prelude::*;
use vstd::utf8::encode_utf8;
use vstd::string::StringSliceAdditionalSpecFns;
use crate::text::same_text;

verus! {

/// The longest URL, in bytes, that is rewritten: what a datagram can carry.
pub const MAX_URL_LEN: usize = 1024;

/// The longest source address, in bytes, that is put into a URL: the
/// length of the longest host name.
pub const MAX_HOST_LEN: usize = 255;

/// The host of `url` as the `url` crate reads it: `None` where the crate
/// does not take the text for an absolute URL, or the URL has no host.
pub uninterp spec fn url_host(url: Seq<char>) -> Option<Seq<char>>;

/// The text of `url` after the `url` crate has set its host to `host`:
/// `None` where the crate does not take `url` for an absolute URL, or
/// refuses the host for it.
pub uninterp spec fn url_with_host(url: Seq<char>, host: Seq<char>) -> Option<Seq<char>>;

/// The view of a text that may be missing.
pub open spec fn text_view(text: Option<String>) -> Option<Seq<char>> {
    match text {
        Some(t) => Some(t@),
        None => None,
    }
}

/// `url::Url::parse` followed by `url::Url::host_str`: the host that the
/// crate finds in `url`. The contract only gives that result its name.
#[verifier::external_body]
fn host_of(url: &str) -> (host: Option<String>)
    ensures
        text_view(host) == url_host(url@),
{
    match url::Url::parse(url) {
        Ok(parsed) => parsed.host_str().map(|h| h.to_owned()),
        Err(_) => None,
    }
}

/// `url::Url::parse` followed by `url::Url::set_host` and the conversion of
/// the URL to a `String`: the text of `url` with `host` in the host's
/// place. The contract only gives that result its name. The crate counts
/// the bytes of a URL in 32 bits and panics beyond that, which the bounds
/// keep far away.
#[verifier::external_body]
fn replace_host(url: &str, host: &str) -> (rewritten: Option<String>)
    requires
        url.spec_bytes().len() <= MAX_URL_LEN,
        host.spec_bytes().len() <= MAX_HOST_LEN,
    ensures
        text_view(rewritten) == url_with_host(url@, host@),
{
    match url::Url::parse(url) {
        Ok(mut parsed) => match parsed.set_host(Some(host)) {
            Ok(()) => Some(String::from(parsed)),
            Err(_) => None,
        },
        Err(_) => None,
    }
}

/// A host that means the machine of whoever names it.
pub open spec fn is_loopback_host(host: Seq<char>) -> bool {
    host == "localhost"@ || host == "127.0.0.1"@
}

/// Whether a URL and a source address are short enough to be put together.
pub open spec fn within_limits(announced: Seq<char>, source_ip: Seq<char>) -> bool {
    encode_utf8(announced).len() <= MAX_URL_LEN && encode_utf8(source_ip).len() <= MAX_HOST_LEN
}

/// The URL to store, given the announced one and what came of putting the
/// source address into it.
pub open spec fn pick_url_spec(announced: Seq<char>, rewritten: Option<Seq<char>>) -> Seq<char> {
    match rewritten {
        Some(url) => url,
        None => announced,
    }
}

/// The URL under which the balancer reaches a node that announced
/// `announced` in a datagram from `source_ip`.
pub open spec fn effective_url_spec(announced: Seq<char>, source_ip: Seq<char>) -> Seq<char> {
    if within_limits(announced, source_ip) && url_host(announced) is Some && is_loopback_host(
        url_host(announced)->0,
    ) {
        pick_url_spec(announced, url_with_host(announced, source_ip))
    } else {
        announced
    }
}

/// Tells whether `host` is `localhost` or `127.0.0.1`.
pub fn is_loopback(host: &str) -> (loopback: bool)
    ensures
        loopback == is_loopback_host(host@),
{
    same_text(host, "localhost") || same_text(host, "127.0.0.1")
}

/// The rewritten URL where there is one, the announced URL as it came
/// where there is none.
pub fn pick_url(announced: &str, rewritten: Option<String>) -> (url: String)
    ensures
        url@ == pick_url_spec(announced@, text_view(rewritten)),
{
    match rewritten {
        Some(url) => url,
        None => announced.to_owned(),
    }
}

/// The URL under which the balancer reaches a node that announced
/// `announced` in a datagram from `source_ip`. Where the announced host is
/// `localhost` or `127.0.0.1`, the source address takes its place and the
/// rest of the URL stays. Any other URL, one that the `url` crate cannot
/// read or cannot give that host, and one too long for a datagram, is kept
/// as it came.
pub fn effective_url(announced: &str, source_ip: &str) -> (url: String)
    ensures
        url@ == effective_url_spec(announced@, source_ip@),
{
    if announced.as_bytes().len() > MAX_URL_LEN || source_ip.as_bytes().len() > MAX_HOST_LEN {
        return announced.to_owned();
    }
    match host_of(announced) {
        Some(host) => {
            if is_loopback(host.as_str()) {
                pick_url(announced, replace_host(announced, source_ip))
            } else {
                announced.to_owned()
            }
        },
        None => announced.to_owned(),
    }
}

} // verus!
