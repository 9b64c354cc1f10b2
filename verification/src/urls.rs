//! Trusted address arithmetic: the `url` crate resolves a relative
//! page address against the site root and extracts the site host.
//! Each result is a function of its string arguments alone.

use vstd::prelude::*;

verus! {

/// What resolving `href` against the base address yields, when both
/// parse.
pub uninterp spec fn joined_url(base: Seq<char>, href: Seq<char>) -> Option<Seq<char>>;

/// Relies on `url::Url::parse` and `url::Url::join`: the absolute
/// address of a page, or nothing when the base does not parse or the
/// join fails.
#[verifier::external_body]
pub fn resolve_url(base: &str, href: &str) -> (r: Option<String>)
    ensures
        r.deep_view() == joined_url(base@, href@),
{
    match url::Url::parse(base) {
        Ok(u) => match u.join(href) {
            Ok(j) => Some(j.as_str().to_string()),
            Err(_) => None,
        },
        Err(_) => None,
    }
}

/// The host of a parsed address: `None` when the address does not
/// parse, `Some(None)` when it parses but carries no host.
pub uninterp spec fn host_of(u: Seq<char>) -> Option<Option<Seq<char>>>;

/// Relies on `url::Url::parse` and `url::Url::host_str`: the host part
/// of an absolute address.
#[verifier::external_body]
pub fn url_host(u: &str) -> (r: Option<Option<String>>)
    ensures
        r.deep_view() == host_of(u@),
{
    match url::Url::parse(u) {
        Ok(p) => Some(p.host_str().map(|h| h.to_string())),
        Err(_) => None,
    }
}

} // verus!
