//! Splitting an absolute URL into the parts request signing needs.
//! The split itself is the url crate's; its results are named, and the
//! host-header rendering on top of them is verified.

use vstd::prelude::*;

use crate::text::u64_dec;

verus! {

/// The parts of an absolute URL that matter to the signer: the host,
/// the explicit port if one is spelled out, the path, and the query
/// (empty when there is none).
pub struct UrlParts {
    pub host: String,
    pub port: Option<u16>,
    pub path: String,
    pub query: String,
}

/// Whether the url crate accepts the string as an absolute URL with a
/// host.
pub uninterp spec fn spec_url_ok(s: Seq<char>) -> bool;

/// The host of an absolute URL, as `Url::host_str` reports it.
pub uninterp spec fn spec_url_host(s: Seq<char>) -> Seq<char>;

/// The explicit port of an absolute URL, as `Url::port` reports it:
/// none when absent or equal to the scheme default.
pub uninterp spec fn spec_url_port(s: Seq<char>) -> Option<u16>;

/// The path of an absolute URL, as `Url::path` reports it.
pub uninterp spec fn spec_url_path(s: Seq<char>) -> Seq<char>;

/// The query of an absolute URL, as `Url::query` reports it, with the
/// absent case read as the empty string.
pub uninterp spec fn spec_url_query(s: Seq<char>) -> Seq<char>;

/// Relies on `url::Url::parse` and the accessors `host_str`, `port`,
/// `path` and `query`: parsing is a function of the string alone, and
/// the accessors report the parts of the parsed URL.  A string the
/// crate rejects, or one whose URL has no host, yields nothing.
#[verifier::external_body]
pub(crate) fn split_url(s: &str) -> (r: Option<UrlParts>)
    ensures
        r is Some <==> spec_url_ok(s@),
        r matches Some(p) ==> p.host@ == spec_url_host(s@) && p.port == spec_url_port(s@)
            && p.path@ == spec_url_path(s@) && p.query@ == spec_url_query(s@),
{
    let u = url::Url::parse(s).ok()?;
    let host = u.host_str()?.to_string();
    let query = u.query().unwrap_or("").to_string();
    Some(UrlParts { host, port: u.port(), path: u.path().to_string(), query })
}

/// The value of an HTTP `Host` header: the host name, with the port
/// appended after a colon when one is spelled out.
pub open spec fn spec_host_header(host: Seq<char>, port: Option<u16>) -> Seq<char> {
    match port {
        Option::None => host,
        Option::Some(p) => host + seq![':'] + u64_dec(p as int),
    }
}

pub fn host_header(parts: &UrlParts) -> (r: String)
    ensures
        r@ == spec_host_header(parts.host@, parts.port),
{
    let mut r = parts.host.clone();
    match parts.port {
        Option::None => r,
        Option::Some(p) => {
            crate::text::push_char(&mut r, ':');
            crate::text::push_dec(&mut r, p as u64);
            proof {
                assert(r@ =~= parts.host@ + seq![':'] + u64_dec(p as int));
            }
            r
        },
    }
}

} // verus!
