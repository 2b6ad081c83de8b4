//! Recognisers for the project's documentation and repository URLs.

use vstd::prelude::*;
use crate::text::{
    chars_of, has_prefix, index_of, index_of_exec, occurs_at_exec, seq_contains, seq_eq,
    slice_vec, str_contains, trim, trimmed,
};

verus! {

/// After trimming, `url` starts with `scheme`, then `://`, and the host
/// (everything up to the first `/`, or the rest) equals `host`.
pub open spec fn url_has_scheme_host(url: Seq<char>, scheme: Seq<char>, host: Seq<char>) -> bool {
    let t = trim(url);
    let after_scheme = t.subrange(scheme.len() as int, t.len() as int);
    let after_protocol = after_scheme.subrange(3, after_scheme.len() as int);
    &&& has_prefix(t, scheme)
    &&& has_prefix(after_scheme, "://"@)
    &&& after_protocol.take(index_of(after_protocol, '/') as int) == host
}

/// Whether `url` (trimmed) uses `expected_scheme` and names exactly
/// `expected_host`.
pub fn check_url_scheme_host(url: &str, expected_scheme: &str, expected_host: &str) -> (r: bool)
    ensures
        r == url_has_scheme_host(url@, expected_scheme@, expected_host@),
{
    let u = chars_of(url);
    let t = trimmed(&u);
    let scheme = chars_of(expected_scheme);
    if !occurs_at_exec(&t, &scheme, 0) {
        return false;
    }
    let after_scheme = slice_vec(&t, scheme.len(), t.len());
    let sep = chars_of("://");
    if !occurs_at_exec(&after_scheme, &sep, 0) {
        proof {
            reveal_strlit("://");
        }
        return false;
    }
    proof {
        reveal_strlit("://");
    }
    let after_protocol = slice_vec(&after_scheme, 3, after_scheme.len());
    let host_end = index_of_exec(&after_protocol, 0, '/');
    proof {
        assert(after_protocol@.subrange(0, after_protocol@.len() as int) =~= after_protocol@);
    }
    let host = slice_vec(&after_protocol, 0, host_end);
    let expected = chars_of(expected_host);
    let r = seq_eq(&host, &expected);
    proof {
        assert(host@ =~= after_protocol@.take(host_end as int));
    }
    r
}

/// A repository URL of the Tollcraft organisation on GitHub.
pub fn is_github_repo_url(url: &str) -> (r: bool)
    ensures
        r == (url_has_scheme_host(url@, "https"@, "github.com"@) && seq_contains(
            url@,
            "/Tollcraft/"@,
        )),
{
    check_url_scheme_host(url, "https", "github.com") && str_contains(url, "/Tollcraft/")
}

/// A page of the Stellar developer documentation.
pub fn is_stellar_docs_url(url: &str) -> (r: bool)
    ensures
        r == url_has_scheme_host(url@, "https"@, "developers.stellar.org"@),
{
    check_url_scheme_host(url, "https", "developers.stellar.org")
}

/// A repository URL of the Stellar organisation on GitHub.
pub fn is_stellar_github_url(url: &str) -> (r: bool)
    ensures
        r == (url_has_scheme_host(url@, "https"@, "github.com"@) && seq_contains(
            url@,
            "/stellar/"@,
        )),
{
    check_url_scheme_host(url, "https", "github.com") && str_contains(url, "/stellar/")
}

/// A page of the Tollcraft documentation site.
pub fn is_tollcraft_docs_url(url: &str) -> (r: bool)
    ensures
        r == url_has_scheme_host(url@, "https"@, "tollcraft.gitbook.io"@),
{
    check_url_scheme_host(url, "https", "tollcraft.gitbook.io")
}

} // verus!
