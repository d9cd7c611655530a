//! Trusted boundary to the `url` crate: splitting a request target into
//! its path and its decoded query pairs.

use vstd::prelude::*;
use crate::strutil::params_view;

verus! {

/// The path and decoded query pairs of a request target.
pub struct RequestParts {
    pub path: String,
    pub query: Vec<(String, String)>,
}

/// Whether the `url` crate accepts the request target when joined to the
/// dispatcher's fixed base.
pub uninterp spec fn url_target_ok(target: Seq<char>) -> bool;

/// The path the `url` crate extracts from the request target.
pub uninterp spec fn url_target_path(target: Seq<char>) -> Seq<char>;

/// The decoded query pairs the `url` crate extracts from the request
/// target, in order of appearance.
pub uninterp spec fn url_target_query(target: Seq<char>) -> Seq<(Seq<char>, Seq<char>)>;

/// Relies on the `url` crate: `Url::parse` and `Url::join` resolve the
/// target against a constant base (`url_target_ok` says whether they
/// accept it), `Url::path` yields the path (`url_target_path`), and
/// `Url::query_pairs` yields the decoded query pairs
/// (`url_target_query`). Parsing is deterministic and the base is a
/// constant, so all three results depend on the target alone.
#[verifier::external_body]
pub fn parse_target(target: &str) -> (r: Option<RequestParts>)
    ensures
        r is Some <==> url_target_ok(target@),
        r matches Some(p) ==> p.path@ == url_target_path(target@) && params_view(p.query@)
            == url_target_query(target@),
{
    let base = match url::Url::parse("http://node.invalid/") {
        Ok(b) => b,
        Err(_) => return None,
    };
    let joined = match base.join(target) {
        Ok(u) => u,
        Err(_) => return None,
    };
    let path = joined.path().to_string();
    let query: Vec<(String, String)> = joined.query_pairs().into_owned().collect();
    Some(RequestParts { path, query })
}

} // verus!
