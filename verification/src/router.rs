//! Where a request goes: to the metrics, or on to become a client's socket.

use vstd::prelude::*;
use crate::scan::{matches_at, occurs_at, same_bytes};

verus! {

/// The path of the metrics: `/metrics`.
pub const METRICS_PATH: [u8; 8] = [
    '/' as u8,
    'm' as u8,
    'e' as u8,
    't' as u8,
    'r' as u8,
    'i' as u8,
    'c' as u8,
    's' as u8,
];

/// The parameter by which a client asks for compression when connecting:
/// `compress=zlib-stream`.
pub const ZLIB_HINT: [u8; 20] = [
    'c' as u8,
    'o' as u8,
    'm' as u8,
    'p' as u8,
    'r' as u8,
    'e' as u8,
    's' as u8,
    's' as u8,
    '=' as u8,
    'z' as u8,
    'l' as u8,
    'i' as u8,
    'b' as u8,
    '-' as u8,
    's' as u8,
    't' as u8,
    'r' as u8,
    'e' as u8,
    'a' as u8,
    'm' as u8,
];

/// The byte `&`, which parts the parameters of a query.
pub const AMPERSAND: u8 = 0x26;

/// Where a request goes.
#[derive(Clone, Copy, Debug, PartialEq, Eq)]
pub enum Route {
    /// Answer with the metrics.
    Metrics,
    /// Upgrade to a socket; `use_zlib` says whether the client asked for
    /// compression.
    Upgrade { use_zlib: bool },
}

/// `parameter` stands in `query` at `at` as a whole parameter: the query
/// begins there or a `&` stands before it, and the query ends after it or a
/// `&` follows.
pub open spec fn parameter_at(query: Seq<u8>, parameter: Seq<u8>, at: int) -> bool {
    &&& matches_at(query, parameter, at)
    &&& at == 0 || query[at - 1] == AMPERSAND
    &&& at + parameter.len() == query.len() || query[at + parameter.len()] == AMPERSAND
}

/// The query holds the parameter `compress=zlib-stream`.
pub open spec fn asks_for_zlib(query: Seq<u8>) -> bool {
    exists|at: int| #[trigger] parameter_at(query, ZLIB_HINT@, at)
}

/// Where a request goes: to the metrics on the path `/metrics`; otherwise to
/// an upgrade, with compression where the query asks for it.
pub open spec fn route_of(path: Seq<u8>, query: Option<Seq<u8>>) -> Route {
    if path == METRICS_PATH@ {
        Route::Metrics
    } else {
        Route::Upgrade {
            use_zlib: match query {
                Some(query) => asks_for_zlib(query),
                None => false,
            },
        }
    }
}

/// Whether the query asks for compression.
pub fn compression_hint(query: &[u8]) -> (r: bool)
    ensures
        r == asks_for_zlib(query@),
{
    let hint = ZLIB_HINT;
    let total = query.len();
    if total < 20 {
        return false;
    }
    let last = total - 20;
    let mut at: usize = 0;
    while at <= last
        invariant
            total == query@.len(),
            last + 20 == total,
            at <= last + 1,
            hint@ == ZLIB_HINT@,
            forall|k: int| 0 <= k < at ==> !parameter_at(query@, ZLIB_HINT@, k),
        decreases last + 1 - at,
    {
        if occurs_at(query, hint.as_slice(), at) && (at == 0 || query[at - 1] == AMPERSAND) && (at
            == last || query[at + 20] == AMPERSAND) {
            assert(parameter_at(query@, ZLIB_HINT@, at as int));
            return true;
        }
        at = at + 1;
    }
    false
}

/// Says where a request goes, by its path and its query.
pub fn route(path: &[u8], query: Option<&[u8]>) -> (r: Route)
    ensures
        r == route_of(
            path@,
            match query {
                Some(query) => Some(query@),
                None => None,
            },
        ),
{
    let metrics = METRICS_PATH;
    if same_bytes(path, metrics.as_slice()) {
        Route::Metrics
    } else {
        let use_zlib = match query {
            Some(query) => compression_hint(query),
            None => false,
        };
        Route::Upgrade { use_zlib }
    }
}

} // verus!
