use vstd::prelude::*;
use vstd::utf8::encode_utf8;
use crate::error::{Result, RhythmixError};

verus! {

/// What the server does with a request.
#[derive(Debug, Clone, Copy, PartialEq, Eq, Structural)]
pub enum Route {
    /// Analyze an uploaded audio file.
    Analyze,
    /// Answer that the server is up.
    HealthCheck,
    /// Answer that nothing is there.
    NotFound,
}

/// The route of a request: `POST /analyze` analyzes, `GET /health` checks
/// health, anything else is not found.
pub open spec fn route_for(method: Seq<char>, path: Seq<char>) -> Route {
    if method == "POST"@ && path == "/analyze"@ {
        Route::Analyze
    } else if method == "GET"@ && path == "/health"@ {
        Route::HealthCheck
    } else {
        Route::NotFound
    }
}

fn bytes_equal(a: &[u8], b: &[u8]) -> (r: bool)
    ensures
        r == (a@ == b@),
{
    if a.len() != b.len() {
        return false;
    }
    let mut i: usize = 0;
    while i < a.len()
        invariant
            i <= a@.len(),
            a@.len() == b@.len(),
            forall|j: int| 0 <= j < i ==> a@[j] == b@[j],
        decreases a@.len() - i,
    {
        if a[i] != b[i] {
            return false;
        }
        i = i + 1;
    }
    assert(a@ =~= b@);
    true
}

fn text_equal(a: &str, b: &str) -> (r: bool)
    ensures
        r == (a@ == b@),
{
    broadcast use vstd::utf8::encode_utf8_decode_utf8;

    let r = bytes_equal(a.as_bytes(), b.as_bytes());
    if r {
        assert(vstd::utf8::decode_utf8(encode_utf8(a@)) == vstd::utf8::decode_utf8(encode_utf8(b@)));
    }
    r
}

/// Chooses what to do with a request of the given method and path.
pub fn route_request(method: &str, path: &str) -> (r: Route)
    ensures
        r == route_for(method@, path@),
{
    if text_equal(method, "POST") && text_equal(path, "/analyze") {
        Route::Analyze
    } else if text_equal(method, "GET") && text_equal(path, "/health") {
        Route::HealthCheck
    } else {
        Route::NotFound
    }
}

/// The error of a processing pool without threads.
pub open spec fn empty_pool_message() -> Seq<char> {
    "Thread pool size must be greater than 0"@
}

/// The number of tasks that may wait for a pool of `size` threads: two per
/// thread; a pool needs at least one thread.
pub fn pool_queue_capacity(size: usize) -> (r: Result<usize>)
    requires
        size <= usize::MAX / 2,
    ensures
        r is Ok <==> size > 0,
        r matches Ok(c) ==> c == 2 * size,
        r matches Err(e) ==> e matches RhythmixError::ThreadPool(m) && m@ == empty_pool_message(),
{
    if size == 0 {
        return Err(RhythmixError::ThreadPool("Thread pool size must be greater than 0".to_owned()));
    }
    Ok(size * 2)
}

} // verus!
