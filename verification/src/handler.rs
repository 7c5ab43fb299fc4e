//! The request handler: the linear lifecycle of one GET request.
//!
//! Parse the query string, busy-wait when a positive increment limit was
//! requested, capture the wall-clock timestamp, and assemble the
//! response. A parameter error rejects the request; a clock reading
//! before the epoch fails only this request, never the process.

use crate::params::{effective_limit, Params};
use crate::response::{build_response, response_matches, ResponsePayload};
use crate::work::simulate_work;
use vstd::prelude::*;

verus! {

/// Why a request failed: the `IncrementLimit` parameter was malformed,
/// repeated or out of range, or the wall clock read a time before the
/// Unix epoch.
#[derive(Clone, Copy, Debug, PartialEq, Eq, Structural)]
pub enum HandlerError {
    InvalidIncrementLimit,
    ClockBeforeEpoch,
}

/// Relies on std::time::SystemTime: `now()` followed by
/// `duration_since(UNIX_EPOCH)` gives the duration since the Unix epoch,
/// or an error when the clock reads earlier than the epoch; `as_secs`
/// truncates it to whole seconds. Nothing is assumed about the value:
/// the clock may return anything, including `None`.
#[verifier::external_body]
fn now_unix_secs() -> Option<u64> {
    match std::time::SystemTime::now().duration_since(std::time::SystemTime::UNIX_EPOCH) {
        Ok(d) => Some(d.as_secs()),
        Err(_) => None,
    }
}

/// Handles one request end-to-end, from the raw query string to the
/// response payload.
///
/// The request is rejected with `InvalidIncrementLimit` exactly when the
/// query has no effective limit (a malformed, repeated or out-of-range
/// `IncrementLimit`). Otherwise the handler busy-waits for the requested
/// limit and then captures the timestamp: the result is the response for
/// whatever whole second the clock then read, or `ClockBeforeEpoch` when
/// the clock read a time before the epoch.
pub fn handle_request(query: &str) -> (r: Result<ResponsePayload, HandlerError>)
    ensures
        match r {
            Ok(p) => {
                &&& effective_limit(query@) is Some
                &&& p.wf()
                &&& exists|secs: u64| response_matches(p, secs)
            },
            Err(HandlerError::InvalidIncrementLimit) => effective_limit(query@) is None,
            Err(HandlerError::ClockBeforeEpoch) => effective_limit(query@) is Some,
        },
{
    let params = match Params::from_query(query) {
        Some(p) => p,
        None => {
            return Err(HandlerError::InvalidIncrementLimit);
        },
    };
    if params.increment_limit > 0 {
        simulate_work(params.increment_limit);
    }
    match now_unix_secs() {
        Some(secs) => {
            let p = build_response(secs);
            proof {
                assert(response_matches(p, secs));
            }
            Ok(p)
        },
        None => Err(HandlerError::ClockBeforeEpoch),
    }
}

} // verus!
