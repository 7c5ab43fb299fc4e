//! The response payload: an opaque request identifier and an ordered
//! chain of timestamp strings, built after the work simulation completes.

use crate::decimal::{dec_seq, dec_str, is_digit_seq, lemma_dec_seq_is_digit_seq};
use vstd::prelude::*;
use vstd::string::*;

verus! {

/// The fixed placeholder request identifier: the platform does not
/// specify one.
pub open spec fn request_id_text() -> Seq<char> {
    "google-does-not-specify"@
}

/// One response: an opaque identifier and the timestamps captured while
/// handling the request, in chronological order.
#[derive(Debug)]
pub struct ResponsePayload {
    pub request_id: String,
    pub timestamp_chain: Vec<String>,
}

impl ResponsePayload {
    /// Every timestamp entry is a non-empty decimal digit string, i.e.
    /// parseable as a non-negative integer.
    pub open spec fn wf(self) -> bool {
        forall|i: int|
            0 <= i < self.timestamp_chain@.len() ==> is_digit_seq(
                #[trigger] self.timestamp_chain@[i]@,
            )
    }
}

/// Whether `p` is exactly the response for a request whose timestamp was
/// captured at `secs`: the placeholder identifier and a single-entry
/// chain holding the decimal encoding of `secs`.
pub open spec fn response_matches(p: ResponsePayload, secs: u64) -> bool {
    &&& p.request_id@ == request_id_text()
    &&& p.timestamp_chain@.len() == 1
    &&& p.timestamp_chain@[0]@ == dec_seq(secs as int)
}

/// The request identifier is never empty in a response.
pub proof fn lemma_request_id_nonempty(p: ResponsePayload, secs: u64)
    requires
        response_matches(p, secs),
    ensures
        p.request_id@.len() > 0,
{
    reveal_strlit("google-does-not-specify");
}

/// Builds the response for a timestamp of `secs` seconds since the
/// epoch: the placeholder identifier and one decimal timestamp entry.
pub fn build_response(secs: u64) -> (p: ResponsePayload)
    ensures
        response_matches(p, secs),
        p.wf(),
        p.request_id@.len() > 0,
{
    let mut chain: Vec<String> = Vec::new();
    chain.push(dec_str(secs));
    let p = ResponsePayload { request_id: "google-does-not-specify".to_owned(), timestamp_chain: chain };
    proof {
        reveal_strlit("google-does-not-specify");
        lemma_dec_seq_is_digit_seq(secs as int);
    }
    p
}

} // verus!
