//! The work-simulation routine: a pure CPU-bound counting loop used to
//! inject a controllable amount of latency into a request.

use vstd::prelude::*;

verus! {

/// Relies on std::hint::black_box: returns its argument unchanged while
/// acting as a compiler barrier, so the counting loop that produced the
/// value cannot be removed by dead-code elimination.
#[verifier::external_body]
fn observe(n: u64) -> (r: u64)
    ensures
        r == n,
{
    std::hint::black_box(n)
}

/// Busy-waits by counting from 0 up to (but not including)
/// `increment_limit`, then hands the final counter value back so the work
/// is externally observable.
///
/// The loop has no side effect other than consuming CPU time proportional
/// to `increment_limit`; the returned counter always equals the limit.
pub fn simulate_work(increment_limit: u64) -> (r: u64)
    ensures
        r == increment_limit,
{
    let mut i: u64 = 0;
    while i < increment_limit
        invariant
            i <= increment_limit,
        decreases increment_limit - i,
    {
        i = i + 1;
    }
    observe(i)
}

} // verus!
