//! Wall-clock access for stamping chat messages.

use vstd::prelude::*;

verus! {

/// Relies on chrono::Utc::now: the current Unix time in seconds, truncated
/// to 32 bits.  The result depends on the moment of the call, so nothing is
/// stated about it.
#[verifier::external_body]
pub fn now_unix() -> u32 {
    chrono::Utc::now().timestamp() as u32
}

} // verus!
