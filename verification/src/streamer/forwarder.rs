//! The reconnection delay of the streaming server's forwarder.
use vstd::prelude::*;
use crate::forwarder::{pow2, scaled_pow2};

verus! {

/// The wait before reconnection attempt `attempt`, in milliseconds: 500
/// doubled per attempt, at most 5 seconds.
pub open spec fn streamer_delay(attempt: nat) -> nat {
    if pow2(attempt) * 500 < 5000 {
        pow2(attempt) * 500
    } else {
        5000
    }
}

/// The wait before reconnection attempt `attempt`, in milliseconds: 500
/// doubled per attempt, at most 5 seconds.
pub fn exponential_delay(attempt: usize) -> (r: u64)
    requires
        attempt <= 55,
    ensures
        r == if pow2(attempt as nat) * 500 < 5000 {
            pow2(attempt as nat) * 500
        } else {
            5000
        },
        r == streamer_delay(attempt as nat),
{
    let d = scaled_pow2(attempt, 500);
    if d < 5000 {
        d
    } else {
        5000
    }
}

/// The streaming server's reconnection wait starts at half a second and
/// doubles with each attempt until it reaches five seconds, where it stays.
pub proof fn lemma_streamer_delay_doubles_to_cap(attempt: nat)
    ensures
        streamer_delay(0) == 500,
        streamer_delay(attempt + 1) == if 2 * streamer_delay(attempt) < 5000 {
            2 * streamer_delay(attempt)
        } else {
            5000
        },
        500 <= streamer_delay(attempt) <= 5000,
{
    assert(pow2(attempt + 1) == 2 * pow2(attempt));
    assert(pow2(0) == 1);
    crate::forwarder::lemma_delay_doubles_to_cap(attempt);
}

} // verus!
