//! Drawing fresh WAMP IDs. The raw randomness comes from the `rand`
//! crate; nothing is assumed of the value drawn, so every caller must hold
//! for every outcome.

use vstd::prelude::*;
use crate::types::{WampId, WAMP_ID_MAX};

verus! {

/// Relies on rand::random: a random value of the requested type. Nothing
/// can be promised of the result.
pub assume_specification<T>[ rand::random::<T> ]() -> (r: T)
    where
        rand::distributions::Standard: rand::distributions::Distribution<T>,
;

/// Draws a random WAMP ID from [1, 2^53]: 53 random bits, plus one.
pub fn random_wamp_id() -> (r: WampId)
    ensures
        r.wf(),
{
    let raw: u64 = rand::random();
    let masked: u64 = raw & (WAMP_ID_MAX - 1);
    proof {
        assert(raw & 0x1F_FFFF_FFFF_FFFFu64 < 0x20_0000_0000_0000u64) by (bit_vector);
    }
    WampId(masked + 1)
}

} // verus!
