//! Points in time, counted in nanoseconds from an arbitrary origin.

use vstd::prelude::*;

verus! {

/// Time from `since` to `now`; nothing when `since` lies ahead.
pub open spec fn elapsed_spec(now: u128, since: u128) -> int {
    if now >= since {
        now - since
    } else {
        0
    }
}

/// Time from `since` to `now`; nothing when `since` lies ahead.
pub fn elapsed(now: u128, since: u128) -> (r: u128)
    ensures
        r == elapsed_spec(now, since),
{
    if now >= since {
        now - since
    } else {
        0
    }
}

} // verus!
