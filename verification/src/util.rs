use vstd::prelude::*;

use crate::instant::Instant;

verus! {

/// How long until data updated at `updated_at` goes stale, seen at `now`:
/// zero once the deadline `updated_at + stale_time` has passed, and never more
/// than `u64::MAX`.
pub open spec fn spec_time_until_stale(updated_at: int, stale_time: int, now: int) -> int {
    let deadline = updated_at + stale_time;
    if deadline <= now {
        0
    } else if deadline - now > u64::MAX {
        u64::MAX as int
    } else {
        deadline - now
    }
}

/// The time left, at `now`, before data updated at `updated_at` is older than `stale_time`.
pub fn time_until_stale(updated_at: Instant, stale_time: u64, now: Instant) -> (r: u64)
    ensures
        r == spec_time_until_stale(updated_at.0 as int, stale_time as int, now.0 as int),
        r == 0 <==> updated_at.0 + stale_time <= now.0,
{
    let deadline: u128 = updated_at.0 as u128 + stale_time as u128;
    let now_ms: u128 = now.0 as u128;
    if deadline <= now_ms {
        0
    } else {
        let left: u128 = deadline - now_ms;
        if left > u64::MAX as u128 {
            u64::MAX
        } else {
            left as u64
        }
    }
}

} // verus!
