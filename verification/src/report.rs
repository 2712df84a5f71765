//! Figures that the `update` command reports.
use vstd::prelude::*;

verus! {

/// What was fetched, in whole kilobytes of 1024 bytes, and the rate in
/// kilobytes per second over `seconds`; when no whole second went by, the
/// rate is the amount itself.  The rate is never above the amount.
pub fn fetch_summary(fetched_bytes: u64, seconds: u64) -> (r: (u64, u64))
    ensures
        r.0 == fetched_bytes / 1024,
        r.1 == if seconds == 0 {
            fetched_bytes / 1024
        } else {
            fetched_bytes / 1024 / seconds
        },
        r.1 <= r.0,
{
    let kb = fetched_bytes / 1024;
    let rate = if seconds == 0 {
        kb
    } else {
        kb / seconds
    };
    assert(rate <= kb) by (nonlinear_arith)
        requires
            rate == if seconds == 0 { kb } else { kb / seconds },
            kb >= 0,
    ;
    (kb, rate)
}

} // verus!
