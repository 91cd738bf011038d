//! The time, in milliseconds since the start of 1970.

use vstd::prelude::*;

verus! {

/// The milliseconds that `SystemTime::now().duration_since(UNIX_EPOCH)`
/// reports, read with `Duration::as_millis`; `None` where the clock stands
/// before 1970. Nothing is claimed of the value: it is the machine's.
#[verifier::external_body]
fn millis_since_epoch() -> (elapsed: Option<u128>) {
    std::time::SystemTime::now().duration_since(std::time::UNIX_EPOCH).ok().map(|d| d.as_millis())
}

/// The time stamp made of a clock reading: the low sixty-four bits of the
/// milliseconds, read as a signed number; zero where the clock gave none.
pub open spec fn stamp_of(elapsed: Option<u128>) -> int {
    match elapsed {
        Some(millis) => {
            let low = millis as int % 0x1_0000_0000_0000_0000;
            if low < 0x8000_0000_0000_0000 {
                low
            } else {
                low - 0x1_0000_0000_0000_0000
            }
        },
        None => 0,
    }
}

/// The time stamp made of a clock reading.
pub fn millis_from_clock(elapsed: Option<u128>) -> (stamp: i64)
    ensures
        stamp == stamp_of(elapsed),
{
    match elapsed {
        Some(millis) => {
            let low: u128 = millis % 0x1_0000_0000_0000_0000;
            if low < 0x8000_0000_0000_0000 {
                low as i64
            } else {
                let below: u128 = 0x1_0000_0000_0000_0000 - low;
                let rest: i64 = (below - 1) as i64;
                -rest - 1
            }
        },
        None => 0,
    }
}

/// The time now: the stamp that [`millis_from_clock`] makes of what the
/// clock reports. The result is the machine's, so nothing is promised of it.
pub fn now_millis() -> i64 {
    let elapsed = millis_since_epoch();
    millis_from_clock(elapsed)
}

} // verus!
