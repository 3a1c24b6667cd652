use vstd::prelude::*;
use crate::geometry::Gain;

verus! {

pub open spec fn abs_int(v: int) -> int {
    if v < 0 {
        -v
    } else {
        v
    }
}

/// The L-infinity distance between two gains.
pub open spec fn linf_distance(a: Gain, b: Gain) -> int {
    let dx = abs_int(a.x - b.x);
    let dy = abs_int(a.y - b.y);
    if dx >= dy {
        dx
    } else {
        dy
    }
}

/// Whether `gain` differs from the last committed gain by strictly more than
/// `threshold` on some axis.
pub fn should_trigger(gain: Gain, previous: Gain, threshold: u32) -> (r: bool)
    ensures
        r == (linf_distance(gain, previous) > threshold as int),
{
    let mut dx: i64 = gain.x as i64 - previous.x as i64;
    if dx < 0 {
        dx = -dx;
    }
    let mut dy: i64 = gain.y as i64 - previous.y as i64;
    if dy < 0 {
        dy = -dy;
    }
    let m: i64 = if dx >= dy { dx } else { dy };
    m > threshold as i64
}

/// A change of gain no larger than the threshold on either axis never
/// triggers, and one larger on some axis always does.
pub proof fn lemma_deadband_boundary(gain: Gain, previous: Gain, threshold: u32)
    ensures
        (abs_int(gain.x - previous.x) <= threshold && abs_int(gain.y - previous.y) <= threshold)
            ==> !(linf_distance(gain, previous) > threshold as int),
        (abs_int(gain.x - previous.x) > threshold || abs_int(gain.y - previous.y) > threshold)
            ==> linf_distance(gain, previous) > threshold as int,
{
}

} // verus!
