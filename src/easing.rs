use vstd::prelude::*;
use vstd::arithmetic::div_mod::{lemma_div_is_ordered, lemma_div_multiples_vanish, lemma_div_pos_is_pos};
use crate::geometry::{Gain, Rect};

verus! {

/// Quadratic ease-in-out progress at time `t` of a segment of length `d`,
/// scaled by `d * d`: slow at both ends, fastest in the middle.
pub open spec fn ease_progress(t: int, d: int) -> int {
    if 2 * t < d {
        2 * t * t
    } else {
        d * d - 2 * (d - t) * (d - t)
    }
}

/// The value of one axis moving from `start` to `target` over `duration`
/// milliseconds, `elapsed` milliseconds into the segment. The eased offset is
/// rounded toward `start`; once the segment is over the value is `target`.
pub open spec fn eased(start: int, target: int, elapsed: int, duration: int) -> int {
    if elapsed >= duration {
        target
    } else if target >= start {
        start + (target - start) * ease_progress(elapsed, duration) / (duration * duration)
    } else {
        start - (start - target) * ease_progress(elapsed, duration) / (duration * duration)
    }
}

proof fn lemma_progress_bounds(t: int, d: int)
    requires
        0 <= t < d,
    ensures
        0 <= ease_progress(t, d) <= d * d,
{
    if 2 * t < d {
        assert(0 <= 2 * t * t <= d * d) by (nonlinear_arith)
            requires
                0 <= t,
                2 * t < d,
        ;
    } else {
        assert(0 <= d * d - 2 * (d - t) * (d - t) <= d * d) by (nonlinear_arith)
            requires
                t < d,
                2 * t >= d,
        ;
    }
}

proof fn lemma_progress_monotone(t1: int, t2: int, d: int)
    requires
        0 <= t1 <= t2 < d,
    ensures
        ease_progress(t1, d) <= ease_progress(t2, d),
{
    if 2 * t2 < d {
        assert(2 * t1 * t1 <= 2 * t2 * t2) by (nonlinear_arith)
            requires
                0 <= t1 <= t2,
        ;
    } else if 2 * t1 >= d {
        assert(2 * (d - t2) * (d - t2) <= 2 * (d - t1) * (d - t1)) by (nonlinear_arith)
            requires
                0 < d - t2 <= d - t1,
        ;
    } else {
        assert(4 * (t1 * t1) <= d * d) by (nonlinear_arith)
            requires
                0 <= t1,
                2 * t1 < d,
        ;
        assert(4 * ((d - t2) * (d - t2)) <= d * d) by (nonlinear_arith)
            requires
                0 < d - t2,
                2 * (d - t2) <= d,
        ;
        assert(2 * t1 * t1 == 2 * (t1 * t1)) by (nonlinear_arith);
        assert(2 * (d - t2) * (d - t2) == 2 * ((d - t2) * (d - t2))) by (nonlinear_arith);
    }
}

proof fn lemma_scaled_le(m: int, f: int, den: int)
    requires
        0 <= m,
        0 <= f <= den,
        0 < den,
    ensures
        0 <= m * f / den <= m,
{
    assert(0 <= m * f <= m * den) by (nonlinear_arith)
        requires
            0 <= m,
            0 <= f <= den,
    ;
    lemma_div_is_ordered(m * f, m * den, den);
    lemma_div_multiples_vanish(m, den);
    assert(m * den == den * m) by (nonlinear_arith);
    lemma_div_pos_is_pos(m * f, den);
}

proof fn lemma_scaled_monotone(m: int, f1: int, f2: int, den: int)
    requires
        0 <= m,
        f1 <= f2,
        0 < den,
    ensures
        m * f1 / den <= m * f2 / den,
{
    assert(m * f1 <= m * f2) by (nonlinear_arith)
        requires
            0 <= m,
            f1 <= f2,
    ;
    lemma_div_is_ordered(m * f1, m * f2, den);
}

/// An eased value never leaves the interval between its endpoints.
pub proof fn lemma_eased_between(start: int, target: int, elapsed: int, duration: int)
    requires
        0 <= elapsed,
    ensures
        start <= target ==> start <= eased(start, target, elapsed, duration) <= target,
        target <= start ==> target <= eased(start, target, elapsed, duration) <= start,
{
    if elapsed < duration {
        lemma_progress_bounds(elapsed, duration);
        assert(0 < duration * duration) by (nonlinear_arith)
            requires
                0 < duration,
        ;
        if target >= start {
            lemma_scaled_le(target - start, ease_progress(elapsed, duration), duration * duration);
        } else {
            lemma_scaled_le(start - target, ease_progress(elapsed, duration), duration * duration);
        }
    }
}

/// On each axis the eased value moves monotonically from `start` toward
/// `target` as time passes.
pub proof fn lemma_eased_monotone(start: int, target: int, t1: int, t2: int, duration: int)
    requires
        0 <= t1 <= t2,
    ensures
        start <= target ==> eased(start, target, t1, duration) <= eased(start, target, t2, duration),
        target <= start ==> eased(start, target, t2, duration) <= eased(start, target, t1, duration),
{
    lemma_eased_between(start, target, t1, duration);
    lemma_eased_between(start, target, t2, duration);
    if t2 < duration {
        lemma_progress_monotone(t1, t2, duration);
        assert(0 < duration * duration) by (nonlinear_arith)
            requires
                0 < duration,
        ;
        let f1 = ease_progress(t1, duration);
        let f2 = ease_progress(t2, duration);
        if target >= start {
            lemma_scaled_monotone(target - start, f1, f2, duration * duration);
        } else {
            lemma_scaled_monotone(start - target, f1, f2, duration * duration);
        }
    }
}

/// At the first instant of a segment the value is still `start`.
pub proof fn lemma_eased_at_start(start: int, target: int, duration: int)
    ensures
        eased(start, target, 0, duration) == if duration <= 0 { target } else { start },
{
    if duration > 0 {
        assert(ease_progress(0, duration) == 0);
        assert((target - start) * 0 == 0) by (nonlinear_arith);
        assert((start - target) * 0 == 0) by (nonlinear_arith);
        assert(0 < duration * duration) by (nonlinear_arith)
            requires
                0 < duration,
        ;
        lemma_div_pos_is_pos(0, duration * duration);
        assert(0int / (duration * duration) == 0);
    }
}

/// One axis of an eased transition, computed exactly as `eased` states it.
pub fn ease_axis(start: i32, target: i32, elapsed: u64, duration: u32) -> (r: i32)
    ensures
        r == eased(start as int, target as int, elapsed as int, duration as int),
{
    if elapsed >= duration as u64 {
        return target;
    }
    let t: u128 = elapsed as u128;
    let d: u128 = duration as u128;
    proof {
        lemma_progress_bounds(t as int, d as int);
        assert(d * d < 0x1_0000_0000_0000_0000) by (nonlinear_arith)
            requires
                d < 0x1_0000_0000,
        ;
        assert(0 < d * d) by (nonlinear_arith)
            requires
                0 < d,
        ;
        assert(2 * t * t <= 2 * d * d) by (nonlinear_arith)
            requires
                t < d,
        ;
        assert((d - t) * (d - t) <= d * d) by (nonlinear_arith)
            requires
                t < d,
        ;
    }
    let f: u128 = if 2 * t < d {
        2 * t * t
    } else {
        d * d - 2 * (d - t) * (d - t)
    };
    let den: u128 = d * d;
    assert(f as int == ease_progress(t as int, d as int));
    if target >= start {
        let m: u128 = (target as i64 - start as i64) as u128;
        proof {
            assert(m * f <= 0x1_0000_0000 * 0x1_0000_0000_0000_0000) by (nonlinear_arith)
                requires
                    m <= 0x1_0000_0000,
                    f <= 0x1_0000_0000_0000_0000,
            ;
            lemma_scaled_le(m as int, f as int, den as int);
        }
        let q: u128 = m * f / den;
        (start as i64 + q as i64) as i32
    } else {
        let m: u128 = (start as i64 - target as i64) as u128;
        proof {
            assert(m * f <= 0x1_0000_0000 * 0x1_0000_0000_0000_0000) by (nonlinear_arith)
                requires
                    m <= 0x1_0000_0000,
                    f <= 0x1_0000_0000_0000_0000,
            ;
            lemma_scaled_le(m as int, f as int, den as int);
        }
        let q: u128 = m * f / den;
        (start as i64 - q as i64) as i32
    }
}

/// Milliseconds since `start_ms` at time `now_ms`; zero before the start.
pub open spec fn elapsed_since(start_ms: u64, now_ms: u64) -> int {
    if now_ms >= start_ms {
        now_ms - start_ms
    } else {
        0
    }
}

fn elapsed_ms(start_ms: u64, now_ms: u64) -> (r: u64)
    ensures
        r == elapsed_since(start_ms, now_ms),
{
    if now_ms >= start_ms {
        now_ms - start_ms
    } else {
        0
    }
}

/// A two-axis time-based interpolator: the current segment runs from `start`
/// to `target` over `duration_ms`, beginning at `start_ms`.
#[derive(Clone, Copy, Debug)]
pub struct EasingChannel {
    pub start: Gain,
    pub target: Gain,
    pub start_ms: u64,
    pub duration_ms: u32,
}

impl EasingChannel {
    /// The value of the channel at time `now_ms`.
    pub open spec fn value_at(self, now_ms: u64) -> Gain {
        let e = elapsed_since(self.start_ms, now_ms);
        Gain {
            x: eased(self.start.x as int, self.target.x as int, e, self.duration_ms as int) as i32,
            y: eased(self.start.y as int, self.target.y as int, e, self.duration_ms as int) as i32,
        }
    }

    /// A channel at rest at `initial`.
    pub fn new(initial: Gain) -> (r: EasingChannel)
        ensures
            r.start == initial,
            r.target == initial,
            r.duration_ms == 0,
            forall|t: u64| #[trigger] r.value_at(t) == initial,
    {
        EasingChannel { start: initial, target: initial, start_ms: 0, duration_ms: 0 }
    }

    /// The interpolated value at time `now_ms`.
    pub fn current_value(&self, now_ms: u64) -> (r: Gain)
        ensures
            r == self.value_at(now_ms),
    {
        let e = elapsed_ms(self.start_ms, now_ms);
        Gain {
            x: ease_axis(self.start.x, self.target.x, e, self.duration_ms),
            y: ease_axis(self.start.y, self.target.y, e, self.duration_ms),
        }
    }

    /// The target of the segment last started, or the initial value.
    pub fn last_value(&self) -> (r: Gain)
        ensures
            r == self.target,
    {
        self.target
    }

    /// Starts a new segment at `now_ms` from the current value toward
    /// `target`, replacing any segment in flight.
    pub fn update(&mut self, target: Gain, duration_ms: u32, now_ms: u64)
        ensures
            final(self).start == old(self).value_at(now_ms),
            final(self).target == target,
            final(self).start_ms == now_ms,
            final(self).duration_ms == duration_ms,
            duration_ms > 0 ==> final(self).value_at(now_ms) == old(self).value_at(now_ms),
    {
        let cur = self.current_value(now_ms);
        self.start = cur;
        self.target = target;
        self.start_ms = now_ms;
        self.duration_ms = duration_ms;
        proof {
            if duration_ms > 0 {
                lemma_update_is_continuous(*old(self), target, duration_ms, now_ms);
            }
        }
    }
}

/// Right after `update` the channel holds the value it had just before it:
/// a retarget over a positive duration never makes the value jump.
pub proof fn lemma_update_is_continuous(ch: EasingChannel, target: Gain, duration_ms: u32, now_ms: u64)
    requires
        duration_ms > 0,
    ensures
        (EasingChannel { start: ch.value_at(now_ms), target, start_ms: now_ms, duration_ms }).value_at(now_ms)
            == ch.value_at(now_ms),
{
    let cur = ch.value_at(now_ms);
    lemma_eased_at_start(cur.x as int, target.x as int, duration_ms as int);
    lemma_eased_at_start(cur.y as int, target.y as int, duration_ms as int);
}

/// Once the segment's duration has elapsed the channel holds its target exactly.
pub proof fn lemma_settles_on_target(ch: EasingChannel, now_ms: u64)
    requires
        elapsed_since(ch.start_ms, now_ms) >= ch.duration_ms,
    ensures
        ch.value_at(now_ms) == ch.target,
{
}

/// Along a segment each axis moves monotonically, in the direction from its
/// start to its target.
pub proof fn lemma_channel_monotone(ch: EasingChannel, t1: u64, t2: u64)
    requires
        ch.start_ms <= t1 <= t2,
    ensures
        ch.start.x <= ch.target.x ==> ch.value_at(t1).x <= ch.value_at(t2).x,
        ch.target.x <= ch.start.x ==> ch.value_at(t2).x <= ch.value_at(t1).x,
        ch.start.y <= ch.target.y ==> ch.value_at(t1).y <= ch.value_at(t2).y,
        ch.target.y <= ch.start.y ==> ch.value_at(t2).y <= ch.value_at(t1).y,
{
    let e1 = elapsed_since(ch.start_ms, t1);
    let e2 = elapsed_since(ch.start_ms, t2);
    let d = ch.duration_ms as int;
    lemma_eased_monotone(ch.start.x as int, ch.target.x as int, e1, e2, d);
    lemma_eased_monotone(ch.start.y as int, ch.target.y as int, e1, e2, d);
    lemma_eased_between(ch.start.x as int, ch.target.x as int, e1, d);
    lemma_eased_between(ch.start.x as int, ch.target.x as int, e2, d);
    lemma_eased_between(ch.start.y as int, ch.target.y as int, e1, d);
    lemma_eased_between(ch.start.y as int, ch.target.y as int, e2, d);
}

/// The easing duration of a rectangle transition, in milliseconds.
pub const SMOOTH_RECT_MS: u32 = 500;

/// A rectangle whose four edges ease together toward the last rectangle added.
#[derive(Clone, Copy, Debug)]
pub struct SmoothRect {
    pub start: Rect,
    pub target: Rect,
    pub start_ms: u64,
    pub duration_ms: u32,
}

impl SmoothRect {
    /// The rectangle shown at time `now_ms`.
    pub open spec fn rect_at(self, now_ms: u64) -> Rect {
        let e = elapsed_since(self.start_ms, now_ms);
        let d = self.duration_ms as int;
        Rect {
            left: eased(self.start.left as int, self.target.left as int, e, d) as i32,
            top: eased(self.start.top as int, self.target.top as int, e, d) as i32,
            right: eased(self.start.right as int, self.target.right as int, e, d) as i32,
            bottom: eased(self.start.bottom as int, self.target.bottom as int, e, d) as i32,
        }
    }

    pub fn new(rect: Rect) -> (r: SmoothRect)
        ensures
            r.start == rect,
            r.target == rect,
            forall|t: u64| #[trigger] r.rect_at(t) == rect,
    {
        SmoothRect { start: rect, target: rect, start_ms: 0, duration_ms: 0 }
    }

    /// Starts easing at `now_ms` from the rectangle shown toward `rect`.
    pub fn add(&mut self, rect: Rect, now_ms: u64)
        ensures
            final(self).start == old(self).rect_at(now_ms),
            final(self).target == rect,
            final(self).start_ms == now_ms,
            final(self).duration_ms == SMOOTH_RECT_MS,
    {
        let cur = self.current_rect(now_ms);
        self.start = cur;
        self.target = rect;
        self.start_ms = now_ms;
        self.duration_ms = SMOOTH_RECT_MS;
    }

    pub fn current_rect(&self, now_ms: u64) -> (r: Rect)
        ensures
            r == self.rect_at(now_ms),
    {
        let e = elapsed_ms(self.start_ms, now_ms);
        let d = self.duration_ms;
        Rect {
            left: ease_axis(self.start.left, self.target.left, e, d),
            top: ease_axis(self.start.top, self.target.top, e, d),
            right: ease_axis(self.start.right, self.target.right, e, d),
            bottom: ease_axis(self.start.bottom, self.target.bottom, e, d),
        }
    }

    pub fn last_rect(&self) -> (r: Rect)
        ensures
            r == self.target,
    {
        self.target
    }
}

} // verus!
