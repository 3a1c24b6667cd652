use vstd::prelude::*;
use crate::deadband::{linf_distance, should_trigger};
use crate::easing::EasingChannel;
use crate::geometry::{Gain, Placement, Rect};
use crate::tracking::{WindowTrackSet, refreshed, step_window};

verus! {

/// Pixels of gain per radian of head rotation.
pub const BOOST_FACTOR: i32 = 5000;

/// The default deadband, in pixels.
pub const DEFAULT_THRESHOLD: u32 = 20;

/// The length of an eased transition, in milliseconds.
pub const EASE_MS: u32 = 500;

/// The tick period of window tracking, in milliseconds.
pub const TRACK_TICK_MS: u64 = 10;

/// The tick period of orientation forwarding, in milliseconds.
pub const FORWARD_TICK_MS: u64 = 5;

/// How a committed gain reaches the windows.
#[derive(Clone, Copy, Debug, PartialEq, Eq, Structural)]
pub enum Mode {
    /// A step change to each gain that passes the deadband.
    Hysteresis,
    /// An eased transition toward each gain that passes the deadband,
    /// sampled every tick.
    Eased,
}

/// The channel after a retarget at `now_ms` toward `target`.
pub open spec fn retargeted(ch: EasingChannel, target: Gain, duration_ms: u32, now_ms: u64) -> EasingChannel {
    EasingChannel { start: ch.value_at(now_ms), target, start_ms: now_ms, duration_ms }
}

/// The gain decisions carried from tick to tick.
#[derive(Clone, Copy, Debug)]
pub struct ControlLoop {
    pub mode: Mode,
    pub threshold: u32,
    pub ease_ms: u32,
    pub last_committed: Gain,
    pub channel: EasingChannel,
}

impl ControlLoop {
    pub fn new(mode: Mode, threshold: u32, ease_ms: u32) -> (r: ControlLoop)
        ensures
            r.mode == mode,
            r.threshold == threshold,
            r.ease_ms == ease_ms,
            r.last_committed == (Gain { x: 0, y: 0 }),
            r.channel.start == (Gain { x: 0, y: 0 }),
            r.channel.target == (Gain { x: 0, y: 0 }),
            r.channel.duration_ms == 0,
    {
        ControlLoop {
            mode,
            threshold,
            ease_ms,
            last_committed: Gain { x: 0, y: 0 },
            channel: EasingChannel::new(Gain { x: 0, y: 0 }),
        }
    }

    /// Whether `gain` passes the deadband around the last committed gain.
    pub open spec fn triggers(self, gain: Gain) -> bool {
        linf_distance(gain, self.last_committed) > self.threshold as int
    }

    /// The loop after taking `gain` at `now_ms`: the gain is committed when
    /// it passes the deadband, and in eased mode the channel is retargeted to it.
    pub open spec fn advanced(self, gain: Gain, now_ms: u64) -> ControlLoop {
        if self.triggers(gain) {
            ControlLoop {
                last_committed: gain,
                channel: if self.mode == Mode::Eased {
                    retargeted(self.channel, gain, self.ease_ms, now_ms)
                } else {
                    self.channel
                },
                ..self
            }
        } else {
            self
        }
    }

    /// The gain to apply after taking `gain` at `now_ms`: in hysteresis mode
    /// the gain itself when it passes the deadband and nothing otherwise; in
    /// eased mode the channel's value at `now_ms`, every tick.
    pub open spec fn committed(self, gain: Gain, now_ms: u64) -> Option<Gain> {
        match self.mode {
            Mode::Hysteresis => if self.triggers(gain) {
                Some(gain)
            } else {
                None
            },
            Mode::Eased => Some(self.advanced(gain, now_ms).channel.value_at(now_ms)),
        }
    }

    /// Takes this tick's gain at `now_ms` and returns the gain to apply to
    /// the windows, if any.
    pub fn next_gain(&mut self, gain: Gain, now_ms: u64) -> (r: Option<Gain>)
        ensures
            *final(self) == old(self).advanced(gain, now_ms),
            r == old(self).committed(gain, now_ms),
    {
        let trig = should_trigger(gain, self.last_committed, self.threshold);
        if trig {
            self.last_committed = gain;
        }
        match self.mode {
            Mode::Hysteresis => if trig {
                Some(gain)
            } else {
                None
            },
            Mode::Eased => {
                if trig {
                    self.channel.update(gain, self.ease_ms, now_ms);
                }
                Some(self.channel.current_value(now_ms))
            },
        }
    }
}

/// What was read of the rectangle of handle `h`, at its first occurrence.
pub open spec fn rect_of(handles: Seq<u64>, rects: Seq<Option<Rect>>, h: u64) -> Option<Rect>
    decreases handles.len(),
{
    if handles.len() == 0 || rects.len() == 0 {
        None
    } else if handles[0] == h {
        rects[0]
    } else {
        rect_of(handles.drop_first(), rects.drop_first(), h)
    }
}

fn find_rect(handles: &Vec<u64>, rects: &Vec<Option<Rect>>, h: u64) -> (r: Option<Rect>)
    requires
        handles.len() == rects.len(),
    ensures
        r == rect_of(handles@, rects@, h),
{
    let mut i: usize = 0;
    assert(handles@.skip(0) =~= handles@);
    assert(rects@.skip(0) =~= rects@);
    while i < handles.len()
        invariant
            i <= handles.len(),
            handles.len() == rects.len(),
            rect_of(handles@, rects@, h) == rect_of(handles@.skip(i as int), rects@.skip(i as int), h),
        decreases handles.len() - i,
    {
        assert(handles@.skip(i as int).drop_first() =~= handles@.skip(i + 1));
        assert(rects@.skip(i as int).drop_first() =~= rects@.skip(i + 1));
        if handles[i] == h {
            return rects[i];
        }
        i += 1;
    }
    None
}

/// Everything the window-tracking loop carries from one tick to the next.
#[derive(Debug)]
pub struct LoopState {
    pub control: ControlLoop,
    pub tracks: WindowTrackSet,
}

impl LoopState {
    pub fn new(mode: Mode, threshold: u32, ease_ms: u32) -> (r: LoopState)
        ensures
            r.control.mode == mode,
            r.control.threshold == threshold,
            r.control.ease_ms == ease_ms,
            r.control.last_committed == (Gain { x: 0, y: 0 }),
            r.control.channel.target == (Gain { x: 0, y: 0 }),
            r.tracks.windows@.len() == 0,
            r.tracks.wf(),
    {
        LoopState { control: ControlLoop::new(mode, threshold, ease_ms), tracks: WindowTrackSet::new() }
    }

    /// One tick of window tracking: `gain` is this tick's gain, `now_ms` the
    /// time, `handles` the filtered enumeration and `rects` their rectangles
    /// (`None` where one could not be read).
    /// The tracked set is refreshed; where a gain is committed, each tracked
    /// window is reconciled and placed. Returns where each tracked window is
    /// to be moved, in the order of the tracked set.
    pub fn tick(&mut self, gain: Gain, now_ms: u64, handles: &Vec<u64>, rects: &Vec<Option<Rect>>) -> (r: Vec<Option<Placement>>)
        requires
            old(self).tracks.wf(),
            handles.len() == rects.len(),
        ensures
            final(self).tracks.wf(),
            final(self).control == old(self).control.advanced(gain, now_ms),
            ({
                let listed = refreshed(old(self).tracks.windows@, handles@, rects@);
                &&& final(self).tracks.windows.len() == listed.len()
                &&& r.len() == listed.len()
                &&& match old(self).control.committed(gain, now_ms) {
                    None => final(self).tracks.windows@ == listed && forall|i: int|
                        0 <= i < r.len() ==> #[trigger] r@[i] == None::<Placement>,
                    Some(g) => forall|i: int|
                        0 <= i < r.len() ==> (#[trigger] final(self).tracks.windows@[i], r@[i]) == step_window(
                            listed[i],
                            rect_of(handles@, rects@, listed[i].handle),
                            g,
                        ),
                }
            }),
    {
        self.tracks.refresh(handles, rects);
        let n = self.tracks.windows.len();
        let committed = self.control.next_gain(gain, now_ms);
        match committed {
            None => {
                let mut out: Vec<Option<Placement>> = Vec::new();
                let mut i: usize = 0;
                while i < n
                    invariant
                        i <= n,
                        out.len() == i,
                        forall|k: int| 0 <= k < i ==> #[trigger] out@[k] == None::<Placement>,
                    decreases n - i,
                {
                    out.push(None);
                    i += 1;
                }
                out
            },
            Some(g) => {
                let mut observed: Vec<Option<Rect>> = Vec::new();
                let mut i: usize = 0;
                while i < n
                    invariant
                        i <= n,
                        n == self.tracks.windows.len(),
                        handles.len() == rects.len(),
                        observed.len() == i,
                        forall|k: int|
                            0 <= k < i ==> #[trigger] observed@[k] == rect_of(
                                handles@,
                                rects@,
                                self.tracks.windows@[k].handle,
                            ),
                    decreases n - i,
                {
                    let o = find_rect(handles, rects, self.tracks.windows[i].handle);
                    observed.push(o);
                    i += 1;
                }
                self.tracks.apply_gain(&observed, g)
            },
        }
    }
}

} // verus!
