use vstd::prelude::*;
use crate::geometry::{Gain, Placement, Rect, can_shift_back, fits_i32, shifted_back};

verus! {

/// A window that follows the gain: its handle, its position at zero gain,
/// and the gain it was last moved by.
#[derive(Clone, Copy, Debug, PartialEq, Eq, Structural)]
pub struct TrackedWindow {
    pub handle: u64,
    pub baseline: Rect,
    pub applied_gain: Gain,
}

/// Whether the observed window stands where the last applied gain put it.
pub open spec fn at_expected_origin(observed: Rect, baseline: Rect, applied: Gain) -> bool {
    observed.left == baseline.left - applied.x && observed.top == baseline.top - applied.y
}

/// The baseline after comparing the observed rectangle with the expected one:
/// unchanged where they agree, else the observed rectangle less the applied
/// gain, which adopts a drag by the user as the new zero-gain position.
/// `None` where that rectangle leaves the `i32` range.
pub open spec fn reconciled(observed: Rect, baseline: Rect, applied: Gain) -> Option<Rect> {
    if at_expected_origin(observed, baseline, applied) {
        Some(baseline)
    } else if can_shift_back(observed, applied) {
        Some(shifted_back(observed, applied))
    } else {
        None
    }
}

/// Detects a manual move of a tracked window and gives the baseline to use.
pub fn reconcile_baseline(observed: Rect, baseline: Rect, applied: Gain) -> (r: Option<Rect>)
    ensures
        r == reconciled(observed, baseline, applied),
        at_expected_origin(observed, baseline, applied) ==> r == Some(baseline),
        !at_expected_origin(observed, baseline, applied) && can_shift_back(observed, applied)
            ==> r == Some(shifted_back(observed, applied)),
{
    let left: i64 = baseline.left as i64 - applied.x as i64;
    let top: i64 = baseline.top as i64 - applied.y as i64;
    if observed.left as i64 == left && observed.top as i64 == top {
        Some(baseline)
    } else {
        observed.shift_back(applied)
    }
}

/// One tracked window after a tick with gain `gain`: the window as it is
/// afterwards and where it is to be moved. A window whose rectangle could not
/// be read, or whose new position leaves the `i32` range, is left as it was.
pub open spec fn step_window(w: TrackedWindow, observed: Option<Rect>, gain: Gain) -> (TrackedWindow, Option<Placement>) {
    match observed {
        None => (w, None),
        Some(o) => match reconciled(o, w.baseline, w.applied_gain) {
            None => (w, None),
            Some(b) => if fits_i32(b.left - gain.x) && fits_i32(b.top - gain.y) {
                (
                    TrackedWindow { handle: w.handle, baseline: b, applied_gain: gain },
                    Some(Placement { handle: w.handle, x: (b.left - gain.x) as i32, y: (b.top - gain.y) as i32 }),
                )
            } else {
                (w, None)
            },
        },
    }
}

fn step(w: TrackedWindow, observed: Option<Rect>, gain: Gain) -> (r: (TrackedWindow, Option<Placement>))
    ensures
        r == step_window(w, observed, gain),
{
    match observed {
        None => (w, None),
        Some(o) => match reconcile_baseline(o, w.baseline, w.applied_gain) {
            None => (w, None),
            Some(b) => {
                let x: i64 = b.left as i64 - gain.x as i64;
                let y: i64 = b.top as i64 - gain.y as i64;
                if i32::MIN as i64 <= x && x <= i32::MAX as i64 && i32::MIN as i64 <= y && y <= i32::MAX as i64 {
                    (
                        TrackedWindow { handle: w.handle, baseline: b, applied_gain: gain },
                        Some(Placement { handle: w.handle, x: x as i32, y: y as i32 }),
                    )
                } else {
                    (w, None)
                }
            },
        },
    }
}

pub open spec fn has_handle(s: Seq<TrackedWindow>, h: u64) -> bool {
    exists|i: int| 0 <= i < s.len() && #[trigger] s[i].handle == h
}

/// The entries of `s` whose handle is in `handles`, in their order.
pub open spec fn kept(s: Seq<TrackedWindow>, handles: Seq<u64>) -> Seq<TrackedWindow>
    decreases s.len(),
{
    if s.len() == 0 {
        Seq::empty()
    } else {
        let k = kept(s.drop_last(), handles);
        if handles.contains(s.last().handle) {
            k.push(s.last())
        } else {
            k
        }
    }
}

pub open spec fn fresh_window(handle: u64, rect: Rect) -> TrackedWindow {
    TrackedWindow { handle, baseline: rect, applied_gain: Gain { x: 0, y: 0 } }
}

/// `base` followed by a fresh entry for each of the first `n` handles that
/// is not tracked yet and whose rectangle could be read, in the order of
/// `handles`.
pub open spec fn added(base: Seq<TrackedWindow>, handles: Seq<u64>, rects: Seq<Option<Rect>>, n: nat) -> Seq<TrackedWindow>
    decreases n,
{
    if n == 0 {
        base
    } else {
        let a = added(base, handles, rects, (n - 1) as nat);
        match rects[n - 1] {
            Some(r) => if has_handle(a, handles[n - 1]) {
                a
            } else {
                a.push(fresh_window(handles[n - 1], r))
            },
            None => a,
        }
    }
}

/// The tracked windows after a refresh with the filtered enumeration
/// `handles`, whose rectangles are `rects`.
pub open spec fn refreshed(s: Seq<TrackedWindow>, handles: Seq<u64>, rects: Seq<Option<Rect>>) -> Seq<TrackedWindow> {
    added(kept(s, handles), handles, rects, handles.len())
}

fn contains_handle(handles: &Vec<u64>, h: u64) -> (r: bool)
    ensures
        r == handles@.contains(h),
{
    let mut i: usize = 0;
    while i < handles.len()
        invariant
            i <= handles.len(),
            forall|k: int| 0 <= k < i ==> handles@[k] != h,
        decreases handles.len() - i,
    {
        if handles[i] == h {
            return true;
        }
        i += 1;
    }
    false
}

fn tracks(s: &Vec<TrackedWindow>, h: u64) -> (r: bool)
    ensures
        r == has_handle(s@, h),
{
    let mut i: usize = 0;
    while i < s.len()
        invariant
            i <= s.len(),
            forall|k: int| 0 <= k < i ==> s@[k].handle != h,
        decreases s.len() - i,
    {
        if s[i].handle == h {
            return true;
        }
        i += 1;
    }
    false
}

/// No handle occurs twice.
pub open spec fn distinct_handles(s: Seq<TrackedWindow>) -> bool {
    forall|i: int, j: int| 0 <= i < j < s.len() ==> #[trigger] s[i].handle != #[trigger] s[j].handle
}

/// The windows that currently follow the gain.
#[derive(Debug)]
pub struct WindowTrackSet {
    pub windows: Vec<TrackedWindow>,
}

impl WindowTrackSet {
    /// Each window is tracked at most once.
    pub open spec fn wf(&self) -> bool {
        distinct_handles(self.windows@)
    }

    pub fn new() -> (r: WindowTrackSet)
        ensures
            r.windows@.len() == 0,
            r.wf(),
    {
        WindowTrackSet { windows: Vec::new() }
    }

    /// Starts tracking each new handle at its rectangle with zero gain and
    /// stops tracking each handle that is no longer enumerated; entries of
    /// handles still present are kept as they are. A new handle whose
    /// rectangle could not be read (`None` in `rects`) waits for a later refresh.
    pub fn refresh(&mut self, handles: &Vec<u64>, rects: &Vec<Option<Rect>>)
        requires
            old(self).wf(),
            handles.len() == rects.len(),
        ensures
            final(self).wf(),
            final(self).windows@ == refreshed(old(self).windows@, handles@, rects@),
    {
        let mut acc: Vec<TrackedWindow> = Vec::new();
        let mut i: usize = 0;
        while i < self.windows.len()
            invariant
                i <= self.windows.len(),
                self.windows@ == old(self).windows@,
                acc@ == kept(self.windows@.take(i as int), handles@),
            decreases self.windows.len() - i,
        {
            let w = self.windows[i];
            assert(self.windows@.take(i + 1).drop_last() =~= self.windows@.take(i as int));
            if contains_handle(handles, w.handle) {
                acc.push(w);
            }
            i += 1;
        }
        assert(self.windows@.take(self.windows.len() as int) =~= self.windows@);
        let mut j: usize = 0;
        while j < handles.len()
            invariant
                j <= handles.len(),
                handles.len() == rects.len(),
                acc@ == added(kept(old(self).windows@, handles@), handles@, rects@, j as nat),
            decreases handles.len() - j,
        {
            let h = handles[j];
            match rects[j] {
                Some(r) => if !tracks(&acc, h) {
                    acc.push(TrackedWindow { handle: h, baseline: r, applied_gain: Gain { x: 0, y: 0 } });
                },
                None => {},
            }
            j += 1;
        }
        proof {
            lemma_refresh_distinct(old(self).windows@, handles@, rects@);
        }
        self.windows = acc;
    }

    /// Moves every tracked window to its baseline less `gain`, after adopting
    /// any manual move seen in `observed` (the windows' rectangles, in the
    /// order of `windows`; `None` where one could not be read). Returns, in
    /// the same order, where each window is to be placed.
    pub fn apply_gain(&mut self, observed: &Vec<Option<Rect>>, gain: Gain) -> (r: Vec<Option<Placement>>)
        requires
            old(self).wf(),
            observed.len() == old(self).windows.len(),
        ensures
            final(self).wf(),
            final(self).windows.len() == old(self).windows.len(),
            r.len() == old(self).windows.len(),
            forall|i: int| 0 <= i < r.len() ==>
                (#[trigger] final(self).windows@[i], r@[i]) == step_window(old(self).windows@[i], observed@[i], gain),
    {
        let mut next: Vec<TrackedWindow> = Vec::new();
        let mut out: Vec<Option<Placement>> = Vec::new();
        let mut i: usize = 0;
        while i < self.windows.len()
            invariant
                i <= self.windows.len(),
                self.windows@ == old(self).windows@,
                observed.len() == self.windows.len(),
                next.len() == i,
                out.len() == i,
                forall|k: int| 0 <= k < i ==>
                    (#[trigger] next@[k], out@[k]) == step_window(self.windows@[k], observed@[k], gain),
            decreases self.windows.len() - i,
        {
            let (w, p) = step(self.windows[i], observed[i], gain);
            next.push(w);
            out.push(p);
            i += 1;
        }
        assert forall|a: int, b: int| 0 <= a < b < next.len() implies #[trigger] next@[a].handle
            != #[trigger] next@[b].handle by {
            assert(next@[a].handle == old(self).windows@[a].handle);
            assert(next@[b].handle == old(self).windows@[b].handle);
        }
        self.windows = next;
        out
    }
}

proof fn lemma_kept_in_handles(s: Seq<TrackedWindow>, handles: Seq<u64>)
    ensures
        forall|k: int| 0 <= k < kept(s, handles).len() ==> handles.contains(#[trigger] kept(s, handles)[k].handle),
    decreases s.len(),
{
    if s.len() > 0 {
        let k = kept(s.drop_last(), handles);
        lemma_kept_in_handles(s.drop_last(), handles);
        if handles.contains(s.last().handle) {
            let r = k.push(s.last());
            assert forall|i: int| 0 <= i < r.len() implies handles.contains(#[trigger] r[i].handle) by {
                if i < k.len() {
                    assert(r[i] == k[i]);
                }
            }
        }
    }
}

proof fn lemma_kept_all(s: Seq<TrackedWindow>, handles: Seq<u64>)
    requires
        forall|k: int| 0 <= k < s.len() ==> handles.contains(#[trigger] s[k].handle),
    ensures
        kept(s, handles) == s,
    decreases s.len(),
{
    if s.len() > 0 {
        let t = s.drop_last();
        assert forall|k: int| 0 <= k < t.len() implies handles.contains(#[trigger] t[k].handle) by {
            assert(t[k] == s[k]);
        }
        lemma_kept_all(t, handles);
        assert(s.last() == s[s.len() - 1]);
        assert(t.push(s.last()) =~= s);
    }
}

proof fn lemma_kept_contains(s: Seq<TrackedWindow>, handles: Seq<u64>, j: int)
    requires
        0 <= j < s.len(),
        handles.contains(s[j].handle),
    ensures
        kept(s, handles).contains(s[j]),
    decreases s.len(),
{
    let k = kept(s.drop_last(), handles);
    if j == s.len() - 1 {
        assert(kept(s, handles) == k.push(s.last()));
        assert(kept(s, handles)[k.len() as int] == s[j]);
    } else {
        assert(s.drop_last()[j] == s[j]);
        lemma_kept_contains(s.drop_last(), handles, j);
        let w = choose|w: int| 0 <= w < k.len() && k[w] == s[j];
        if handles.contains(s.last().handle) {
            assert(kept(s, handles)[w] == s[j]);
        }
    }
}

proof fn lemma_added_prefix(base: Seq<TrackedWindow>, handles: Seq<u64>, rects: Seq<Option<Rect>>, n: nat)
    ensures
        added(base, handles, rects, n).len() >= base.len(),
        forall|k: int| 0 <= k < base.len() ==> #[trigger] added(base, handles, rects, n)[k] == base[k],
    decreases n,
{
    if n > 0 {
        lemma_added_prefix(base, handles, rects, (n - 1) as nat);
    }
}

proof fn lemma_added_covers(base: Seq<TrackedWindow>, handles: Seq<u64>, rects: Seq<Option<Rect>>, n: nat)
    requires
        n <= handles.len(),
    ensures
        forall|i: int| 0 <= i < n && rects[i] is Some ==> has_handle(added(base, handles, rects, n), #[trigger] handles[i]),
    decreases n,
{
    if n > 0 {
        let m = (n - 1) as nat;
        let a = added(base, handles, rects, m);
        lemma_added_covers(base, handles, rects, m);
        lemma_added_prefix(a, handles, rects, 0);
        let r = added(base, handles, rects, n);
        assert forall|i: int| 0 <= i < n && rects[i] is Some implies has_handle(r, #[trigger] handles[i]) by {
            if i < m {
                assert(has_handle(a, handles[i]));
                let w = choose|w: int| 0 <= w < a.len() && #[trigger] a[w].handle == handles[i];
                assert(r.len() >= a.len());
                assert(r[w] == a[w]);
                assert(r[w].handle == handles[i]);
            } else if !has_handle(a, handles[m as int]) {
                assert(r[a.len() as int].handle == handles[i]);
            }
        }
    }
}

proof fn lemma_added_in_handles(base: Seq<TrackedWindow>, handles: Seq<u64>, rects: Seq<Option<Rect>>, n: nat)
    requires
        n <= handles.len(),
        forall|k: int| 0 <= k < base.len() ==> handles.contains(#[trigger] base[k].handle),
    ensures
        forall|k: int| 0 <= k < added(base, handles, rects, n).len()
            ==> handles.contains(#[trigger] added(base, handles, rects, n)[k].handle),
    decreases n,
{
    if n > 0 {
        let m = (n - 1) as nat;
        let a = added(base, handles, rects, m);
        lemma_added_in_handles(base, handles, rects, m);
        let r = added(base, handles, rects, n);
        assert forall|k: int| 0 <= k < r.len() implies handles.contains(#[trigger] r[k].handle) by {
            if k < a.len() {
                assert(r[k] == a[k]);
            } else {
                assert(r[k].handle == handles[m as int]);
            }
        }
    }
}

proof fn lemma_added_identity(base: Seq<TrackedWindow>, handles: Seq<u64>, rects: Seq<Option<Rect>>, n: nat)
    requires
        n <= handles.len(),
        forall|i: int| 0 <= i < n ==> has_handle(base, #[trigger] handles[i]),
    ensures
        added(base, handles, rects, n) == base,
    decreases n,
{
    if n > 0 {
        lemma_added_identity(base, handles, rects, (n - 1) as nat);
        assert(has_handle(base, handles[n - 1]));
    }
}

/// After a refresh every tracked handle is an enumerated one, and every
/// enumerated handle whose rectangle could be read is tracked.
pub proof fn lemma_refresh_tracks_enumerated(s: Seq<TrackedWindow>, handles: Seq<u64>, rects: Seq<Option<Rect>>, h: u64)
    ensures
        has_handle(refreshed(s, handles, rects), h) ==> handles.contains(h),
        forall|i: int|
            0 <= i < handles.len() && rects[i] is Some ==> has_handle(refreshed(s, handles, rects), #[trigger] handles[i]),
{
    let k = kept(s, handles);
    let r = refreshed(s, handles, rects);
    lemma_kept_in_handles(s, handles);
    lemma_added_in_handles(k, handles, rects, handles.len());
    lemma_added_covers(k, handles, rects, handles.len());
    if has_handle(r, h) {
        let w = choose|w: int| 0 <= w < r.len() && #[trigger] r[w].handle == h;
        assert(handles.contains(r[w].handle));
    }
}

/// A window whose handle is still enumerated keeps its entry, baseline and
/// applied gain included, across a refresh.
pub proof fn lemma_refresh_keeps_tracked(s: Seq<TrackedWindow>, handles: Seq<u64>, rects: Seq<Option<Rect>>, j: int)
    requires
        0 <= j < s.len(),
        handles.contains(s[j].handle),
    ensures
        refreshed(s, handles, rects).contains(s[j]),
{
    let k = kept(s, handles);
    lemma_kept_contains(s, handles, j);
    lemma_added_prefix(k, handles, rects, handles.len());
    let w = choose|w: int| 0 <= w < k.len() && k[w] == s[j];
    assert(refreshed(s, handles, rects)[w] == s[j]);
}

/// Refreshing a second time with the same handles adds and removes nothing,
/// where every rectangle of the first refresh could be read.
pub proof fn lemma_refresh_idempotent(
    s: Seq<TrackedWindow>,
    handles: Seq<u64>,
    rects: Seq<Option<Rect>>,
    rects2: Seq<Option<Rect>>,
)
    requires
        forall|i: int| 0 <= i < handles.len() ==> #[trigger] rects[i] is Some,
    ensures
        refreshed(refreshed(s, handles, rects), handles, rects2) == refreshed(s, handles, rects),
{
    let k = kept(s, handles);
    let r = refreshed(s, handles, rects);
    lemma_kept_in_handles(s, handles);
    lemma_added_in_handles(k, handles, rects, handles.len());
    lemma_kept_all(r, handles);
    lemma_added_covers(k, handles, rects, handles.len());
    assert forall|i: int| 0 <= i < handles.len() implies has_handle(r, #[trigger] handles[i]) by {
        assert(rects[i] is Some);
    }
    lemma_added_identity(r, handles, rects2, handles.len());
}

proof fn lemma_kept_has(s: Seq<TrackedWindow>, handles: Seq<u64>, h: u64)
    ensures
        has_handle(kept(s, handles), h) ==> has_handle(s, h),
    decreases s.len(),
{
    if s.len() > 0 {
        let t = s.drop_last();
        let k = kept(t, handles);
        lemma_kept_has(t, handles, h);
        if has_handle(kept(s, handles), h) {
            let w = choose|w: int| 0 <= w < kept(s, handles).len() && #[trigger] kept(s, handles)[w].handle == h;
            if w < k.len() {
                assert(kept(s, handles)[w] == k[w]);
                let v = choose|v: int| 0 <= v < t.len() && #[trigger] t[v].handle == h;
                assert(s[v] == t[v]);
            } else {
                assert(s[s.len() - 1].handle == h);
            }
        }
    }
}

proof fn lemma_kept_distinct(s: Seq<TrackedWindow>, handles: Seq<u64>)
    requires
        distinct_handles(s),
    ensures
        distinct_handles(kept(s, handles)),
    decreases s.len(),
{
    if s.len() > 0 {
        let t = s.drop_last();
        let k = kept(t, handles);
        assert forall|i: int, j: int| 0 <= i < j < t.len() implies #[trigger] t[i].handle != #[trigger] t[j].handle by {
            assert(t[i] == s[i] && t[j] == s[j]);
        }
        lemma_kept_distinct(t, handles);
        if handles.contains(s.last().handle) {
            lemma_kept_has(t, handles, s.last().handle);
            if has_handle(t, s.last().handle) {
                let v = choose|v: int| 0 <= v < t.len() && #[trigger] t[v].handle == s.last().handle;
                assert(s[v].handle == s[s.len() - 1].handle);
            }
            let r = k.push(s.last());
            assert forall|i: int, j: int| 0 <= i < j < r.len() implies #[trigger] r[i].handle != #[trigger] r[j].handle by {
                if j == k.len() {
                    assert(r[i] == k[i]);
                    assert(!has_handle(k, s.last().handle));
                } else {
                    assert(r[i] == k[i] && r[j] == k[j]);
                }
            }
        }
    }
}

proof fn lemma_added_distinct(base: Seq<TrackedWindow>, handles: Seq<u64>, rects: Seq<Option<Rect>>, n: nat)
    requires
        n <= handles.len(),
        distinct_handles(base),
    ensures
        distinct_handles(added(base, handles, rects, n)),
    decreases n,
{
    if n > 0 {
        let m = (n - 1) as nat;
        let a = added(base, handles, rects, m);
        lemma_added_distinct(base, handles, rects, m);
        let r = added(base, handles, rects, n);
        if rects[m as int] is Some && !has_handle(a, handles[m as int]) {
            assert forall|i: int, j: int| 0 <= i < j < r.len() implies #[trigger] r[i].handle != #[trigger] r[j].handle by {
                if j == a.len() {
                    assert(r[i] == a[i]);
                } else {
                    assert(r[i] == a[i] && r[j] == a[j]);
                }
            }
        }
    }
}

/// A refresh of a set without repeated handles repeats none.
pub proof fn lemma_refresh_distinct(s: Seq<TrackedWindow>, handles: Seq<u64>, rects: Seq<Option<Rect>>)
    requires
        distinct_handles(s),
    ensures
        distinct_handles(refreshed(s, handles, rects)),
{
    lemma_kept_distinct(s, handles);
    lemma_added_distinct(kept(s, handles), handles, rects, handles.len());
}

} // verus!
