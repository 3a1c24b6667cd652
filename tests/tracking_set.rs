use head_tracked_windows::geometry::{Gain, Rect};
use head_tracked_windows::tracking::{reconcile_baseline, TrackedWindow, WindowTrackSet};

#[test]
fn refresh_adds_new_handles_at_zero_gain() {
    let mut set = WindowTrackSet::new();
    set.refresh(&vec![1, 2], &vec![Some(Rect::new(0, 0, 10, 10)), Some(Rect::new(5, 5, 20, 20))]);
    assert_eq!(
        set.windows,
        vec![
            TrackedWindow { handle: 1, baseline: Rect::new(0, 0, 10, 10), applied_gain: Gain::zero() },
            TrackedWindow { handle: 2, baseline: Rect::new(5, 5, 20, 20), applied_gain: Gain::zero() },
        ]
    );
}

#[test]
fn refresh_twice_changes_nothing() {
    let mut set = WindowTrackSet::new();
    let handles = vec![4, 9, 4];
    set.refresh(&handles, &vec![Some(Rect::new(0, 0, 1, 1)), Some(Rect::new(2, 2, 3, 3)), Some(Rect::new(7, 7, 8, 8))]);
    assert_eq!(set.windows.len(), 2);
    let before = set.windows.clone();
    set.refresh(&handles, &vec![Some(Rect::new(50, 50, 51, 51)), Some(Rect::new(60, 60, 61, 61)), Some(Rect::new(70, 70, 71, 71))]);
    assert_eq!(set.windows, before);
}

#[test]
fn refresh_keeps_existing_baseline_and_drops_missing() {
    let kept = TrackedWindow { handle: 1, baseline: Rect::new(100, 100, 200, 200), applied_gain: Gain::new(30, 5) };
    let gone = TrackedWindow { handle: 2, baseline: Rect::new(0, 0, 10, 10), applied_gain: Gain::zero() };
    let mut set = WindowTrackSet { windows: vec![gone, kept] };
    set.refresh(&vec![3, 1], &vec![Some(Rect::new(9, 9, 19, 19)), Some(Rect::new(70, 95, 170, 195))]);
    assert_eq!(
        set.windows,
        vec![kept, TrackedWindow { handle: 3, baseline: Rect::new(9, 9, 19, 19), applied_gain: Gain::zero() }]
    );
}

#[test]
fn refresh_with_no_handles_empties_the_set() {
    let mut set = WindowTrackSet { windows: vec![TrackedWindow { handle: 1, baseline: Rect::new(0, 0, 1, 1), applied_gain: Gain::zero() }] };
    set.refresh(&vec![], &vec![]);
    assert!(set.windows.is_empty());
}

#[test]
fn reconcile_detects_drag() {
    let base = Rect::new(100, 100, 300, 300);
    assert_eq!(reconcile_baseline(Rect::new(90, 90, 290, 290), base, Gain::new(10, 10)), Some(base));
    assert_eq!(
        reconcile_baseline(Rect::new(500, 500, 700, 700), base, Gain::new(10, 10)),
        Some(Rect::new(490, 490, 690, 690))
    );
    assert_eq!(
        reconcile_baseline(Rect::new(90, 91, 290, 291), base, Gain::new(10, 10)),
        Some(Rect::new(80, 81, 280, 281))
    );
    assert_eq!(reconcile_baseline(Rect::new(i32::MIN, 0, 0, 0), base, Gain::new(1, 0)), None);
}

#[test]
fn shift_back_subtracts_gain_from_every_edge() {
    assert_eq!(Rect::new(10, 20, 30, 40).shift_back(Gain::new(3, -4)), Some(Rect::new(7, 24, 27, 44)));
    assert_eq!(Rect::new(0, 0, 0, i32::MAX).shift_back(Gain::new(0, -1)), None);
}

#[test]
fn refresh_waits_for_a_readable_rect() {
    let mut set = WindowTrackSet::new();
    set.refresh(&vec![1, 2], &vec![None, Some(Rect::new(5, 5, 20, 20))]);
    assert_eq!(set.windows.len(), 1);
    assert_eq!(set.windows[0].handle, 2);
    set.refresh(&vec![1, 2], &vec![Some(Rect::new(0, 0, 10, 10)), None]);
    assert_eq!(set.windows.len(), 2);
    assert_eq!(set.windows[0].baseline, Rect::new(5, 5, 20, 20));
    assert_eq!(set.windows[1], TrackedWindow { handle: 1, baseline: Rect::new(0, 0, 10, 10), applied_gain: Gain::zero() });
}
