use head_tracked_windows::control::{ControlLoop, LoopState, Mode};
use head_tracked_windows::geometry::{Gain, Placement, Rect};
use head_tracked_windows::tracking::{TrackedWindow, WindowTrackSet};

fn window(handle: u64, baseline: Rect, applied: Gain) -> TrackedWindow {
    TrackedWindow { handle, baseline, applied_gain: applied }
}

#[test]
fn zero_gain_leaves_window_in_place() {
    let mut set = WindowTrackSet::new();
    set.refresh(&vec![7], &vec![Some(Rect::new(100, 100, 300, 300))]);
    let out = set.apply_gain(&vec![Some(Rect::new(100, 100, 300, 300))], Gain::zero());
    assert_eq!(out, vec![Some(Placement { handle: 7, x: 100, y: 100 })]);
    assert_eq!(set.windows[0].baseline, Rect::new(100, 100, 300, 300));
}

#[test]
fn hysteresis_step_moves_opposite_to_gain() {
    let mut state = LoopState::new(Mode::Hysteresis, 20, 500);
    let handles = vec![7];
    let rects = vec![Some(Rect::new(100, 100, 300, 300))];
    let first = state.tick(Gain::new(0, 0), 0, &handles, &rects);
    assert_eq!(first, vec![None]);
    let out = state.tick(Gain::new(50, -30), 10, &handles, &rects);
    assert_eq!(out, vec![Some(Placement { handle: 7, x: 50, y: 130 })]);
    assert_eq!(state.control.last_committed, Gain::new(50, -30));
    assert_eq!(state.tracks.windows[0].applied_gain, Gain::new(50, -30));
}

#[test]
fn hysteresis_ignores_gain_inside_deadband() {
    let mut c = ControlLoop::new(Mode::Hysteresis, 20, 500);
    assert_eq!(c.next_gain(Gain::new(20, -20), 0), None);
    assert_eq!(c.last_committed, Gain::new(0, 0));
    assert_eq!(c.next_gain(Gain::new(21, 0), 10), Some(Gain::new(21, 0)));
    assert_eq!(c.last_committed, Gain::new(21, 0));
}

#[test]
fn eased_retarget_follows_quadratic_curve() {
    let mut c = ControlLoop::new(Mode::Eased, 20, 500);
    assert_eq!(c.next_gain(Gain::new(50, -30), 1000), Some(Gain::new(0, 0)));
    let quarter = c.channel.current_value(1125);
    assert_eq!(quarter, Gain::new(6, -3));
    assert_ne!(quarter, Gain::new(12, -7));
    assert_eq!(c.channel.current_value(1250), Gain::new(25, -15));
    assert_eq!(c.channel.current_value(1375), Gain::new(43, -26));
    assert_eq!(c.channel.current_value(1500), Gain::new(50, -30));
    assert_eq!(c.channel.current_value(9000), Gain::new(50, -30));
}

#[test]
fn eased_mode_applies_channel_value_every_tick() {
    let mut c = ControlLoop::new(Mode::Eased, 20, 500);
    c.next_gain(Gain::new(50, -30), 0);
    assert_eq!(c.next_gain(Gain::new(55, -30), 250), Some(Gain::new(25, -15)));
    assert_eq!(c.last_committed, Gain::new(50, -30));
}

#[test]
fn manual_move_resets_baseline() {
    let mut set = WindowTrackSet { windows: vec![window(3, Rect::new(100, 100, 300, 300), Gain::new(10, 10))] };
    let out = set.apply_gain(&vec![Some(Rect::new(500, 500, 700, 700))], Gain::new(10, 10));
    assert_eq!(set.windows[0].baseline, Rect::new(490, 490, 690, 690));
    assert_eq!(out, vec![Some(Placement { handle: 3, x: 480, y: 480 })]);
}

#[test]
fn unmoved_window_keeps_baseline() {
    let mut set = WindowTrackSet { windows: vec![window(3, Rect::new(100, 100, 300, 300), Gain::new(10, 10))] };
    let out = set.apply_gain(&vec![Some(Rect::new(90, 90, 290, 290))], Gain::new(-5, 4));
    assert_eq!(set.windows[0].baseline, Rect::new(100, 100, 300, 300));
    assert_eq!(set.windows[0].applied_gain, Gain::new(-5, 4));
    assert_eq!(out, vec![Some(Placement { handle: 3, x: 105, y: 96 })]);
}

#[test]
fn unreadable_window_is_skipped() {
    let w = window(3, Rect::new(100, 100, 300, 300), Gain::new(10, 10));
    let mut set = WindowTrackSet { windows: vec![w] };
    let out = set.apply_gain(&vec![None], Gain::new(40, 40));
    assert_eq!(out, vec![None]);
    assert_eq!(set.windows[0], w);
}

#[test]
fn placement_out_of_range_is_skipped() {
    let w = window(3, Rect::new(i32::MIN, 0, 10, 10), Gain::new(0, 0));
    let mut set = WindowTrackSet { windows: vec![w] };
    let out = set.apply_gain(&vec![Some(Rect::new(i32::MIN, 0, 10, 10))], Gain::new(1, 0));
    assert_eq!(out, vec![None]);
    assert_eq!(set.windows[0], w);
}

#[test]
fn eased_tick_places_windows_along_the_curve() {
    let mut state = LoopState::new(Mode::Eased, 20, 500);
    let handles = vec![7];
    let rects = vec![Some(Rect::new(100, 100, 300, 300))];
    assert_eq!(state.tick(Gain::new(50, -30), 0, &handles, &rects), vec![Some(Placement { handle: 7, x: 100, y: 100 })]);
    let rects = vec![Some(Rect::new(100, 100, 300, 300))];
    assert_eq!(state.tick(Gain::new(50, -30), 250, &handles, &rects), vec![Some(Placement { handle: 7, x: 75, y: 115 })]);
    let rects = vec![Some(Rect::new(75, 115, 275, 315))];
    assert_eq!(state.tick(Gain::new(50, -30), 500, &handles, &rects), vec![Some(Placement { handle: 7, x: 50, y: 130 })]);
}

#[test]
fn tick_skips_window_whose_rect_cannot_be_read() {
    let mut state = LoopState::new(Mode::Hysteresis, 20, 500);
    let handles = vec![7, 8];
    let rects = vec![Some(Rect::new(100, 100, 300, 300)), Some(Rect::new(0, 0, 50, 50))];
    state.tick(Gain::new(0, 0), 0, &handles, &rects);
    let rects = vec![None, Some(Rect::new(0, 0, 50, 50))];
    let out = state.tick(Gain::new(30, 0), 10, &handles, &rects);
    assert_eq!(out, vec![None, Some(Placement { handle: 8, x: -30, y: 0 })]);
    assert_eq!(state.tracks.windows[0].applied_gain, Gain::new(0, 0));
    assert_eq!(state.tracks.windows[1].baseline, Rect::new(0, 0, 50, 50));
}
