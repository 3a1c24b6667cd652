use head_tracked_windows::deadband::should_trigger;
use head_tracked_windows::easing::{ease_axis, EasingChannel, SmoothRect};
use head_tracked_windows::geometry::{Gain, Rect};
use head_tracked_windows::window_filter::{is_ignore_window_title, load_filterd_window_handlers, WindowInfo};

#[test]
fn deadband_boundary_is_strict() {
    let prev = Gain::new(0, 0);
    assert!(!should_trigger(Gain::new(20, 0), prev, 20));
    assert!(!should_trigger(Gain::new(-20, 20), prev, 20));
    assert!(should_trigger(Gain::new(21, 0), prev, 20));
    assert!(should_trigger(Gain::new(0, -21), prev, 20));
    assert!(should_trigger(Gain::new(50, -30), prev, 20));
    assert!(!should_trigger(Gain::new(i32::MAX, i32::MIN), Gain::new(i32::MAX, i32::MIN), 0));
    assert!(!should_trigger(Gain::new(i32::MAX, 0), Gain::new(i32::MIN, 0), u32::MAX));
    assert!(should_trigger(Gain::new(i32::MAX, 0), Gain::new(i32::MIN, 0), u32::MAX - 1));
}

#[test]
fn ease_axis_endpoints_and_midpoint() {
    assert_eq!(ease_axis(0, 100, 0, 1000), 0);
    assert_eq!(ease_axis(0, 100, 500, 1000), 50);
    assert_eq!(ease_axis(0, 100, 250, 1000), 12);
    assert_eq!(ease_axis(0, 100, 750, 1000), 87);
    assert_eq!(ease_axis(0, 100, 1000, 1000), 100);
    assert_eq!(ease_axis(100, 0, 250, 1000), 88);
    assert_eq!(ease_axis(7, -7, 0, 0), -7);
    assert_eq!(ease_axis(i32::MIN, i32::MAX, 1, u32::MAX), i32::MIN);
}

#[test]
fn easing_channel_update_is_continuous() {
    let mut ch = EasingChannel::new(Gain::new(0, 0));
    assert_eq!(ch.current_value(0), Gain::new(0, 0));
    ch.update(Gain::new(100, -100), 1000, 0);
    let before = ch.current_value(250);
    ch.update(Gain::new(0, 0), 1000, 250);
    assert_eq!(ch.current_value(250), before);
    assert_eq!(ch.last_value(), Gain::new(0, 0));
    assert_eq!(ch.current_value(1250), Gain::new(0, 0));
}

#[test]
fn easing_channel_is_monotone() {
    let mut ch = EasingChannel::new(Gain::new(-40, 40));
    ch.update(Gain::new(60, -10), 300, 100);
    let mut prev = ch.current_value(100);
    for t in 101..420u64 {
        let v = ch.current_value(t);
        assert!(v.x >= prev.x && v.y <= prev.y);
        prev = v;
    }
    assert_eq!(prev, Gain::new(60, -10));
}

#[test]
fn smooth_rect_eases_all_edges() {
    let mut r = SmoothRect::new(Rect::new(0, 0, 100, 100));
    assert_eq!(r.current_rect(5), Rect::new(0, 0, 100, 100));
    r.add(Rect::new(100, 200, 300, 400), 0);
    assert_eq!(r.current_rect(250), Rect::new(50, 100, 200, 250));
    assert_eq!(r.current_rect(500), Rect::new(100, 200, 300, 400));
    assert_eq!(r.last_rect(), Rect::new(100, 200, 300, 400));
}

#[test]
fn titles_on_the_deny_list_are_ignored() {
    assert!(is_ignore_window_title(&None));
    assert!(is_ignore_window_title(&Some(String::new())));
    assert!(is_ignore_window_title(&Some("Program Manager".to_string())));
    assert!(is_ignore_window_title(&Some("画面共有表示オプション".to_string())));
    assert!(is_ignore_window_title(&Some("ScreenToGif".to_string())));
    assert!(!is_ignore_window_title(&Some("Program Manager 2".to_string())));
    assert!(!is_ignore_window_title(&Some("Notepad".to_string())));
}

#[test]
fn filter_keeps_visible_uncloaked_titled_windows() {
    let info = |handle: u64, visible: bool, cloaked: bool, title: Option<&str>| WindowInfo {
        handle,
        visible,
        cloaked,
        title: title.map(|t| t.to_string()),
    };
    let windows = vec![
        info(1, true, false, Some("Editor")),
        info(2, false, false, Some("Hidden")),
        info(3, true, true, Some("Cloaked")),
        info(4, true, false, Some("Enpass")),
        info(5, true, false, None),
        info(6, true, false, Some("Browser")),
    ];
    assert_eq!(load_filterd_window_handlers(&windows), vec![1, 6]);
}
