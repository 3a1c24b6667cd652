use vstd::prelude::*;

verus! {

/// What the window enumeration reports of one window.
#[derive(Debug)]
pub struct WindowInfo {
    pub handle: u64,
    pub visible: bool,
    pub cloaked: bool,
    /// `None` where the window has no title.
    pub title: Option<String>,
}

/// Titles of system and overlay windows that never follow the gain: the
/// desktop shell, meeting and screen-share overlays, a password manager's
/// popup, installer dialogs and a screen recorder. An empty title is denied too.
pub open spec fn denied_title(t: Seq<char>) -> bool {
    ||| t.len() == 0
    ||| t == "Program Manager"@
    ||| t == "ZPToolBarParentWnd"@
    ||| t == "ConfMeetingNotfiyWnd"@
    ||| t == "画面共有表示オプション"@
    ||| t == "Enpass"@
    ||| t == "セットアップ"@
    ||| t == "ミーティングコントロール"@
    ||| t == "VideoFrameWnd"@
    ||| t == "ScreenToGif"@
}

pub open spec fn ignored_title(title: Option<String>) -> bool {
    match title {
        None => true,
        Some(t) => denied_title(t@),
    }
}

/// Whether a window is to be tracked: visible, not cloaked, and titled
/// with a title that is not denied.
pub open spec fn selected(w: WindowInfo) -> bool {
    w.visible && !w.cloaked && !ignored_title(w.title)
}

/// The handles of the selected windows, in enumeration order.
pub open spec fn selected_handles(s: Seq<WindowInfo>) -> Seq<u64>
    decreases s.len(),
{
    if s.len() == 0 {
        Seq::empty()
    } else if selected(s.last()) {
        selected_handles(s.drop_last()).push(s.last().handle)
    } else {
        selected_handles(s.drop_last())
    }
}

fn same_text(a: &String, b: &str) -> (r: bool)
    ensures
        r == (a@ == b@),
{
    let owned = b.to_owned();
    a.eq(&owned)
}

/// Whether a title keeps its window out of the tracked set.
pub fn is_ignore_window_title(title: &Option<String>) -> (r: bool)
    ensures
        r == ignored_title(*title),
{
    match title {
        None => true,
        Some(t) => {
            t.as_str().is_empty() || same_text(t, "Program Manager") || same_text(t, "ZPToolBarParentWnd")
                || same_text(t, "ConfMeetingNotfiyWnd") || same_text(t, "画面共有表示オプション")
                || same_text(t, "Enpass") || same_text(t, "セットアップ")
                || same_text(t, "ミーティングコントロール") || same_text(t, "VideoFrameWnd")
                || same_text(t, "ScreenToGif")
        },
    }
}

pub fn is_selected(w: &WindowInfo) -> (r: bool)
    ensures
        r == selected(*w),
{
    w.visible && !w.cloaked && !is_ignore_window_title(&w.title)
}

/// The handles of the windows to track, in enumeration order.
pub fn load_filterd_window_handlers(windows: &Vec<WindowInfo>) -> (r: Vec<u64>)
    ensures
        r@ == selected_handles(windows@),
{
    let mut out: Vec<u64> = Vec::new();
    let mut i: usize = 0;
    while i < windows.len()
        invariant
            i <= windows.len(),
            out@ == selected_handles(windows@.take(i as int)),
        decreases windows.len() - i,
    {
        assert(windows@.take(i + 1).drop_last() =~= windows@.take(i as int));
        if is_selected(&windows[i]) {
            out.push(windows[i].handle);
        }
        i += 1;
    }
    assert(windows@.take(windows.len() as int) =~= windows@);
    out
}

} // verus!
