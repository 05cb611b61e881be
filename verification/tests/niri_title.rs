use zskins::niri_title::{NiriEvent, NiriTitleTracker, NiriWindow};

fn win(id: u64, title: &str, focused: bool) -> NiriWindow {
    NiriWindow { id: Some(id), title: Some(title.to_string()), is_focused: focused }
}

#[test]
fn emits_only_when_focused_title_changes() {
    let mut t = NiriTitleTracker::new();
    assert_eq!(t.end_of_line(), None);
    t.apply(NiriEvent::WindowsChanged(vec![win(1, "shell", false), win(2, "editor", true)]));
    assert_eq!(t.end_of_line(), Some(Some("editor".to_string())));
    assert_eq!(t.end_of_line(), None);
    t.apply(NiriEvent::WindowFocusChanged(Some(1)));
    assert_eq!(t.end_of_line(), Some(Some("shell".to_string())));
    t.apply(NiriEvent::WindowOpenedOrChanged(Some(win(1, "shell: make", false))));
    assert_eq!(t.end_of_line(), Some(Some("shell: make".to_string())));
    t.apply(NiriEvent::WindowClosed(Some(1)));
    assert_eq!(t.end_of_line(), Some(None));
    t.apply(NiriEvent::Other);
    assert_eq!(t.end_of_line(), None);
}

#[test]
fn opened_focused_window_takes_focus() {
    let mut t = NiriTitleTracker::new();
    t.apply(NiriEvent::WindowOpenedOrChanged(Some(win(5, "new", true))));
    assert_eq!(t.end_of_line(), Some(Some("new".to_string())));
    t.apply(NiriEvent::WindowFocusChanged(Some(6)));
    assert_eq!(t.end_of_line(), Some(None));
    t.apply(NiriEvent::WindowFocusChanged(None));
    assert_eq!(t.end_of_line(), None);
}

#[test]
fn windows_changed_replaces_titles() {
    let mut t = NiriTitleTracker::new();
    t.apply(NiriEvent::WindowsChanged(vec![win(1, "a", true)]));
    assert_eq!(t.end_of_line(), Some(Some("a".to_string())));
    t.apply(NiriEvent::WindowsChanged(vec![win(2, "b", false)]));
    assert_eq!(t.end_of_line(), Some(None));
}
