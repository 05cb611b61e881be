use zskins::launcher::{exec_argv, LauncherState};

fn keys(items: &[&str]) -> Vec<String> {
    items.iter().map(|s| s.to_string()).collect()
}

#[test]
fn new_lists_every_entry_first_selected() {
    let s = LauncherState::new(3);
    assert_eq!(s.filtered(), &[0, 1, 2]);
    assert_eq!(s.selected(), 0);
    assert_eq!(s.position_label(), "1/3");
    assert_eq!(s.confirm(), Some(0));
}

#[test]
fn update_filter_lowercases_query_and_keeps_order() {
    let ks = keys(&["firefox web browser", "files", "terminal"]);
    let mut s = LauncherState::new(3);
    s.update_filter(&ks, "FI");
    assert_eq!(s.filtered(), &[0, 1]);
    s.update_filter(&ks, "");
    assert_eq!(s.filtered(), &[0, 1, 2]);
    s.update_filter(&ks, "zzz");
    assert!(s.filtered().is_empty());
    assert_eq!(s.confirm(), None);
    assert_eq!(s.position_label(), "0/0");
}

#[test]
fn filter_lowered_matches_substrings() {
    let ks = keys(&["abc", "bcd", "cde"]);
    let mut s = LauncherState::new(3);
    s.filter_lowered(&ks, "cd");
    assert_eq!(s.filtered(), &[1, 2]);
    assert_eq!(s.selected(), 0);
}

#[test]
fn selection_moves_within_bounds() {
    let mut s = LauncherState::new(3);
    s.move_up();
    assert_eq!(s.selected(), 0);
    s.move_down();
    s.move_down();
    assert_eq!(s.selected(), 2);
    s.move_down();
    assert_eq!(s.selected(), 2);
    assert_eq!(s.position_label(), "3/3");
    assert_eq!(s.confirm(), Some(2));
    s.move_up();
    assert_eq!(s.selected(), 1);
    let mut e = LauncherState::new(0);
    e.move_down();
    e.move_up();
    assert_eq!(e.selected(), 0);
    assert_eq!(e.confirm(), None);
}

#[test]
fn refilter_resets_selection() {
    let ks = keys(&["a1", "a2", "a3"]);
    let mut s = LauncherState::new(3);
    s.move_down();
    s.move_down();
    s.update_filter(&ks, "a");
    assert_eq!(s.selected(), 0);
}

#[test]
fn exec_argv_splits_on_whitespace() {
    assert_eq!(exec_argv("firefox --new-window"), vec!["firefox", "--new-window"]);
    assert_eq!(exec_argv("  env  FOO=1\tapp \n"), vec!["env", "FOO=1", "app"]);
    assert!(exec_argv("   ").is_empty());
    assert!(exec_argv("").is_empty());
}
