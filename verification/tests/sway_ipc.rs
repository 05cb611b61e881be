use zskins::sway_ipc::{
    classify_event, decode_header, encode_message, next_reconnect_delay, sway_quote,
    window_event_title, workspace_change, workspace_state_from_raw, EventAction, RawContainer,
    RawEvent, RawWindowEvent, RawWorkspace, SwayBackend, EVENT_WINDOW, HEADER_LEN,
    MAX_RECONNECT_DELAY_MS, MSG_GET_WORKSPACES, MSG_RUN_COMMAND,
};
use zskins::workspace::WorkspaceId;

#[test]
fn sway_quote_wraps_plain_names() {
    assert_eq!(sway_quote("1"), "\"1\"");
    assert_eq!(sway_quote("DP-1"), "\"DP-1\"");
    assert_eq!(sway_quote("web"), "\"web\"");
}

#[test]
fn sway_quote_escapes_backslashes_and_quotes() {
    assert_eq!(sway_quote(r#"with"quote"#), r#""with\"quote""#);
    assert_eq!(sway_quote(r"back\slash"), r#""back\\slash""#);
    assert_eq!(sway_quote(r#"\"both"#), r#""\\\"both""#);
}

#[test]
fn sway_quote_preserves_spaces_and_semicolons() {
    assert_eq!(sway_quote("a b"), "\"a b\"");
    assert_eq!(sway_quote("kill;reboot"), "\"kill;reboot\"");
}

#[test]
fn encode_message_frames_header_and_payload() {
    let buf = encode_message(MSG_RUN_COMMAND, b"workspace 1");
    assert_eq!(&buf[..6], b"i3-ipc");
    assert_eq!(&buf[6..10], &11u32.to_le_bytes());
    assert_eq!(&buf[10..14], &0u32.to_le_bytes());
    assert_eq!(&buf[14..], b"workspace 1");
    assert_eq!(buf.len(), HEADER_LEN + 11);
}

#[test]
fn encode_message_empty_payload() {
    let buf = encode_message(MSG_GET_WORKSPACES, b"");
    assert_eq!(buf, vec![0x69, 0x33, 0x2d, 0x69, 0x70, 0x63, 0, 0, 0, 0, 1, 0, 0, 0]);
}

#[test]
fn decode_header_reads_back_encoded_header() {
    let buf = encode_message(EVENT_WINDOW, b"{}");
    assert_eq!(decode_header(&buf[..HEADER_LEN]), Some((2, EVENT_WINDOW)));
}

#[test]
fn decode_header_rejects_bad_magic() {
    let mut buf = encode_message(MSG_RUN_COMMAND, b"x");
    buf[0] = b'X';
    assert_eq!(decode_header(&buf[..HEADER_LEN]), None);
}

#[test]
fn activate_command_quotes_workspace_and_output() {
    let b = SwayBackend::default();
    let id = WorkspaceId("2: web".to_string());
    assert_eq!(b.activate_command(&id, None), "workspace \"2: web\"");
    assert_eq!(
        b.activate_command(&id, Some("DP-1")),
        "focus output \"DP-1\"; workspace \"2: web\""
    );
}

#[test]
fn reconnect_delay_doubles_then_caps() {
    assert_eq!(next_reconnect_delay(1000), 2000);
    assert_eq!(next_reconnect_delay(8000), 16000);
    assert_eq!(next_reconnect_delay(16000), MAX_RECONNECT_DELAY_MS);
    assert_eq!(next_reconnect_delay(30000), 30000);
}

fn raw(name: &str, focused: bool, urgent: bool, output: Option<&str>) -> RawWorkspace {
    RawWorkspace {
        name: name.to_string(),
        focused,
        urgent,
        output: output.map(|o| o.to_string()),
    }
}

#[test]
fn workspace_state_from_raw_keeps_order_and_focus() {
    let raws = vec![raw("1", false, false, Some("DP-1")), raw("2", true, true, None), raw("3", false, false, None)];
    let st = workspace_state_from_raw(&raws);
    let names: Vec<&str> = st.workspaces.iter().map(|w| w.name.as_str()).collect();
    assert_eq!(names, vec!["1", "2", "3"]);
    assert_eq!(st.workspaces[0].id.0, "1");
    assert_eq!(st.workspaces[0].output.as_deref(), Some("DP-1"));
    assert!(st.workspaces[1].active);
    assert!(st.workspaces[1].urgent);
    assert!(!st.workspaces[2].active);
    assert_eq!(st.active.map(|id| id.0), Some("2".to_string()));
}

#[test]
fn workspace_state_from_raw_without_focus() {
    let st = workspace_state_from_raw(&vec![raw("a", false, false, None)]);
    assert!(st.active.is_none());
    let empty = workspace_state_from_raw(&Vec::new());
    assert!(empty.workspaces.is_empty());
    assert!(empty.active.is_none());
}

#[test]
fn classify_event_focus_refetch_ignore() {
    let focus = RawEvent { change: "focus".to_string(), current: Some(raw("5", true, false, None)) };
    match classify_event(focus) {
        EventAction::Focus(id) => assert_eq!(id.0, "5"),
        _ => panic!("focus event must focus"),
    }
    let focus_without = RawEvent { change: "focus".to_string(), current: None };
    assert!(matches!(classify_event(focus_without), EventAction::Ignore));
    for change in ["init", "empty", "move", "rename", "reload", "urgent"] {
        let ev = RawEvent { change: change.to_string(), current: None };
        assert!(matches!(classify_event(ev), EventAction::Refetch), "{change}");
    }
    let other = RawEvent { change: "restored".to_string(), current: None };
    assert!(matches!(classify_event(other), EventAction::Ignore));
}

#[test]
fn workspace_change_only_on_focus() {
    let ev = RawEvent { change: "focus".to_string(), current: Some(raw("9", true, false, None)) };
    assert_eq!(workspace_change(ev).new_active.map(|id| id.0), Some("9".to_string()));
    let ev = RawEvent { change: "init".to_string(), current: Some(raw("9", true, false, None)) };
    assert!(workspace_change(ev).new_active.is_none());
}

#[test]
fn window_event_title_needs_focused_container() {
    let ev = |change: &str, name: Option<&str>, focused: bool| RawWindowEvent {
        change: change.to_string(),
        container: Some(RawContainer { name: name.map(|n| n.to_string()), focused }),
    };
    assert_eq!(window_event_title(ev("focus", Some("vim"), true)), Some("vim".to_string()));
    assert_eq!(window_event_title(ev("title", Some("new"), true)), Some("new".to_string()));
    assert_eq!(window_event_title(ev("title", Some("bg"), false)), None);
    assert_eq!(window_event_title(ev("close", Some("vim"), true)), None);
    assert_eq!(window_event_title(ev("focus", None, true)), None);
    let no_container = RawWindowEvent { change: "focus".to_string(), container: None };
    assert_eq!(window_event_title(no_container), None);
}

/// Reads a quoted token the way sway's parser does: the inside up to the
/// first unescaped quote, unescaped, and where the token ends.
fn read_quoted(s: &str) -> (String, usize) {
    let cs: Vec<char> = s.chars().collect();
    assert_eq!(cs[0], '"');
    let mut out = String::new();
    let mut i = 1;
    while cs[i] != '"' {
        if cs[i] == '\\' {
            i += 1;
        }
        out.push(cs[i]);
        i += 1;
    }
    (out, i + 1)
}

#[test]
fn quoted_names_read_back_as_one_token() {
    for name in ["plain", "x\"; exec rm -rf ~", "back\\slash\\", "\\\"", "", "a b;c"] {
        let q = sway_quote(name);
        let (inside, end) = read_quoted(&q);
        assert_eq!(inside, name);
        assert_eq!(end, q.chars().count());
    }
}
