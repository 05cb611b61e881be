use zskins::bluetooth::{
    begin_toggle, display_name, plan_bt_event, row_chip, row_status, sort_devices, split_paired,
    BtAction, BtCommand, BtDevice, BtLoopEvent, PanelBtDevice,
};

fn dev(name: &str, connected: bool, paired: bool) -> BtDevice {
    BtDevice {
        path: format!("/org/bluez/hci0/{name}"),
        address: "00:11:22:33:44:55".to_string(),
        name: name.to_string(),
        icon: "audio-headset".to_string(),
        connected,
        paired,
    }
}

#[test]
fn devices_sort_connected_paired_then_name() {
    let out = sort_devices(vec![
        dev("Zed", false, false),
        dev("Mouse", false, true),
        dev("Buds", true, true),
        dev("Alpha", false, false),
        dev("Keyboard", false, true),
    ]);
    let names: Vec<&str> = out.iter().map(|d| d.name.as_str()).collect();
    assert_eq!(names, vec!["Buds", "Keyboard", "Mouse", "Alpha", "Zed"]);
}

#[test]
fn display_name_prefers_alias_then_name_then_address() {
    let addr = "AA:BB".to_string();
    assert_eq!(display_name(Some("Mine".into()), Some("Raw".into()), &addr), "Mine");
    assert_eq!(display_name(Some("".into()), Some("Raw".into()), &addr), "Raw");
    assert_eq!(display_name(None, Some("".into()), &addr), "AA:BB");
    assert_eq!(display_name(None, None, &addr), "AA:BB");
}

#[test]
fn loop_plan_for_commands_and_signals() {
    let a = plan_bt_event(Some(BtLoopEvent::Cmd(BtCommand::Connect("/p".into()))));
    assert!(matches!(a, BtAction::Connect(p) if p == "/p"));
    let a = plan_bt_event(Some(BtLoopEvent::Cmd(BtCommand::Disconnect("/q".into()))));
    assert!(matches!(a, BtAction::Disconnect(p) if p == "/q"));
    assert!(matches!(plan_bt_event(Some(BtLoopEvent::Cmd(BtCommand::Refresh))), BtAction::Resnapshot));
    assert!(matches!(plan_bt_event(Some(BtLoopEvent::SignalAdded)), BtAction::Resnapshot));
    assert!(matches!(plan_bt_event(Some(BtLoopEvent::SignalRemoved)), BtAction::Resnapshot));
    assert!(matches!(plan_bt_event(Some(BtLoopEvent::PropertiesChanged)), BtAction::Resnapshot));
    assert!(matches!(plan_bt_event(None), BtAction::Stop));
}

#[test]
fn panel_row_starts_idle() {
    let r = PanelBtDevice::from_device(dev("Buds", true, true));
    assert_eq!(r.name, "Buds");
    assert!(r.connected && r.paired);
    assert!(!r.pending && !r.unavailable);
}

fn row(name: &str, connected: bool, paired: bool) -> PanelBtDevice {
    PanelBtDevice::from_device(dev(name, connected, paired))
}

#[test]
fn row_labels_follow_flags() {
    let mut r = row("Buds", true, true);
    assert_eq!(row_status(&r), "已连接");
    assert_eq!(row_chip(&r), Some("活动"));
    r.pending = true;
    assert_eq!(row_status(&r), "连接中…");
    assert_eq!(row_chip(&r), Some("…"));
    r.connected = false;
    assert_eq!(row_status(&r), "断开中…");
    r.pending = false;
    r.unavailable = true;
    assert_eq!(row_status(&r), "不可用 · 点击重试");
    assert_eq!(row_chip(&r), None);
    r.unavailable = false;
    assert_eq!(row_status(&r), "已配对");
}

#[test]
fn click_flips_row_and_asks_for_the_opposite() {
    let mut rows = vec![row("A", false, true), row("B", true, true)];
    rows[1].unavailable = true;
    let path_b = rows[1].path.clone();
    let cmd = begin_toggle(&mut rows, &path_b, true, false);
    assert!(matches!(cmd, Some(BtCommand::Disconnect(p)) if p == path_b));
    assert!(!rows[1].connected && rows[1].pending && !rows[1].unavailable);
    assert!(!rows[0].pending);
    let path_a = rows[0].path.clone();
    let cmd = begin_toggle(&mut rows, &path_a, false, false);
    assert!(matches!(cmd, Some(BtCommand::Connect(p)) if p == path_a));
    assert!(rows[0].connected && rows[0].pending);
    assert!(begin_toggle(&mut rows, &path_a, true, true).is_none());
    assert!(rows[0].connected);
    let cmd = begin_toggle(&mut rows, "/gone", false, false);
    assert!(matches!(cmd, Some(BtCommand::Connect(p)) if p == "/gone"));
}

#[test]
fn rows_split_into_paired_and_nearby_in_order() {
    let rows = vec![row("A", false, true), row("N1", false, false), row("B", true, true), row("N2", false, false)];
    let (paired, nearby) = split_paired(rows);
    let p: Vec<&str> = paired.iter().map(|d| d.name.as_str()).collect();
    let n: Vec<&str> = nearby.iter().map(|d| d.name.as_str()).collect();
    assert_eq!(p, vec!["A", "B"]);
    assert_eq!(n, vec!["N1", "N2"]);
}
