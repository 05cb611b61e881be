use zskins::bluetooth::bt_icon;
use zskins::quicksettings::{
    fmt_clock_short, fmt_duration_zh, parse_wifi_list, rfkill_all_blocked_from_output,
    rfkill_unblocked_from_output, signal_bars, sort_wifi, split_nmcli_columns,
    wifi_enabled_from_output, PillsState, WifiEntry,
};
use zskins::quicksettings::{back_from, scan_for_view, PanelView, ScanAction};
use zskins::quicksettings::{cluster_wifi_icon, wifi_on, Pill};

#[test]
fn quicksettings_bt_icon_maps_known_classes() {
    assert_eq!(bt_icon("audio-headphones"), "\u{f025f}");
    assert_eq!(bt_icon("audio-headset"), "\u{f025f}");
    assert_eq!(bt_icon("audio-speakers"), "\u{f057e}");
    assert_eq!(bt_icon("input-keyboard"), "\u{f030c}");
    assert_eq!(bt_icon("input-mouse"), "\u{f037d}");
    assert_eq!(bt_icon("phone-smart"), "\u{f011c}");
}

#[test]
fn quicksettings_bt_icon_falls_back_to_generic() {
    assert_eq!(bt_icon(""), "\u{f00af}");
    assert_eq!(bt_icon("nonexistent-class"), "\u{f00af}");
}

#[test]
fn quicksettings_signal_bars_buckets_percent() {
    assert_eq!(signal_bars(0), 1);
    assert_eq!(signal_bars(39), 1);
    assert_eq!(signal_bars(40), 2);
    assert_eq!(signal_bars(69), 2);
    assert_eq!(signal_bars(70), 3);
    assert_eq!(signal_bars(100), 3);
}

#[test]
fn quicksettings_split_nmcli_columns_basic() {
    let line = "*:MyNetwork:75:WPA2";
    let cols = split_nmcli_columns(line);
    assert_eq!(cols, vec!["*", "MyNetwork", "75", "WPA2"]);
}

#[test]
fn quicksettings_split_nmcli_columns_handles_escaped_colon_in_ssid() {
    let line = " :Café\\:Wifi:60:WPA2";
    let cols = split_nmcli_columns(line);
    assert_eq!(cols, vec![" ", "Café:Wifi", "60", "WPA2"]);
}

#[test]
fn quicksettings_split_nmcli_columns_empty_fields_preserved() {
    let line = "::::";
    let cols = split_nmcli_columns(line);
    assert_eq!(cols, vec!["", "", "", "", ""]);
}

#[test]
fn quicksettings_split_nmcli_columns_open_network_blank_security() {
    let line = " :OpenNet:50:";
    let cols = split_nmcli_columns(line);
    assert_eq!(cols, vec![" ", "OpenNet", "50", ""]);
}

#[test]
fn bt_bt_icon_maps_known_classes() {
    assert_eq!(bt_icon("audio-headphones"), "\u{f025f}");
    assert_eq!(bt_icon("audio-headset"), "\u{f025f}");
    assert_eq!(bt_icon("audio-speakers"), "\u{f057e}");
    assert_eq!(bt_icon("input-keyboard"), "\u{f030c}");
    assert_eq!(bt_icon("input-mouse"), "\u{f037d}");
    assert_eq!(bt_icon("phone-smart"), "\u{f011c}");
}

#[test]
fn bt_bt_icon_falls_back_to_generic() {
    assert_eq!(bt_icon(""), "\u{f00af}");
    assert_eq!(bt_icon("nonexistent-class"), "\u{f00af}");
}

#[test]
fn wifi_signal_bars_buckets_percent() {
    assert_eq!(signal_bars(0), 1);
    assert_eq!(signal_bars(39), 1);
    assert_eq!(signal_bars(40), 2);
    assert_eq!(signal_bars(69), 2);
    assert_eq!(signal_bars(70), 3);
    assert_eq!(signal_bars(100), 3);
}

#[test]
fn wifi_split_nmcli_columns_basic() {
    let line = "*:MyNetwork:75:WPA2";
    let cols = split_nmcli_columns(line);
    assert_eq!(cols, vec!["*", "MyNetwork", "75", "WPA2"]);
}

#[test]
fn wifi_split_nmcli_columns_handles_escaped_colon_in_ssid() {
    let line = " :Café\\:Wifi:60:WPA2";
    let cols = split_nmcli_columns(line);
    assert_eq!(cols, vec![" ", "Café:Wifi", "60", "WPA2"]);
}

#[test]
fn wifi_split_nmcli_columns_empty_fields_preserved() {
    let line = "::::";
    let cols = split_nmcli_columns(line);
    assert_eq!(cols, vec!["", "", "", "", ""]);
}

#[test]
fn wifi_split_nmcli_columns_open_network_blank_security() {
    let line = " :OpenNet:50:";
    let cols = split_nmcli_columns(line);
    assert_eq!(cols, vec![" ", "OpenNet", "50", ""]);
}

#[test]
fn split_nmcli_columns_keeps_escaped_backslash() {
    assert_eq!(split_nmcli_columns("a\\\\b:c"), vec!["a\\b", "c"]);
    assert_eq!(split_nmcli_columns(""), vec![""]);
}

#[test]
fn parse_wifi_list_reads_entries_in_order() {
    let out = "*:Home:80:WPA2\n :Cafe:55:--\n :   :40:WPA2\n :Guest:abc:\nbroken\n";
    let es = parse_wifi_list(out);
    assert_eq!(es.len(), 3);
    assert_eq!(es[0].ssid, "Home");
    assert!(es[0].connected && es[0].secured);
    assert_eq!(es[0].signal, 80);
    assert_eq!(es[1].ssid, "Cafe");
    assert!(!es[1].secured && !es[1].connected);
    assert_eq!(es[2].ssid, "Guest");
    assert_eq!(es[2].signal, 0);
    assert!(!es[2].secured);
}

fn wifi(ssid: &str, signal: u8, connected: bool) -> WifiEntry {
    WifiEntry { ssid: ssid.to_string(), signal, secured: true, connected }
}

#[test]
fn sort_wifi_connected_then_strongest_stable() {
    let es = sort_wifi(vec![
        wifi("a", 40, false),
        wifi("b", 90, false),
        wifi("c", 10, true),
        wifi("d", 90, false),
    ]);
    let order: Vec<&str> = es.iter().map(|e| e.ssid.as_str()).collect();
    assert_eq!(order, vec!["c", "b", "d", "a"]);
}

#[test]
fn nmcli_and_rfkill_probes() {
    assert!(wifi_enabled_from_output("enabled\n"));
    assert!(!wifi_enabled_from_output("disabled\n"));
    assert_eq!(rfkill_unblocked_from_output("unblocked\n"), Some(true));
    assert_eq!(rfkill_unblocked_from_output("blocked\n"), Some(false));
    assert_eq!(rfkill_unblocked_from_output("  \n"), None);
    assert_eq!(rfkill_all_blocked_from_output("blocked\nblocked\n"), Some(true));
    assert_eq!(rfkill_all_blocked_from_output("blocked\nunblocked\n"), Some(false));
    assert_eq!(rfkill_all_blocked_from_output("\n"), None);
}

#[test]
fn pills_default_when_probe_unanswered() {
    let p = PillsState::from_probes(None, Some(false), None, true);
    assert!(p.wifi);
    assert!(!p.bluetooth);
    assert!(!p.airplane);
    assert!(p.night_light);
    let q = PillsState::from_probes(Some(true), Some(false), Some(false), true);
    assert!(p.matches(&q));
    let r = PillsState::from_probes(Some(false), Some(false), Some(false), true);
    assert!(!p.matches(&r));
}

#[test]
fn fmt_duration_zh_parts() {
    assert_eq!(fmt_duration_zh(59), None);
    assert_eq!(fmt_duration_zh(60).as_deref(), Some("约 1 分钟"));
    assert_eq!(fmt_duration_zh(7200).as_deref(), Some("约 2 小时"));
    assert_eq!(fmt_duration_zh(3600 + 25 * 60 + 30).as_deref(), Some("约 1 小时 25 分钟"));
}

#[test]
fn fmt_clock_short_pads_fields() {
    assert_eq!(fmt_clock_short(0, 9, 5), "周日 09:05");
    assert_eq!(fmt_clock_short(3, 23, 59), "周三 23:59");
}

fn nmcli_line(fields: &[&str]) -> String {
    fields
        .iter()
        .map(|f| f.replace('\\', "\\\\").replace(':', "\\:"))
        .collect::<Vec<_>>()
        .join(":")
}

#[test]
fn split_nmcli_columns_reads_back_escaped_fields() {
    let fields = ["*", "a:b\\c", "", "WPA1 WPA2", "::"];
    assert_eq!(split_nmcli_columns(&nmcli_line(&fields)), fields.to_vec());
}

#[test]
fn views_scan_and_go_back() {
    assert_eq!(scan_for_view(PanelView::Bluetooth, false), (ScanAction::RefreshBluetooth, false));
    assert_eq!(scan_for_view(PanelView::Wifi, false), (ScanAction::ScanWifi, true));
    assert_eq!(scan_for_view(PanelView::Wifi, true), (ScanAction::Nothing, true));
    assert_eq!(scan_for_view(PanelView::Main, false), (ScanAction::Nothing, false));
    assert_eq!(back_from(PanelView::Wifi), (PanelView::Main, true));
    assert_eq!(back_from(PanelView::Main), (PanelView::Main, false));
}

#[test]
fn airplane_on_turns_wifi_and_bluetooth_off() {
    let p = PillsState::from_probes(Some(true), Some(true), Some(false), true);
    let q = p.toggle(Pill::Airplane);
    assert!(q.airplane);
    assert!(!q.wifi);
    assert!(!q.bluetooth);
    assert!(q.night_light);
    // switching it off again leaves the radios off
    let r = q.toggle(Pill::Airplane);
    assert!(!r.airplane);
    assert!(!r.wifi);
    assert!(!r.bluetooth);
}

#[test]
fn other_pills_flip_alone() {
    let p = PillsState::from_probes(Some(true), Some(false), Some(true), false);
    let w = p.toggle(Pill::Wifi);
    assert!(!w.wifi && !w.bluetooth && w.airplane && !w.night_light);
    let b = p.toggle(Pill::Bluetooth);
    assert!(b.wifi && b.bluetooth && b.airplane && !b.night_light);
    let n = p.toggle(Pill::NightLight);
    assert!(n.wifi && !n.bluetooth && n.airplane && n.night_light);
}

#[test]
fn cluster_wifi_needs_a_wireless_link_up() {
    assert!(!wifi_on(&vec![]));
    assert!(!wifi_on(&vec![(false, true), (true, false)]));
    assert!(wifi_on(&vec![(false, true), (true, true)]));
    assert_eq!(cluster_wifi_icon(true), "\u{f05a9}");
    assert_eq!(cluster_wifi_icon(false), "\u{f05aa}");
}
