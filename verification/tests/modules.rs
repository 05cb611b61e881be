use std::time::Duration;
use zskins::battery::{
    battery_icon, battery_tone, capacity_from_text, status_from_text, BatteryModule,
    BatteryStatus, BatteryTone,
};
use zskins::clock::ClockModule;
use zskins::compositor::{detect_kind, CompositorKind, FocusedWindow};
use zskins::network::{
    any_ethernet_up, classify_network, is_wired_candidate, net_label, operstate_is_up,
    ssid_from_output, NetState, NetworkModule,
};
use zskins::source::{primary_mime_position, Layout};
use zskins::volume::{
    choose_reading, pactl_muted, pactl_volume, volume_icon, wpctl_muted, VolumeModule,
};
use zskins::window_title::{choose_title_source, TitleSource, WindowTitleModule};
use zskins::workspace::{choose_backend, BackendKind};

#[test]
fn battery_status_from_sysfs_text() {
    assert_eq!(status_from_text(Some("Charging\n")), BatteryStatus::Charging);
    assert_eq!(status_from_text(Some("Full\n")), BatteryStatus::Full);
    assert_eq!(status_from_text(Some("Discharging\n")), BatteryStatus::Discharging);
    assert_eq!(status_from_text(Some("Not charging\n")), BatteryStatus::Discharging);
    assert_eq!(status_from_text(Some("weird")), BatteryStatus::Unknown);
    assert_eq!(status_from_text(None), BatteryStatus::Unknown);
    assert_eq!(BatteryStatus::default(), BatteryStatus::Unknown);
}

#[test]
fn battery_capacity_from_sysfs_text() {
    assert_eq!(capacity_from_text(Some("87\n")), Some(87));
    assert_eq!(capacity_from_text(Some("256")), None);
    assert_eq!(capacity_from_text(Some("x")), None);
    assert_eq!(capacity_from_text(None), None);
}

#[test]
fn battery_module_reports_and_tracks_changes() {
    let mut m = BatteryModule::with_reading(
        Some("BAT0".to_string()),
        Some(50),
        BatteryStatus::Discharging,
        Some(Duration::from_secs(3600)),
    );
    assert_eq!(m.capacity(), Some(50));
    assert_eq!(m.status(), BatteryStatus::Discharging);
    assert_eq!(m.time_remaining(), Some(Duration::from_secs(3600)));
    assert_eq!(m.device(), Some("BAT0"));
    assert!(!m.apply_reading(Some(50), BatteryStatus::Discharging, Some(Duration::from_secs(3600))));
    assert!(m.apply_reading(Some(50), BatteryStatus::Discharging, Some(Duration::from_secs(3540))));
    assert_eq!(m.time_remaining(), Some(Duration::from_secs(3540)));
    assert!(m.apply_reading(Some(51), BatteryStatus::Charging, None));
    assert_eq!(m.capacity(), Some(51));
    assert_eq!(m.status(), BatteryStatus::Charging);
    assert_eq!(m.time_remaining(), None);
    assert_eq!(m.device(), Some("BAT0"));
}

#[test]
fn battery_icon_and_tone_buckets() {
    assert_eq!(battery_icon(BatteryStatus::Charging, 5), "\u{f0084}");
    assert_eq!(battery_icon(BatteryStatus::Discharging, 10), "\u{f007a}");
    assert_eq!(battery_icon(BatteryStatus::Discharging, 30), "\u{f007c}");
    assert_eq!(battery_icon(BatteryStatus::Discharging, 60), "\u{f007e}");
    assert_eq!(battery_icon(BatteryStatus::Full, 90), "\u{f0080}");
    assert_eq!(battery_icon(BatteryStatus::Full, 100), "\u{f0079}");
    assert_eq!(battery_tone(BatteryStatus::Charging, 10), BatteryTone::Urgent);
    assert_eq!(battery_tone(BatteryStatus::Discharging, 25), BatteryTone::Warning);
    assert_eq!(battery_tone(BatteryStatus::Charging, 26), BatteryTone::Success);
    assert_eq!(battery_tone(BatteryStatus::Discharging, 80), BatteryTone::Dim);
}

#[test]
fn network_classification_and_label() {
    let s = classify_network(Some("Home".to_string()), true);
    let (icon, label) = net_label(&s);
    assert_eq!(icon, "\u{f0928}");
    assert_eq!(label, "Home");
    let (icon, label) = net_label(&classify_network(None, true));
    assert_eq!((icon, label.as_str()), ("\u{f0200}", "Eth"));
    let (icon, label) = net_label(&classify_network(None, false));
    assert_eq!((icon, label.as_str()), ("\u{f092d}", "Off"));
}

#[test]
fn network_probes() {
    assert_eq!(ssid_from_output(true, "Home\n"), Some("Home".to_string()));
    assert_eq!(ssid_from_output(true, "  \n"), None);
    assert_eq!(ssid_from_output(false, "Home"), None);
    assert!(is_wired_candidate("enp3s0"));
    assert!(!is_wired_candidate("lo"));
    assert!(!is_wired_candidate("wlan0"));
    assert!(operstate_is_up("up\n"));
    assert!(!operstate_is_up("down\n"));
    let ifaces = vec![
        ("lo".to_string(), Some("up\n".to_string())),
        ("wlp2s0".to_string(), Some("up\n".to_string())),
        ("enp3s0".to_string(), Some("down\n".to_string())),
    ];
    assert!(!any_ethernet_up(&ifaces));
    let ifaces = vec![("eth0".to_string(), None), ("enp0s31f6".to_string(), Some("up".to_string()))];
    assert!(any_ethernet_up(&ifaces));
}

#[test]
fn network_module_change_detection() {
    let mut m = NetworkModule::with_state(NetState::Disconnected);
    assert!(matches!(m.state(), NetState::Disconnected));
    assert!(!m.apply_reading(NetState::Disconnected));
    assert!(m.apply_reading(NetState::Wifi { ssid: "A".to_string() }));
    assert!(!m.apply_reading(NetState::Wifi { ssid: "A".to_string() }));
    assert!(m.apply_reading(NetState::Wifi { ssid: "B".to_string() }));
    assert!(matches!(m.state(), NetState::Wifi { ssid } if ssid == "B"));
    assert!(m.apply_reading(NetState::Ethernet));
}

#[test]
fn volume_parsers() {
    assert!(wpctl_muted("Volume: 0.40 [MUTED]\n"));
    assert!(!wpctl_muted("Volume: 0.40\n"));
    assert_eq!(pactl_volume("Volume: front-left: 26214 /  40% / -23.88 dB"), Some(40));
    assert_eq!(pactl_volume("garbage"), None);
    assert!(pactl_muted("Mute: yes\n"));
    assert!(!pactl_muted("Mute: no\n"));
}

#[test]
fn volume_reading_preference_and_module() {
    assert_eq!(choose_reading(Some((Some(40), true)), Some((Some(10), false))), (Some(40), true));
    assert_eq!(choose_reading(None, Some((Some(10), false))), (Some(10), false));
    assert_eq!(choose_reading(None, None), (None, false));
    let mut m = VolumeModule::with_reading(Some(40), false);
    assert_eq!(m.percent(), Some(40));
    assert!(!m.is_muted());
    assert!(!m.apply_reading(Some(40), false));
    assert!(m.apply_reading(Some(40), true));
    assert!(m.is_muted());
    assert_eq!(volume_icon(true, 80), "\u{f075f}");
    assert_eq!(volume_icon(false, 0), "\u{f057f}");
    assert_eq!(volume_icon(false, 50), "\u{f0580}");
    assert_eq!(volume_icon(false, 51), "\u{f057e}");
}

#[test]
fn clock_text_is_zero_padded() {
    let c = ClockModule;
    assert_eq!(c.text_for(0, 0, 0), "00:00:00");
    assert_eq!(c.text_for(9, 5, 7), "09:05:07");
    assert_eq!(c.text_for(23, 59, 60), "23:59:60");
}

#[test]
fn window_title_source_and_text() {
    assert_eq!(choose_title_source(true, true), TitleSource::Sway);
    assert_eq!(choose_title_source(false, true), TitleSource::Niri);
    assert_eq!(choose_title_source(false, false), TitleSource::NoSource);
    let mut m = WindowTitleModule::new();
    assert_eq!(m.display_text(), "");
    m.set_title(Some("vim".to_string()));
    assert_eq!(m.display_text(), "vim");
    m.set_title(None);
    assert_eq!(m.display_text(), "");
}

#[test]
fn compositor_detection_order() {
    assert_eq!(detect_kind(true, false, true), CompositorKind::Sway);
    assert_eq!(detect_kind(false, true, false), CompositorKind::Sway);
    assert_eq!(detect_kind(false, false, true), CompositorKind::Hyprland);
    assert_eq!(detect_kind(false, false, false), CompositorKind::Noop);
    let w = FocusedWindow { app_id: "foot".to_string(), title: "~".to_string(), workspace: None };
    assert_eq!(w.clone(), w);
}

#[test]
fn workspace_backend_choice() {
    assert_eq!(choose_backend(true, true), Some(BackendKind::Sway));
    assert_eq!(choose_backend(false, true), Some(BackendKind::ExtWorkspace));
    assert_eq!(choose_backend(false, false), None);
}

#[test]
fn primary_mime_is_first_equal_variant() {
    let mimes = vec!["text/plain".to_string(), "image/png".to_string(), "text/plain".to_string()];
    assert_eq!(primary_mime_position(&mimes, "text/plain"), Some(0));
    assert_eq!(primary_mime_position(&mimes, "image/png"), Some(1));
    assert_eq!(primary_mime_position(&mimes, "text/html"), None);
    assert!(Layout::List != Layout::ListAndPreview);
}

#[test]
fn battery_time_shown_only_while_moving() {
    let t = Some(Duration::from_secs(3600));
    let full = BatteryModule::with_reading(Some("BAT0".to_string()), Some(100), BatteryStatus::Full, t);
    assert_eq!(full.time_remaining(), None);
    let mut m = BatteryModule::with_reading(None, Some(40), BatteryStatus::Discharging, t);
    assert_eq!(m.time_remaining(), t);
    assert!(m.apply_reading(Some(40), BatteryStatus::Unknown, t));
    assert_eq!(m.time_remaining(), None);
    assert!(m.apply_reading(Some(41), BatteryStatus::Charging, t));
    assert_eq!(m.time_remaining(), t);
}
