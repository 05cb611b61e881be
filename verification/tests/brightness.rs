use zskins::brightness::{
    backlight_percent, brightness_icon, clamp_percent, ddc_percent, ddc_write_value,
    finish_displays, find_display, i2c_dev_path, label_for, parse_edid_product_name,
    choose_source, poll_interval_secs, source_displays, strip_card_prefix, u32_from_text, BrightnessModule,
    BrightnessSource, DdcCandidate, DdciDisplay,
};

#[test]
fn strip_card_prefix_extracts_connector() {
    assert_eq!(strip_card_prefix("card0-HDMI-A-1"), Some("HDMI-A-1"));
    assert_eq!(strip_card_prefix("card1-DP-2"), Some("DP-2"));
    assert_eq!(strip_card_prefix("card12-eDP-1"), Some("eDP-1"));
}

#[test]
fn strip_card_prefix_rejects_invalid() {
    assert_eq!(strip_card_prefix("HDMI-A-1"), None);
    assert_eq!(strip_card_prefix("cardX-A-1"), None);
    assert_eq!(strip_card_prefix("card0HDMI"), None);
    assert_eq!(strip_card_prefix("card0"), None);
}

/// A 128-byte EDID with a 0xFC descriptor in block `idx` (0..4) holding
/// `name` (cut at 13 bytes, padded with 0x0A then 0x20).
fn edid_with_name(idx: usize, name: &str) -> Vec<u8> {
    let mut edid = vec![0u8; 128];
    let block = 54 + idx * 18;
    edid[block + 3] = 0xFC;
    let bytes = name.as_bytes();
    let n = bytes.len().min(13);
    edid[block + 5..block + 5 + n].copy_from_slice(&bytes[..n]);
    if n < 13 {
        edid[block + 5 + n] = 0x0A;
        for b in &mut edid[block + 5 + n + 1..block + 18] {
            *b = 0x20;
        }
    }
    edid
}

#[test]
fn parses_product_name_from_first_descriptor() {
    let edid = edid_with_name(0, "JZM27DC");
    assert_eq!(parse_edid_product_name(&edid).as_deref(), Some("JZM27DC"));
}

#[test]
fn parses_product_name_from_later_descriptor() {
    let edid = edid_with_name(2, "Dell U2720Q");
    assert_eq!(parse_edid_product_name(&edid).as_deref(), Some("Dell U2720Q"));
}

#[test]
fn rejects_short_edid() {
    assert_eq!(parse_edid_product_name(&[0u8; 64]), None);
}

#[test]
fn rejects_edid_without_product_descriptor() {
    let edid = vec![0u8; 128];
    assert_eq!(parse_edid_product_name(&edid), None);
}

#[test]
fn skips_detailed_timing_descriptors() {
    let mut edid = vec![0u8; 128];
    edid[54] = 0x12;
    edid[54 + 3] = 0xFC;
    let block2 = 72;
    edid[block2 + 3] = 0xFC;
    edid[block2 + 5..block2 + 5 + 6].copy_from_slice(b"REAL27");
    edid[block2 + 5 + 6] = 0x0A;
    assert_eq!(parse_edid_product_name(&edid).as_deref(), Some("REAL27"));
}

#[test]
fn trims_trailing_padding() {
    let edid = edid_with_name(0, "BENQ  ");
    assert_eq!(parse_edid_product_name(&edid).as_deref(), Some("BENQ"));
}

#[test]
fn edid_name_uses_all_thirteen_bytes_without_terminator() {
    let edid = edid_with_name(3, "ABCDEFGHIJKLMNOP");
    assert_eq!(parse_edid_product_name(&edid).as_deref(), Some("ABCDEFGHIJKLM"));
}

#[test]
fn backlight_percent_rounds_down() {
    assert_eq!(backlight_percent(0, 100), Some(0));
    assert_eq!(backlight_percent(1, 3), Some(33));
    assert_eq!(backlight_percent(96000, 96000), Some(100));
    assert_eq!(backlight_percent(5, 0), None);
}

#[test]
fn ddc_percent_and_write_value() {
    assert_eq!(ddc_percent(50, 100), Some(50));
    assert_eq!(ddc_percent(30, 60), Some(50));
    assert_eq!(ddc_percent(7, 0), None);
    assert_eq!(ddc_write_value(-5), 0);
    assert_eq!(ddc_write_value(42), 42);
    assert_eq!(ddc_write_value(250), 100);
    assert_eq!(clamp_percent(101), 100);
    assert_eq!(clamp_percent(7), 7);
}

#[test]
fn sysfs_numbers_are_trimmed() {
    assert_eq!(u32_from_text("  255\n"), Some(255));
    assert_eq!(u32_from_text("abc"), None);
    assert_eq!(u32_from_text(""), None);
}

#[test]
fn i2c_dev_path_needs_i2c_prefix() {
    assert_eq!(i2c_dev_path("i2c-7"), Some("/dev/i2c-7".to_string()));
    assert_eq!(i2c_dev_path("spi-1"), None);
}

fn cand(path: &str, connector: &str, model: &str, id: Option<u32>) -> DdcCandidate {
    DdcCandidate {
        path: path.to_string(),
        connector: connector.to_string(),
        model: model.to_string(),
        display_id: id,
    }
}

#[test]
fn finish_displays_labels_and_sorts_by_connector() {
    let ds = finish_displays(vec![
        cand("/dev/i2c-5", "HDMI-A-1", "", Some(2)),
        cand("/dev/i2c-3", "DP-2", "Dell U2720Q", Some(1)),
    ]);
    let connectors: Vec<&str> = ds.iter().map(|d| d.connector.as_str()).collect();
    assert_eq!(connectors, vec!["DP-2", "HDMI-A-1"]);
    assert_eq!(ds[0].model, "Dell U2720Q");
    assert_eq!(ds[1].model, "HDMI-A-1");
    assert_eq!(find_display(&ds, 2), Some(1));
    assert_eq!(find_display(&ds, 9), None);
    assert_eq!(label_for(&ds, 1).as_deref(), Some("Dell U2720Q (DP-2)"));
    assert_eq!(label_for(&ds, 2).as_deref(), Some("HDMI-A-1"));
    assert_eq!(label_for(&ds, 3), None);
}

#[test]
fn source_polls_and_displays() {
    let bl = BrightnessSource::Backlight { device: "intel_backlight".to_string(), max_brightness: 96000 };
    assert_eq!(poll_interval_secs(&bl), 5);
    assert!(source_displays(&bl).is_empty());
    let d = DdciDisplay {
        path: "/dev/i2c-1".to_string(),
        connector: "DP-1".to_string(),
        model: "X".to_string(),
        display_id: None,
    };
    let ddc = BrightnessSource::Ddci2c { displays: vec![d] };
    assert_eq!(poll_interval_secs(&ddc), 10);
    assert_eq!(source_displays(&ddc).len(), 1);
    assert_eq!(poll_interval_secs(&BrightnessSource::NoSource), 60);
}

#[test]
fn brightness_icon_buckets() {
    assert_eq!(brightness_icon(30), "\u{f00de}");
    assert_eq!(brightness_icon(31), "\u{f00df}");
    assert_eq!(brightness_icon(70), "\u{f00df}");
    assert_eq!(brightness_icon(71), "\u{f00e0}");
}

fn display(path: &str, connector: &str, model: &str, id: Option<u32>) -> DdciDisplay {
    DdciDisplay { path: path.to_string(), connector: connector.to_string(), model: model.to_string(), display_id: id }
}

#[test]
fn brightness_module_levels_per_display() {
    let ds = vec![
        display("/dev/i2c-3", "DP-2", "Dell", Some(1)),
        display("/dev/i2c-5", "HDMI-A-1", "HDMI-A-1", Some(2)),
    ];
    let mut m = BrightnessModule::from_readings(BrightnessSource::Ddci2c { displays: ds }, None, &vec![None, Some((20, 50))]);
    assert_eq!(m.percent(), Some(40));
    assert_eq!(m.percent_for(2), Some(40));
    assert_eq!(m.percent_for(1), None);
    assert!(!m.record_percent("/dev/i2c-5", 40));
    assert!(!m.record_percent("/dev/i2c-9", 10));
    assert!(m.record_percent("/dev/i2c-3", 70));
    assert_eq!(m.percent(), Some(70));
    assert_eq!(m.percent_for(9), None);
    assert_eq!(m.label_for(1).as_deref(), Some("Dell (DP-2)"));
    assert_eq!(m.displays().len(), 2);
    assert_eq!(m.write_paths(None), vec!["/dev/i2c-3", "/dev/i2c-5"]);
    assert_eq!(m.write_paths(Some(2)), vec!["/dev/i2c-5"]);
    assert!(m.write_paths(Some(7)).is_empty());
    assert_eq!(m.take_pending("/dev/i2c-3"), None);
    assert_eq!(m.request(Some(2), 150), vec!["/dev/i2c-5"]);
    assert_eq!(m.take_pending("/dev/i2c-5"), Some(100));
    assert_eq!(m.take_pending("/dev/i2c-5"), None);
    assert_eq!(m.request(None, 30), vec!["/dev/i2c-3", "/dev/i2c-5"]);
    assert_eq!(m.take_pending("/dev/i2c-3"), Some(30));
    assert_eq!(m.percent(), Some(70));
}

#[test]
fn brightness_module_starts_empty_when_nothing_reads() {
    let ds = vec![display("/dev/i2c-3", "DP-2", "Dell", Some(1))];
    let m = BrightnessModule::from_readings(BrightnessSource::Ddci2c { displays: ds }, None, &vec![Some((5, 0))]);
    assert_eq!(m.percent(), None);
}

#[test]
fn brightness_module_backlight() {
    let src = BrightnessSource::Backlight { device: "intel".to_string(), max_brightness: 200 };
    let mut m = BrightnessModule::from_readings(src, Some(50), &Vec::new());
    assert_eq!(m.percent(), Some(25));
    m.request(None, 55);
    assert_eq!(m.percent(), Some(55));
    assert!(!m.record_percent("/dev/i2c-1", 10));
    assert_eq!(m.percent_for(1), None);
    assert_eq!(m.label_for(1), None);
    assert!(m.displays().is_empty());
    assert!(m.write_paths(None).is_empty());
    let unread = BrightnessModule::from_readings(
        BrightnessSource::Backlight { device: "intel".to_string(), max_brightness: 200 },
        None,
        &Vec::new(),
    );
    assert_eq!(unread.percent(), None);
    let none = BrightnessModule::from_readings(BrightnessSource::NoSource, None, &Vec::new());
    assert_eq!(none.percent(), None);
}

#[test]
fn source_choice_prefers_backlight_then_monitors() {
    let s = choose_source(Some(("intel".to_string(), 100)), vec![cand("/dev/i2c-1", "DP-1", "", None)]);
    assert!(matches!(s, BrightnessSource::Backlight { ref device, max_brightness: 100 } if device == "intel"));
    let s = choose_source(Some(("intel".to_string(), 0)), vec![cand("/dev/i2c-1", "DP-1", "", None)]);
    assert!(matches!(s, BrightnessSource::Ddci2c { ref displays } if displays.len() == 1 && displays[0].model == "DP-1"));
    assert!(matches!(choose_source(None, Vec::new()), BrightnessSource::NoSource));
}
