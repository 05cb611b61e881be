use zskins::clipd::{decode_utf16_if_likely, plan_import};

fn utf16le(s: &str) -> Vec<u8> {
    s.encode_utf16().flat_map(|u| u.to_le_bytes()).collect()
}

#[test]
fn decodes_utf16le_with_bom() {
    let mut b = vec![0xFF, 0xFE];
    b.extend(utf16le("héllo"));
    assert_eq!(decode_utf16_if_likely(&b), Some("héllo".to_string()));
}

#[test]
fn decodes_ascii_heavy_utf16le_without_bom() {
    let b = utf16le("clipboard text");
    assert_eq!(decode_utf16_if_likely(&b), Some("clipboard text".to_string()));
}

#[test]
fn trailing_nuls_are_dropped() {
    let b = utf16le("abc\0\0");
    assert_eq!(decode_utf16_if_likely(&b), Some("abc".to_string()));
}

#[test]
fn plain_utf8_is_not_utf16() {
    assert_eq!(decode_utf16_if_likely(b"hello world!"), None);
    assert_eq!(decode_utf16_if_likely(b"abc"), None);
    assert_eq!(decode_utf16_if_likely(b"ab"), None);
    assert_eq!(decode_utf16_if_likely(&utf16le("odd")[..5]), None);
}

#[test]
fn unpaired_surrogate_does_not_decode() {
    let b = vec![0xFF, 0xFE, 0x00, 0xD8, 0x41, 0x00];
    assert_eq!(decode_utf16_if_likely(&b), None);
}

#[test]
fn plan_import_oldest_first_skipping_empty() {
    let utf16: String = String::from_utf8(utf16le("ab")).unwrap();
    let items = vec!["newest".to_string(), String::new(), utf16, "oldest".to_string()];
    let result = plan_import(&items);
    assert_eq!(result.converted, 1);
    let plan = result.entries;
    assert_eq!(plan.len(), 3);
    assert_eq!(plan[0].bytes, b"oldest".to_vec());
    assert_eq!(plan[0].offset, 0);
    assert!(!plan[0].converted);
    assert_eq!(plan[1].bytes, b"ab".to_vec());
    assert_eq!(plan[1].offset, 1);
    assert!(plan[1].converted);
    assert_eq!(plan[2].bytes, b"newest".to_vec());
    assert_eq!(plan[2].offset, 3);
}

#[test]
fn plan_import_drops_items_decoding_to_nothing() {
    let nuls: String = String::from_utf8(vec![0, 0, 0, 0]).unwrap();
    let items = vec![nuls, "x".to_string()];
    let result = plan_import(&items);
    assert_eq!(result.converted, 1);
    let plan = result.entries;
    assert_eq!(plan.len(), 1);
    assert_eq!(plan[0].bytes, b"x".to_vec());
    assert_eq!(plan[0].offset, 0);
}
