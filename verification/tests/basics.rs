use railweave::decode::{decode_chars, decode_text};
use railweave::keymap::KeyMap;
use railweave::model::{max_entity_id, ImportError, SourceFormat};
use railweave::text::split_on;

#[test]
fn text_decodes_by_byte_order_mark() {
    assert_eq!(decode_text(b"plain"), "plain");
    assert_eq!(decode_text(&[0xff, 0xfe, b'h', 0, b'i', 0, b'!']), "hi");
    assert_eq!(decode_text(&[0xfe, 0xff, 0, b'o', 0, b'k']), "ok");
    assert_eq!(decode_text(&[b'a', 0xff, b'b']), "a\u{fffd}b");
    assert_eq!(decode_chars(&[0xff, 0xfe, 0x3d, 0xd8]), vec!['\u{fffd}']);
    assert_eq!(decode_text(&[0xff, 0xfe, 0x3d, 0xd8, 0x00, 0xde, 0x3d, 0xd8, b'A', 0]), "\u{1F600}\u{fffd}A");
    assert_eq!(decode_text(&[0xfe, 0xff, 0xdc, 0x00, 0, b'z', 0]), "\u{fffd}z");
}

#[test]
fn formats_have_display_names() {
    assert_eq!(SourceFormat::MstsOpenRails.label(), "MSTS/OpenRails");
    assert_eq!(SourceFormat::RailWorks.to_string(), "Train Simulator / RailWorks");
    assert_eq!(SourceFormat::Unknown.label(), "unknown");
}

#[test]
fn import_errors_display_code_and_message() {
    let e = ImportError::new("RW001_PATH_NOT_FOUND", "path does not exist: x".to_string());
    assert_eq!(e.to_message(), "RW001_PATH_NOT_FOUND: path does not exist: x");
}

#[test]
fn largest_entity_id_or_zero() {
    assert_eq!(max_entity_id(&[3, 9, 4]), 9);
    assert_eq!(max_entity_id(&[]), 0);
}

#[test]
fn key_maps_keep_keys_in_order_and_replace_values() {
    let mut m: KeyMap<u32> = KeyMap::new();
    assert_eq!(m.insert("b".to_string(), 1), None);
    assert_eq!(m.insert("a".to_string(), 2), None);
    assert_eq!(m.insert("b".to_string(), 3), Some(1));
    assert_eq!(m.len(), 2);
    assert_eq!(m.key_at(0), "a");
    assert_eq!(*m.value_at(1), 3);
    assert_eq!(m.get("b"), Some(&3));
    assert_eq!(m.get("c"), None);
}

#[test]
fn split_keeps_empty_fields() {
    let f: Vec<String> = split_on(&"a::b:".chars().collect::<Vec<_>>(), ':')
        .into_iter()
        .map(|v| v.into_iter().collect())
        .collect();
    assert_eq!(f, vec!["a", "", "b", ""]);
}
