use blogview::level::Level;
use blogview::value_kind::{predefined_key_name_of, string, Kind, ValueKind};

#[test]
fn level_codes_roundtrip() {
    for code in [10u8, 20, 30, 40, 50, 60] {
        assert_eq!(Level::from_code(code).code(), code);
    }
    assert_eq!(Level::from_code(30), Level::Info);
    assert_eq!(Level::from_code(3), Level::Invalid(3));
    assert_eq!(Level::from_code(30).to_text(), " INFO");
}

#[test]
fn value_kind_codes_roundtrip() {
    for code in 1u8..=40 {
        let k = ValueKind::from_code(code).unwrap();
        assert_eq!(k.code(), code);
    }
    assert_eq!(ValueKind::from_code(0), None);
    assert_eq!(ValueKind::from_code(41), None);
    assert_eq!(string(ValueKind::String), Kind(ValueKind::String).to_text());
}

#[test]
fn predefined_key_numbers() {
    assert_eq!(predefined_key_name_of(0), "!invalid-predefined-key");
    assert_eq!(predefined_key_name_of(255), "!invalid-predefined-key");
    assert_eq!(predefined_key_name_of(256), "@location");
    assert_eq!(predefined_key_name_of(0x200), "@context");
    assert_eq!(predefined_key_name_of(0x300), "@text");
    assert_eq!(predefined_key_name_of(0x400), "!unknown-predefined-key");
}

#[test]
fn value_kind_names_are_distinct() {
    let mut names: Vec<String> = Vec::new();
    for code in 0u8..=255 {
        if let Some(k) = ValueKind::from_code(code) {
            names.push(string(k));
        }
    }
    assert_eq!(names.len(), 40);
    let mut sorted = names.clone();
    sorted.sort();
    sorted.dedup();
    assert_eq!(sorted.len(), names.len());
}
