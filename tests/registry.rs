use envvar::registry::{bytes_to_units, units_to_bytes, EnvironmentRegistry};

#[test]
fn text_to_units_has_terminating_null() {
    let _r = EnvironmentRegistry::new();
    assert_eq!(EnvironmentRegistry::string_to_u16vec(&"Ab".to_string()), vec![0x41, 0x62, 0]);
    assert_eq!(EnvironmentRegistry::string_to_u16vec(&"".to_string()), vec![0]);
    assert_eq!(
        EnvironmentRegistry::string_to_u16vec(&"é😀".to_string()),
        vec![0x00E9, 0xD83D, 0xDE00, 0]
    );
}

#[test]
fn text_to_bytes_low_byte_first() {
    assert_eq!(
        EnvironmentRegistry::string_to_u8vec(&"A€".to_string()),
        vec![0x41, 0x00, 0xAC, 0x20, 0x00, 0x00]
    );
}

#[test]
fn bytes_to_text() {
    assert_eq!(EnvironmentRegistry::u8vec_to_string(&vec![0x41, 0x00, 0xAC, 0x20]), "A€");
    assert_eq!(EnvironmentRegistry::u8vec_to_string(&vec![0x3D, 0xD8]), "\u{FFFD}");
    assert_eq!(EnvironmentRegistry::u8vec_to_string(&vec![0x41, 0x00, 0x42]), "AB");
    assert_eq!(EnvironmentRegistry::u8vec_to_string(&vec![]), "");
}

#[test]
fn units_and_bytes() {
    assert_eq!(units_to_bytes(&vec![0x1234, 0x00FF]), vec![0x34, 0x12, 0xFF, 0x00]);
    assert_eq!(bytes_to_units(&vec![0x34, 0x12, 0xFF]), vec![0x1234, 0x00FF]);
    assert_eq!(bytes_to_units(&vec![]), Vec::<u16>::new());
}

#[test]
fn text_round_trips_through_bytes() {
    let s = "C:\\Users\\me;%PATH%;ünï".to_string();
    let mut bytes = EnvironmentRegistry::string_to_u8vec(&s);
    bytes.truncate(bytes.len() - 2);
    assert_eq!(EnvironmentRegistry::u8vec_to_string(&bytes), s);
}
