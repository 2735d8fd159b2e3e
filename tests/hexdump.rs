use envvar::hexdump::hex_dump;

const HEAD: &str = "     | +0 +1 +2 +3 +4 +5 +6 +7  +8 +9 +A +B +C +D +E +F | 0123456789ABCDEF\n-----+--------------------------------------------------+-----------------";

#[test]
fn empty_dump_is_the_heading() {
    assert_eq!(hex_dump(&vec![]), format!("{}\n", HEAD));
}

#[test]
fn partial_row_is_padded() {
    assert_eq!(
        hex_dump(&b"Hi there".to_vec()),
        format!("{}\n0000 | 48 69 20 74 68 65 72 65                          | Hi.there\n", HEAD)
    );
}

#[test]
fn full_row_has_gap_and_characters() {
    let bytes: Vec<u8> = (0x20u8..0x30).collect();
    assert_eq!(
        hex_dump(&bytes),
        format!(
            "{}\n0000 | 20 21 22 23 24 25 26 27  28 29 2A 2B 2C 2D 2E 2F | .!\"#$%&'()*+,-./\n",
            HEAD
        )
    );
}

#[test]
fn second_row_has_its_offset() {
    assert_eq!(
        hex_dump(&b"0123456789abcdefXYZ \x7f".to_vec()),
        format!(
            "{}\n0000 | 30 31 32 33 34 35 36 37  38 39 61 62 63 64 65 66 | 0123456789abcdef\n0010 | 58 59 5A 20 7F                                   | XYZ..\n",
            HEAD
        )
    );
}

#[test]
fn large_offsets_use_more_digits() {
    let bytes = vec![0u8; 0x10010];
    let text = hex_dump(&bytes);
    assert!(text.contains("\nFFF0 | 00"));
    assert!(text.contains("\n10000 | 00"));
}
