use periph_core::payload::{is_whitespace_char, parse_hex_pair, parse_radix16};
use periph_core::text::hex_encode;
use periph_core::{parse_hex, PeriphError};

#[test]
fn parse_hex_accepts_separators() {
    let value = parse_hex("48 65:6c-6c_6f").expect("hex should parse");
    assert_eq!(value, b"Hello");
}

#[test]
fn parse_hex_rejects_odd_digits() {
    let err = parse_hex("abc").expect_err("should reject odd digits");
    assert!(err
        .message()
        .contains("hex payload must have an even number of digits"));
}

#[test]
fn write_hex_rejects_odd_length_input() {
    let err = parse_hex("abc").expect_err("should reject odd digits");
    assert!(
        err.message().contains("hex payload must have an even number of digits"),
        "message: {}",
        err.message()
    );
}

#[test]
fn empty_payload_is_no_bytes() {
    assert_eq!(parse_hex("").unwrap(), Vec::<u8>::new());
    assert_eq!(parse_hex(" :-_\t\n\u{3000}").unwrap(), Vec::<u8>::new());
}

#[test]
fn mixed_case_and_plus_pairs() {
    assert_eq!(parse_hex("FfAa00").unwrap(), vec![0xff, 0xaa, 0x00]);
    assert_eq!(parse_hex("+a").unwrap(), vec![0x0a]);
}

fn message(r: Result<Vec<u8>, PeriphError>) -> String {
    match r {
        Err(PeriphError::InvalidInput(m)) => m,
        other => panic!("unexpected {other:?}"),
    }
}

#[test]
fn invalid_pairs_are_reported() {
    assert_eq!(message(parse_hex("12zz")), "invalid hex byte: zz");
    assert_eq!(message(parse_hex("x1")), "invalid hex byte: x1");
    assert_eq!(message(parse_hex("+-+")), "invalid hex byte: ++");
    assert_eq!(message(parse_hex("é")), "invalid hex byte: é");
    assert_eq!(message(parse_hex("1é1")), "incomplete utf-8 byte sequence from index 1");
    assert_eq!(message(parse_hex("11é€1")), "invalid hex byte: é");
    assert_eq!(message(parse_hex("11€1")), "incomplete utf-8 byte sequence from index 0");
    assert_eq!(message(parse_hex("€é1")), "incomplete utf-8 byte sequence from index 0");
}

fn std_pair(b0: u8, b1: u8) -> Result<u8, String> {
    let bytes = [b0, b1];
    match std::str::from_utf8(&bytes) {
        Ok(s) => u8::from_str_radix(s, 16).map_err(|_| format!("invalid hex byte: {s}")),
        Err(e) => Err(e.to_string()),
    }
}

#[test]
fn every_byte_pair_decodes_as_std_does() {
    for b0 in 0..=255u8 {
        for b1 in 0..=255u8 {
            let ours = match parse_hex_pair(b0, b1) {
                Ok(v) => Ok(v),
                Err(PeriphError::InvalidInput(m)) => Err(m),
                Err(other) => panic!("unexpected {other:?}"),
            };
            assert_eq!(ours, std_pair(b0, b1), "pair {b0:#x} {b1:#x}");
        }
    }
}

#[test]
fn whitespace_matches_std() {
    for c in (0u32..=0x10ffff).filter_map(char::from_u32) {
        assert_eq!(is_whitespace_char(c), c.is_whitespace(), "char {:#x}", c as u32);
    }
}

#[test]
fn radix_parsing_matches_std() {
    for s in ["", "+", "0", "+f", "ff", "100", "FFFF", "10000", "-1", " 1", "1 ", "+-1", "0000000000ff"] {
        assert_eq!(parse_radix16(s, 0xffff), u16::from_str_radix(s, 16).ok().map(u32::from), "{s:?}");
        assert_eq!(parse_radix16(s, 0xff), u8::from_str_radix(s, 16).ok().map(u32::from), "{s:?}");
    }
}

#[test]
fn hex_round_trip() {
    let data: Vec<u8> = (0..=255u8).collect();
    let text = hex_encode(&data);
    assert_eq!(text.len(), 512);
    assert_eq!(&text[..8], "00010203");
    assert_eq!(parse_hex(&text).unwrap(), data);
    assert_eq!(parse_hex(&text.to_ascii_uppercase()).unwrap(), data);
}
