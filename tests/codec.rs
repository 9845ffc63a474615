use sandbox_exec::{decode, encode, unescape_str, ParseError};

#[test]
fn decode_plain_bytes_pass_through() {
    assert_eq!(decode(b"/usr/local-1.2_x"), Ok(b"/usr/local-1.2_x".to_vec()));
}

#[test]
fn decode_empty() {
    assert_eq!(decode(b""), Ok(Vec::new()));
}

#[test]
fn decode_escapes_either_case() {
    assert_eq!(decode(b"\\x2f\\x74\\x6D\\x70"), Ok(b"/tmp".to_vec()));
    assert_eq!(decode(b"a\\x3Ab\\x2cc"), Ok(b"a:b,c".to_vec()));
    assert_eq!(decode(b"\\xff"), Ok(vec![0xff]));
}

#[test]
fn decode_rejects_raw_reserved_byte() {
    assert_eq!(decode(b"/tmp dir"), Err(ParseError::InvalidByte(b' ')));
    assert_eq!(decode(b"a:b"), Err(ParseError::InvalidByte(b':')));
}

#[test]
fn decode_rejects_bad_escape_marker() {
    assert_eq!(decode(b"\\y41"), Err(ParseError::InvalidEscapeByte(b'y')));
}

#[test]
fn decode_rejects_bad_hex_digit() {
    assert_eq!(decode(b"\\x4g"), Err(ParseError::InvalidEscapeByte(b'g')));
    assert_eq!(decode(b"\\xz1"), Err(ParseError::InvalidEscapeByte(b'z')));
}

#[test]
fn decode_rejects_truncated_escape() {
    assert_eq!(decode(b"ab\\x4"), Err(ParseError::IncompleteEscape));
    assert_eq!(decode(b"\\"), Err(ParseError::IncompleteEscape));
    assert_eq!(decode(b"\\q"), Err(ParseError::IncompleteEscape));
}

#[test]
fn decode_keeps_byte_after_escape() {
    assert_eq!(decode(b"\\x41b"), Ok(b"Ab".to_vec()));
}

#[test]
fn unescape_gives_text() {
    assert_eq!(unescape_str(b"\\xc3\\xa9t\\xc3\\xa9"), Ok("été".to_string()));
}

#[test]
fn unescape_rejects_invalid_utf8() {
    assert_eq!(unescape_str(b"\\xff"), Err(ParseError::InvalidUtf8));
    assert_eq!(unescape_str(b"\\xc3"), Err(ParseError::InvalidUtf8));
}

#[test]
fn encode_escapes_reserved_bytes() {
    assert_eq!(encode(b"/tmp/a b\"(x)"), "/tmp/a b\\x22\\x28x\\x29");
    assert_eq!(encode(&[0x00, 0xff, b'\\']), "\\x00\\xff\\x5c");
}

#[test]
fn encode_empty() {
    assert_eq!(encode(b""), "");
}

#[test]
fn decode_of_encode_round_trips() {
    let inputs: Vec<Vec<u8>> = vec![
        b"\"()\\:,;'".to_vec(),
        (0u8..=255).filter(|b| *b != b' ').collect(),
        b"/plain/path".to_vec(),
    ];
    for b in inputs {
        let e = encode(&b);
        assert_eq!(decode(e.as_bytes()), Ok(b));
    }
}

#[test]
fn encoded_text_has_no_quote_or_paren() {
    let all: Vec<u8> = (0u8..=255).collect();
    let e = encode(&all);
    assert!(!e.contains('"'));
    assert!(!e.contains('('));
    assert!(!e.contains(')'));
}
