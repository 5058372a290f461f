use work_tracker::probe::{parse_and_trim, parse_pid, parse_resolution, parse_unsigned};

#[test]
fn trims_trailing_line_breaks_only() {
    assert_eq!(parse_and_trim(b"firefox\n".to_vec()), Some("firefox".to_string()));
    assert_eq!(parse_and_trim(b"a b\r\n\n\r".to_vec()), Some("a b".to_string()));
    assert_eq!(parse_and_trim(b"\nmid\nend ".to_vec()), Some("\nmid\nend ".to_string()));
    assert_eq!(parse_and_trim(Vec::new()), Some(String::new()));
    assert_eq!(parse_and_trim(b"\r\n".to_vec()), Some(String::new()));
}

#[test]
fn decodes_multibyte_text() {
    assert_eq!(parse_and_trim("caf\u{e9} \u{2014} doc\n".as_bytes().to_vec()), Some("caf\u{e9} \u{2014} doc".to_string()));
}

#[test]
fn invalid_utf8_is_rejected() {
    assert_eq!(parse_and_trim(vec![0x66, 0xff, 0x0a]), None);
    assert_eq!(parse_pid(vec![0xc3]), None);
}

#[test]
fn reads_process_ids() {
    assert_eq!(parse_pid(b"3783\n".to_vec()), Some(3783));
    assert_eq!(parse_pid(b"18446744073709551615\n".to_vec()), Some(u64::MAX));
    assert_eq!(parse_pid(b"18446744073709551616\n".to_vec()), None);
    assert_eq!(parse_pid(b"no window\n".to_vec()), None);
    assert_eq!(parse_pid(b"\n".to_vec()), None);
    assert_eq!(parse_pid(b" 12\n".to_vec()), None);
}

#[test]
fn unsigned_numerals() {
    assert_eq!(parse_unsigned("+42"), Some(42));
    assert_eq!(parse_unsigned("007"), Some(7));
    assert_eq!(parse_unsigned("+"), None);
    assert_eq!(parse_unsigned("-1"), None);
    assert_eq!(parse_unsigned("1a"), None);
    assert_eq!(parse_unsigned("99999999999999999999x"), None);
}

#[test]
fn resolution_must_be_positive() {
    assert_eq!(parse_resolution("5"), Some(5));
    assert_eq!(parse_resolution("0"), None);
    assert_eq!(parse_resolution("-5"), None);
    assert_eq!(parse_resolution("five"), None);
    assert_eq!(parse_resolution(""), None);
}
