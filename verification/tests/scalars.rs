use pdstext::date::{parse_date, GameDate};
use pdstext::scalar::{parse_bool, parse_i64, parse_u64, decode_utf8, decode_windows1252,
    float_repr, push_i64_dec, push_u64_dec};

fn b(s: &str) -> Vec<u8> {
    s.as_bytes().to_vec()
}

#[test]
fn bool_literals() {
    assert_eq!(parse_bool(b"yes"), Some(true));
    assert_eq!(parse_bool(b"no"), Some(false));
    assert_eq!(parse_bool(b"Yes"), None);
    assert_eq!(parse_bool(b"true"), None);
    assert_eq!(parse_bool(b""), None);
}

#[test]
fn unsigned_decimal() {
    assert_eq!(parse_u64(b"0"), Some(0));
    assert_eq!(parse_u64(b"45"), Some(45));
    assert_eq!(parse_u64(b"+45"), Some(45));
    assert_eq!(parse_u64(b"20405029553322"), Some(20405029553322));
    assert_eq!(parse_u64(b"18446744073709551615"), Some(u64::MAX));
    assert_eq!(parse_u64(b"18446744073709551616"), None);
    assert_eq!(parse_u64(b"888888888888888888888888888888888"), None);
    assert_eq!(parse_u64(b"-1"), None);
    assert_eq!(parse_u64(b"1.5"), None);
    assert_eq!(parse_u64(b""), None);
}

#[test]
fn signed_decimal() {
    assert_eq!(parse_i64(b"0"), Some(0));
    assert_eq!(parse_i64(b"-1"), Some(-1));
    assert_eq!(parse_i64(b"+1"), Some(1));
    assert_eq!(parse_i64(b"-20405029"), Some(-20405029));
    assert_eq!(parse_i64(b"9223372036854775807"), Some(i64::MAX));
    assert_eq!(parse_i64(b"9223372036854775808"), None);
    assert_eq!(parse_i64(b"-9223372036854775809"), None);
    assert_eq!(parse_i64(b"12a"), None);
}

#[test]
fn date_with_three_components() {
    // the literal month is 1-based; the stored month is 0-based
    let d = parse_date(b"1444.11.11").unwrap();
    assert_eq!(
        d,
        GameDate { year: 1444, month0: 10, day: 11, hour0: None }
    );
}

#[test]
fn date_with_hour_component() {
    let d = parse_date(b"1444.11.11.24").unwrap();
    assert_eq!(d.year, 1444);
    assert_eq!(d.month0, 10);
    assert_eq!(d.day, 11);
    assert!(d.hour0.is_some());
    assert_eq!(d.hour0, Some(23));
}

#[test]
fn date_rejections() {
    assert_eq!(parse_date(b"1444"), None);
    assert_eq!(parse_date(b"1444.13.11"), None);
    assert_eq!(parse_date(b"1444.0.1"), None);
    assert_eq!(parse_date(b"1444.1.32"), None);
    assert_eq!(parse_date(b"1444.1.1.0"), None);
    assert_eq!(parse_date(b"1444.1.1.05"), None);
    assert_eq!(parse_date(b"1444.1.1.25"), None);
    assert_eq!(parse_date(b"1444.011.11"), None);
    assert_eq!(parse_date(b"1444.11.11x"), None);
    assert_eq!(parse_date(b"abc"), None);
}

#[test]
fn date_negative_year() {
    let d = parse_date(b"-5.1.2").unwrap();
    assert_eq!(d.year, -5);
    assert_eq!(d.month0, 0);
    assert_eq!(d.day, 2);
}

#[test]
fn decimal_formatting() {
    let mut out = Vec::new();
    push_u64_dec(&mut out, 0);
    out.push(b' ');
    push_u64_dec(&mut out, 1000000000000);
    out.push(b' ');
    push_i64_dec(&mut out, -3);
    assert_eq!(out, b"0 1000000000000 -3".to_vec());
}

#[test]
fn windows1252_decoding_maps_high_bytes() {
    // 0xE9 is e-acute in the legacy code page; UTF-8 re-encodes it
    assert_eq!(decode_windows1252(&[0x63, 0x61, 0x66, 0xE9]), b(
        "caf\u{e9}"
    ));
    // plain ascii passes through
    assert_eq!(decode_windows1252(b"Common Sense"), b("Common Sense"));
}

#[test]
fn decoding_removes_escapes_and_trailing_whitespace() {
    assert_eq!(
        decode_windows1252(br#"Captain \"Joe\" Rogers"#),
        b(r#"Captain "Joe" Rogers"#)
    );
    assert_eq!(decode_utf8(b"1444.11.11\n"), b("1444.11.11"));
    assert_eq!(decode_utf8("Jåhkåmåhkke".as_bytes()), b("Jåhkåmåhkke"));
}

#[test]
fn float_round_trip_check() {
    assert_eq!(float_repr(b"1.5"), Some(b("1.5")));
    assert_eq!(float_repr(b"1.000"), Some(b("1.0")));
    assert_eq!(float_repr(b"-0.504"), Some(b("-0.504")));
    // a 17-digit integer is not exactly representable in 64-bit floats
    assert_eq!(float_repr(b"90071992547409097"), None);
    assert_eq!(float_repr(b"abc"), None);
    assert_eq!(float_repr(b"1.8.3"), None);
}
