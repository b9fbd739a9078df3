use pdstext::scalar::{Narrowing, TextEncoding};
use pdstext::session::{parse_text, skip_header, Query};
use pdstext::value::Value;

fn doc(text: &str) -> Query {
    parse_text(text.as_bytes().to_vec(), TextEncoding::Utf8, Narrowing::All).unwrap()
}

#[test]
fn query_nested_key() {
    let q = doc("a={b=5}");
    assert_eq!(q.at(b"/a/b"), Some(Value::I64(5)));
}

#[test]
fn query_missing_key_is_undefined() {
    let q = doc("a={b=5}");
    assert_eq!(q.at(b"/a/c"), None);
}

#[test]
fn query_duplicate_top_level_key_collects_all() {
    let q = doc("a=1 a=2");
    assert_eq!(
        q.at(b"/a"),
        Some(Value::Arr(vec![Value::I64(1), Value::I64(2)]))
    );
}

#[test]
fn query_empty_path_is_undefined() {
    let q = doc("a=1");
    assert_eq!(q.at(b""), None);
}

#[test]
fn query_without_leading_slash_drops_first_segment() {
    let q = doc("a={b=5}");
    assert_eq!(q.at(b"ignored/b"), None);
    let q2 = doc("b=7");
    assert_eq!(q2.at(b"ignored/b"), Some(Value::I64(7)));
}

#[test]
fn query_single_match_returns_value() {
    let q = doc("player=FRA countries={ENG={prestige=10}}");
    assert_eq!(q.at(b"/player"), Some(Value::Str(b"FRA".to_vec())));
    assert_eq!(q.at(b"/countries/ENG/prestige"), Some(Value::I64(10)));
}

#[test]
fn query_into_non_container_is_undefined() {
    let q = doc("a=1");
    assert_eq!(q.at(b"/a/b"), None);
}

#[test]
fn query_value_keeps_operator_wrapping() {
    let q = doc("a < 3");
    assert_eq!(
        q.at(b"/a"),
        Some(Value::Obj(vec![(b"LESS_THAN".to_vec(), Value::I64(3))]))
    );
}

#[test]
fn header_skip_keeps_text_with_leading_equals() {
    assert_eq!(skip_header(b"a=1"), b"a=1".to_vec());
}

#[test]
fn header_skip_drops_binary_prefix() {
    // a control byte before any `=` starts the body there
    assert_eq!(skip_header(b"JUNK\nb=1"), b"\nb=1".to_vec());
    // an `=` before any control byte keeps everything
    assert_eq!(skip_header(b"a=1\nb=2"), b"a=1\nb=2".to_vec());
}

#[test]
fn parse_text_reports_tokenizer_failure() {
    let r = parse_text(b"a={".to_vec(), TextEncoding::Utf8, Narrowing::All);
    match r {
        Err(msg) => assert!(!msg.is_empty()),
        Ok(_) => panic!("malformed document parsed"),
    }
}

#[test]
fn query_root_slash_only_is_undefined() {
    let q = doc("a=1");
    assert_eq!(q.at(b"/"), None);
}

#[test]
fn duplicate_operator_qualified_values_group() {
    let q = doc("a<1 a<2");
    assert_eq!(
        q.at(b"/a"),
        Some(Value::Arr(vec![
            Value::Obj(vec![(b"LESS_THAN".to_vec(), Value::I64(1))]),
            Value::Obj(vec![(b"LESS_THAN".to_vec(), Value::I64(2))]),
        ]))
    );
}
