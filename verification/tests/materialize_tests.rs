use pdstext::date::GameDate;
use pdstext::materialize::{build_value, materialize};
use pdstext::scalar::{Narrowing, TextEncoding};
use pdstext::session::parse_text;
use pdstext::token::Token;
use pdstext::value::Value;

fn b(s: &str) -> Vec<u8> {
    s.as_bytes().to_vec()
}

fn doc(text: &str) -> pdstext::session::Query {
    parse_text(text.as_bytes().to_vec(), TextEncoding::Utf8, Narrowing::All).unwrap()
}

fn obj(entries: Vec<(&str, Value)>) -> Value {
    Value::Obj(entries.into_iter().map(|(k, v)| (k.as_bytes().to_vec(), v)).collect())
}

#[test]
fn scalar_fields_coerce() {
    let root = doc("a=1 b=yes c=no d=bar e=-3 f=1.5").root();
    assert_eq!(
        root,
        obj(vec![
            ("a", Value::I64(1)),
            ("b", Value::Bool(true)),
            ("c", Value::Bool(false)),
            ("d", Value::Str(b("bar"))),
            ("e", Value::I64(-3)),
            ("f", Value::F64(b("1.5"))),
        ])
    );
}

#[test]
fn date_fields_materialize() {
    let root = doc("start=1444.11.11").root();
    assert_eq!(
        root,
        obj(vec![(
            "start",
            Value::Date(GameDate { year: 1444, month0: 10, day: 11, hour0: None })
        )])
    );
}

#[test]
fn empty_container_is_keyed_structure() {
    // an empty container renders as an object, never as an empty array
    let root = doc("a={}").root();
    assert_eq!(root, obj(vec![("a", Value::Obj(Vec::new()))]));
}

#[test]
fn nested_objects_and_arrays() {
    let root = doc("o={x=1} l={1 2 3}").root();
    assert_eq!(
        root,
        obj(vec![
            ("o", obj(vec![("x", Value::I64(1))])),
            (
                "l",
                Value::Arr(vec![Value::I64(1), Value::I64(2), Value::I64(3)])
            ),
        ])
    );
}

#[test]
fn duplicate_keys_group_in_order() {
    let root = doc("name=a core=b core=c").root();
    assert_eq!(
        root,
        obj(vec![
            ("name", Value::Str(b("a"))),
            (
                "core",
                Value::Arr(vec![Value::Str(b("b")), Value::Str(b("c"))])
            ),
        ])
    );
}

#[test]
fn operator_wraps_value_as_single_entry_mapping() {
    let root = doc("a < 3").root();
    assert_eq!(
        root,
        obj(vec![("a", obj(vec![("LESS_THAN", Value::I64(3))]))])
    );
}

#[test]
fn greater_than_equal_operator() {
    let root = doc("x >= 10").root();
    assert_eq!(
        root,
        obj(vec![("x", obj(vec![("GREATER_THAN_EQUAL", Value::I64(10))]))])
    );
}

#[test]
fn header_pair_collapses_to_single_entry_object() {
    let root = doc("color=rgb { 100 200 50 }").root();
    assert_eq!(
        root,
        obj(vec![(
            "color",
            obj(vec![(
                "rgb",
                Value::Arr(vec![Value::I64(100), Value::I64(200), Value::I64(50)])
            )])
        )])
    );
}

#[test]
fn quoted_and_unquoted_keys_group_by_bytes() {
    let root = doc("a=1 \"a\"=2").root();
    assert_eq!(
        root,
        obj(vec![("a", Value::Arr(vec![Value::I64(1), Value::I64(2)]))])
    );
}

#[test]
fn remainder_collects_unpaired_trailing_tokens() {
    // hand-built stream: k = { x = 1 <mixed> 2 }
    let toks = vec![
        Token::Unquoted(b("k")),
        Token::Object(6),
        Token::Unquoted(b("x")),
        Token::Unquoted(b("1")),
        Token::Mixed,
        Token::Unquoted(b("2")),
        Token::End,
    ];
    let root = materialize(&toks, TextEncoding::Utf8, Narrowing::All, true);
    assert_eq!(
        root,
        obj(vec![(
            "k",
            obj(vec![
                ("x", Value::I64(1)),
                ("remainder", Value::Arr(vec![Value::I64(2)])),
            ])
        )])
    );
}

#[test]
fn mixed_container_from_the_tokenizer() {
    // jomini marks `a={b=1 2 3}` as an object turning into an array
    let root = doc("a={b=1 2 3}").root();
    assert_eq!(
        root,
        obj(vec![(
            "a",
            obj(vec![
                ("b", Value::I64(1)),
                ("remainder", Value::Arr(vec![Value::I64(2), Value::I64(3)])),
            ])
        )])
    );
}

#[test]
fn parameters_render_bracketed() {
    let root = doc("generate_advisor = { [[scaled_skill] a=b ] }").root();
    assert_eq!(
        root,
        obj(vec![(
            "generate_advisor",
            obj(vec![("[scaled_skill]", obj(vec![("a", Value::Str(b("b")))]))])
        )])
    );
}

#[test]
fn standalone_value_build() {
    let toks = vec![Token::Unquoted(b("yes"))];
    let v = build_value(&toks, 0, TextEncoding::Utf8, Narrowing::All, true);
    assert_eq!(v, Value::Bool(true));
    let toks2 = vec![Token::Unquoted(b("yes"))];
    let v2 = build_value(&toks2, 0, TextEncoding::Utf8, Narrowing::Never, true);
    assert_eq!(v2, Value::Str(b("yes")));
}

#[test]
fn narrowing_policies() {
    // never: both scalar forms stay text
    let r = parse_text(b"a=bar b=\"bar\"".to_vec(), TextEncoding::Utf8, Narrowing::Never)
        .unwrap()
        .root();
    assert_eq!(
        r,
        obj(vec![
            ("a", Value::Str(b("bar"))),
            ("b", Value::Str(b("bar"))),
        ])
    );
    // all: both forms narrow
    let r = parse_text(b"a=1 b=\"1\"".to_vec(), TextEncoding::Utf8, Narrowing::All)
        .unwrap()
        .root();
    assert_eq!(r, obj(vec![("a", Value::I64(1)), ("b", Value::I64(1))]));
    // unquoted only: the quoted form stays text
    let r = parse_text(
        b"a=1 b=\"1\"".to_vec(),
        TextEncoding::Utf8,
        Narrowing::UnquotedOnly,
    )
    .unwrap()
    .root();
    assert_eq!(r, obj(vec![("a", Value::I64(1)), ("b", Value::Str(b("1")))]));
}

#[test]
fn windows1252_document() {
    let r = parse_text(
        vec![b'n', b'=', b'"', 0xE9, b'"'],
        TextEncoding::Windows1252,
        Narrowing::All,
    )
    .unwrap()
    .root();
    assert_eq!(r, obj(vec![("n", Value::Str("é".as_bytes().to_vec()))]));
}

#[test]
fn big_integer_stays_text_when_floats_lose_precision() {
    let r = doc("a=90071992547409097").root();
    assert_eq!(r, obj(vec![("a", Value::Str(b("90071992547409097")))]));
}

#[test]
fn integer_beyond_float_precision_stays_text() {
    // integers that cannot round-trip through a 64-bit float are not
    // narrowed, matching the numeric gate of the grammar engine
    let r = doc("a=9223372036854775808").root();
    assert_eq!(r, obj(vec![("a", Value::Str(b("9223372036854775808")))]));
}

#[test]
fn exists_operator_wraps() {
    let root = doc("a ?= b").root();
    assert_eq!(
        root,
        obj(vec![("a", obj(vec![("EXISTS", Value::Str(b("b")))]))])
    );
}

#[test]
fn undefined_parameter_renders_with_bang() {
    let root = doc("g = { [[!p] a=b ] }").root();
    assert_eq!(
        root,
        obj(vec![(
            "g",
            obj(vec![("[!p]", obj(vec![("a", Value::Str(b("b")))]))])
        )])
    );
}

#[test]
fn date_with_hour_in_document() {
    let root = doc("t=1821.1.1.6").root();
    assert_eq!(
        root,
        obj(vec![(
            "t",
            Value::Date(GameDate { year: 1821, month0: 0, day: 1, hour0: Some(5) })
        )])
    );
}
