use pdstext::date::GameDate;
use pdstext::scalar::{Narrowing, TextEncoding};
use pdstext::session::{parse_text, write_text};
use pdstext::token::Op;
use pdstext::value::Value;
use pdstext::writer::Writer;

fn out_str(w: Writer) -> String {
    String::from_utf8(w.inner()).unwrap()
}

#[test]
fn key_value_pairs_get_equals() {
    let mut w = Writer::new();
    w.write_unquoted(b"hello");
    w.write_unquoted(b"world");
    assert_eq!(out_str(w), "hello=world");
}

#[test]
fn fields_separate_with_newlines() {
    let mut w = Writer::new();
    w.write_unquoted(b"hello");
    w.write_bool(true);
    w.write_unquoted(b"foo");
    w.write_bool(false);
    assert_eq!(out_str(w), "hello=yes\nfoo=no");
}

#[test]
fn non_equal_operator_is_spaced() {
    let mut w = Writer::new();
    w.write_unquoted(b"a");
    w.write_operator(Op::LessThan);
    w.write_unquoted(b"b");
    assert_eq!(out_str(w), "a < b");
}

#[test]
fn quoted_values_escape() {
    let mut w = Writer::new();
    w.write_quoted(b"name");
    w.write_quoted(br#"captain "joe" rogers"#);
    assert_eq!(out_str(w), "\"name\"=\"captain \\\"joe\\\" rogers\"");
}

#[test]
fn integers_write_in_decimal() {
    let mut w = Writer::new();
    w.write_unquoted(b"stability");
    w.write_integer(-3);
    assert_eq!(out_str(w), "stability=-3");

    let mut w = Writer::new();
    w.write_unquoted(b"seed");
    w.write_u64(1000000000000);
    assert_eq!(out_str(w), "seed=1000000000000");
}

#[test]
fn header_then_array() {
    let mut w = Writer::new();
    w.write_unquoted(b"color");
    w.write_header(b"rgb");
    w.write_array_start();
    w.write_integer(100);
    w.write_integer(200);
    w.write_integer(50);
    w.write_end().unwrap();
    assert_eq!(out_str(w), "color=rgb {\n  100 200 50\n}");
}

#[test]
fn date_writes_one_based_components() {
    let mut w = Writer::new();
    w.write_unquoted(b"start");
    w.write_date(&GameDate { year: 1444, month0: 10, day: 11, hour0: None });
    w.write_unquoted(b"tick");
    w.write_date(&GameDate { year: 1444, month0: 10, day: 11, hour0: Some(3) });
    assert_eq!(out_str(w), "start=1444.11.11\ntick=1444.11.11.4");
}

#[test]
fn closing_nothing_is_an_error() {
    let mut w = Writer::new();
    assert!(w.write_end().is_err());
    // the failed close leaves the writer usable
    w.write_unquoted(b"a");
    w.write_unquoted(b"b");
    assert_eq!(out_str(w), "a=b");
}

#[test]
fn nested_containers_indent() {
    let mut w = write_text();
    w.write_unquoted(b"a");
    w.write_object_start();
    w.write_unquoted(b"b");
    w.write_unquoted(b"c");
    w.write_end().unwrap();
    assert_eq!(out_str(w), "a={\n  b=c\n}");
}

#[test]
fn output_matches_reference_writer() {
    // drive the grammar engine's own writer with the same calls and
    // compare byte for byte
    let mut ours = Writer::new();
    ours.write_unquoted(b"k");
    ours.write_object_start();
    ours.write_unquoted(b"list");
    ours.write_array_start();
    ours.write_u64(1);
    ours.write_quoted(b"two words");
    ours.write_end().unwrap();
    ours.write_unquoted(b"flag");
    ours.write_bool(true);
    ours.write_end().unwrap();
    ours.write_unquoted(b"n");
    ours.write_operator(Op::GreaterThanEqual);
    ours.write_integer(4);

    let mut sink: Vec<u8> = Vec::new();
    let mut theirs = jomini::TextWriterBuilder::new().from_writer(&mut sink);
    theirs.write_unquoted(b"k").unwrap();
    theirs.write_object_start().unwrap();
    theirs.write_unquoted(b"list").unwrap();
    theirs.write_array_start().unwrap();
    theirs.write_u64(1).unwrap();
    theirs.write_quoted(b"two words").unwrap();
    theirs.write_end().unwrap();
    theirs.write_unquoted(b"flag").unwrap();
    theirs.write_bool(true).unwrap();
    theirs.write_end().unwrap();
    theirs.write_unquoted(b"n").unwrap();
    theirs
        .write_operator(jomini::text::Operator::GreaterThanEqual)
        .unwrap();
    theirs.write_i32(4).unwrap();
    drop(theirs);

    assert_eq!(ours.inner(), sink);
}

#[test]
fn round_trip_through_the_tokenizer() {
    // emit a document, re-tokenize it, and check that the tree holds
    // the same objects, arrays, scalars, operators and headers
    let mut w = Writer::new();
    w.write_unquoted(b"name");
    w.write_quoted(b"Joe");
    w.write_unquoted(b"stats");
    w.write_object_start();
    w.write_unquoted(b"level");
    w.write_integer(3);
    w.write_unquoted(b"morale");
    w.write_operator(Op::LessThan);
    w.write_u64(50);
    w.write_end().unwrap();
    w.write_unquoted(b"cores");
    w.write_array_start();
    w.write_unquoted(b"PAR");
    w.write_unquoted(b"GAS");
    w.write_end().unwrap();
    w.write_unquoted(b"color");
    w.write_header(b"rgb");
    w.write_array_start();
    w.write_integer(1);
    w.write_integer(2);
    w.write_integer(3);
    w.write_end().unwrap();
    w.write_unquoted(b"start");
    w.write_date(&GameDate { year: 1444, month0: 10, day: 11, hour0: None });
    let emitted = w.inner();

    let q = parse_text(emitted, TextEncoding::Utf8, Narrowing::All).unwrap();
    let root = q.root();

    let expected = Value::Obj(vec![
        (b"name".to_vec(), Value::Str(b"Joe".to_vec())),
        (
            b"stats".to_vec(),
            Value::Obj(vec![
                (b"level".to_vec(), Value::I64(3)),
                (
                    b"morale".to_vec(),
                    Value::Obj(vec![(b"LESS_THAN".to_vec(), Value::I64(50))]),
                ),
            ]),
        ),
        (
            b"cores".to_vec(),
            Value::Arr(vec![
                Value::Str(b"PAR".to_vec()),
                Value::Str(b"GAS".to_vec()),
            ]),
        ),
        (
            b"color".to_vec(),
            Value::Obj(vec![(
                b"rgb".to_vec(),
                Value::Arr(vec![Value::I64(1), Value::I64(2), Value::I64(3)]),
            )]),
        ),
        (
            b"start".to_vec(),
            Value::Date(GameDate { year: 1444, month0: 10, day: 11, hour0: None }),
        ),
    ]);
    assert_eq!(root, expected);
}

#[test]
fn round_trip_twice_is_stable() {
    let mut w = Writer::new();
    w.write_unquoted(b"a");
    w.write_object_start();
    w.write_unquoted(b"b");
    w.write_quoted(b"x y");
    w.write_end().unwrap();
    let first = w.inner();

    let q1 = parse_text(first.clone(), TextEncoding::Utf8, Narrowing::All).unwrap();
    let q2 = parse_text(first, TextEncoding::Utf8, Narrowing::All).unwrap();
    assert_eq!(q1.root(), q2.root());
}
