use pdstext::json::DisambiguateMode;
use pdstext::scalar::{Narrowing, TextEncoding};
use pdstext::session::{parse_text, Query};

fn doc(text: &str, nar: Narrowing) -> Query {
    parse_text(text.as_bytes().to_vec(), TextEncoding::Utf8, nar).unwrap()
}

fn json(text: &str, nar: Narrowing, mode: DisambiguateMode) -> String {
    String::from_utf8(doc(text, nar).json(mode)).unwrap()
}

#[test]
fn group_mode_groups_duplicate_keys() {
    assert_eq!(
        json("a={b=1} c={b=1 b=2}", Narrowing::All, DisambiguateMode::Group),
        r#"{"a":{"b":1},"c":{"b":[1,2]}}"#
    );
}

#[test]
fn preserve_mode_keeps_every_occurrence() {
    assert_eq!(
        json("a={b=1} c={b=1 b=2}", Narrowing::All, DisambiguateMode::Preserve),
        r#"{"a":{"b":1},"c":{"b":1,"b":2}}"#
    );
}

#[test]
fn typed_mode_wraps_every_container() {
    assert_eq!(
        json("c=0 b={1 2}", Narrowing::All, DisambiguateMode::Typed),
        r#"{"type":"obj","val":[["c",0],["b",{"type":"array","val":[1,2]}]]}"#
    );
}

#[test]
fn narrowing_controls_json_scalars() {
    let text = r#"a="01" b=02 c="yes" d=no"#;
    assert_eq!(
        json(text, Narrowing::All, DisambiguateMode::Group),
        r#"{"a":1,"b":2,"c":true,"d":false}"#
    );
    assert_eq!(
        json(text, Narrowing::UnquotedOnly, DisambiguateMode::Group),
        r#"{"a":"01","b":2,"c":"yes","d":false}"#
    );
    assert_eq!(
        json(text, Narrowing::Never, DisambiguateMode::Group),
        r#"{"a":"01","b":"02","c":"yes","d":"no"}"#
    );
}

#[test]
fn empty_container_renders_as_empty_object() {
    assert_eq!(
        json("a={}", Narrowing::All, DisambiguateMode::Group),
        r#"{"a":{}}"#
    );
}

#[test]
fn strings_escape_in_json() {
    assert_eq!(
        json(r#"a="say \"hi\"""#, Narrowing::Never, DisambiguateMode::Group),
        r#"{"a":"say \"hi\""}"#
    );
}

#[test]
fn dates_render_as_quoted_literals() {
    assert_eq!(
        json("start=1444.11.11", Narrowing::All, DisambiguateMode::Group),
        r#"{"start":"1444.11.11"}"#
    );
}

#[test]
fn operators_render_as_named_wrappers() {
    assert_eq!(
        json("a < 3", Narrowing::All, DisambiguateMode::Group),
        r#"{"a":{"LESS_THAN":3}}"#
    );
}

#[test]
fn floats_render_as_numbers() {
    assert_eq!(
        json("x=1.5 y=1.000", Narrowing::All, DisambiguateMode::Group),
        r#"{"x":1.5,"y":1.0}"#
    );
}

#[test]
fn operator_name_text() {
    assert_eq!(pdstext::token::operator_name(pdstext::token::Op::LessThan), "LESS_THAN");
    assert_eq!(
        pdstext::token::operator_name(pdstext::token::Op::GreaterThanEqual),
        "GREATER_THAN_EQUAL"
    );
    assert_eq!(pdstext::token::operator_name(pdstext::token::Op::Equal), "EQUAL");
}

#[test]
fn error_chain_flattens_to_one_string() {
    let msgs = vec![String::from("top failed"), String::from("io broke")];
    assert_eq!(
        pdstext::errors::create_error_msg(&msgs),
        "top failed. Caused by: io broke"
    );
    let one = vec![String::from("just one")];
    assert_eq!(pdstext::errors::create_error_msg(&one), "just one");
    let none: Vec<String> = Vec::new();
    assert_eq!(pdstext::errors::create_error_msg(&none), "");
}

#[test]
fn three_occurrences_group_into_three_element_array() {
    assert_eq!(
        json("k=1 k=2 k=3", Narrowing::All, DisambiguateMode::Group),
        r#"{"k":[1,2,3]}"#
    );
    assert_eq!(
        json("k=1 k=2 k=3", Narrowing::All, DisambiguateMode::Preserve),
        r#"{"k":1,"k":2,"k":3}"#
    );
}

#[test]
fn remainder_appears_in_json() {
    assert_eq!(
        json("a={b=1 2 3}", Narrowing::All, DisambiguateMode::Group),
        r#"{"a":{"b":1,"remainder":[2,3]}}"#
    );
}
