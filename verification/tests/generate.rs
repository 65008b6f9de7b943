use api_generator::emit::{emit_enum, generate, generate_param};
use api_generator::model::{generate_enum, Api, ApiEnum, GeneratedEnum, ParseError};
use api_generator::normalize::ValueMapping;

fn api_enum(name: &str, values: &[&str]) -> ApiEnum {
    ApiEnum {
        name: name.to_string(),
        doc: None,
        cfg_doc: None,
        cfg_attr: None,
        values: values.iter().map(|v| v.to_string()).collect(),
    }
}

fn wait_for_status() -> ApiEnum {
    api_enum("wait_for_status", &["green", "yellow (warn)", ""])
}

const WAIT_FOR_STATUS: &str = "# [ derive ( Debug , PartialEq , Deserialize , Serialize , Clone , Copy ) ] \
pub enum WaitForStatus { \
# [ serde ( rename = \"green\" ) ] Green , \
# [ serde ( rename = \"yellow\" ) ] Yellow , \
# [ serde ( rename = \"\" ) ] Unspecified } \
impl FromStr for WaitForStatus { type Err = & 'static str ; \
fn from_str ( value_str : & str ) -> Result < Self , Self :: Err > { match value_str { \
\"green\" => Ok ( Self :: Green ) , \
\"yellow\" => Ok ( Self :: Yellow ) , \
\"\" => Ok ( Self :: Unspecified ) , \
_ => Err ( \"unknown enum variant\" ) } } } \
impl ToString for WaitForStatus { fn to_string ( & self ) -> String { match & self { \
Self :: Green => \"green\" . to_string ( ) , \
Self :: Yellow => \"yellow\" . to_string ( ) , \
Self :: Unspecified => \"\" . to_string ( ) , \
} } }";

const EMPTY: &str = "# [ derive ( Debug , PartialEq , Deserialize , Serialize , Clone , Copy ) ] \
pub enum Empty { } \
impl FromStr for Empty { type Err = & 'static str ; \
fn from_str ( value_str : & str ) -> Result < Self , Self :: Err > { match value_str { \
_ => Err ( \"unknown enum variant\" ) } } } \
impl ToString for Empty { fn to_string ( & self ) -> String { match & self { } } }";

#[test]
fn wait_for_status_scenario() {
    let generated = generate_enum(&wait_for_status());
    assert_eq!(generated.name, "WaitForStatus");
    assert_eq!(generated.cases.len(), 3);
    let cases: Vec<(&str, &str)> = generated
        .cases
        .iter()
        .map(|c| (c.variant_name.as_str(), c.wire_value.as_str()))
        .collect();
    assert_eq!(cases, vec![("Green", "green"), ("Yellow", "yellow"), ("Unspecified", "")]);
    assert_eq!(generated.serialize(1), "yellow");
    assert_eq!(generated.parse("yellow"), Ok(1));
    assert_eq!(generated.parse("red"), Err(ParseError::UnknownVariant));
}

#[test]
fn wait_for_status_source() {
    let mut tokens = quote::Tokens::new();
    generate_param(&mut tokens, &wait_for_status());
    assert_eq!(tokens.as_str(), WAIT_FOR_STATUS);
}

#[test]
fn one_case_for_each_value() {
    for values in [
        vec![],
        vec!["a"],
        vec!["a", "b (x)", "", "c(d"],
        vec!["same", "same", "same (again)"],
    ] {
        let generated = generate_enum(&api_enum("some enum", &values));
        assert_eq!(generated.cases.len(), values.len());
    }
}

#[test]
fn every_case_survives_the_round_trip() {
    let generated = generate_enum(&api_enum(
        "expand wildcards",
        &["open", "closed (default)", "", "none", "all(x"],
    ));
    for variant in 0..generated.cases.len() {
        let wire = generated.serialize(variant);
        assert_eq!(generated.parse(&wire), Ok(variant));
    }
}

#[test]
fn a_repeated_wire_value_parses_as_its_first_case() {
    let generated = generate_enum(&api_enum("flag", &["a", "a (again)"]));
    assert_eq!(generated.serialize(1), "a");
    assert_eq!(generated.parse("a"), Ok(0));
}

#[test]
fn cases_that_repeat_each_other_are_found() {
    assert!(generate_enum(&wait_for_status()).has_distinct_cases());
    assert!(generate_enum(&api_enum("empty", &[])).has_distinct_cases());
    assert!(!generate_enum(&api_enum("flag", &["a", "a (again)"])).has_distinct_cases());
    assert!(!generate_enum(&api_enum("flag", &["b", "a", "c", "a"])).has_distinct_cases());
    // two wire values, one name
    assert!(!generate_enum(&api_enum("flag", &["a_b", "a-b"])).has_distinct_cases());
}

#[test]
fn unknown_strings_are_not_parsed() {
    let generated = generate_enum(&wait_for_status());
    for text in ["red", "Green", "yellow (warn)", " green", "green ", "\u{0}"] {
        assert_eq!(generated.parse(text), Err(ParseError::UnknownVariant));
    }
    assert_eq!(generated.parse(""), Ok(2));
}

#[test]
fn unknown_variant_message() {
    assert_eq!(ParseError::UnknownVariant.message(), "unknown enum variant");
}

#[test]
fn enum_without_values() {
    let generated = generate_enum(&api_enum("empty", &[]));
    assert_eq!(generated.name, "Empty");
    assert!(generated.cases.is_empty());
    assert_eq!(generated.parse(""), Err(ParseError::UnknownVariant));
    assert_eq!(generated.parse("anything"), Err(ParseError::UnknownVariant));
    let mut tokens = quote::Tokens::new();
    emit_enum(&mut tokens, &generated);
    assert_eq!(tokens.as_str(), EMPTY);
}

#[test]
fn generation_is_repeatable() {
    let api = Api { enums: vec![wait_for_status(), api_enum("empty", &[])] };
    let first = generate(&api);
    let second = generate(&api.clone());
    assert_eq!(first, second);
    assert_eq!(first.as_bytes(), second.as_bytes());
}

#[test]
fn enums_follow_each_other_in_the_source() {
    let api = Api { enums: vec![wait_for_status(), api_enum("empty", &[])] };
    assert_eq!(generate(&api), format!("{} {}", WAIT_FOR_STATUS, EMPTY));
    assert_eq!(generate(&Api { enums: vec![api_enum("empty", &[]), wait_for_status()] }),
        format!("{} {}", EMPTY, WAIT_FOR_STATUS));
}

#[test]
fn api_without_enums_has_no_source() {
    assert_eq!(generate(&Api { enums: Vec::new() }), "");
}

#[test]
fn annotation_blocks_come_first_and_in_order() {
    let mut described = api_enum("empty", &[]);
    described.doc = Some("/// What it is.\n".to_string());
    described.cfg_doc = Some("# [ doc = \"Unstable.\" ]".to_string());
    described.cfg_attr = Some("# [ cfg ( feature = \"beta-apis\" ) ]".to_string());
    let mut tokens = quote::Tokens::new();
    generate_param(&mut tokens, &described);
    assert_eq!(
        tokens.as_str(),
        format!(
            "/// What it is.\n # [ doc = \"Unstable.\" ] # [ cfg ( feature = \"beta-apis\" ) ] {}",
            EMPTY
        )
    );
}

#[test]
fn absent_and_empty_blocks_leave_no_trace() {
    let mut tokens = quote::Tokens::new();
    generate_param(&mut tokens, &api_enum("empty", &[]));
    assert_eq!(tokens.as_str(), EMPTY);
    let mut blank = api_enum("empty", &[]);
    blank.cfg_doc = Some(String::new());
    let mut tokens = quote::Tokens::new();
    generate_param(&mut tokens, &blank);
    assert_eq!(tokens.as_str(), EMPTY);
    let mut only_gate = api_enum("empty", &[]);
    only_gate.cfg_attr = Some("# [ cfg ( test ) ]".to_string());
    let mut tokens = quote::Tokens::new();
    generate_param(&mut tokens, &only_gate);
    assert_eq!(tokens.as_str(), format!("# [ cfg ( test ) ] {}", EMPTY));
}

#[test]
fn source_is_appended_to_what_the_buffer_holds() {
    let mut tokens = quote::Tokens::new();
    tokens.append("use");
    tokens.append("serde");
    tokens.append(";");
    generate_param(&mut tokens, &api_enum("empty", &[]));
    assert_eq!(tokens.as_str(), format!("use serde ; {}", EMPTY));
}

#[test]
fn wire_values_are_written_as_string_literals() {
    let generated = GeneratedEnum {
        name: "Q".to_string(),
        doc: None,
        cfg_doc: None,
        cfg_attr: None,
        cases: vec![ValueMapping {
            wire_value: "a\"b\\c\n".to_string(),
            variant_name: "Abc".to_string(),
        }],
    };
    let mut tokens = quote::Tokens::new();
    emit_enum(&mut tokens, &generated);
    let source = tokens.as_str();
    assert!(source.contains("# [ serde ( rename = \"a\\\"b\\\\c\\n\" ) ] Abc }"));
    assert!(source.contains("\"a\\\"b\\\\c\\n\" => Ok ( Self :: Abc ) ,"));
    assert!(source.contains("Self :: Abc => \"a\\\"b\\\\c\\n\" . to_string ( ) ,"));
}

#[test]
fn names_are_written_as_they_stand() {
    let generated = GeneratedEnum {
        name: "not an identifier".to_string(),
        doc: None,
        cfg_doc: None,
        cfg_attr: None,
        cases: vec![ValueMapping { wire_value: "x".to_string(), variant_name: String::new() }],
    };
    let mut tokens = quote::Tokens::new();
    emit_enum(&mut tokens, &generated);
    let source = tokens.as_str();
    assert!(source.contains("pub enum not an identifier { # [ serde ( rename = \"x\" ) ] }"));
    assert!(source.contains("\"x\" => Ok ( Self :: ) ,"));
}

#[test]
fn type_name_is_the_pascal_case_of_the_name() {
    assert_eq!(generate_enum(&api_enum("expand wildcards", &[])).name, "ExpandWildcards");
    assert_eq!(generate_enum(&api_enum("VersionType", &[])).name, "VersionType");
    assert_eq!(generate_enum(&api_enum("op-type", &[])).name, "OpType");
}

#[test]
fn blocks_are_kept_as_given() {
    let mut described = api_enum("level", &["cluster"]);
    described.doc = Some("/// Level.\n".to_string());
    described.cfg_attr = Some("# [ cfg ( test ) ]".to_string());
    let generated = generate_enum(&described);
    assert_eq!(generated.doc, Some("/// Level.\n".to_string()));
    assert_eq!(generated.cfg_doc, None);
    assert_eq!(generated.cfg_attr, Some("# [ cfg ( test ) ]".to_string()));
}
