use json_viewer::value::parser::{parse_value, Expected, ParseError};
use json_viewer::value::writer::{Element, ElementType, Writer};
use json_viewer::value::{parse, ContainedValue, Value, ValueArray, ValueObject};

fn num(s: &str) -> Value {
    Value::Number(s.to_string())
}

fn arr(items: Vec<Value>) -> Value {
    Value::Array(ValueArray { collapse: false, arr: items })
}

fn obj(members: Vec<(&str, Value)>) -> Value {
    Value::Object(ValueObject {
        collapse: false,
        map: members.into_iter().map(|(k, v)| (k.to_string(), v)).collect(),
    })
}

#[test]
fn parse_scalars() {
    assert_eq!(parse("null"), Ok(Value::Null));
    assert_eq!(parse("true"), Ok(Value::Bool(true)));
    assert_eq!(parse("false"), Ok(Value::Bool(false)));
    assert_eq!(parse("\"hi\""), Ok(Value::String("hi".to_string())));
    assert_eq!(parse(" \t\r\n 12 \n"), Ok(num("12")));
}

#[test]
fn numbers_keep_their_text() {
    for text in ["1.50", "-0", "0", "1e5", "1E+5", "2.5e-10", "-12.034E2", "1.", "100"] {
        assert_eq!(parse(text), Ok(num(text)));
    }
}

#[test]
fn strings_keep_their_escapes() {
    assert_eq!(
        parse(r#""a\nb\u00e9\"\\/""#),
        Ok(Value::String(r#"a\nb\u00e9\"\\/"#.to_string()))
    );
    assert_eq!(parse("\"é✓\""), Ok(Value::String("é✓".to_string())));
    assert_eq!(parse("\"\""), Ok(Value::String(String::new())));
}

#[test]
fn parse_containers() {
    assert_eq!(parse("[]"), Ok(arr(vec![])));
    assert_eq!(parse("[ ]"), Ok(arr(vec![])));
    assert_eq!(parse("{}"), Ok(obj(vec![])));
    assert_eq!(
        parse("[1, [2, {\"a\": null}], \"x\"]"),
        Ok(arr(vec![
            num("1"),
            arr(vec![num("2"), obj(vec![("a", Value::Null)])]),
            Value::String("x".to_string())
        ]))
    );
    assert_eq!(
        parse("{\"a\": [1,2,3]}"),
        Ok(obj(vec![("a", arr(vec![num("1"), num("2"), num("3")]))]))
    );
}

#[test]
fn duplicate_names_are_kept_in_order() {
    let v = parse("{\"a\": 1, \"b\": 2, \"a\": 3}").unwrap();
    assert_eq!(v, obj(vec![("a", num("1")), ("b", num("2")), ("a", num("3"))]));
    let o = v.as_object().unwrap();
    assert_eq!(o.get("a"), Some(&num("1")));
    assert_eq!(o.position("b"), Some(1));
    assert_eq!(o.get("c"), None);
}

fn error(position: usize, expected: Expected) -> Result<Value, ParseError> {
    Err(ParseError { position, expected })
}

#[test]
fn parse_errors() {
    assert_eq!(parse(""), error(0, Expected::Value));
    assert_eq!(parse("  x"), error(2, Expected::Value));
    assert_eq!(parse("tru"), error(0, Expected::Value));
    assert_eq!(parse("[1 2]"), error(3, Expected::CommaOrBracket));
    assert_eq!(parse("[1,"), error(3, Expected::Value));
    assert_eq!(parse("[1,]"), error(3, Expected::Value));
    assert_eq!(parse("{\"a\" 1}"), error(5, Expected::Colon));
    assert_eq!(parse("{\"a\": 1 \"b\"}"), error(8, Expected::CommaOrBrace));
    assert_eq!(parse("{1: 2}"), error(1, Expected::Name));
    assert_eq!(parse("{\"a\": 1,}"), error(8, Expected::Name));
    assert_eq!(parse("\"abc"), error(4, Expected::Quote));
    assert_eq!(parse("\"a\\x\""), error(3, Expected::Escape));
    assert_eq!(parse("\"a\\"), error(3, Expected::Escape));
    assert_eq!(parse("\"\\u12G4\""), error(5, Expected::HexDigit));
    assert_eq!(parse("\"\\u12"), error(5, Expected::HexDigit));
    assert_eq!(parse("-"), error(1, Expected::Digit));
    assert_eq!(parse("-x"), error(1, Expected::Digit));
    assert_eq!(parse("1 2"), error(2, Expected::End));
    assert_eq!(parse("01"), error(1, Expected::End));
    assert_eq!(parse("1e"), error(1, Expected::End));
    assert_eq!(parse("[1e+]"), error(2, Expected::CommaOrBracket));
}

#[test]
fn error_positions_count_characters() {
    assert_eq!(parse("[\"é\" x]"), error(5, Expected::CommaOrBracket));
}

#[test]
fn parse_value_says_where_the_value_ends() {
    let text: Vec<char> = "[1, 2] tail".chars().collect();
    let (v, end) = parse_value(&text, 0).unwrap();
    assert_eq!(v, arr(vec![num("1"), num("2")]));
    assert_eq!(end, 6);
    assert_eq!(
        parse_value(&text, 11),
        Err(ParseError { position: 11, expected: Expected::Value })
    );
}

#[test]
fn four_scalars_stay_on_one_line() {
    let v = parse("[1, 2, 3, 4]").unwrap();
    assert_eq!(v.lines(), vec!["[1,2,3,4]"]);
    assert_eq!(v.to_string(), "[1,2,3,4]");
}

#[test]
fn five_scalars_take_a_line_each() {
    let v = parse("[1,2,3,4,5]").unwrap();
    assert_eq!(
        v.lines(),
        vec!["[", "    1,", "    2,", "    3,", "    4,", "    5", "]"]
    );
    assert_eq!(v.to_string(), "[\n    1,\n    2,\n    3,\n    4,\n    5\n]");
}

#[test]
fn a_nested_container_expands_its_parent() {
    let v = parse("[[1]]").unwrap();
    assert_eq!(v.lines(), vec!["[", "    [1]", "]"]);
    let w = parse("[{}]").unwrap();
    assert_eq!(w.lines(), vec!["[", "    {}", "]"]);
    let deep = parse("[[[1, 2], 3]]").unwrap();
    assert_eq!(
        deep.lines(),
        vec!["[", "    [", "        [1,2],", "        3", "    ]", "]"]
    );
}

#[test]
fn objects_expand_from_two_members() {
    assert_eq!(parse("{}").unwrap().lines(), vec!["{}"]);
    assert_eq!(parse("{\"a\": 1}").unwrap().lines(), vec!["{\"a\": 1}"]);
    assert_eq!(
        parse("{\"a\": 1, \"b\": \"x\"}").unwrap().lines(),
        vec!["{", "    \"a\": 1,", "    \"b\": \"x\"", "}"]
    );
    assert_eq!(
        parse("{\"a\": [1,2,3]}").unwrap().lines(),
        vec!["{", "    \"a\": [1,2,3]", "}"]
    );
}

#[test]
fn collapsed_containers_are_placeholders() {
    let mut v = parse("[1, [2, 3], {\"a\": 1}]").unwrap();
    {
        let outer = v.as_array_mut().unwrap();
        outer.get_mut(1).unwrap().as_array_mut().unwrap().collapse();
        outer.get_mut(2).unwrap().as_object_mut().unwrap().toggle_collapse();
    }
    assert_eq!(
        v.lines(),
        vec!["[", "    1,", "    [ ... ],", "    { ... }", "]"]
    );
    v.as_array_mut().unwrap().collapse();
    assert_eq!(v.lines(), vec!["[ ... ]"]);
    v.as_array_mut().unwrap().expand();
    v.as_array_mut().unwrap().get_mut(1).unwrap().as_array_mut().unwrap().expand();
    assert_eq!(
        v.lines(),
        vec!["[", "    1,", "    [2,3],", "    { ... }", "]"]
    );
}

#[test]
fn elements_carry_their_kinds() {
    let v = parse("{\"a\": [1, true, null, \"s\"]}").unwrap();
    let lines = v.elemnets();
    assert_eq!(lines.len(), 3);
    assert_eq!(
        lines[0],
        vec![Element { ty: ElementType::Brace, content: "{".to_string() }]
    );
    let kinds: Vec<ElementType> = lines[1].iter().map(|e| e.ty).collect();
    assert_eq!(
        kinds,
        vec![
            ElementType::Whtiespace,
            ElementType::Key,
            ElementType::Bracket,
            ElementType::NumberLiteral,
            ElementType::Comma,
            ElementType::BoolLiteral,
            ElementType::Comma,
            ElementType::NullLiteral,
            ElementType::Comma,
            ElementType::StringLiteral,
            ElementType::Bracket,
        ]
    );
    assert_eq!(lines[1][1].content, "\"a\": ");
    assert_eq!(lines[1][9].content, "\"s\"");
}

fn round_trip(text: &str) {
    let first = parse(text).unwrap();
    let written = first.to_string();
    let second = parse(&written).unwrap();
    assert_eq!(first, second);
    assert_eq!(second.to_string(), written);
}

#[test]
fn writing_and_reading_again_gives_the_same_tree() {
    round_trip("null");
    round_trip("[1.50, -0.0e10, \"a\\nb\", true, false, null]");
    round_trip("{\"a\": [1,2,3], \"a\": {\"b\": [[], {}, [1,2,3,4,5]]}}");
    round_trip(" [ \"\\u00e9 \\\" \" , { \"k y\" : 1E+2 } ] ");
}

#[test]
fn literals_are_written_as_they_were_read() {
    let v = parse("[1.50, 1.0E+02, \"tab\\tquote\\\"\"]").unwrap();
    assert_eq!(v.to_string(), "[1.50,1.0E+02,\"tab\\tquote\\\"\"]");
    let a = v.as_array().unwrap();
    assert_eq!(a.get(0).unwrap().get_number(), Some("1.50"));
    assert_eq!(a.get(2).unwrap().get_string(), Some("tab\\tquote\\\""));
    assert_eq!(a.get(3), None);
}

#[test]
fn copies_are_equal() {
    let v = parse("{\"a\": [1, {\"b\": null}], \"c\": \"x\"}").unwrap();
    assert_eq!(v.clone(), v);
    let a = v.as_object().unwrap().clone();
    assert_eq!(Value::Object(a), v);
    let inner = v.as_object().unwrap().get("a").unwrap().as_array().unwrap().clone();
    assert_eq!(inner.arr.len(), 2);
}

#[test]
fn getters() {
    assert_eq!(Value::Null.get_null(), Some(()));
    assert_eq!(Value::Bool(true).get_null(), None);
    assert_eq!(Value::Bool(true).get_bool(), Some(true));
    assert_eq!(num("1").get_bool(), None);
    assert_eq!(num("1").get_number(), Some("1"));
    assert_eq!(num("1").get_string(), None);
    assert!(num("1").as_array().is_none());
    assert!(arr(vec![]).as_object().is_none());
    assert!(arr(vec![]).is_array());
    assert!(obj(vec![]).is_object());
    assert!(Value::Null.is_null());
    assert!(Value::Bool(false).is_bool());
    assert!(num("2").is_number());
    assert!(Value::String(String::new()).is_string());
    let mut o = obj(vec![("a", num("1")), ("a", num("2"))]);
    *o.as_object_mut().unwrap().get_mut("a").unwrap() = Value::Null;
    assert_eq!(o, obj(vec![("a", Value::Null), ("a", num("2"))]));
    assert!(o.as_object_mut().unwrap().get_mut("zz").is_none());
    assert!(Value::Null.as_array_mut().is_none());
    assert!(Value::Null.as_object_mut().is_none());
}

#[test]
fn writer_appends_to_the_open_line() {
    let mut w = Writer::new();
    w.write_value(&num("1"));
    w.write_value(&arr(vec![num("2")]));
    assert_eq!(w.lines(), vec!["1[2]"]);
    assert_eq!(w.to_string(), "1[2]");
    assert_eq!(w.get().len(), 1);
}

#[test]
fn writer_indent_text() {
    let v = parse("[[1]]").unwrap();
    let mut w = Writer::new();
    w.with_indent_str("\t".to_string());
    w.write_value(&v);
    assert_eq!(w.lines(), vec!["[", "\t[1]", "]"]);

    let mut w = Writer::new();
    w.with_indent_size(2);
    w.write_value(&v);
    assert_eq!(w.lines(), vec!["[", "   [1]", "]"]);

    let mut w = Writer::new();
    w.with_indent_size(0);
    w.write_value(&v);
    assert_eq!(w.lines(), vec!["[", "[1]", "]"]);

    let mut w = Writer::new();
    w.with_indent_size(1);
    w.write_value(&v);
    assert_eq!(w.lines(), vec!["[", " [1]", "]"]);
}

#[test]
fn element_constructors() {
    assert_eq!(Element::comma().content, ",");
    assert_eq!(Element::null_literal().content, "null");
    assert_eq!(Element::bool_literal(true).content, "true");
    assert_eq!(Element::bool_literal(false).content, "false");
    assert_eq!(Element::open_bracket().content, "[");
    assert_eq!(Element::close_bracket().content, "]");
    assert_eq!(Element::open_brace().content, "{");
    assert_eq!(Element::close_brace().content, "}");
    assert_eq!(Element::collapsed_bracket().content, "[ ... ]");
    assert_eq!(Element::collapsed_brace().content, "{ ... }");
    assert_eq!(Element::collapsed_brace().ty, ElementType::CollapsedBrace);
    assert_eq!(Element::whtiespace("  ".to_string()).ty, ElementType::Whtiespace);
    assert_eq!(Element::key("k".to_string()).ty, ElementType::Key);
    assert_eq!(Element::number_literal("1".to_string()).ty, ElementType::NumberLiteral);
    assert_eq!(Element::string_literal("s".to_string()).ty, ElementType::StringLiteral);
    assert_eq!(Element::_paren("(".to_string()).ty, ElementType::_Paren);
    let e = Element::new(ElementType::Comma, ";".to_string());
    assert_eq!(e.clone(), e);
}

#[test]
fn contained_value_keeps_the_source() {
    let mut c = ContainedValue::parse(" [1, 2] ".to_string()).unwrap();
    assert_eq!(c.source(), " [1, 2] ");
    assert_eq!(c.get(), &arr(vec![num("1"), num("2")]));
    c.get_mut().as_array_mut().unwrap().collapse();
    assert_eq!(c.get().lines(), vec!["[ ... ]"]);
    assert_eq!(c.source(), " [1, 2] ");
    assert_eq!(
        ContainedValue::parse("[".to_string()).err(),
        Some(ParseError { position: 1, expected: Expected::Value })
    );
}
