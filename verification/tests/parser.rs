use value_parser::{Parser, Value};

/// A value with its numbers converted to floating point.
#[derive(Debug, PartialEq)]
enum Val {
    Bool(bool),
    Number(f64),
    String(String),
    Dict(Vec<(Val, Val)>),
    List(Vec<Val>),
}

fn lower(value: Value) -> Val {
    match value {
        Value::Bool(b) => Val::Bool(b),
        Value::Number(text) => Val::Number(text.parse().unwrap()),
        Value::String(s) => Val::String(s),
        Value::Dict(m) => Val::Dict(m.into_iter().map(|(k, v)| (lower(k), lower(v))).collect()),
        Value::List(l) => Val::List(l.into_iter().map(lower).collect()),
    }
}

fn b(v: bool) -> Val {
    Val::Bool(v)
}

fn n(v: f64) -> Val {
    Val::Number(v)
}

fn s(v: &str) -> Val {
    Val::String(v.to_owned())
}

fn list(items: Vec<Val>) -> Val {
    Val::List(items)
}

fn map(pairs: Vec<(Val, Val)>) -> Val {
    Val::Dict(pairs)
}

fn parse_value_completely(text: &str) -> Val {
    assert!(text.is_ascii());
    let mut p = Parser::new(text);
    let val = match p.parse_value() {
        Ok(val) => val,
        Err(e) => panic!("{}", e.message()),
    };
    assert!(p.at_eof(), "parser didn't parse complete input");
    lower(val)
}

fn check_parser(text: &str, expect_value: Val) {
    let parsed_value = parse_value_completely(text);
    assert_eq!(parsed_value, expect_value);
}

#[test]
fn bool() {
    check_parser("true", b(true));
    check_parser("false", b(false));
}

#[test]
fn number() {
    check_parser("1", n(1.));
}

#[test]
fn decimal() {
    check_parser("1.25", n(1.25));
}

#[test]
#[should_panic]
fn no_double_together_decimals() {
    parse_value_completely("1..5");
}

#[test]
#[should_panic]
fn no_double_decimals() {
    parse_value_completely("1.5.2");
}

#[test]
fn simple_string() {
    check_parser(r#""hello""#, s("hello"))
}

#[test]
fn string_escape() {
    check_parser(r#""\n\t\r\n""#, s("\n\t\r\n"))
}

#[test]
#[should_panic(expected = "unknown escape")]
fn string_unending_escape() {
    parse_value_completely(r#""\"#);
}

#[test]
#[should_panic(expected = "missing closing \"")]
fn string_unclosed() {
    parse_value_completely("\"hello");
}

#[test]
fn empty_list() {
    check_parser(r#"{}"#, list(vec![]))
}

#[test]
fn list_of_numbers() {
    check_parser(
        r#"{1  , 2, 5,4,  3,2,3}"#,
        list(vec![n(1.), n(2.), n(5.), n(4.), n(3.), n(2.), n(3.)]),
    )
}

#[test]
fn list_single_string() {
    check_parser(r#"{"abc"}"#, list(vec![s("abc")]))
}

#[test]
fn list_of_string() {
    check_parser(
        r#"{"abc"   , "cd", "e", "f"}"#,
        list(vec![s("abc"), s("cd"), s("e"), s("f")]),
    )
}

#[test]
fn list_of_lists() {
    check_parser(
        r#"{{}, {}, {}}"#,
        list(vec![list(vec![]), list(vec![]), list(vec![])]),
    )
}

#[test]
fn list_hetero() {
    check_parser(
        r#"{{        }, 1       ,     "xyz",       {  1, "bb"} , 2.5 }"#,
        list(vec![
            list(vec![]),
            n(1.),
            s("xyz"),
            list(vec![n(1.), s("bb")]),
            n(2.5),
        ]),
    )
}

#[test]
fn list_with_trailing_comma() {
    check_parser(r#"{5,}"#, list(vec![n(5.)]))
}

#[test]
#[should_panic(expected = ", not allowed before first item")]
fn list_with_leading_comma_and_element() {
    parse_value_completely(r#"{,5}"#);
}

#[test]
#[should_panic(expected = ", not allowed before first item")]
fn list_first_comma_not_allowed() {
    parse_value_completely(r#"{,}"#);
}

#[test]
#[should_panic(expected = ", not allowed before first item")]
fn map_first_comma_not_allowed() {
    parse_value_completely(r#"{,[5] => 2}"#);
}

#[test]
fn map_simple() {
    check_parser(
        "{\n   [1] = 2,  [2] = 4,\n}",
        map(vec![(n(1.), n(2.)), (n(2.), n(4.))]),
    )
}

#[test]
fn map_single_key() {
    check_parser("{[1] = 2}", map(vec![(n(1.), n(2.))]))
}

#[test]
fn map_string() {
    check_parser(
        r#"{["1"] = "8",  ["5"] = "2"}"#,
        map(vec![(s("1"), s("8")), (s("5"), s("2"))]),
    )
}

#[test]
#[should_panic(expected = "expected a value")]
fn map_no_value() {
    parse_value_completely("{[1] =}");
}

#[test]
#[should_panic(expected = "expected a ]")]
fn map_unbalance_bracket() {
    parse_value_completely("{[1 =}");
}

#[test]
#[should_panic(expected = "expected a =")]
fn map_missing_eq() {
    parse_value_completely("{[1] 1}");
}

#[test]
fn empty_curlies_is_list() {
    check_parser(r#"{}"#, list(vec![]))
}

#[test]
#[should_panic(expected = "can't mix list and map")]
fn mix_list_and_map() {
    parse_value_completely("{[5] = 2, 5}");
}

#[test]
fn map_string_vec() {
    check_parser(
        r#"{["1"] = {1, 2},  ["5"] = {5, 6}}"#,
        map(vec![
            (s("1"), list(vec![n(1.), n(2.)])),
            (s("5"), list(vec![n(5.), n(6.)])),
        ]),
    )
}

#[test]
fn map_nested() {
    check_parser(
        r#"{["1"] = {[1] = 2},  ["5"] = {[3] = 4}}"#,
        map(vec![
            (s("1"), map(vec![(n(1.), n(2.))])),
            (s("5"), map(vec![(n(3.), n(4.))])),
        ]),
    )
}

#[test]
fn map_with_list_keys() {
    check_parser(
        r#"{[{1, 2}] = 1,  [{3, 4}] = {[3] = 4}}"#,
        map(vec![
            (list(vec![n(1.), n(2.)]), n(1.)),
            (list(vec![n(3.), n(4.)]), map(vec![(n(3.), n(4.))])),
        ]),
    )
}

#[test]
fn list_of_map() {
    check_parser(
        r#"{{[1] = 2}, {[3] = 4, [5] = 6}}"#,
        list(vec![
            map(vec![(n(1.), n(2.))]),
            map(vec![(n(3.), n(4.)), (n(5.), n(6.))]),
        ]),
    )
}

#[test]
fn structure() {
    check_parser(r#"{ x = 5 }"#, map(vec![(s("x"), n(5.))]))
}

#[test]
fn structure_field_numbers() {
    check_parser(r#"{ x5xe = 5 }"#, map(vec![(s("x5xe"), n(5.))]))
}

#[test]
fn mix_struct_and_map() {
    check_parser(
        r#"{ x5xe = 5, [3] = 2 }"#,
        map(vec![(s("x5xe"), n(5.)), (n(3.), n(2.))]),
    )
}

#[test]
#[should_panic(expected = "can't mix list and map")]
fn mix_struct_and_list() {
    parse_value_completely("{x = 2, 5}");
}

#[test]
fn reference_number() {
    check_parser(r#"@0x7fffffffde44: 1"#, n(1.))
}

#[test]
fn reference_remove() {
    let mut p = Parser::new("@0x83fd: foobar_random_stuff");
    p.remove_reference();
    assert!(p.position() == 8);
    assert!(p.current() == ' ');
}
