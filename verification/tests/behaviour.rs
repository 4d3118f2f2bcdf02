use value_parser::chars::{decode_escape, digit, ident_char, letter, number_char, space};
use value_parser::grammar::{classify, EntryKind, Shape};
use value_parser::{ParseError, Parser, Separator, Value};

fn parse(text: &str) -> Result<Value, ParseError> {
    Parser::new(text).parse_value()
}

fn num(text: &str) -> Value {
    Value::Number(text.to_owned())
}

fn text(text: &str) -> Value {
    Value::String(text.to_owned())
}

#[test]
fn parsing_twice_gives_equal_trees() {
    let input = r#"{ a = {1, 2.5, "x\ty"}, [true] = @0x1f: false, }"#;
    let first = parse(input);
    let second = parse(input);
    assert!(first.is_ok());
    assert_eq!(first, second);
}

#[test]
fn entry_count_is_commas_plus_one() {
    for (input, count) in [
        ("{}", 0),
        ("{  }", 0),
        ("{7}", 1),
        ("{7,}", 1),
        ("{7,8}", 2),
        ("{7 , 8 , }", 2),
        ("{{1,2},{3,4,5},6}", 3),
        (r#"{"a,b", "c"}"#, 2),
    ] {
        match parse(input) {
            Ok(Value::List(items)) => assert_eq!(items.len(), count, "{input}"),
            other => panic!("{input}: {other:?}"),
        }
    }
    match parse("{a = 1, b = 2, [3] = 4,}") {
        Ok(Value::Dict(pairs)) => assert_eq!(pairs.len(), 3),
        other => panic!("{other:?}"),
    }
}

#[test]
fn two_trailing_commas_are_refused() {
    assert_eq!(
        parse("{1,,}"),
        Err(ParseError::ExpectedValue)
    );
}

#[test]
fn first_entry_locks_the_shape() {
    assert_eq!(parse("{1, x = 2}"), Err(ParseError::MixedContainerShape));
    assert_eq!(parse("{1, [2] = 3}"), Err(ParseError::MixedContainerShape));
    assert_eq!(parse("{x = 1, 2}"), Err(ParseError::MixedContainerShape));
    assert_eq!(parse("{[1] = 2, 3}"), Err(ParseError::MixedContainerShape));
    assert_eq!(parse(r#"{[1] = 2, "s"}"#), Err(ParseError::MixedContainerShape));
    assert_eq!(parse("{x = 1, {}}"), Err(ParseError::MixedContainerShape));
}

#[test]
fn mixed_shape_is_found_before_the_entry_is_read() {
    assert_eq!(parse("{1, x"), Err(ParseError::MixedContainerShape));
    assert_eq!(parse("{x = 1, \"open"), Err(ParseError::MixedContainerShape));
    assert_eq!(parse("{x = 1,"), Err(ParseError::MixedContainerShape));
}

#[test]
fn fields_and_keys_share_the_map_shape() {
    assert_eq!(
        parse("{x = 1, y = 2}"),
        Ok(Value::Dict(vec![(text("x"), num("1")), (text("y"), num("2"))]))
    );
    assert_eq!(
        parse("{[1] = 2, y = 3}"),
        Ok(Value::Dict(vec![(num("1"), num("2")), (text("y"), num("3"))]))
    );
}

#[test]
fn duplicate_keys_are_kept_in_order() {
    assert_eq!(
        parse("{a = 1, a = 2, a = 1}"),
        Ok(Value::Dict(vec![
            (text("a"), num("1")),
            (text("a"), num("2")),
            (text("a"), num("1")),
        ]))
    );
}

#[test]
fn each_escape_decodes_to_its_character() {
    assert_eq!(parse(r#""\n""#), Ok(text("\n")));
    assert_eq!(parse(r#""\t""#), Ok(text("\t")));
    assert_eq!(parse(r#""\r""#), Ok(text("\r")));
    assert_eq!(parse(r#""\\""#), Ok(text("\\")));
    assert_eq!(parse(r#""a\\nb""#), Ok(text("a\\nb")));
    assert_eq!(parse(r#""a\nb\\""#), Ok(text("a\nb\\")));
}

#[test]
fn other_escapes_fail() {
    for c in ['"', 'q', '0', 'N', ' ', 'x', 'b', '\''] {
        let input = format!("\"a\\{c}b\"");
        assert_eq!(parse(&input), Err(ParseError::UnknownEscapeSequence), "{input}");
    }
    assert_eq!(decode_escape('\\'), Some('\\'));
    assert_eq!(decode_escape('n'), Some('\n'));
    assert_eq!(decode_escape('r'), Some('\r'));
    assert_eq!(decode_escape('t'), Some('\t'));
    assert_eq!(decode_escape('0'), None);
    assert_eq!(decode_escape('"'), None);
}

#[test]
fn reference_parses_as_the_value_behind_it() {
    assert_eq!(parse("@0x7fffffffde44: 1"), parse("1"));
    assert_eq!(parse("@0x7fffffffde44: 1"), Ok(num("1")));
    assert_eq!(parse("@0x83fd: 1"), Ok(num("1")));
    assert_eq!(parse("@0xzz not an address:{x = 5}"), parse("{x = 5}"));
    assert_eq!(parse("@0x1: @0x2: true"), Ok(Value::Bool(true)));
    assert_eq!(parse("{@0x1: 1, @0x2: 2}"), parse("{1, 2}"));
}

#[test]
fn reference_without_a_value_fails() {
    assert_eq!(parse("@0x1234"), Err(ParseError::ExpectedValue));
    assert_eq!(parse("@0x1234:"), Err(ParseError::ExpectedValue));
}

#[test]
fn malformed_numbers_are_refused() {
    assert_eq!(parse("1..5"), Err(ParseError::InvalidNumber));
    assert_eq!(parse("1.5.2"), Err(ParseError::InvalidNumber));
    assert_eq!(parse("{1, 2..3}"), Err(ParseError::InvalidNumber));
    assert_eq!(Parser::new("..").parse_number(), Err(ParseError::InvalidNumber));
    assert_eq!(Parser::new(".").parse_number(), Err(ParseError::InvalidNumber));
    assert_eq!(Parser::new("").parse_number(), Err(ParseError::InvalidNumber));
    assert_eq!(Parser::new("x1").parse_number(), Err(ParseError::InvalidNumber));
}

#[test]
fn numbers_are_kept_as_written() {
    assert_eq!(parse("007"), Ok(num("007")));
    assert_eq!(parse("1."), Ok(num("1.")));
    assert_eq!(parse("12.50 "), Ok(num("12.50")));
    assert_eq!(Parser::new(".5x").parse_number(), Ok(".5".to_owned()));
    let mut p = Parser::new("3.25,4");
    assert_eq!(p.parse_number(), Ok("3.25".to_owned()));
    assert_eq!(p.position(), 4);
}

#[test]
fn every_parsed_number_is_a_float() {
    for input in ["0", "1.", "10.75", "000.000", "123456789012345678901234567890"] {
        match parse(input) {
            Ok(Value::Number(digits)) => {
                assert_eq!(digits, input);
                assert!(digits.parse::<f64>().is_ok(), "{input}");
            }
            other => panic!("{input}: {other:?}"),
        }
    }
    assert_eq!(parse("10.75"), Ok(num("10.75")));
    match parse("10.75") {
        Ok(Value::Number(digits)) => assert_eq!(digits.parse::<f64>(), Ok(10.75)),
        other => panic!("{other:?}"),
    }
}

#[test]
fn scenario_empty_braces() {
    assert_eq!(parse("{}"), Ok(Value::List(vec![])));
}

#[test]
fn scenario_list_of_three() {
    assert_eq!(
        parse("{1, 2, 3}"),
        Ok(Value::List(vec![num("1"), num("2"), num("3")]))
    );
}

#[test]
fn scenario_keyed_map() {
    assert_eq!(
        parse("{[1] = 2, [2] = 4}"),
        Ok(Value::Dict(vec![(num("1"), num("2")), (num("2"), num("4"))]))
    );
}

#[test]
fn scenario_struct_field() {
    assert_eq!(parse("{x = 5}"), Ok(Value::Dict(vec![(text("x"), num("5"))])));
}

#[test]
fn scenario_escaped_string() {
    assert_eq!(parse(r#""\n\t""#), Ok(text("\n\t")));
}

#[test]
fn scenario_mixed_container() {
    assert_eq!(parse("{x = 5, 1}"), Err(ParseError::MixedContainerShape));
}

#[test]
fn scenario_reference() {
    assert_eq!(parse("@0x83fd: 1"), Ok(num("1")));
}

#[test]
fn every_failure_has_an_input() {
    assert_eq!(parse(""), Err(ParseError::ExpectedValue));
    assert_eq!(parse("   "), Err(ParseError::ExpectedValue));
    assert_eq!(parse("}"), Err(ParseError::ExpectedValue));
    assert_eq!(parse("tru"), Err(ParseError::ExpectedValue));
    assert_eq!(parse("-1"), Err(ParseError::ExpectedValue));
    assert_eq!(parse("{"), Err(ParseError::ExpectedValue));
    assert_eq!(parse("{[x] = 1}"), Err(ParseError::ExpectedValue));
    assert_eq!(parse("\"abc"), Err(ParseError::UnterminatedString));
    assert_eq!(parse("\""), Err(ParseError::UnterminatedString));
    assert_eq!(parse("\"abc\\"), Err(ParseError::UnknownEscapeSequence));
    assert_eq!(parse("{,}"), Err(ParseError::LeadingSeparator));
    assert_eq!(parse("{ , 1}"), Err(ParseError::LeadingSeparator));
    assert_eq!(
        parse("{1 2}"),
        Err(ParseError::MissingSeparator(Separator::Comma))
    );
    assert_eq!(
        parse("{1"),
        Err(ParseError::MissingSeparator(Separator::Comma))
    );
    assert_eq!(
        parse("{[1 = 2}"),
        Err(ParseError::MissingSeparator(Separator::Bracket))
    );
    assert_eq!(
        parse("{[1] 2}"),
        Err(ParseError::MissingSeparator(Separator::Equals))
    );
    assert_eq!(
        parse("{x 2}"),
        Err(ParseError::MissingSeparator(Separator::Equals))
    );
    assert_eq!(
        parse("{true}"),
        Err(ParseError::MissingSeparator(Separator::Equals))
    );
    assert_eq!(parse("{1, x = 1}"), Err(ParseError::MixedContainerShape));
    assert_eq!(parse("9.9.9"), Err(ParseError::InvalidNumber));
}

#[test]
fn failures_inside_a_container_end_the_parse() {
    assert_eq!(parse(r#"{1, "a\q", 3}"#), Err(ParseError::UnknownEscapeSequence));
    assert_eq!(parse("{1, {2, {3, ?}}}"), Err(ParseError::ExpectedValue));
    assert_eq!(parse("{x = {,}}"), Err(ParseError::LeadingSeparator));
}

#[test]
fn every_failure_has_its_words() {
    assert_eq!(ParseError::ExpectedValue.message(), "expected a value");
    assert_eq!(ParseError::UnterminatedString.message(), "missing closing \"");
    assert_eq!(ParseError::UnknownEscapeSequence.message(), "unknown escape");
    assert_eq!(
        ParseError::LeadingSeparator.message(),
        ", not allowed before first item"
    );
    assert_eq!(
        ParseError::MissingSeparator(Separator::Comma).message(),
        "expected , after list item"
    );
    assert_eq!(
        ParseError::MissingSeparator(Separator::Bracket).message(),
        "expected a ]"
    );
    assert_eq!(
        ParseError::MissingSeparator(Separator::Equals).message(),
        "expected a = after key"
    );
    assert_eq!(
        ParseError::MixedContainerShape.message(),
        "can't mix list and map"
    );
    assert_eq!(ParseError::InvalidNumber.message(), "invalid number");
}

#[test]
fn value_stops_behind_what_it_read() {
    let mut p = Parser::new("  {1, 2} rest");
    assert_eq!(p.parse_value(), Ok(Value::List(vec![num("1"), num("2")])));
    assert_eq!(p.position(), 8);
    assert!(!p.at_eof());

    let mut p = Parser::new("truest");
    assert_eq!(p.parse_value(), Ok(Value::Bool(true)));
    assert_eq!(p.position(), 4);

    let mut p = Parser::new("\"a\\nb\"x");
    assert_eq!(p.parse_value(), Ok(text("a\nb")));
    assert_eq!(p.position(), 6);
}

#[test]
fn container_is_read_behind_its_brace() {
    let mut p = Parser::new("1, 2}x");
    assert_eq!(
        p.parse_list_or_map(),
        Ok(Value::List(vec![num("1"), num("2")]))
    );
    assert_eq!(p.position(), 5);
    assert_eq!(Parser::new("}").parse_list_or_map(), Ok(Value::List(vec![])));
    assert_eq!(
        Parser::new("").parse_list_or_map(),
        Err(ParseError::ExpectedValue)
    );
}

#[test]
fn string_is_read_behind_its_quote() {
    let mut p = Parser::new("ab\\tc\" tail");
    assert_eq!(p.parse_string(), Ok("ab\tc".to_owned()));
    assert_eq!(p.position(), 6);
    assert_eq!(Parser::new("\"").parse_string(), Ok(String::new()));
    assert_eq!(
        Parser::new("").parse_string(),
        Err(ParseError::UnterminatedString)
    );
}

#[test]
fn cursor_primitives() {
    let mut p = Parser::new("ab \t\n\x0c\rcd");
    assert_eq!(p.position(), 0);
    assert!(!p.at_eof());
    assert_eq!(p.current(), 'a');
    assert!(p.at("ab"));
    assert!(p.at(""));
    assert!(!p.at("abc"));
    assert!(!p.at("b"));
    assert!(!p.at("ab \t\n\x0c\rcde"));
    assert!(!p.at("\u{e9}"));
    assert!(!p.eat("b"));
    assert_eq!(p.position(), 0);
    assert!(p.eat("ab"));
    assert_eq!(p.position(), 2);
    p.eat_ws();
    assert_eq!(p.position(), 7);
    p.eat_ws();
    assert_eq!(p.position(), 7);
    assert_eq!(p.eat_current(), 'c');
    assert_eq!(p.position(), 8);
    p.advance();
    assert_eq!(p.position(), 9);
    assert!(p.at_eof());
    assert_eq!(p.current(), '\0');
    assert_eq!(p.eat_current(), '\0');
    p.advance();
    assert_eq!(p.position(), 9);
    assert!(p.at(""));
    assert!(!p.at("c"));
    p.goto(1);
    assert_eq!(p.position(), 1);
    assert_eq!(p.current(), 'b');
    p.goto(9);
    assert!(p.at_eof());
}

#[test]
fn identifier_is_letters_and_digits() {
    let mut p = Parser::new("x5xe_y = 1");
    assert_eq!(p.parse_ident(), "x5xe");
    assert_eq!(p.position(), 4);
    assert_eq!(p.parse_ident(), "");
    assert_eq!(p.position(), 4);
    let mut p = Parser::new("9lives");
    assert_eq!(p.parse_ident(), "9lives");
    assert!(p.at_eof());
}

#[test]
fn reference_is_removed_up_to_its_colon() {
    let mut p = Parser::new("abc:def:ghi");
    p.remove_reference();
    assert_eq!(p.position(), 4);
    p.remove_reference();
    assert_eq!(p.position(), 8);
    p.remove_reference();
    assert_eq!(p.position(), 11);
    assert!(p.at_eof());
    p.remove_reference();
    assert_eq!(p.position(), 11);
}

#[test]
fn character_classes() {
    for c in [' ', '\t', '\n', '\x0c', '\r'] {
        assert!(space(c));
    }
    for c in ['\x0b', 'a', '0', '\0', '\u{a0}'] {
        assert!(!space(c));
    }
    for c in 0u8..128 {
        let c = c as char;
        assert_eq!(space(c), c.is_ascii_whitespace());
        assert_eq!(digit(c), c.is_ascii_digit());
        assert_eq!(letter(c), c.is_ascii_alphabetic());
        assert_eq!(ident_char(c), c.is_ascii_alphanumeric());
        assert_eq!(number_char(c), c.is_ascii_digit() || c == '.');
    }
    assert!(!letter('\u{e9}'));
    assert!(!digit('\u{663}'));
}

#[test]
fn entry_forms() {
    assert_eq!(classify('['), EntryKind::Keyed);
    assert_eq!(classify('a'), EntryKind::Field);
    assert_eq!(classify('Z'), EntryKind::Field);
    assert_eq!(classify('1'), EntryKind::Item);
    assert_eq!(classify('"'), EntryKind::Item);
    assert_eq!(classify('{'), EntryKind::Item);
    assert_eq!(classify('@'), EntryKind::Item);
    assert_eq!(classify('_'), EntryKind::Item);
    assert_eq!(classify('\0'), EntryKind::Item);
}

#[test]
fn shape_machine() {
    let u = Shape::Undetermined;
    assert_eq!(u.locked(EntryKind::Item), Ok(Shape::List));
    assert_eq!(u.locked(EntryKind::Field), Ok(Shape::Dict));
    assert_eq!(u.locked(EntryKind::Keyed), Ok(Shape::Dict));
    assert_eq!(Shape::List.locked(EntryKind::Item), Ok(Shape::List));
    assert_eq!(Shape::Dict.locked(EntryKind::Field), Ok(Shape::Dict));
    assert_eq!(Shape::Dict.locked(EntryKind::Keyed), Ok(Shape::Dict));
    assert_eq!(
        Shape::List.locked(EntryKind::Field),
        Err(ParseError::MixedContainerShape)
    );
    assert_eq!(
        Shape::List.locked(EntryKind::Keyed),
        Err(ParseError::MixedContainerShape)
    );
    assert_eq!(
        Shape::Dict.locked(EntryKind::Item),
        Err(ParseError::MixedContainerShape)
    );
}

#[test]
fn nested_values_keep_source_order() {
    assert_eq!(
        parse(r#"{ a = {3, 1, 2}, b = {[{}] = "k", c = false} }"#),
        Ok(Value::Dict(vec![
            (
                text("a"),
                Value::List(vec![num("3"), num("1"), num("2")])
            ),
            (
                text("b"),
                Value::Dict(vec![
                    (Value::List(vec![]), text("k")),
                    (text("c"), Value::Bool(false)),
                ])
            ),
        ]))
    );
}
