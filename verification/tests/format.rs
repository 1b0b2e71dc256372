use candy_frontend::format::{format_value, FormatValue, MaxLength, Precedence};

fn integer(text: &str) -> FormatValue {
    FormatValue::Int(text.to_string())
}

fn tag(symbol: &str, value: Option<FormatValue>) -> FormatValue {
    FormatValue::Tag { symbol: symbol.to_string(), value: value.map(Box::new) }
}

fn low(value: &FormatValue, max_length: MaxLength) -> String {
    format_value(value, Precedence::Low, max_length)
}

#[test]
fn max_length_fits_and_shrinks() {
    assert!(MaxLength::Unlimited.fits(1000));
    assert!(MaxLength::Limited(3).fits(3));
    assert!(!MaxLength::Limited(3).fits(4));
    assert_eq!(MaxLength::Limited(5).subtract(2), MaxLength::Limited(3));
    assert_eq!(MaxLength::Unlimited.subtract(2), MaxLength::Unlimited);
}

#[test]
fn formatting_ints_and_texts() {
    assert_eq!(low(&integer("123"), MaxLength::Unlimited), "123");
    assert_eq!(low(&integer("123"), MaxLength::Limited(3)), "123");
    assert_eq!(low(&integer("123"), MaxLength::Limited(2)), "…");
    let text = FormatValue::Text("hi".to_string());
    assert_eq!(low(&text, MaxLength::Limited(4)), "\"hi\"");
    assert_eq!(low(&text, MaxLength::Limited(3)), "…");
}

#[test]
fn formatting_functions_and_ports() {
    assert_eq!(low(&FormatValue::Function, MaxLength::Limited(5)), "{ … }");
    assert_eq!(low(&FormatValue::Function, MaxLength::Limited(4)), "…");
    assert_eq!(
        format_value(&FormatValue::SendPort, Precedence::High, MaxLength::Unlimited),
        "(send port)",
    );
    assert_eq!(low(&FormatValue::SendPort, MaxLength::Unlimited), "send port");
    assert_eq!(
        format_value(&FormatValue::ReceivePort, Precedence::High, MaxLength::Limited(0)),
        "(receive port)",
    );
    assert_eq!(low(&FormatValue::ReceivePort, MaxLength::Unlimited), "receive port");
}

#[test]
fn formatting_tags() {
    assert_eq!(low(&tag("Foo", None), MaxLength::Unlimited), "Foo");
    let with_value = tag("Foo", Some(integer("5")));
    assert_eq!(format_value(&with_value, Precedence::High, MaxLength::Unlimited), "(Foo 5)");
    assert_eq!(low(&with_value, MaxLength::Unlimited), "Foo 5");
    assert_eq!(format_value(&with_value, Precedence::High, MaxLength::Limited(4)), "…");
    let long_value = tag("Foo", Some(integer("12345")));
    assert_eq!(low(&long_value, MaxLength::Limited(6)), "Foo …");
    let long_symbol = tag("LongSymbol", Some(integer("1")));
    assert_eq!(low(&long_symbol, MaxLength::Limited(4)), "… …");
    assert_eq!(low(&tag("Foo", None), MaxLength::Limited(0)), "…");
    assert_eq!(low(&tag("Foo", None), MaxLength::Limited(2)), "…");
}

#[test]
fn formatting_lists() {
    let empty = FormatValue::List(vec![]);
    assert_eq!(low(&empty, MaxLength::Unlimited), "(,)");
    assert_eq!(low(&empty, MaxLength::Limited(2)), "…");
    assert_eq!(low(&FormatValue::List(vec![integer("1")]), MaxLength::Unlimited), "(1,)");
    assert_eq!(low(&FormatValue::List(vec![integer("123")]), MaxLength::Limited(5)), "(…,)");
    let three = FormatValue::List(vec![integer("1"), integer("2"), integer("3")]);
    assert_eq!(low(&three, MaxLength::Unlimited), "(1, 2, 3)");
    assert_eq!(low(&three, MaxLength::Limited(20)), "(1, 2, 3)");
    assert_eq!(low(&three, MaxLength::Limited(6)), "…");
    let four = FormatValue::List(vec![integer("1"), integer("2"), integer("3"), integer("4")]);
    assert_eq!(low(&four, MaxLength::Limited(12)), "(1, 2, 3, 4)");
    let five = FormatValue::List(vec![
        integer("1"),
        integer("2"),
        integer("3"),
        integer("4"),
        integer("5"),
    ]);
    assert_eq!(low(&five, MaxLength::Limited(13)), "(1, + 4 more)");
    assert_eq!(low(&five, MaxLength::Limited(12)), "…");
    assert_eq!(low(&four, MaxLength::Limited(11)), "…");
    assert_eq!(low(&three, MaxLength::Limited(8)), "…");
    let long = FormatValue::List(vec![integer("1000000000"), integer("2000000000")]);
    assert_eq!(low(&long, MaxLength::Limited(17)), "(list of 2 items)");
    assert_eq!(low(&long, MaxLength::Limited(16)), "…");
}

#[test]
fn formatting_nested_lists() {
    let nested = FormatValue::List(vec![
        FormatValue::List(vec![integer("1"), integer("2")]),
        tag("Foo", Some(integer("3"))),
    ]);
    assert_eq!(low(&nested, MaxLength::Unlimited), "((1, 2), Foo 3)");
}

#[test]
fn formatting_structs() {
    assert_eq!(low(&FormatValue::Struct(vec![]), MaxLength::Unlimited), "[]");
    assert_eq!(low(&FormatValue::Struct(vec![]), MaxLength::Limited(1)), "…");
    let entries = FormatValue::Struct(vec![
        (tag("B", None), integer("2")),
        (tag("A", None), integer("1")),
    ]);
    assert_eq!(low(&entries, MaxLength::Unlimited), "[A: 1, B: 2]");
    assert_eq!(low(&entries, MaxLength::Limited(14)), "[A: 1, B: 2]");
    assert_eq!(low(&entries, MaxLength::Limited(10)), "[, + 2 more]");
    let long_values = FormatValue::Struct(vec![
        (tag("A", None), integer("123456")),
        (tag("B", None), integer("7")),
    ]);
    assert_eq!(low(&long_values, MaxLength::Limited(14)), "[A: …, B: …]");
}

#[test]
fn struct_keys_are_sorted_stably_by_code_point() {
    let entries = FormatValue::Struct(vec![
        (tag("b", None), integer("1")),
        (tag("B", None), integer("2")),
        (tag("a", None), integer("3")),
        (tag("B", None), integer("4")),
    ]);
    assert_eq!(low(&entries, MaxLength::Unlimited), "[B: 2, B: 4, a: 3, b: 1]");
}
