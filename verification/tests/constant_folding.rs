use candy_frontend::bigint::{integer_from_usize, Integer};
use candy_frontend::builtin_functions::BuiltinFunction;
use candy_frontend::id::CountableId;
use candy_frontend::mir::{fold_constants, run_builtin, Body, Expression, Id, VisibleExpressions};

fn id(n: usize) -> Id {
    Id::from_usize(n)
}

fn integer_value(value: i64) -> Expression {
    let magnitude = value.unsigned_abs();
    Expression::Int(Integer {
        negative: value < 0,
        magnitude: vec![magnitude as u32, (magnitude >> 32) as u32],
    })
}

fn value_of(expression: &Option<Expression>) -> Option<i128> {
    match expression {
        Some(Expression::Int(integer)) => {
            let mut value: i128 = 0;
            for digit in integer.magnitude.iter().rev() {
                value = value * (1i128 << 32) + *digit as i128;
            }
            Some(if integer.negative { -value } else { value })
        }
        _ => None,
    }
}

fn tag_symbol(expression: &Option<Expression>) -> Option<(String, Option<usize>)> {
    match expression {
        Some(Expression::Tag { symbol, value }) => Some((symbol.clone(), value.map(|it| it.to_usize()))),
        _ => None,
    }
}

fn tag(symbol: &str) -> Expression {
    Expression::Tag { symbol: symbol.to_string(), value: None }
}

fn visible(entries: Vec<(usize, Expression)>) -> VisibleExpressions {
    let mut visible = VisibleExpressions::none_visible();
    for (n, expression) in entries {
        visible.insert(id(n), expression);
    }
    visible
}

#[test]
fn constant_integers_are_folded() {
    let v = visible(vec![(0, integer_value(2)), (1, integer_value(-7)), (2, Expression::Parameter)]);
    let r = id(9);
    assert_eq!(value_of(&run_builtin(BuiltinFunction::IntAdd, &vec![id(0), id(0)], r, &v)), Some(4));
    assert_eq!(value_of(&run_builtin(BuiltinFunction::IntAdd, &vec![id(0), id(1)], r, &v)), Some(-5));
    assert_eq!(
        value_of(&run_builtin(BuiltinFunction::IntSubtract, &vec![id(0), id(1)], r, &v)),
        Some(9),
    );
    assert_eq!(
        value_of(&run_builtin(BuiltinFunction::IntMultiply, &vec![id(1), id(1)], r, &v)),
        Some(49),
    );
    assert!(run_builtin(BuiltinFunction::IntAdd, &vec![id(0), id(2)], r, &v).is_none());
}

#[test]
fn subtracting_an_unknown_value_from_itself_gives_zero() {
    let v = visible(vec![(2, Expression::Parameter)]);
    assert_eq!(
        value_of(&run_builtin(BuiltinFunction::IntSubtract, &vec![id(2), id(2)], id(9), &v)),
        Some(0),
    );
    assert_eq!(
        tag_symbol(&run_builtin(BuiltinFunction::IntCompareTo, &vec![id(2), id(2)], id(9), &v)),
        Some(("Equal".to_string(), None)),
    );
}

#[test]
fn comparing_integers_gives_ordering_tags() {
    let v = visible(vec![(0, integer_value(2)), (1, integer_value(-7))]);
    let compare = |a: usize, b: usize| {
        tag_symbol(&run_builtin(BuiltinFunction::IntCompareTo, &vec![id(a), id(b)], id(9), &v))
    };
    assert_eq!(compare(0, 1), Some(("Greater".to_string(), None)));
    assert_eq!(compare(1, 0), Some(("Less".to_string(), None)));
}

#[test]
fn if_else_with_a_known_condition_calls_one_branch() {
    let v = visible(vec![(0, tag("True")), (1, Expression::Parameter), (2, Expression::Parameter)]);
    match run_builtin(BuiltinFunction::IfElse, &vec![id(0), id(1), id(2)], id(9), &v) {
        Some(Expression::Call { function, arguments, responsible }) => {
            assert!(function == id(1) && arguments.is_empty() && responsible == id(9));
        }
        _ => panic!("expected a call"),
    }
    let function = |result: Expression| Expression::Function {
        original_hirs: vec![],
        parameters: vec![],
        responsible_parameter: id(20),
        body: Body { expressions: vec![(id(21), result)] },
    };
    let v = visible(vec![
        (0, Expression::Parameter),
        (1, function(tag("True"))),
        (2, function(tag("False"))),
    ]);
    match run_builtin(BuiltinFunction::IfElse, &vec![id(0), id(1), id(2)], id(9), &v) {
        Some(Expression::Reference(condition)) => assert!(condition == id(0)),
        _ => panic!("expected the condition"),
    }
}

#[test]
fn tags_texts_and_lists_are_folded() {
    let v = visible(vec![
        (0, Expression::Tag { symbol: "Foo".to_string(), value: Some(id(5)) }),
        (1, tag("Bar")),
        (2, Expression::Text("ab".to_string())),
        (3, Expression::Text("".to_string())),
        (4, Expression::List(vec![id(0), id(1), id(2)])),
    ]);
    let r = id(9);
    match run_builtin(BuiltinFunction::TagGetValue, &vec![id(0)], r, &v) {
        Some(Expression::Reference(value)) => assert!(value == id(5)),
        _ => panic!("expected the value"),
    }
    assert_eq!(
        tag_symbol(&run_builtin(BuiltinFunction::TagHasValue, &vec![id(1)], r, &v)),
        Some(("False".to_string(), None)),
    );
    assert_eq!(
        tag_symbol(&run_builtin(BuiltinFunction::TagWithoutValue, &vec![id(0)], r, &v)),
        Some(("Foo".to_string(), None)),
    );
    assert_eq!(
        tag_symbol(&run_builtin(BuiltinFunction::TagWithValue, &vec![id(1), id(2)], r, &v)),
        Some(("Bar".to_string(), Some(2))),
    );
    match run_builtin(BuiltinFunction::TextConcatenate, &vec![id(2), id(2)], r, &v) {
        Some(Expression::Text(text)) => assert_eq!(text, "abab"),
        _ => panic!("expected a text"),
    }
    assert_eq!(
        tag_symbol(&run_builtin(BuiltinFunction::TextIsEmpty, &vec![id(3)], r, &v)),
        Some(("True".to_string(), None)),
    );
    assert_eq!(value_of(&run_builtin(BuiltinFunction::ListLength, &vec![id(4)], r, &v)), Some(3));
    assert_eq!(
        value_of(&run_builtin(BuiltinFunction::GetArgumentCount, &vec![id(6)], r, &{
            let mut v = visible(vec![]);
            v.insert(id(6), Expression::Builtin(BuiltinFunction::IfElse));
            v
        })),
        Some(3),
    );
    let _ = integer_from_usize(0);
}

#[test]
fn folding_a_call_of_an_addition() {
    let v = visible(vec![
        (0, Expression::Builtin(BuiltinFunction::IntAdd)),
        (1, integer_value(2)),
        (3, tag("Foo")),
    ]);
    let call = Expression::Call { function: id(0), arguments: vec![id(1), id(1)], responsible: id(9) };
    assert_eq!(value_of(&fold_constants(&v, &call)), Some(4));
    let tagged = Expression::Call { function: id(3), arguments: vec![id(1)], responsible: id(9) };
    assert_eq!(tag_symbol(&fold_constants(&v, &tagged)), Some(("Foo".to_string(), Some(1))));
    assert!(fold_constants(&v, &Expression::Parameter).is_none());
}

#[test]
fn integer_division_rounds_as_the_builtins_say() {
    let v = visible(vec![(0, integer_value(-7)), (1, integer_value(2)), (2, integer_value(6)), (3, integer_value(-4))]);
    let run = |builtin: BuiltinFunction, a: usize, b: usize| {
        value_of(&run_builtin(builtin, &vec![id(a), id(b)], id(9), &v))
    };
    assert_eq!(run(BuiltinFunction::IntDivideTruncating, 0, 1), Some(-3));
    assert_eq!(run(BuiltinFunction::IntRemainder, 0, 1), Some(-1));
    assert_eq!(run(BuiltinFunction::IntModulo, 0, 1), Some(1));
    assert_eq!(run(BuiltinFunction::IntModulo, 2, 3), Some(-2));
    assert_eq!(run(BuiltinFunction::IntDivideTruncating, 0, 0), Some(1));
    assert_eq!(run(BuiltinFunction::IntBitwiseAnd, 2, 1), Some(2));
    assert_eq!(run(BuiltinFunction::IntBitwiseOr, 2, 1), Some(6));
    assert_eq!(run(BuiltinFunction::IntBitwiseXor, 2, 1), Some(4));
    assert_eq!(run(BuiltinFunction::IntBitwiseXor, 2, 2), Some(0));
    match run_builtin(BuiltinFunction::IntBitwiseAnd, &vec![id(2), id(2)], id(9), &v) {
        Some(Expression::Reference(it)) => assert!(it == id(2)),
        _ => panic!("expected a reference"),
    }
}

#[test]
fn text_length_counts_graphemes() {
    let v = visible(vec![(0, Expression::Text("he\u{301}llo".to_string()))]);
    assert_eq!(
        value_of(&run_builtin(BuiltinFunction::TextLength, &vec![id(0)], id(9), &v)),
        Some(5),
    );
}

#[test]
fn text_tests_and_types_are_folded() {
    let v = visible(vec![
        (0, Expression::Text("hello world".to_string())),
        (1, Expression::Text("hello".to_string())),
        (2, Expression::Text("world".to_string())),
        (3, Expression::Text("".to_string())),
        (4, Expression::Parameter),
        (5, Expression::Builtin(BuiltinFunction::IntAdd)),
        (6, Expression::Call { function: id(5), arguments: vec![id(1), id(1)], responsible: id(9) }),
        (7, Expression::Text("lo w".to_string())),
    ]);
    let test = |builtin: BuiltinFunction, a: usize, b: usize| {
        tag_symbol(&run_builtin(builtin, &vec![id(a), id(b)], id(9), &v)).map(|it| it.0)
    };
    assert_eq!(test(BuiltinFunction::TextStartsWith, 0, 1), Some("True".to_string()));
    assert_eq!(test(BuiltinFunction::TextStartsWith, 0, 2), Some("False".to_string()));
    assert_eq!(test(BuiltinFunction::TextEndsWith, 0, 2), Some("True".to_string()));
    assert_eq!(test(BuiltinFunction::TextContains, 0, 7), Some("True".to_string()));
    assert_eq!(test(BuiltinFunction::TextContains, 1, 2), Some("False".to_string()));
    assert_eq!(test(BuiltinFunction::TextContains, 4, 3), Some("True".to_string()));
    assert_eq!(test(BuiltinFunction::TextContains, 4, 2), None);
    let type_of = |a: usize| {
        tag_symbol(&run_builtin(BuiltinFunction::TypeOf, &vec![id(a)], id(9), &v)).map(|it| it.0)
    };
    assert_eq!(type_of(0), Some("Text".to_string()));
    assert_eq!(type_of(5), Some("Function".to_string()));
    assert_eq!(type_of(6), Some("Int".to_string()));
    assert_eq!(type_of(4), None);
}
