use super::expression::{Expression, VisibleExpressions};
use super::Id;
use crate::bigint::{
    bitwise_and, bitwise_or, bitwise_xor, floored_remainder, integer_add, integer_and,
    integer_divide_truncating, integer_equal, integer_from_usize, integer_less, integer_modulo,
    integer_multiply, integer_or, integer_remainder, integer_subtract, integer_xor,
    truncating_quotient, truncating_remainder,
};
use crate::position::{count_graphemes, grapheme_count};
use crate::builtin_functions::BuiltinFunction;
use crate::text::{occurs_at, push_str, str_contains, str_ends_with, str_equal, str_starts_with};
use vstd::prelude::*;

verus! {

/// The expression visible under the argument at an index.
pub open spec fn argument(visible: VisibleExpressions, arguments: Seq<Id>, index: int) -> Option<
    Expression,
> {
    visible.spec_get(arguments[index])
}

/// Whether a result is the tag with the given symbol and no value.
pub open spec fn is_tag(result: Option<Expression>, symbol: Seq<char>) -> bool {
    result matches Some(Expression::Tag { symbol: found, value: None }) && found@ == symbol
}

/// Whether a result is the tag `True` or `False`.
pub open spec fn is_bool(result: Option<Expression>, value: bool) -> bool {
    is_tag(result, if value { "True"@ } else { "False"@ })
}

/// Whether a result is the integer with the given value.
pub open spec fn is_int(result: Option<Expression>, value: int) -> bool {
    result matches Some(Expression::Int(found)) && found@ == value
}

/// The truth that an expression stands for: the tags `True` and `False`,
/// with or without a value.
pub open spec fn truth_of(expression: Option<Expression>) -> Option<bool> {
    match expression {
        Some(Expression::Tag { symbol, .. }) => if symbol@ == "True"@ {
            Some(true)
        } else if symbol@ == "False"@ {
            Some(false)
        } else {
            None
        },
        _ => None,
    }
}

/// Whether two expressions are functions of which the first only gives
/// `True` and the second only `False`.
pub open spec fn gives_true_then_false(then: Option<Expression>, otherwise: Option<Expression>) -> bool {
    match (then, otherwise) {
        (Some(Expression::Function { body: a, .. }), Some(Expression::Function { body: b, .. })) => {
            &&& a.expressions@.len() == 1
            &&& b.expressions@.len() == 1
            &&& truth_of(Some(a.expressions@[0].1)) == Some(true)
            &&& truth_of(Some(b.expressions@[0].1)) == Some(false)
        },
        _ => false,
    }
}

/// Whether a result is a call of a function without arguments.
pub open spec fn is_call_without_arguments(
    result: Option<Expression>,
    function: Id,
    responsible: Id,
) -> bool {
    result matches Some(Expression::Call { function: called, arguments, responsible: r })
        && called == function && arguments@.len() == 0 && r == responsible
}

/// The type of what a call of a builtin gives, where it is known.
pub open spec fn call_result_type(builtin: BuiltinFunction) -> Option<Seq<char>> {
    match builtin {
        BuiltinFunction::Equals => Some("Tag"@),
        BuiltinFunction::FunctionRun => None,
        BuiltinFunction::GetArgumentCount => Some("Int"@),
        BuiltinFunction::IfElse => None,
        BuiltinFunction::IntAdd => Some("Int"@),
        BuiltinFunction::IntBitLength => Some("Int"@),
        BuiltinFunction::IntBitwiseAnd => Some("Int"@),
        BuiltinFunction::IntBitwiseOr => Some("Int"@),
        BuiltinFunction::IntBitwiseXor => Some("Int"@),
        BuiltinFunction::IntCompareTo => Some("Tag"@),
        BuiltinFunction::IntDivideTruncating => Some("Int"@),
        BuiltinFunction::IntModulo => Some("Int"@),
        BuiltinFunction::IntMultiply => Some("Int"@),
        BuiltinFunction::IntParse => Some("Struct"@),
        BuiltinFunction::IntRemainder => Some("Int"@),
        BuiltinFunction::IntShiftLeft => Some("Int"@),
        BuiltinFunction::IntShiftRight => Some("Int"@),
        BuiltinFunction::IntSubtract => Some("Int"@),
        BuiltinFunction::ListFilled => Some("List"@),
        BuiltinFunction::ListGet => None,
        BuiltinFunction::ListInsert => Some("List"@),
        BuiltinFunction::ListLength => Some("Int"@),
        BuiltinFunction::ListRemoveAt => Some("List"@),
        BuiltinFunction::ListReplace => Some("List"@),
        BuiltinFunction::Print => Some("Tag"@),
        BuiltinFunction::StructGet => None,
        BuiltinFunction::StructGetKeys => Some("List"@),
        BuiltinFunction::StructHasKey => Some("Tag"@),
        BuiltinFunction::TagGetValue => None,
        BuiltinFunction::TagHasValue => Some("Tag"@),
        BuiltinFunction::TagWithoutValue => Some("Tag"@),
        BuiltinFunction::TagWithValue => Some("Tag"@),
        BuiltinFunction::TextCharacters => Some("List"@),
        BuiltinFunction::TextConcatenate => Some("Text"@),
        BuiltinFunction::TextContains => Some("Tag"@),
        BuiltinFunction::TextEndsWith => Some("Tag"@),
        BuiltinFunction::TextFromUtf8 => Some("Tag"@),
        BuiltinFunction::TextGetRange => Some("Text"@),
        BuiltinFunction::TextIsEmpty => Some("Tag"@),
        BuiltinFunction::TextLength => Some("Int"@),
        BuiltinFunction::TextStartsWith => Some("Tag"@),
        BuiltinFunction::TextTrimEnd => Some("Text"@),
        BuiltinFunction::TextTrimStart => Some("Text"@),
        BuiltinFunction::ToDebugText => Some("Text"@),
        BuiltinFunction::TypeOf => Some("Tag"@),
    }
}

/// The name of the type of an expression's value, where it is known.
pub open spec fn type_of(visible: VisibleExpressions, expression: Expression) -> Option<Seq<char>> {
    match expression {
        Expression::Int(_) => Some("Int"@),
        Expression::Text(_) => Some("Text"@),
        Expression::Tag { .. } => Some("Tag"@),
        Expression::Builtin(_) => Some("Function"@),
        Expression::List(_) => Some("List"@),
        Expression::Struct(_) => Some("Struct"@),
        Expression::Function { .. } => Some("Function"@),
        Expression::Call { function, .. } => match visible.spec_get(function) {
            Some(Expression::Builtin(called)) => call_result_type(called),
            _ => None,
        },
        _ => None,
    }
}

/// Whether asking for the type of an expression fails: for a HIR ID, for
/// tracing, and for a call of a function that is not visible.
pub open spec fn type_of_fails(visible: VisibleExpressions, expression: Expression) -> bool {
    match expression {
        Expression::HirId(_) => true,
        Expression::TraceCallStarts { .. } => true,
        Expression::TraceCallEnds { .. } => true,
        Expression::TraceExpressionEvaluated { .. } => true,
        Expression::TraceFoundFuzzableFunction { .. } => true,
        Expression::Call { function, .. } => visible.spec_get(function) is None,
        _ => false,
    }
}

/// Whether a text starts with another.
pub open spec fn starts_with(text: Seq<char>, prefix: Seq<char>) -> bool {
    prefix.len() <= text.len() && text.take(prefix.len() as int) == prefix
}

/// Whether a text ends with another.
pub open spec fn ends_with(text: Seq<char>, suffix: Seq<char>) -> bool {
    suffix.len() <= text.len() && text.skip(text.len() - suffix.len()) == suffix
}

/// Whether a text holds another.
pub open spec fn contains_text(text: Seq<char>, pattern: Seq<char>) -> bool {
    exists|position: int| occurs_at(text, pattern, position)
}

/// What a text test of the given builtin says of a text and a pattern.
pub open spec fn text_test(builtin: BuiltinFunction, text: Seq<char>, pattern: Seq<char>) -> bool {
    if builtin == BuiltinFunction::TextStartsWith {
        starts_with(text, pattern)
    } else if builtin == BuiltinFunction::TextEndsWith {
        ends_with(text, pattern)
    } else {
        contains_text(text, pattern)
    }
}

/// The result of a text test: an empty pattern gives `True` whatever the
/// text.
pub open spec fn text_test_result(
    builtin: BuiltinFunction,
    text: Option<Expression>,
    pattern: Option<Expression>,
    result: Option<Expression>,
) -> bool {
    match pattern {
        Some(Expression::Text(p)) => if p@.len() == 0 {
            is_bool(result, true)
        } else {
            match text {
                Some(Expression::Text(t)) => is_bool(result, text_test(builtin, t@, p@)),
                _ => result is None,
            }
        },
        _ => result is None,
    }
}

/// Whether an expression is a value that is constant whatever else is
/// known: an integer, a text, a tag without a value or a builtin.
pub open spec fn is_literal(expression: Expression) -> bool {
    match expression {
        Expression::Int(_) | Expression::Text(_) | Expression::Builtin(_) => true,
        Expression::Tag { value, .. } => value is None,
        _ => false,
    }
}

/// Whether two literals are the same value; literals of different kinds
/// never are.
pub open spec fn same_literal(a: Expression, b: Expression) -> bool {
    match (a, b) {
        (Expression::Int(x), Expression::Int(y)) => x@ == y@,
        (Expression::Text(x), Expression::Text(y)) => x@ == y@,
        (Expression::Tag { symbol: x, .. }, Expression::Tag { symbol: y, .. }) => x@ == y@,
        (Expression::Builtin(x), Expression::Builtin(y)) => x == y,
        _ => false,
    }
}

/// Whether every key of a struct's fields is a visible literal.
pub open spec fn literal_keys(visible: VisibleExpressions, fields: Seq<(Id, Id)>) -> bool {
    forall|i: int|
        0 <= i < fields.len() ==> (visible.spec_get(#[trigger] fields[i].0) matches Some(key)
            && is_literal(key))
}

/// Whether a field's key is the key looked for: the same ID, or the same
/// literal value.
pub open spec fn key_matches(visible: VisibleExpressions, field_key: Id, key: Id) -> bool {
    field_key == key || same_literal(
        visible.spec_get(field_key).unwrap(),
        visible.spec_get(key).unwrap(),
    )
}

/// The value of the last field whose key matches the key looked for.
pub open spec fn last_matching_value(
    visible: VisibleExpressions,
    fields: Seq<(Id, Id)>,
    key: Id,
) -> Option<Id>
    decreases fields.len(),
{
    if fields.len() == 0 {
        None
    } else if key_matches(visible, fields.last().0, key) {
        Some(fields.last().1)
    } else {
        last_matching_value(visible, fields.drop_last(), key)
    }
}

/// What `structGet` gives at compile time: where the struct is known, its
/// keys and the key looked for are literals, and a key matches, a reference
/// to the value of the last field whose key matches.
pub open spec fn struct_get_result(
    visible: VisibleExpressions,
    struct_: Option<Expression>,
    key: Id,
    result: Option<Expression>,
) -> bool {
    match struct_ {
        Some(Expression::Struct(fields)) => if (visible.spec_get(key) matches Some(k) && is_literal(
            k,
        )) && literal_keys(visible, fields@) {
            match last_matching_value(visible, fields@, key) {
                Some(value) => result == Some(Expression::Reference(value)),
                None => result is None,
            }
        } else {
            result is None
        },
        _ => result is None,
    }
}

/// What running a builtin at compile time gives, from what is known of its
/// arguments: the expression that the call can be replaced by, or nothing
/// where not enough is known. Of the builtins, these are run: `functionRun`,
/// `getArgumentCount`, `ifElse`, the integer arithmetic, bitwise and
/// comparison builtins, `listLength`, `structGet`, the four tag builtins,
/// `textConcatenate` of two texts, `textIsEmpty`, `textLength`, the three
/// text tests and `typeOf`.
pub open spec fn builtin_result(
    builtin: BuiltinFunction,
    arguments: Seq<Id>,
    responsible: Id,
    visible: VisibleExpressions,
    result: Option<Expression>,
) -> bool {
    match builtin {
        BuiltinFunction::FunctionRun => is_call_without_arguments(
            result,
            arguments[0],
            responsible,
        ),
        BuiltinFunction::GetArgumentCount => match argument(visible, arguments, 0) {
            Some(Expression::Builtin(called)) => is_int(result, called.spec_num_parameters() as int),
            Some(Expression::Function { parameters, .. }) => is_int(result, parameters@.len() as int),
            _ => result is None,
        },
        BuiltinFunction::IfElse => match truth_of(argument(visible, arguments, 0)) {
            Some(condition) => is_call_without_arguments(
                result,
                if condition {
                    arguments[1]
                } else {
                    arguments[2]
                },
                responsible,
            ),
            None => if gives_true_then_false(
                argument(visible, arguments, 1),
                argument(visible, arguments, 2),
            ) {
                result == Some(Expression::Reference(arguments[0]))
            } else {
                result is None
            },
        },
        BuiltinFunction::IntAdd => match (
            argument(visible, arguments, 0),
            argument(visible, arguments, 1),
        ) {
            (Some(Expression::Int(a)), Some(Expression::Int(b))) => is_int(result, a@ + b@),
            _ => result is None,
        },
        BuiltinFunction::IntSubtract => if arguments[0] == arguments[1] {
            is_int(result, 0)
        } else {
            match (argument(visible, arguments, 0), argument(visible, arguments, 1)) {
                (Some(Expression::Int(a)), Some(Expression::Int(b))) => is_int(result, a@ - b@),
                _ => result is None,
            }
        },
        BuiltinFunction::IntMultiply => match (
            argument(visible, arguments, 0),
            argument(visible, arguments, 1),
        ) {
            (Some(Expression::Int(a)), Some(Expression::Int(b))) => is_int(result, a@ * b@),
            _ => result is None,
        },
        BuiltinFunction::IntCompareTo => if arguments[0] == arguments[1] {
            is_tag(result, "Equal"@)
        } else {
            match (argument(visible, arguments, 0), argument(visible, arguments, 1)) {
                (Some(Expression::Int(a)), Some(Expression::Int(b))) => is_tag(
                    result,
                    if a@ < b@ {
                        "Less"@
                    } else if a@ == b@ {
                        "Equal"@
                    } else {
                        "Greater"@
                    },
                ),
                _ => result is None,
            }
        },
        BuiltinFunction::ListLength => match argument(visible, arguments, 0) {
            Some(Expression::List(items)) => is_int(result, items@.len() as int),
            _ => result is None,
        },
        BuiltinFunction::TagGetValue => match argument(visible, arguments, 0) {
            Some(Expression::Tag { value: Some(value), .. }) => result == Some(
                Expression::Reference(value),
            ),
            _ => result is None,
        },
        BuiltinFunction::TagHasValue => match argument(visible, arguments, 0) {
            Some(Expression::Tag { value, .. }) => is_bool(result, value is Some),
            _ => result is None,
        },
        BuiltinFunction::TagWithoutValue => match argument(visible, arguments, 0) {
            Some(Expression::Tag { symbol, .. }) => is_tag(result, symbol@),
            _ => result is None,
        },
        BuiltinFunction::TagWithValue => match argument(visible, arguments, 0) {
            Some(Expression::Tag { symbol, value: None }) => result matches Some(
                Expression::Tag { symbol: found, value: Some(value) },
            ) && found@ == symbol@ && value == arguments[1],
            _ => result is None,
        },
        BuiltinFunction::TextConcatenate => match (
            argument(visible, arguments, 0),
            argument(visible, arguments, 1),
        ) {
            (Some(Expression::Text(a)), Some(Expression::Text(b))) => result matches Some(
                Expression::Text(text),
            ) && text@ == a@ + b@,
            _ => result is None,
        },
        BuiltinFunction::TextIsEmpty => match argument(visible, arguments, 0) {
            Some(Expression::Text(text)) => is_bool(result, text@.len() == 0),
            _ => result is None,
        },
        BuiltinFunction::IntBitwiseAnd => if arguments[0] == arguments[1] {
            result == Some(Expression::Reference(arguments[0]))
        } else {
            match (argument(visible, arguments, 0), argument(visible, arguments, 1)) {
                (Some(Expression::Int(a)), Some(Expression::Int(b))) => is_int(result, bitwise_and(a@, b@)),
                _ => result is None,
            }
        },
        BuiltinFunction::IntBitwiseOr => if arguments[0] == arguments[1] {
            result == Some(Expression::Reference(arguments[0]))
        } else {
            match (argument(visible, arguments, 0), argument(visible, arguments, 1)) {
                (Some(Expression::Int(a)), Some(Expression::Int(b))) => is_int(result, bitwise_or(a@, b@)),
                _ => result is None,
            }
        },
        BuiltinFunction::IntBitwiseXor => if arguments[0] == arguments[1] {
            is_int(result, 0)
        } else {
            match (argument(visible, arguments, 0), argument(visible, arguments, 1)) {
                (Some(Expression::Int(a)), Some(Expression::Int(b))) => is_int(result, bitwise_xor(a@, b@)),
                _ => result is None,
            }
        },
        BuiltinFunction::IntDivideTruncating => if arguments[0] == arguments[1] {
            is_int(result, 1)
        } else {
            match (argument(visible, arguments, 0), argument(visible, arguments, 1)) {
                (Some(Expression::Int(a)), Some(Expression::Int(b))) => is_int(result, truncating_quotient(a@, b@)),
                _ => result is None,
            }
        },
        BuiltinFunction::IntModulo => if arguments[0] == arguments[1] {
            is_int(result, 0)
        } else {
            match (argument(visible, arguments, 0), argument(visible, arguments, 1)) {
                (Some(Expression::Int(a)), Some(Expression::Int(b))) => is_int(result, floored_remainder(a@, b@)),
                _ => result is None,
            }
        },
        BuiltinFunction::IntRemainder => if arguments[0] == arguments[1] {
            is_int(result, 0)
        } else {
            match (argument(visible, arguments, 0), argument(visible, arguments, 1)) {
                (Some(Expression::Int(a)), Some(Expression::Int(b))) => is_int(result, truncating_remainder(a@, b@)),
                _ => result is None,
            }
        },
        BuiltinFunction::TextLength => match argument(visible, arguments, 0) {
            Some(Expression::Text(text)) => is_int(result, grapheme_count(text@) as int),
            _ => result is None,
        },
        BuiltinFunction::TextStartsWith | BuiltinFunction::TextEndsWith
        | BuiltinFunction::TextContains => text_test_result(
            builtin,
            argument(visible, arguments, 0),
            argument(visible, arguments, 1),
            result,
        ),
        BuiltinFunction::StructGet => struct_get_result(
            visible,
            argument(visible, arguments, 0),
            arguments[1],
            result,
        ),
        BuiltinFunction::TypeOf => match argument(visible, arguments, 0) {
            Some(expression) => match type_of(visible, expression) {
                Some(name) => is_tag(result, name),
                None => result is None,
            },
            None => result is None,
        },
        _ => result is None,
    }
}

/// The type that `typeOf` gives for a call of a builtin is the type of the
/// value that the builtin gives: wherever running a builtin at compile time
/// gives a value whose type is known, and the call's type is known, the two
/// agree. So `textLength` gives an `Int`, as its call's type says.
pub proof fn lemma_call_type_is_result_type(
    builtin: BuiltinFunction,
    arguments: Seq<Id>,
    responsible: Id,
    visible: VisibleExpressions,
    result: Option<Expression>,
)
    requires
        builtin_result(builtin, arguments, responsible, visible, result),
        result matches Some(value) && type_of(visible, value) is Some,
        call_result_type(builtin) is Some,
    ensures
        result matches Some(value) && call_result_type(builtin) == type_of(visible, value),
{
    reveal_strlit("Int");
    reveal_strlit("Tag");
    reveal_strlit("Text");
}

/// Running a builtin at compile time reads only the arguments that the
/// builtin takes: two argument lists that agree on the builtin's parameters
/// give the same result, whatever follows them. So `structGet`, which looks up
/// its second argument in its first, takes two parameters.
pub proof fn lemma_result_reads_only_parameters(
    builtin: BuiltinFunction,
    first: Seq<Id>,
    second: Seq<Id>,
    responsible: Id,
    visible: VisibleExpressions,
    result: Option<Expression>,
)
    requires
        first.len() >= builtin.spec_num_parameters(),
        second.len() >= builtin.spec_num_parameters(),
        forall|i: int| 0 <= i < builtin.spec_num_parameters() ==> first[i] == second[i],
    ensures
        builtin_result(builtin, first, responsible, visible, result) == builtin_result(
            builtin,
            second,
            responsible,
            visible,
            result,
        ),
{
    let n = builtin.spec_num_parameters();
    if n >= 1 {
        assert(first[0] == second[0]);
    }
    if n >= 2 {
        assert(first[1] == second[1]);
    }
    if n >= 3 {
        assert(first[2] == second[2]);
    }
}

/// Whether running a builtin fails: where it divides by a zero it knows
/// of, or asks for a type that it can't tell.
pub open spec fn run_fails(
    builtin: BuiltinFunction,
    arguments: Seq<Id>,
    visible: VisibleExpressions,
) -> bool {
    ||| divides_by_zero(builtin, arguments, visible)
    ||| (builtin == BuiltinFunction::TypeOf && (argument(visible, arguments, 0) matches Some(
        expression,
    ) && type_of_fails(visible, expression)))
}

/// Whether running a builtin would divide by a zero it knows of, which the
/// division builtins do not allow.
pub open spec fn divides_by_zero(
    builtin: BuiltinFunction,
    arguments: Seq<Id>,
    visible: VisibleExpressions,
) -> bool {
    &&& (builtin == BuiltinFunction::IntDivideTruncating || builtin == BuiltinFunction::IntModulo
        || builtin == BuiltinFunction::IntRemainder)
    &&& arguments[0] != arguments[1]
    &&& argument(visible, arguments, 0) matches Some(Expression::Int(_))
    &&& argument(visible, arguments, 1) matches Some(Expression::Int(divisor)) && divisor@ == 0
}

/// Whether all arguments are visible.
pub open spec fn arguments_visible(visible: VisibleExpressions, arguments: Seq<Id>) -> bool {
    forall|i: int| 0 <= i < arguments.len() ==> (#[trigger] visible.spec_get(arguments[i])) is Some
}

/// A tag without a value.
fn tag(symbol: &str) -> (result: Expression)
    ensures
        is_tag(Some(result), symbol@),
{
    let mut text = String::new();
    push_str(&mut text, symbol);
    Expression::Tag { symbol: text, value: None }
}

/// The tag `True` or `False`.
fn bool_tag(value: bool) -> (result: Expression)
    ensures
        is_bool(Some(result), value),
{
    if value {
        tag("True")
    } else {
        tag("False")
    }
}

/// The truth that an expression stands for.
fn truth(expression: &Expression) -> (result: Option<bool>)
    ensures
        result == truth_of(Some(*expression)),
{
    match expression {
        Expression::Tag { symbol, .. } => if str_equal(symbol.as_str(), "True") {
            Some(true)
        } else if str_equal(symbol.as_str(), "False") {
            Some(false)
        } else {
            None
        },
        _ => None,
    }
}

/// A call of a function without arguments.
fn call_without_arguments(function: Id, responsible: Id) -> (result: Expression)
    ensures
        is_call_without_arguments(Some(result), function, responsible),
{
    Expression::Call { function, arguments: Vec::new(), responsible }
}

/// The type of what a call of a builtin gives, where it is known.
fn call_type(builtin: BuiltinFunction) -> (result: Option<&'static str>)
    ensures
        match (result, call_result_type(builtin)) {
            (Some(name), Some(expected)) => name@ == expected,
            (None, None) => true,
            _ => false,
        },
{
    match builtin {
        BuiltinFunction::Equals => Some("Tag"),
        BuiltinFunction::FunctionRun => None,
        BuiltinFunction::GetArgumentCount => Some("Int"),
        BuiltinFunction::IfElse => None,
        BuiltinFunction::IntAdd => Some("Int"),
        BuiltinFunction::IntBitLength => Some("Int"),
        BuiltinFunction::IntBitwiseAnd => Some("Int"),
        BuiltinFunction::IntBitwiseOr => Some("Int"),
        BuiltinFunction::IntBitwiseXor => Some("Int"),
        BuiltinFunction::IntCompareTo => Some("Tag"),
        BuiltinFunction::IntDivideTruncating => Some("Int"),
        BuiltinFunction::IntModulo => Some("Int"),
        BuiltinFunction::IntMultiply => Some("Int"),
        BuiltinFunction::IntParse => Some("Struct"),
        BuiltinFunction::IntRemainder => Some("Int"),
        BuiltinFunction::IntShiftLeft => Some("Int"),
        BuiltinFunction::IntShiftRight => Some("Int"),
        BuiltinFunction::IntSubtract => Some("Int"),
        BuiltinFunction::ListFilled => Some("List"),
        BuiltinFunction::ListGet => None,
        BuiltinFunction::ListInsert => Some("List"),
        BuiltinFunction::ListLength => Some("Int"),
        BuiltinFunction::ListRemoveAt => Some("List"),
        BuiltinFunction::ListReplace => Some("List"),
        BuiltinFunction::Print => Some("Tag"),
        BuiltinFunction::StructGet => None,
        BuiltinFunction::StructGetKeys => Some("List"),
        BuiltinFunction::StructHasKey => Some("Tag"),
        BuiltinFunction::TagGetValue => None,
        BuiltinFunction::TagHasValue => Some("Tag"),
        BuiltinFunction::TagWithoutValue => Some("Tag"),
        BuiltinFunction::TagWithValue => Some("Tag"),
        BuiltinFunction::TextCharacters => Some("List"),
        BuiltinFunction::TextConcatenate => Some("Text"),
        BuiltinFunction::TextContains => Some("Tag"),
        BuiltinFunction::TextEndsWith => Some("Tag"),
        BuiltinFunction::TextFromUtf8 => Some("Tag"),
        BuiltinFunction::TextGetRange => Some("Text"),
        BuiltinFunction::TextIsEmpty => Some("Tag"),
        BuiltinFunction::TextLength => Some("Int"),
        BuiltinFunction::TextStartsWith => Some("Tag"),
        BuiltinFunction::TextTrimEnd => Some("Text"),
        BuiltinFunction::TextTrimStart => Some("Text"),
        BuiltinFunction::ToDebugText => Some("Text"),
        BuiltinFunction::TypeOf => Some("Tag"),
    }
}

/// The name of the type of an expression's value, where it is known.
fn value_type_name(visible: &VisibleExpressions, expression: &Expression) -> (result: Option<&'static str>)
    requires
        !type_of_fails(*visible, *expression),
    ensures
        match (result, type_of(*visible, *expression)) {
            (Some(name), Some(expected)) => name@ == expected,
            (None, None) => true,
            _ => false,
        },
{
    match expression {
        Expression::Int(_) => Some("Int"),
        Expression::Text(_) => Some("Text"),
        Expression::Tag { .. } => Some("Tag"),
        Expression::Builtin(_) => Some("Function"),
        Expression::List(_) => Some("List"),
        Expression::Struct(_) => Some("Struct"),
        Expression::Function { .. } => Some("Function"),
        Expression::Call { function, .. } => match visible.get(*function) {
            Expression::Builtin(called) => call_type(*called),
            _ => None,
        },
        _ => None,
    }
}

/// Whether an expression is a literal.
fn literal(expression: &Expression) -> (result: bool)
    ensures
        result == is_literal(*expression),
{
    match expression {
        Expression::Int(_) | Expression::Text(_) | Expression::Builtin(_) => true,
        Expression::Tag { value, .. } => value.is_none(),
        _ => false,
    }
}

/// Whether two literals are the same value.
fn literals_equal(a: &Expression, b: &Expression) -> (result: bool)
    ensures
        result == same_literal(*a, *b),
{
    match (a, b) {
        (Expression::Int(x), Expression::Int(y)) => integer_equal(x, y),
        (Expression::Text(x), Expression::Text(y)) => str_equal(x.as_str(), y.as_str()),
        (Expression::Tag { symbol: x, .. }, Expression::Tag { symbol: y, .. }) => str_equal(
            x.as_str(),
            y.as_str(),
        ),
        (Expression::Builtin(x), Expression::Builtin(y)) => *x == *y,
        _ => false,
    }
}

/// Runs `structGet` of a struct and a key at compile time.
#[verifier::loop_isolation(false)]
fn struct_get(visible: &VisibleExpressions, struct_: Id, key: Id) -> (result: Option<Expression>)
    requires
        visible.spec_get(struct_) is Some,
        visible.spec_get(key) is Some,
    ensures
        struct_get_result(*visible, visible.spec_get(struct_), key, result),
{
    let fields = match visible.get(struct_) {
        Expression::Struct(fields) => fields,
        _ => return None,
    };
    let key_expression = visible.get(key);
    if !literal(key_expression) {
        return None;
    }
    let mut i: usize = 0;
    while i < fields.len()
        invariant
            i <= fields.len(),
            forall|j: int|
                0 <= j < i ==> (visible.spec_get(#[trigger] fields@[j].0) matches Some(k)
                    && is_literal(k)),
        decreases fields.len() - i,
    {
        if !visible.contains(fields[i].0) || !literal(visible.get(fields[i].0)) {
            assert(!(visible.spec_get(fields@[i as int].0) matches Some(k) && is_literal(k)));
            return None;
        }
        i = i + 1;
    }
    let mut count = fields.len();
    assert(fields@.take(count as int) =~= fields@);
    while count > 0
        invariant
            count <= fields.len(),
            literal_keys(*visible, fields@),
            visible.spec_get(key) == Some(*key_expression),
            last_matching_value(*visible, fields@, key) == last_matching_value(
                *visible,
                fields@.take(count as int),
                key,
            ),
        decreases count,
    {
        let ghost prefix = fields@.take(count as int);
        assert(prefix.drop_last() =~= fields@.take(count - 1));
        assert(prefix.last() == fields@[count - 1]);
        let field_key = fields[count - 1].0;
        let matches = field_key == key || literals_equal(visible.get(field_key), key_expression);
        if matches {
            return Some(Expression::Reference(fields[count - 1].1));
        }
        count = count - 1;
    }
    None
}

/// Runs a builtin at compile time, requiring as little knowledge of its
/// arguments as it can: for example, `intSubtract` of an ID and itself is
/// zero, whatever the ID's value. Gives nothing where the call can't be run
/// statically.
#[verifier::spinoff_prover]
#[verifier::rlimit(60)]
pub fn run_builtin(
    builtin: BuiltinFunction,
    arguments: &Vec<Id>,
    responsible: Id,
    visible: &VisibleExpressions,
) -> (result: Option<Expression>)
    requires
        arguments.len() == builtin.spec_num_parameters(),
        arguments_visible(*visible, arguments@),
        !run_fails(builtin, arguments@, *visible),
    ensures
        builtin_result(builtin, arguments@, responsible, *visible, result),
{
    proof {
        assert(forall|i: int| 0 <= i < arguments.len() ==> visible.spec_get(arguments@[i]) is Some);
    }
    match builtin {
        BuiltinFunction::FunctionRun => Some(call_without_arguments(arguments[0], responsible)),
        BuiltinFunction::GetArgumentCount => match visible.get(arguments[0]) {
            Expression::Builtin(called) => Some(Expression::Int(integer_from_usize(called.num_parameters()))),
            Expression::Function { parameters, .. } => Some(Expression::Int(integer_from_usize(parameters.len()))),
            _ => None,
        },
        BuiltinFunction::IfElse => match truth(visible.get(arguments[0])) {
            Some(condition) => Some(
                call_without_arguments(
                    if condition {
                        arguments[1]
                    } else {
                        arguments[2]
                    },
                    responsible,
                ),
            ),
            None => match (visible.get(arguments[1]), visible.get(arguments[2])) {
                (Expression::Function { body: a, .. }, Expression::Function { body: b, .. }) => {
                    if a.expressions.len() == 1 && b.expressions.len() == 1 {
                        match (truth(&a.expressions[0].1), truth(&b.expressions[0].1)) {
                            (Some(true), Some(false)) => Some(Expression::Reference(arguments[0])),
                            _ => None,
                        }
                    } else {
                        None
                    }
                },
                _ => None,
            },
        },
        BuiltinFunction::IntAdd => match (visible.get(arguments[0]), visible.get(arguments[1])) {
            (Expression::Int(a), Expression::Int(b)) => Some(Expression::Int(integer_add(a, b))),
            _ => None,
        },
        BuiltinFunction::IntSubtract => {
            if arguments[0] == arguments[1] {
                return Some(Expression::Int(integer_from_usize(0)));
            }
            match (visible.get(arguments[0]), visible.get(arguments[1])) {
                (Expression::Int(a), Expression::Int(b)) => Some(
                    Expression::Int(integer_subtract(a, b)),
                ),
                _ => None,
            }
        },
        BuiltinFunction::IntMultiply => match (
            visible.get(arguments[0]),
            visible.get(arguments[1]),
        ) {
            (Expression::Int(a), Expression::Int(b)) => Some(
                Expression::Int(integer_multiply(a, b)),
            ),
            _ => None,
        },
        BuiltinFunction::IntCompareTo => {
            if arguments[0] == arguments[1] {
                return Some(tag("Equal"));
            }
            match (visible.get(arguments[0]), visible.get(arguments[1])) {
                (Expression::Int(a), Expression::Int(b)) => {
                    if integer_less(a, b) {
                        Some(tag("Less"))
                    } else if integer_equal(a, b) {
                        Some(tag("Equal"))
                    } else {
                        Some(tag("Greater"))
                    }
                },
                _ => None,
            }
        },
        BuiltinFunction::ListLength => match visible.get(arguments[0]) {
            Expression::List(items) => Some(Expression::Int(integer_from_usize(items.len()))),
            _ => None,
        },
        BuiltinFunction::TagGetValue => match visible.get(arguments[0]) {
            Expression::Tag { value: Some(value), .. } => Some(Expression::Reference(*value)),
            _ => None,
        },
        BuiltinFunction::TagHasValue => match visible.get(arguments[0]) {
            Expression::Tag { value, .. } => Some(bool_tag(value.is_some())),
            _ => None,
        },
        BuiltinFunction::TagWithoutValue => match visible.get(arguments[0]) {
            Expression::Tag { symbol, .. } => Some(tag(symbol.as_str())),
            _ => None,
        },
        BuiltinFunction::TagWithValue => match visible.get(arguments[0]) {
            Expression::Tag { symbol, value: None } => {
                let mut text = String::new();
                push_str(&mut text, symbol.as_str());
                Some(Expression::Tag { symbol: text, value: Some(arguments[1]) })
            },
            _ => None,
        },
        BuiltinFunction::TextConcatenate => match (
            visible.get(arguments[0]),
            visible.get(arguments[1]),
        ) {
            (Expression::Text(a), Expression::Text(b)) => {
                let mut text = String::new();
                push_str(&mut text, a.as_str());
                push_str(&mut text, b.as_str());
                Some(Expression::Text(text))
            },
            _ => None,
        },
        BuiltinFunction::TextIsEmpty => match visible.get(arguments[0]) {
            Expression::Text(text) => Some(bool_tag(text.as_str().is_empty())),
            _ => None,
        },
        BuiltinFunction::IntBitwiseAnd => {
            if arguments[0] == arguments[1] {
                return Some(Expression::Reference(arguments[0]));
            }
            match (visible.get(arguments[0]), visible.get(arguments[1])) {
                (Expression::Int(a), Expression::Int(b)) => Some(Expression::Int(integer_and(a, b))),
                _ => None,
            }
        },
        BuiltinFunction::IntBitwiseOr => {
            if arguments[0] == arguments[1] {
                return Some(Expression::Reference(arguments[0]));
            }
            match (visible.get(arguments[0]), visible.get(arguments[1])) {
                (Expression::Int(a), Expression::Int(b)) => Some(Expression::Int(integer_or(a, b))),
                _ => None,
            }
        },
        BuiltinFunction::IntBitwiseXor => {
            if arguments[0] == arguments[1] {
                return Some(Expression::Int(integer_from_usize(0)));
            }
            match (visible.get(arguments[0]), visible.get(arguments[1])) {
                (Expression::Int(a), Expression::Int(b)) => Some(Expression::Int(integer_xor(a, b))),
                _ => None,
            }
        },
        BuiltinFunction::IntDivideTruncating => {
            if arguments[0] == arguments[1] {
                return Some(Expression::Int(integer_from_usize(1)));
            }
            match (visible.get(arguments[0]), visible.get(arguments[1])) {
                (Expression::Int(a), Expression::Int(b)) => Some(Expression::Int(integer_divide_truncating(a, b))),
                _ => None,
            }
        },
        BuiltinFunction::IntModulo => {
            if arguments[0] == arguments[1] {
                return Some(Expression::Int(integer_from_usize(0)));
            }
            match (visible.get(arguments[0]), visible.get(arguments[1])) {
                (Expression::Int(a), Expression::Int(b)) => Some(Expression::Int(integer_modulo(a, b))),
                _ => None,
            }
        },
        BuiltinFunction::IntRemainder => {
            if arguments[0] == arguments[1] {
                return Some(Expression::Int(integer_from_usize(0)));
            }
            match (visible.get(arguments[0]), visible.get(arguments[1])) {
                (Expression::Int(a), Expression::Int(b)) => Some(Expression::Int(integer_remainder(a, b))),
                _ => None,
            }
        },
        BuiltinFunction::TextLength => match visible.get(arguments[0]) {
            Expression::Text(text) => Some(Expression::Int(integer_from_usize(count_graphemes(text.as_str())))),
            _ => None,
        },
        BuiltinFunction::TextStartsWith | BuiltinFunction::TextEndsWith
        | BuiltinFunction::TextContains => match visible.get(arguments[1]) {
            Expression::Text(pattern) => {
                if pattern.as_str().is_empty() {
                    return Some(bool_tag(true));
                }
                match visible.get(arguments[0]) {
                    Expression::Text(text) => {
                        let found = match builtin {
                            BuiltinFunction::TextStartsWith => str_starts_with(
                                text.as_str(),
                                pattern.as_str(),
                            ),
                            BuiltinFunction::TextEndsWith => str_ends_with(
                                text.as_str(),
                                pattern.as_str(),
                            ),
                            _ => str_contains(text.as_str(), pattern.as_str()),
                        };
                        Some(bool_tag(found))
                    },
                    _ => None,
                }
            },
            _ => None,
        },
        BuiltinFunction::StructGet => struct_get(visible, arguments[0], arguments[1]),
        BuiltinFunction::TypeOf => match value_type_name(visible, visible.get(arguments[0])) {
            Some(name) => Some(tag(name)),
            None => None,
        },
        _ => None,
    }
}

/// What folding a call at compile time gives: a tag applied to one argument
/// becomes the tag with that value, and a builtin is run (see
/// `builtin_result`).
pub open spec fn folded(
    visible: VisibleExpressions,
    expression: Expression,
    result: Option<Expression>,
) -> bool {
    match expression {
        Expression::Call { function, arguments, responsible } => match visible.spec_get(function) {
            Some(Expression::Tag { symbol, value: None }) => if arguments@.len() == 1 {
                result matches Some(Expression::Tag { symbol: found, value: Some(value) })
                    && found@ == symbol@ && value == arguments@[0]
            } else {
                result is None
            },
            Some(Expression::Builtin(builtin)) => builtin_result(
                builtin,
                arguments@,
                responsible,
                visible,
                result,
            ),
            _ => result is None,
        },
        _ => result is None,
    }
}

/// Whether a call can be folded without failing: its function is visible,
/// and where that is a builtin, it gets the builtin's number of arguments,
/// all of them visible, and it does not fail.
pub open spec fn can_fold(visible: VisibleExpressions, expression: Expression) -> bool {
    match expression {
        Expression::Call { function, arguments, .. } => {
            &&& visible.spec_get(function) is Some
            &&& (visible.spec_get(function) matches Some(Expression::Builtin(builtin)) ==> {
                &&& arguments@.len() == builtin.spec_num_parameters()
                &&& arguments_visible(visible, arguments@)
                &&& !run_fails(builtin, arguments@, visible)
            })
        },
        _ => true,
    }
}

/// Folds a call at compile time: gives the expression that it can be
/// replaced by, or nothing where it stays as it is.
pub fn fold_constants(visible: &VisibleExpressions, expression: &Expression) -> (result: Option<
    Expression,
>)
    requires
        can_fold(*visible, *expression),
    ensures
        folded(*visible, *expression, result),
{
    match expression {
        Expression::Call { function, arguments, responsible } => match visible.get(*function) {
            Expression::Tag { symbol, value: None } => {
                if arguments.len() == 1 {
                    let mut text = String::new();
                    push_str(&mut text, symbol.as_str());
                    Some(Expression::Tag { symbol: text, value: Some(arguments[0]) })
                } else {
                    None
                }
            },
            Expression::Builtin(builtin) => run_builtin(*builtin, arguments, *responsible, visible),
            _ => None,
        },
        _ => None,
    }
}

} // verus!
