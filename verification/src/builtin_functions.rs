use vstd::prelude::*;

verus! {

/// These are all built-ins.
///
/// In the end, all Candy code boils down to some instructions. Some of those
/// instructions are grouped into `Builtins` – you can think of them as
/// functions with an implementation that's provided by the runtime.
///
/// Like all callable values, builtins are being passed a responsibility
/// parameter as the last argument. Because built-ins are only called through
/// corresponding functions from the `Builtins` package, all preconditions are
/// guaranteed to be true and built-ins can ignore the responsibility parameter.
#[derive(Clone, Copy, Debug, PartialEq, Eq, Structural, Hash)]
pub enum BuiltinFunction {
    Equals,
    FunctionRun,
    GetArgumentCount,
    IfElse,
    IntAdd,
    IntBitLength,
    IntBitwiseAnd,
    IntBitwiseOr,
    IntBitwiseXor,
    IntCompareTo,
    IntDivideTruncating,
    IntModulo,
    IntMultiply,
    IntParse,
    IntRemainder,
    IntShiftLeft,
    IntShiftRight,
    IntSubtract,
    ListFilled,
    ListGet,
    ListInsert,
    ListLength,
    ListRemoveAt,
    ListReplace,
    Print,
    StructGet,
    StructGetKeys,
    StructHasKey,
    TagGetValue,
    TagHasValue,
    TagWithoutValue,
    TagWithValue,
    TextCharacters,
    TextConcatenate,
    TextContains,
    TextEndsWith,
    TextFromUtf8,
    TextGetRange,
    TextIsEmpty,
    TextLength,
    TextStartsWith,
    TextTrimEnd,
    TextTrimStart,
    ToDebugText,
    TypeOf,
}

impl BuiltinFunction {
    /// Whether calling the builtin has no effects besides computing its result:
    /// all builtins are pure except for running a function, `IfElse` (which
    /// runs one of two functions) and printing.
    pub open spec fn spec_is_pure(self) -> bool {
        !(self is FunctionRun || self is IfElse || self is Print)
    }

    pub fn is_pure(&self) -> (result: bool)
        ensures
            result == self.spec_is_pure(),
    {
        match self {
            Self::Equals => true,
            Self::FunctionRun => false,
            Self::GetArgumentCount => true,
            Self::IfElse => false,
            Self::IntAdd => true,
            Self::IntBitLength => true,
            Self::IntBitwiseAnd => true,
            Self::IntBitwiseOr => true,
            Self::IntBitwiseXor => true,
            Self::IntCompareTo => true,
            Self::IntDivideTruncating => true,
            Self::IntModulo => true,
            Self::IntMultiply => true,
            Self::IntParse => true,
            Self::IntRemainder => true,
            Self::IntShiftLeft => true,
            Self::IntShiftRight => true,
            Self::IntSubtract => true,
            Self::ListFilled => true,
            Self::ListGet => true,
            Self::ListInsert => true,
            Self::ListLength => true,
            Self::ListRemoveAt => true,
            Self::ListReplace => true,
            Self::Print => false,
            Self::StructGet => true,
            Self::StructGetKeys => true,
            Self::StructHasKey => true,
            Self::TagGetValue => true,
            Self::TagHasValue => true,
            Self::TagWithoutValue => true,
            Self::TagWithValue => true,
            Self::TextCharacters => true,
            Self::TextConcatenate => true,
            Self::TextContains => true,
            Self::TextEndsWith => true,
            Self::TextFromUtf8 => true,
            Self::TextGetRange => true,
            Self::TextIsEmpty => true,
            Self::TextLength => true,
            Self::TextStartsWith => true,
            Self::TextTrimEnd => true,
            Self::TextTrimStart => true,
            Self::ToDebugText => true,
            Self::TypeOf => true,
        }
    }

    /// The number of parameters of the builtin, not counting the
    /// responsibility parameter.
    pub open spec fn spec_num_parameters(self) -> nat {
        match self {
            Self::Equals => 2,
            Self::FunctionRun => 1,
            Self::GetArgumentCount => 1,
            Self::IfElse => 3,
            Self::IntAdd => 2,
            Self::IntBitLength => 1,
            Self::IntBitwiseAnd => 2,
            Self::IntBitwiseOr => 2,
            Self::IntBitwiseXor => 2,
            Self::IntCompareTo => 2,
            Self::IntDivideTruncating => 2,
            Self::IntModulo => 2,
            Self::IntMultiply => 2,
            Self::IntParse => 1,
            Self::IntRemainder => 2,
            Self::IntShiftLeft => 2,
            Self::IntShiftRight => 2,
            Self::IntSubtract => 2,
            Self::ListFilled => 2,
            Self::ListGet => 2,
            Self::ListInsert => 3,
            Self::ListLength => 1,
            Self::ListRemoveAt => 2,
            Self::ListReplace => 3,
            Self::Print => 1,
            Self::StructGet => 2,
            Self::StructGetKeys => 1,
            Self::StructHasKey => 2,
            Self::TagGetValue => 1,
            Self::TagHasValue => 1,
            Self::TagWithoutValue => 1,
            Self::TagWithValue => 2,
            Self::TextCharacters => 1,
            Self::TextConcatenate => 2,
            Self::TextContains => 2,
            Self::TextEndsWith => 2,
            Self::TextFromUtf8 => 1,
            Self::TextGetRange => 3,
            Self::TextIsEmpty => 1,
            Self::TextLength => 1,
            Self::TextStartsWith => 2,
            Self::TextTrimEnd => 1,
            Self::TextTrimStart => 1,
            Self::ToDebugText => 1,
            Self::TypeOf => 1,
        }
    }

    pub fn num_parameters(&self) -> (result: usize)
        ensures
            result == self.spec_num_parameters(),
    {
        match self {
            Self::Equals => 2,
            Self::FunctionRun => 1,
            Self::GetArgumentCount => 1,
            Self::IfElse => 3,
            Self::IntAdd => 2,
            Self::IntBitLength => 1,
            Self::IntBitwiseAnd => 2,
            Self::IntBitwiseOr => 2,
            Self::IntBitwiseXor => 2,
            Self::IntCompareTo => 2,
            Self::IntDivideTruncating => 2,
            Self::IntModulo => 2,
            Self::IntMultiply => 2,
            Self::IntParse => 1,
            Self::IntRemainder => 2,
            Self::IntShiftLeft => 2,
            Self::IntShiftRight => 2,
            Self::IntSubtract => 2,
            Self::ListFilled => 2,
            Self::ListGet => 2,
            Self::ListInsert => 3,
            Self::ListLength => 1,
            Self::ListRemoveAt => 2,
            Self::ListReplace => 3,
            Self::Print => 1,
            Self::StructGet => 2,
            Self::StructGetKeys => 1,
            Self::StructHasKey => 2,
            Self::TagGetValue => 1,
            Self::TagHasValue => 1,
            Self::TagWithoutValue => 1,
            Self::TagWithValue => 2,
            Self::TextCharacters => 1,
            Self::TextConcatenate => 2,
            Self::TextContains => 2,
            Self::TextEndsWith => 2,
            Self::TextFromUtf8 => 1,
            Self::TextGetRange => 3,
            Self::TextIsEmpty => 1,
            Self::TextLength => 1,
            Self::TextStartsWith => 2,
            Self::TextTrimEnd => 1,
            Self::TextTrimStart => 1,
            Self::ToDebugText => 1,
            Self::TypeOf => 1,
        }
    }

    /// The name of the builtin in snake case, as `AsRef<str>` gives it.
    pub open spec fn spec_name(self) -> Seq<char> {
        match self {
            Self::Equals => "equals"@,
            Self::FunctionRun => "function_run"@,
            Self::GetArgumentCount => "get_argument_count"@,
            Self::IfElse => "if_else"@,
            Self::IntAdd => "int_add"@,
            Self::IntBitLength => "int_bit_length"@,
            Self::IntBitwiseAnd => "int_bitwise_and"@,
            Self::IntBitwiseOr => "int_bitwise_or"@,
            Self::IntBitwiseXor => "int_bitwise_xor"@,
            Self::IntCompareTo => "int_compare_to"@,
            Self::IntDivideTruncating => "int_divide_truncating"@,
            Self::IntModulo => "int_modulo"@,
            Self::IntMultiply => "int_multiply"@,
            Self::IntParse => "int_parse"@,
            Self::IntRemainder => "int_remainder"@,
            Self::IntShiftLeft => "int_shift_left"@,
            Self::IntShiftRight => "int_shift_right"@,
            Self::IntSubtract => "int_subtract"@,
            Self::ListFilled => "list_filled"@,
            Self::ListGet => "list_get"@,
            Self::ListInsert => "list_insert"@,
            Self::ListLength => "list_length"@,
            Self::ListRemoveAt => "list_remove_at"@,
            Self::ListReplace => "list_replace"@,
            Self::Print => "print"@,
            Self::StructGet => "struct_get"@,
            Self::StructGetKeys => "struct_get_keys"@,
            Self::StructHasKey => "struct_has_key"@,
            Self::TagGetValue => "tag_get_value"@,
            Self::TagHasValue => "tag_has_value"@,
            Self::TagWithoutValue => "tag_without_value"@,
            Self::TagWithValue => "tag_with_value"@,
            Self::TextCharacters => "text_characters"@,
            Self::TextConcatenate => "text_concatenate"@,
            Self::TextContains => "text_contains"@,
            Self::TextEndsWith => "text_ends_with"@,
            Self::TextFromUtf8 => "text_from_utf8"@,
            Self::TextGetRange => "text_get_range"@,
            Self::TextIsEmpty => "text_is_empty"@,
            Self::TextLength => "text_length"@,
            Self::TextStartsWith => "text_starts_with"@,
            Self::TextTrimEnd => "text_trim_end"@,
            Self::TextTrimStart => "text_trim_start"@,
            Self::ToDebugText => "to_debug_text"@,
            Self::TypeOf => "type_of"@,
        }
    }

    pub fn as_str(&self) -> (result: &'static str)
        ensures
            result@ == self.spec_name(),
    {
        match self {
            Self::Equals => "equals",
            Self::FunctionRun => "function_run",
            Self::GetArgumentCount => "get_argument_count",
            Self::IfElse => "if_else",
            Self::IntAdd => "int_add",
            Self::IntBitLength => "int_bit_length",
            Self::IntBitwiseAnd => "int_bitwise_and",
            Self::IntBitwiseOr => "int_bitwise_or",
            Self::IntBitwiseXor => "int_bitwise_xor",
            Self::IntCompareTo => "int_compare_to",
            Self::IntDivideTruncating => "int_divide_truncating",
            Self::IntModulo => "int_modulo",
            Self::IntMultiply => "int_multiply",
            Self::IntParse => "int_parse",
            Self::IntRemainder => "int_remainder",
            Self::IntShiftLeft => "int_shift_left",
            Self::IntShiftRight => "int_shift_right",
            Self::IntSubtract => "int_subtract",
            Self::ListFilled => "list_filled",
            Self::ListGet => "list_get",
            Self::ListInsert => "list_insert",
            Self::ListLength => "list_length",
            Self::ListRemoveAt => "list_remove_at",
            Self::ListReplace => "list_replace",
            Self::Print => "print",
            Self::StructGet => "struct_get",
            Self::StructGetKeys => "struct_get_keys",
            Self::StructHasKey => "struct_has_key",
            Self::TagGetValue => "tag_get_value",
            Self::TagHasValue => "tag_has_value",
            Self::TagWithoutValue => "tag_without_value",
            Self::TagWithValue => "tag_with_value",
            Self::TextCharacters => "text_characters",
            Self::TextConcatenate => "text_concatenate",
            Self::TextContains => "text_contains",
            Self::TextEndsWith => "text_ends_with",
            Self::TextFromUtf8 => "text_from_utf8",
            Self::TextGetRange => "text_get_range",
            Self::TextIsEmpty => "text_is_empty",
            Self::TextLength => "text_length",
            Self::TextStartsWith => "text_starts_with",
            Self::TextTrimEnd => "text_trim_end",
            Self::TextTrimStart => "text_trim_start",
            Self::ToDebugText => "to_debug_text",
            Self::TypeOf => "type_of",
        }
    }
}

/// All builtins, in the order of their declaration.
pub open spec fn spec_values() -> Seq<BuiltinFunction> {
    seq![
        BuiltinFunction::Equals, BuiltinFunction::FunctionRun, BuiltinFunction::GetArgumentCount, BuiltinFunction::IfElse, BuiltinFunction::IntAdd, BuiltinFunction::IntBitLength, BuiltinFunction::IntBitwiseAnd, BuiltinFunction::IntBitwiseOr, BuiltinFunction::IntBitwiseXor, BuiltinFunction::IntCompareTo, BuiltinFunction::IntDivideTruncating, BuiltinFunction::IntModulo, BuiltinFunction::IntMultiply, BuiltinFunction::IntParse, BuiltinFunction::IntRemainder, BuiltinFunction::IntShiftLeft, BuiltinFunction::IntShiftRight, BuiltinFunction::IntSubtract, BuiltinFunction::ListFilled, BuiltinFunction::ListGet, BuiltinFunction::ListInsert, BuiltinFunction::ListLength, BuiltinFunction::ListRemoveAt, BuiltinFunction::ListReplace, BuiltinFunction::Print, BuiltinFunction::StructGet, BuiltinFunction::StructGetKeys, BuiltinFunction::StructHasKey, BuiltinFunction::TagGetValue, BuiltinFunction::TagHasValue, BuiltinFunction::TagWithoutValue, BuiltinFunction::TagWithValue, BuiltinFunction::TextCharacters, BuiltinFunction::TextConcatenate, BuiltinFunction::TextContains, BuiltinFunction::TextEndsWith, BuiltinFunction::TextFromUtf8, BuiltinFunction::TextGetRange, BuiltinFunction::TextIsEmpty, BuiltinFunction::TextLength, BuiltinFunction::TextStartsWith, BuiltinFunction::TextTrimEnd, BuiltinFunction::TextTrimStart, BuiltinFunction::ToDebugText, BuiltinFunction::TypeOf,
    ]
}

/// All builtins, in the order of their declaration.
pub fn values() -> (result: Vec<BuiltinFunction>)
    ensures
        result@ == spec_values(),
{
    let mut result = Vec::new();
    result.push(BuiltinFunction::Equals);
    result.push(BuiltinFunction::FunctionRun);
    result.push(BuiltinFunction::GetArgumentCount);
    result.push(BuiltinFunction::IfElse);
    result.push(BuiltinFunction::IntAdd);
    result.push(BuiltinFunction::IntBitLength);
    result.push(BuiltinFunction::IntBitwiseAnd);
    result.push(BuiltinFunction::IntBitwiseOr);
    result.push(BuiltinFunction::IntBitwiseXor);
    result.push(BuiltinFunction::IntCompareTo);
    result.push(BuiltinFunction::IntDivideTruncating);
    result.push(BuiltinFunction::IntModulo);
    result.push(BuiltinFunction::IntMultiply);
    result.push(BuiltinFunction::IntParse);
    result.push(BuiltinFunction::IntRemainder);
    result.push(BuiltinFunction::IntShiftLeft);
    result.push(BuiltinFunction::IntShiftRight);
    result.push(BuiltinFunction::IntSubtract);
    result.push(BuiltinFunction::ListFilled);
    result.push(BuiltinFunction::ListGet);
    result.push(BuiltinFunction::ListInsert);
    result.push(BuiltinFunction::ListLength);
    result.push(BuiltinFunction::ListRemoveAt);
    result.push(BuiltinFunction::ListReplace);
    result.push(BuiltinFunction::Print);
    result.push(BuiltinFunction::StructGet);
    result.push(BuiltinFunction::StructGetKeys);
    result.push(BuiltinFunction::StructHasKey);
    result.push(BuiltinFunction::TagGetValue);
    result.push(BuiltinFunction::TagHasValue);
    result.push(BuiltinFunction::TagWithoutValue);
    result.push(BuiltinFunction::TagWithValue);
    result.push(BuiltinFunction::TextCharacters);
    result.push(BuiltinFunction::TextConcatenate);
    result.push(BuiltinFunction::TextContains);
    result.push(BuiltinFunction::TextEndsWith);
    result.push(BuiltinFunction::TextFromUtf8);
    result.push(BuiltinFunction::TextGetRange);
    result.push(BuiltinFunction::TextIsEmpty);
    result.push(BuiltinFunction::TextLength);
    result.push(BuiltinFunction::TextStartsWith);
    result.push(BuiltinFunction::TextTrimEnd);
    result.push(BuiltinFunction::TextTrimStart);
    result.push(BuiltinFunction::ToDebugText);
    result.push(BuiltinFunction::TypeOf);
    result
}

} // verus!
