use crate::ast::AstError;
use crate::cst::{self, CstError};
use crate::hir::HirError;
use crate::mir::MirError;
use crate::module::{module_text, Module, ModuleView};
use crate::position::{
    format_range, is_valid_offset, optional_text, range_text, range_to_positions,
    spec_offset_to_position, Offset, Position,
};
use crate::text::{decimal, joined, push_decimal, push_joined, push_str, string_views};
use core::ops::Range;
use vstd::prelude::*;

verus! {

/// Why the text of a module could not be parsed.
#[derive(Clone, Copy, Debug, PartialEq, Eq, Structural, Hash)]
pub enum ModuleError {
    DoesNotExist,
    InvalidUtf8,
    IsNotCandy,
    IsToolingModule,
}

/// What went wrong, by the stage of the compiler that found it.
#[derive(Clone, Debug, PartialEq, Eq, Hash)]
pub enum CompilerErrorPayload {
    Module(ModuleError),
    Cst(CstError),
    Ast(AstError),
    Hir(HirError),
    Mir(MirError),
}

/// An error in a module, with the span of the module's text that it is about.
#[derive(Debug, PartialEq, Eq, Hash)]
pub struct CompilerError {
    pub module: Module,
    pub span: Range<Offset>,
    pub payload: CompilerErrorPayload,
}

/// How `Debug` writes a string: quoted, with special characters escaped.
pub uninterp spec fn debug_quoted_text(text: Seq<char>) -> Seq<char>;

/// Writes a string as `Debug` does.
///
/// Calls `<str as Debug>::fmt` through `format!`: the text in double quotes
/// with special characters escaped. The result depends on the text alone;
/// this contract names it and says nothing more of it.
#[verifier::external_body]
fn quoted_text(text: &str) -> (result: String)
    ensures
        result@ == debug_quoted_text(text@),
{
    format!("{:?}", text)
}

/// The message for an unreadable module.
pub open spec fn module_error_message(error: ModuleError) -> Seq<char> {
    match error {
        ModuleError::DoesNotExist => "The module doesn't exist."@,
        ModuleError::InvalidUtf8 => "The module contains invalid UTF-8."@,
        ModuleError::IsNotCandy => "The module is not Candy."@,
        ModuleError::IsToolingModule => "The module is a tooling module."@,
    }
}

/// The message for an error in the concrete syntax tree.
pub open spec fn cst_error_message(error: CstError) -> Seq<char> {
    match error {
        CstError::BinaryBarMissesRight => "There should be a right side after this bar."@,
        CstError::CurlyBraceNotClosed => "The curly brace is not closed."@,
        CstError::IdentifierContainsNonAlphanumericAscii => "This identifier contains non-alphanumeric ASCII characters."@,
        CstError::IntContainsNonDigits => "This integer contains characters that are not digits."@,
        CstError::ListItemMissesValue => "This list item is missing a value."@,
        CstError::ListNotClosed => "The list is not closed."@,
        CstError::MatchMissesCases => "This match misses cases to match against."@,
        CstError::MatchCaseMissesArrow => "This match case misses an arrow."@,
        CstError::MatchCaseMissesBody => "This match case misses a body to run."@,
        CstError::MatchCaseMissesCondition => "This match case condition is empty."@,
        CstError::OpeningParenthesisMissesExpression => "Here's an opening parenthesis without an expression after it."@,
        CstError::OrPatternMissesRight => "This or-pattern misses a right-hand side."@,
        CstError::ParenthesisNotClosed => "This parenthesis isn't closed."@,
        CstError::StructFieldMissesColon => "This struct field misses a colon."@,
        CstError::StructFieldMissesKey => "This struct field misses a key."@,
        CstError::StructFieldMissesValue => "This struct field misses a value."@,
        CstError::StructNotClosed => "This struct is not closed."@,
        CstError::SymbolContainsNonAlphanumericAscii => "This symbol contains non-alphanumeric ASCII characters."@,
        CstError::TextNotClosed => "This text isn't closed."@,
        CstError::TextNotSufficientlyIndented => "This text isn't sufficiently indented."@,
        CstError::TextInterpolationNotClosed => "This text interpolation isn't closed."@,
        CstError::TextInterpolationMissesExpression => "Here's a start of a text interpolation without an expression after it."@,
        CstError::TooMuchWhitespace => "There is too much whitespace here."@,
        CstError::UnexpectedCharacters => "This is an unexpected character."@,
        CstError::UnparsedRest => "The parser couldn't parse this rest."@,
        CstError::WeirdWhitespace => "This is weird whitespace."@,
        CstError::WeirdWhitespaceInIndentation => "This is weird whitespace. Make sure to use indent using two spaces."@,
    }
}

/// The message for an error in the abstract syntax tree.
pub open spec fn ast_error_message(error: AstError) -> Seq<char> {
    match error {
        AstError::ExpectedNameOrPatternInAssignment => "An assignment should have a name or pattern on the left side."@,
        AstError::ExpectedParameter => "A parameter should come here."@,
        AstError::FunctionMissesClosingCurlyBrace => "This function doesn't have a closing curly brace."@,
        AstError::ListItemMissesComma => "This list item should be followed by a comma."@,
        AstError::ListMissesClosingParenthesis => "This list doesn't have a closing parenthesis."@,
        AstError::ListWithNonListItem => "This is not a list item."@,
        AstError::OrPatternIsMissingIdentifiers {
            identifier,
            number_of_missing_captures,
            ..
        } => "`"@ + identifier@ + "` is missing in "@ + decimal(number_of_missing_captures as nat)
            + if number_of_missing_captures == 1 {
            " sub-pattern"@
        } else {
            " sub-patterns"@
        } + " of this or-pattern."@,
        AstError::ParenthesizedInPattern => "Parentheses are not allowed in patterns."@,
        AstError::ParenthesizedMissesClosingParenthesis => "This expression is parenthesized, but the closing parenthesis is missing."@,
        AstError::PatternContainsInvalidExpression => "This type of expression is not allowed in patterns."@,
        AstError::PatternLiteralPartContainsInvalidExpression => "This type of expression is not allowed in this part of a pattern."@,
        AstError::PipeInPattern => "Pipes are not allowed in patterns."@,
        AstError::StructKeyMissesColon => "This struct key should be followed by a colon."@,
        AstError::StructMissesClosingBrace => "This struct doesn't have a closing bracket."@,
        AstError::StructShorthandWithNotIdentifier => "Shorthand syntax in structs only supports identifiers."@,
        AstError::StructValueMissesComma => "This struct value should be followed by a comma."@,
        AstError::StructWithNonStructField => "Structs should only contain struct key."@,
        AstError::TextInterpolationMissesClosingCurlyBraces => "This text interpolation never ends."@,
        AstError::TextMissesClosingQuote => "This text never ends."@,
        AstError::UnexpectedPunctuation => "This punctuation was unexpected."@,
    }
}

/// The message for an error in the high-level intermediate representation.
pub open spec fn hir_error_message(error: HirError) -> Seq<char> {
    match error {
        HirError::NeedsWithWrongNumberOfArguments { num_args } => "`needs` accepts one or two arguments, but was called with "@
            + decimal(num_args as nat)
            + " arguments. Its parameters are the `condition` and an optional `message`."@,
        HirError::PublicAssignmentInNotTopLevel => "Public assignments (:=) can only be used in top-level code."@,
        HirError::PublicAssignmentWithSameName { name } => "There already exists a public assignment (:=) named `"@
            + name@ + "`."@,
        HirError::UnknownReference { name } => "`"@ + name@ + "` is not in scope."@,
    }
}

/// The message for an error in the mid-level intermediate representation.
pub open spec fn mir_error_message(error: MirError) -> Seq<char> {
    match error {
        MirError::UseWithInvalidPath { module, path } => module_text(module@) + " tries to `use` "@
            + debug_quoted_text(path@) + ", but that's an invalid path."@,
        MirError::UseHasTooManyParentNavigations { module, path } => module_text(module@)
            + " tries to `use` "@ + debug_quoted_text(path@)
            + ", but that has too many parent navigations. You can't navigate out of the current package (the module that also contains a `_package.candy` file)."@,
        MirError::ModuleNotFound { module, path } => module_text(module@) + " tries to use "@
            + debug_quoted_text(path@) + ", but that module is not found."@,
        MirError::UseNotStaticallyResolvable { containing_module } => "A `use` in "@ + module_text(
            containing_module@,
        ) + " is not statically resolvable."@,
        MirError::ModuleHasCycle { cycle } => "There's a cycle in the used modules: "@ + joined(
            string_views(cycle@),
            " → "@,
        ),
    }
}

/// The message for an error, as it is displayed.
pub open spec fn payload_message(payload: CompilerErrorPayload) -> Seq<char> {
    match payload {
        CompilerErrorPayload::Module(error) => module_error_message(error),
        CompilerErrorPayload::Cst(error) => cst_error_message(error),
        CompilerErrorPayload::Ast(error) => ast_error_message(error),
        CompilerErrorPayload::Hir(error) => hir_error_message(error),
        CompilerErrorPayload::Mir(error) => mir_error_message(error),
    }
}

fn module_error_text(error: &ModuleError) -> (result: String)
    ensures
        result@ == module_error_message(*error),
{
    match error {
        ModuleError::DoesNotExist => String::from_str("The module doesn't exist."),
        ModuleError::InvalidUtf8 => String::from_str("The module contains invalid UTF-8."),
        ModuleError::IsNotCandy => String::from_str("The module is not Candy."),
        ModuleError::IsToolingModule => String::from_str("The module is a tooling module."),
    }
}

fn cst_error_text(error: &CstError) -> (result: String)
    ensures
        result@ == cst_error_message(*error),
{
    let message = match error {
        CstError::BinaryBarMissesRight => "There should be a right side after this bar.",
        CstError::CurlyBraceNotClosed => "The curly brace is not closed.",
        CstError::IdentifierContainsNonAlphanumericAscii => "This identifier contains non-alphanumeric ASCII characters.",
        CstError::IntContainsNonDigits => "This integer contains characters that are not digits.",
        CstError::ListItemMissesValue => "This list item is missing a value.",
        CstError::ListNotClosed => "The list is not closed.",
        CstError::MatchMissesCases => "This match misses cases to match against.",
        CstError::MatchCaseMissesArrow => "This match case misses an arrow.",
        CstError::MatchCaseMissesBody => "This match case misses a body to run.",
        CstError::MatchCaseMissesCondition => "This match case condition is empty.",
        CstError::OpeningParenthesisMissesExpression => "Here's an opening parenthesis without an expression after it.",
        CstError::OrPatternMissesRight => "This or-pattern misses a right-hand side.",
        CstError::ParenthesisNotClosed => "This parenthesis isn't closed.",
        CstError::StructFieldMissesColon => "This struct field misses a colon.",
        CstError::StructFieldMissesKey => "This struct field misses a key.",
        CstError::StructFieldMissesValue => "This struct field misses a value.",
        CstError::StructNotClosed => "This struct is not closed.",
        CstError::SymbolContainsNonAlphanumericAscii => "This symbol contains non-alphanumeric ASCII characters.",
        CstError::TextNotClosed => "This text isn't closed.",
        CstError::TextNotSufficientlyIndented => "This text isn't sufficiently indented.",
        CstError::TextInterpolationNotClosed => "This text interpolation isn't closed.",
        CstError::TextInterpolationMissesExpression => "Here's a start of a text interpolation without an expression after it.",
        CstError::TooMuchWhitespace => "There is too much whitespace here.",
        CstError::UnexpectedCharacters => "This is an unexpected character.",
        CstError::UnparsedRest => "The parser couldn't parse this rest.",
        CstError::WeirdWhitespace => "This is weird whitespace.",
        CstError::WeirdWhitespaceInIndentation => "This is weird whitespace. Make sure to use indent using two spaces.",
    };
    String::from_str(message)
}

fn ast_error_text(error: &AstError) -> (result: String)
    ensures
        result@ == ast_error_message(*error),
{
    let message = match error {
        AstError::ExpectedNameOrPatternInAssignment => "An assignment should have a name or pattern on the left side.",
        AstError::ExpectedParameter => "A parameter should come here.",
        AstError::FunctionMissesClosingCurlyBrace => "This function doesn't have a closing curly brace.",
        AstError::ListItemMissesComma => "This list item should be followed by a comma.",
        AstError::ListMissesClosingParenthesis => "This list doesn't have a closing parenthesis.",
        AstError::ListWithNonListItem => "This is not a list item.",
        AstError::OrPatternIsMissingIdentifiers {
            identifier,
            number_of_missing_captures,
            ..
        } => {
            let mut result = String::from_str("`");
            push_str(&mut result, identifier.as_str());
            push_str(&mut result, "` is missing in ");
            push_decimal(&mut result, *number_of_missing_captures);
            if *number_of_missing_captures == 1 {
                push_str(&mut result, " sub-pattern");
            } else {
                push_str(&mut result, " sub-patterns");
            }
            push_str(&mut result, " of this or-pattern.");
            return result;
        },
        AstError::ParenthesizedInPattern => "Parentheses are not allowed in patterns.",
        AstError::ParenthesizedMissesClosingParenthesis => "This expression is parenthesized, but the closing parenthesis is missing.",
        AstError::PatternContainsInvalidExpression => "This type of expression is not allowed in patterns.",
        AstError::PatternLiteralPartContainsInvalidExpression => "This type of expression is not allowed in this part of a pattern.",
        AstError::PipeInPattern => "Pipes are not allowed in patterns.",
        AstError::StructKeyMissesColon => "This struct key should be followed by a colon.",
        AstError::StructMissesClosingBrace => "This struct doesn't have a closing bracket.",
        AstError::StructShorthandWithNotIdentifier => "Shorthand syntax in structs only supports identifiers.",
        AstError::StructValueMissesComma => "This struct value should be followed by a comma.",
        AstError::StructWithNonStructField => "Structs should only contain struct key.",
        AstError::TextInterpolationMissesClosingCurlyBraces => "This text interpolation never ends.",
        AstError::TextMissesClosingQuote => "This text never ends.",
        AstError::UnexpectedPunctuation => "This punctuation was unexpected.",
    };
    String::from_str(message)
}

fn hir_error_text(error: &HirError) -> (result: String)
    ensures
        result@ == hir_error_message(*error),
{
    match error {
        HirError::NeedsWithWrongNumberOfArguments { num_args } => {
            let mut result = String::from_str(
                "`needs` accepts one or two arguments, but was called with ",
            );
            push_decimal(&mut result, *num_args);
            push_str(
                &mut result,
                " arguments. Its parameters are the `condition` and an optional `message`.",
            );
            result
        },
        HirError::PublicAssignmentInNotTopLevel => String::from_str(
            "Public assignments (:=) can only be used in top-level code.",
        ),
        HirError::PublicAssignmentWithSameName { name } => {
            let mut result = String::from_str(
                "There already exists a public assignment (:=) named `",
            );
            push_str(&mut result, name.as_str());
            push_str(&mut result, "`.");
            result
        },
        HirError::UnknownReference { name } => {
            let mut result = String::from_str("`");
            push_str(&mut result, name.as_str());
            push_str(&mut result, "` is not in scope.");
            result
        },
    }
}

fn mir_error_text(error: &MirError) -> (result: String)
    ensures
        result@ == mir_error_message(*error),
{
    match error {
        MirError::UseWithInvalidPath { module, path } => {
            let mut result = module.to_string();
            push_str(&mut result, " tries to `use` ");
            let quoted = quoted_text(path.as_str());
            push_str(&mut result, quoted.as_str());
            push_str(&mut result, ", but that's an invalid path.");
            result
        },
        MirError::UseHasTooManyParentNavigations { module, path } => {
            let mut result = module.to_string();
            push_str(&mut result, " tries to `use` ");
            let quoted = quoted_text(path.as_str());
            push_str(&mut result, quoted.as_str());
            push_str(
                &mut result,
                ", but that has too many parent navigations. You can't navigate out of the current package (the module that also contains a `_package.candy` file).",
            );
            result
        },
        MirError::ModuleNotFound { module, path } => {
            let mut result = module.to_string();
            push_str(&mut result, " tries to use ");
            let quoted = quoted_text(path.as_str());
            push_str(&mut result, quoted.as_str());
            push_str(&mut result, ", but that module is not found.");
            result
        },
        MirError::UseNotStaticallyResolvable { containing_module } => {
            let mut result = String::from_str("A `use` in ");
            let module = containing_module.to_string();
            push_str(&mut result, module.as_str());
            push_str(&mut result, " is not statically resolvable.");
            result
        },
        MirError::ModuleHasCycle { cycle } => {
            let mut result = String::from_str("There's a cycle in the used modules: ");
            push_joined(&mut result, cycle, " → ");
            result
        },
    }
}

impl CompilerErrorPayload {
    /// The message of this error, as it is displayed.
    pub fn to_string(&self) -> (result: String)
        ensures
            result@ == payload_message(*self),
    {
        match self {
            CompilerErrorPayload::Module(error) => module_error_text(error),
            CompilerErrorPayload::Cst(error) => cst_error_text(error),
            CompilerErrorPayload::Ast(error) => ast_error_text(error),
            CompilerErrorPayload::Hir(error) => hir_error_text(error),
            CompilerErrorPayload::Mir(error) => mir_error_text(error),
        }
    }
}

/// The text of an error with its location: the module, the range of
/// positions that the span covers, and the message.
pub open spec fn located_message(
    module: ModuleView,
    start: (nat, nat),
    end: (nat, nat),
    payload: CompilerErrorPayload,
) -> Seq<char> {
    module_text(module) + ":"@ + decimal(start.0 + 1) + ":"@ + decimal(start.1 + 1) + " – "@
        + decimal(end.0 + 1) + ":"@ + decimal(end.1 + 1) + ": "@ + payload_message(payload)
}

/// The information that goes with an error: for an or-pattern that misses an
/// identifier, each place where the identifier is bound.
pub open spec fn related_information(error: CompilerError) -> Seq<(ModuleView, cst::Id, Seq<char>)> {
    match error.payload {
        CompilerErrorPayload::Ast(AstError::OrPatternIsMissingIdentifiers { all_captures, .. }) => all_captures@.map_values(
            |capture: cst::Id| (error.module@, capture, "The identifier is bound here."@),
        ),
        _ => Seq::empty(),
    }
}

/// The views of related information.
pub open spec fn related_views(information: Seq<(Module, cst::Id, String)>) -> Seq<
    (ModuleView, cst::Id, Seq<char>),
> {
    information.map_values(|entry: (Module, cst::Id, String)| (entry.0@, entry.1, entry.2@))
}

impl CompilerError {
    /// An error about a module as a whole: its span is empty and at the start.
    pub fn for_whole_module(module: Module, payload: CompilerErrorPayload) -> (result: Self)
        ensures
            result.module@ == module@,
            result.span == (Range { start: Offset(0), end: Offset(0) }),
            result.payload == payload,
    {
        CompilerError { module, span: Range { start: Offset(0), end: Offset(0) }, payload }
    }

    /// The message of this error with the module and the positions of its span,
    /// found in the module's text.
    pub fn to_string_with_location(&self, text: Option<&str>) -> (result: String)
        requires
            is_valid_offset(optional_text(text), self.span.start.0 as nat),
            is_valid_offset(optional_text(text), self.span.end.0 as nat),
        ensures
            result@ == located_message(
                self.module@,
                spec_offset_to_position(optional_text(text), self.span.start.0 as nat),
                spec_offset_to_position(optional_text(text), self.span.end.0 as nat),
                self.payload,
            ),
    {
        let range = range_to_positions(text, Range { start: self.span.start, end: self.span.end });
        let mut result = self.module.to_string();
        push_str(&mut result, ":");
        let positions = format_range(&range);
        push_str(&mut result, positions.as_str());
        push_str(&mut result, ": ");
        let message = self.payload.to_string();
        push_str(&mut result, message.as_str());
        result
    }

    /// The places that an editor shows together with this error.
    pub fn to_related_information(&self) -> (result: Vec<(Module, cst::Id, String)>)
        ensures
            related_views(result@) == related_information(*self),
    {
        let mut result: Vec<(Module, cst::Id, String)> = Vec::new();
        match &self.payload {
            CompilerErrorPayload::Ast(AstError::OrPatternIsMissingIdentifiers { all_captures, .. }) => {
                let mut i: usize = 0;
                while i < all_captures.len()
                    invariant
                        i <= all_captures.len(),
                        result.len() == i,
                        self.payload matches CompilerErrorPayload::Ast(
                            AstError::OrPatternIsMissingIdentifiers { all_captures: captures, .. },
                        ) && captures == all_captures,
                        related_views(result@) == related_information(*self).take(i as int),
                    decreases all_captures.len() - i,
                {
                    let ghost before = result@;
                    let entry = (
                        self.module.clone(),
                        all_captures[i],
                        String::from_str("The identifier is bound here."),
                    );
                    result.push(entry);
                    i = i + 1;
                    assert forall|j: int| 0 <= j < i implies #[trigger] related_views(result@)[j]
                        == related_information(*self)[j] by {
                        if j < i - 1 {
                            assert(result@[j] == before[j]);
                            assert(related_views(before)[j] == related_information(*self).take(
                                i - 1,
                            )[j]);
                        }
                    }
                    assert(related_views(result@) =~= related_information(*self).take(i as int));
                }
                assert(related_information(*self).take(i as int) =~= related_information(*self));
            },
            _ => {
                assert(related_views(result@) =~= related_information(*self));
            },
        }
        result
    }
}

} // verus!
