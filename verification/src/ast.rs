use crate::cst;
use crate::module::{module_text, Module, ModuleView};
use crate::text::{decimal, push_decimal, push_str};
use vstd::prelude::*;

verus! {

/// The ID of a node of the abstract syntax tree: its module and its number
/// within that module.
#[derive(Debug, PartialEq, Eq, Hash)]
pub struct Id {
    pub module: Module,
    pub local: usize,
}

/// The value of an ID.
pub struct IdView {
    pub module: ModuleView,
    pub local: usize,
}

impl View for Id {
    type V = IdView;

    open spec fn view(&self) -> IdView {
        IdView { module: self.module@, local: self.local }
    }
}

impl Clone for Id {
    fn clone(&self) -> (result: Self)
        ensures
            result@ == self@,
    {
        Id { module: self.module.clone(), local: self.local }
    }
}

/// The text of an ID: its module and number inside `AstId(..)`.
pub open spec fn id_text(id: IdView) -> Seq<char> {
    "AstId("@ + module_text(id.module) + ":"@ + decimal(id.local as nat) + ")"@
}

impl Id {
    pub fn new(module: Module, local: usize) -> (result: Self)
        ensures
            result@ == (IdView { module: module@, local }),
    {
        Id { module, local }
    }

    /// A dollar sign and the ID's number.
    pub fn to_short_debug_string(&self) -> (result: String)
        ensures
            result@ == "$"@ + decimal(self.local as nat),
    {
        let mut result = String::from_str("$");
        push_decimal(&mut result, self.local);
        result
    }

    /// The text of this ID, as it is displayed.
    pub fn to_string(&self) -> (result: String)
        ensures
            result@ == id_text(self@),
    {
        let mut result = String::from_str("AstId(");
        let module = self.module.to_string();
        push_str(&mut result, module.as_str());
        push_str(&mut result, ":");
        push_decimal(&mut result, self.local);
        push_str(&mut result, ")");
        result
    }
}

/// A text of the source together with the ID of the node it comes from.
#[derive(Debug, PartialEq, Eq, Hash)]
pub struct AstString {
    pub id: Id,
    pub value: String,
}

/// A literal part of a text.
#[derive(Debug, PartialEq, Eq, Hash)]
pub struct TextPart(pub AstString);

/// A name.
#[derive(Debug, PartialEq, Eq, Hash)]
pub struct Identifier(pub AstString);

/// A symbol, a name that starts with a capital letter.
#[derive(Debug, PartialEq, Eq, Hash)]
pub struct Symbol(pub AstString);

/// An error found while turning the concrete syntax tree into the abstract one.
#[derive(Debug, PartialEq, Eq, Clone, Hash)]
pub enum AstError {
    ExpectedNameOrPatternInAssignment,
    ExpectedParameter,
    FunctionMissesClosingCurlyBrace,
    ListItemMissesComma,
    ListMissesClosingParenthesis,
    ListWithNonListItem,
    /// An identifier that some sub-patterns of an or-pattern do not bind; the
    /// number of those sub-patterns is never zero.
    OrPatternIsMissingIdentifiers {
        identifier: String,
        number_of_missing_captures: usize,
        all_captures: Vec<cst::Id>,
    },
    ParenthesizedInPattern,
    ParenthesizedMissesClosingParenthesis,
    PatternContainsInvalidExpression,
    PatternLiteralPartContainsInvalidExpression,
    PipeInPattern,
    StructKeyMissesColon,
    StructMissesClosingBrace,
    StructShorthandWithNotIdentifier,
    StructValueMissesComma,
    StructWithNonStructField,
    TextInterpolationMissesClosingCurlyBraces,
    TextMissesClosingQuote,
    UnexpectedPunctuation,
}

} // verus!
