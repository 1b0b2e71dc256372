pub use self::{
    id::Id,
    kind::{
        lemma_text_is_children_text, lemma_texts_concat, lemma_texts_single, optional_text,
        CstKind, IntRadix,
    },
};
use crate::position::Offset;
use crate::text::{push_str, push_char};
use core::ops::Range;
use vstd::prelude::*;

mod clone;
mod id;
mod id_order;
mod is_multiline;
mod kind;
mod tree_with_ids;
mod unwrap_whitespace_and_comment;
mod view;

pub use self::id_order::{has_id, ids_before, ids_increasing};
pub use self::is_multiline::{
    all_lines_consistent, any_multiline, contains_newline, lemma_all_multiline_iff_line_feed,
    lemma_multiline_iff_line_feed, no_line_feeds, IsMultiline,
};
pub use self::tree_with_ids::{
    lemma_call_argument_found, lemma_covering_found, lemma_found_in_covering,
    lemma_list_item_found, lemma_struct_field_found, ordered_spans,
    TreeWithIds, covers, find_by_offset_in, find_by_offset_in_cst, find_in, find_in_cst,
    lemma_views_index, lemma_views_len, nodes_seq,
};
pub use self::unwrap_whitespace_and_comment::{
    lemma_unwrap_idempotent, lemma_unwrap_views_idempotent, unwrap_cst, unwrap_csts,
    unwrapped_views, UnwrapWhitespaceAndComment,
};
pub use self::view::{views, CstKindView, CstView};
pub use self::clone::{clone_cst, clone_csts, clone_kind};

verus! {

/// The data attached to every node of the concrete syntax tree: its ID and
/// the span of source code it covers.
#[derive(Debug, PartialEq, Eq)]
pub struct CstData {
    pub id: Id,
    pub span: Range<Offset>,
}

impl Clone for CstData {
    fn clone(&self) -> (result: Self)
        ensures
            result == *self,
    {
        CstData { id: self.id, span: Range { start: self.span.start, end: self.span.end } }
    }
}

/// A node of the concrete syntax tree.
#[derive(Debug)]
pub struct Cst {
    pub data: CstData,
    pub kind: CstKind,
}

/// Errors that the parser attaches to unparsable parts of the source code.
#[derive(Clone, Copy, Debug, PartialEq, Eq, Structural, Hash)]
pub enum CstError {
    BinaryBarMissesRight,
    CurlyBraceNotClosed,
    IdentifierContainsNonAlphanumericAscii,
    IntContainsNonDigits,
    ListItemMissesValue,
    ListNotClosed,
    MatchMissesCases,
    MatchCaseMissesArrow,
    MatchCaseMissesBody,
    MatchCaseMissesCondition,
    OpeningParenthesisMissesExpression,
    OrPatternMissesRight,
    ParenthesisNotClosed,
    StructFieldMissesColon,
    StructFieldMissesKey,
    StructFieldMissesValue,
    StructNotClosed,
    SymbolContainsNonAlphanumericAscii,
    TextNotClosed,
    TextNotSufficientlyIndented,
    TextInterpolationNotClosed,
    TextInterpolationMissesExpression,
    TooMuchWhitespace,
    UnexpectedCharacters,
    UnparsedRest,
    WeirdWhitespace,
    WeirdWhitespaceInIndentation,
}

impl Cst {
    /// The source code that this node was parsed from.
    pub open spec fn text(self) -> Seq<char>
        decreases self,
    {
        self.kind.text()
    }

    /// The source code of this node, as its `Display` implementation writes it.
    pub fn to_string(&self) -> (result: String)
        ensures
            result@ == self.text(),
    {
        let mut result = String::new();
        self.write_to(&mut result);
        result
    }

    /// Appends the source code of this node.
    pub fn write_to(&self, out: &mut String)
        ensures
            final(out)@ == old(out)@ + self.text(),
        decreases self,
    {
        self.kind.write_to(out);
    }
}

/// The concatenated source code of a sequence of nodes.
pub open spec fn texts(csts: Seq<Cst>) -> Seq<char>
    decreases csts,
{
    if csts.len() == 0 {
        Seq::empty()
    } else {
        texts(csts.drop_last()) + csts.last().text()
    }
}

/// Appends the source code of all nodes in order.
pub fn write_all_to(csts: &Vec<Cst>, out: &mut String)
    ensures
        final(out)@ == old(out)@ + texts(csts@),
    decreases csts,
{
    let ghost start = out@;
    let mut i: usize = 0;
    while i < csts.len()
        invariant
            i <= csts.len(),
            out@ == start + texts(csts@.take(i as int)),
        decreases csts.len() - i,
    {
        assert(decreases_to!(csts => csts@[i as int]));
        csts[i].write_to(out);
        i = i + 1;
        assert(csts@.take(i as int).drop_last() == csts@.take(i - 1));
    }
    assert(csts@.take(csts.len() as int) == csts@);
}

} // verus!
