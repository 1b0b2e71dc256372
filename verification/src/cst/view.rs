use super::{Cst, CstData, CstError, CstKind, IntRadix};
use num_bigint::BigUint;
use vstd::prelude::*;

verus! {

/// The mathematical value of a node of the syntax tree: its data and its
/// kind, with lists of children as sequences and strings as character
/// sequences.
pub struct CstView {
    pub data: CstData,
    pub kind: CstKindView,
}

/// The mathematical value of a node kind.
pub enum CstKindView {
    EqualsSign,
    Comma,
    Dot,
    Colon,
    ColonEqualsSign,
    Bar,
    OpeningParenthesis,
    ClosingParenthesis,
    OpeningBracket,
    ClosingBracket,
    OpeningCurlyBrace,
    ClosingCurlyBrace,
    Arrow,
    SingleQuote,
    DoubleQuote,
    Percent,
    Octothorpe,
    Whitespace(Seq<char>),
    Newline(Seq<char>),
    Identifier(Seq<char>),
    Symbol(Seq<char>),
    TextNewline(Seq<char>),
    TextPart(Seq<char>),
    Comment { octothorpe: Box<CstView>, comment: Seq<char> },
    TrailingWhitespace { child: Box<CstView>, whitespace: Seq<CstView> },
    OpeningText { opening_single_quotes: Seq<CstView>, opening_double_quote: Box<CstView> },
    ClosingText { closing_double_quote: Box<CstView>, closing_single_quotes: Seq<CstView> },
    Text { opening: Box<CstView>, parts: Seq<CstView>, closing: Box<CstView> },
    TextInterpolation { opening_curly_braces: Seq<CstView>, expression: Box<CstView>, closing_curly_braces: Seq<CstView> },
    BinaryBar { left: Box<CstView>, bar: Box<CstView>, right: Box<CstView> },
    Parenthesized { opening_parenthesis: Box<CstView>, inner: Box<CstView>, closing_parenthesis: Box<CstView> },
    Call { receiver: Box<CstView>, arguments: Seq<CstView> },
    List { opening_parenthesis: Box<CstView>, items: Seq<CstView>, closing_parenthesis: Box<CstView> },
    ListItem { value: Box<CstView>, comma: Option<Box<CstView>> },
    Struct { opening_bracket: Box<CstView>, fields: Seq<CstView>, closing_bracket: Box<CstView> },
    StructField { key_and_colon: Option<Box<(CstView, CstView)>>, value: Box<CstView>, comma: Option<Box<CstView>> },
    StructAccess { struct_: Box<CstView>, dot: Box<CstView>, key: Box<CstView> },
    Match { expression: Box<CstView>, percent: Box<CstView>, cases: Seq<CstView> },
    MatchCase { pattern: Box<CstView>, arrow: Box<CstView>, body: Seq<CstView> },
    Function { opening_curly_brace: Box<CstView>, parameters_and_arrow: Option<(Seq<CstView>, Box<CstView>)>, body: Seq<CstView>, closing_curly_brace: Box<CstView> },
    Assignment { left: Box<CstView>, assignment_sign: Box<CstView>, body: Seq<CstView> },
    Int { radix_prefix: Option<(IntRadix, Seq<char>)>, value: BigUint, string: Seq<char> },
    Error { unparsable_input: Seq<char>, error: CstError },
}

/// The values of a sequence of nodes.
pub open spec fn views(csts: Seq<Cst>) -> Seq<CstView>
    decreases csts,
{
    if csts.len() == 0 {
        Seq::empty()
    } else {
        views(csts.drop_last()).push(csts.last().tree_view())
    }
}

impl View for Cst {
    type V = CstView;

    open spec fn view(&self) -> CstView {
        self.tree_view()
    }
}

impl View for CstKind {
    type V = CstKindView;

    open spec fn view(&self) -> CstKindView {
        self.tree_view()
    }
}

impl Cst {
    /// The value of this node.
    pub open spec fn tree_view(self) -> CstView
        decreases self,
    {
        CstView { data: self.data, kind: self.kind.tree_view() }
    }
}

impl CstKind {
    /// The value of this node kind.
    pub open spec fn tree_view(self) -> CstKindView
        decreases self,
    {
        match self {
            CstKind::EqualsSign => CstKindView::EqualsSign,
            CstKind::Comma => CstKindView::Comma,
            CstKind::Dot => CstKindView::Dot,
            CstKind::Colon => CstKindView::Colon,
            CstKind::ColonEqualsSign => CstKindView::ColonEqualsSign,
            CstKind::Bar => CstKindView::Bar,
            CstKind::OpeningParenthesis => CstKindView::OpeningParenthesis,
            CstKind::ClosingParenthesis => CstKindView::ClosingParenthesis,
            CstKind::OpeningBracket => CstKindView::OpeningBracket,
            CstKind::ClosingBracket => CstKindView::ClosingBracket,
            CstKind::OpeningCurlyBrace => CstKindView::OpeningCurlyBrace,
            CstKind::ClosingCurlyBrace => CstKindView::ClosingCurlyBrace,
            CstKind::Arrow => CstKindView::Arrow,
            CstKind::SingleQuote => CstKindView::SingleQuote,
            CstKind::DoubleQuote => CstKindView::DoubleQuote,
            CstKind::Percent => CstKindView::Percent,
            CstKind::Octothorpe => CstKindView::Octothorpe,
            CstKind::Whitespace(s) => CstKindView::Whitespace(s@),
            CstKind::Newline(s) => CstKindView::Newline(s@),
            CstKind::Identifier(s) => CstKindView::Identifier(s@),
            CstKind::Symbol(s) => CstKindView::Symbol(s@),
            CstKind::TextNewline(s) => CstKindView::TextNewline(s@),
            CstKind::TextPart(s) => CstKindView::TextPart(s@),
            CstKind::Comment { octothorpe, comment } => CstKindView::Comment { octothorpe: Box::new(octothorpe.tree_view()), comment: comment@ },
            CstKind::TrailingWhitespace { child, whitespace } => CstKindView::TrailingWhitespace { child: Box::new(child.tree_view()), whitespace: views(whitespace@) },
            CstKind::OpeningText { opening_single_quotes, opening_double_quote } => CstKindView::OpeningText { opening_single_quotes: views(opening_single_quotes@), opening_double_quote: Box::new(opening_double_quote.tree_view()) },
            CstKind::ClosingText { closing_double_quote, closing_single_quotes } => CstKindView::ClosingText { closing_double_quote: Box::new(closing_double_quote.tree_view()), closing_single_quotes: views(closing_single_quotes@) },
            CstKind::Text { opening, parts, closing } => CstKindView::Text { opening: Box::new(opening.tree_view()), parts: views(parts@), closing: Box::new(closing.tree_view()) },
            CstKind::TextInterpolation { opening_curly_braces, expression, closing_curly_braces } => CstKindView::TextInterpolation { opening_curly_braces: views(opening_curly_braces@), expression: Box::new(expression.tree_view()), closing_curly_braces: views(closing_curly_braces@) },
            CstKind::BinaryBar { left, bar, right } => CstKindView::BinaryBar { left: Box::new(left.tree_view()), bar: Box::new(bar.tree_view()), right: Box::new(right.tree_view()) },
            CstKind::Parenthesized { opening_parenthesis, inner, closing_parenthesis } => CstKindView::Parenthesized { opening_parenthesis: Box::new(opening_parenthesis.tree_view()), inner: Box::new(inner.tree_view()), closing_parenthesis: Box::new(closing_parenthesis.tree_view()) },
            CstKind::Call { receiver, arguments } => CstKindView::Call { receiver: Box::new(receiver.tree_view()), arguments: views(arguments@) },
            CstKind::List { opening_parenthesis, items, closing_parenthesis } => CstKindView::List { opening_parenthesis: Box::new(opening_parenthesis.tree_view()), items: views(items@), closing_parenthesis: Box::new(closing_parenthesis.tree_view()) },
            CstKind::ListItem { value, comma } => CstKindView::ListItem { value: Box::new(value.tree_view()), comma: match comma { Some(comma) => Some(Box::new(comma.tree_view())), None => None } },
            CstKind::Struct { opening_bracket, fields, closing_bracket } => CstKindView::Struct { opening_bracket: Box::new(opening_bracket.tree_view()), fields: views(fields@), closing_bracket: Box::new(closing_bracket.tree_view()) },
            CstKind::StructField { key_and_colon, value, comma } => CstKindView::StructField { key_and_colon: match key_and_colon { Some(key_and_colon) => Some(Box::new((key_and_colon.0.tree_view(), key_and_colon.1.tree_view()))), None => None }, value: Box::new(value.tree_view()), comma: match comma { Some(comma) => Some(Box::new(comma.tree_view())), None => None } },
            CstKind::StructAccess { struct_, dot, key } => CstKindView::StructAccess { struct_: Box::new(struct_.tree_view()), dot: Box::new(dot.tree_view()), key: Box::new(key.tree_view()) },
            CstKind::Match { expression, percent, cases } => CstKindView::Match { expression: Box::new(expression.tree_view()), percent: Box::new(percent.tree_view()), cases: views(cases@) },
            CstKind::MatchCase { pattern, arrow, body } => CstKindView::MatchCase { pattern: Box::new(pattern.tree_view()), arrow: Box::new(arrow.tree_view()), body: views(body@) },
            CstKind::Function { opening_curly_brace, parameters_and_arrow, body, closing_curly_brace } => CstKindView::Function { opening_curly_brace: Box::new(opening_curly_brace.tree_view()), parameters_and_arrow: match parameters_and_arrow { Some(parameters_and_arrow) => Some((views(parameters_and_arrow.0@), Box::new(parameters_and_arrow.1.tree_view()))), None => None }, body: views(body@), closing_curly_brace: Box::new(closing_curly_brace.tree_view()) },
            CstKind::Assignment { left, assignment_sign, body } => CstKindView::Assignment { left: Box::new(left.tree_view()), assignment_sign: Box::new(assignment_sign.tree_view()), body: views(body@) },
            CstKind::Int { radix_prefix, value, string } => CstKindView::Int {
                radix_prefix: match radix_prefix {
                    Some(radix_prefix) => Some((radix_prefix.0, radix_prefix.1@)),
                    None => None,
                },
                value: value,
                string: string@,
            },
            CstKind::Error { unparsable_input, error } => CstKindView::Error {
                unparsable_input: unparsable_input@,
                error: error,
            },
        }
    }
}

impl CstKindView {
    /// Whether a node of this kind consists only of whitespace or a comment.
    pub open spec fn is_whitespace_or_comment(self) -> bool
        decreases self,
    {
        match self {
            CstKindView::Whitespace(_) | CstKindView::Newline(_) | CstKindView::Comment { .. } => true,
            CstKindView::TrailingWhitespace { child, .. } => child.kind.is_whitespace_or_comment(),
            _ => false,
        }
    }
}

} // verus!
