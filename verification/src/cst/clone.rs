use super::{view::views, Cst, CstKind};
use crate::bigint::clone_big_uint;
use vstd::prelude::*;

verus! {

/// A copy of a node and everything below it.
pub fn clone_cst(cst: &Cst) -> (result: Cst)
    ensures
        result@ == cst@,
    decreases cst,
{
    Cst { data: cst.data.clone(), kind: clone_kind(&cst.kind) }
}

/// A copy of a node kind and everything below it.
pub fn clone_kind(kind: &CstKind) -> (result: CstKind)
    ensures
        result@ == kind@,
    decreases kind,
{
    match kind {
        CstKind::EqualsSign => CstKind::EqualsSign,
        CstKind::Comma => CstKind::Comma,
        CstKind::Dot => CstKind::Dot,
        CstKind::Colon => CstKind::Colon,
        CstKind::ColonEqualsSign => CstKind::ColonEqualsSign,
        CstKind::Bar => CstKind::Bar,
        CstKind::OpeningParenthesis => CstKind::OpeningParenthesis,
        CstKind::ClosingParenthesis => CstKind::ClosingParenthesis,
        CstKind::OpeningBracket => CstKind::OpeningBracket,
        CstKind::ClosingBracket => CstKind::ClosingBracket,
        CstKind::OpeningCurlyBrace => CstKind::OpeningCurlyBrace,
        CstKind::ClosingCurlyBrace => CstKind::ClosingCurlyBrace,
        CstKind::Arrow => CstKind::Arrow,
        CstKind::SingleQuote => CstKind::SingleQuote,
        CstKind::DoubleQuote => CstKind::DoubleQuote,
        CstKind::Percent => CstKind::Percent,
        CstKind::Octothorpe => CstKind::Octothorpe,
        CstKind::Whitespace(s) => CstKind::Whitespace(s.clone()),
        CstKind::Newline(s) => CstKind::Newline(s.clone()),
        CstKind::Identifier(s) => CstKind::Identifier(s.clone()),
        CstKind::Symbol(s) => CstKind::Symbol(s.clone()),
        CstKind::TextNewline(s) => CstKind::TextNewline(s.clone()),
        CstKind::TextPart(s) => CstKind::TextPart(s.clone()),
        CstKind::Comment { octothorpe, comment } => CstKind::Comment { octothorpe: Box::new(clone_cst(octothorpe)), comment: comment.clone() },
        CstKind::TrailingWhitespace { child, whitespace } => CstKind::TrailingWhitespace { child: Box::new(clone_cst(child)), whitespace: clone_csts(whitespace) },
        CstKind::OpeningText { opening_single_quotes, opening_double_quote } => CstKind::OpeningText { opening_single_quotes: clone_csts(opening_single_quotes), opening_double_quote: Box::new(clone_cst(opening_double_quote)) },
        CstKind::ClosingText { closing_double_quote, closing_single_quotes } => CstKind::ClosingText { closing_double_quote: Box::new(clone_cst(closing_double_quote)), closing_single_quotes: clone_csts(closing_single_quotes) },
        CstKind::Text { opening, parts, closing } => CstKind::Text { opening: Box::new(clone_cst(opening)), parts: clone_csts(parts), closing: Box::new(clone_cst(closing)) },
        CstKind::TextInterpolation { opening_curly_braces, expression, closing_curly_braces } => CstKind::TextInterpolation { opening_curly_braces: clone_csts(opening_curly_braces), expression: Box::new(clone_cst(expression)), closing_curly_braces: clone_csts(closing_curly_braces) },
        CstKind::BinaryBar { left, bar, right } => CstKind::BinaryBar { left: Box::new(clone_cst(left)), bar: Box::new(clone_cst(bar)), right: Box::new(clone_cst(right)) },
        CstKind::Parenthesized { opening_parenthesis, inner, closing_parenthesis } => CstKind::Parenthesized { opening_parenthesis: Box::new(clone_cst(opening_parenthesis)), inner: Box::new(clone_cst(inner)), closing_parenthesis: Box::new(clone_cst(closing_parenthesis)) },
        CstKind::Call { receiver, arguments } => CstKind::Call { receiver: Box::new(clone_cst(receiver)), arguments: clone_csts(arguments) },
        CstKind::List { opening_parenthesis, items, closing_parenthesis } => CstKind::List { opening_parenthesis: Box::new(clone_cst(opening_parenthesis)), items: clone_csts(items), closing_parenthesis: Box::new(clone_cst(closing_parenthesis)) },
        CstKind::ListItem { value, comma } => CstKind::ListItem { value: Box::new(clone_cst(value)), comma: match comma { Some(comma) => Some(Box::new(clone_cst(comma))), None => None } },
        CstKind::Struct { opening_bracket, fields, closing_bracket } => CstKind::Struct { opening_bracket: Box::new(clone_cst(opening_bracket)), fields: clone_csts(fields), closing_bracket: Box::new(clone_cst(closing_bracket)) },
        CstKind::StructField { key_and_colon, value, comma } => CstKind::StructField { key_and_colon: match key_and_colon { Some(key_and_colon) => Some(Box::new((clone_cst(&key_and_colon.0), clone_cst(&key_and_colon.1)))), None => None }, value: Box::new(clone_cst(value)), comma: match comma { Some(comma) => Some(Box::new(clone_cst(comma))), None => None } },
        CstKind::StructAccess { struct_, dot, key } => CstKind::StructAccess { struct_: Box::new(clone_cst(struct_)), dot: Box::new(clone_cst(dot)), key: Box::new(clone_cst(key)) },
        CstKind::Match { expression, percent, cases } => CstKind::Match { expression: Box::new(clone_cst(expression)), percent: Box::new(clone_cst(percent)), cases: clone_csts(cases) },
        CstKind::MatchCase { pattern, arrow, body } => CstKind::MatchCase { pattern: Box::new(clone_cst(pattern)), arrow: Box::new(clone_cst(arrow)), body: clone_csts(body) },
        CstKind::Function { opening_curly_brace, parameters_and_arrow, body, closing_curly_brace } => CstKind::Function { opening_curly_brace: Box::new(clone_cst(opening_curly_brace)), parameters_and_arrow: match parameters_and_arrow { Some(parameters_and_arrow) => Some((clone_csts(&parameters_and_arrow.0), Box::new(clone_cst(&parameters_and_arrow.1)))), None => None }, body: clone_csts(body), closing_curly_brace: Box::new(clone_cst(closing_curly_brace)) },
        CstKind::Assignment { left, assignment_sign, body } => CstKind::Assignment { left: Box::new(clone_cst(left)), assignment_sign: Box::new(clone_cst(assignment_sign)), body: clone_csts(body) },
        CstKind::Int { radix_prefix, value, string } => CstKind::Int {
            radix_prefix: match radix_prefix {
                Some(radix_prefix) => Some((radix_prefix.0, radix_prefix.1.clone())),
                None => None,
            },
            value: clone_big_uint(value),
            string: string.clone(),
        },
        CstKind::Error { unparsable_input, error } => CstKind::Error {
            unparsable_input: unparsable_input.clone(),
            error: *error,
        },
    }
}

/// Copies of a sequence of nodes.
pub fn clone_csts(csts: &Vec<Cst>) -> (result: Vec<Cst>)
    ensures
        views(result@) == views(csts@),
    decreases csts,
{
    let mut result: Vec<Cst> = Vec::new();
    let mut i: usize = 0;
    while i < csts.len()
        invariant
            i <= csts.len(),
            views(result@) == views(csts@.take(i as int)),
        decreases csts.len() - i,
    {
        assert(decreases_to!(csts => csts@[i as int]));
        let ghost before = result@;
        result.push(clone_cst(&csts[i]));
        assert(result@.drop_last() == before);
        i = i + 1;
        assert(csts@.take(i as int).drop_last() == csts@.take(i - 1));
    }
    assert(csts@.take(csts.len() as int) == csts@);
    result
}

impl Clone for Cst {
    fn clone(&self) -> (result: Self)
        ensures
            result@ == self@,
    {
        clone_cst(self)
    }
}

impl Clone for CstKind {
    fn clone(&self) -> (result: Self)
        ensures
            result@ == self@,
    {
        clone_kind(self)
    }
}

} // verus!
