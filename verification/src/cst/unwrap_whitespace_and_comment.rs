use super::{
    clone::clone_cst,
    view::{views, CstKindView, CstView},
    Cst, CstKind,
};
use vstd::prelude::*;

verus! {

impl CstView {
    /// This node with all whitespace and comments unwrapped: a node with
    /// trailing whitespace is replaced by its unwrapped child, nodes that are
    /// only whitespace or a comment are dropped from lists of children, and
    /// leaves stay as they are.
    pub open spec fn unwrapped(self) -> CstView
        decreases self,
    {
        match self.kind {
            CstKindView::TrailingWhitespace { child, .. } => child.unwrapped(),
            CstKindView::OpeningText { opening_single_quotes, opening_double_quote } => CstView { data: self.data, kind: CstKindView::OpeningText { opening_single_quotes: unwrapped_views(opening_single_quotes), opening_double_quote: Box::new(opening_double_quote.unwrapped()) } },
            CstKindView::ClosingText { closing_double_quote, closing_single_quotes } => CstView { data: self.data, kind: CstKindView::ClosingText { closing_double_quote: Box::new(closing_double_quote.unwrapped()), closing_single_quotes: unwrapped_views(closing_single_quotes) } },
            CstKindView::Text { opening, parts, closing } => CstView { data: self.data, kind: CstKindView::Text { opening: Box::new(opening.unwrapped()), parts: unwrapped_views(parts), closing: Box::new(closing.unwrapped()) } },
            CstKindView::TextInterpolation { opening_curly_braces, expression, closing_curly_braces } => CstView { data: self.data, kind: CstKindView::TextInterpolation { opening_curly_braces: unwrapped_views(opening_curly_braces), expression: Box::new(expression.unwrapped()), closing_curly_braces: unwrapped_views(closing_curly_braces) } },
            CstKindView::BinaryBar { left, bar, right } => CstView { data: self.data, kind: CstKindView::BinaryBar { left: Box::new(left.unwrapped()), bar: Box::new(bar.unwrapped()), right: Box::new(right.unwrapped()) } },
            CstKindView::Parenthesized { opening_parenthesis, inner, closing_parenthesis } => CstView { data: self.data, kind: CstKindView::Parenthesized { opening_parenthesis: Box::new(opening_parenthesis.unwrapped()), inner: Box::new(inner.unwrapped()), closing_parenthesis: Box::new(closing_parenthesis.unwrapped()) } },
            CstKindView::Call { receiver, arguments } => CstView { data: self.data, kind: CstKindView::Call { receiver: Box::new(receiver.unwrapped()), arguments: unwrapped_views(arguments) } },
            CstKindView::List { opening_parenthesis, items, closing_parenthesis } => CstView { data: self.data, kind: CstKindView::List { opening_parenthesis: Box::new(opening_parenthesis.unwrapped()), items: unwrapped_views(items), closing_parenthesis: Box::new(closing_parenthesis.unwrapped()) } },
            CstKindView::ListItem { value, comma } => CstView { data: self.data, kind: CstKindView::ListItem { value: Box::new(value.unwrapped()), comma: match comma { Some(comma) => Some(Box::new(comma.unwrapped())), None => None } } },
            CstKindView::Struct { opening_bracket, fields, closing_bracket } => CstView { data: self.data, kind: CstKindView::Struct { opening_bracket: Box::new(opening_bracket.unwrapped()), fields: unwrapped_views(fields), closing_bracket: Box::new(closing_bracket.unwrapped()) } },
            CstKindView::StructField { key_and_colon, value, comma } => CstView { data: self.data, kind: CstKindView::StructField { key_and_colon: match key_and_colon { Some(key_and_colon) => Some(Box::new((key_and_colon.0.unwrapped(), key_and_colon.1.unwrapped()))), None => None }, value: Box::new(value.unwrapped()), comma: match comma { Some(comma) => Some(Box::new(comma.unwrapped())), None => None } } },
            CstKindView::StructAccess { struct_, dot, key } => CstView { data: self.data, kind: CstKindView::StructAccess { struct_: Box::new(struct_.unwrapped()), dot: Box::new(dot.unwrapped()), key: Box::new(key.unwrapped()) } },
            CstKindView::Match { expression, percent, cases } => CstView { data: self.data, kind: CstKindView::Match { expression: Box::new(expression.unwrapped()), percent: Box::new(percent.unwrapped()), cases: unwrapped_views(cases) } },
            CstKindView::MatchCase { pattern, arrow, body } => CstView { data: self.data, kind: CstKindView::MatchCase { pattern: Box::new(pattern.unwrapped()), arrow: Box::new(arrow.unwrapped()), body: unwrapped_views(body) } },
            CstKindView::Function { opening_curly_brace, parameters_and_arrow, body, closing_curly_brace } => CstView { data: self.data, kind: CstKindView::Function { opening_curly_brace: Box::new(opening_curly_brace.unwrapped()), parameters_and_arrow: match parameters_and_arrow { Some(parameters_and_arrow) => Some((unwrapped_views(parameters_and_arrow.0), Box::new(parameters_and_arrow.1.unwrapped()))), None => None }, body: unwrapped_views(body), closing_curly_brace: Box::new(closing_curly_brace.unwrapped()) } },
            CstKindView::Assignment { left, assignment_sign, body } => CstView { data: self.data, kind: CstKindView::Assignment { left: Box::new(left.unwrapped()), assignment_sign: Box::new(assignment_sign.unwrapped()), body: unwrapped_views(body) } },
            _ => self,
        }
    }
}

/// The unwrapped values of those nodes that are not only whitespace or a
/// comment, in order.
pub open spec fn unwrapped_views(csts: Seq<CstView>) -> Seq<CstView>
    decreases csts,
{
    if csts.len() == 0 {
        Seq::empty()
    } else if csts.last().kind.is_whitespace_or_comment() {
        unwrapped_views(csts.drop_last())
    } else {
        unwrapped_views(csts.drop_last()).push(csts.last().unwrapped())
    }
}

/// Unwraps whitespace and comments from a node.
#[verifier::spinoff_prover]
#[verifier::rlimit(100)]
pub fn unwrap_cst(cst: &Cst) -> (result: Cst)
    ensures
        result@ == cst@.unwrapped(),
    decreases cst,
{
    match &cst.kind {
        CstKind::TrailingWhitespace { child, .. } => unwrap_cst(child),
        CstKind::OpeningText { opening_single_quotes, opening_double_quote } => Cst { data: cst.data.clone(), kind: CstKind::OpeningText { opening_single_quotes: unwrap_csts(opening_single_quotes), opening_double_quote: Box::new(unwrap_cst(opening_double_quote)) } },
        CstKind::ClosingText { closing_double_quote, closing_single_quotes } => Cst { data: cst.data.clone(), kind: CstKind::ClosingText { closing_double_quote: Box::new(unwrap_cst(closing_double_quote)), closing_single_quotes: unwrap_csts(closing_single_quotes) } },
        CstKind::Text { opening, parts, closing } => Cst { data: cst.data.clone(), kind: CstKind::Text { opening: Box::new(unwrap_cst(opening)), parts: unwrap_csts(parts), closing: Box::new(unwrap_cst(closing)) } },
        CstKind::TextInterpolation { opening_curly_braces, expression, closing_curly_braces } => Cst { data: cst.data.clone(), kind: CstKind::TextInterpolation { opening_curly_braces: unwrap_csts(opening_curly_braces), expression: Box::new(unwrap_cst(expression)), closing_curly_braces: unwrap_csts(closing_curly_braces) } },
        CstKind::BinaryBar { left, bar, right } => Cst { data: cst.data.clone(), kind: CstKind::BinaryBar { left: Box::new(unwrap_cst(left)), bar: Box::new(unwrap_cst(bar)), right: Box::new(unwrap_cst(right)) } },
        CstKind::Parenthesized { opening_parenthesis, inner, closing_parenthesis } => Cst { data: cst.data.clone(), kind: CstKind::Parenthesized { opening_parenthesis: Box::new(unwrap_cst(opening_parenthesis)), inner: Box::new(unwrap_cst(inner)), closing_parenthesis: Box::new(unwrap_cst(closing_parenthesis)) } },
        CstKind::Call { receiver, arguments } => Cst { data: cst.data.clone(), kind: CstKind::Call { receiver: Box::new(unwrap_cst(receiver)), arguments: unwrap_csts(arguments) } },
        CstKind::List { opening_parenthesis, items, closing_parenthesis } => Cst { data: cst.data.clone(), kind: CstKind::List { opening_parenthesis: Box::new(unwrap_cst(opening_parenthesis)), items: unwrap_csts(items), closing_parenthesis: Box::new(unwrap_cst(closing_parenthesis)) } },
        CstKind::ListItem { value, comma } => Cst { data: cst.data.clone(), kind: CstKind::ListItem { value: Box::new(unwrap_cst(value)), comma: match comma { Some(comma) => Some(Box::new(unwrap_cst(comma))), None => None } } },
        CstKind::Struct { opening_bracket, fields, closing_bracket } => Cst { data: cst.data.clone(), kind: CstKind::Struct { opening_bracket: Box::new(unwrap_cst(opening_bracket)), fields: unwrap_csts(fields), closing_bracket: Box::new(unwrap_cst(closing_bracket)) } },
        CstKind::StructField { key_and_colon, value, comma } => Cst { data: cst.data.clone(), kind: CstKind::StructField { key_and_colon: match key_and_colon { Some(key_and_colon) => Some(Box::new((unwrap_cst(&key_and_colon.0), unwrap_cst(&key_and_colon.1)))), None => None }, value: Box::new(unwrap_cst(value)), comma: match comma { Some(comma) => Some(Box::new(unwrap_cst(comma))), None => None } } },
        CstKind::StructAccess { struct_, dot, key } => Cst { data: cst.data.clone(), kind: CstKind::StructAccess { struct_: Box::new(unwrap_cst(struct_)), dot: Box::new(unwrap_cst(dot)), key: Box::new(unwrap_cst(key)) } },
        CstKind::Match { expression, percent, cases } => Cst { data: cst.data.clone(), kind: CstKind::Match { expression: Box::new(unwrap_cst(expression)), percent: Box::new(unwrap_cst(percent)), cases: unwrap_csts(cases) } },
        CstKind::MatchCase { pattern, arrow, body } => Cst { data: cst.data.clone(), kind: CstKind::MatchCase { pattern: Box::new(unwrap_cst(pattern)), arrow: Box::new(unwrap_cst(arrow)), body: unwrap_csts(body) } },
        CstKind::Function { opening_curly_brace, parameters_and_arrow, body, closing_curly_brace } => Cst { data: cst.data.clone(), kind: CstKind::Function { opening_curly_brace: Box::new(unwrap_cst(opening_curly_brace)), parameters_and_arrow: match parameters_and_arrow { Some(parameters_and_arrow) => Some((unwrap_csts(&parameters_and_arrow.0), Box::new(unwrap_cst(&parameters_and_arrow.1)))), None => None }, body: unwrap_csts(body), closing_curly_brace: Box::new(unwrap_cst(closing_curly_brace)) } },
        CstKind::Assignment { left, assignment_sign, body } => Cst { data: cst.data.clone(), kind: CstKind::Assignment { left: Box::new(unwrap_cst(left)), assignment_sign: Box::new(unwrap_cst(assignment_sign)), body: unwrap_csts(body) } },
        _ => clone_cst(cst),
    }
}

/// Unwraps whitespace and comments from all nodes, dropping those that are
/// only whitespace or a comment.
pub fn unwrap_csts(csts: &Vec<Cst>) -> (result: Vec<Cst>)
    ensures
        views(result@) == unwrapped_views(views(csts@)),
    decreases csts,
{
    let mut result: Vec<Cst> = Vec::new();
    let mut i: usize = 0;
    while i < csts.len()
        invariant
            i <= csts.len(),
            views(result@) == unwrapped_views(views(csts@.take(i as int))),
        decreases csts.len() - i,
    {
        assert(decreases_to!(csts => csts@[i as int]));
        assert(csts@.take(i + 1).drop_last() == csts@.take(i as int));
        let ghost prefix = csts@.take(i + 1);
        assert(views(prefix).drop_last() == views(prefix.drop_last()));
        assert(views(prefix).last() == csts@[i as int]@);
        if !csts[i].kind.is_whitespace_or_comment() {
            let ghost before = result@;
            result.push(unwrap_cst(&csts[i]));
            assert(result@.drop_last() == before);
            assert(views(result@).drop_last() == views(before));
        }
        i = i + 1;
    }
    assert(csts@.take(csts.len() as int) == csts@);
    result
}

/// Removes whitespace and comments from a piece of the syntax tree.
pub trait UnwrapWhitespaceAndComment: Sized + View {
    spec fn spec_unwrapped(original: Self::V) -> Self::V;

    fn unwrap_whitespace_and_comment(&self) -> (result: Self)
        ensures
            result@ == Self::spec_unwrapped(self@),
    ;
}

impl UnwrapWhitespaceAndComment for Cst {
    open spec fn spec_unwrapped(original: CstView) -> CstView {
        original.unwrapped()
    }

    fn unwrap_whitespace_and_comment(&self) -> (result: Self) {
        unwrap_cst(self)
    }
}


/// Unwrapping leaves a node that is not only whitespace or a comment so.
proof fn lemma_unwrapped_stays_significant(node: CstView)
    requires
        !node.kind.is_whitespace_or_comment(),
    ensures
        !node.unwrapped().kind.is_whitespace_or_comment(),
    decreases node,
{
    if let CstKindView::TrailingWhitespace { child, .. } = node.kind {
        lemma_unwrapped_stays_significant(*child);
    }
}

/// Unwrapping an unwrapped node changes nothing more.
pub proof fn lemma_unwrap_idempotent(node: CstView)
    ensures
        node.unwrapped().unwrapped() == node.unwrapped(),
    decreases node,
{
    match node.kind {
        CstKindView::TrailingWhitespace { child, .. } => {
            lemma_unwrap_idempotent(*child);
        },
        CstKindView::OpeningText { opening_single_quotes, opening_double_quote } => {
            lemma_unwrap_views_idempotent(opening_single_quotes);
            lemma_unwrap_idempotent(*opening_double_quote);
        },
        CstKindView::ClosingText { closing_double_quote, closing_single_quotes } => {
            lemma_unwrap_idempotent(*closing_double_quote);
            lemma_unwrap_views_idempotent(closing_single_quotes);
        },
        CstKindView::Text { opening, parts, closing } => {
            lemma_unwrap_idempotent(*opening);
            lemma_unwrap_views_idempotent(parts);
            lemma_unwrap_idempotent(*closing);
        },
        CstKindView::TextInterpolation { opening_curly_braces, expression, closing_curly_braces } => {
            lemma_unwrap_views_idempotent(opening_curly_braces);
            lemma_unwrap_idempotent(*expression);
            lemma_unwrap_views_idempotent(closing_curly_braces);
        },
        CstKindView::BinaryBar { left, bar, right } => {
            lemma_unwrap_idempotent(*left);
            lemma_unwrap_idempotent(*bar);
            lemma_unwrap_idempotent(*right);
        },
        CstKindView::Parenthesized { opening_parenthesis, inner, closing_parenthesis } => {
            lemma_unwrap_idempotent(*opening_parenthesis);
            lemma_unwrap_idempotent(*inner);
            lemma_unwrap_idempotent(*closing_parenthesis);
        },
        CstKindView::Call { receiver, arguments } => {
            lemma_unwrap_idempotent(*receiver);
            lemma_unwrap_views_idempotent(arguments);
        },
        CstKindView::List { opening_parenthesis, items, closing_parenthesis } => {
            lemma_unwrap_idempotent(*opening_parenthesis);
            lemma_unwrap_views_idempotent(items);
            lemma_unwrap_idempotent(*closing_parenthesis);
        },
        CstKindView::ListItem { value, comma } => {
            lemma_unwrap_idempotent(*value);
            if let Some(comma) = comma {
                lemma_unwrap_idempotent(*comma);
            }
        },
        CstKindView::Struct { opening_bracket, fields, closing_bracket } => {
            lemma_unwrap_idempotent(*opening_bracket);
            lemma_unwrap_views_idempotent(fields);
            lemma_unwrap_idempotent(*closing_bracket);
        },
        CstKindView::StructField { key_and_colon, value, comma } => {
            if let Some(key_and_colon) = key_and_colon {
                lemma_unwrap_idempotent(key_and_colon.0);
                lemma_unwrap_idempotent(key_and_colon.1);
            }
            lemma_unwrap_idempotent(*value);
            if let Some(comma) = comma {
                lemma_unwrap_idempotent(*comma);
            }
        },
        CstKindView::StructAccess { struct_, dot, key } => {
            lemma_unwrap_idempotent(*struct_);
            lemma_unwrap_idempotent(*dot);
            lemma_unwrap_idempotent(*key);
        },
        CstKindView::Match { expression, percent, cases } => {
            lemma_unwrap_idempotent(*expression);
            lemma_unwrap_idempotent(*percent);
            lemma_unwrap_views_idempotent(cases);
        },
        CstKindView::MatchCase { pattern, arrow, body } => {
            lemma_unwrap_idempotent(*pattern);
            lemma_unwrap_idempotent(*arrow);
            lemma_unwrap_views_idempotent(body);
        },
        CstKindView::Function { opening_curly_brace, parameters_and_arrow, body, closing_curly_brace } => {
            lemma_unwrap_idempotent(*opening_curly_brace);
            if let Some(parameters_and_arrow) = parameters_and_arrow {
                lemma_unwrap_views_idempotent(parameters_and_arrow.0);
                lemma_unwrap_idempotent(*parameters_and_arrow.1);
            }
            lemma_unwrap_views_idempotent(body);
            lemma_unwrap_idempotent(*closing_curly_brace);
        },
        CstKindView::Assignment { left, assignment_sign, body } => {
            lemma_unwrap_idempotent(*left);
            lemma_unwrap_idempotent(*assignment_sign);
            lemma_unwrap_views_idempotent(body);
        },
        _ => {},
    }
}

/// Unwrapping unwrapped nodes changes nothing more.
pub proof fn lemma_unwrap_views_idempotent(csts: Seq<CstView>)
    ensures
        unwrapped_views(unwrapped_views(csts)) == unwrapped_views(csts),
    decreases csts,
{
    if csts.len() > 0 {
        let rest = csts.drop_last();
        let last = csts.last();
        lemma_unwrap_views_idempotent(rest);
        if !last.kind.is_whitespace_or_comment() {
            lemma_unwrap_idempotent(last);
            lemma_unwrapped_stays_significant(last);
            let unwrapped = unwrapped_views(csts);
            assert(unwrapped.drop_last() == unwrapped_views(rest));
            assert(unwrapped.last() == last.unwrapped());
        }
    }
}

} // verus!
