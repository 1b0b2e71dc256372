use super::{optional_text, texts, Cst, CstKind};
use crate::text::chars_of;
use vstd::prelude::*;

verus! {

/// Whether a piece of the syntax tree spans multiple lines.
pub trait IsMultiline {
    spec fn spec_is_multiline(&self) -> bool;

    fn is_multiline(&self) -> (result: bool)
        ensures
            result == self.spec_is_multiline(),
    ;

    fn is_singleline(&self) -> (result: bool)
        ensures
            result == !self.spec_is_multiline(),
    {
        !self.is_multiline()
    }
}

/// Whether a string contains a line break.
pub open spec fn contains_newline(s: Seq<char>) -> bool {
    s.contains('\n')
}

/// Whether any node of a sequence spans multiple lines.
pub open spec fn any_multiline(csts: Seq<Cst>) -> bool
    decreases csts,
{
    if csts.len() == 0 {
        false
    } else {
        any_multiline(csts.drop_last()) || csts.last().spec_multiline()
    }
}

impl Cst {
    /// Whether this node spans multiple lines: line breaks count, and so do
    /// line breaks inside unparsable input; the delimiters of texts, text
    /// interpolations and comments are not looked at.
    pub open spec fn spec_multiline(self) -> bool
        decreases self,
    {
        match self.kind {
            CstKind::Newline(_) | CstKind::TextNewline(_) => true,
            CstKind::TrailingWhitespace { child, whitespace } => child.spec_multiline()
                || any_multiline(whitespace@),
            CstKind::Text { opening, parts, closing } => opening.spec_multiline() || any_multiline(
                parts@,
            ) || closing.spec_multiline(),
            CstKind::TextInterpolation { expression, .. } => expression.spec_multiline(),
            CstKind::BinaryBar { left, bar, right } => left.spec_multiline()
                || bar.spec_multiline() || right.spec_multiline(),
            CstKind::Parenthesized { opening_parenthesis, inner, closing_parenthesis } =>
                opening_parenthesis.spec_multiline() || inner.spec_multiline()
                || closing_parenthesis.spec_multiline(),
            CstKind::Call { receiver, arguments } => receiver.spec_multiline() || any_multiline(
                arguments@,
            ),
            CstKind::List { opening_parenthesis, items, closing_parenthesis } =>
                opening_parenthesis.spec_multiline() || any_multiline(items@)
                || closing_parenthesis.spec_multiline(),
            CstKind::ListItem { value, comma } => value.spec_multiline() || (match comma {
                Some(comma) => comma.spec_multiline(),
                None => false,
            }),
            CstKind::Struct { opening_bracket, fields, closing_bracket } =>
                opening_bracket.spec_multiline() || any_multiline(fields@)
                || closing_bracket.spec_multiline(),
            CstKind::StructField { key_and_colon, value, comma } => (match key_and_colon {
                Some(key_and_colon) => key_and_colon.0.spec_multiline()
                    || key_and_colon.1.spec_multiline(),
                None => false,
            }) || value.spec_multiline() || (match comma {
                Some(comma) => comma.spec_multiline(),
                None => false,
            }),
            CstKind::StructAccess { struct_, dot, key } => struct_.spec_multiline()
                || dot.spec_multiline() || key.spec_multiline(),
            CstKind::Match { expression, percent, cases } => expression.spec_multiline()
                || percent.spec_multiline() || any_multiline(cases@),
            CstKind::MatchCase { pattern, arrow, body } => pattern.spec_multiline()
                || arrow.spec_multiline() || any_multiline(body@),
            CstKind::Function {
                opening_curly_brace,
                parameters_and_arrow,
                body,
                closing_curly_brace,
            } => opening_curly_brace.spec_multiline() || (match parameters_and_arrow {
                Some(parameters_and_arrow) => any_multiline(parameters_and_arrow.0@)
                    || parameters_and_arrow.1.spec_multiline(),
                None => false,
            }) || any_multiline(body@) || closing_curly_brace.spec_multiline(),
            CstKind::Assignment { left, assignment_sign, body } => left.spec_multiline()
                || assignment_sign.spec_multiline() || any_multiline(body@),
            CstKind::Error { unparsable_input, .. } => contains_newline(unparsable_input@),
            _ => false,
        }
    }
}

/// Whether a string contains a line break.
pub fn str_is_multiline(s: &str) -> (result: bool)
    ensures
        result == contains_newline(s@),
{
    let chars = chars_of(s);
    let mut i: usize = 0;
    while i < chars.len()
        invariant
            i <= chars.len(),
            chars@ == s@,
            forall|j: int| 0 <= j < i ==> chars@[j] != '\n',
        decreases chars.len() - i,
    {
        if chars[i] == '\n' {
            return true;
        }
        i = i + 1;
    }
    false
}

fn cst_is_multiline(cst: &Cst) -> (result: bool)
    ensures
        result == cst.spec_multiline(),
    decreases cst,
{
    match &cst.kind {
        CstKind::Newline(_) | CstKind::TextNewline(_) => true,
        CstKind::TrailingWhitespace { child, whitespace } => cst_is_multiline(child)
            || csts_are_multiline(whitespace),
        CstKind::Text { opening, parts, closing } => cst_is_multiline(opening)
            || csts_are_multiline(parts) || cst_is_multiline(closing),
        CstKind::TextInterpolation { expression, .. } => cst_is_multiline(expression),
        CstKind::BinaryBar { left, bar, right } => cst_is_multiline(left) || cst_is_multiline(bar)
            || cst_is_multiline(right),
        CstKind::Parenthesized { opening_parenthesis, inner, closing_parenthesis } =>
            cst_is_multiline(opening_parenthesis) || cst_is_multiline(inner) || cst_is_multiline(
            closing_parenthesis,
        ),
        CstKind::Call { receiver, arguments } => cst_is_multiline(receiver) || csts_are_multiline(
            arguments,
        ),
        CstKind::List { opening_parenthesis, items, closing_parenthesis } => cst_is_multiline(
            opening_parenthesis,
        ) || csts_are_multiline(items) || cst_is_multiline(closing_parenthesis),
        CstKind::ListItem { value, comma } => cst_is_multiline(value) || match comma {
            Some(comma) => cst_is_multiline(comma),
            None => false,
        },
        CstKind::Struct { opening_bracket, fields, closing_bracket } => cst_is_multiline(
            opening_bracket,
        ) || csts_are_multiline(fields) || cst_is_multiline(closing_bracket),
        CstKind::StructField { key_and_colon, value, comma } => (match key_and_colon {
            Some(key_and_colon) => cst_is_multiline(&key_and_colon.0) || cst_is_multiline(
                &key_and_colon.1,
            ),
            None => false,
        }) || cst_is_multiline(value) || match comma {
            Some(comma) => cst_is_multiline(comma),
            None => false,
        },
        CstKind::StructAccess { struct_, dot, key } => cst_is_multiline(struct_)
            || cst_is_multiline(dot) || cst_is_multiline(key),
        CstKind::Match { expression, percent, cases } => cst_is_multiline(expression)
            || cst_is_multiline(percent) || csts_are_multiline(cases),
        CstKind::MatchCase { pattern, arrow, body } => cst_is_multiline(pattern)
            || cst_is_multiline(arrow) || csts_are_multiline(body),
        CstKind::Function {
            opening_curly_brace,
            parameters_and_arrow,
            body,
            closing_curly_brace,
        } => cst_is_multiline(opening_curly_brace) || (match parameters_and_arrow {
            Some(parameters_and_arrow) => csts_are_multiline(&parameters_and_arrow.0)
                || cst_is_multiline(&parameters_and_arrow.1),
            None => false,
        }) || csts_are_multiline(body) || cst_is_multiline(closing_curly_brace),
        CstKind::Assignment { left, assignment_sign, body } => cst_is_multiline(left)
            || cst_is_multiline(assignment_sign) || csts_are_multiline(body),
        CstKind::Error { unparsable_input, .. } => str_is_multiline(unparsable_input.as_str()),
        _ => false,
    }
}

proof fn lemma_any_multiline_element(csts: Seq<Cst>, i: int)
    requires
        0 <= i < csts.len(),
        csts[i].spec_multiline(),
    ensures
        any_multiline(csts),
    decreases csts.len(),
{
    if i < csts.len() - 1 {
        lemma_any_multiline_element(csts.drop_last(), i);
    }
}

fn csts_are_multiline(csts: &Vec<Cst>) -> (result: bool)
    ensures
        result == any_multiline(csts@),
    decreases csts,
{
    let mut i: usize = 0;
    while i < csts.len()
        invariant
            i <= csts.len(),
            !any_multiline(csts@.take(i as int)),
        decreases csts.len() - i,
    {
        assert(decreases_to!(csts => csts@[i as int]));
        if cst_is_multiline(&csts[i]) {
            proof {
                lemma_any_multiline_element(csts@, i as int);
            }
            return true;
        }
        i = i + 1;
        assert(csts@.take(i as int).drop_last() == csts@.take(i - 1));
    }
    assert(csts@.take(csts.len() as int) == csts@);
    false
}

impl IsMultiline for Cst {
    open spec fn spec_is_multiline(&self) -> bool {
        self.spec_multiline()
    }

    fn is_multiline(&self) -> (result: bool) {
        cst_is_multiline(self)
    }
}

impl IsMultiline for Vec<Cst> {
    open spec fn spec_is_multiline(&self) -> bool {
        any_multiline(self@)
    }

    fn is_multiline(&self) -> (result: bool) {
        csts_are_multiline(self)
    }
}

impl IsMultiline for str {
    open spec fn spec_is_multiline(&self) -> bool {
        contains_newline(self@)
    }

    fn is_multiline(&self) -> (result: bool) {
        str_is_multiline(self)
    }
}

/// Whether the line breaks of every node of a sequence are where the nodes
/// say.
pub open spec fn all_lines_consistent(csts: Seq<Cst>) -> bool
    decreases csts,
{
    if csts.len() == 0 {
        true
    } else {
        all_lines_consistent(csts.drop_last()) && csts.last().lines_consistent()
    }
}

/// Whether the texts of a sequence of nodes hold no line feed.
pub open spec fn no_line_feeds(csts: Seq<Cst>) -> bool {
    !contains_newline(texts(csts))
}

impl Cst {
    /// Whether the line breaks of this tree are where its nodes say, as the
    /// parser builds them: line break nodes hold a line feed, no other token
    /// does, and delimiters (quotes, braces, the octothorpe of a comment) hold
    /// none. Unparsable input may hold anything.
    pub open spec fn lines_consistent(self) -> bool
        decreases self,
    {
        match self.kind {
            CstKind::Whitespace(text) => !contains_newline(text@),
            CstKind::Identifier(text) => !contains_newline(text@),
            CstKind::Symbol(text) => !contains_newline(text@),
            CstKind::TextPart(text) => !contains_newline(text@),
            CstKind::Newline(text) => contains_newline(text@),
            CstKind::TextNewline(text) => contains_newline(text@),
            CstKind::Comment { octothorpe, comment } => !contains_newline(octothorpe.text())
                && !contains_newline(comment@),
            CstKind::TrailingWhitespace { child, whitespace } => child.lines_consistent()
                && all_lines_consistent(whitespace@),
            CstKind::Int { radix_prefix, string, .. } => !contains_newline(string@) && (
            match radix_prefix {
                Some(prefix) => !contains_newline(prefix.1@),
                None => true,
            }),
            CstKind::OpeningText { opening_single_quotes, opening_double_quote } => no_line_feeds(
                opening_single_quotes@,
            ) && !contains_newline(opening_double_quote.text()),
            CstKind::ClosingText { closing_double_quote, closing_single_quotes } =>
                !contains_newline(closing_double_quote.text()) && no_line_feeds(
                closing_single_quotes@,
            ),
            CstKind::Text { opening, parts, closing } => opening.lines_consistent()
                && all_lines_consistent(parts@) && closing.lines_consistent(),
            CstKind::TextInterpolation {
                opening_curly_braces,
                expression,
                closing_curly_braces,
            } => no_line_feeds(opening_curly_braces@) && expression.lines_consistent()
                && no_line_feeds(closing_curly_braces@),
            CstKind::BinaryBar { left, bar, right } => left.lines_consistent()
                && bar.lines_consistent() && right.lines_consistent(),
            CstKind::Parenthesized { opening_parenthesis, inner, closing_parenthesis } =>
                opening_parenthesis.lines_consistent() && inner.lines_consistent()
                && closing_parenthesis.lines_consistent(),
            CstKind::Call { receiver, arguments } => receiver.lines_consistent()
                && all_lines_consistent(arguments@),
            CstKind::List { opening_parenthesis, items, closing_parenthesis } =>
                opening_parenthesis.lines_consistent() && all_lines_consistent(items@)
                && closing_parenthesis.lines_consistent(),
            CstKind::ListItem { value, comma } => value.lines_consistent() && (match comma {
                Some(comma) => comma.lines_consistent(),
                None => true,
            }),
            CstKind::Struct { opening_bracket, fields, closing_bracket } =>
                opening_bracket.lines_consistent() && all_lines_consistent(fields@)
                && closing_bracket.lines_consistent(),
            CstKind::StructField { key_and_colon, value, comma } => (match key_and_colon {
                Some(key_and_colon) => key_and_colon.0.lines_consistent()
                    && key_and_colon.1.lines_consistent(),
                None => true,
            }) && value.lines_consistent() && (match comma {
                Some(comma) => comma.lines_consistent(),
                None => true,
            }),
            CstKind::StructAccess { struct_, dot, key } => struct_.lines_consistent()
                && dot.lines_consistent() && key.lines_consistent(),
            CstKind::Match { expression, percent, cases } => expression.lines_consistent()
                && percent.lines_consistent() && all_lines_consistent(cases@),
            CstKind::MatchCase { pattern, arrow, body } => pattern.lines_consistent()
                && arrow.lines_consistent() && all_lines_consistent(body@),
            CstKind::Function {
                opening_curly_brace,
                parameters_and_arrow,
                body,
                closing_curly_brace,
            } => opening_curly_brace.lines_consistent() && (match parameters_and_arrow {
                Some(parameters_and_arrow) => all_lines_consistent(parameters_and_arrow.0@)
                    && parameters_and_arrow.1.lines_consistent(),
                None => true,
            }) && all_lines_consistent(body@) && closing_curly_brace.lines_consistent(),
            CstKind::Assignment { left, assignment_sign, body } => left.lines_consistent()
                && assignment_sign.lines_consistent() && all_lines_consistent(body@),
            _ => true,
        }
    }
}

/// A tree spans multiple lines exactly when its text holds a line feed, where
/// its line breaks are where its nodes say.
pub proof fn lemma_multiline_iff_line_feed(cst: Cst)
    requires
        cst.lines_consistent(),
    ensures
        cst.spec_multiline() == contains_newline(cst.text()),
    decreases cst,
{
    broadcast use crate::seq_facts::lemma_contains_concat_auto;

    match cst.kind {
        CstKind::TrailingWhitespace { child, whitespace } => {
            lemma_multiline_iff_line_feed(*child);
            lemma_all_multiline_iff_line_feed(whitespace@);
        },
        CstKind::Text { opening, parts, closing } => {
            lemma_multiline_iff_line_feed(*opening);
            lemma_all_multiline_iff_line_feed(parts@);
            lemma_multiline_iff_line_feed(*closing);
        },
        CstKind::TextInterpolation { opening_curly_braces, expression, closing_curly_braces } => {
            lemma_multiline_iff_line_feed(*expression);
        },
        CstKind::BinaryBar { left, bar, right } => {
            lemma_multiline_iff_line_feed(*left);
            lemma_multiline_iff_line_feed(*bar);
            lemma_multiline_iff_line_feed(*right);
        },
        CstKind::Parenthesized { opening_parenthesis, inner, closing_parenthesis } => {
            lemma_multiline_iff_line_feed(*opening_parenthesis);
            lemma_multiline_iff_line_feed(*inner);
            lemma_multiline_iff_line_feed(*closing_parenthesis);
        },
        CstKind::Call { receiver, arguments } => {
            lemma_multiline_iff_line_feed(*receiver);
            lemma_all_multiline_iff_line_feed(arguments@);
        },
        CstKind::List { opening_parenthesis, items, closing_parenthesis } => {
            lemma_multiline_iff_line_feed(*opening_parenthesis);
            lemma_all_multiline_iff_line_feed(items@);
            lemma_multiline_iff_line_feed(*closing_parenthesis);
        },
        CstKind::ListItem { value, comma } => {
            lemma_multiline_iff_line_feed(*value);
            match comma {
                Some(comma) => {
                    lemma_multiline_iff_line_feed(*comma);
                    assert(optional_text(Some(comma)) == comma.text());
                },
                None => {
                    assert(optional_text(comma) =~= Seq::<char>::empty());
                },
            }
        },
        CstKind::Struct { opening_bracket, fields, closing_bracket } => {
            lemma_multiline_iff_line_feed(*opening_bracket);
            lemma_all_multiline_iff_line_feed(fields@);
            lemma_multiline_iff_line_feed(*closing_bracket);
        },
        CstKind::StructField { key_and_colon, value, comma } => {
            if let Some(key_and_colon) = key_and_colon {
                lemma_multiline_iff_line_feed(key_and_colon.0);
                lemma_multiline_iff_line_feed(key_and_colon.1);
            }
            lemma_multiline_iff_line_feed(*value);
            match comma {
                Some(comma) => {
                    lemma_multiline_iff_line_feed(*comma);
                    assert(optional_text(Some(comma)) == comma.text());
                },
                None => {
                    assert(optional_text(comma) =~= Seq::<char>::empty());
                },
            }
        },
        CstKind::StructAccess { struct_, dot, key } => {
            lemma_multiline_iff_line_feed(*struct_);
            lemma_multiline_iff_line_feed(*dot);
            lemma_multiline_iff_line_feed(*key);
        },
        CstKind::Match { expression, percent, cases } => {
            lemma_multiline_iff_line_feed(*expression);
            lemma_multiline_iff_line_feed(*percent);
            lemma_all_multiline_iff_line_feed(cases@);
        },
        CstKind::MatchCase { pattern, arrow, body } => {
            lemma_multiline_iff_line_feed(*pattern);
            lemma_multiline_iff_line_feed(*arrow);
            lemma_all_multiline_iff_line_feed(body@);
        },
        CstKind::Function { opening_curly_brace, parameters_and_arrow, body, closing_curly_brace } => {
            lemma_multiline_iff_line_feed(*opening_curly_brace);
            if let Some(parameters_and_arrow) = parameters_and_arrow {
                lemma_all_multiline_iff_line_feed(parameters_and_arrow.0@);
                lemma_multiline_iff_line_feed(*parameters_and_arrow.1);
            }
            lemma_all_multiline_iff_line_feed(body@);
            lemma_multiline_iff_line_feed(*closing_curly_brace);
        },
        CstKind::Assignment { left, assignment_sign, body } => {
            lemma_multiline_iff_line_feed(*left);
            lemma_multiline_iff_line_feed(*assignment_sign);
            lemma_all_multiline_iff_line_feed(body@);
        },
        CstKind::Comment { .. } | CstKind::OpeningText { .. } | CstKind::ClosingText { .. }
        | CstKind::Int { .. } | CstKind::Error { .. } | CstKind::Whitespace(_)
        | CstKind::Newline(_) | CstKind::Identifier(_) | CstKind::Symbol(_)
        | CstKind::TextNewline(_) | CstKind::TextPart(_) => {},
        _ => {
            assert(!cst.text().contains('\n')) by {
                assert forall|i: int| 0 <= i < cst.text().len() implies cst.text()[i] != '\n' by {
                    assert(i < 2);
                }
            }
        },
    }
}

/// A sequence of nodes spans multiple lines exactly when its text holds a line
/// feed, where the line breaks of its nodes are where they say.
pub proof fn lemma_all_multiline_iff_line_feed(csts: Seq<Cst>)
    requires
        all_lines_consistent(csts),
    ensures
        any_multiline(csts) == contains_newline(texts(csts)),
    decreases csts,
{
    broadcast use crate::seq_facts::lemma_contains_concat_auto;

    if csts.len() > 0 {
        lemma_all_multiline_iff_line_feed(csts.drop_last());
        lemma_multiline_iff_line_feed(csts.last());
    }
}

} // verus!
