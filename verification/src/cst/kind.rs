use super::{texts, write_all_to, Cst, CstError};
use crate::text::{push_char, push_str};
use num_bigint::BigUint;
use vstd::prelude::*;

verus! {

/// The kinds of nodes of the concrete syntax tree. Every character of the
/// source code belongs to exactly one leaf of the tree.
#[derive(Debug)]
#[allow(inconsistent_fields)]
pub enum CstKind {
    EqualsSign,  // =
    Comma,  // ,
    Dot,  // .
    Colon,  // :
    ColonEqualsSign,  // :=
    Bar,  // |
    OpeningParenthesis,  // (
    ClosingParenthesis,  // )
    OpeningBracket,  // [
    ClosingBracket,  // ]
    OpeningCurlyBrace,  // {
    ClosingCurlyBrace,  // }
    Arrow,  // ->
    SingleQuote,  // '
    DoubleQuote,  // "
    Percent,  // %
    Octothorpe,  // #
    Whitespace(String),  // contains only non-multiline whitespace
    Newline(String),  // some systems (such as Windows) have weird newlines
    Comment { octothorpe: Box<Cst>, comment: String },
    TrailingWhitespace { child: Box<Cst>, whitespace: Vec<Cst> },
    Identifier(String),
    Symbol(String),
    Int { radix_prefix: Option<(IntRadix, String)>, value: BigUint, string: String },
    OpeningText { opening_single_quotes: Vec<Cst>, opening_double_quote: Box<Cst> },
    ClosingText { closing_double_quote: Box<Cst>, closing_single_quotes: Vec<Cst> },
    Text { opening: Box<Cst>, parts: Vec<Cst>, closing: Box<Cst> },
    TextNewline(String),  // special newline for text because line breaks have semantic meaning there
    TextPart(String),
    TextInterpolation {
        opening_curly_braces: Vec<Cst>,
        expression: Box<Cst>,
        closing_curly_braces: Vec<Cst>,
    },
    BinaryBar { left: Box<Cst>, bar: Box<Cst>, right: Box<Cst> },
    Parenthesized {
        opening_parenthesis: Box<Cst>,
        inner: Box<Cst>,
        closing_parenthesis: Box<Cst>,
    },
    Call { receiver: Box<Cst>, arguments: Vec<Cst> },
    List { opening_parenthesis: Box<Cst>, items: Vec<Cst>, closing_parenthesis: Box<Cst> },
    ListItem { value: Box<Cst>, comma: Option<Box<Cst>> },
    Struct { opening_bracket: Box<Cst>, fields: Vec<Cst>, closing_bracket: Box<Cst> },
    StructField {
        key_and_colon: Option<Box<(Cst, Cst)>>,
        value: Box<Cst>,
        comma: Option<Box<Cst>>,
    },
    StructAccess { struct_: Box<Cst>, dot: Box<Cst>, key: Box<Cst> },
    Match { expression: Box<Cst>, percent: Box<Cst>, cases: Vec<Cst> },
    MatchCase { pattern: Box<Cst>, arrow: Box<Cst>, body: Vec<Cst> },
    Function {
        opening_curly_brace: Box<Cst>,
        parameters_and_arrow: Option<(Vec<Cst>, Box<Cst>)>,
        body: Vec<Cst>,
        closing_curly_brace: Box<Cst>,
    },
    Assignment { left: Box<Cst>, assignment_sign: Box<Cst>, body: Vec<Cst> },
    Error { unparsable_input: String, error: CstError },
}

/// The radix of an integer literal that has a prefix.
#[derive(Clone, Copy, Debug, PartialEq, Eq, Structural, Hash)]
pub enum IntRadix {
    Binary,
    Hexadecimal,
}

/// The source code of an optional node.
pub open spec fn optional_text(cst: Option<Box<Cst>>) -> Seq<char>
    decreases cst,
{
    match cst {
        Some(cst) => cst.text(),
        None => Seq::empty(),
    }
}

impl CstKind {
    /// The source code that a node of this kind was parsed from.
    pub open spec fn text(self) -> Seq<char>
        decreases self,
    {
        match self {
            CstKind::EqualsSign => seq!['='],
            CstKind::Comma => seq![','],
            CstKind::Dot => seq!['.'],
            CstKind::Colon => seq![':'],
            CstKind::ColonEqualsSign => seq![':', '='],
            CstKind::Bar => seq!['|'],
            CstKind::OpeningParenthesis => seq!['('],
            CstKind::ClosingParenthesis => seq![')'],
            CstKind::OpeningBracket => seq!['['],
            CstKind::ClosingBracket => seq![']'],
            CstKind::OpeningCurlyBrace => seq!['{'],
            CstKind::ClosingCurlyBrace => seq!['}'],
            CstKind::Arrow => seq!['-', '>'],
            CstKind::SingleQuote => seq!['\''],
            CstKind::DoubleQuote => seq!['"'],
            CstKind::Percent => seq!['%'],
            CstKind::Octothorpe => seq!['#'],
            CstKind::Whitespace(whitespace) => whitespace@,
            CstKind::Newline(newline) => newline@,
            CstKind::Comment { octothorpe, comment } => octothorpe.text() + comment@,
            CstKind::TrailingWhitespace { child, whitespace } => child.text() + texts(whitespace@),
            CstKind::Identifier(identifier) => identifier@,
            CstKind::Symbol(symbol) => symbol@,
            CstKind::Int { radix_prefix, value: _, string } => match radix_prefix {
                Some(prefix) => prefix.1@ + string@,
                None => string@,
            },
            CstKind::OpeningText { opening_single_quotes, opening_double_quote } => texts(
                opening_single_quotes@,
            ) + opening_double_quote.text(),
            CstKind::ClosingText { closing_double_quote, closing_single_quotes } =>
                closing_double_quote.text() + texts(closing_single_quotes@),
            CstKind::Text { opening, parts, closing } => opening.text() + texts(parts@)
                + closing.text(),
            CstKind::TextNewline(newline) => newline@,
            CstKind::TextPart(literal) => literal@,
            CstKind::TextInterpolation {
                opening_curly_braces,
                expression,
                closing_curly_braces,
            } => texts(opening_curly_braces@) + expression.text() + texts(closing_curly_braces@),
            CstKind::BinaryBar { left, bar, right } => left.text() + bar.text() + right.text(),
            CstKind::Parenthesized { opening_parenthesis, inner, closing_parenthesis } =>
                opening_parenthesis.text() + inner.text() + closing_parenthesis.text(),
            CstKind::Call { receiver, arguments } => receiver.text() + texts(arguments@),
            CstKind::List { opening_parenthesis, items, closing_parenthesis } =>
                opening_parenthesis.text() + texts(items@) + closing_parenthesis.text(),
            CstKind::ListItem { value, comma } => value.text() + optional_text(comma),
            CstKind::Struct { opening_bracket, fields, closing_bracket } => opening_bracket.text()
                + texts(fields@) + closing_bracket.text(),
            CstKind::StructField { key_and_colon, value, comma } => (match key_and_colon {
                Some(key_and_colon) => key_and_colon.0.text() + key_and_colon.1.text(),
                None => Seq::empty(),
            }) + value.text() + optional_text(comma),
            CstKind::StructAccess { struct_, dot, key } => struct_.text() + dot.text()
                + key.text(),
            CstKind::Match { expression, percent, cases } => expression.text() + percent.text()
                + texts(cases@),
            CstKind::MatchCase { pattern, arrow, body } => pattern.text() + arrow.text() + texts(
                body@,
            ),
            CstKind::Function {
                opening_curly_brace,
                parameters_and_arrow,
                body,
                closing_curly_brace,
            } => opening_curly_brace.text() + (match parameters_and_arrow {
                Some(parameters_and_arrow) => texts(parameters_and_arrow.0@)
                    + parameters_and_arrow.1.text(),
                None => Seq::empty(),
            }) + texts(body@) + closing_curly_brace.text(),
            CstKind::Assignment { left, assignment_sign, body } => left.text()
                + assignment_sign.text() + texts(body@),
            CstKind::Error { unparsable_input, error: _ } => unparsable_input@,
        }
    }

    /// Appends the source code of a node of this kind, as its `Display`
    /// implementation writes it.
    pub fn write_to(&self, out: &mut String)
        ensures
            final(out)@ == old(out)@ + self.text(),
        decreases self,
    {
        match self {
            CstKind::EqualsSign => push_char(out, '='),
            CstKind::Comma => push_char(out, ','),
            CstKind::Dot => push_char(out, '.'),
            CstKind::Colon => push_char(out, ':'),
            CstKind::ColonEqualsSign => {
                push_char(out, ':');
                push_char(out, '=');
            },
            CstKind::Bar => push_char(out, '|'),
            CstKind::OpeningParenthesis => push_char(out, '('),
            CstKind::ClosingParenthesis => push_char(out, ')'),
            CstKind::OpeningBracket => push_char(out, '['),
            CstKind::ClosingBracket => push_char(out, ']'),
            CstKind::OpeningCurlyBrace => push_char(out, '{'),
            CstKind::ClosingCurlyBrace => push_char(out, '}'),
            CstKind::Arrow => {
                push_char(out, '-');
                push_char(out, '>');
            },
            CstKind::SingleQuote => push_char(out, '\''),
            CstKind::DoubleQuote => push_char(out, '"'),
            CstKind::Percent => push_char(out, '%'),
            CstKind::Octothorpe => push_char(out, '#'),
            CstKind::Whitespace(whitespace) => push_str(out, whitespace.as_str()),
            CstKind::Newline(newline) => push_str(out, newline.as_str()),
            CstKind::Comment { octothorpe, comment } => {
                octothorpe.write_to(out);
                push_str(out, comment.as_str());
            },
            CstKind::TrailingWhitespace { child, whitespace } => {
                child.write_to(out);
                write_all_to(whitespace, out);
            },
            CstKind::Identifier(identifier) => push_str(out, identifier.as_str()),
            CstKind::Symbol(symbol) => push_str(out, symbol.as_str()),
            CstKind::Int { radix_prefix, value: _, string } => {
                if let Some(prefix) = radix_prefix {
                    push_str(out, prefix.1.as_str());
                }
                push_str(out, string.as_str());
            },
            CstKind::OpeningText { opening_single_quotes, opening_double_quote } => {
                write_all_to(opening_single_quotes, out);
                opening_double_quote.write_to(out);
            },
            CstKind::ClosingText { closing_double_quote, closing_single_quotes } => {
                closing_double_quote.write_to(out);
                write_all_to(closing_single_quotes, out);
            },
            CstKind::Text { opening, parts, closing } => {
                opening.write_to(out);
                write_all_to(parts, out);
                closing.write_to(out);
            },
            CstKind::TextNewline(newline) => push_str(out, newline.as_str()),
            CstKind::TextPart(literal) => push_str(out, literal.as_str()),
            CstKind::TextInterpolation {
                opening_curly_braces,
                expression,
                closing_curly_braces,
            } => {
                write_all_to(opening_curly_braces, out);
                expression.write_to(out);
                write_all_to(closing_curly_braces, out);
            },
            CstKind::BinaryBar { left, bar, right } => {
                left.write_to(out);
                bar.write_to(out);
                right.write_to(out);
            },
            CstKind::Parenthesized { opening_parenthesis, inner, closing_parenthesis } => {
                opening_parenthesis.write_to(out);
                inner.write_to(out);
                closing_parenthesis.write_to(out);
            },
            CstKind::Call { receiver, arguments } => {
                receiver.write_to(out);
                write_all_to(arguments, out);
            },
            CstKind::List { opening_parenthesis, items, closing_parenthesis } => {
                opening_parenthesis.write_to(out);
                write_all_to(items, out);
                closing_parenthesis.write_to(out);
            },
            CstKind::ListItem { value, comma } => {
                value.write_to(out);
                if let Some(comma) = comma {
                    comma.write_to(out);
                }
            },
            CstKind::Struct { opening_bracket, fields, closing_bracket } => {
                opening_bracket.write_to(out);
                write_all_to(fields, out);
                closing_bracket.write_to(out);
            },
            CstKind::StructField { key_and_colon, value, comma } => {
                if let Some(key_and_colon) = key_and_colon {
                    key_and_colon.0.write_to(out);
                    key_and_colon.1.write_to(out);
                }
                value.write_to(out);
                if let Some(comma) = comma {
                    comma.write_to(out);
                }
            },
            CstKind::StructAccess { struct_, dot, key } => {
                struct_.write_to(out);
                dot.write_to(out);
                key.write_to(out);
            },
            CstKind::Match { expression, percent, cases } => {
                expression.write_to(out);
                percent.write_to(out);
                write_all_to(cases, out);
            },
            CstKind::MatchCase { pattern, arrow, body } => {
                pattern.write_to(out);
                arrow.write_to(out);
                write_all_to(body, out);
            },
            CstKind::Function {
                opening_curly_brace,
                parameters_and_arrow,
                body,
                closing_curly_brace,
            } => {
                opening_curly_brace.write_to(out);
                if let Some(parameters_and_arrow) = parameters_and_arrow {
                    write_all_to(&parameters_and_arrow.0, out);
                    parameters_and_arrow.1.write_to(out);
                }
                write_all_to(body, out);
                closing_curly_brace.write_to(out);
            },
            CstKind::Assignment { left, assignment_sign, body } => {
                left.write_to(out);
                assignment_sign.write_to(out);
                write_all_to(body, out);
            },
            CstKind::Error { unparsable_input, error: _ } => push_str(
                out,
                unparsable_input.as_str(),
            ),
        }
    }

    /// The source code of a node of this kind.
    pub fn to_string(&self) -> (result: String)
        ensures
            result@ == self.text(),
    {
        let mut result = String::new();
        self.write_to(&mut result);
        result
    }
}

} // verus!

verus! {

/// The nodes of a sequence, each taken by reference.
pub open spec fn refs_view<'a>(refs: Seq<&'a Cst>) -> Seq<Cst> {
    refs.map_values(|r: &'a Cst| *r)
}

fn push_all<'a>(out: &mut Vec<&'a Cst>, csts: &'a Vec<Cst>)
    ensures
        refs_view(final(out)@) == refs_view(old(out)@) + csts@,
{
    let ghost start = refs_view(out@);
    let mut i: usize = 0;
    while i < csts.len()
        invariant
            i <= csts.len(),
            refs_view(out@) == start + csts@.take(i as int),
        decreases csts.len() - i,
    {
        push_one(out, &csts[i]);
        i = i + 1;
        assert(csts@.take(i as int) == csts@.take(i - 1).push(csts@[i - 1]));
    }
    assert(csts@.take(csts.len() as int) == csts@);
}

fn push_one<'a>(out: &mut Vec<&'a Cst>, cst: &'a Cst)
    ensures
        refs_view(final(out)@) == refs_view(old(out)@).push(*cst),
{
    out.push(cst);
    assert(refs_view(out@) =~= refs_view(old(out)@).push(*cst));
}

/// The optional node as a sequence of zero or one nodes.
pub open spec fn optional_seq(cst: Option<Box<Cst>>) -> Seq<Cst> {
    match cst {
        Some(cst) => seq![*cst],
        None => Seq::empty(),
    }
}

impl CstKind {
    /// Whether this is a text interpolation.
    pub fn is_text_interpolation(&self) -> (result: bool)
        ensures
            result == (self@ is TextInterpolation),
    {
        match self {
            CstKind::TextInterpolation { .. } => true,
            _ => false,
        }
    }

    /// Whether this node consists only of whitespace or a comment.
    pub fn is_whitespace_or_comment(&self) -> (result: bool)
        ensures
            result == self@.is_whitespace_or_comment(),
        decreases self,
    {
        match self {
            CstKind::Whitespace(_) | CstKind::Newline(_) | CstKind::Comment { .. } => true,
            CstKind::TrailingWhitespace { child, .. } => child.kind.is_whitespace_or_comment(),
            _ => false,
        }
    }

    /// The direct children of a node of this kind, in source order.
    pub open spec fn spec_children(self) -> Seq<Cst> {
        match self {
            CstKind::Comment { octothorpe, .. } => seq![*octothorpe],
            CstKind::TrailingWhitespace { child, whitespace } => seq![*child] + whitespace@,
            CstKind::OpeningText { opening_single_quotes, opening_double_quote } =>
                opening_single_quotes@.push(*opening_double_quote),
            CstKind::ClosingText { closing_double_quote, closing_single_quotes } => seq![
                *closing_double_quote,
            ] + closing_single_quotes@,
            CstKind::Text { opening, parts, closing } => (seq![*opening] + parts@).push(*closing),
            CstKind::TextInterpolation {
                opening_curly_braces,
                expression,
                closing_curly_braces,
            } => opening_curly_braces@.push(*expression) + closing_curly_braces@,
            CstKind::BinaryBar { left, bar, right } => seq![*left, *bar, *right],
            CstKind::Parenthesized { opening_parenthesis, inner, closing_parenthesis } => seq![
                *opening_parenthesis,
                *inner,
                *closing_parenthesis,
            ],
            CstKind::Call { receiver, arguments } => seq![*receiver] + arguments@,
            CstKind::List { opening_parenthesis, items, closing_parenthesis } => (seq![
                *opening_parenthesis,
            ] + items@).push(*closing_parenthesis),
            CstKind::ListItem { value, comma } => seq![*value] + optional_seq(comma),
            CstKind::Struct { opening_bracket, fields, closing_bracket } => (seq![
                *opening_bracket,
            ] + fields@).push(*closing_bracket),
            CstKind::StructField { key_and_colon, value, comma } => (match key_and_colon {
                Some(key_and_colon) => seq![key_and_colon.0, key_and_colon.1],
                None => Seq::empty(),
            }).push(*value) + optional_seq(comma),
            CstKind::StructAccess { struct_, dot, key } => seq![*struct_, *dot, *key],
            CstKind::Match { expression, percent, cases } => seq![*expression, *percent]
                + cases@,
            CstKind::MatchCase { pattern, arrow, body } => seq![*pattern, *arrow] + body@,
            CstKind::Function {
                opening_curly_brace,
                parameters_and_arrow,
                body,
                closing_curly_brace,
            } => (seq![*opening_curly_brace] + (match parameters_and_arrow {
                Some(parameters_and_arrow) => parameters_and_arrow.0@.push(
                    *parameters_and_arrow.1,
                ),
                None => Seq::empty(),
            }) + body@).push(*closing_curly_brace),
            CstKind::Assignment { left, assignment_sign, body } => seq![*left, *assignment_sign]
                + body@,
            _ => Seq::empty(),
        }
    }

    /// The direct children of this node, in source order.
    pub fn children<'a>(&'a self) -> (result: Vec<&'a Cst>)
        ensures
            refs_view(result@) == self.spec_children(),
    {
        let mut children: Vec<&'a Cst> = Vec::new();
        assert(refs_view(children@) =~= Seq::empty());
        match self {
            CstKind::Comment { octothorpe, .. } => {
                push_one(&mut children, octothorpe);
            },
            CstKind::TrailingWhitespace { child, whitespace } => {
                push_one(&mut children, child);
                push_all(&mut children, whitespace);
            },
            CstKind::OpeningText { opening_single_quotes, opening_double_quote } => {
                push_all(&mut children, opening_single_quotes);
                push_one(&mut children, opening_double_quote);
            },
            CstKind::ClosingText { closing_double_quote, closing_single_quotes } => {
                push_one(&mut children, closing_double_quote);
                push_all(&mut children, closing_single_quotes);
            },
            CstKind::Text { opening, parts, closing } => {
                push_one(&mut children, opening);
                push_all(&mut children, parts);
                push_one(&mut children, closing);
            },
            CstKind::TextInterpolation {
                opening_curly_braces,
                expression,
                closing_curly_braces,
            } => {
                push_all(&mut children, opening_curly_braces);
                push_one(&mut children, expression);
                push_all(&mut children, closing_curly_braces);
            },
            CstKind::BinaryBar { left, bar, right } => {
                push_one(&mut children, left);
                push_one(&mut children, bar);
                push_one(&mut children, right);
            },
            CstKind::Parenthesized { opening_parenthesis, inner, closing_parenthesis } => {
                push_one(&mut children, opening_parenthesis);
                push_one(&mut children, inner);
                push_one(&mut children, closing_parenthesis);
            },
            CstKind::Call { receiver, arguments } => {
                push_one(&mut children, receiver);
                push_all(&mut children, arguments);
            },
            CstKind::List { opening_parenthesis, items, closing_parenthesis } => {
                push_one(&mut children, opening_parenthesis);
                push_all(&mut children, items);
                push_one(&mut children, closing_parenthesis);
            },
            CstKind::ListItem { value, comma } => {
                push_one(&mut children, value);
                if let Some(comma) = comma {
                    push_one(&mut children, comma);
                }
            },
            CstKind::Struct { opening_bracket, fields, closing_bracket } => {
                push_one(&mut children, opening_bracket);
                push_all(&mut children, fields);
                push_one(&mut children, closing_bracket);
            },
            CstKind::StructField { key_and_colon, value, comma } => {
                if let Some(key_and_colon) = key_and_colon {
                    push_one(&mut children, &key_and_colon.0);
                    push_one(&mut children, &key_and_colon.1);
                }
                push_one(&mut children, value);
                if let Some(comma) = comma {
                    push_one(&mut children, comma);
                }
            },
            CstKind::StructAccess { struct_, dot, key } => {
                push_one(&mut children, struct_);
                push_one(&mut children, dot);
                push_one(&mut children, key);
            },
            CstKind::Match { expression, percent, cases } => {
                push_one(&mut children, expression);
                push_one(&mut children, percent);
                push_all(&mut children, cases);
            },
            CstKind::MatchCase { pattern, arrow, body } => {
                push_one(&mut children, pattern);
                push_one(&mut children, arrow);
                push_all(&mut children, body);
            },
            CstKind::Function {
                opening_curly_brace,
                parameters_and_arrow,
                body,
                closing_curly_brace,
            } => {
                push_one(&mut children, opening_curly_brace);
                if let Some(parameters_and_arrow) = parameters_and_arrow {
                    push_all(&mut children, &parameters_and_arrow.0);
                    push_one(&mut children, &parameters_and_arrow.1);
                }
                push_all(&mut children, body);
                push_one(&mut children, closing_curly_brace);
            },
            CstKind::Assignment { left, assignment_sign, body } => {
                push_one(&mut children, left);
                push_one(&mut children, assignment_sign);
                push_all(&mut children, body);
            },
            _ => {},
        }
        children
    }
}

/// The text of nodes one after the other is the text of the first ones
/// followed by the text of the others.
pub proof fn lemma_texts_concat(first: Seq<Cst>, second: Seq<Cst>)
    ensures
        texts(first + second) == texts(first) + texts(second),
    decreases second.len(),
{
    if second.len() == 0 {
        assert(first + second =~= first);
        assert(texts(first) + texts(second) =~= texts(first));
    } else {
        lemma_texts_concat(first, second.drop_last());
        assert((first + second).drop_last() =~= first + second.drop_last());
        assert((first + second).last() == second.last());
        assert(texts(first) + texts(second.drop_last()) + second.last().text() =~= texts(first)
            + (texts(second.drop_last()) + second.last().text()));
    }
}

/// The text of one node as a sequence is its own text.
pub proof fn lemma_texts_single(cst: Cst)
    ensures
        texts(seq![cst]) == cst.text(),
{
    assert(seq![cst].drop_last() =~= Seq::<Cst>::empty());
    assert(texts(Seq::<Cst>::empty()) + cst.text() =~= cst.text());
}

/// The text of a node whose kind has children, other than a comment, is the
/// texts of its children, one after the other in the order in which
/// `children` gives them.
pub proof fn lemma_text_is_children_text(kind: CstKind)
    requires
        kind.spec_children().len() > 0,
        !(kind is Comment),
    ensures
        kind.text() == texts(kind.spec_children()),
{
    match kind {
        CstKind::TrailingWhitespace { child, whitespace } => {
            lemma_texts_concat(seq![*child], whitespace@);
            lemma_texts_single(*child);
        },
        CstKind::OpeningText { opening_single_quotes, opening_double_quote } => {
            lemma_texts_concat(opening_single_quotes@, seq![*opening_double_quote]);
            lemma_texts_single(*opening_double_quote);
            assert(opening_single_quotes@.push(*opening_double_quote) =~= opening_single_quotes@
                + seq![*opening_double_quote]);
        },
        CstKind::ClosingText { closing_double_quote, closing_single_quotes } => {
            lemma_texts_concat(seq![*closing_double_quote], closing_single_quotes@);
            lemma_texts_single(*closing_double_quote);
        },
        CstKind::Text { opening, parts, closing } => {
            lemma_texts_concat(seq![*opening], parts@);
            lemma_texts_concat(seq![*opening] + parts@, seq![*closing]);
            lemma_texts_single(*opening);
            lemma_texts_single(*closing);
            assert((seq![*opening] + parts@).push(*closing) =~= seq![*opening] + parts@ + seq![
                *closing,
            ]);
        },
        CstKind::TextInterpolation { opening_curly_braces, expression, closing_curly_braces } => {
            lemma_texts_concat(opening_curly_braces@, seq![*expression]);
            lemma_texts_concat(opening_curly_braces@.push(*expression), closing_curly_braces@);
            lemma_texts_single(*expression);
            assert(opening_curly_braces@.push(*expression) =~= opening_curly_braces@ + seq![
                *expression,
            ]);
        },
        CstKind::BinaryBar { left, bar, right } => {
            lemma_texts_three(*left, *bar, *right);
        },
        CstKind::Parenthesized { opening_parenthesis, inner, closing_parenthesis } => {
            lemma_texts_three(*opening_parenthesis, *inner, *closing_parenthesis);
        },
        CstKind::Call { receiver, arguments } => {
            lemma_texts_concat(seq![*receiver], arguments@);
            lemma_texts_single(*receiver);
        },
        CstKind::List { opening_parenthesis, items, closing_parenthesis } => {
            lemma_texts_concat(seq![*opening_parenthesis], items@);
            lemma_texts_concat(seq![*opening_parenthesis] + items@, seq![*closing_parenthesis]);
            lemma_texts_single(*opening_parenthesis);
            lemma_texts_single(*closing_parenthesis);
            assert((seq![*opening_parenthesis] + items@).push(*closing_parenthesis) =~= seq![
                *opening_parenthesis,
            ] + items@ + seq![*closing_parenthesis]);
        },
        CstKind::ListItem { value, comma } => {
            lemma_texts_concat(seq![*value], optional_seq(comma));
            lemma_texts_single(*value);
            if let Some(comma) = comma {
                lemma_texts_single(*comma);
            } else {
                assert(texts(optional_seq(comma)) =~= Seq::<char>::empty());
            }
        },
        CstKind::Struct { opening_bracket, fields, closing_bracket } => {
            lemma_texts_concat(seq![*opening_bracket], fields@);
            lemma_texts_concat(seq![*opening_bracket] + fields@, seq![*closing_bracket]);
            lemma_texts_single(*opening_bracket);
            lemma_texts_single(*closing_bracket);
            assert((seq![*opening_bracket] + fields@).push(*closing_bracket) =~= seq![
                *opening_bracket,
            ] + fields@ + seq![*closing_bracket]);
        },
        CstKind::StructField { key_and_colon, value, comma } => {
            let keys: Seq<Cst> = match key_and_colon {
                Some(key_and_colon) => seq![key_and_colon.0, key_and_colon.1],
                None => Seq::empty(),
            };
            lemma_texts_concat(keys, seq![*value]);
            lemma_texts_concat(keys.push(*value), optional_seq(comma));
            lemma_texts_single(*value);
            assert(keys.push(*value) =~= keys + seq![*value]);
            if let Some(key_and_colon) = key_and_colon {
                lemma_texts_concat(seq![key_and_colon.0], seq![key_and_colon.1]);
                lemma_texts_single(key_and_colon.0);
                lemma_texts_single(key_and_colon.1);
                assert(keys =~= seq![key_and_colon.0] + seq![key_and_colon.1]);
            } else {
                assert(texts(keys) =~= Seq::<char>::empty());
            }
            if let Some(comma) = comma {
                lemma_texts_single(*comma);
            } else {
                assert(texts(optional_seq(comma)) =~= Seq::<char>::empty());
            }
        },
        CstKind::StructAccess { struct_, dot, key } => {
            lemma_texts_three(*struct_, *dot, *key);
        },
        CstKind::Match { expression, percent, cases } => {
            lemma_texts_two(*expression, *percent);
            lemma_texts_concat(seq![*expression, *percent], cases@);
        },
        CstKind::MatchCase { pattern, arrow, body } => {
            lemma_texts_two(*pattern, *arrow);
            lemma_texts_concat(seq![*pattern, *arrow], body@);
        },
        CstKind::Function { opening_curly_brace, parameters_and_arrow, body, closing_curly_brace } => {
            let parameters: Seq<Cst> = match parameters_and_arrow {
                Some(parameters_and_arrow) => parameters_and_arrow.0@.push(
                    *parameters_and_arrow.1,
                ),
                None => Seq::empty(),
            };
            lemma_texts_concat(seq![*opening_curly_brace], parameters);
            lemma_texts_concat(seq![*opening_curly_brace] + parameters, body@);
            lemma_texts_concat(seq![*opening_curly_brace] + parameters + body@, seq![
                *closing_curly_brace,
            ]);
            lemma_texts_single(*opening_curly_brace);
            lemma_texts_single(*closing_curly_brace);
            assert((seq![*opening_curly_brace] + parameters + body@).push(*closing_curly_brace)
                =~= seq![*opening_curly_brace] + parameters + body@ + seq![*closing_curly_brace]);
            if let Some(parameters_and_arrow) = parameters_and_arrow {
                lemma_texts_concat(parameters_and_arrow.0@, seq![*parameters_and_arrow.1]);
                lemma_texts_single(*parameters_and_arrow.1);
                assert(parameters =~= parameters_and_arrow.0@ + seq![*parameters_and_arrow.1]);
            } else {
                assert(texts(parameters) =~= Seq::<char>::empty());
            }
        },
        CstKind::Assignment { left, assignment_sign, body } => {
            lemma_texts_two(*left, *assignment_sign);
            lemma_texts_concat(seq![*left, *assignment_sign], body@);
        },
        _ => {},
    }
}

proof fn lemma_texts_two(a: Cst, b: Cst)
    ensures
        texts(seq![a, b]) == a.text() + b.text(),
{
    lemma_texts_concat(seq![a], seq![b]);
    lemma_texts_single(a);
    lemma_texts_single(b);
    assert(seq![a, b] =~= seq![a] + seq![b]);
}

proof fn lemma_texts_three(a: Cst, b: Cst, c: Cst)
    ensures
        texts(seq![a, b, c]) == a.text() + b.text() + c.text(),
{
    lemma_texts_two(a, b);
    lemma_texts_concat(seq![a, b], seq![c]);
    lemma_texts_single(c);
    assert(seq![a, b, c] =~= seq![a, b] + seq![c]);
}

} // verus!
