use crate::text::{push_char, push_str};
use vstd::prelude::*;

verus! {

/// A node of the concrete syntax tree of a doc comment. Like the syntax tree
/// of code, it keeps every character of the source.
#[derive(Debug, PartialEq, Eq, Hash)]
pub enum Rcst {
    Whitespace(String),
    Newline,
    TrailingWhitespace { child: Box<Rcst>, whitespace: Vec<Rcst> },
    // Inline elements
    TextPart(String),
    EscapedChar(Option<char>),
    Emphasized { has_opening_underscore: bool, text: Vec<Rcst>, has_closing_underscore: bool },
    Link { has_opening_bracket: bool, text: Vec<Rcst>, has_closing_bracket: bool },
    InlineCode { has_opening_backtick: bool, code: Vec<Rcst>, has_closing_backtick: bool },
    // Block elements
    Title(Vec<Rcst>),
    TitleLine { octothorpe_count: usize, text: Vec<Rcst> },
    Paragraph(Vec<Rcst>),
    Urls(Vec<Rcst>),
    /// A line with a URL, given by the text that the URL is written as.
    UrlLine(String),
    CodeBlock { code: Vec<Rcst>, has_closing_backticks: bool },
    List(Vec<Rcst>),
    ListItem { marker: RcstListItemMarker, content: Vec<Rcst> },
    Error { child: Option<Box<Rcst>>, error: RcstError },
}

/// How an item of a list is marked: with a dash, or with a number and a dot.
#[derive(Debug, PartialEq, Eq, Hash)]
pub enum RcstListItemMarker {
    Unordered { has_trailing_space: bool },
    Ordered { number: Box<Rcst>, has_trailing_space: bool },
}

/// What is wrong with a part of a doc comment.
#[derive(Debug, PartialEq, Eq, Clone, Copy, Structural, Hash)]
pub enum RcstError {
    EscapeMissesChar,
    EscapeWithInvalidChar,
    UrlInvalid,
    WeirdWhitespace,
    WeirdWhitespaceInIndentation,
}

/// The texts of a sequence of nodes, one after the other.
pub open spec fn rcst_texts(rcsts: Seq<Rcst>) -> Seq<char>
    decreases rcsts,
{
    if rcsts.len() == 0 {
        Seq::empty()
    } else {
        rcst_texts(rcsts.drop_last()) + rcsts.last().text()
    }
}

/// A character if the flag is set, and nothing otherwise.
pub open spec fn optional_char(flag: bool, c: char) -> Seq<char> {
    if flag {
        seq![c]
    } else {
        Seq::empty()
    }
}

/// The text of a list item's marker.
pub open spec fn marker_text(marker: RcstListItemMarker) -> Seq<char>
    decreases marker,
{
    match marker {
        RcstListItemMarker::Unordered { has_trailing_space } => seq!['-'] + optional_char(
            has_trailing_space,
            ' ',
        ),
        RcstListItemMarker::Ordered { number, has_trailing_space } => number.text() + seq!['.']
            + optional_char(has_trailing_space, ' '),
    }
}

impl Rcst {
    /// The source text of this node, as its `Display` implementation writes it.
    pub open spec fn text(self) -> Seq<char>
        decreases self,
    {
        match self {
            Rcst::Whitespace(whitespace) => whitespace@,
            Rcst::Newline => seq!['\n'],
            Rcst::TrailingWhitespace { child, whitespace } => child.text() + rcst_texts(whitespace@),
            Rcst::TextPart(text) => text@,
            Rcst::EscapedChar(character) => seq!['\\'] + match character {
                Some(character) => seq![character],
                None => Seq::empty(),
            },
            Rcst::Emphasized { has_opening_underscore, text, has_closing_underscore } =>
                optional_char(has_opening_underscore, '_') + rcst_texts(text@) + optional_char(
                has_closing_underscore,
                '_',
            ),
            Rcst::Link { has_opening_bracket, text, has_closing_bracket } => optional_char(
                has_opening_bracket,
                '[',
            ) + rcst_texts(text@) + optional_char(has_closing_bracket, ']'),
            Rcst::InlineCode { has_opening_backtick, code, has_closing_backtick } => optional_char(
                has_opening_backtick,
                '`',
            ) + rcst_texts(code@) + optional_char(has_closing_backtick, '`'),
            Rcst::Title(lines) => rcst_texts(lines@),
            Rcst::TitleLine { octothorpe_count, text } => Seq::new(
                octothorpe_count as nat,
                |i: int| '#',
            ) + rcst_texts(text@),
            Rcst::Paragraph(text) => rcst_texts(text@),
            Rcst::Urls(urls) => rcst_texts(urls@),
            Rcst::UrlLine(url) => url@,
            Rcst::CodeBlock { code, has_closing_backticks } => seq!['`', '`', '`'] + rcst_texts(
                code@,
            ) + if has_closing_backticks {
                seq!['`', '`', '`']
            } else {
                Seq::empty()
            },
            Rcst::List(items) => rcst_texts(items@),
            Rcst::ListItem { marker, content } => marker_text(marker) + rcst_texts(content@),
            Rcst::Error { child, .. } => match child {
                Some(child) => child.text(),
                None => Seq::empty(),
            },
        }
    }

    /// Appends the source text of this node.
    pub fn write_to(&self, out: &mut String)
        ensures
            final(out)@ == old(out)@ + self.text(),
        decreases self,
    {
        let ghost start = out@;
        match self {
            Rcst::Whitespace(whitespace) => push_str(out, whitespace.as_str()),
            Rcst::Newline => push_char(out, '\n'),
            Rcst::TrailingWhitespace { child, whitespace } => {
                child.write_to(out);
                write_all_to(whitespace, out);
                assert(out@ =~= start + self.text());
            },
            Rcst::TextPart(text) => push_str(out, text.as_str()),
            Rcst::EscapedChar(character) => {
                push_char(out, '\\');
                if let Some(character) = character {
                    push_char(out, *character);
                }
                assert(out@ =~= start + self.text());
            },
            Rcst::Emphasized { has_opening_underscore, text, has_closing_underscore } => {
                if *has_opening_underscore {
                    push_char(out, '_');
                }
                write_all_to(text, out);
                if *has_closing_underscore {
                    push_char(out, '_');
                }
                assert(out@ =~= start + self.text());
            },
            Rcst::Link { has_opening_bracket, text, has_closing_bracket } => {
                if *has_opening_bracket {
                    push_char(out, '[');
                }
                write_all_to(text, out);
                if *has_closing_bracket {
                    push_char(out, ']');
                }
                assert(out@ =~= start + self.text());
            },
            Rcst::InlineCode { has_opening_backtick, code, has_closing_backtick } => {
                if *has_opening_backtick {
                    push_char(out, '`');
                }
                write_all_to(code, out);
                if *has_closing_backtick {
                    push_char(out, '`');
                }
                assert(out@ =~= start + self.text());
            },
            Rcst::Title(lines) => write_all_to(lines, out),
            Rcst::TitleLine { octothorpe_count, text } => {
                let ghost start = out@;
                let mut i: usize = 0;
                while i < *octothorpe_count
                    invariant
                        i <= *octothorpe_count,
                        out@ == start + Seq::new(i as nat, |k: int| '#'),
                    decreases *octothorpe_count - i,
                {
                    push_char(out, '#');
                    i = i + 1;
                    assert(out@ =~= start + Seq::new(i as nat, |k: int| '#'));
                }
                write_all_to(text, out);
                assert(out@ =~= start + self.text());
            },
            Rcst::Paragraph(text) => write_all_to(text, out),
            Rcst::Urls(urls) => write_all_to(urls, out),
            Rcst::UrlLine(url) => push_str(out, url.as_str()),
            Rcst::CodeBlock { code, has_closing_backticks } => {
                push_str(out, "```");
                proof {
                    reveal_strlit("```");
                    assert("```"@ =~= seq!['`', '`', '`']);
                }
                write_all_to(code, out);
                if *has_closing_backticks {
                    push_str(out, "```");
                }
                assert(out@ =~= start + self.text());
            },
            Rcst::List(items) => write_all_to(items, out),
            Rcst::ListItem { marker, content } => {
                match marker {
                    RcstListItemMarker::Unordered { has_trailing_space } => {
                        push_char(out, '-');
                        if *has_trailing_space {
                            push_char(out, ' ');
                        }
                        assert(out@ =~= start + marker_text(*marker));
                    },
                    RcstListItemMarker::Ordered { number, has_trailing_space } => {
                        number.write_to(out);
                        push_char(out, '.');
                        if *has_trailing_space {
                            push_char(out, ' ');
                        }
                        assert(out@ =~= start + marker_text(*marker));
                    },
                }
                let ghost after_marker = out@;
                write_all_to(content, out);
                assert(out@ == after_marker + rcst_texts(content@));
                assert(self.text() == marker_text(*marker) + rcst_texts(content@));
                assert(out@ =~= start + self.text());
            },
            Rcst::Error { child, .. } => {
                if let Some(child) = child {
                    child.write_to(out);
                }
                assert(out@ =~= start + self.text());
            },
        }
    }

    /// The source text of this node, as it is displayed.
    pub fn to_string(&self) -> (result: String)
        ensures
            result@ == self.text(),
    {
        let mut result = String::new();
        self.write_to(&mut result);
        result
    }
}

/// Appends the source texts of nodes, one after the other.
pub fn write_all_to(rcsts: &Vec<Rcst>, out: &mut String)
    ensures
        final(out)@ == old(out)@ + rcst_texts(rcsts@),
    decreases rcsts,
{
    let ghost start = out@;
    let mut i: usize = 0;
    while i < rcsts.len()
        invariant
            i <= rcsts.len(),
            out@ == start + rcst_texts(rcsts@.take(i as int)),
        decreases rcsts.len() - i,
    {
        assert(decreases_to!(rcsts => rcsts@[i as int]));
        assert(rcsts@.take(i + 1).drop_last() == rcsts@.take(i as int));
        rcsts[i].write_to(out);
        i = i + 1;
    }
    assert(rcsts@.take(rcsts.len() as int) == rcsts@);
}

} // verus!
