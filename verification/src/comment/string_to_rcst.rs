use super::rcst::{rcst_texts, Rcst, RcstError};
use super::blocks::lemma_rcst_texts_concat;
use super::rcst_view::{lemma_rcst_views, rcst_view, rcst_views, RcstView};
use crate::text::{chars_of, joined, string_from_chars, string_views};
use vstd::prelude::*;

verus! {

/// The text of the lines of a comment, with a line feed between each two.
pub open spec fn lines_text(lines: Seq<Seq<char>>) -> Seq<char> {
    joined(lines, "\n"@)
}

/// The number of characters and lines left to parse, which every step of a
/// parser makes smaller.
pub open spec fn lines_measure(lines: Seq<Seq<char>>) -> nat
    decreases lines.len(),
{
    if lines.len() == 0 {
        0
    } else {
        lines_measure(lines.drop_last()) + lines.last().len() + 1
    }
}

/// Whether lines are what is left of other lines after a prefix of their
/// text was taken: the end of one of them and all that follow it, or nothing.
pub open spec fn is_tail_of(rest: Seq<Seq<char>>, lines: Seq<Seq<char>>) -> bool {
    rest.len() == 0 || exists|k: int, j: int|
        0 <= k < lines.len() && 0 <= j <= lines[k].len() && rest == seq![lines[k].skip(j)]
            + lines.skip(k + 1)
}

/// Whether no line ends in a backslash. Only where one does can a backslash
/// escape nothing.
pub open spec fn no_line_ends_in_backslash(lines: Seq<Seq<char>>) -> bool {
    forall|i: int| 0 <= i < lines.len() && lines[i].len() > 0 ==> lines[i].last() != '\\'
}

/// Lines are a tail of themselves.
pub proof fn lemma_tail_of_itself(lines: Seq<Seq<char>>)
    ensures
        is_tail_of(lines, lines),
{
    if lines.len() > 0 {
        assert(lines[0].skip(0) =~= lines[0]);
        assert(lines =~= seq![lines[0].skip(0)] + lines.skip(1));
    }
}

/// The lines after the first one are a tail.
pub(crate) proof fn lemma_tail_drop_first(lines: Seq<Seq<char>>)
    requires
        lines.len() > 0,
    ensures
        is_tail_of(lines.drop_first(), lines),
{
    if lines.len() > 1 {
        assert(lines[1].skip(0) =~= lines[1]);
        assert(lines.drop_first() =~= seq![lines[1].skip(0)] + lines.skip(2));
    }
}

/// The end of the first line and the lines after it are a tail.
pub(crate) proof fn lemma_tail_skip_first(lines: Seq<Seq<char>>, count: int)
    requires
        lines.len() > 0,
        0 <= count <= lines[0].len(),
    ensures
        is_tail_of(seq![lines[0].skip(count)] + lines.drop_first(), lines),
{
    assert(lines.drop_first() =~= lines.skip(1));
}

/// A tail of a tail is a tail.
pub proof fn lemma_tail_transitive(
    rest: Seq<Seq<char>>,
    middle: Seq<Seq<char>>,
    lines: Seq<Seq<char>>,
)
    requires
        is_tail_of(rest, middle),
        is_tail_of(middle, lines),
    ensures
        is_tail_of(rest, lines),
{
    if rest.len() > 0 {
        let (k1, j1) = choose|k: int, j: int|
            0 <= k < middle.len() && 0 <= j <= middle[k].len() && rest == seq![
                middle[k].skip(j),
            ] + middle.skip(k + 1);
        let (k2, j2) = choose|k: int, j: int|
            0 <= k < lines.len() && 0 <= j <= lines[k].len() && middle == seq![
                lines[k].skip(j),
            ] + lines.skip(k + 1);
        if k1 == 0 {
            assert(middle[0] == lines[k2].skip(j2));
            assert(middle[0].skip(j1) =~= lines[k2].skip(j2 + j1));
            assert(middle.skip(1) =~= lines.skip(k2 + 1));
            assert(rest == seq![lines[k2].skip(j2 + j1)] + lines.skip(k2 + 1));
        } else {
            assert(middle[k1] == lines[k2 + k1]);
            assert(middle.skip(k1 + 1) =~= lines.skip(k2 + k1 + 1));
            assert(rest == seq![lines[k2 + k1].skip(j1)] + lines.skip(k2 + k1 + 1));
        }
    }
}

/// What is left of lines that end in no backslash ends in none either.
pub proof fn lemma_tail_keeps_backslash_free(rest: Seq<Seq<char>>, lines: Seq<Seq<char>>)
    requires
        is_tail_of(rest, lines),
        no_line_ends_in_backslash(lines),
    ensures
        no_line_ends_in_backslash(rest),
{
    if rest.len() > 0 {
        let (k, j) = choose|k: int, j: int|
            0 <= k < lines.len() && 0 <= j <= lines[k].len() && rest == seq![lines[k].skip(j)]
                + lines.skip(k + 1);
        assert forall|i: int| 0 <= i < rest.len() && rest[i].len() > 0 implies rest[i].last()
            != '\\' by {
            if i == 0 {
                assert(rest[0].last() == lines[k].last());
            } else {
                assert(rest[i] == lines[k + i]);
            }
        }
    }
}

/// The lines from some line on have no larger measure than all of them.
pub(crate) proof fn lemma_measure_skip(lines: Seq<Seq<char>>, count: int)
    requires
        0 <= count <= lines.len(),
    ensures
        lines_measure(lines.skip(count)) <= lines_measure(lines),
    decreases count,
{
    if count > 0 {
        lemma_measure_skip(lines, count - 1);
        let from = lines.skip(count - 1);
        assert(from =~= seq![lines[count - 1]] + lines.skip(count));
        lemma_measure_first(lines[count - 1], lines.skip(count));
    } else {
        assert(lines.skip(0) =~= lines);
    }
}

/// A tail has no larger measure than the lines it is a tail of.
pub proof fn lemma_tail_measure(rest: Seq<Seq<char>>, lines: Seq<Seq<char>>)
    requires
        is_tail_of(rest, lines),
    ensures
        lines_measure(rest) <= lines_measure(lines),
{
    if rest.len() > 0 {
        let (k, j) = choose|k: int, j: int|
            0 <= k < lines.len() && 0 <= j <= lines[k].len() && rest == seq![lines[k].skip(j)]
                + lines.skip(k + 1);
        lemma_measure_first(lines[k].skip(j), lines.skip(k + 1));
        lemma_measure_first(lines[k], lines.skip(k + 1));
        assert(lines.skip(k) =~= seq![lines[k]] + lines.skip(k + 1));
        lemma_measure_skip(lines, k);
    }
}

/// Whether a character has Unicode's `White_Space` property, which
/// `char::is_whitespace` tests.
pub open spec fn is_unicode_whitespace(c: char) -> bool {
    let code = c as u32;
    ||| 0x9 <= code && code <= 0xd
    ||| code == 0x20
    ||| code == 0x85
    ||| code == 0xa0
    ||| code == 0x1680
    ||| 0x2000 <= code && code <= 0x200a
    ||| code == 0x2028
    ||| code == 0x2029
    ||| code == 0x202f
    ||| code == 0x205f
    ||| code == 0x3000
}

fn is_whitespace_char(c: char) -> (result: bool)
    ensures
        result == is_unicode_whitespace(c),
{
    let code = c as u32;
    (0x9 <= code && code <= 0xd) || code == 0x20 || code == 0x85 || code == 0xa0 || code == 0x1680
        || (0x2000 <= code && code <= 0x200a) || code == 0x2028 || code == 0x2029 || code
        == 0x202f || code == 0x205f || code == 0x3000
}

/// How much a whitespace character indents: a tab counts twice.
pub open spec fn whitespace_score(c: char) -> nat {
    if c == '\t' {
        2
    } else {
        1
    }
}

/// How much a run of whitespace indents.
pub open spec fn total_whitespace_score(whitespace: Seq<char>) -> nat
    decreases whitespace.len(),
{
    if whitespace.len() == 0 {
        0
    } else {
        total_whitespace_score(whitespace.drop_last()) + whitespace_score(whitespace.last())
    }
}

/// How much a run of whitespace indents: a tab counts twice, other
/// whitespace once.
pub fn whitespace_indentation_score(whitespace: &str) -> (result: usize)
    requires
        forall|i: int| 0 <= i < whitespace@.len() ==> is_unicode_whitespace(#[trigger] whitespace@[i]),
        2 * whitespace@.len() <= usize::MAX,
    ensures
        result == total_whitespace_score(whitespace@),
{
    let chars = chars_of(whitespace);
    let mut score: usize = 0;
    let mut i: usize = 0;
    while i < chars.len()
        invariant
            i <= chars.len(),
            chars@ == whitespace@,
            2 * chars.len() <= usize::MAX,
            score == total_whitespace_score(whitespace@.take(i as int)),
            score <= 2 * i,
        decreases chars.len() - i,
    {
        assert(whitespace@.take(i + 1).drop_last() == whitespace@.take(i as int));
        if chars[i] == '\t' {
            score = score + 2;
        } else {
            score = score + 1;
        }
        i = i + 1;
    }
    assert(whitespace@.take(chars.len() as int) == whitespace@);
    score
}

/// The lines with a new first line put before the remaining ones.
pub fn recombine(first_line: String, remaining_lines: Vec<String>) -> (result: Vec<String>)
    ensures
        string_views(result@) == seq![first_line@] + string_views(remaining_lines@),
{
    let mut lines = remaining_lines;
    let ghost rest = lines@;
    lines.insert(0, first_line);
    assert(string_views(lines@) =~= seq![first_line@] + string_views(rest));
    lines
}

/// Splits the first line off the lines.
pub(crate) fn split_first(lines: Vec<String>) -> (result: (String, Vec<String>))
    requires
        lines.len() > 0,
    ensures
        result.0@ == string_views(lines@)[0],
        string_views(result.1@) == string_views(lines@).drop_first(),
{
    let mut rest = lines;
    let ghost all = rest@;
    let first = rest.remove(0);
    assert(string_views(rest@) =~= string_views(all).drop_first());
    (first, rest)
}

/// A line break: an empty line that is followed by another line.
pub fn newline(input: Vec<String>) -> (result: Option<(Vec<String>, Rcst)>)
    ensures
        match result {
            Some((rest, rcst)) => input.len() >= 2 && input@[0]@.len() == 0 && rcst == Rcst::Newline
                && string_views(rest@) == string_views(input@).drop_first(),
            None => !(input.len() >= 2 && input@[0]@.len() == 0),
        },
{
    if input.len() >= 2 && input[0].as_str().is_empty() {
        let ghost all = string_views(input@);
        let (_, rest) = split_first(input);
        Some((rest, Rcst::Newline))
    } else {
        None
    }
}

/// The number of spaces and tabs that a line starts with.
pub open spec fn leading_whitespace_length(line: Seq<char>) -> nat
    decreases line.len(),
{
    if line.len() > 0 && (line[0] == ' ' || line[0] == '\t') {
        1 + leading_whitespace_length(line.drop_first())
    } else {
        0
    }
}

/// What single-line whitespace at the start of the first line gives: the
/// spaces and tabs it starts with (none means no whitespace), whether there is
/// a tab among them (which is weird), and the lines that follow it.
pub open spec fn spec_single_line_whitespace(lines: Seq<Seq<char>>) -> Option<
    (Seq<Seq<char>>, Seq<char>, bool),
> {
    if lines.len() == 0 {
        None
    } else {
        let line = lines[0];
        let length = leading_whitespace_length(line);
        if length == 0 {
            None
        } else {
            let whitespace = line.take(length as int);
            Some(
                (
                    seq![line.skip(length as int)] + lines.drop_first(),
                    whitespace,
                    whitespace.contains('\t'),
                ),
            )
        }
    }
}

/// Whether a node is whitespace with the given text, marked as an error of
/// the given kind where it is weird.
pub open spec fn is_whitespace_node(
    rcst: Rcst,
    whitespace: Seq<char>,
    is_weird: bool,
    error: RcstError,
) -> bool {
    if is_weird {
        rcst matches Rcst::Error { child: Some(child), error: found } && found == error && (
        *child matches Rcst::Whitespace(text) && text@ == whitespace)
    } else {
        rcst matches Rcst::Whitespace(text) && text@ == whitespace
    }
}

proof fn lemma_leading_whitespace(line: Seq<char>, i: int)
    requires
        0 <= i <= line.len(),
        forall|j: int| 0 <= j < i ==> line[j] == ' ' || line[j] == '\t',
        i == line.len() || !(line[i] == ' ' || line[i] == '\t'),
    ensures
        leading_whitespace_length(line) == i,
    decreases i,
{
    if i > 0 {
        lemma_leading_whitespace(line.drop_first(), i - 1);
    }
}

/// The characters of a line from an index on, as a string.
pub(crate) fn rest_of_line(chars: &Vec<char>, start: usize) -> (result: String)
    requires
        start <= chars.len(),
    ensures
        result@ == chars@.skip(start as int),
{
    let mut rest: Vec<char> = Vec::new();
    let mut k: usize = start;
    while k < chars.len()
        invariant
            start <= k <= chars.len(),
            rest@ == chars@.subrange(start as int, k as int),
        decreases chars.len() - k,
    {
        rest.push(chars[k]);
        k = k + 1;
        assert(chars@.subrange(start as int, k as int) == chars@.subrange(start as int, k - 1).push(
            chars@[k - 1],
        ));
    }
    string_from_chars(&rest)
}

/// The characters of a line before an index, as a string.
pub(crate) fn start_of_line(chars: &Vec<char>, end: usize) -> (result: String)
    requires
        end <= chars.len(),
    ensures
        result@ == chars@.take(end as int),
{
    let mut start: Vec<char> = Vec::new();
    let mut k: usize = 0;
    while k < end
        invariant
            k <= end <= chars.len(),
            start@ == chars@.take(k as int),
        decreases end - k,
    {
        start.push(chars[k]);
        k = k + 1;
        assert(chars@.take(k as int) == chars@.take(k - 1).push(chars@[k - 1]));
    }
    string_from_chars(&start)
}

/// Spaces and tabs at the start of the first line; tabs are weird.
pub fn single_line_whitespace(input: Vec<String>) -> (result: Option<(Vec<String>, Rcst)>)
    ensures
        match (result, spec_single_line_whitespace(string_views(input@))) {
            (Some((rest, rcst)), Some((expected_rest, whitespace, is_weird))) => string_views(
                rest@,
            ) == expected_rest && is_whitespace_node(
                rcst,
                whitespace,
                is_weird,
                RcstError::WeirdWhitespace,
            ),
            (None, None) => true,
            _ => false,
        },
{
    if input.len() == 0 {
        return None;
    }
    let ghost lines = string_views(input@);
    let (line, remaining) = split_first(input);
    let chars = chars_of(line.as_str());
    let mut length: usize = 0;
    let mut has_tab = false;
    while length < chars.len() && (chars[length] == ' ' || chars[length] == '\t')
        invariant
            length <= chars.len(),
            chars@ == line@,
            forall|j: int| 0 <= j < length ==> chars@[j] == ' ' || chars@[j] == '\t',
            has_tab == chars@.take(length as int).contains('\t'),
        decreases chars.len() - length,
    {
        let ghost before = chars@.take(length as int);
        assert(chars@.take(length + 1) == before.push(chars@[length as int]));
        if chars[length] == '\t' {
            has_tab = true;
            assert(chars@.take(length + 1)[length as int] == '\t');
        } else {
            assert forall|j: int| 0 <= j < length + 1 && #[trigger] chars@.take(length + 1)[j] == '\t' implies before.contains('\t') by {
                assert(before[j] == '\t');
            }
        }
        length = length + 1;
    }
    proof {
        lemma_leading_whitespace(line@, length as int);
    }
    if length == 0 {
        return None;
    }
    let whitespace = start_of_line(&chars, length);
    let rest = rest_of_line(&chars, length);
    let lines_after = recombine(rest, remaining);
    let node = if has_tab {
        Rcst::Error { child: Some(Box::new(Rcst::Whitespace(whitespace))), error: RcstError::WeirdWhitespace }
    } else {
        Rcst::Whitespace(whitespace)
    };
    Some((lines_after, node))
}

/// How many characters at the start of a line indent it by the given amount:
/// whitespace characters are taken until their score reaches it. There is no
/// such count where the line ends before or a character that is not whitespace
/// comes first.
pub open spec fn indentation_length(line: Seq<char>, needed: int) -> Option<nat>
    decreases line.len(),
{
    if needed <= 0 {
        Some(0)
    } else if line.len() == 0 || !is_unicode_whitespace(line[0]) {
        None
    } else {
        match indentation_length(line.drop_first(), needed - whitespace_score(line[0])) {
            Some(length) => Some(length + 1),
            None => None,
        }
    }
}

/// What leading indentation of the first line gives: the whitespace that
/// makes up the indentation, whether it holds anything but spaces (which is
/// weird), and the lines that follow it.
pub open spec fn spec_leading_indentation(lines: Seq<Seq<char>>, indentation: nat) -> Option<
    (Seq<Seq<char>>, Seq<char>, bool),
> {
    if lines.len() == 0 {
        None
    } else {
        let line = lines[0];
        match indentation_length(line, indentation as int) {
            None => None,
            Some(length) => {
                let whitespace = line.take(length as int);
                Some(
                    (
                        seq![line.skip(length as int)] + lines.drop_first(),
                        whitespace,
                        exists|i: int| 0 <= i < whitespace.len() && whitespace[i] != ' ',
                    ),
                )
            },
        }
    }
}

proof fn lemma_indentation_step(line: Seq<char>, start: int, needed: int)
    requires
        0 <= start < line.len(),
        needed > 0,
        is_unicode_whitespace(line[start]),
    ensures
        indentation_length(line.skip(start), needed) == match indentation_length(
            line.skip(start + 1),
            needed - whitespace_score(line[start]),
        ) {
            Some(length) => Some(length + 1),
            None => None::<nat>,
        },
{
    assert(line.skip(start).drop_first() == line.skip(start + 1));
    assert(line.skip(start)[0] == line[start]);
}

/// Whitespace at the start of the first line that indents it by the given
/// amount; whitespace other than spaces is weird.
pub fn leading_indentation(input: Vec<String>, indentation: usize) -> (result: Option<
    (Vec<String>, Rcst),
>)
    requires
        indentation > 0,
    ensures
        match (result, spec_leading_indentation(string_views(input@), indentation as nat)) {
            (Some((rest, rcst)), Some((expected_rest, whitespace, is_weird))) => string_views(
                rest@,
            ) == expected_rest && is_whitespace_node(
                rcst,
                whitespace,
                is_weird,
                RcstError::WeirdWhitespaceInIndentation,
            ),
            (None, None) => true,
            _ => false,
        },
{
    if input.len() == 0 {
        return None;
    }
    let ghost lines = string_views(input@);
    let (line, remaining) = split_first(input);
    let chars = chars_of(line.as_str());
    let mut length: usize = 0;
    let mut score: u128 = 0;
    let mut is_weird = false;
    assert(line@.skip(0) == line@);
    while score < indentation as u128
        invariant
            length <= chars.len(),
            chars@ == line@,
            lines.len() > 0,
            lines[0] == line@,
            lines == string_views(input@),
            score < indentation + 2,
            indentation > 0,
            indentation_length(line@, indentation as int) == match indentation_length(
                line@.skip(length as int),
                indentation - score,
            ) {
                Some(rest) => Some((rest + length) as nat),
                None => None::<nat>,
            },
            is_weird == exists|i: int| 0 <= i < length && chars@[i] != ' ',
        decreases chars.len() - length,
    {
        if length >= chars.len() {
            assert(line@.skip(length as int).len() == 0);
            return None;
        }
        let c = chars[length];
        if !is_whitespace_char(c) {
            assert(line@.skip(length as int)[0] == c);
            return None;
        }
        proof {
            lemma_indentation_step(line@, length as int, indentation - score);
        }
        if c != ' ' {
            is_weird = true;
        }
        if c == '\t' {
            score = score + 2;
        } else {
            score = score + 1;
        }
        length = length + 1;
    }
    let ghost found = indentation_length(line@, indentation as int);
    assert(found == Some(length as nat));
    let whitespace = start_of_line(&chars, length);
    let rest = rest_of_line(&chars, length);
    let lines_after = recombine(rest, remaining);
    proof {
        let taken = line@.take(length as int);
        assert((exists|i: int| 0 <= i < taken.len() && taken[i] != ' ') == is_weird) by {
            if is_weird {
                let i = choose|i: int| 0 <= i < length && chars@[i] != ' ';
                assert(taken[i] != ' ');
            }
        }
    }
    let node = if is_weird {
        Rcst::Error {
            child: Some(Box::new(Rcst::Whitespace(whitespace))),
            error: RcstError::WeirdWhitespaceInIndentation,
        }
    } else {
        Rcst::Whitespace(whitespace)
    };
    Some((lines_after, node))
}

/// The characters that a backslash escapes.
pub open spec fn is_escapable(c: char) -> bool {
    c == '-' || c == '_' || c == '[' || c == ']' || c == '`' || c == '#' || c == '\\'
}

/// The node for a backslash and the character after it, if there is one: an
/// escaped character, or an error where the character cannot be escaped or is
/// missing.
pub open spec fn spec_escaped(escaped_char: Option<char>) -> Rcst {
    match escaped_char {
        Some(c) => if is_escapable(c) {
            Rcst::EscapedChar(Some(c))
        } else {
            Rcst::Error {
                child: Some(Box::new(Rcst::EscapedChar(Some(c)))),
                error: RcstError::EscapeWithInvalidChar,
            }
        },
        None => Rcst::Error { child: None, error: RcstError::EscapeMissesChar },
    }
}

/// The node for a backslash and the character after it, if there is one.
pub fn escaped(escaped_char: Option<char>) -> (result: Rcst)
    ensures
        result == spec_escaped(escaped_char),
{
    match escaped_char {
        Some(c) => {
            if c == '-' || c == '_' || c == '[' || c == ']' || c == '`' || c == '#' || c == '\\' {
                Rcst::EscapedChar(Some(c))
            } else {
                Rcst::Error {
                    child: Some(Box::new(Rcst::EscapedChar(Some(c)))),
                    error: RcstError::EscapeWithInvalidChar,
                }
            }
        },
        None => Rcst::Error { child: None, error: RcstError::EscapeMissesChar },
    }
}

/// Joining a first text and further texts puts the separator between the
/// first text and the rest, if there is a rest.
pub(crate) proof fn lemma_joined_first(first: Seq<char>, rest: Seq<Seq<char>>, separator: Seq<char>)
    ensures
        joined(seq![first] + rest, separator) == if rest.len() == 0 {
            first
        } else {
            first + separator + joined(rest, separator)
        },
    decreases rest.len(),
{
    let all = seq![first] + rest;
    assert(all.len() == rest.len() + 1);
    if rest.len() == 0 {
        assert(all =~= seq![first]);
        assert(joined(all, separator) == all[0]);
    } else if rest.len() == 1 {
        assert(all.drop_last() =~= seq![first]);
        assert(all.last() == rest[0]);
        assert(joined(all.drop_last(), separator) == first);
        assert(joined(rest, separator) == rest[0]);
        assert(joined(all, separator) == joined(all.drop_last(), separator) + separator
            + all.last());
    } else {
        lemma_joined_first(first, rest.drop_last(), separator);
        assert(all.drop_last() =~= seq![first] + rest.drop_last());
        assert(all.last() == rest.last());
        assert(joined(all, separator) == joined(all.drop_last(), separator) + separator
            + all.last());
        assert(joined(rest, separator) == joined(rest.drop_last(), separator) + separator
            + rest.last());
        assert(first + separator + joined(rest.drop_last(), separator) + separator + rest.last()
            =~= first + separator + (joined(rest.drop_last(), separator) + separator + rest.last()));
    }
}

pub(crate) proof fn lemma_measure_first(first: Seq<char>, rest: Seq<Seq<char>>)
    ensures
        lines_measure(seq![first] + rest) == first.len() + 1 + lines_measure(rest),
    decreases rest.len(),
{
    let all = seq![first] + rest;
    assert(all.len() == rest.len() + 1);
    if rest.len() == 0 {
        assert(all.drop_last() =~= Seq::<Seq<char>>::empty());
        assert(all.last() == first);
        assert(lines_measure(Seq::<Seq<char>>::empty()) == 0);
        assert(lines_measure(all.drop_last()) == 0);
        assert(lines_measure(all) == lines_measure(all.drop_last()) + all.last().len() + 1);
    } else {
        lemma_measure_first(first, rest.drop_last());
        assert(all.drop_last() =~= seq![first] + rest.drop_last());
        assert(all.last() == rest.last());
    }
}

proof fn lemma_leading_whitespace_bound(line: Seq<char>)
    ensures
        leading_whitespace_length(line) <= line.len(),
    decreases line.len(),
{
    if line.len() > 0 && (line[0] == ' ' || line[0] == '\t') {
        lemma_leading_whitespace_bound(line.drop_first());
    }
}

proof fn lemma_indentation_bound(line: Seq<char>, needed: int)
    ensures
        indentation_length(line, needed) matches Some(length) ==> length <= line.len() && (needed
            > 0 ==> length > 0),
    decreases line.len(),
{
    if needed > 0 && line.len() > 0 && is_unicode_whitespace(line[0]) {
        lemma_indentation_bound(line.drop_first(), needed - whitespace_score(line[0]));
    }
}

/// Taking characters from the start of the first line keeps the text: what is
/// taken and the text of what is left make up the text of the lines.
pub(crate) proof fn lemma_take_from_first_line(lines: Seq<Seq<char>>, count: int)
    requires
        lines.len() > 0,
        0 <= count <= lines[0].len(),
    ensures
        lines[0].take(count) + lines_text(seq![lines[0].skip(count)] + lines.drop_first())
            == lines_text(lines),
        lines_measure(seq![lines[0].skip(count)] + lines.drop_first()) + count == lines_measure(
            lines,
        ),
{
    let rest = lines.drop_first();
    assert(lines =~= seq![lines[0]] + rest);
    lemma_joined_first(lines[0], rest, "\n"@);
    lemma_joined_first(lines[0].skip(count), rest, "\n"@);
    lemma_measure_first(lines[0], rest);
    lemma_measure_first(lines[0].skip(count), rest);
    assert(lines[0].take(count) + lines[0].skip(count) =~= lines[0]);
    if rest.len() > 0 {
        assert(lines[0].take(count) + (lines[0].skip(count) + "\n"@ + joined(rest, "\n"@))
            =~= lines[0] + "\n"@ + joined(rest, "\n"@));
    }
}

/// Dropping an empty first line that another line follows takes a line feed
/// from the text.
pub(crate) proof fn lemma_drop_empty_line(lines: Seq<Seq<char>>)
    requires
        lines.len() >= 2,
        lines[0].len() == 0,
    ensures
        seq!['\n'] + lines_text(lines.drop_first()) == lines_text(lines),
        lines_measure(lines.drop_first()) + 1 == lines_measure(lines),
{
    reveal_strlit("\n");
    let rest = lines.drop_first();
    assert(lines =~= seq![lines[0]] + rest);
    lemma_joined_first(lines[0], rest, "\n"@);
    lemma_measure_first(lines[0], rest);
    assert(lines[0] + "\n"@ + joined(rest, "\n"@) =~= seq!['\n'] + joined(rest, "\n"@));
}

/// A whitespace node has the whitespace as its text.
proof fn lemma_whitespace_node_text(
    rcst: Rcst,
    whitespace: Seq<char>,
    is_weird: bool,
    error: RcstError,
)
    requires
        is_whitespace_node(rcst, whitespace, is_weird, error),
    ensures
        rcst.text() == whitespace,
{
    if is_weird {
        if let Rcst::Error { child: Some(child), .. } = rcst {
            assert(rcst.text() == child.text());
        }
    }
}

/// One parsing step: a part whose text is the start of the lines, and the
/// lines left after it, keep the text of what was parsed so far and what is
/// left.
pub(crate) proof fn lemma_parse_step(
    parts: Seq<Rcst>,
    part: Rcst,
    lines: Seq<Seq<char>>,
    next: Seq<Seq<char>>,
    total: Seq<char>,
)
    requires
        rcst_texts(parts) + lines_text(lines) == total,
        part.text() + lines_text(next) == lines_text(lines),
    ensures
        rcst_texts(parts.push(part)) + lines_text(next) == total,
{
    let all = parts.push(part);
    assert(all.drop_last() =~= parts);
    assert(all.last() == part);
    assert(rcst_texts(all) == rcst_texts(parts) + part.text());
    assert(rcst_texts(parts) + part.text() + lines_text(next) =~= rcst_texts(parts) + (part.text()
        + lines_text(next)));
}

/// Whitespace on the first line: its text and the lines after it make up the
/// lines, and it takes at least one character.
pub(crate) proof fn lemma_single_line_whitespace_step(lines: Seq<Seq<char>>, rcst: Rcst, rest: Seq<Seq<char>>)
    requires
        spec_single_line_whitespace(lines) matches Some((expected_rest, whitespace, is_weird))
            && rest == expected_rest && is_whitespace_node(
            rcst,
            whitespace,
            is_weird,
            RcstError::WeirdWhitespace,
        ),
    ensures
        rcst.text() + lines_text(rest) == lines_text(lines),
        lines_measure(rest) < lines_measure(lines),
        is_tail_of(rest, lines),
        rest.len() == lines.len(),
        spec_single_line_whitespace(rest) is None,
{
    let (_, whitespace, is_weird) = spec_single_line_whitespace(lines)->0;
    let length = leading_whitespace_length(lines[0]);
    lemma_leading_whitespace_bound(lines[0]);
    lemma_take_from_first_line(lines, length as int);
    lemma_whitespace_node_text(rcst, whitespace, is_weird, RcstError::WeirdWhitespace);
    lemma_tail_skip_first(lines, length as int);
    lemma_no_whitespace_after_whitespace(lines[0]);
}

/// What follows the leading whitespace of a line starts with none.
proof fn lemma_no_whitespace_after_whitespace(line: Seq<char>)
    ensures
        leading_whitespace_length(line.skip(leading_whitespace_length(line) as int)) == 0,
    decreases line.len(),
{
    if line.len() > 0 && (line[0] == ' ' || line[0] == '\t') {
        lemma_no_whitespace_after_whitespace(line.drop_first());
        let rest = line.drop_first();
        let n = leading_whitespace_length(line) as int;
        let m = leading_whitespace_length(rest) as int;
        assert(n == m + 1);
        lemma_leading_whitespace_bound(rest);
        assert(line.skip(n) =~= rest.skip(m));
    } else {
        assert(line.skip(0) =~= line);
    }
}

/// Indentation on the first line: its text and the lines after it make up
/// the lines.
pub(crate) proof fn lemma_indentation_step_text(
    lines: Seq<Seq<char>>,
    indentation: nat,
    rcst: Rcst,
    rest: Seq<Seq<char>>,
)
    requires
        spec_leading_indentation(lines, indentation) matches Some((expected_rest, whitespace, is_weird))
            && rest == expected_rest && is_whitespace_node(
            rcst,
            whitespace,
            is_weird,
            RcstError::WeirdWhitespaceInIndentation,
        ),
    ensures
        rcst.text() + lines_text(rest) == lines_text(lines),
        lines_measure(rest) <= lines_measure(lines),
        is_tail_of(rest, lines),
        rest.len() == lines.len(),
{
    let (_, whitespace, is_weird) = spec_leading_indentation(lines, indentation)->0;
    let length = indentation_length(lines[0], indentation as int)->0;
    lemma_indentation_bound(lines[0], indentation as int);
    lemma_take_from_first_line(lines, length as int);
    lemma_whitespace_node_text(rcst, whitespace, is_weird, RcstError::WeirdWhitespaceInIndentation);
    lemma_tail_skip_first(lines, length as int);
}

/// A part of whitespace: a line break, or spaces and tabs, with whether
/// they are weird and the error that marks them then.
pub enum WhitespacePart {
    LineBreak,
    Whitespace(Seq<char>, bool, RcstError),
}

/// Whether a node is the given part of whitespace.
pub open spec fn is_whitespace_part(rcst: Rcst, part: WhitespacePart) -> bool {
    match part {
        WhitespacePart::LineBreak => rcst == Rcst::Newline,
        WhitespacePart::Whitespace(text, is_weird, error) => is_whitespace_node(
            rcst,
            text,
            is_weird,
            error,
        ),
    }
}

/// Whether nodes are the given parts of whitespace, one by one.
pub open spec fn are_whitespace_parts(rcsts: Seq<Rcst>, parts: Seq<WhitespacePart>) -> bool {
    rcsts.len() == parts.len() && forall|i: int|
        0 <= i < rcsts.len() ==> is_whitespace_part(rcsts[i], parts[i])
}

/// One round of whitespace and line breaks: a line break, followed (where
/// the indentation is not zero) by the indentation, and then whitespace on
/// the line. Gives the lines left, the parts, whether anything was taken,
/// and whether the line break had the indentation.
pub open spec fn whitespace_round(lines: Seq<Seq<char>>, indentation: nat) -> (
    Seq<Seq<char>>,
    Seq<WhitespacePart>,
    bool,
    bool,
) {
    let (after_break, break_parts, has_break, is_indented) = if lines.len() >= 2
        && lines[0].len() == 0 {
        let after = lines.drop_first();
        if indentation == 0 {
            (after, seq![WhitespacePart::LineBreak], true, true)
        } else {
            match spec_leading_indentation(after, indentation) {
                Some((rest, whitespace, is_weird)) => (
                    rest,
                    seq![
                        WhitespacePart::LineBreak,
                        WhitespacePart::Whitespace(
                            whitespace,
                            is_weird,
                            RcstError::WeirdWhitespaceInIndentation,
                        ),
                    ],
                    true,
                    true,
                ),
                None => (after, seq![WhitespacePart::LineBreak], true, false),
            }
        }
    } else {
        (lines, Seq::empty(), false, false)
    };
    match spec_single_line_whitespace(after_break) {
        Some((rest, whitespace, is_weird)) => (
            rest,
            break_parts.push(
                WhitespacePart::Whitespace(whitespace, is_weird, RcstError::WeirdWhitespace),
            ),
            true,
            is_indented,
        ),
        None => (after_break, break_parts, has_break, is_indented),
    }
}

/// Rounds of whitespace and line breaks until one takes nothing. The parts
/// of rounds are kept once a line break with the indentation follows them.
/// Gives the lines left after the kept parts, and the kept parts.
pub open spec fn whitespace_rounds(
    kept_lines: Seq<Seq<char>>,
    kept: Seq<WhitespacePart>,
    lines: Seq<Seq<char>>,
    pending: Seq<WhitespacePart>,
    indentation: nat,
) -> (Seq<Seq<char>>, Seq<WhitespacePart>)
    decreases lines_measure(lines),
{
    let (next, parts, has_progressed, is_indented) = whitespace_round(lines, indentation);
    if !has_progressed || lines_measure(next) >= lines_measure(lines) {
        (kept_lines, kept)
    } else if is_indented {
        whitespace_rounds(next, kept + pending + parts, next, Seq::empty(), indentation)
    } else {
        whitespace_rounds(kept_lines, kept, next, pending + parts, indentation)
    }
}

/// What `whitespaces_and_newlines` takes: whitespace on the first line, then
/// rounds of line breaks and whitespace; nothing where no part is kept.
pub open spec fn spec_whitespaces_and_newlines(lines: Seq<Seq<char>>, indentation: nat) -> Option<
    (Seq<Seq<char>>, Seq<WhitespacePart>),
> {
    let (start, first) = match spec_single_line_whitespace(lines) {
        Some((rest, whitespace, is_weird)) => (
            rest,
            seq![WhitespacePart::Whitespace(whitespace, is_weird, RcstError::WeirdWhitespace)],
        ),
        None => (lines, Seq::empty()),
    };
    let (rest, parts) = whitespace_rounds(start, first, start, Seq::empty(), indentation);
    if parts.len() == 0 {
        None
    } else {
        Some((rest, parts))
    }
}

/// The value of the node for a part of whitespace.
pub open spec fn whitespace_part_view(part: WhitespacePart) -> RcstView {
    match part {
        WhitespacePart::LineBreak => RcstView::Newline,
        WhitespacePart::Whitespace(text, is_weird, error) => if is_weird {
            RcstView::Error { child: Some(Box::new(RcstView::Whitespace(text))), error }
        } else {
            RcstView::Whitespace(text)
        },
    }
}

/// The values of the nodes for parts of whitespace, one by one.
pub open spec fn whitespace_part_views(parts: Seq<WhitespacePart>) -> Seq<RcstView> {
    parts.map_values(|part: WhitespacePart| whitespace_part_view(part))
}

/// Nodes that are parts of whitespace have those parts' values.
pub proof fn lemma_whitespace_parts_view(rcsts: Seq<Rcst>, parts: Seq<WhitespacePart>)
    requires
        are_whitespace_parts(rcsts, parts),
    ensures
        rcst_views(rcsts) == whitespace_part_views(parts),
{
    lemma_rcst_views(rcsts);
    assert forall|i: int| 0 <= i < rcsts.len() implies rcst_views(rcsts)[i]
        == whitespace_part_views(parts)[i] by {
        assert(is_whitespace_part(rcsts[i], parts[i]));
        if let WhitespacePart::Whitespace(text, is_weird, error) = parts[i] {
            if is_weird {
                if let Rcst::Error { child: Some(child), .. } = rcsts[i] {
                    assert(rcst_view(*child) == RcstView::Whitespace(text));
                }
            }
        }
    }
    assert(rcst_views(rcsts) =~= whitespace_part_views(parts));
}

/// Parts of whitespace one after the other.
proof fn lemma_whitespace_parts_concat(
    first: Seq<Rcst>,
    first_parts: Seq<WhitespacePart>,
    second: Seq<Rcst>,
    second_parts: Seq<WhitespacePart>,
)
    requires
        are_whitespace_parts(first, first_parts),
        are_whitespace_parts(second, second_parts),
    ensures
        are_whitespace_parts(first + second, first_parts + second_parts),
{
    assert forall|i: int| 0 <= i < first.len() + second.len() implies is_whitespace_part(
        (first + second)[i],
        (first_parts + second_parts)[i],
    ) by {
        if i < first.len() {
            assert((first + second)[i] == first[i]);
            assert((first_parts + second_parts)[i] == first_parts[i]);
        } else {
            assert((first + second)[i] == second[i - first.len()]);
            assert((first_parts + second_parts)[i] == second_parts[i - first.len()]);
        }
    }
}

/// One round of whitespace and line breaks, as `whitespace_round` says.
/// The parts and the lines that are left keep the text of the lines.
fn whitespace_round_exec(lines: &Vec<String>, indentation: usize) -> (result: (
    Vec<String>,
    Vec<Rcst>,
    bool,
    bool,
))
    ensures
        ({
            let (next, parts, has_progressed, is_indented) = result;
            let before = string_views(lines@);
            let after = string_views(next@);
            &&& (after, has_progressed, is_indented) == (
                whitespace_round(before, indentation as nat).0,
                whitespace_round(before, indentation as nat).2,
                whitespace_round(before, indentation as nat).3,
            )
            &&& are_whitespace_parts(parts@, whitespace_round(before, indentation as nat).1)
            &&& rcst_texts(parts@) + lines_text(after) == lines_text(before)
            &&& is_tail_of(after, before)
            &&& lines_measure(after) <= lines_measure(before)
            &&& has_progressed ==> lines_measure(after) < lines_measure(before)
            &&& has_progressed ==> spec_single_line_whitespace(after) is None
            &&& !has_progressed ==> after == before && parts.len() == 0 && !(lines.len() >= 2
                && lines@[0]@.len() == 0) && spec_single_line_whitespace(before) is None
            &&& indentation == 0 && has_progressed && spec_single_line_whitespace(before) is None
                ==> is_indented
            &&& lines.len() > 0 ==> next.len() > 0
            &&& lines.len() > 0 && lines@[0]@.len() > 0 && spec_single_line_whitespace(before)
                is None ==> !has_progressed
        }),
{
    let ghost start = string_views(lines@);
    let ghost round = whitespace_round(start, indentation as nat);
    let mut new_input = clone_lines(lines);
    let mut parts: Vec<Rcst> = Vec::new();
    let ghost mut expected: Seq<WhitespacePart> = Seq::empty();
    let mut progressed = false;
    let mut has_proper_indentation = false;
    proof {
        lemma_tail_of_itself(start);
        assert(rcst_texts(parts@) =~= Seq::<char>::empty());
        assert(rcst_texts(parts@) + lines_text(start) =~= lines_text(start));
        if lines.len() > 0 {
            assert(start[0] == lines@[0]@);
        }
    }
    let candidate = clone_lines(&new_input);
    proof {
        if candidate.len() > 0 {
            assert(string_views(candidate@)[0] == candidate@[0]@);
        }
    }
    match newline(candidate) {
        Some((after_newline, line_break)) => {
            proof {
                lemma_drop_empty_line(start);
                reveal_strlit("\n");
                assert(line_break.text() == seq!['\n']);
                lemma_parse_step(
                    parts@,
                    line_break,
                    start,
                    string_views(after_newline@),
                    lines_text(start),
                );
                lemma_tail_drop_first(start);
                lemma_measure_first(start[0], start.drop_first());
                assert(start =~= seq![start[0]] + start.drop_first());
                expected = seq![WhitespacePart::LineBreak];
            }
            new_input = after_newline;
            parts.push(line_break);
            progressed = true;
            if indentation == 0 {
                has_proper_indentation = true;
            } else {
                let ghost after = string_views(new_input@);
                match leading_indentation(clone_lines(&new_input), indentation) {
                    Some((after_indentation, whitespace)) => {
                        proof {
                            lemma_indentation_step_text(
                                after,
                                indentation as nat,
                                whitespace,
                                string_views(after_indentation@),
                            );
                            lemma_parse_step(
                                parts@,
                                whitespace,
                                after,
                                string_views(after_indentation@),
                                lines_text(start),
                            );
                            lemma_tail_transitive(string_views(after_indentation@), after, start);
                            let (_, text, is_weird) = spec_leading_indentation(
                                after,
                                indentation as nat,
                            )->0;
                            expected = expected.push(
                                WhitespacePart::Whitespace(
                                    text,
                                    is_weird,
                                    RcstError::WeirdWhitespaceInIndentation,
                                ),
                            );
                        }
                        has_proper_indentation = true;
                        parts.push(whitespace);
                        new_input = after_indentation;
                    },
                    None => {},
                }
            }
        },
        None => {},
    }
    let ghost before_whitespace = string_views(new_input@);
    proof {
        assert((before_whitespace, expected, progressed, has_proper_indentation) == (
            if start.len() >= 2 && start[0].len() == 0 {
                let after = start.drop_first();
                if indentation == 0 {
                    (after, seq![WhitespacePart::LineBreak], true, true)
                } else {
                    match spec_leading_indentation(after, indentation as nat) {
                        Some((rest, whitespace, is_weird)) => (
                            rest,
                            seq![
                                WhitespacePart::LineBreak,
                                WhitespacePart::Whitespace(
                                    whitespace,
                                    is_weird,
                                    RcstError::WeirdWhitespaceInIndentation,
                                ),
                            ],
                            true,
                            true,
                        ),
                        None => (after, seq![WhitespacePart::LineBreak], true, false),
                    }
                }
            } else {
                (start, Seq::empty(), false, false)
            }
        ));
        assert(are_whitespace_parts(parts@, expected));
    }
    match single_line_whitespace(clone_lines(&new_input)) {
        Some((after_whitespace, whitespace)) => {
            proof {
                lemma_single_line_whitespace_step(
                    before_whitespace,
                    whitespace,
                    string_views(after_whitespace@),
                );
                lemma_parse_step(
                    parts@,
                    whitespace,
                    before_whitespace,
                    string_views(after_whitespace@),
                    lines_text(start),
                );
                lemma_tail_transitive(string_views(after_whitespace@), before_whitespace, start);
                let (_, text, is_weird) = spec_single_line_whitespace(before_whitespace)->0;
                expected = expected.push(
                    WhitespacePart::Whitespace(text, is_weird, RcstError::WeirdWhitespace),
                );
            }
            parts.push(whitespace);
            new_input = after_whitespace;
            progressed = true;
        },
        None => {},
    }
    proof {
        let after = string_views(new_input@);
        assert(expected == round.1);
        assert(after == round.0);
        assert(progressed == round.2);
        assert(has_proper_indentation == round.3);
        assert(are_whitespace_parts(parts@, expected));
        lemma_tail_measure(after, start);
        assert(rcst_texts(parts@) + lines_text(after) == lines_text(start));
        assert(is_tail_of(after, start));
        if progressed {
            assert(lines_measure(after) < lines_measure(start));
            assert(spec_single_line_whitespace(after) is None);
        } else {
            assert(after == start);
            assert(parts.len() == 0);
            assert(!(lines.len() >= 2 && lines@[0]@.len() == 0));
            assert(spec_single_line_whitespace(start) is None);
        }
        if indentation == 0 && progressed && spec_single_line_whitespace(start) is None {
            assert(has_proper_indentation);
        }
        if lines.len() > 0 {
            assert(new_input@.len() == string_views(new_input@).len());
            assert(new_input.len() > 0);
        }
    }
    (new_input, parts, progressed, has_proper_indentation)
}

/// Whitespace and line breaks: whitespace on the current line, then line
/// breaks followed by the given indentation and more whitespace. Line breaks
/// that are not followed by enough indentation are kept only if a later one
/// is. The parts and the lines that are left keep the text of the lines.
#[verifier::spinoff_prover]
#[verifier::rlimit(60)]
pub fn whitespaces_and_newlines(input: Vec<String>, indentation: usize) -> (result: Option<
    (Vec<String>, Vec<Rcst>),
>)
    ensures
        match (result, spec_whitespaces_and_newlines(string_views(input@), indentation as nat)) {
            (Some((rest, parts)), Some((expected_rest, expected_parts))) => string_views(rest@)
                == expected_rest && are_whitespace_parts(parts@, expected_parts),
            (None, None) => true,
            _ => false,
        },
        match result {
            Some((rest, parts)) => {
                &&& parts.len() > 0
                &&& rcst_texts(parts@) + lines_text(string_views(rest@)) == lines_text(
                    string_views(input@),
                )
                &&& lines_measure(string_views(rest@)) < lines_measure(string_views(input@))
                &&& is_tail_of(string_views(rest@), string_views(input@))
                &&& rest.len() > 0
                &&& indentation == 0 ==> !(rest.len() >= 2 && rest@[0]@.len() == 0)
                &&& indentation == 0 ==> spec_single_line_whitespace(string_views(rest@)) is None
                &&& leading_whitespace_length(input@[0]@) < input@[0]@.len() ==> string_views(
                    rest@,
                ) == seq![input@[0]@.skip(leading_whitespace_length(input@[0]@) as int)]
                    + string_views(input@).drop_first()
            },
            None => {
                &&& spec_single_line_whitespace(string_views(input@)) is None
                &&& indentation == 0 ==> !(input.len() >= 2 && input@[0]@.len() == 0)
            },
        },
{
    let ghost original = string_views(input@);
    let ghost level = indentation as nat;
    let mut input = input;
    let mut parts: Vec<Rcst> = Vec::new();
    let ghost mut kept: Seq<WhitespacePart> = Seq::empty();
    proof {
        assert(rcst_texts(parts@) =~= Seq::<char>::empty());
        assert(rcst_texts(parts@) + lines_text(original) =~= lines_text(original));
        lemma_tail_of_itself(original);
    }
    let ghost first_has_text = original.len() > 0 && leading_whitespace_length(original[0])
        < original[0].len();
    let ghost after_first = if original.len() > 0 {
        seq![original[0].skip(leading_whitespace_length(original[0]) as int)]
            + original.drop_first()
    } else {
        original
    };
    proof {
        if original.len() > 0 && leading_whitespace_length(original[0]) == 0 {
            assert(original[0].skip(0) =~= original[0]);
            assert(after_first =~= original);
        }
    }
    match single_line_whitespace(clone_lines(&input)) {
        Some((new_input, whitespace)) => {
            proof {
                lemma_single_line_whitespace_step(original, whitespace, string_views(new_input@));
                lemma_parse_step(
                    parts@,
                    whitespace,
                    original,
                    string_views(new_input@),
                    lines_text(original),
                );
                let (_, text, is_weird) = spec_single_line_whitespace(original)->0;
                kept = seq![WhitespacePart::Whitespace(text, is_weird, RcstError::WeirdWhitespace)];
            }
            input = new_input;
            parts.push(whitespace);
        },
        None => {},
    }
    let ghost start_lines = string_views(input@);
    let ghost target = whitespace_rounds(start_lines, kept, start_lines, Seq::empty(), level);
    proof {
        assert(spec_whitespaces_and_newlines(original, level) == (if target.1.len() == 0 {
            None
        } else {
            Some(target)
        }));
        if first_has_text {
            lemma_no_whitespace_after_whitespace(original[0]);
            lemma_leading_whitespace_bound(original[0]);
        }
    }
    let mut new_input = clone_lines(&input);
    let mut new_parts: Vec<Rcst> = Vec::new();
    let ghost mut pending: Seq<WhitespacePart> = Seq::empty();
    proof {
        assert(rcst_texts(new_parts@) =~= Seq::<char>::empty());
        assert(rcst_texts(new_parts@) + lines_text(string_views(new_input@)) =~= lines_text(
            string_views(input@),
        ));
        lemma_tail_of_itself(string_views(input@));
    }
    loop
        invariant
            level == indentation as nat,
            whitespace_rounds(string_views(input@), kept, string_views(new_input@), pending, level)
                == target,
            are_whitespace_parts(parts@, kept),
            are_whitespace_parts(new_parts@, pending),
            rcst_texts(parts@) + lines_text(string_views(input@)) == lines_text(original),
            rcst_texts(new_parts@) + lines_text(string_views(new_input@)) == lines_text(
                string_views(input@),
            ),
            lines_measure(string_views(new_input@)) <= lines_measure(string_views(input@)),
            lines_measure(string_views(input@)) <= lines_measure(original),
            parts.len() > 0 ==> lines_measure(string_views(input@)) < lines_measure(original),
            spec_single_line_whitespace(original) is Some ==> parts.len() > 0,
            is_tail_of(string_views(input@), original),
            is_tail_of(string_views(new_input@), string_views(input@)),
            input.len() == 0 ==> original.len() == 0,
            input.len() > 0 ==> new_input.len() > 0,
            parts.len() == 0 ==> string_views(input@) == original,
            indentation == 0 ==> string_views(new_input@) == string_views(input@),
            indentation == 0 ==> spec_single_line_whitespace(string_views(input@)) is None,
            first_has_text ==> original.len() > 0 && leading_whitespace_length(original[0])
                < original[0].len() && after_first == seq![
                original[0].skip(leading_whitespace_length(original[0]) as int),
            ] + original.drop_first(),
            first_has_text ==> string_views(input@) == after_first && string_views(new_input@)
                == after_first,
            first_has_text ==> original[0].skip(leading_whitespace_length(original[0]) as int).len()
                > 0,
            first_has_text ==> leading_whitespace_length(
                original[0].skip(leading_whitespace_length(original[0]) as int),
            ) == 0,
        ensures
            !(new_input.len() >= 2 && new_input@[0]@.len() == 0),
            (string_views(input@), kept) == target,
        decreases lines_measure(string_views(new_input@)),
    {
        let ghost start = string_views(new_input@);
        let ghost current = string_views(input@);
        proof {
            if first_has_text {
                assert(after_first.len() > 0);
                assert(after_first[0] == original[0].skip(
                    leading_whitespace_length(original[0]) as int,
                ));
                assert(start.len() > 0);
                assert(start[0] == new_input@[0]@);
                assert(start[0].len() > 0);
                assert(spec_single_line_whitespace(start) is None);
            }
        }
        let (next, mut added, progressed, has_proper_indentation) = whitespace_round_exec(
            &new_input,
            indentation,
        );
        if !progressed {
            break;
        }
        let ghost round = whitespace_round(start, level);
        let ghost new_parts_before = new_parts@;
        proof {
            assert(round.2 && lines_measure(round.0) < lines_measure(start));
            assert(whitespace_rounds(current, kept, start, pending, level) == if round.3 {
                whitespace_rounds(round.0, kept + pending + round.1, round.0, Seq::empty(), level)
            } else {
                whitespace_rounds(current, kept, round.0, pending + round.1, level)
            });
            assert(kept + pending + round.1 =~= kept + (pending + round.1));
            lemma_rcst_texts_concat(new_parts@, added@);
            lemma_whitespace_parts_concat(new_parts@, pending, added@, round.1);
            lemma_tail_transitive(string_views(next@), start, current);
            assert(rcst_texts(new_parts@) + rcst_texts(added@) + lines_text(string_views(next@))
                =~= rcst_texts(new_parts@) + (rcst_texts(added@) + lines_text(
                string_views(next@),
            )));
            pending = pending + round.1;
        }
        new_parts.append(&mut added);
        new_input = next;
        if has_proper_indentation {
            proof {
                lemma_tail_transitive(string_views(new_input@), current, original);
                lemma_tail_of_itself(string_views(new_input@));
                lemma_rcst_texts_concat(parts@, new_parts@);
                lemma_whitespace_parts_concat(parts@, kept, new_parts@, pending);
                kept = kept + pending;
                pending = Seq::empty();
            }
            input = clone_lines(&new_input);
            let mut appended = Vec::new();
            std::mem::swap(&mut appended, &mut new_parts);
            parts.append(&mut appended);
            proof {
                assert(rcst_texts(new_parts@) =~= Seq::<char>::empty());
                assert(rcst_texts(new_parts@) + lines_text(string_views(new_input@)) =~= lines_text(
                    string_views(input@),
                ));
                assert(are_whitespace_parts(new_parts@, pending));
            }
        }
    }
    proof {
        if parts.len() > 0 {
            lemma_tail_measure(string_views(input@), original);
            assert(input.len() > 0);
            if indentation == 0 {
                assert(input@[0]@ == string_views(input@)[0]);
                assert(new_input@[0]@ == string_views(new_input@)[0]);
            }
        }
    }
    if parts.len() == 0 {
        None
    } else {
        Some((input, parts))
    }
}

/// A copy of lines.
pub(crate) fn clone_lines(lines: &Vec<String>) -> (result: Vec<String>)
    ensures
        string_views(result@) == string_views(lines@),
{
    let result = crate::text::clone_strings(lines);
    result
}

/// The text of parts is the text of the first part followed by the text of the
/// others.
pub(crate) proof fn lemma_rcst_texts_first(first: Rcst, rest: Seq<Rcst>)
    ensures
        rcst_texts(seq![first] + rest) == first.text() + rcst_texts(rest),
    decreases rest.len(),
{
    let all = seq![first] + rest;
    assert(all.len() == rest.len() + 1);
    if rest.len() == 0 {
        assert(all.drop_last() =~= Seq::<Rcst>::empty());
        assert(all.last() == first);
        assert(rcst_texts(all.drop_last()) == Seq::<char>::empty());
        assert(rcst_texts(all) == rcst_texts(all.drop_last()) + all.last().text());
        assert(first.text() + rcst_texts(rest) =~= first.text());
        assert(rcst_texts(all) =~= first.text());
    } else {
        lemma_rcst_texts_first(first, rest.drop_last());
        assert(all.drop_last() =~= seq![first] + rest.drop_last());
        assert(all.last() == rest.last());
        assert(rcst_texts(all) == rcst_texts(all.drop_last()) + all.last().text());
        assert(rcst_texts(rest) == rcst_texts(rest.drop_last()) + rest.last().text());
        assert(first.text() + rcst_texts(rest.drop_last()) + rest.last().text() =~= first.text()
            + (rcst_texts(rest.drop_last()) + rest.last().text()));
    }
}

} // verus!
