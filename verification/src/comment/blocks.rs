use super::inline_parser::{
    inline_part_views, lemma_inline_nodes_view, spec_inline,
    ends_in_lone_backslash, inline_source, is_proper_formatting_state,
    lemma_lone_backslash_is_last, InlineFormatting,
};
use super::rcst::{marker_text, optional_char, rcst_texts, Rcst, RcstError, RcstListItemMarker};
use super::rcst_view::{
    lemma_rcst_views, lemma_rcst_views_concat, marker_view, push_whitespace_view, rcst_view,
    rcst_views, wrap_view,
    MarkerView, RcstView,
};
use super::string_to_rcst::{
    clone_lines, is_tail_of, lemma_measure_first, lemma_rcst_texts_first, lemma_tail_measure,
    lemma_tail_skip_first, lemma_tail_transitive, lemma_take_from_first_line,
    lemma_tail_keeps_backslash_free, lemma_tail_of_itself, lines_measure, lines_text, no_line_ends_in_backslash,
    recombine, split_first, whitespaces_and_newlines, rest_of_line, newline, leading_indentation,
    lemma_drop_empty_line, lemma_indentation_step_text, lemma_tail_drop_first,
    spec_leading_indentation, start_of_line, lemma_joined_first, lemma_measure_skip,
    single_line_whitespace, spec_single_line_whitespace, leading_whitespace_length,
    spec_whitespaces_and_newlines, whitespace_part_views, lemma_whitespace_parts_view,
    whitespace_part_view, WhitespacePart,
    is_whitespace_node, lemma_tail_of_itself as lemma_tail_itself,
};
use super::rcst::RcstError as WhitespaceError;
use crate::text::{chars_of, string_from_chars, string_views};
use vstd::prelude::*;

verus! {

/// The texts of two sequences of nodes one after the other are the text of
/// both.
pub proof fn lemma_rcst_texts_concat(first: Seq<Rcst>, second: Seq<Rcst>)
    ensures
        rcst_texts(first + second) == rcst_texts(first) + rcst_texts(second),
    decreases second.len(),
{
    if second.len() == 0 {
        assert(first + second =~= first);
        assert(rcst_texts(first) + rcst_texts(second) =~= rcst_texts(first));
    } else {
        lemma_rcst_texts_concat(first, second.drop_last());
        let all = first + second;
        assert(all.drop_last() =~= first + second.drop_last());
        assert(all.last() == second.last());
        assert(rcst_texts(all) == rcst_texts(all.drop_last()) + all.last().text());
        assert(rcst_texts(second) == rcst_texts(second.drop_last()) + second.last().text());
        assert(rcst_texts(first) + rcst_texts(second.drop_last()) + second.last().text()
            =~= rcst_texts(first) + (rcst_texts(second.drop_last()) + second.last().text()));
    }
}

/// Whether a node is another one followed by the given whitespace: the
/// other one's own trailing whitespace is extended, and any other node gets
/// trailing whitespace.
pub open spec fn is_wrapped_in_whitespace(result: Rcst, node: Rcst, whitespace: Seq<Rcst>) -> bool {
    match node {
        Rcst::TrailingWhitespace { child, whitespace: own } => match result {
            Rcst::TrailingWhitespace { child: new_child, whitespace: all } => new_child == child
                && all@ == own@ + whitespace,
            _ => false,
        },
        _ => match result {
            Rcst::TrailingWhitespace { child, whitespace: all } => *child == node && all@
                == whitespace,
            _ => false,
        },
    }
}

impl Rcst {
    /// This node followed by whitespace. Whitespace after a node that
    /// already has some is added to it.
    pub fn wrap_in_whitespace(self, whitespace: Vec<Rcst>) -> (result: Rcst)
        ensures
            result.text() == self.text() + rcst_texts(whitespace@),
            whitespace.len() == 0 ==> result == self,
            whitespace.len() > 0 ==> is_wrapped_in_whitespace(result, self, whitespace@),
    {
        if whitespace.len() == 0 {
            assert(rcst_texts(whitespace@) =~= Seq::<char>::empty());
            assert(self.text() + rcst_texts(whitespace@) =~= self.text());
            return self;
        }
        match self {
            Rcst::TrailingWhitespace { child, whitespace: own } => {
                let ghost own_parts = own@;
                let mut all = own;
                let mut more = whitespace;
                all.append(&mut more);
                proof {
                    lemma_rcst_texts_concat(own_parts, whitespace@);
                    assert(child.text() + rcst_texts(own_parts) + rcst_texts(whitespace@)
                        =~= child.text() + (rcst_texts(own_parts) + rcst_texts(whitespace@)));
                }
                Rcst::TrailingWhitespace { child, whitespace: all }
            },
            other => Rcst::TrailingWhitespace { child: Box::new(other), whitespace },
        }
    }
}

/// The number of `#` that a line starts with.
pub open spec fn leading_hash_count(line: Seq<char>) -> nat
    decreases line.len(),
{
    if line.len() > 0 && line[0] == '#' {
        1 + leading_hash_count(line.drop_first())
    } else {
        0
    }
}

/// `count` characters `#`.
pub open spec fn hashes(count: nat) -> Seq<char> {
    Seq::new(count, |i: int| '#')
}

proof fn lemma_leading_hashes(line: Seq<char>, i: int)
    requires
        0 <= i <= line.len(),
        forall|j: int| 0 <= j < i ==> line[j] == '#',
        i == line.len() || line[i] != '#',
    ensures
        leading_hash_count(line) == i,
        line.take(i) == hashes(i as nat),
    decreases i,
{
    if i > 0 {
        lemma_leading_hashes(line.drop_first(), i - 1);
    }
    assert(line.take(i) =~= hashes(i as nat));
}

/// What `title_line` gives for a line: a title line with the `#` that the
/// line starts with and the inline elements after them, and the formattings
/// still open; nothing where the line does not start with `#`.
pub open spec fn spec_title_line(line: Seq<char>, formatting_state: Seq<InlineFormatting>) -> Option<
    (RcstView, Seq<InlineFormatting>),
> {
    if line.len() == 0 || line[0] != '#' {
        None
    } else {
        let count = leading_hash_count(line);
        match spec_inline(line.skip(count as int), formatting_state) {
            Some((parts, state)) => Some(
                (
                    RcstView::TitleLine { octothorpe_count: count, text: inline_part_views(parts) },
                    state,
                ),
            ),
            None => Some(
                (RcstView::TitleLine { octothorpe_count: count, text: Seq::empty() }, formatting_state),
            ),
        }
    }
}

/// A node wrapped in whitespace has the value of the node's value wrapped in
/// the whitespace's values.
pub proof fn lemma_wrapped_view(result: Rcst, node: Rcst, whitespace: Seq<Rcst>)
    requires
        whitespace.len() > 0,
        is_wrapped_in_whitespace(result, node, whitespace),
    ensures
        rcst_view(result) == wrap_view(rcst_view(node), rcst_views(whitespace)),
{
    lemma_rcst_views(whitespace);
    match node {
        Rcst::TrailingWhitespace { child, whitespace: own } => {
            if let Rcst::TrailingWhitespace { child: new_child, whitespace: all } = result {
                lemma_rcst_views_concat(own@, whitespace);
            }
        },
        _ => {},
    }
}

/// Adding whitespace after the last part, and then a part, gives the values
/// of adding the whitespace's values and the part's value.
proof fn lemma_wrap_last_and_push(
    before: Seq<Rcst>,
    previous: Rcst,
    wrapped: Rcst,
    whitespace: Seq<Rcst>,
    part: Rcst,
)
    requires
        whitespace.len() > 0,
        is_wrapped_in_whitespace(wrapped, previous, whitespace),
    ensures
        rcst_views(before.push(wrapped).push(part)) == push_whitespace_view(
            rcst_views(before.push(previous)),
            rcst_views(whitespace),
        ).push(rcst_view(part)),
{
    lemma_wrapped_view(wrapped, previous, whitespace);
    assert(before.push(wrapped).push(part).drop_last() =~= before.push(wrapped));
    assert(before.push(wrapped).drop_last() =~= before);
    assert(before.push(previous).drop_last() =~= before);
    assert(rcst_views(before.push(wrapped).push(part)) == rcst_views(before.push(wrapped)).push(
        rcst_view(part),
    ));
    assert(rcst_views(before.push(wrapped)) == rcst_views(before).push(rcst_view(wrapped)));
    assert(rcst_views(before.push(previous)) == rcst_views(before).push(rcst_view(previous)));
    assert(rcst_views(before.push(previous)).drop_last() =~= rcst_views(before));
}

/// What `title` gives: title lines, one after the other with whitespace and
/// line breaks between them; nothing where the first line is no title line.
pub open spec fn spec_title(lines: Seq<Seq<char>>) -> Option<(Seq<Seq<char>>, RcstView)> {
    if lines.len() == 0 {
        None
    } else {
        match spec_title_line(lines[0], Seq::empty()) {
            None => None,
            Some((first, state)) => {
                let (rest, title_lines) = title_rounds(
                    seq![Seq::<char>::empty()] + lines.drop_first(),
                    seq![first],
                    state,
                );
                Some((rest, RcstView::Title(title_lines)))
            },
        }
    }
}

/// Further title lines after whitespace and line breaks, as long as there
/// are any.
pub open spec fn title_rounds(
    lines: Seq<Seq<char>>,
    title_lines: Seq<RcstView>,
    formatting_state: Seq<InlineFormatting>,
) -> (Seq<Seq<char>>, Seq<RcstView>)
    decreases lines_measure(lines),
{
    match spec_whitespaces_and_newlines(lines, 0) {
        None => (lines, title_lines),
        Some((after, whitespace)) => if after.len() == 0 {
            (lines, title_lines)
        } else {
            match spec_title_line(after[0], formatting_state) {
                None => (lines, title_lines),
                Some((line, state)) => {
                    let next = seq![Seq::<char>::empty()] + after.drop_first();
                    if lines_measure(next) < lines_measure(lines) {
                        title_rounds(
                            next,
                            push_whitespace_view(title_lines, whitespace_part_views(whitespace)).push(
                                line,
                            ),
                            state,
                        )
                    } else {
                        (lines, title_lines)
                    }
                },
            }
        },
    }
}

/// A line of a title: the `#` it starts with and the inline elements after
/// them, continuing the formattings that earlier lines left open.
pub fn title_line(line: &str, formatting_state: Vec<InlineFormatting>) -> (result: Option<
    (Rcst, Vec<InlineFormatting>),
>)
    requires
        is_proper_formatting_state(formatting_state@),
    ensures
        match result {
            Some((rcst, state)) => {
                let count = leading_hash_count(line@);
                &&& line@.len() > 0 && line@[0] == '#'
                &&& rcst matches Rcst::TitleLine { octothorpe_count, .. } && octothorpe_count
                    == count
                &&& rcst.text() == hashes(count) + inline_source(line@.skip(count as int))
                &&& is_proper_formatting_state(state@)
            },
            None => !(line@.len() > 0 && line@[0] == '#'),
        },
        match (result, spec_title_line(line@, formatting_state@)) {
            (Some((rcst, state)), Some((expected, expected_state))) => rcst@ == expected && state@
                == expected_state,
            (None, None) => true,
            _ => false,
        },
{
    let chars = chars_of(line);
    if chars.len() == 0 {
        return None;
    }
    let mut count: usize = 0;
    while count < chars.len() && chars[count] == '#'
        invariant
            count <= chars.len(),
            chars@ == line@,
            forall|j: int| 0 <= j < count ==> chars@[j] == '#',
        decreases chars.len() - count,
    {
        count = count + 1;
    }
    proof {
        lemma_leading_hashes(line@, count as int);
    }
    if count == 0 {
        return None;
    }
    let rest = rest_of_line(&chars, count);
    let (text, state) = match crate::comment::inline_parser::inline(rest.as_str(), formatting_state.as_slice()) {
        Some((text, state)) => {
            proof {
                let (parts, _) = spec_inline(rest@, formatting_state@)->0;
                lemma_inline_nodes_view(text@, parts);
            }
            (text, state)
        },
        None => {
            let nothing: Vec<Rcst> = Vec::new();
            assert(rcst_texts(nothing@) =~= Seq::<char>::empty());
            assert(inline_source(rest@) =~= Seq::<char>::empty());
            assert(rcst_views(nothing@) =~= Seq::<RcstView>::empty());
            (nothing, formatting_state)
        },
    };
    let rcst = Rcst::TitleLine { octothorpe_count: count, text };
    proof {
        assert(Seq::new(count as nat, |i: int| '#') =~= hashes(count as nat));
        assert(rest@ == line@.skip(leading_hash_count(line@) as int));
    }
    Some((rcst, state))
}

/// A line whose text is kept whole by its inline parts.
proof fn lemma_inline_keeps_line(line: Seq<char>)
    requires
        line.len() == 0 || line.last() != '\\',
    ensures
        inline_source(line) == line,
{
    if ends_in_lone_backslash(line) {
        lemma_lone_backslash_is_last(line);
    }
}

/// Taking all of the first line leaves an empty first line.
proof fn lemma_take_first_line(lines: Seq<Seq<char>>, remaining: Seq<Seq<char>>)
    requires
        lines.len() > 0,
        remaining == lines.drop_first(),
    ensures
        lines[0] + lines_text(seq![Seq::<char>::empty()] + remaining) == lines_text(lines),
        is_tail_of(seq![Seq::<char>::empty()] + remaining, lines),
        lines_measure(seq![Seq::<char>::empty()] + remaining) < lines_measure(lines)
            || lines[0].len() == 0,
        lines_measure(seq![Seq::<char>::empty()] + remaining) + lines[0].len() == lines_measure(
            lines,
        ),
{
    let count = lines[0].len() as int;
    lemma_take_from_first_line(lines, count);
    lemma_tail_skip_first(lines, count);
    assert(lines[0].skip(count) =~= Seq::<char>::empty());
    assert(lines[0].take(count) =~= lines[0]);
}

/// A title: lines starting with `#`, with whitespace and line breaks between
/// them. Inline formatting continues from one line to the next.
pub fn title(input: Vec<String>) -> (result: Option<(Vec<String>, Rcst)>)
    ensures
        match result {
            Some((rest, rcst)) => {
                &&& input.len() > 0 && input@[0]@.len() > 0 && input@[0]@[0] == '#'
                &&& rcst is Title
                &&& is_tail_of(string_views(rest@), string_views(input@))
                &&& rest.len() > 0
                &&& lines_measure(string_views(rest@)) < lines_measure(string_views(input@))
                &&& no_line_ends_in_backslash(string_views(input@)) ==> rcst.text() + lines_text(
                    string_views(rest@),
                ) == lines_text(string_views(input@))
            },
            None => !(input.len() > 0 && input@[0]@.len() > 0 && input@[0]@[0] == '#'),
        },
        match (result, spec_title(string_views(input@))) {
            (Some((rest, rcst)), Some((expected_rest, expected))) => string_views(rest@)
                == expected_rest && rcst@ == expected,
            (None, None) => true,
            _ => false,
        },
{
    let ghost original = string_views(input@);
    if input.len() == 0 {
        return None;
    }
    let (line, remaining) = split_first(input);
    let empty: Vec<InlineFormatting> = Vec::new();
    assert(empty@ =~= Seq::<InlineFormatting>::empty());
    let first = title_line(line.as_str(), empty);
    let (first_line, state) = match first {
        Some(found) => found,
        None => {
            return None;
        },
    };
    let mut title_lines: Vec<Rcst> = Vec::new();
    title_lines.push(first_line);
    let mut formatting_state = state;
    let mut input = recombine(String::new(), remaining);
    let ghost target = title_rounds(
        seq![Seq::<char>::empty()] + original.drop_first(),
        seq![rcst_view(first_line)],
        state@,
    );
    proof {
        lemma_take_first_line(original, original.drop_first());
        assert(string_views(input@) =~= seq![Seq::<char>::empty()] + original.drop_first());
        assert(line@ == original[0]);
        assert(rcst_views(title_lines@) =~= seq![rcst_view(first_line)]) by {
            assert(title_lines@.drop_last() =~= Seq::<Rcst>::empty());
            assert(title_lines@.last() == first_line);
            assert(rcst_views(Seq::<Rcst>::empty()) =~= Seq::<RcstView>::empty());
            assert(rcst_views(title_lines@) == rcst_views(title_lines@.drop_last()).push(
                rcst_view(title_lines@.last()),
            ));
        }
        lemma_rcst_texts_first(first_line, Seq::<Rcst>::empty());
        assert(seq![first_line] + Seq::<Rcst>::empty() =~= title_lines@);
        assert(rcst_texts(Seq::<Rcst>::empty()) =~= Seq::<char>::empty());
        assert(rcst_texts(title_lines@) =~= first_line.text());
        lemma_leading_hashes_prefix(line@);
        if no_line_ends_in_backslash(original) {
            assert(line@ == original[0]);
            assert(line@.skip(leading_hash_count(line@) as int).len() == 0 || line@.skip(
                leading_hash_count(line@) as int,
            ).last() == line@.last());
            lemma_inline_keeps_line(line@.skip(leading_hash_count(line@) as int));
            assert(line@.take(leading_hash_count(line@) as int) + line@.skip(
                leading_hash_count(line@) as int,
            ) =~= line@);
            lemma_leading_hashes_prefix(line@);
            assert(rcst_texts(title_lines@) == line@);
        }
    }
    loop
        invariant
            is_proper_formatting_state(formatting_state@),
            title_lines.len() > 0,
            is_tail_of(string_views(input@), original),
            input.len() > 0,
            lines_measure(string_views(input@)) < lines_measure(original),
            no_line_ends_in_backslash(original) ==> rcst_texts(title_lines@) + lines_text(
                string_views(input@),
            ) == lines_text(original),
            title_rounds(string_views(input@), rcst_views(title_lines@), formatting_state@)
                == target,
        ensures
            (string_views(input@), rcst_views(title_lines@)) == target,
        decreases lines_measure(string_views(input@)),
    {
        let ghost current = string_views(input@);
        let ghost lines_before = title_lines@;
        let (new_input, whitespace) = match whitespaces_and_newlines(clone_lines(&input), 0) {
            Some(found) => found,
            None => {
                break;
            },
        };
        let ghost after_whitespace = string_views(new_input@);
        let ghost expected_whitespace = match spec_whitespaces_and_newlines(current, 0) {
            Some((_, parts)) => parts,
            None => Seq::empty(),
        };
        proof {
            lemma_whitespace_parts_view(whitespace@, expected_whitespace);
            assert(after_whitespace[0] == new_input@[0]@);
        }
        let (line, remaining) = split_first(new_input);
        let state = clone_formattings(&formatting_state);
        let (new_title_line, new_state) = match title_line(line.as_str(), state) {
            Some(found) => found,
            None => {
                break;
            },
        };
        let previous = title_lines.pop().unwrap();
        let ghost before_lines = title_lines@;
        let wrapped = previous.wrap_in_whitespace(whitespace);
        title_lines.push(wrapped);
        title_lines.push(new_title_line);
        formatting_state = new_state;
        input = recombine(String::new(), remaining);
        proof {
            assert(lines_before =~= before_lines.push(previous));
            lemma_wrap_last_and_push(before_lines, previous, wrapped, whitespace@, new_title_line);
            assert(title_lines@ =~= before_lines.push(wrapped).push(new_title_line));
            lemma_take_first_line(after_whitespace, after_whitespace.drop_first());
            assert(string_views(input@) =~= seq![Seq::<char>::empty()]
                + after_whitespace.drop_first());
            lemma_tail_measure(after_whitespace, current);
        }
        proof {
            lemma_tail_transitive(after_whitespace, current, original);
            lemma_take_first_line(after_whitespace, after_whitespace.drop_first());
            assert(string_views(input@) =~= seq![Seq::<char>::empty()]
                + after_whitespace.drop_first());
            lemma_tail_transitive(string_views(input@), after_whitespace, original);
            lemma_rcst_texts_concat(before_lines, seq![wrapped, new_title_line]);
            assert(title_lines@ =~= before_lines + seq![wrapped, new_title_line]);
            lemma_rcst_texts_first(wrapped, seq![new_title_line]);
            lemma_rcst_texts_first(new_title_line, Seq::<Rcst>::empty());
            assert(seq![wrapped] + seq![new_title_line] =~= seq![wrapped, new_title_line]);
            assert(seq![new_title_line] + Seq::<Rcst>::empty() =~= seq![new_title_line]);
            if no_line_ends_in_backslash(original) {
                lemma_tail_keeps_backslash_free(after_whitespace, original);
                let count = leading_hash_count(line@) as int;
                lemma_leading_hashes_prefix(line@);
                assert(line@ == after_whitespace[0]);
                assert(line@.skip(count).len() == 0 || line@.skip(count).last() == line@.last());
                lemma_inline_keeps_line(line@.skip(count));
                assert(line@.take(count) + line@.skip(count) =~= line@);
                lemma_leading_hashes_prefix(line@);
                assert(new_title_line.text() == line@);
                assert(rcst_texts(title_lines@) + lines_text(string_views(input@)) =~= rcst_texts(
                    before_lines,
                ) + previous.text() + rcst_texts(whitespace@) + (line@ + lines_text(
                    string_views(input@),
                )));
            }
        }
    }
    proof {
        assert(spec_title(original) == Some((target.0, RcstView::Title(target.1))));
    }
    Some((input, Rcst::Title(title_lines)))
}

/// Adds parts at the end, keeping their texts in order.
fn append_all(parts: &mut Vec<Rcst>, more: Vec<Rcst>)
    ensures
        final(parts)@ == old(parts)@ + more@,
        rcst_texts(final(parts)@) == rcst_texts(old(parts)@) + rcst_texts(more@),
{
    proof {
        lemma_rcst_texts_concat(parts@, more@);
    }
    let mut more = more;
    parts.append(&mut more);
}

/// Adds whitespace after the last part, or as parts where there are none.
fn push_whitespace(parts: &mut Vec<Rcst>, whitespace: Vec<Rcst>)
    ensures
        rcst_texts(final(parts)@) == rcst_texts(old(parts)@) + rcst_texts(whitespace@),
        final(parts).len() >= old(parts).len(),
        old(parts).len() > 0 ==> final(parts).len() == old(parts).len(),
        rcst_views(final(parts)@) == push_whitespace_view(
            rcst_views(old(parts)@),
            rcst_views(whitespace@),
        ),
{
    let ghost before = parts@;
    let ghost spaces = whitespace@;
    match parts.pop() {
        Some(part) => {
            let wrapped = part.wrap_in_whitespace(whitespace);
            proof {
                assert(before.drop_last() =~= parts@);
                assert(rcst_texts(before) == rcst_texts(parts@) + part.text());
                lemma_rcst_texts_push_end(parts@, wrapped);
                assert(parts@.push(wrapped).drop_last() =~= parts@);
                if spaces.len() > 0 {
                    lemma_wrapped_view(wrapped, part, spaces);
                } else {
                    assert(rcst_views(spaces) =~= Seq::<RcstView>::empty());
                }
                assert(before =~= parts@.push(part));
                assert(rcst_views(before) == rcst_views(parts@).push(rcst_view(part)));
                assert(rcst_views(parts@.push(wrapped)) == rcst_views(parts@).push(
                    rcst_view(wrapped),
                ));
                assert(rcst_views(before).drop_last() =~= rcst_views(parts@));
            }
            parts.push(wrapped);
            proof {
                assert(rcst_texts(parts@.drop_last()) + part.text() + rcst_texts(whitespace@)
                    =~= rcst_texts(parts@.drop_last()) + (part.text() + rcst_texts(whitespace@)));
            }
        },
        None => {
            proof {
                lemma_rcst_views_concat(parts@, spaces);
            }
            append_all(parts, whitespace);
        },
    }
}

/// Adding a node at the end adds its text at the end.
proof fn lemma_rcst_texts_push_end(parts: Seq<Rcst>, part: Rcst)
    ensures
        rcst_texts(parts.push(part)) == rcst_texts(parts) + part.text(),
{
    assert(parts.push(part).drop_last() =~= parts);
}

/// The line break and indentation before a further line of a paragraph,
/// as values, and the lines after them.
pub open spec fn paragraph_break(lines: Seq<Seq<char>>, indentation: nat) -> Option<
    (Seq<Seq<char>>, Seq<RcstView>),
> {
    if !(lines.len() >= 2 && lines[0].len() == 0) {
        None
    } else if indentation == 0 {
        Some((lines.drop_first(), seq![RcstView::Newline]))
    } else {
        match spec_leading_indentation(lines.drop_first(), indentation) {
            Some((rest, whitespace, is_weird)) => Some(
                (
                    rest,
                    seq![
                        RcstView::Newline,
                        whitespace_part_view(
                            WhitespacePart::Whitespace(
                                whitespace,
                                is_weird,
                                RcstError::WeirdWhitespaceInIndentation,
                            ),
                        ),
                    ],
                ),
            ),
            None => None,
        }
    }
}

/// A further line of a paragraph: the line break and indentation before it
/// and its inline elements, continuing the formattings left open. Gives the
/// lines after it, the whitespace, the elements and the formattings still
/// open; nothing where there is no such line.
pub open spec fn paragraph_round(
    lines: Seq<Seq<char>>,
    indentation: nat,
    formatting_state: Seq<InlineFormatting>,
) -> Option<(Seq<Seq<char>>, Seq<RcstView>, Seq<RcstView>, Seq<InlineFormatting>)> {
    match paragraph_break(lines, indentation) {
        None => None,
        Some((after, whitespace)) => if after.len() == 0 {
            None
        } else {
            match spec_inline(after[0], formatting_state) {
                None => None,
                Some((parts, state)) => Some(
                    (
                        seq![Seq::<char>::empty()] + after.drop_first(),
                        whitespace,
                        inline_part_views(parts),
                        state,
                    ),
                ),
            }
        },
    }
}

/// Further lines of a paragraph, as long as there are any.
pub open spec fn paragraph_rounds(
    lines: Seq<Seq<char>>,
    indentation: nat,
    parts: Seq<RcstView>,
    formatting_state: Seq<InlineFormatting>,
) -> (Seq<Seq<char>>, Seq<RcstView>)
    decreases lines_measure(lines),
{
    match paragraph_round(lines, indentation, formatting_state) {
        None => (lines, parts),
        Some((next, whitespace, line_parts, state)) => if lines_measure(next) < lines_measure(
            lines,
        ) {
            paragraph_rounds(
                next,
                indentation,
                push_whitespace_view(parts, whitespace) + line_parts,
                state,
            )
        } else {
            (lines, parts)
        },
    }
}

/// What `paragraph` gives: the inline elements of the first line and of
/// the lines that follow it with the indentation, with the line breaks and
/// indentation between them; nothing where the first line is empty.
pub open spec fn spec_paragraph(lines: Seq<Seq<char>>, indentation: nat) -> Option<
    (Seq<Seq<char>>, RcstView),
> {
    if lines.len() == 0 {
        None
    } else {
        match spec_inline(lines[0], Seq::empty()) {
            None => None,
            Some((parts, state)) => {
                let (rest, all) = paragraph_rounds(
                    seq![Seq::<char>::empty()] + lines.drop_first(),
                    indentation,
                    inline_part_views(parts),
                    state,
                );
                Some((rest, RcstView::Paragraph(all)))
            },
        }
    }
}

/// A whitespace node has the value of its part.
proof fn lemma_whitespace_node_view(rcst: Rcst, text: Seq<char>, is_weird: bool, error: RcstError)
    requires
        is_whitespace_node(rcst, text, is_weird, error),
    ensures
        rcst_view(rcst) == whitespace_part_view(WhitespacePart::Whitespace(text, is_weird, error)),
{
    if is_weird {
        if let Rcst::Error { child: Some(child), .. } = rcst {
            assert(rcst_view(*child) == RcstView::Whitespace(text));
        }
    }
}

/// One further line of a paragraph, as `paragraph_round` says.
#[verifier::spinoff_prover]
#[verifier::rlimit(40)]
fn paragraph_round_exec(
    lines: &Vec<String>,
    indentation: usize,
    formatting_state: &Vec<InlineFormatting>,
) -> (result: Option<(Vec<String>, Vec<Rcst>, Vec<Rcst>, Vec<InlineFormatting>)>)
    requires
        is_proper_formatting_state(formatting_state@),
    ensures
        match (result, paragraph_round(string_views(lines@), indentation as nat, formatting_state@)) {
            (Some((next, whitespace, parts, state)), Some(expected)) => {
                &&& (string_views(next@), rcst_views(whitespace@), rcst_views(parts@), state@)
                    == expected
                &&& is_proper_formatting_state(state@)
                &&& is_tail_of(string_views(next@), string_views(lines@))
                &&& lines_measure(string_views(next@)) < lines_measure(string_views(lines@))
                &&& next.len() > 0
                &&& no_line_ends_in_backslash(string_views(lines@)) ==> rcst_texts(whitespace@)
                    + rcst_texts(parts@) + lines_text(string_views(next@)) == lines_text(
                    string_views(lines@),
                )
            },
            (None, None) => true,
            _ => false,
        },
{
    let ghost current = string_views(lines@);
    let (after_newline, line_break) = match newline(clone_lines(lines)) {
        Some(found) => found,
        None => {
            return None;
        },
    };
    let ghost after_break = string_views(after_newline@);
    let mut whitespace: Vec<Rcst> = Vec::new();
    whitespace.push(line_break);
    let mut new_input = after_newline;
    proof {
        lemma_drop_empty_line(current);
        lemma_tail_drop_first(current);
        lemma_measure_first(current[0], current.drop_first());
        assert(current =~= seq![current[0]] + current.drop_first());
        reveal_strlit("\n");
        assert(line_break.text() == seq!['\n']);
        lemma_rcst_texts_push_end(Seq::<Rcst>::empty(), line_break);
        assert(Seq::<Rcst>::empty().push(line_break) =~= whitespace@);
        assert(rcst_texts(Seq::<Rcst>::empty()) =~= Seq::<char>::empty());
        assert(rcst_texts(whitespace@) + lines_text(after_break) =~= lines_text(current));
        assert(whitespace@.drop_last() =~= Seq::<Rcst>::empty());
        assert(rcst_views(Seq::<Rcst>::empty()) =~= Seq::<RcstView>::empty());
        assert(rcst_views(whitespace@) == rcst_views(whitespace@.drop_last()).push(
            rcst_view(whitespace@.last()),
        ));
        assert(rcst_view(Rcst::Newline) == RcstView::Newline);
        assert(rcst_views(whitespace@) =~= seq![RcstView::Newline]);
    }
    if indentation > 0 {
        let (after_indentation, indentation_whitespace) = match leading_indentation(
            new_input,
            indentation,
        ) {
            Some(found) => found,
            None => {
                return None;
            },
        };
        proof {
            lemma_indentation_step_text(
                after_break,
                indentation as nat,
                indentation_whitespace,
                string_views(after_indentation@),
            );
            lemma_tail_transitive(string_views(after_indentation@), after_break, current);
            lemma_rcst_texts_push_end(whitespace@, indentation_whitespace);
            assert(rcst_texts(whitespace@) + indentation_whitespace.text() + lines_text(
                string_views(after_indentation@),
            ) =~= rcst_texts(whitespace@) + (indentation_whitespace.text() + lines_text(
                string_views(after_indentation@),
            )));
            let (_, text, is_weird) = spec_leading_indentation(after_break, indentation as nat)->0;
            lemma_whitespace_node_view(
                indentation_whitespace,
                text,
                is_weird,
                RcstError::WeirdWhitespaceInIndentation,
            );
            assert(whitespace@.push(indentation_whitespace).drop_last() =~= whitespace@);
        }
        whitespace.push(indentation_whitespace);
        new_input = after_indentation;
    }
    let ghost before_line = string_views(new_input@);
    proof {
        if indentation == 0 {
            lemma_tail_of_itself(after_break);
        }
    }
    if new_input.len() == 0 {
        return None;
    }
    assert(before_line[0] == new_input@[0]@);
    let (line, remaining) = split_first(new_input);
    let (line_text, new_state) = match crate::comment::inline_parser::inline(
        line.as_str(),
        formatting_state.as_slice(),
    ) {
        Some(found) => found,
        None => {
            return None;
        },
    };
    let next = recombine(String::new(), remaining);
    proof {
        let (expected_parts, _) = spec_inline(line@, formatting_state@)->0;
        lemma_inline_nodes_view(line_text@, expected_parts);
        lemma_take_first_line(before_line, before_line.drop_first());
        assert(string_views(next@) =~= seq![Seq::<char>::empty()] + before_line.drop_first());
        lemma_tail_transitive(before_line, after_break, current);
        lemma_tail_transitive(string_views(next@), before_line, current);
        lemma_tail_measure(before_line, after_break);
        if no_line_ends_in_backslash(current) {
            lemma_tail_keeps_backslash_free(before_line, current);
            assert(line@ == before_line[0]);
            lemma_inline_keeps_line(line@);
            assert(rcst_texts(whitespace@) + rcst_texts(line_text@) + lines_text(string_views(next@))
                =~= rcst_texts(whitespace@) + (line@ + lines_text(string_views(next@))));
        }
    }
    Some((next, whitespace, line_text, new_state))
}

/// A paragraph: inline elements over lines that follow each other, each but
/// the first indented by the given amount. Inline formatting continues from
/// one line to the next.
pub fn paragraph(input: Vec<String>, indentation: usize) -> (result: Option<(Vec<String>, Rcst)>)
    ensures
        match result {
            Some((rest, rcst)) => {
                &&& input.len() > 0 && input@[0]@.len() > 0
                &&& rcst is Paragraph
                &&& is_tail_of(string_views(rest@), string_views(input@))
                &&& rest.len() > 0
                &&& lines_measure(string_views(rest@)) < lines_measure(string_views(input@))
                &&& no_line_ends_in_backslash(string_views(input@)) ==> rcst.text() + lines_text(
                    string_views(rest@),
                ) == lines_text(string_views(input@))
            },
            None => !(input.len() > 0 && input@[0]@.len() > 0),
        },
        match (result, spec_paragraph(string_views(input@), indentation as nat)) {
            (Some((rest, rcst)), Some((expected_rest, expected))) => string_views(rest@)
                == expected_rest && rcst@ == expected,
            (None, None) => true,
            _ => false,
        },
{
    let ghost original = string_views(input@);
    if input.len() == 0 {
        return None;
    }
    assert(original[0] == input@[0]@);
    let (line, remaining) = split_first(input);
    let empty: Vec<InlineFormatting> = Vec::new();
    assert(empty@ =~= Seq::<InlineFormatting>::empty());
    let (first_parts, state) = match crate::comment::inline_parser::inline(
        line.as_str(),
        empty.as_slice(),
    ) {
        Some(found) => found,
        None => {
            return None;
        },
    };
    let mut parts: Vec<Rcst> = Vec::new();
    proof {
        assert(rcst_views(parts@) =~= Seq::<RcstView>::empty());
        lemma_rcst_views_concat(parts@, first_parts@);
        let (expected_parts, _) = spec_inline(line@, empty@)->0;
        lemma_inline_nodes_view(first_parts@, expected_parts);
    }
    append_all(&mut parts, first_parts);
    let mut formatting_state = state;
    let mut input = recombine(String::new(), remaining);
    let ghost target = paragraph_rounds(
        string_views(input@),
        indentation as nat,
        rcst_views(parts@),
        formatting_state@,
    );
    proof {
        lemma_take_first_line(original, original.drop_first());
        assert(string_views(input@) =~= seq![Seq::<char>::empty()] + original.drop_first());
        assert(rcst_texts(Seq::<Rcst>::empty()) =~= Seq::<char>::empty());
        assert(rcst_texts(parts@) =~= rcst_texts(first_parts@));
        assert(is_proper_formatting_state(empty@));
        if no_line_ends_in_backslash(original) {
            assert(line@ == original[0]);
            lemma_inline_keeps_line(line@);
        }
    }
    loop
        invariant
            is_proper_formatting_state(formatting_state@),
            parts.len() > 0,
            is_tail_of(string_views(input@), original),
            input.len() > 0,
            lines_measure(string_views(input@)) < lines_measure(original),
            no_line_ends_in_backslash(original) ==> rcst_texts(parts@) + lines_text(
                string_views(input@),
            ) == lines_text(original),
            paragraph_rounds(
                string_views(input@),
                indentation as nat,
                rcst_views(parts@),
                formatting_state@,
            ) == target,
        ensures
            (string_views(input@), rcst_views(parts@)) == target,
        decreases lines_measure(string_views(input@)),
    {
        let ghost current = string_views(input@);
        let (next, whitespace, line_text, new_state) = match paragraph_round_exec(
            &input,
            indentation,
            &formatting_state,
        ) {
            Some(found) => found,
            None => {
                break;
            },
        };
        let ghost parts_before = parts@;
        push_whitespace(&mut parts, whitespace);
        let ghost parts_with_whitespace = parts@;
        proof {
            lemma_rcst_views_concat(parts@, line_text@);
        }
        append_all(&mut parts, line_text);
        input = next;
        formatting_state = new_state;
        proof {
            lemma_tail_transitive(string_views(input@), current, original);
            if no_line_ends_in_backslash(original) {
                lemma_tail_keeps_backslash_free(current, original);
                assert(rcst_texts(parts@) + lines_text(string_views(input@)) =~= rcst_texts(
                    parts_before,
                ) + (rcst_texts(whitespace@) + rcst_texts(line_text@) + lines_text(
                    string_views(input@),
                )));
            }
        }
    }
    proof {
        assert(spec_paragraph(original, indentation as nat) == Some(
            (target.0, RcstView::Paragraph(target.1)),
        ));
    }
    Some((input, Rcst::Paragraph(parts)))
}

/// Whether three backticks start at a position.
pub open spec fn fence_at(text: Seq<char>, position: int) -> bool {
    0 <= position && position + 3 <= text.len() && text[position] == '`' && text[position + 1]
        == '`' && text[position + 2] == '`'
}

/// Whether a text holds three backticks in a row.
pub open spec fn has_fence(text: Seq<char>) -> bool {
    exists|position: int| fence_at(text, position)
}

/// Three backticks, which open and close a code block.
pub open spec fn fence() -> Seq<char> {
    seq!['`', '`', '`']
}

/// Two texts without three backticks in a row give none where they do not
/// meet with backticks on both sides.
proof fn lemma_no_fence_concat(a: Seq<char>, b: Seq<char>)
    requires
        !has_fence(a),
        !has_fence(b),
        a.len() == 0 || b.len() == 0 || a.last() != '`' || b[0] != '`',
    ensures
        !has_fence(a + b),
{
    if has_fence(a + b) {
        let j = choose|position: int| fence_at(a + b, position);
        if j + 3 <= a.len() {
            assert(fence_at(a, j));
        } else if j >= a.len() {
            assert(fence_at(b, j - a.len()));
        } else {
            assert((a + b)[a.len() - 1] == a.last());
            assert((a + b)[a.len() as int] == b[0]);
        }
    }
}

/// The position of the first three backticks in a row, if there are any.
fn find_fence(chars: &Vec<char>) -> (result: Option<usize>)
    ensures
        match result {
            Some(position) => fence_at(chars@, position as int) && forall|k: int|
                0 <= k < position ==> !fence_at(chars@, k),
            None => !has_fence(chars@),
        },
{
    let mut i: usize = 0;
    while i < chars.len() && chars.len() - i >= 3
        invariant
            i <= chars.len(),
            forall|k: int| 0 <= k < i ==> !fence_at(chars@, k),
        decreases chars.len() - i,
    {
        if chars[i] == '`' && chars[i + 1] == '`' && chars[i + 2] == '`' {
            return Some(i);
        }
        i = i + 1;
    }
    proof {
        if has_fence(chars@) {
            let j = choose|position: int| fence_at(chars@, position);
            assert(!fence_at(chars@, j));
        }
    }
    None
}

/// The lines from the given one on.
fn lines_from(lines: &Vec<String>, start: usize) -> (result: Vec<String>)
    requires
        start <= lines.len(),
    ensures
        string_views(result@) == string_views(lines@).skip(start as int),
{
    let mut result: Vec<String> = Vec::new();
    let mut i: usize = start;
    while i < lines.len()
        invariant
            start <= i <= lines.len(),
            string_views(result@) == string_views(lines@).subrange(start as int, i as int),
        decreases lines.len() - i,
    {
        let ghost before = result@;
        let line = lines[i].clone();
        assert(line@ == lines@[i as int]@);
        result.push(line);
        i = i + 1;
        assert(string_views(result@) =~= string_views(before).push(lines@[i - 1]@));
        assert(string_views(result@) =~= string_views(lines@).subrange(start as int, i as int));
    }
    assert(string_views(lines@).subrange(start as int, lines.len() as int) =~= string_views(
        lines@,
    ).skip(start as int));
    result
}

/// Splitting the first line at a position keeps the text of the lines.
proof fn lemma_split_first_line(first: Seq<char>, rest: Seq<Seq<char>>, position: int)
    requires
        0 <= position <= first.len(),
    ensures
        first.take(position) + lines_text(seq![first.skip(position)] + rest) == lines_text(
            seq![first] + rest,
        ),
{
    let lines = seq![first] + rest;
    assert(lines[0] == first);
    assert(lines.drop_first() =~= rest);
    lemma_take_from_first_line(lines, position);
}

/// The code before the first three backticks of a line holds none, and
/// adds none to code that ends in a line break.
proof fn lemma_code_before_fence(code: Seq<char>, line: Seq<char>, end: int)
    requires
        !has_fence(code),
        code.len() == 0 || code.last() == '\n',
        fence_at(line, end),
        forall|k: int| 0 <= k < end ==> !fence_at(line, k),
    ensures
        !has_fence(code + line.take(end)),
{
    if has_fence(line.take(end)) {
        let j = choose|position: int| fence_at(line.take(end), position);
        assert(fence_at(line, j));
    }
    lemma_no_fence_concat(code, line.take(end));
}

/// Closing backticks on a line end the code block: the code, the backticks
/// and the rest keep the text, and the rest is a shorter tail.
proof fn lemma_code_closed(
    all: Seq<Seq<char>>,
    k: int,
    offset: int,
    line: Seq<char>,
    end: int,
    code: Seq<char>,
)
    requires
        0 <= k < all.len(),
        0 <= offset <= all[k].len(),
        line == all[k].skip(offset),
        fence_at(line, end),
        fence() + code + lines_text(seq![line] + all.skip(k + 1)) == lines_text(all),
    ensures
        ({
            let rest = seq![line.skip(end + 3)] + all.skip(k + 1);
            &&& fence() + (code + line.take(end)) + fence() + lines_text(rest) == lines_text(all)
            &&& is_tail_of(rest, all)
            &&& lines_measure(rest) < lines_measure(all)
        }),
{
    let following = all.skip(k + 1);
    let rest = seq![line.skip(end + 3)] + following;
    lemma_split_first_line(line, following, end);
    lemma_split_first_line(line.skip(end), following, 3);
    assert(line.skip(end).take(3) =~= fence());
    assert(line.skip(end).skip(3) =~= line.skip(end + 3));
    assert(fence() + (code + line.take(end)) + fence() + lines_text(rest) =~= fence() + code + (
    line.take(end) + (fence() + lines_text(rest))));
    assert(all[k].skip(offset).skip(end + 3) =~= all[k].skip(offset + end + 3));
    lemma_measure_first(all[k].skip(offset + end + 3), following);
    lemma_measure_first(all[k], following);
    assert(all.skip(k) =~= seq![all[k]] + following);
    lemma_measure_skip(all, k);
}

/// A code block that is not closed by the last line takes all lines.
proof fn lemma_code_unclosed(all: Seq<Seq<char>>, line: Seq<char>, code: Seq<char>)
    requires
        all.len() > 0,
        fence() + code + lines_text(seq![line] + all.skip(all.len() as int)) == lines_text(all),
    ensures
        fence() + (code + line) + lines_text(Seq::<Seq<char>>::empty()) == lines_text(all),
        lines_measure(Seq::<Seq<char>>::empty()) < lines_measure(all),
{
    let following = all.skip(all.len() as int);
    assert(following =~= Seq::<Seq<char>>::empty());
    lemma_joined_first(line, following, "\n"@);
    assert(lines_text(Seq::<Seq<char>>::empty()) =~= Seq::<char>::empty());
    assert(fence() + (code + line) + lines_text(Seq::<Seq<char>>::empty()) =~= fence() + code
        + lines_text(seq![line] + following));
    assert(all =~= seq![all[0]] + all.skip(1));
    lemma_measure_first(all[0], all.skip(1));
}

/// A line of code that another line follows ends in a line break.
proof fn lemma_code_next_line(all: Seq<Seq<char>>, next: int, line: Seq<char>, code: Seq<char>)
    requires
        0 < next < all.len(),
        fence() + code + lines_text(seq![line] + all.skip(next)) == lines_text(all),
    ensures
        fence() + (code + line + seq!['\n']) + lines_text(seq![all[next].skip(0)] + all.skip(
            next + 1,
        )) == lines_text(all),
{
    let following = all.skip(next);
    assert(all[next].skip(0) =~= all[next]);
    assert(following =~= seq![all[next].skip(0)] + all.skip(next + 1));
    lemma_joined_first(line, following, "\n"@);
    reveal_strlit("\n");
    assert(fence() + (code + line + seq!['\n']) + lines_text(following) =~= fence() + code + (
    line + "\n"@ + lines_text(following)));
}

/// The first position at or after a start where three backticks start.
pub open spec fn first_fence_from(line: Seq<char>, start: int) -> Option<int>
    decreases line.len() - start,
{
    if start < 0 || start + 3 > line.len() {
        None
    } else if fence_at(line, start) {
        Some(start)
    } else {
        first_fence_from(line, start + 1)
    }
}

/// The first position where three backticks start; found by searching
/// from the start.
proof fn lemma_first_fence(line: Seq<char>, start: int, found: Option<int>)
    requires
        0 <= start,
        forall|k: int| 0 <= k < start ==> !fence_at(line, k),
        match found {
            Some(position) => start <= position && fence_at(line, position) && forall|k: int|
                0 <= k < position ==> !fence_at(line, k),
            None => !has_fence(line),
        },
    ensures
        first_fence_from(line, start) == found,
    decreases line.len() - start,
{
    if start + 3 > line.len() {
        if let Some(position) = found {
            assert(fence_at(line, position));
        }
    } else if fence_at(line, start) {
        if let Some(position) = found {
            if position > start {
                assert(!fence_at(line, start));
            }
        } else {
            assert(has_fence(line));
        }
    } else {
        if let Some(position) = found {
            assert(position != start);
        }
        lemma_first_fence(line, start + 1, found);
    }
}

/// The lines of a code block from a line on: text up to the first three
/// backticks, which close the block, or the whole line and, where another
/// line follows, a line break.
pub open spec fn code_rounds(
    lines: Seq<Seq<char>>,
    index: int,
    line: Seq<char>,
    code: Seq<RcstView>,
) -> (Seq<Seq<char>>, RcstView)
    decreases lines.len() - index,
{
    match first_fence_from(line, 0) {
        Some(end) => (
            seq![line.skip(end + 3)] + lines.skip(index + 1),
            RcstView::CodeBlock {
                code: if end > 0 {
                    code.push(RcstView::TextPart(line.take(end)))
                } else {
                    code
                },
                has_closing_backticks: true,
            },
        ),
        None => {
            let with_line = if line.len() > 0 {
                code.push(RcstView::TextPart(line))
            } else {
                code
            };
            if index < 0 || index + 1 >= lines.len() {
                (Seq::empty(), RcstView::CodeBlock { code: with_line, has_closing_backticks: false })
            } else {
                code_rounds(lines, index + 1, lines[index + 1], with_line.push(RcstView::Newline))
            }
        },
    }
}

/// What `code_block` gives: a code block where the first line starts with
/// three backticks, and nothing otherwise.
pub open spec fn spec_code_block(lines: Seq<Seq<char>>) -> Option<(Seq<Seq<char>>, RcstView)> {
    if lines.len() > 0 && lines[0].len() >= 3 && lines[0].take(3) == fence() {
        Some(code_rounds(lines, 0, lines[0].skip(3), Seq::empty()))
    } else {
        None
    }
}

/// Adding a node adds its value.
proof fn lemma_rcst_views_push(rcsts: Seq<Rcst>, rcst: Rcst)
    ensures
        rcst_views(rcsts.push(rcst)) == rcst_views(rcsts).push(rcst_view(rcst)),
{
    assert(rcsts.push(rcst).drop_last() =~= rcsts);
}

/// A code block: three backticks, then code over one or more lines, up to the
/// next three backticks, if there are any. The code holds no three backticks
/// in a row, and the block and the lines that are left keep the text of the
/// lines.
#[verifier::spinoff_prover]
#[verifier::rlimit(50)]
pub fn code_block(input: Vec<String>) -> (result: Option<(Vec<String>, Rcst)>)
    ensures
        match result {
            Some((rest, rcst)) => {
                &&& input.len() > 0 && input@[0]@.len() >= 3 && input@[0]@.take(3) == fence()
                &&& rcst matches Rcst::CodeBlock { code, has_closing_backticks } && !has_fence(
                    rcst_texts(code@),
                ) && (has_closing_backticks <==> rest.len() > 0)
                &&& rcst.text() + lines_text(string_views(rest@)) == lines_text(
                    string_views(input@),
                )
                &&& is_tail_of(string_views(rest@), string_views(input@))
                &&& lines_measure(string_views(rest@)) < lines_measure(string_views(input@))
            },
            None => !(input.len() > 0 && input@[0]@.len() >= 3 && input@[0]@.take(3) == fence()),
        },
        match (result, spec_code_block(string_views(input@))) {
            (Some((rest, rcst)), Some((expected_rest, expected))) => string_views(rest@)
                == expected_rest && rcst@ == expected,
            (None, None) => true,
            _ => false,
        },
{
    let ghost all = string_views(input@);
    if input.len() == 0 {
        return None;
    }
    let first = chars_of(input[0].as_str());
    if !(first.len() >= 3 && first[0] == '`' && first[1] == '`' && first[2] == '`') {
        proof {
            if input@[0]@.len() >= 3 && input@[0]@.take(3) == fence() {
                assert(input@[0]@.take(3)[0] == '`');
                assert(input@[0]@.take(3)[1] == '`');
                assert(input@[0]@.take(3)[2] == '`');
            }
        }
        return None;
    }
    proof {
        assert(input@[0]@.take(3) =~= fence());
    }
    let mut code: Vec<Rcst> = Vec::new();
    let mut line = chars_of(rest_of_line(&first, 3).as_str());
    let mut line_index: usize = 0;
    let ghost mut offset: int = 3;
    let mut has_closing_backticks = false;
    let mut rest: Vec<String> = Vec::new();
    let ghost target = code_rounds(all, 0, all[0].skip(3), Seq::empty());
    proof {
        assert(all[0] == first@);
        assert(rcst_views(code@) =~= Seq::<RcstView>::empty());
        lemma_split_first_line(all[0], all.skip(1), 3);
        assert(all =~= seq![all[0]] + all.skip(1));
        assert(first@.take(3) =~= fence());
        assert(rcst_texts(code@) =~= Seq::<char>::empty());
        assert(fence() + rcst_texts(code@) =~= fence());
        assert(!has_fence(Seq::<char>::empty()));
    }
    loop
        invariant_except_break
            line_index < input.len(),
            0 <= offset <= all[line_index as int].len(),
            line@ == all[line_index as int].skip(offset),
            line_index == 0 ==> offset == 3,
            line_index > 0 ==> offset == 0,
            fence() + rcst_texts(code@) + lines_text(
                seq![line@] + all.skip(line_index + 1),
            ) == lines_text(all),
            rcst_texts(code@).len() == 0 || rcst_texts(code@).last() == '\n',
            rest.len() == 0,
            !has_closing_backticks,
            code_rounds(all, line_index as int, line@, rcst_views(code@)) == target,
        invariant
            all == string_views(input@),
            input.len() > 0,
            all[0].len() >= 3,
            !has_fence(rcst_texts(code@)),
        ensures
            (string_views(rest@), RcstView::CodeBlock {
                code: rcst_views(code@),
                has_closing_backticks,
            }) == target,
            has_closing_backticks <==> rest.len() > 0,
            fence() + rcst_texts(code@) + (if has_closing_backticks {
                fence()
            } else {
                Seq::empty()
            }) + lines_text(string_views(rest@)) == lines_text(all),
            is_tail_of(string_views(rest@), all),
            lines_measure(string_views(rest@)) < lines_measure(all),
        decreases input.len() - line_index,
    {
        let ghost code_before = rcst_texts(code@);
        let ghost views_before = rcst_views(code@);
        let ghost following = all.skip(line_index + 1);
        let ghost old_line = line@;
        let found = find_fence(&line);
        proof {
            lemma_first_fence(line@, 0, match found {
                Some(position) => Some(position as int),
                None => None,
            });
        }
        match found {
            Some(end) => {
                let ghost rest_of_code_line = line@.skip(end + 3);
                if end > 0 {
                    let text = start_of_line(&line, end);
                    let part = Rcst::TextPart(text);
                    proof {
                        lemma_rcst_texts_push_end(code@, part);
                        lemma_rcst_views_push(code@, part);
                    }
                    code.push(part);
                }
                proof {
                    lemma_code_before_fence(code_before, line@, end as int);
                    if end == 0 {
                        assert(code_before =~= rcst_texts(code@));
                    }
                    assert(rcst_texts(code@) =~= code_before + line@.take(end as int));
                }
                has_closing_backticks = true;
                let remaining = lines_from(&input, line_index + 1);
                let tail = rest_of_line(&line, end + 3);
                rest = recombine(tail, remaining);
                proof {
                    lemma_code_closed(all, line_index as int, offset, line@, end as int, code_before);
                    assert(string_views(rest@) =~= seq![line@.skip(end + 3)] + following);
                }
                break;
            },
            None => {},
        }
        if line.len() > 0 {
            let text = string_from_chars(&line);
            let part = Rcst::TextPart(text);
            proof {
                lemma_rcst_texts_push_end(code@, part);
                lemma_no_fence_concat(code_before, line@);
                lemma_rcst_views_push(code@, part);
            }
            code.push(part);
        } else {
            assert(rcst_texts(code@) =~= code_before + line@);
        }
        line_index = line_index + 1;
        if input.len() <= line_index {
            proof {
                lemma_code_unclosed(all, line@, code_before);
                assert(string_views(rest@) =~= Seq::<Seq<char>>::empty());
            }
            break;
        }
        let line_break = Rcst::Newline;
        let ghost code_with_line = rcst_texts(code@);
        proof {
            lemma_rcst_texts_push_end(code@, line_break);
            lemma_rcst_views_push(code@, line_break);
            reveal_strlit("\n");
            assert(line_break.text() =~= seq!['\n']);
            assert(!has_fence(seq!['\n'])) by {
                if has_fence(seq!['\n']) {
                    let j = choose|position: int| fence_at(seq!['\n'], position);
                }
            }
            lemma_no_fence_concat(code_with_line, seq!['\n']);
        }
        code.push(line_break);
        line = chars_of(input[line_index].as_str());
        proof {
            offset = 0;
            assert(all[line_index as int].skip(0) =~= all[line_index as int]);
            lemma_code_next_line(all, line_index as int, old_line, code_before);
            assert(rcst_texts(code@) =~= code_before + old_line + seq!['\n']);
        }
    }
    proof {
        assert(Rcst::CodeBlock { code, has_closing_backticks }.text() =~= fence() + rcst_texts(
            code@,
        ) + (if has_closing_backticks {
            fence()
        } else {
            Seq::empty()
        }));
    }
    Some((rest, Rcst::CodeBlock { code, has_closing_backticks }))
}

/// What `url::Url::parse` makes of a text: the serialization of the URL, or
/// nothing where the text is no valid URL.
pub uninterp spec fn url_serialization(text: Seq<char>) -> Option<Seq<char>>;

/// Parses a URL.
///
/// Calls `url::Url::parse`. Where it succeeds, the result is the URL's
/// serialization (what `Url` displays as, taken by `String::from`); where it
/// fails, there is none. The contract names that outcome and says nothing
/// more of it.
#[verifier::external_body]
fn parse_url(text: &str) -> (result: Option<String>)
    ensures
        match result {
            Some(serialization) => url_serialization(text@) == Some(serialization@),
            None => url_serialization(text@) is None,
        },
{
    match url::Url::parse(text) {
        Ok(url) => Some(String::from(url)),
        Err(_) => None,
    }
}

/// Whether a line starts with `https://` or `http://`.
pub open spec fn starts_with_url_scheme(line: Seq<char>) -> bool {
    ||| line.len() >= 8 && line.take(8) == seq!['h', 't', 't', 'p', 's', ':', '/', '/']
    ||| line.len() >= 7 && line.take(7) == seq!['h', 't', 't', 'p', ':', '/', '/']
}

/// The number of characters before the first space or tab of a line.
pub open spec fn url_length(line: Seq<char>) -> nat
    decreases line.len(),
{
    if line.len() == 0 || line[0] == ' ' || line[0] == '\t' {
        0
    } else {
        1 + url_length(line.drop_first())
    }
}

proof fn lemma_url_length(line: Seq<char>, i: int)
    requires
        0 <= i <= line.len(),
        forall|j: int| 0 <= j < i ==> line[j] != ' ' && line[j] != '\t',
        i == line.len() || line[i] == ' ' || line[i] == '\t',
    ensures
        url_length(line) == i,
    decreases i,
{
    if i > 0 {
        lemma_url_length(line.drop_first(), i - 1);
    }
}

/// The node for a URL line: the URL where it is valid, and otherwise the
/// whole line marked as an invalid URL.
pub open spec fn is_url_node(rcst: Rcst, line: Seq<char>) -> bool {
    match url_serialization(line.take(url_length(line) as int)) {
        Some(serialization) => rcst matches Rcst::UrlLine(url) && url@ == serialization,
        None => rcst matches Rcst::Error { child: Some(child), error } && error
            == RcstError::UrlInvalid && (*child matches Rcst::TextPart(text) && text@ == line),
    }
}

/// A URL at the start of the first line, up to the first space or tab.
pub fn url_line(input: Vec<String>) -> (result: Option<(Vec<String>, Rcst)>)
    ensures
        match result {
            Some((rest, rcst)) => {
                let line = string_views(input@)[0];
                &&& input.len() > 0 && starts_with_url_scheme(line)
                &&& is_url_node(rcst, line)
                &&& string_views(rest@) == seq![line.skip(url_length(line) as int)]
                    + string_views(input@).drop_first()
            },
            None => !(input.len() > 0 && starts_with_url_scheme(input@[0]@)),
        },
{
    if input.len() == 0 {
        return None;
    }
    let ghost all = string_views(input@);
    let (line, remaining) = split_first(input);
    let is_https = crate::text::str_starts_with(line.as_str(), "https://");
    let is_http = crate::text::str_starts_with(line.as_str(), "http://");
    proof {
        reveal_strlit("https://");
        reveal_strlit("http://");
        assert("https://"@ =~= seq!['h', 't', 't', 'p', 's', ':', '/', '/']);
        assert("http://"@ =~= seq!['h', 't', 't', 'p', ':', '/', '/']);
        assert(line@ == all[0]);
    }
    if !is_https && !is_http {
        return None;
    }
    let chars = chars_of(line.as_str());
    let mut end: usize = 0;
    while end < chars.len() && chars[end] != ' ' && chars[end] != '\t'
        invariant
            end <= chars.len(),
            chars@ == line@,
            forall|j: int| 0 <= j < end ==> chars@[j] != ' ' && chars@[j] != '\t',
        decreases chars.len() - end,
    {
        end = end + 1;
    }
    proof {
        lemma_url_length(line@, end as int);
    }
    let url_text = start_of_line(&chars, end);
    let rcst = match parse_url(url_text.as_str()) {
        Some(serialization) => Rcst::UrlLine(serialization),
        None => Rcst::Error {
            child: Some(Box::new(Rcst::TextPart(line))),
            error: RcstError::UrlInvalid,
        },
    };
    let tail = rest_of_line(&chars, end);
    let rest = recombine(tail, remaining);
    Some((rest, rcst))
}

/// The value of the node for a URL line.
pub open spec fn url_view(line: Seq<char>) -> RcstView {
    match url_serialization(line.take(url_length(line) as int)) {
        Some(serialization) => RcstView::UrlLine(serialization),
        None => RcstView::Error {
            child: Some(Box::new(RcstView::TextPart(line))),
            error: RcstError::UrlInvalid,
        },
    }
}

/// A URL node has the value of the URL line.
proof fn lemma_url_node_view(rcst: Rcst, line: Seq<char>)
    requires
        is_url_node(rcst, line),
    ensures
        rcst_view(rcst) == url_view(line),
{
    if let Rcst::Error { child: Some(child), .. } = rcst {
        assert(rcst_view(*child) == RcstView::TextPart(line));
    }
}

/// What `url_line` gives: the URL that starts the first line, and the lines
/// after it.
pub open spec fn spec_url_line(lines: Seq<Seq<char>>) -> Option<(Seq<Seq<char>>, RcstView)> {
    if lines.len() > 0 && starts_with_url_scheme(lines[0]) {
        Some(
            (
                seq![lines[0].skip(url_length(lines[0]) as int)] + lines.drop_first(),
                url_view(lines[0]),
            ),
        )
    } else {
        None
    }
}

/// Further URLs after whitespace and line breaks, as long as there are any.
pub open spec fn urls_rounds(lines: Seq<Seq<char>>, urls: Seq<RcstView>) -> (
    Seq<Seq<char>>,
    Seq<RcstView>,
)
    decreases lines_measure(lines),
{
    match spec_whitespaces_and_newlines(lines, 0) {
        None => (lines, urls),
        Some((after, whitespace)) => match spec_url_line(after) {
            None => (lines, urls),
            Some((next, url)) => if lines_measure(next) < lines_measure(lines) {
                urls_rounds(
                    next,
                    push_whitespace_view(urls, whitespace_part_views(whitespace)).push(url),
                )
            } else {
                (lines, urls)
            },
        },
    }
}

/// What `urls` gives: URL lines, one after the other with whitespace and
/// line breaks between them; nothing where the first line is no URL line.
pub open spec fn spec_urls(lines: Seq<Seq<char>>) -> Option<(Seq<Seq<char>>, RcstView)> {
    match spec_url_line(lines) {
        None => None,
        Some((rest, first)) => {
            let (rest, urls) = urls_rounds(rest, seq![first]);
            Some((rest, RcstView::Urls(urls)))
        },
    }
}

/// URLs, one per line, with whitespace and line breaks between them.
pub fn urls(input: Vec<String>) -> (result: Option<(Vec<String>, Rcst)>)
    ensures
        match result {
            Some((rest, rcst)) => {
                &&& input.len() > 0 && starts_with_url_scheme(input@[0]@)
                &&& rcst is Urls
                &&& is_tail_of(string_views(rest@), string_views(input@))
                &&& rest.len() > 0
                &&& lines_measure(string_views(rest@)) < lines_measure(string_views(input@))
            },
            None => !(input.len() > 0 && starts_with_url_scheme(input@[0]@)),
        },
        match (result, spec_urls(string_views(input@))) {
            (Some((rest, rcst)), Some((expected_rest, expected))) => string_views(rest@)
                == expected_rest && rcst@ == expected,
            (None, None) => true,
            _ => false,
        },
{
    let ghost original = string_views(input@);
    proof {
        if input.len() > 0 {
            assert(original[0] == input@[0]@);
        }
    }
    let (first_rest, first_url) = match url_line(input) {
        Some(found) => found,
        None => {
            return None;
        },
    };
    proof {
        lemma_url_line_progress(original, string_views(first_rest@));
        lemma_url_node_view(first_url, original[0]);
    }
    let mut found: Vec<Rcst> = Vec::new();
    found.push(first_url);
    let mut input = first_rest;
    let ghost target = urls_rounds(string_views(input@), seq![rcst_view(first_url)]);
    proof {
        lemma_rcst_views_push(Seq::<Rcst>::empty(), first_url);
        assert(Seq::<Rcst>::empty().push(first_url) =~= found@);
        assert(rcst_views(Seq::<Rcst>::empty()) =~= Seq::<RcstView>::empty());
        assert(rcst_views(found@) =~= seq![rcst_view(first_url)]);
    }
    loop
        invariant
            found.len() > 0,
            is_tail_of(string_views(input@), original),
            input.len() > 0,
            lines_measure(string_views(input@)) < lines_measure(original),
            urls_rounds(string_views(input@), rcst_views(found@)) == target,
        ensures
            (string_views(input@), rcst_views(found@)) == target,
        decreases lines_measure(string_views(input@)),
    {
        let ghost current = string_views(input@);
        let ghost found_before = found@;
        let (after_whitespace, whitespace) = match whitespaces_and_newlines(clone_lines(&input), 0) {
            Some(found) => found,
            None => {
                break;
            },
        };
        let ghost middle = string_views(after_whitespace@);
        let ghost expected_whitespace = match spec_whitespaces_and_newlines(current, 0) {
            Some((_, parts)) => parts,
            None => Seq::empty(),
        };
        proof {
            lemma_whitespace_parts_view(whitespace@, expected_whitespace);
            if after_whitespace.len() > 0 {
                assert(middle[0] == after_whitespace@[0]@);
            }
        }
        let (new_input, url) = match url_line(after_whitespace) {
            Some(found) => found,
            None => {
                break;
            },
        };
        proof {
            lemma_url_line_progress(middle, string_views(new_input@));
            lemma_tail_transitive(string_views(new_input@), middle, current);
            lemma_tail_transitive(string_views(new_input@), current, original);
            lemma_url_node_view(url, middle[0]);
            lemma_tail_measure(middle, current);
        }
        input = new_input;
        let previous = found.pop().unwrap();
        let ghost before = found@;
        let wrapped = previous.wrap_in_whitespace(whitespace);
        found.push(wrapped);
        found.push(url);
        proof {
            assert(found_before =~= before.push(previous));
            lemma_wrap_last_and_push(before, previous, wrapped, whitespace@, url);
            assert(found@ =~= before.push(wrapped).push(url));
        }
    }
    proof {
        assert(spec_urls(original) == Some((target.0, RcstView::Urls(target.1))));
    }
    Some((input, Rcst::Urls(found)))
}

/// A URL line takes the URL scheme at least, and leaves a tail.
proof fn lemma_url_line_progress(lines: Seq<Seq<char>>, rest: Seq<Seq<char>>)
    requires
        lines.len() > 0,
        starts_with_url_scheme(lines[0]),
        rest == seq![lines[0].skip(url_length(lines[0]) as int)] + lines.drop_first(),
    ensures
        is_tail_of(rest, lines),
        lines_measure(rest) < lines_measure(lines),
        rest.len() > 0,
{
    let line = lines[0];
    lemma_url_length_bound(line);
    assert(url_length(line) >= 7) by {
        lemma_url_length_of_scheme(line);
    }
    lemma_tail_skip_first(lines, url_length(line) as int);
    lemma_measure_first(line.skip(url_length(line) as int), lines.drop_first());
    lemma_measure_first(line, lines.drop_first());
    assert(lines =~= seq![line] + lines.drop_first());
}

proof fn lemma_url_length_bound(line: Seq<char>)
    ensures
        url_length(line) <= line.len(),
    decreases line.len(),
{
    if !(line.len() == 0 || line[0] == ' ' || line[0] == '\t') {
        lemma_url_length_bound(line.drop_first());
    }
}

/// A URL scheme holds no space or tab, so the URL is at least as long.
proof fn lemma_url_length_of_scheme(line: Seq<char>)
    requires
        starts_with_url_scheme(line),
    ensures
        url_length(line) >= 7,
{
    assert forall|j: int| 0 <= j < 7 implies line[j] != ' ' && line[j] != '\t' by {
        assert(line.take(7)[j] == line[j]);
    }
    lemma_url_length_at_least(line, 7);
}

/// Characters other than spaces and tabs at the start count towards the URL.
proof fn lemma_url_length_at_least(line: Seq<char>, count: int)
    requires
        0 <= count <= line.len(),
        forall|j: int| 0 <= j < count ==> line[j] != ' ' && line[j] != '\t',
    ensures
        url_length(line) >= count,
    decreases count,
{
    if count > 0 {
        lemma_url_length_at_least(line.drop_first(), count - 1);
    }
}

/// The kinds of lists: with dashes, or with numbers.
#[derive(Clone, Copy, Debug, PartialEq, Eq, Structural, Hash)]
pub enum ListType {
    Unordered,
    Ordered,
}

/// Whether a line starts with the marker of an item of an unordered list.
pub open spec fn has_unordered_marker(line: Seq<char>) -> bool {
    line.len() > 0 && line[0] == '-'
}

/// The marker of an unordered list item: a dash and maybe a space. Gives
/// the rest of the line, the marker and how much it indents the item.
pub fn unordered_list_item_marker(line: &str) -> (result: Option<
    (String, RcstListItemMarker, usize),
>)
    ensures
        match result {
            Some((rest, marker, extra_indentation)) => {
                let has_trailing_space = line@.len() >= 2 && line@[1] == ' ';
                &&& has_unordered_marker(line@)
                &&& marker == RcstListItemMarker::Unordered { has_trailing_space }
                &&& extra_indentation == marker_text(marker).len()
                &&& marker_text(marker) + rest@ == line@
                &&& rest@ == line@.skip(extra_indentation as int)
            },
            None => !has_unordered_marker(line@),
        },
{
    let chars = chars_of(line);
    if chars.len() == 0 || chars[0] != '-' {
        return None;
    }
    let has_trailing_space = chars.len() >= 2 && chars[1] == ' ';
    let extra_indentation: usize = if has_trailing_space { 2 } else { 1 };
    let rest = rest_of_line(&chars, extra_indentation);
    let marker = RcstListItemMarker::Unordered { has_trailing_space };
    proof {
        assert(marker_text(marker) =~= chars@.take(extra_indentation as int));
        assert(chars@.take(extra_indentation as int) + chars@.skip(extra_indentation as int)
            =~= chars@);
    }
    Some((rest, marker, extra_indentation))
}

/// The number of ASCII digits that a line starts with.
pub open spec fn leading_digit_count(line: Seq<char>) -> nat
    decreases line.len(),
{
    if line.len() > 0 && '0' <= line[0] && line[0] <= '9' {
        1 + leading_digit_count(line.drop_first())
    } else {
        0
    }
}

proof fn lemma_leading_digits(line: Seq<char>, i: int)
    requires
        0 <= i <= line.len(),
        forall|j: int| 0 <= j < i ==> '0' <= line[j] && line[j] <= '9',
        i == line.len() || !('0' <= line[i] && line[i] <= '9'),
    ensures
        leading_digit_count(line) == i,
    decreases i,
{
    if i > 0 {
        lemma_leading_digits(line.drop_first(), i - 1);
    }
}

/// Whether a line starts with the marker of an item of an ordered list:
/// digits, maybe spaces and tabs, and a dot.
pub open spec fn has_ordered_marker(line: Seq<char>) -> bool {
    let digits = leading_digit_count(line);
    let whitespace = leading_whitespace_length(line.skip(digits as int));
    digits > 0 && digits + whitespace < line.len() && line[(digits + whitespace) as int] == '.'
}

/// The marker of an ordered list item: a number, maybe whitespace after it,
/// a dot and maybe a space. Gives the rest of the line, the marker and how
/// much it indents the item.
#[verifier::spinoff_prover]
#[verifier::rlimit(30)]
pub fn ordered_list_item_marker(line: &str) -> (result: Option<
    (String, RcstListItemMarker, usize),
>)
    ensures
        match result {
            Some((rest, marker, extra_indentation)) => {
                &&& has_ordered_marker(line@)
                &&& marker is Ordered
                &&& extra_indentation == marker_text(marker).len()
                &&& marker_text(marker) + rest@ == line@
                &&& rest@ == line@.skip(extra_indentation as int)
            },
            None => !has_ordered_marker(line@),
        },
        match (result, spec_ordered_marker(line@)) {
            (Some((rest, marker, extra)), Some((expected_rest, expected, expected_extra))) => {
                &&& rest@ == expected_rest
                &&& marker_view(marker) == expected
                &&& extra == expected_extra
            },
            (None, None) => true,
            _ => false,
        },
{
    let chars = chars_of(line);
    let mut digits: usize = 0;
    while digits < chars.len() && '0' <= chars[digits] && chars[digits] <= '9'
        invariant
            digits <= chars.len(),
            chars@ == line@,
            forall|j: int| 0 <= j < digits ==> '0' <= chars@[j] && chars@[j] <= '9',
        decreases chars.len() - digits,
    {
        digits = digits + 1;
    }
    proof {
        lemma_leading_digits(line@, digits as int);
    }
    if digits == 0 {
        return None;
    }
    let (number, after_whitespace) = number_and_whitespace(line, &chars, digits);
    let rest_chars = chars_of(after_whitespace.as_str());
    let ghost whitespace_length = leading_whitespace_length(line@.skip(digits as int));
    if rest_chars.len() == 0 || rest_chars[0] != '.' {
        return None;
    }
    let has_trailing_space = rest_chars.len() >= 2 && rest_chars[1] == ' ';
    let skipped: usize = if has_trailing_space { 2 } else { 1 };
    let rest = rest_of_line(&rest_chars, skipped);
    let number_length = digits + (chars.len() - digits - rest_chars.len());
    let extra_indentation = number_length + skipped;
    let marker = RcstListItemMarker::Ordered { number: Box::new(number), has_trailing_space };
    proof {
        assert(number_length == digits + whitespace_length);
        assert(marker_text(marker) =~= line@.take(extra_indentation as int));
        assert(line@.take(extra_indentation as int) + line@.skip(extra_indentation as int)
            =~= line@);
        assert(rest@ =~= line@.skip(extra_indentation as int));
    }
    Some((rest, marker, extra_indentation))
}

/// The number that starts a line, with the whitespace after it as its
/// trailing whitespace, and what follows them.
fn number_and_whitespace(line: &str, chars: &Vec<char>, digits: usize) -> (result: (Rcst, String))
    requires
        0 < digits <= chars.len(),
        chars@ == line@,
    ensures
        rcst_view(result.0) == number_with_whitespace(line@, digits as int).0,
        result.1@ == number_with_whitespace(line@, digits as int).1,
        result.0.text() == line@.take(
            digits + leading_whitespace_length(line@.skip(digits as int)),
        ),
        result.1@ == line@.skip(digits + leading_whitespace_length(line@.skip(digits as int))),
        digits + leading_whitespace_length(line@.skip(digits as int)) <= line@.len(),
{
    let after_number = rest_of_line(chars, digits);
    let number_text = start_of_line(&chars, digits);
    let mut number = Rcst::TextPart(number_text);
    let mut after_whitespace = after_number;
    let ghost whitespace_length = leading_whitespace_length(line@.skip(digits as int));
    let mut single_line: Vec<String> = Vec::new();
    single_line.push(clone_string(&after_whitespace));
    proof {
        assert(string_views(single_line@) =~= seq![line@.skip(digits as int)]);
        assert(number.text() == line@.take(digits as int));
    }
    match single_line_whitespace(single_line) {
        Some((rest_lines, whitespace)) => {
            let (rest_line, _) = split_first(rest_lines);
            proof {
                let (_, text, is_weird) = spec_single_line_whitespace(
                    seq![line@.skip(digits as int)],
                )->0;
                assert(text == line@.skip(digits as int).take(whitespace_length as int));
                lemma_whitespace_node_is_text(whitespace, text, is_weird);
            }
            let mut trailing: Vec<Rcst> = Vec::new();
            trailing.push(whitespace);
            proof {
                assert(trailing@ =~= Seq::<Rcst>::empty().push(whitespace));
                lemma_rcst_texts_push_end(Seq::<Rcst>::empty(), whitespace);
                assert(rcst_texts(Seq::<Rcst>::empty()) =~= Seq::<char>::empty());
                let (_, text, is_weird) = spec_single_line_whitespace(
                    seq![line@.skip(digits as int)],
                )->0;
                lemma_whitespace_node_view(whitespace, text, is_weird, RcstError::WeirdWhitespace);
                lemma_rcst_views_push(Seq::<Rcst>::empty(), whitespace);
                assert(rcst_views(Seq::<Rcst>::empty()) =~= Seq::<RcstView>::empty());
                assert(rcst_views(trailing@) =~= seq![
                    whitespace_part_view(
                        WhitespacePart::Whitespace(text, is_weird, RcstError::WeirdWhitespace),
                    ),
                ]);
                assert(number_text@ =~= line@.take(digits as int));
                assert(rcst_view(number) == RcstView::TextPart(line@.take(digits as int)));
            }
            number = Rcst::TrailingWhitespace { child: Box::new(number), whitespace: trailing };
            after_whitespace = rest_line;
            proof {
                assert(rcst_view(number) == number_with_whitespace(line@, digits as int).0);
            }
        },
        None => {
            proof {
                assert(whitespace_length == 0);
            }
        },
    }
    proof {
        lemma_whitespace_prefix(line@.skip(digits as int));
        assert(line@.skip(digits as int).skip(whitespace_length as int) =~= line@.skip(
            digits + whitespace_length,
        ));
        assert(after_whitespace@ == line@.skip(digits + whitespace_length));
        assert(line@.skip(digits as int).take(whitespace_length as int) =~= line@.subrange(
            digits as int,
            digits + whitespace_length,
        ));
        assert(number.text() =~= line@.take(digits + whitespace_length));
    }
    (number, after_whitespace)
}

/// A copy of a string.
fn clone_string(text: &String) -> (result: String)
    ensures
        result@ == text@,
{
    text.clone()
}

/// A whitespace node has the whitespace as its text.
proof fn lemma_whitespace_node_is_text(rcst: Rcst, text: Seq<char>, is_weird: bool)
    requires
        is_whitespace_node(rcst, text, is_weird, WhitespaceError::WeirdWhitespace),
    ensures
        rcst.text() == text,
{
    if is_weird {
        if let Rcst::Error { child: Some(child), .. } = rcst {
            assert(rcst.text() == child.text());
        }
    }
}

/// The leading whitespace of a line is at most as long as the line.
proof fn lemma_whitespace_prefix(line: Seq<char>)
    ensures
        leading_whitespace_length(line) <= line.len(),
    decreases line.len(),
{
    if line.len() > 0 && (line[0] == ' ' || line[0] == '\t') {
        lemma_whitespace_prefix(line.drop_first());
    }
}

/// Whether a URL (`http://` or `https://`) starts at a position of a line.
pub open spec fn url_separator_at(line: Seq<char>, position: int) -> bool {
    0 <= position <= line.len() && starts_with_url_scheme(line.skip(position))
}

/// Whether a URL starts anywhere in a line: whatever a top-level block may
/// start with after some of the line, a URL line among them.
pub open spec fn holds_url_separator(line: Seq<char>) -> bool {
    exists|position: int| url_separator_at(line, position)
}

/// Whether no line holds `http://` or `https://`.
pub open spec fn no_line_holds_url(lines: Seq<Seq<char>>) -> bool {
    forall|i: int| 0 <= i < lines.len() ==> !holds_url_separator(lines[i])
}

/// What is left of lines without a URL holds none either.
proof fn lemma_tail_keeps_url_free(rest: Seq<Seq<char>>, lines: Seq<Seq<char>>)
    requires
        is_tail_of(rest, lines),
        no_line_holds_url(lines),
    ensures
        no_line_holds_url(rest),
{
    if rest.len() > 0 {
        let (k, j) = choose|k: int, j: int|
            0 <= k < lines.len() && 0 <= j <= lines[k].len() && rest == seq![lines[k].skip(j)]
                + lines.skip(k + 1);
        assert forall|i: int| 0 <= i < rest.len() implies !holds_url_separator(rest[i]) by {
            if i == 0 {
                if holds_url_separator(rest[0]) {
                    let p = choose|p: int| url_separator_at(rest[0], p);
                    assert(lines[k].skip(j).skip(p) =~= lines[k].skip(j + p));
                    assert(url_separator_at(lines[k], j + p));
                }
            } else {
                assert(rest[i] == lines[k + i]);
            }
        }
    }
}

/// A line that starts with a URL holds one.
proof fn lemma_scheme_holds_separator(line: Seq<char>)
    requires
        starts_with_url_scheme(line),
    ensures
        holds_url_separator(line),
{
    assert(line.skip(0) =~= line);
    assert(url_separator_at(line, 0));
}

/// Taking a marker from the first line: its text and what is left keep the
/// text of the lines, and what is left is a tail that is shorter by the
/// marker.
proof fn lemma_take_marker(lines: Seq<Seq<char>>, marker: Seq<char>, rest_of_line: Seq<char>)
    requires
        lines.len() > 0,
        marker + rest_of_line == lines[0],
        rest_of_line == lines[0].skip(marker.len() as int),
    ensures
        marker + lines_text(seq![rest_of_line] + lines.drop_first()) == lines_text(lines),
        is_tail_of(seq![rest_of_line] + lines.drop_first(), lines),
        lines_measure(seq![rest_of_line] + lines.drop_first()) + marker.len() == lines_measure(
            lines,
        ),
{
    let count = marker.len() as int;
    assert(lines[0].take(count) =~= marker);
    lemma_take_from_first_line(lines, count);
    lemma_tail_skip_first(lines, count);
}

/// The number that starts a line, with the whitespace after it, and what
/// follows them.
pub open spec fn number_with_whitespace(line: Seq<char>, digits: int) -> (RcstView, Seq<char>) {
    let after_number = line.skip(digits);
    match spec_single_line_whitespace(seq![after_number]) {
        Some((rest, text, is_weird)) => (
            RcstView::TrailingWhitespace {
                child: Box::new(RcstView::TextPart(line.take(digits))),
                whitespace: seq![
                    whitespace_part_view(
                        WhitespacePart::Whitespace(text, is_weird, RcstError::WeirdWhitespace),
                    ),
                ],
            },
            rest[0],
        ),
        None => (RcstView::TextPart(line.take(digits)), after_number),
    }
}

/// What `ordered_list_item_marker` gives: the rest of the line, the marker's
/// value and how much it indents; nothing where the line has no such marker.
pub open spec fn spec_ordered_marker(line: Seq<char>) -> Option<(Seq<char>, MarkerView, nat)> {
    let digits = leading_digit_count(line) as int;
    if digits == 0 {
        None
    } else {
        let (number, after_whitespace) = number_with_whitespace(line, digits);
        if after_whitespace.len() == 0 || after_whitespace[0] != '.' {
            None
        } else {
            let has_trailing_space = after_whitespace.len() >= 2 && after_whitespace[1] == ' ';
            let skipped: int = if has_trailing_space {
                2
            } else {
                1
            };
            Some(
                (
                    after_whitespace.skip(skipped),
                    MarkerView::Ordered { number: Box::new(number), has_trailing_space },
                    (line.len() - after_whitespace.len() + skipped) as nat,
                ),
            )
        }
    }
}

/// What `list_item_marker` gives: the marker of the given list type (or of
/// either, a dash first), the rest of the line, how much the marker indents
/// and the type found.
pub open spec fn spec_list_item_marker(line: Seq<char>, list_type: Option<ListType>) -> Option<
    (Seq<char>, MarkerView, nat, ListType),
> {
    let allows_unordered = list_type is None || list_type == Some(ListType::Unordered);
    let allows_ordered = list_type is None || list_type == Some(ListType::Ordered);
    if allows_unordered && has_unordered_marker(line) {
        let has_trailing_space = line.len() >= 2 && line[1] == ' ';
        let extra: nat = if has_trailing_space {
            2
        } else {
            1
        };
        Some(
            (
                line.skip(extra as int),
                MarkerView::Unordered { has_trailing_space },
                extra,
                ListType::Unordered,
            ),
        )
    } else if allows_ordered {
        match spec_ordered_marker(line) {
            Some((rest, marker, extra)) => Some((rest, marker, extra, ListType::Ordered)),
            None => None,
        }
    } else {
        None
    }
}

/// What `list_item` gives: the marker and, where there are any, the blocks
/// after it, indented by the marker.
pub open spec fn spec_list_item(
    lines: Seq<Seq<char>>,
    indentation: nat,
    list_type: Option<ListType>,
) -> Option<(Seq<Seq<char>>, RcstView, ListType)>
    decreases lines_measure(lines), 0nat,
{
    if lines.len() == 0 {
        None
    } else {
        match spec_list_item_marker(lines[0], list_type) {
            None => None,
            Some((rest_of_line, marker, extra, found_type)) => {
                let after = seq![rest_of_line] + lines.drop_first();
                if lines_measure(after) < lines_measure(lines) {
                    match spec_blocks(after, indentation + extra) {
                        Some((rest, content)) => Some(
                            (rest, RcstView::ListItem { marker, content }, found_type),
                        ),
                        None => Some(
                            (after, RcstView::ListItem { marker, content: Seq::empty() }, found_type),
                        ),
                    }
                } else {
                    None
                }
            },
        }
    }
}

/// Further items of a list after whitespace, line breaks and the
/// indentation, as long as there are any of the list's type.
pub open spec fn list_rounds(
    lines: Seq<Seq<char>>,
    indentation: nat,
    items: Seq<RcstView>,
    list_type: ListType,
) -> (Seq<Seq<char>>, Seq<RcstView>)
    decreases lines_measure(lines), 1nat,
{
    match spec_whitespaces_and_newlines(lines, indentation) {
        None => (lines, items),
        Some((after, whitespace)) => if lines_measure(after) <= lines_measure(lines) {
            match spec_list_item(after, indentation, Some(list_type)) {
                None => (lines, items),
                Some((next, item, _)) => if lines_measure(next) < lines_measure(lines) {
                    list_rounds(
                        next,
                        indentation,
                        push_whitespace_view(items, whitespace_part_views(whitespace)).push(item),
                        list_type,
                    )
                } else {
                    (lines, items)
                },
            }
        } else {
            (lines, items)
        },
    }
}

/// What `list` gives: items of one type, with whitespace, line breaks and
/// the indentation between them.
pub open spec fn spec_list(lines: Seq<Seq<char>>, indentation: nat) -> Option<
    (Seq<Seq<char>>, RcstView),
>
    decreases lines_measure(lines), 2nat,
{
    match spec_list_item(lines, indentation, None) {
        None => None,
        Some((rest, first, list_type)) => if lines_measure(rest) < lines_measure(lines) {
            let (rest, items) = list_rounds(rest, indentation, seq![first], list_type);
            Some((rest, RcstView::List(items)))
        } else {
            None
        },
    }
}

/// What `block` gives: a code block, a title or URLs (at the top level
/// only), a list or a paragraph, the first that the lines start with.
pub open spec fn spec_block(lines: Seq<Seq<char>>, indentation: nat) -> Option<
    (Seq<Seq<char>>, RcstView),
>
    decreases lines_measure(lines), 3nat,
{
    match spec_code_block(lines) {
        Some(found) => Some(found),
        None => match (if indentation == 0 {
            spec_title(lines)
        } else {
            None
        }) {
            Some(found) => Some(found),
            None => match (if indentation == 0 {
                spec_urls(lines)
            } else {
                None
            }) {
                Some(found) => Some(found),
                None => match spec_list(lines, indentation) {
                    Some(found) => Some(found),
                    None => spec_paragraph(lines, indentation),
                },
            },
        },
    }
}

/// Blocks after whitespace and line breaks with the indentation, as long as
/// there are any. Gives the lines after the last block, the parts, and the
/// whitespace after the last block with the lines after it, if there is
/// any.
pub open spec fn blocks_rounds(
    lines: Seq<Seq<char>>,
    indentation: nat,
    parts: Seq<RcstView>,
) -> (Seq<Seq<char>>, Seq<RcstView>, Option<(Seq<Seq<char>>, Seq<RcstView>)>)
    decreases lines_measure(lines), 4nat,
{
    let (after, whitespace) = match spec_whitespaces_and_newlines(lines, indentation) {
        Some((after, whitespace)) => (after, Some(whitespace_part_views(whitespace))),
        None => (lines, None),
    };
    if lines_measure(after) > lines_measure(lines) {
        (lines, parts, None)
    } else {
        match spec_block(after, indentation) {
            None => (
                lines,
                parts,
                match whitespace {
                    Some(whitespace) => Some((after, whitespace)),
                    None => None,
                },
            ),
            Some((rest, block)) => {
                let with_whitespace = match whitespace {
                    Some(whitespace) => push_whitespace_view(parts, whitespace),
                    None => parts,
                };
                if lines_measure(rest) < lines_measure(lines) {
                    blocks_rounds(rest, indentation, with_whitespace.push(block))
                } else {
                    (lines, parts, None)
                }
            },
        }
    }
}

/// Whether the top-level blocks of the lines, with the whitespace after the
/// last of them, leave exactly one empty line.
pub open spec fn top_level_leaves_empty_line(lines: Seq<Seq<char>>) -> bool {
    let (rest, _, pending) = blocks_rounds(lines, 0, Seq::empty());
    let after = match pending {
        Some((after, _)) => after,
        None => match spec_single_line_whitespace(rest) {
            Some((after, _, _)) => after,
            None => rest,
        },
    };
    after == seq![Seq::<char>::empty()]
}

/// What `blocks` gives: the blocks and the whitespace between them; at the
/// top level also the whitespace after the last block, with no lines left.
pub open spec fn spec_blocks(lines: Seq<Seq<char>>, indentation: nat) -> Option<
    (Seq<Seq<char>>, Seq<RcstView>),
>
    decreases lines_measure(lines), 5nat,
{
    let (rest, parts, pending) = blocks_rounds(lines, indentation, Seq::empty());
    let (final_rest, final_parts) = if indentation == 0 {
        let trailing = match pending {
            Some(found) => Some(found),
            None => match spec_single_line_whitespace(rest) {
                Some((after, text, is_weird)) => Some(
                    (
                        after,
                        seq![
                            whitespace_part_view(
                                WhitespacePart::Whitespace(text, is_weird, RcstError::WeirdWhitespace),
                            ),
                        ],
                    ),
                ),
                None => None,
            },
        };
        (
            Seq::<Seq<char>>::empty(),
            match trailing {
                Some((_, whitespace)) => push_whitespace_view(parts, whitespace),
                None => parts,
            },
        )
    } else {
        (rest, parts)
    };
    if final_parts.len() == 0 {
        None
    } else {
        Some((final_rest, final_parts))
    }
}

/// An item of a list: its marker and the blocks after it, indented by the
/// marker. Where a list type is given, only a marker of that type is taken.
pub fn list_item(input: Vec<String>, indentation: usize, list_type: Option<ListType>) -> (result:
    Option<(Vec<String>, Rcst, ListType)>)
    requires
        indentation + lines_measure(string_views(input@)) <= usize::MAX,
    ensures
        match result {
            Some((rest, rcst, found_type)) => {
                &&& input.len() > 0
                &&& rcst is ListItem
                &&& (list_type matches Some(expected) ==> found_type == expected)
                &&& is_tail_of(string_views(rest@), string_views(input@))
                &&& lines_measure(string_views(rest@)) < lines_measure(string_views(input@))
                &&& no_line_ends_in_backslash(string_views(input@)) ==> rcst.text() + lines_text(
                    string_views(rest@),
                ) == lines_text(string_views(input@))
            },
            None => !(input.len() > 0 && (((list_type is None || list_type == Some(
                ListType::Unordered,
            )) && has_unordered_marker(input@[0]@)) || ((list_type is None || list_type == Some(
                ListType::Ordered,
            )) && has_ordered_marker(input@[0]@)))),
        },
        match (result, spec_list_item(string_views(input@), indentation as nat, list_type)) {
            (Some((rest, rcst, found_type)), Some((expected_rest, expected, expected_type))) => {
                &&& string_views(rest@) == expected_rest
                &&& rcst@ == expected
                &&& found_type == expected_type
            },
            (None, None) => true,
            _ => false,
        },
    decreases lines_measure(string_views(input@)), 0nat,
{
    let ghost original = string_views(input@);
    let ghost old_indentation = indentation;
    if input.len() == 0 {
        return None;
    }
    assert(string_views(input@)[0] == input@[0]@);
    let (line, remaining) = split_first(input);
    let (rest_of_first, marker, extra_indentation, found_type) = match list_item_marker(
        line.as_str(),
        list_type,
    ) {
        Some(found) => found,
        None => {
            return None;
        },
    };
    let input = recombine(rest_of_first, remaining);
    proof {
        assert(line@ == original[0]);
        lemma_take_marker(original, marker_text(marker), rest_of_first@);
        assert(string_views(input@) =~= seq![rest_of_first@] + original.drop_first());
    }
    let ghost after_marker = string_views(input@);
    let ghost inner = (indentation + extra_indentation) as nat;
    let indentation = indentation + extra_indentation;
    let (rest, content) = match blocks(clone_lines(&input), indentation) {
        Some(found) => found,
        None => {
            proof {
                lemma_tail_itself(string_views(input@));
                assert(rcst_texts(Seq::<Rcst>::empty()) =~= Seq::<char>::empty());
                assert(rcst_views(Seq::<Rcst>::empty()) =~= Seq::<RcstView>::empty());
            }
            (input, Vec::new())
        },
    };
    let rcst = Rcst::ListItem { marker, content };
    proof {
        assert(spec_list_item(original, old_indentation as nat, list_type) == Some(
            (string_views(rest@), rcst_view(rcst), found_type),
        ));
    }
    proof {
        lemma_list_item_text(
            original,
            seq![rest_of_first@] + original.drop_first(),
            string_views(rest@),
            marker,
            content@,
        );
    }
    Some((rest, rcst, found_type))
}

/// An item's marker, its content and what is left keep the text of the
/// lines, and what is left is a tail.
proof fn lemma_list_item_text(
    original: Seq<Seq<char>>,
    after_marker: Seq<Seq<char>>,
    rest: Seq<Seq<char>>,
    marker: RcstListItemMarker,
    content: Seq<Rcst>,
)
    requires
        is_tail_of(after_marker, original),
        is_tail_of(rest, after_marker),
        lines_measure(after_marker) < lines_measure(original),
        marker_text(marker) + lines_text(after_marker) == lines_text(original),
        no_line_ends_in_backslash(after_marker) ==> rcst_texts(content) + lines_text(rest)
            == lines_text(after_marker),
    ensures
        is_tail_of(rest, original),
        lines_measure(rest) < lines_measure(original),
        no_line_ends_in_backslash(original) ==> marker_text(marker) + rcst_texts(content)
            + lines_text(rest) == lines_text(original),
{
    lemma_tail_transitive(rest, after_marker, original);
    lemma_tail_measure(rest, after_marker);
    if no_line_ends_in_backslash(original) {
        lemma_tail_keeps_backslash_free(after_marker, original);
        assert(marker_text(marker) + rcst_texts(content) + lines_text(rest) =~= marker_text(marker)
            + (rcst_texts(content) + lines_text(rest)));
    }
}

/// The marker of a list item of the given type, or of either type where none
/// is given; a dash is tried first.
fn list_item_marker(line: &str, list_type: Option<ListType>) -> (result: Option<
    (String, RcstListItemMarker, usize, ListType),
>)
    ensures
        match result {
            Some((rest, marker, extra_indentation, found_type)) => {
                &&& (list_type matches Some(expected) ==> found_type == expected)
                &&& extra_indentation == marker_text(marker).len()
                &&& extra_indentation > 0
                &&& marker_text(marker) + rest@ == line@
                &&& rest@ == line@.skip(extra_indentation as int)
            },
            None => !(((list_type is None || list_type == Some(ListType::Unordered))
                && has_unordered_marker(line@)) || ((list_type is None || list_type == Some(
                ListType::Ordered,
            )) && has_ordered_marker(line@))),
        },
        match (result, spec_list_item_marker(line@, list_type)) {
            (
                Some((rest, marker, extra, found_type)),
                Some((expected_rest, expected, expected_extra, expected_type)),
            ) => {
                &&& rest@ == expected_rest
                &&& marker_view(marker) == expected
                &&& extra == expected_extra
                &&& found_type == expected_type
            },
            (None, None) => true,
            _ => false,
        },
{
    let allows_unordered = match list_type {
        None => true,
        Some(expected) => expected == ListType::Unordered,
    };
    let allows_ordered = match list_type {
        None => true,
        Some(expected) => expected == ListType::Ordered,
    };
    if allows_unordered {
        match unordered_list_item_marker(line) {
            Some((rest, marker, extra)) => {
                return Some((rest, marker, extra, ListType::Unordered));
            },
            None => {},
        }
    }
    if allows_ordered {
        match ordered_list_item_marker(line) {
            Some((rest, marker, extra)) => {
                proof {
                    lemma_ordered_marker_not_empty(marker);
                }
                return Some((rest, marker, extra, ListType::Ordered));
            },
            None => {},
        }
    }
    None
}

/// The marker of an ordered item holds at least its dot.
proof fn lemma_ordered_marker_not_empty(marker: RcstListItemMarker)
    requires
        marker is Ordered,
    ensures
        marker_text(marker).len() > 0,
{
}

/// A list: items of one type, with whitespace, line breaks and the given
/// indentation between them.
pub fn list(input: Vec<String>, indentation: usize) -> (result: Option<(Vec<String>, Rcst)>)
    requires
        indentation + lines_measure(string_views(input@)) <= usize::MAX,
    ensures
        match result {
            Some((rest, rcst)) => {
                &&& input.len() > 0
                &&& rcst is List
                &&& is_tail_of(string_views(rest@), string_views(input@))
                &&& lines_measure(string_views(rest@)) < lines_measure(string_views(input@))
                &&& no_line_ends_in_backslash(string_views(input@)) ==> rcst.text() + lines_text(
                    string_views(rest@),
                ) == lines_text(string_views(input@))
            },
            None => !(input.len() > 0 && (has_unordered_marker(input@[0]@) || has_ordered_marker(
                input@[0]@,
            ))),
        },
        match (result, spec_list(string_views(input@), indentation as nat)) {
            (Some((rest, rcst)), Some((expected_rest, expected))) => string_views(rest@)
                == expected_rest && rcst@ == expected,
            (None, None) => true,
            _ => false,
        },
    decreases lines_measure(string_views(input@)), 1nat,
{
    let ghost original = string_views(input@);
    let candidate = clone_lines(&input);
    proof {
        lemma_same_views(candidate@, input@);
    }
    let (first_rest, first_item, list_type) = match list_item(candidate, indentation, None) {
        Some(found) => found,
        None => {
            return None;
        },
    };
    let mut items: Vec<Rcst> = Vec::new();
    items.push(first_item);
    let mut current = first_rest;
    proof {
        lemma_rcst_texts_push_end(Seq::<Rcst>::empty(), first_item);
        assert(Seq::<Rcst>::empty().push(first_item) =~= items@);
        assert(rcst_texts(Seq::<Rcst>::empty()) =~= Seq::<char>::empty());
        lemma_rcst_views_push(Seq::<Rcst>::empty(), first_item);
        assert(rcst_views(Seq::<Rcst>::empty()) =~= Seq::<RcstView>::empty());
        assert(rcst_views(items@) =~= seq![rcst_view(first_item)]);
    }
    let ghost target = list_rounds(
        string_views(current@),
        indentation as nat,
        rcst_views(items@),
        list_type,
    );
    loop
        invariant
            list_rounds(string_views(current@), indentation as nat, rcst_views(items@), list_type)
                == target,
            items.len() > 0,
            original == string_views(input@),
            is_tail_of(string_views(current@), original),
            lines_measure(string_views(current@)) < lines_measure(original),
            indentation + lines_measure(original) <= usize::MAX,
            no_line_ends_in_backslash(original) ==> rcst_texts(items@) + lines_text(
                string_views(current@),
            ) == lines_text(original),
        ensures
            target == (string_views(current@), rcst_views(items@)),
        decreases lines_measure(string_views(current@)),
    {
        let ghost current_lines = string_views(current@);
        let (after_whitespace, whitespace) = match whitespaces_and_newlines(
            clone_lines(&current),
            indentation,
        ) {
            Some(found) => found,
            None => {
                break;
            },
        };
        let ghost middle = string_views(after_whitespace@);
        proof {
            lemma_tail_transitive(middle, current_lines, original);
            lemma_tail_measure(middle, original);
            let (_, expected) = spec_whitespaces_and_newlines(current_lines, indentation as nat)->0;
            lemma_whitespace_parts_view(whitespace@, expected);
        }
        let (new_input, new_item, _) = match list_item(
            after_whitespace,
            indentation,
            Some(list_type),
        ) {
            Some(found) => found,
            None => {
                break;
            },
        };
        let ghost items_before = items@;
        proof {
            lemma_tail_transitive(string_views(new_input@), middle, original);
        }
        current = new_input;
        push_whitespace(&mut items, whitespace);
        proof {
            lemma_rcst_texts_push_end(items@, new_item);
            lemma_rcst_views_push(items@, new_item);
        }
        items.push(new_item);
        proof {
            if no_line_ends_in_backslash(original) {
                lemma_tail_keeps_backslash_free(middle, original);
                assert(rcst_texts(items@) + lines_text(string_views(current@)) =~= rcst_texts(
                    items_before,
                ) + rcst_texts(whitespace@) + (new_item.text() + lines_text(
                    string_views(current@),
                )));
            }
        }
    }
    proof {
        assert(spec_list(original, indentation as nat) == Some(
            (target.0, RcstView::List(target.1)),
        ));
    }
    Some((current, Rcst::List(items)))
}

/// The block that starts the lines: a code block, a title or URLs (at the
/// top level only), a list or a paragraph, in that order of preference.
fn block(input: &Vec<String>, indentation: usize) -> (result: Option<(Vec<String>, Rcst)>)
    requires
        indentation + lines_measure(string_views(input@)) <= usize::MAX,
    ensures
        match result {
            Some((rest, rcst)) => {
                &&& is_tail_of(string_views(rest@), string_views(input@))
                &&& lines_measure(string_views(rest@)) < lines_measure(string_views(input@))
                &&& no_line_ends_in_backslash(string_views(input@)) && (indentation > 0
                    || no_line_holds_url(string_views(input@))) ==> rcst.text() + lines_text(
                    string_views(rest@),
                ) == lines_text(string_views(input@))
            },
            None => !(input.len() > 0 && input@[0]@.len() > 0),
        },
        match (result, spec_block(string_views(input@), indentation as nat)) {
            (Some((rest, rcst)), Some((expected_rest, expected))) => string_views(rest@)
                == expected_rest && rcst@ == expected,
            (None, None) => true,
            _ => false,
        },
    decreases lines_measure(string_views(input@)), 2nat,
{
    match code_block(clone_lines(input)) {
        Some(found) => {
            return Some(found);
        },
        None => {},
    }
    if indentation == 0 {
        match title(clone_lines(input)) {
            Some(found) => {
                return Some(found);
            },
            None => {},
        }
        let candidate = clone_lines(input);
        proof {
            lemma_same_views(candidate@, input@);
        }
        match urls(candidate) {
            Some(found) => {
                proof {
                    if no_line_holds_url(string_views(input@)) {
                        lemma_scheme_holds_separator(input@[0]@);
                        assert(string_views(input@)[0] == input@[0]@);
                    }
                }
                return Some(found);
            },
            None => {},
        }
    }
    match list(clone_lines(input), indentation) {
        Some(found) => {
            return Some(found);
        },
        None => {},
    }
    let candidate = clone_lines(input);
    proof {
        lemma_same_views(candidate@, input@);
    }
    paragraph(candidate, indentation)
}

/// Whitespace and line breaks with the given indentation, if there are
/// any, and the block after them, if there is one.
fn whitespace_and_block(lines: &Vec<String>, indentation: usize) -> (result: (
    Vec<String>,
    Option<Vec<Rcst>>,
    Option<(Vec<String>, Rcst)>,
))
    requires
        indentation + lines_measure(string_views(lines@)) <= usize::MAX,
    ensures
        ({
            let (after, whitespace, found) = result;
            &&& match whitespace {
                Some(whitespace) => {
                    &&& whitespace.len() > 0
                    &&& rcst_texts(whitespace@) + lines_text(string_views(after@)) == lines_text(
                        string_views(lines@),
                    )
                    &&& is_tail_of(string_views(after@), string_views(lines@))
                    &&& lines_measure(string_views(after@)) < lines_measure(string_views(lines@))
                    &&& indentation == 0 ==> !(after.len() >= 2 && after@[0]@.len() == 0)
                    &&& lines.len() > 0 && leading_whitespace_length(lines@[0]@) < lines@[0]@.len()
                        ==> after.len() > 0 && after@[0]@.len() > 0
                },
                None => {
                    &&& string_views(after@) == string_views(lines@)
                    &&& spec_single_line_whitespace(string_views(lines@)) is None
                    &&& indentation == 0 ==> !(lines.len() >= 2 && lines@[0]@.len() == 0)
                },
            }
            &&& match found {
                Some((rest, rcst)) => {
                    &&& is_tail_of(string_views(rest@), string_views(after@))
                    &&& lines_measure(string_views(rest@)) < lines_measure(string_views(after@))
                    &&& no_line_ends_in_backslash(string_views(after@)) && (indentation > 0
                        || no_line_holds_url(string_views(after@))) ==> rcst.text() + lines_text(
                        string_views(rest@),
                    ) == lines_text(string_views(after@))
                },
                None => !(after.len() > 0 && after@[0]@.len() > 0),
            }
            &&& found is None ==> (lines.len() == 0 || leading_whitespace_length(lines@[0]@)
                == lines@[0]@.len())
            &&& match (whitespace, spec_whitespaces_and_newlines(
                string_views(lines@),
                indentation as nat,
            )) {
                (Some(whitespace), Some((expected_rest, expected))) => {
                    &&& string_views(after@) == expected_rest
                    &&& rcst_views(whitespace@) == whitespace_part_views(expected)
                },
                (None, None) => true,
                _ => false,
            }
            &&& match (found, spec_block(string_views(after@), indentation as nat)) {
                (Some((rest, rcst)), Some((expected_rest, expected))) => string_views(rest@)
                    == expected_rest && rcst@ == expected,
                (None, None) => true,
                _ => false,
            }
        }),
    decreases lines_measure(string_views(lines@)), 3nat,
{
    let candidate = clone_lines(lines);
    proof {
        lemma_same_views(candidate@, lines@);
    }
    let (after, whitespace) = match whitespaces_and_newlines(candidate, indentation) {
        Some((after, whitespace)) => {
            proof {
                let (_, expected) = spec_whitespaces_and_newlines(
                    string_views(lines@),
                    indentation as nat,
                )->0;
                lemma_whitespace_parts_view(whitespace@, expected);
                if lines.len() > 0 && leading_whitespace_length(lines@[0]@) < lines@[0]@.len() {
                    lemma_whitespace_prefix(lines@[0]@);
                    assert(string_views(after@)[0] == after@[0]@);
                }
                lemma_same_views(after@, after@);
            }
            (after, Some(whitespace))
        },
        None => {
            let after = clone_lines(lines);
            proof {
                lemma_same_views(after@, lines@);
            }
            (after, None)
        },
    };
    proof {
        if whitespace is Some {
            lemma_tail_measure(string_views(after@), string_views(lines@));
        }
    }
    let found = block(&after, indentation);
    proof {
        if lines.len() > 0 {
            lemma_whitespace_prefix(lines@[0]@);
            if whitespace is None {
                lemma_same_views(after@, lines@);
            }
        }
    }
    (after, whitespace, found)
}

/// Blocks, with whitespace and line breaks between them, each indented by
/// the given amount. At the top level, whitespace after the last block is
/// kept too, and all lines are taken: there, the lines must leave exactly
/// one empty line after the blocks and that whitespace. The blocks and the
/// lines that are left keep the text of the lines.
pub fn blocks(input: Vec<String>, indentation: usize) -> (result: Option<(Vec<String>, Vec<Rcst>)>)
    requires
        indentation + lines_measure(string_views(input@)) <= usize::MAX,
        indentation == 0 ==> input.len() > 0,
        indentation == 0 ==> top_level_leaves_empty_line(string_views(input@)),
    ensures
        match result {
            Some((rest, parts)) => {
                &&& parts.len() > 0
                &&& is_tail_of(string_views(rest@), string_views(input@))
                &&& lines_measure(string_views(rest@)) < lines_measure(string_views(input@))
                &&& indentation == 0 ==> rest.len() == 0
                &&& no_line_ends_in_backslash(string_views(input@)) && (indentation > 0
                    || no_line_holds_url(string_views(input@))) ==> rcst_texts(parts@) + lines_text(
                    string_views(rest@),
                ) == lines_text(string_views(input@))
            },
            None => input.len() == 0 || leading_whitespace_length(input@[0]@) == input@[0]@.len(),
        },
        match (result, spec_blocks(string_views(input@), indentation as nat)) {
            (Some((rest, parts)), Some((expected_rest, expected))) => string_views(rest@)
                == expected_rest && rcst_views(parts@) == expected,
            (None, None) => true,
            _ => false,
        },
    decreases lines_measure(string_views(input@)), 5nat,
{
    blocks_with_end(input, indentation).0
}

/// Blocks as `blocks` gives them, and whether, at the top level, they leave
/// exactly one empty line after the whitespace that follows them.
#[verifier::spinoff_prover]
#[verifier::rlimit(100)]
pub(crate) fn blocks_with_end(input: Vec<String>, indentation: usize) -> (result: (
    Option<(Vec<String>, Vec<Rcst>)>,
    bool,
))
    requires
        indentation + lines_measure(string_views(input@)) <= usize::MAX,
        indentation == 0 ==> input.len() > 0,
    ensures
        result.1 == (indentation == 0 ==> top_level_leaves_empty_line(string_views(input@))),
        match result.0 {
            Some((rest, parts)) => {
                &&& parts.len() > 0
                &&& is_tail_of(string_views(rest@), string_views(input@))
                &&& lines_measure(string_views(rest@)) < lines_measure(string_views(input@))
                &&& indentation == 0 ==> rest.len() == 0
                &&& no_line_ends_in_backslash(string_views(input@)) && (indentation > 0
                    || no_line_holds_url(string_views(input@))) ==> rcst_texts(parts@) + lines_text(
                    string_views(rest@),
                ) == lines_text(string_views(input@))
            },
            None => input.len() == 0 || leading_whitespace_length(input@[0]@) == input@[0]@.len(),
        },
        match (result.0, spec_blocks(string_views(input@), indentation as nat)) {
            (Some((rest, parts)), Some((expected_rest, expected))) => string_views(rest@)
                == expected_rest && rcst_views(parts@) == expected,
            (None, None) => true,
            _ => false,
        },
    decreases lines_measure(string_views(input@)), 4nat,
{
    let ghost original = string_views(input@);
    let ghost keeps_text = no_line_ends_in_backslash(original) && (indentation > 0
        || no_line_holds_url(original));
    let mut lines = clone_lines(&input);
    let mut parts: Vec<Rcst> = Vec::new();
    let mut pending: Option<(Vec<String>, Vec<Rcst>)> = None;
    proof {
        lemma_tail_itself(original);
        assert(rcst_texts(parts@) =~= Seq::<char>::empty());
        assert(rcst_texts(parts@) + lines_text(original) =~= lines_text(original));
        lemma_same_views(lines@, input@);
        assert(rcst_views(parts@) =~= Seq::<RcstView>::empty());
    }
    let ghost target = blocks_rounds(original, indentation as nat, Seq::empty());
    loop
        invariant_except_break
            pending is None,
        invariant
            blocks_rounds(string_views(lines@), indentation as nat, rcst_views(parts@)) == target,
            original == string_views(input@),
            is_tail_of(string_views(lines@), original),
            lines_measure(string_views(lines@)) <= lines_measure(original),
            parts.len() > 0 ==> lines_measure(string_views(lines@)) < lines_measure(original),
            parts.len() == 0 ==> string_views(lines@) == original,
            parts.len() == 0 ==> lines@.len() == input@.len() && (lines.len() > 0 ==> lines@[0]@
                == input@[0]@),
            indentation + lines_measure(original) <= usize::MAX,
            keeps_text == (no_line_ends_in_backslash(original) && (indentation > 0
                || no_line_holds_url(original))),
            keeps_text ==> rcst_texts(parts@) + lines_text(string_views(lines@)) == lines_text(
                original,
            ),
        ensures
            match pending {
                Some((after, whitespace)) => {
                    &&& whitespace.len() > 0
                    &&& rcst_texts(whitespace@) + lines_text(string_views(after@)) == lines_text(
                        string_views(lines@),
                    )
                    &&& is_tail_of(string_views(after@), string_views(lines@))
                    &&& block_ends(string_views(after@), indentation)
                },
                None => {
                    &&& spec_single_line_whitespace(string_views(lines@)) is None
                    &&& block_ends(string_views(lines@), indentation)
                },
            },
            parts.len() == 0 ==> (lines.len() == 0 || leading_whitespace_length(lines@[0]@)
                == lines@[0]@.len()),
            target == (
                string_views(lines@),
                rcst_views(parts@),
                match pending {
                    Some((after, whitespace)) => Some(
                        (string_views(after@), rcst_views(whitespace@)),
                    ),
                    None => None,
                },
            ),
        decreases lines_measure(string_views(lines@)),
    {
        let ghost current = string_views(lines@);
        let (new_input, whitespace, found) = whitespace_and_block(&lines, indentation);
        let ghost middle = string_views(new_input@);
        match found {
            Some((rest, found)) => {
                proof {
                    if whitespace is None {
                        lemma_tail_itself(current);
                    }
                    lemma_tail_transitive(middle, current, original);
                    lemma_tail_measure(middle, current);
                    lemma_tail_transitive(string_views(rest@), middle, original);
                    if keeps_text {
                        lemma_tail_keeps_backslash_free(middle, original);
                        if indentation == 0 {
                            lemma_tail_keeps_url_free(middle, original);
                        }
                    }
                }
                let ghost parts_before = parts@;
                match whitespace {
                    Some(whitespace) => {
                        push_whitespace(&mut parts, whitespace);
                    },
                    None => {},
                }
                let ghost parts_with_whitespace = parts@;
                proof {
                    lemma_rcst_texts_push_end(parts@, found);
                    lemma_rcst_views_push(parts@, found);
                }
                parts.push(found);
                lines = rest;
                proof {
                    if keeps_text {
                        assert(rcst_texts(parts@) + lines_text(string_views(lines@))
                            =~= rcst_texts(parts_with_whitespace) + (found.text() + lines_text(
                            string_views(lines@),
                        )));
                    }
                }
            },
            None => {
                pending = match whitespace {
                    Some(whitespace) => Some((new_input, whitespace)),
                    None => None,
                };
                break;
            },
        }
    }
    let mut ends = true;
    if indentation == 0 {
        let trailing = match pending {
            Some(found) => Some(found),
            None => match crate::comment::string_to_rcst::single_line_whitespace(
                clone_lines(&lines),
            ) {
                Some((after, whitespace)) => {
                    let mut all: Vec<Rcst> = Vec::new();
                    all.push(whitespace);
                    Some((after, all))
                },
                None => None,
            },
        };
        let ghost parts_before = parts@;
        match trailing {
            Some((after, whitespace)) => {
                push_whitespace(&mut parts, whitespace);
                proof {
                    lemma_block_ends_empty(string_views(after@));
                    if keeps_text {
                        assert(rcst_texts(parts@) + lines_text(string_views(after@)) =~= rcst_texts(
                            parts_before,
                        ) + (rcst_texts(whitespace@) + lines_text(string_views(after@))));
                    }
                }
                lines = after;
            },
            None => {
                proof {
                    lemma_block_ends_empty(string_views(lines@));
                }
            },
        }
        proof {
            if keeps_text {
                assert(rcst_texts(parts@) =~= rcst_texts(parts@) + lines_text(string_views(lines@)));
            }
            assert(original.len() > 0);
            assert(original =~= seq![original[0]] + original.drop_first());
            lemma_measure_first(original[0], original.drop_first());
        }
        let leaves_empty_line = lines.len() == 1 && lines[0].as_str().is_empty();
        proof {
            if lines.len() == 1 {
                assert(string_views(lines@)[0] == lines@[0]@);
            }
            assert(leaves_empty_line == (string_views(lines@) =~= seq![Seq::<char>::empty()]));
        }
        ends = leaves_empty_line;
        lines = Vec::new();
        proof {
            assert(string_views(lines@) =~= Seq::<Seq<char>>::empty());
            assert(lines_text(string_views(lines@)) =~= Seq::<char>::empty());
            lemma_tail_itself(Seq::<Seq<char>>::empty());
        }
    }
    if parts.len() == 0 {
        (None, ends)
    } else {
        (Some((lines, parts)), ends)
    }
}


/// Strings with the same texts have the same first text.
proof fn lemma_same_views(a: Seq<String>, b: Seq<String>)
    requires
        string_views(a) == string_views(b),
    ensures
        a.len() == b.len(),
        a.len() > 0 ==> a[0]@ == b[0]@,
{
    assert(string_views(a).len() == a.len());
    if a.len() > 0 {
        assert(string_views(a)[0] == a[0]@);
        assert(string_views(b)[0] == b[0]@);
    }
}

/// Whether no block can start the lines at the given indentation, after
/// whitespace and line breaks, so that a list of blocks ends there. At the
/// top level, this leaves at most one empty line.
pub open spec fn block_ends(lines: Seq<Seq<char>>, indentation: usize) -> bool {
    &&& !(lines.len() > 0 && lines[0].len() > 0)
    &&& indentation == 0 ==> !(lines.len() >= 2 && lines[0].len() == 0)
}

/// Where no block can start the top-level lines, they hold no text.
proof fn lemma_block_ends_empty(lines: Seq<Seq<char>>)
    requires
        block_ends(lines, 0),
    ensures
        lines_text(lines) == Seq::<char>::empty(),
{
    if lines.len() == 1 {
        assert(lines_text(lines) == lines[0]);
    }
}

/// The `#` that a line starts with are its first characters.
proof fn lemma_leading_hashes_prefix(line: Seq<char>)
    ensures
        leading_hash_count(line) <= line.len(),
        line.take(leading_hash_count(line) as int) == hashes(leading_hash_count(line)),
    decreases line.len(),
{
    if line.len() > 0 && line[0] == '#' {
        lemma_leading_hashes_prefix(line.drop_first());
        let rest_count = leading_hash_count(line.drop_first()) as int;
        assert(line.take(rest_count + 1) =~= seq!['#'] + line.drop_first().take(rest_count));
    }
    assert(line.take(leading_hash_count(line) as int) =~= hashes(leading_hash_count(line)));
}

/// A copy of formattings.
fn clone_formattings(formattings: &Vec<InlineFormatting>) -> (result: Vec<InlineFormatting>)
    ensures
        result@ == formattings@,
{
    let mut result: Vec<InlineFormatting> = Vec::new();
    let mut i: usize = 0;
    while i < formattings.len()
        invariant
            i <= formattings.len(),
            result@ == formattings@.take(i as int),
        decreases formattings.len() - i,
    {
        result.push(formattings[i]);
        i = i + 1;
        assert(result@ =~= formattings@.take(i as int));
    }
    assert(result@ =~= formattings@);
    result
}

} // verus!
