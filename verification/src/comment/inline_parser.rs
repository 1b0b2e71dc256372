use super::rcst::{optional_char, rcst_texts, Rcst, RcstError};
use super::rcst_view::{rcst_view, rcst_views, RcstView};
use super::string_to_rcst::{escaped, is_escapable, spec_escaped};
use crate::text::{chars_of, string_from_chars};
use vstd::prelude::*;

verus! {

/// Inline formatting that can span several characters and lines: emphasis,
/// links and inline code.
#[derive(Clone, Copy, Debug, PartialEq, Eq, Structural, Hash)]
pub enum InlineFormatting {
    Emphasized,
    Link,
    Code,
}

impl InlineFormatting {
    /// The character that opens this formatting.
    pub open spec fn opening_char(self) -> char {
        match self {
            InlineFormatting::Emphasized => '_',
            InlineFormatting::Link => '[',
            InlineFormatting::Code => '`',
        }
    }

    /// The character that closes this formatting.
    pub open spec fn closing_char(self) -> char {
        match self {
            InlineFormatting::Emphasized => '_',
            InlineFormatting::Link => ']',
            InlineFormatting::Code => '`',
        }
    }

    /// The node of this formatting around the given parts.
    pub open spec fn spec_as_rcst(
        self,
        has_opening_char: bool,
        inner_parts: Vec<Rcst>,
        has_closing_char: bool,
    ) -> Rcst {
        match self {
            InlineFormatting::Emphasized => Rcst::Emphasized {
                has_opening_underscore: has_opening_char,
                text: inner_parts,
                has_closing_underscore: has_closing_char,
            },
            InlineFormatting::Link => Rcst::Link {
                has_opening_bracket: has_opening_char,
                text: inner_parts,
                has_closing_bracket: has_closing_char,
            },
            InlineFormatting::Code => Rcst::InlineCode {
                has_opening_backtick: has_opening_char,
                code: inner_parts,
                has_closing_backtick: has_closing_char,
            },
        }
    }

    /// The node of this formatting around the given parts.
    pub fn as_rcst(self, has_opening_char: bool, inner_parts: Vec<Rcst>, has_closing_char: bool) -> (result:
        Rcst)
        ensures
            result == self.spec_as_rcst(has_opening_char, inner_parts, has_closing_char),
            result.text() == optional_char(has_opening_char, self.opening_char()) + rcst_texts(
                inner_parts@,
            ) + optional_char(has_closing_char, self.closing_char()),
    {
        match self {
            InlineFormatting::Emphasized => Rcst::Emphasized {
                has_opening_underscore: has_opening_char,
                text: inner_parts,
                has_closing_underscore: has_closing_char,
            },
            InlineFormatting::Link => Rcst::Link {
                has_opening_bracket: has_opening_char,
                text: inner_parts,
                has_closing_bracket: has_closing_char,
            },
            InlineFormatting::Code => Rcst::InlineCode {
                has_opening_backtick: has_opening_char,
                code: inner_parts,
                has_closing_backtick: has_closing_char,
            },
        }
    }
}

/// Whether no formatting occurs twice.
pub open spec fn has_no_repeated_formatting(formattings: Seq<InlineFormatting>) -> bool {
    forall|i: int, j: int|
        0 <= i < j < formattings.len() ==> formattings[i] != formattings[j]
}

/// Whether formattings can be open at once: none occurs twice, and inline
/// code, inside which nothing else opens, can only be the innermost.
pub open spec fn is_proper_formatting_state(formattings: Seq<InlineFormatting>) -> bool {
    &&& has_no_repeated_formatting(formattings)
    &&& forall|i: int|
        0 <= i < formattings.len() && formattings[i] == InlineFormatting::Code ==> i
            == formattings.len() - 1
}

/// Whether a line ends in a backslash that escapes nothing. Such a backslash
/// leaves no text in the parsed line.
pub open spec fn ends_in_lone_backslash(line: Seq<char>) -> bool
    decreases line.len(),
{
    if line.len() == 0 {
        false
    } else if line[0] == '\\' {
        if line.len() == 1 {
            true
        } else {
            ends_in_lone_backslash(line.skip(2))
        }
    } else {
        ends_in_lone_backslash(line.skip(1))
    }
}

/// A backslash that escapes nothing is the last character of the line.
pub proof fn lemma_lone_backslash_is_last(line: Seq<char>)
    requires
        ends_in_lone_backslash(line),
    ensures
        line.len() > 0 && line.last() == '\\',
    decreases line.len(),
{
    if line[0] == '\\' {
        if line.len() > 1 {
            lemma_lone_backslash_is_last(line.skip(2));
            assert(line.skip(2).last() == line.last());
        }
    } else {
        lemma_lone_backslash_is_last(line.skip(1));
        assert(line.skip(1).last() == line.last());
    }
}

/// The text of a line that its inline parts keep: all of it, but for a
/// backslash at its end that escapes nothing.
pub open spec fn inline_source(line: Seq<char>) -> Seq<char> {
    if ends_in_lone_backslash(line) {
        line.drop_last()
    } else {
        line
    }
}

/// An inline element as a value: text, an escaped character (or a
/// backslash with nothing after it), or formatting around inner elements,
/// with whether it has its opening and its closing character.
pub enum InlinePart {
    Text(Seq<char>),
    Escaped(Option<char>),
    Formatted(InlineFormatting, bool, Seq<InlinePart>, bool),
}

/// Whether a node is the given inline element.
pub open spec fn is_inline_node(rcst: Rcst, part: InlinePart) -> bool
    decreases part,
{
    match part {
        InlinePart::Text(text) => rcst matches Rcst::TextPart(found) && found@ == text,
        InlinePart::Escaped(character) => rcst == spec_escaped(character),
        InlinePart::Formatted(formatting, has_opening_char, inner, has_closing_char) => match rcst {
            Rcst::Emphasized { has_opening_underscore, text, has_closing_underscore } => formatting
                == InlineFormatting::Emphasized && has_opening_underscore == has_opening_char
                && has_closing_underscore == has_closing_char && are_inline_nodes(text@, inner),
            Rcst::Link { has_opening_bracket, text, has_closing_bracket } => formatting
                == InlineFormatting::Link && has_opening_bracket == has_opening_char
                && has_closing_bracket == has_closing_char && are_inline_nodes(text@, inner),
            Rcst::InlineCode { has_opening_backtick, code, has_closing_backtick } => formatting
                == InlineFormatting::Code && has_opening_backtick == has_opening_char
                && has_closing_backtick == has_closing_char && are_inline_nodes(code@, inner),
            _ => false,
        },
    }
}

/// Whether nodes are the given inline elements, one by one.
pub open spec fn are_inline_nodes(rcsts: Seq<Rcst>, parts: Seq<InlinePart>) -> bool
    decreases parts,
{
    rcsts.len() == parts.len() && (parts.len() == 0 || (are_inline_nodes(
        rcsts.drop_last(),
        parts.drop_last(),
    ) && is_inline_node(rcsts.last(), parts.last())))
}

/// The value of the node for a backslash and the character after it.
pub open spec fn escaped_view(character: Option<char>) -> RcstView {
    match character {
        Some(c) => if is_escapable(c) {
            RcstView::EscapedChar(Some(c))
        } else {
            RcstView::Error {
                child: Some(Box::new(RcstView::EscapedChar(Some(c)))),
                error: RcstError::EscapeWithInvalidChar,
            }
        },
        None => RcstView::Error { child: None, error: RcstError::EscapeMissesChar },
    }
}

/// The value of the node for an inline element.
pub open spec fn inline_part_view(part: InlinePart) -> RcstView
    decreases part,
{
    match part {
        InlinePart::Text(text) => RcstView::TextPart(text),
        InlinePart::Escaped(character) => escaped_view(character),
        InlinePart::Formatted(formatting, has_opening_char, inner, has_closing_char) => match formatting {
            InlineFormatting::Emphasized => RcstView::Emphasized {
                has_opening_underscore: has_opening_char,
                text: inline_part_views(inner),
                has_closing_underscore: has_closing_char,
            },
            InlineFormatting::Link => RcstView::Link {
                has_opening_bracket: has_opening_char,
                text: inline_part_views(inner),
                has_closing_bracket: has_closing_char,
            },
            InlineFormatting::Code => RcstView::InlineCode {
                has_opening_backtick: has_opening_char,
                code: inline_part_views(inner),
                has_closing_backtick: has_closing_char,
            },
        },
    }
}

/// The values of the nodes for inline elements, one by one.
pub open spec fn inline_part_views(parts: Seq<InlinePart>) -> Seq<RcstView>
    decreases parts,
{
    if parts.len() == 0 {
        Seq::empty()
    } else {
        inline_part_views(parts.drop_last()).push(inline_part_view(parts.last()))
    }
}

/// A node that is an inline element has that element's value.
pub proof fn lemma_inline_node_view(rcst: Rcst, part: InlinePart)
    requires
        is_inline_node(rcst, part),
    ensures
        rcst_view(rcst) == inline_part_view(part),
    decreases part,
{
    match part {
        InlinePart::Formatted(formatting, _, inner, _) => {
            match rcst {
                Rcst::Emphasized { text, .. } => lemma_inline_nodes_view(text@, inner),
                Rcst::Link { text, .. } => lemma_inline_nodes_view(text@, inner),
                Rcst::InlineCode { code, .. } => lemma_inline_nodes_view(code@, inner),
                _ => {},
            }
        },
        InlinePart::Escaped(character) => {
            if let Some(c) = character {
                assert(rcst_view(Rcst::EscapedChar(Some(c))) == RcstView::EscapedChar(Some(c)));
            }
        },
        _ => {},
    }
}

/// Nodes that are inline elements have those elements' values.
pub proof fn lemma_inline_nodes_view(rcsts: Seq<Rcst>, parts: Seq<InlinePart>)
    requires
        are_inline_nodes(rcsts, parts),
    ensures
        rcst_views(rcsts) == inline_part_views(parts),
    decreases parts,
{
    if parts.len() > 0 {
        lemma_inline_nodes_view(rcsts.drop_last(), parts.drop_last());
        lemma_inline_node_view(rcsts.last(), parts.last());
    }
}

/// The state of parsing a line as a value: the elements found at the top
/// level, the open formattings (with whether they have their opening
/// character and the elements found inside them), and the characters of
/// text not yet made into an element.
pub struct InlineState {
    pub top: Seq<InlinePart>,
    pub open: Seq<(bool, InlineFormatting, Seq<InlinePart>)>,
    pub characters: Seq<char>,
}

/// Adds an element to the innermost open formatting, or to the top level.
pub open spec fn state_push(state: InlineState, part: InlinePart) -> InlineState {
    if state.open.len() == 0 {
        InlineState { top: state.top.push(part), ..state }
    } else {
        let last = state.open.last();
        InlineState {
            open: state.open.update(state.open.len() - 1, (last.0, last.1, last.2.push(part))),
            ..state
        }
    }
}

/// Makes the collected characters into a text element.
pub open spec fn state_finish_text(state: InlineState) -> InlineState {
    if state.characters.len() == 0 {
        state
    } else {
        state_push(
            InlineState { characters: Seq::empty(), ..state },
            InlinePart::Text(state.characters),
        )
    }
}

/// Opens a formatting with its opening character.
pub open spec fn state_start(state: InlineState, formatting: InlineFormatting) -> InlineState {
    let finished = state_finish_text(state);
    InlineState { open: finished.open.push((true, formatting, Seq::empty())), ..finished }
}

/// Closes open formattings from the innermost up to the given one, which
/// gets its closing character if it has one.
pub open spec fn state_close(
    state: InlineState,
    formatting: InlineFormatting,
    has_closing_char: bool,
) -> InlineState
    decreases state.open.len(),
{
    if state.open.len() == 0 {
        state
    } else {
        let last = state.open.last();
        let closed = state_push(
            InlineState { open: state.open.drop_last(), ..state },
            InlinePart::Formatted(last.1, last.0, last.2, last.1 == formatting && has_closing_char),
        );
        if last.1 == formatting {
            closed
        } else {
            state_close(closed, formatting, has_closing_char)
        }
    }
}

/// Ends a formatting: the text so far becomes an element, and formattings
/// are closed up to the given one.
pub open spec fn state_end(
    state: InlineState,
    formatting: InlineFormatting,
    has_closing_char: bool,
) -> InlineState {
    state_close(state_finish_text(state), formatting, has_closing_char)
}

/// The kinds of the open formattings, from the outermost.
pub open spec fn state_kinds(state: InlineState) -> Seq<InlineFormatting> {
    state.open.map_values(|open: (bool, InlineFormatting, Seq<InlinePart>)| open.1)
}

/// Whether inline code is the innermost open formatting.
pub open spec fn state_in_code(state: InlineState) -> bool {
    state.open.len() > 0 && state.open.last().1 == InlineFormatting::Code
}

/// Parses the characters of a line from a position on.
pub open spec fn state_run(state: InlineState, line: Seq<char>, position: int) -> InlineState
    decreases line.len() - position,
{
    if position < 0 || position >= line.len() {
        state
    } else {
        let character = line[position];
        if character == '_' && !state_in_code(state) {
            state_run(
                if state_kinds(state).contains(InlineFormatting::Emphasized) {
                    state_end(state, InlineFormatting::Emphasized, true)
                } else {
                    state_start(state, InlineFormatting::Emphasized)
                },
                line,
                position + 1,
            )
        } else if character == '[' && !state_in_code(state) && !state_kinds(state).contains(
            InlineFormatting::Link,
        ) {
            state_run(state_start(state, InlineFormatting::Link), line, position + 1)
        } else if character == ']' && !state_in_code(state) && state_kinds(state).contains(
            InlineFormatting::Link,
        ) {
            state_run(state_end(state, InlineFormatting::Link, true), line, position + 1)
        } else if character == '`' {
            state_run(
                if state_in_code(state) {
                    state_end(state, InlineFormatting::Code, true)
                } else {
                    state_start(state, InlineFormatting::Code)
                },
                line,
                position + 1,
            )
        } else if character == '\\' {
            let finished = state_finish_text(state);
            if position + 1 < line.len() {
                state_run(
                    state_push(finished, InlinePart::Escaped(Some(line[position + 1]))),
                    line,
                    position + 2,
                )
            } else {
                state_run(state_push(finished, InlinePart::Escaped(None)), line, position + 1)
            }
        } else {
            state_run(
                InlineState { characters: state.characters.push(character), ..state },
                line,
                position + 1,
            )
        }
    }
}

/// Closes all open formattings, without their closing characters.
pub open spec fn state_close_all(state: InlineState) -> InlineState
    decreases state.open.len(),
{
    if state.open.len() == 0 {
        state
    } else {
        let last = state.open.last();
        state_close_all(
            state_push(
                InlineState { open: state.open.drop_last(), ..state },
                InlinePart::Formatted(last.1, last.0, last.2, false),
            ),
        )
    }
}

/// The state before a line is parsed: the formattings that earlier lines
/// left open are open, without their opening characters.
pub open spec fn initial_inline_state(formattings: Seq<InlineFormatting>) -> InlineState {
    InlineState {
        top: Seq::empty(),
        open: formattings.map_values(
            |formatting: InlineFormatting| (false, formatting, Seq::<InlinePart>::empty()),
        ),
        characters: Seq::empty(),
    }
}

/// The inline elements of a line and the formattings still open after it,
/// or nothing where there are no elements.
pub open spec fn spec_inline(line: Seq<char>, formattings: Seq<InlineFormatting>) -> Option<
    (Seq<InlinePart>, Seq<InlineFormatting>),
> {
    let parsed = state_run(initial_inline_state(formattings), line, 0);
    let finished = state_close_all(state_finish_text(parsed));
    if finished.top.len() == 0 {
        None
    } else {
        Some((finished.top, state_kinds(parsed)))
    }
}

/// A formatting that is open while a line is parsed, with the parts found
/// inside it so far.
struct OpenFormatting {
    has_opening_char: bool,
    formatting: InlineFormatting,
    parts: Vec<Rcst>,
}

impl OpenFormatting {
    spec fn text(self) -> Seq<char> {
        optional_char(self.has_opening_char, self.formatting.opening_char()) + rcst_texts(
            self.parts@,
        )
    }
}

/// The text of open formattings, from the outermost to the innermost.
spec fn open_formattings_text(formattings: Seq<OpenFormatting>) -> Seq<char>
    decreases formattings.len(),
{
    if formattings.len() == 0 {
        Seq::empty()
    } else {
        open_formattings_text(formattings.drop_last()) + formattings.last().text()
    }
}

spec fn formatting_kinds(formattings: Seq<OpenFormatting>) -> Seq<InlineFormatting> {
    formattings.map_values(|open: OpenFormatting| open.formatting)
}

/// Adding a node to a sequence adds its text at the end.
proof fn lemma_rcst_texts_push(parts: Seq<Rcst>, part: Rcst)
    ensures
        rcst_texts(parts.push(part)) == rcst_texts(parts) + part.text(),
{
    assert(parts.push(part).drop_last() =~= parts);
}

/// Whether an open formatting is the given one as a value.
spec fn open_matches(open: OpenFormatting, value: (bool, InlineFormatting, Seq<InlinePart>)) -> bool {
    open.has_opening_char == value.0 && open.formatting == value.1 && are_inline_nodes(
        open.parts@,
        value.2,
    )
}

/// Adding a node and an element keeps the nodes the elements.
proof fn lemma_inline_nodes_push(rcsts: Seq<Rcst>, parts: Seq<InlinePart>, rcst: Rcst, part: InlinePart)
    requires
        are_inline_nodes(rcsts, parts),
        is_inline_node(rcst, part),
    ensures
        are_inline_nodes(rcsts.push(rcst), parts.push(part)),
{
    assert(rcsts.push(rcst).drop_last() =~= rcsts);
    assert(parts.push(part).drop_last() =~= parts);
}

/// Ending the innermost open formatting without its closing character,
/// once the text is finished, closes just that formatting.
proof fn lemma_close_innermost(state: InlineState, formatting: InlineFormatting)
    requires
        state.open.len() > 0,
        state.open.last().1 == formatting,
    ensures
        state_close_all(state_finish_text(state)) == state_close_all(
            state_finish_text(state_end(state, formatting, false)),
        ),
        state_finish_text(state_end(state, formatting, false)) == state_end(state, formatting, false),
{
    let finished = state_finish_text(state);
    assert(finished.open.len() == state.open.len());
    assert(finished.open.last().1 == formatting);
    assert(finished.characters.len() == 0);
}

/// A parser of the inline elements of one line.
struct SingleLineInlineParser {
    top_level_parts: Vec<Rcst>,
    formattings: Vec<OpenFormatting>,
    characters: Vec<char>,
}

impl SingleLineInlineParser {
    /// The text that the parser has taken so far.
    spec fn text(self) -> Seq<char> {
        rcst_texts(self.top_level_parts@) + open_formattings_text(self.formattings@)
            + self.characters@
    }

    spec fn kinds(self) -> Seq<InlineFormatting> {
        formatting_kinds(self.formattings@)
    }

    spec fn has_content(self) -> bool {
        self.top_level_parts.len() > 0 || self.formattings.len() > 0 || self.characters.len() > 0
    }

    /// Whether the parser is in the given state.
    spec fn matches(self, state: InlineState) -> bool {
        &&& are_inline_nodes(self.top_level_parts@, state.top)
        &&& self.formattings.len() == state.open.len()
        &&& forall|i: int|
            0 <= i < state.open.len() ==> open_matches(
                #[trigger] self.formattings@[i],
                state.open[i],
            )
        &&& self.characters@ == state.characters
    }

    fn is_in_emphasized(&self) -> (result: bool)
        ensures
            result == self.kinds().contains(InlineFormatting::Emphasized),
    {
        let mut i: usize = 0;
        while i < self.formattings.len()
            invariant
                i <= self.formattings.len(),
                forall|j: int| 0 <= j < i ==> self.kinds()[j] != InlineFormatting::Emphasized,
            decreases self.formattings.len() - i,
        {
            if self.formattings[i].formatting == InlineFormatting::Emphasized {
                assert(self.kinds()[i as int] == InlineFormatting::Emphasized);
                return true;
            }
            i = i + 1;
        }
        false
    }

    fn is_in_link(&self) -> (result: bool)
        ensures
            result == self.kinds().contains(InlineFormatting::Link),
    {
        let mut i: usize = 0;
        while i < self.formattings.len()
            invariant
                i <= self.formattings.len(),
                forall|j: int| 0 <= j < i ==> self.kinds()[j] != InlineFormatting::Link,
            decreases self.formattings.len() - i,
        {
            if self.formattings[i].formatting == InlineFormatting::Link {
                assert(self.kinds()[i as int] == InlineFormatting::Link);
                return true;
            }
            i = i + 1;
        }
        false
    }

    fn is_in_code(&self) -> (result: bool)
        ensures
            result == (self.formattings.len() > 0 && self.formattings@.last().formatting
                == InlineFormatting::Code),
    {
        let count = self.formattings.len();
        count > 0 && self.formattings[count - 1].formatting == InlineFormatting::Code
    }

    /// Adds a finished part to the innermost open formatting, or to the top
    /// level where none is open.
    fn push_part(&mut self, part: Rcst, Ghost(state): Ghost<InlineState>, Ghost(shape): Ghost<InlinePart>)
        requires
            old(self).characters.len() == 0,
        ensures
            old(self).matches(state) && is_inline_node(part, shape) ==> final(self).matches(
                state_push(state, shape),
            ),
            final(self).text() == old(self).text() + part.text(),
            final(self).kinds() == old(self).kinds(),
            final(self).characters.len() == 0,
            final(self).top_level_parts.len() > 0 || final(self).formattings.len() > 0,
            final(self).formattings.len() == old(self).formattings.len(),
            old(self).formattings.len() == 0 ==> final(self).top_level_parts.len() > 0,
    {
        let ghost before = self.formattings@;
        let ghost old_self = *self;
        if self.formattings.len() == 0 {
            proof {
                lemma_rcst_texts_push(self.top_level_parts@, part);
                if old_self.matches(state) && is_inline_node(part, shape) {
                    lemma_inline_nodes_push(self.top_level_parts@, state.top, part, shape);
                }
            }
            self.top_level_parts.push(part);
            assert(self.characters@ =~= Seq::<char>::empty());
        } else {
            let mut last = self.formattings.pop().unwrap();
            proof {
                lemma_rcst_texts_push(last.parts@, part);
            }
            let ghost last_before = last;
            last.parts.push(part);
            self.formattings.push(last);
            proof {
                assert(self.formattings@.drop_last() =~= before.drop_last());
                assert(formatting_kinds(self.formattings@) =~= formatting_kinds(before));
                assert(last.text() =~= last_before.text() + part.text());
                assert(open_formattings_text(self.formattings@) =~= open_formattings_text(
                    before,
                ) + part.text());
                if old_self.matches(state) && is_inline_node(part, shape) {
                    let count = before.len() - 1;
                    assert(open_matches(before[count], state.open[count]));
                    lemma_inline_nodes_push(last_before.parts@, state.open[count].2, part, shape);
                    let pushed = state_push(state, shape);
                    assert forall|i: int| 0 <= i < pushed.open.len() implies open_matches(
                        #[trigger] self.formattings@[i],
                        pushed.open[i],
                    ) by {
                        if i < count {
                            assert(self.formattings@[i] == before[i]);
                            assert(open_matches(before[i], state.open[i]));
                        }
                    }
                }
            }
        }
    }

    /// Turns the characters collected so far into a text part.
    fn finish_text_part(&mut self, Ghost(state): Ghost<InlineState>)
        ensures
            old(self).matches(state) ==> final(self).matches(state_finish_text(state)),
            final(self).text() == old(self).text(),
            final(self).kinds() == old(self).kinds(),
            final(self).characters.len() == 0,
            final(self).formattings.len() == old(self).formattings.len(),
            old(self).has_content() ==> final(self).has_content(),
            old(self).formattings.len() == 0 && old(self).has_content()
                ==> final(self).top_level_parts.len() > 0,
            old(self).characters.len() == 0 ==> *final(self) == *old(self),
    {
        if self.characters.len() == 0 {
            return ;
        }
        let text = string_from_chars(&self.characters);
        let part = Rcst::TextPart(text);
        let ghost before = *self;
        self.characters = Vec::new();
        let ghost cleared = InlineState { characters: Seq::empty(), ..state };
        proof {
            if before.matches(state) {
                assert(self.characters@ =~= Seq::<char>::empty());
                assert forall|i: int| 0 <= i < cleared.open.len() implies open_matches(
                    #[trigger] self.formattings@[i],
                    cleared.open[i],
                ) by {
                    assert(open_matches(before.formattings@[i], state.open[i]));
                }
                assert(self.matches(cleared));
            }
        }
        proof {
            assert(before.text() =~= rcst_texts(self.top_level_parts@) + open_formattings_text(
                self.formattings@,
            ) + part.text());
            assert(self.text() =~= rcst_texts(self.top_level_parts@) + open_formattings_text(
                self.formattings@,
            ));
        }
        self.push_part(part, Ghost(cleared), Ghost(InlinePart::Text(state.characters)));
    }

    /// Opens a formatting with its opening character.
    fn start_formatting(&mut self, formatting: InlineFormatting, Ghost(state): Ghost<InlineState>)
        ensures
            old(self).matches(state) ==> final(self).matches(state_start(state, formatting)),
            final(self).text() == old(self).text().push(formatting.opening_char()),
            final(self).kinds() == old(self).kinds().push(formatting),
            final(self).characters.len() == 0,
            final(self).has_content(),
    {
        self.finish_text_part(Ghost(state));
        let ghost before = *self;
        self.formattings.push(OpenFormatting { has_opening_char: true, formatting, parts: Vec::new() });
        proof {
            let opened = self.formattings@.last();
            let finished = state_finish_text(state);
            if before.matches(finished) {
                let started = state_start(state, formatting);
                assert(are_inline_nodes(opened.parts@, Seq::<InlinePart>::empty()));
                assert forall|i: int| 0 <= i < started.open.len() implies open_matches(
                    #[trigger] self.formattings@[i],
                    started.open[i],
                ) by {
                    if i < before.formattings.len() {
                        assert(self.formattings@[i] == before.formattings@[i]);
                        assert(open_matches(before.formattings@[i], finished.open[i]));
                    }
                }
            }
            assert(self.formattings@.drop_last() =~= before.formattings@);
            assert(opened.parts@ =~= Seq::<Rcst>::empty());
            assert(opened.text() =~= seq![formatting.opening_char()]);
            assert(formatting_kinds(self.formattings@) =~= formatting_kinds(
                before.formattings@,
            ).push(formatting));
            assert(self.characters@ =~= Seq::<char>::empty());
            assert(before.characters@ =~= Seq::<char>::empty());
            assert(self.text() =~= before.text().push(formatting.opening_char()));
        }
    }

    /// Closes formattings from the innermost up to the given one, which gets
    /// its closing character if it has one.
    fn end_formatting(
        &mut self,
        formatting: InlineFormatting,
        has_closing_char: bool,
        Ghost(state): Ghost<InlineState>,
    )
        requires
            old(self).kinds().contains(formatting),
        ensures
            old(self).matches(state) ==> final(self).matches(
                state_end(state, formatting, has_closing_char),
            ),
            final(self).text() == old(self).text() + optional_char(
                has_closing_char,
                formatting.closing_char(),
            ),
            final(self).characters.len() == 0,
            final(self).top_level_parts.len() > 0 || final(self).formattings.len() > 0,
            final(self).kinds().len() < old(self).kinds().len(),
            final(self).kinds() == old(self).kinds().take(final(self).kinds().len() as int),
    {
        let ghost matched = self.matches(state);
        self.finish_text_part(Ghost(state));
        let ghost start = *self;
        let ghost target = state_end(state, formatting, has_closing_char);
        let ghost mut current = state_finish_text(state);
        loop
            invariant_except_break
                self.characters.len() == 0,
                self.text() == start.text(),
                self.kinds().contains(formatting),
                self.kinds().len() <= start.kinds().len(),
                self.kinds() == start.kinds().take(self.kinds().len() as int),
                matched ==> self.matches(current) && state_close(
                    current,
                    formatting,
                    has_closing_char,
                ) == target,
            invariant
                matched == old(self).matches(state),
                target == state_end(state, formatting, has_closing_char),
            ensures
                matched ==> self.matches(target),
                self.characters.len() == 0,
                self.text() == start.text() + optional_char(
                    has_closing_char,
                    formatting.closing_char(),
                ),
                self.top_level_parts.len() > 0 || self.formattings.len() > 0,
                self.kinds().len() < start.kinds().len(),
                self.kinds() == start.kinds().take(self.kinds().len() as int),
            decreases self.formattings.len(),
        {
            let ghost before = *self;
            let entry = self.formattings.pop().unwrap();
            let is_target = entry.formatting == formatting;
            let ghost parts = entry.parts;
            proof {
                assert(before.formattings@.drop_last() =~= self.formattings@);
                assert(before.formattings@.last() == entry);
                assert(formatting_kinds(self.formattings@) =~= formatting_kinds(
                    before.formattings@,
                ).drop_last());
                assert(self.characters@ =~= Seq::<char>::empty());
                assert(before.text() =~= self.text() + entry.text());
                if !is_target {
                    let j = choose|j: int|
                        0 <= j < before.kinds().len() && before.kinds()[j] == formatting;
                    assert(j < self.kinds().len());
                    assert(self.kinds()[j] == formatting);
                }
            }
            let ghost entry_parts = entry.parts@;
            let ghost last = current.open.last();
            let ghost popped = InlineState { open: current.open.drop_last(), ..current };
            let ghost shape = InlinePart::Formatted(
                last.1,
                last.0,
                last.2,
                last.1 == formatting && has_closing_char,
            );
            proof {
                if matched {
                    let count = before.formattings@.len() - 1;
                    assert(open_matches(before.formattings@[count], current.open[count]));
                    assert(entry == before.formattings@[count]);
                    assert forall|i: int| 0 <= i < popped.open.len() implies open_matches(
                        #[trigger] self.formattings@[i],
                        popped.open[i],
                    ) by {
                        assert(self.formattings@[i] == before.formattings@[i]);
                        assert(open_matches(before.formattings@[i], current.open[i]));
                    }
                    assert(self.matches(popped));
                }
            }
            let part = entry.formatting.as_rcst(
                entry.has_opening_char,
                entry.parts,
                is_target && has_closing_char,
            );
            proof {
                if matched {
                    assert(is_inline_node(part, shape));
                }
            }
            self.push_part(part, Ghost(popped), Ghost(shape));
            proof {
                if matched {
                    assert(state_close(current, formatting, has_closing_char) == (if last.1
                        == formatting {
                        state_push(popped, shape)
                    } else {
                        state_close(state_push(popped, shape), formatting, has_closing_char)
                    }));
                }
                current = state_push(popped, shape);
            }
            proof {
                assert(self.kinds() =~= start.kinds().take(self.kinds().len() as int));
                if is_target {
                    assert(part.text() =~= entry.text() + optional_char(
                        has_closing_char,
                        formatting.closing_char(),
                    ));
                    assert(self.text() =~= start.text() + optional_char(
                        has_closing_char,
                        formatting.closing_char(),
                    ));
                } else {
                    assert(part.text() =~= entry.text());
                }
            }
            if is_target {
                break;
            }
        }
    }

    /// Closes all formattings that are still open and hands out the parts,
    /// with the formattings that were open.
    fn finish(self, Ghost(state): Ghost<InlineState>) -> (result: Option<
        (Vec<Rcst>, Vec<InlineFormatting>),
    >)
        ensures
            match result {
                Some((parts, remaining)) => rcst_texts(parts@) == self.text() && remaining@
                    == self.kinds() && parts.len() > 0,
                None => !self.has_content(),
            },
            self.has_content() <==> result is Some,
            self.matches(state) ==> ({
                let finished = state_close_all(state_finish_text(state));
                match result {
                    Some((parts, remaining)) => are_inline_nodes(parts@, finished.top)
                        && finished.top.len() > 0 && remaining@ == state_kinds(state),
                    None => finished.top.len() == 0,
                }
            }),
    {
        let ghost matched = self.matches(state);
        let ghost start = self;
        let mut parser = self;
        let mut remaining: Vec<InlineFormatting> = Vec::new();
        let mut i: usize = 0;
        while i < parser.formattings.len()
            invariant
                parser == start,
                i <= parser.formattings.len(),
                remaining@ == parser.kinds().take(i as int),
            decreases parser.formattings.len() - i,
        {
            remaining.push(parser.formattings[i].formatting);
            i = i + 1;
            assert(remaining@ =~= parser.kinds().take(i as int));
        }
        assert(remaining@ =~= parser.kinds());
        proof {
            if matched {
                lemma_kinds_match(parser, state);
            }
        }
        let ghost target = state_close_all(state_finish_text(state));
        let ghost mut current = state;
        if parser.formattings.len() == 0 {
            parser.finish_text_part(Ghost(state));
            proof {
                current = state_finish_text(state);
            }
        } else {
            while parser.formattings.len() > 0
                invariant
                    parser.text() == start.text(),
                    parser.characters.len() == 0 || parser.formattings.len() > 0,
                    parser.top_level_parts.len() > 0 || parser.formattings.len() > 0,
                    matched ==> parser.matches(current) && state_close_all(
                        state_finish_text(current),
                    ) == target,
                decreases parser.formattings.len(),
            {
                let count = parser.formattings.len();
                let innermost = parser.formattings[count - 1].formatting;
                proof {
                    assert(parser.kinds()[count - 1] == innermost);
                }
                let ghost before = parser;
                parser.end_formatting(innermost, false, Ghost(current));
                proof {
                    if matched {
                        lemma_close_innermost(current, innermost);
                        assert(open_matches(before.formattings@[count - 1], current.open[count - 1]));
                    }
                    current = state_end(current, innermost, false);
                }
                assert(parser.text() =~= start.text());
            }
        }
        proof {
            if matched {
                assert(current.open.len() == 0);
                assert(state_close_all(state_finish_text(current)) == target);
                assert(state_finish_text(current) == current) by {
                    assert(parser.characters.len() == 0 || parser.formattings.len() > 0);
                }
                assert(current == target);
            }
        }
        proof {
            assert(parser.characters@ =~= Seq::<char>::empty());
            assert(parser.formattings@ =~= Seq::<OpenFormatting>::empty());
            assert(parser.text() =~= rcst_texts(parser.top_level_parts@));
            if parser.top_level_parts.len() == 0 {
                assert(parser.top_level_parts@ =~= Seq::<Rcst>::empty());
            }
        }
        if parser.top_level_parts.len() == 0 {
            None
        } else {
            Some((parser.top_level_parts, remaining))
        }
    }
}

/// A parser in a state has the state's open formattings.
proof fn lemma_kinds_match(parser: SingleLineInlineParser, state: InlineState)
    requires
        parser.matches(state),
    ensures
        parser.kinds() == state_kinds(state),
        state_in_code(state) == (parser.formattings.len() > 0
            && parser.formattings@.last().formatting == InlineFormatting::Code),
{
    assert forall|i: int| 0 <= i < state.open.len() implies parser.kinds()[i] == state_kinds(
        state,
    )[i] by {
        assert(open_matches(parser.formattings@[i], state.open[i]));
    }
    assert(parser.kinds() =~= state_kinds(state));
    if state.open.len() > 0 {
        assert(open_matches(parser.formattings@[state.open.len() - 1], state.open.last()));
    }
}

/// Opening a formatting that is not open yet, while no inline code is open,
/// keeps the formattings proper.
proof fn lemma_proper_after_opening(kinds: Seq<InlineFormatting>, formatting: InlineFormatting)
    requires
        is_proper_formatting_state(kinds),
        !kinds.contains(formatting),
        !kinds.contains(InlineFormatting::Code),
    ensures
        is_proper_formatting_state(kinds.push(formatting)),
{
    let pushed = kinds.push(formatting);
    assert forall|i: int, j: int| 0 <= i < j < pushed.len() implies pushed[i] != pushed[j] by {
        if j == kinds.len() {
            assert(pushed[i] == kinds[i]);
        }
    }
    assert forall|i: int|
        0 <= i < pushed.len() && pushed[i] == InlineFormatting::Code implies i == pushed.len()
        - 1 by {
        if i < kinds.len() {
            assert(kinds[i] == InlineFormatting::Code);
        }
    }
}

/// Closing the innermost formattings keeps the formattings proper.
proof fn lemma_proper_prefix(kinds: Seq<InlineFormatting>, count: int)
    requires
        is_proper_formatting_state(kinds),
        0 <= count <= kinds.len(),
    ensures
        is_proper_formatting_state(kinds.take(count)),
{
    let prefix = kinds.take(count);
    assert forall|i: int, j: int| 0 <= i < j < prefix.len() implies prefix[i] != prefix[j] by {
        assert(prefix[i] == kinds[i]);
        assert(prefix[j] == kinds[j]);
    }
    assert forall|i: int|
        0 <= i < prefix.len() && prefix[i] == InlineFormatting::Code implies i == prefix.len()
        - 1 by {
        assert(prefix[i] == kinds[i]);
    }
}

/// Skipping one more character keeps whether a line ends in a lone
/// backslash, where the skipped part holds no backslash or an escaping pair.
proof fn lemma_lone_backslash_step(line: Seq<char>, i: int)
    requires
        0 <= i < line.len(),
    ensures
        line[i] != '\\' ==> ends_in_lone_backslash(line.skip(i)) == ends_in_lone_backslash(
            line.skip(i + 1),
        ),
        line[i] == '\\' && i + 1 < line.len() ==> ends_in_lone_backslash(line.skip(i))
            == ends_in_lone_backslash(line.skip(i + 2)),
        line[i] == '\\' && i + 1 == line.len() ==> ends_in_lone_backslash(line.skip(i)),
{
    let rest = line.skip(i);
    assert(rest[0] == line[i]);
    assert(rest.skip(1) =~= line.skip(i + 1));
    if i + 1 < line.len() {
        assert(rest.skip(2) =~= line.skip(i + 2));
    }
}

/// The inline elements of a line: text, escaped characters, emphasis, links
/// and inline code. Formattings that earlier lines left open are continued,
/// and those still open at the end of the line are returned. The parts keep
/// the text of the line (but for a backslash at its end that escapes
/// nothing); there are none only where the line is empty and nothing was
/// open.
pub fn inline(line: &str, initial_formatting_state: &[InlineFormatting]) -> (result: Option<
    (Vec<Rcst>, Vec<InlineFormatting>),
>)
    requires
        has_no_repeated_formatting(initial_formatting_state@),
    ensures
        match result {
            Some((parts, remaining)) => rcst_texts(parts@) == inline_source(line@) && parts.len()
                > 0 && (is_proper_formatting_state(initial_formatting_state@)
                ==> is_proper_formatting_state(remaining@)),
            None => line@.len() == 0 && initial_formatting_state@.len() == 0,
        },
        line@.len() > 0 || initial_formatting_state@.len() > 0 <==> result is Some,
        match (result, spec_inline(line@, initial_formatting_state@)) {
            (Some((parts, remaining)), Some((expected_parts, expected_remaining))) => are_inline_nodes(
                parts@,
                expected_parts,
            ) && remaining@ == expected_remaining,
            (None, None) => true,
            _ => false,
        },
{
    let mut parser = SingleLineInlineParser {
        top_level_parts: Vec::new(),
        formattings: Vec::new(),
        characters: Vec::new(),
    };
    let mut k: usize = 0;
    while k < initial_formatting_state.len()
        invariant
            k <= initial_formatting_state@.len(),
            parser.top_level_parts.len() == 0,
            parser.characters.len() == 0,
            parser.formattings.len() == k,
            parser.kinds() == initial_formatting_state@.take(k as int),
            open_formattings_text(parser.formattings@) == Seq::<char>::empty(),
            parser.matches(initial_inline_state(initial_formatting_state@.take(k as int))),
        decreases initial_formatting_state@.len() - k,
    {
        let ghost before = parser.formattings@;
        let entry = OpenFormatting {
            has_opening_char: false,
            formatting: initial_formatting_state[k],
            parts: Vec::new(),
        };
        parser.formattings.push(entry);
        k = k + 1;
        proof {
            assert(parser.formattings@.drop_last() =~= before);
            assert(entry.parts@ =~= Seq::<Rcst>::empty());
            assert(entry.text() =~= Seq::<char>::empty());
            assert(parser.kinds() =~= initial_formatting_state@.take(k as int));
            assert(open_formattings_text(parser.formattings@) =~= Seq::<char>::empty());
            let expected = initial_inline_state(initial_formatting_state@.take(k as int));
            let previous = initial_inline_state(initial_formatting_state@.take(k - 1));
            assert(are_inline_nodes(entry.parts@, Seq::<InlinePart>::empty()));
            assert forall|j: int| 0 <= j < expected.open.len() implies open_matches(
                #[trigger] parser.formattings@[j],
                expected.open[j],
            ) by {
                if j < k - 1 {
                    assert(parser.formattings@[j] == before[j]);
                    assert(expected.open[j] == previous.open[j]);
                }
            }
            assert(parser.top_level_parts@ =~= Seq::<Rcst>::empty());
            assert(are_inline_nodes(parser.top_level_parts@, expected.top));
        }
    }
    let ghost initial = initial_formatting_state@;
    assert(initial_formatting_state@.take(k as int) =~= initial);
    assert(parser.kinds() =~= initial);
    let ghost target = state_run(initial_inline_state(initial), line@, 0);
    let ghost mut state = initial_inline_state(initial);
    assert(parser.characters@ =~= Seq::<char>::empty());
    assert(parser.text() =~= Seq::<char>::empty());
    let chars = chars_of(line);
    let ghost all = chars@;
    let mut i: usize = 0;
    let mut lost_backslash = false;
    assert(all.skip(0) =~= all);
    while i < chars.len()
        invariant
            all == chars@,
            all == line@,
            i <= chars.len(),
            lost_backslash ==> i == chars.len(),
            parser.text() == if lost_backslash {
                all.take(i - 1)
            } else {
                all.take(i as int)
            },
            !lost_backslash ==> ends_in_lone_backslash(all) == ends_in_lone_backslash(
                all.skip(i as int),
            ),
            lost_backslash ==> ends_in_lone_backslash(all),
            is_proper_formatting_state(initial) ==> is_proper_formatting_state(parser.kinds()),
            i > 0 || initial.len() > 0 ==> parser.has_content(),
            !(i > 0 || initial.len() > 0) ==> !parser.has_content(),
            parser.matches(state),
            state_run(state, all, i as int) == target,
            target == state_run(initial_inline_state(initial), line@, 0),
        decreases chars.len() - i,
    {
        let character = chars[i];
        let ghost kinds_before = parser.kinds();
        let ghost text_before = parser.text();
        proof {
            lemma_lone_backslash_step(all, i as int);
            assert(all.take(i + 1) =~= all.take(i as int).push(character));
        }
        let in_code = parser.is_in_code();
        let ghost state_before = state;
        proof {
            lemma_kinds_match(parser, state);
            if is_proper_formatting_state(initial) && !in_code && kinds_before.contains(
                InlineFormatting::Code,
            ) {
                let j = choose|j: int|
                    0 <= j < kinds_before.len() && kinds_before[j] == InlineFormatting::Code;
                assert(kinds_before[kinds_before.len() - 1] == parser.formattings@.last().formatting);
            }
        }
        if character == '_' && !in_code {
            if parser.is_in_emphasized() {
                parser.end_formatting(InlineFormatting::Emphasized, true, Ghost(state));
                proof {
                    state = state_end(state, InlineFormatting::Emphasized, true);
                }
            } else {
                parser.start_formatting(InlineFormatting::Emphasized, Ghost(state));
                proof {
                    state = state_start(state, InlineFormatting::Emphasized);
                }
            }
            i = i + 1;
        } else if character == '[' && !in_code && !parser.is_in_link() {
            parser.start_formatting(InlineFormatting::Link, Ghost(state));
            proof {
                state = state_start(state, InlineFormatting::Link);
            }
            i = i + 1;
        } else if character == ']' && !in_code && parser.is_in_link() {
            parser.end_formatting(InlineFormatting::Link, true, Ghost(state));
            proof {
                state = state_end(state, InlineFormatting::Link, true);
            }
            i = i + 1;
        } else if character == '`' {
            if in_code {
                proof {
                    assert(kinds_before[kinds_before.len() - 1] == InlineFormatting::Code);
                }
                parser.end_formatting(InlineFormatting::Code, true, Ghost(state));
                proof {
                    state = state_end(state, InlineFormatting::Code, true);
                }
            } else {
                parser.start_formatting(InlineFormatting::Code, Ghost(state));
                proof {
                    state = state_start(state, InlineFormatting::Code);
                }
            }
            i = i + 1;
        } else if character == '\\' {
            parser.finish_text_part(Ghost(state));
            proof {
                state = state_finish_text(state);
            }
            if i + 1 < chars.len() {
                let next = chars[i + 1];
                let part = escaped(Some(next));
                proof {
                    assert(Rcst::EscapedChar(Some(next)).text() =~= seq!['\\', next]);
                    assert(part.text() =~= seq!['\\', next]);
                    assert(all.take(i + 2) =~= all.take(i as int) + seq!['\\', next]);
                }
                parser.push_part(part, Ghost(state), Ghost(InlinePart::Escaped(Some(next))));
                proof {
                    state = state_push(state, InlinePart::Escaped(Some(next)));
                }
                i = i + 2;
            } else {
                let part = escaped(None);
                parser.push_part(part, Ghost(state), Ghost(InlinePart::Escaped(None)));
                proof {
                    state = state_push(state, InlinePart::Escaped(None));
                }
                assert(part.text() =~= Seq::<char>::empty());
                lost_backslash = true;
                i = i + 1;
            }
        } else {
            let ghost parser_before = parser;
            parser.characters.push(character);
            assert(parser.text() =~= text_before.push(character));
            proof {
                state = InlineState { characters: state.characters.push(character), ..state };
                assert forall|j: int| 0 <= j < state.open.len() implies open_matches(
                    #[trigger] parser.formattings@[j],
                    state.open[j],
                ) by {
                    assert(open_matches(parser_before.formattings@[j], state_before.open[j]));
                }
            }
            i = i + 1;
        }
        proof {
            if is_proper_formatting_state(initial) {
                let kinds = parser.kinds();
                if kinds.len() < kinds_before.len() {
                    lemma_proper_prefix(kinds_before, kinds.len() as int);
                } else if kinds.len() > kinds_before.len() {
                    lemma_proper_after_opening(kinds_before, kinds.last());
                    assert(kinds =~= kinds_before.push(kinds.last()));
                } else {
                    assert(kinds =~= kinds_before);
                }
            }
        }
    }
    proof {
        if !lost_backslash {
            assert(all.skip(i as int) =~= Seq::<char>::empty());
            assert(all.take(i as int) =~= all);
        }
        assert(state == target);
    }
    parser.finish(Ghost(state))
}

} // verus!
