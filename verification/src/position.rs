use crate::text::{decimal, push_char, push_decimal_wide, push_str};
use core::ops::Range;
use unicode_segmentation::UnicodeSegmentation;
use vstd::prelude::*;
use vstd::string::*;

verus! {

/// The offset of a character in a string as the number of bytes preceding it in
/// UTF-8 encoding.
#[derive(Clone, Copy, Debug, Default, PartialEq, Eq, Structural, Hash, PartialOrd, Ord)]
pub struct Offset(pub usize);

/// A position in a text, counted in lines and characters.
#[derive(Clone, Copy, Debug, PartialEq, Eq, Structural, Hash, PartialOrd, Ord)]
pub struct Position {
    /// Zero-based line index (`\n`-separated)
    pub line: usize,
    /// Zero-based character index (counting grapheme clusters)
    pub character: usize,
}

/// The offsets at which the lines of a text start, in bytes: zero, and the
/// offset after each line feed.
pub open spec fn line_starts(bytes: Seq<u8>) -> Seq<Offset>
    decreases bytes.len(),
{
    if bytes.len() == 0 {
        seq![Offset(0)]
    } else if bytes.last() == 10 {
        line_starts(bytes.drop_last()).push(Offset(bytes.len() as usize))
    } else {
        line_starts(bytes.drop_last())
    }
}

/// The offsets at which the lines of the text start.
pub fn line_start_offsets_raw(text: &str) -> (result: Vec<Offset>)
    ensures
        result@ == line_starts(text.spec_bytes()),
{
    let bytes = text.as_bytes();
    let mut offsets: Vec<Offset> = Vec::new();
    offsets.push(Offset(0));
    let mut i: usize = 0;
    while i < bytes.len()
        invariant
            i <= bytes.len(),
            bytes@ == text.spec_bytes(),
            offsets@ == line_starts(bytes@.take(i as int)),
        decreases bytes.len() - i,
    {
        assert(bytes@.take(i + 1).drop_last() == bytes@.take(i as int));
        if bytes[i] == 10 {
            offsets.push(Offset(i + 1));
        }
        i = i + 1;
    }
    assert(bytes@.take(bytes.len() as int) == bytes@);
    offsets
}

/// The number of bytes that UTF-8 takes for a character.
pub open spec fn utf8_width(c: char) -> nat {
    if (c as u32) < 0x80 {
        1
    } else if (c as u32) < 0x800 {
        2
    } else if (c as u32) < 0x10000 {
        3
    } else {
        4
    }
}

/// The number of bytes that UTF-8 takes for a text.
pub open spec fn utf8_length(chars: Seq<char>) -> nat
    decreases chars.len(),
{
    if chars.len() == 0 {
        0
    } else {
        utf8_length(chars.drop_last()) + utf8_width(chars.last())
    }
}

/// Whether an offset falls between two characters of a text (or at its start
/// or end).
pub open spec fn is_char_offset(chars: Seq<char>, offset: nat) -> bool {
    exists|i: int| 0 <= i <= chars.len() && #[trigger] utf8_length(chars.take(i)) == offset
}

/// The number of grapheme clusters (extended) in a text, as `unicode-segmentation`
/// counts them.
pub uninterp spec fn grapheme_count(chars: Seq<char>) -> nat;

/// Counts the extended grapheme clusters of a text.
///
/// Calls `UnicodeSegmentation::graphemes(text, true)` and counts the clusters
/// it yields. Which clusters these are depends on the text alone and is named
/// here, not stated. The crate's iterator yields nothing for an empty text and
/// a non-empty slice of the text for each cluster, so there are no more
/// clusters than characters and none only for the empty text.
#[verifier::external_body]
pub(crate) fn count_graphemes(text: &str) -> (result: usize)
    ensures
        result == grapheme_count(text@),
        result <= text@.len(),
        result == 0 <==> text@.len() == 0,
{
    text.graphemes(true).count()
}

/// The number of line feeds in a text.
pub open spec fn line_feed_count(chars: Seq<char>) -> nat
    decreases chars.len(),
{
    if chars.len() == 0 {
        0
    } else {
        line_feed_count(chars.drop_last()) + if chars.last() == '\n' {
            1nat
        } else {
            0nat
        }
    }
}

/// The index at which the last line of a text starts: after its last line
/// feed, or zero.
pub open spec fn last_line_start(chars: Seq<char>) -> nat
    decreases chars.len(),
{
    if chars.len() == 0 {
        0
    } else if chars.last() == '\n' {
        chars.len()
    } else {
        last_line_start(chars.drop_last())
    }
}

/// The position of the end of a text: its line is the number of line feeds,
/// its character the number of grapheme clusters after the last line feed.
pub open spec fn end_position(chars: Seq<char>) -> (nat, nat) {
    (line_feed_count(chars), grapheme_count(chars.skip(last_line_start(chars) as int)))
}

/// The number of characters of a text that fill the given number of bytes.
pub open spec fn char_count_at(chars: Seq<char>, offset: nat) -> int {
    choose|i: int| 0 <= i <= chars.len() && #[trigger] utf8_length(chars.take(i)) == offset
}

/// The position of a byte offset in a module's text: the end of the text up to
/// that offset (an offset past the end counts as the end). A module without
/// text has only the position at the start.
pub open spec fn spec_offset_to_position(text: Option<Seq<char>>, offset: nat) -> (nat, nat) {
    match text {
        None => (0, 0),
        Some(chars) => if offset >= utf8_length(chars) {
            end_position(chars)
        } else {
            end_position(chars.take(char_count_at(chars, offset)))
        },
    }
}

/// What an offset needs to be for a position to be found for it: zero where
/// there is no text, and otherwise past the end or between two characters.
pub open spec fn is_valid_offset(text: Option<Seq<char>>, offset: nat) -> bool {
    match text {
        None => offset == 0,
        Some(chars) => offset >= utf8_length(chars) || is_char_offset(chars, offset),
    }
}

/// The view of an optional string slice.
pub open spec fn optional_text(text: Option<&str>) -> Option<Seq<char>> {
    match text {
        Some(text) => Some(text@),
        None => None,
    }
}

fn exec_utf8_width(c: char) -> (width: usize)
    ensures
        width == utf8_width(c),
{
    let code = c as u32;
    if code < 0x80 {
        1
    } else if code < 0x800 {
        2
    } else if code < 0x10000 {
        3
    } else {
        4
    }
}

proof fn lemma_utf8_length_monotonic(chars: Seq<char>, i: int, j: int)
    requires
        0 <= i <= j <= chars.len(),
    ensures
        utf8_length(chars.take(i)) + (j - i) <= utf8_length(chars.take(j)),
    decreases j - i,
{
    if i < j {
        lemma_utf8_length_monotonic(chars, i, j - 1);
        assert(chars.take(j).drop_last() == chars.take(j - 1));
    }
}

proof fn lemma_char_count_at_unique(chars: Seq<char>, offset: nat, i: int)
    requires
        0 <= i <= chars.len(),
        utf8_length(chars.take(i)) == offset,
    ensures
        char_count_at(chars, offset) == i,
{
    let k = char_count_at(chars, offset);
    assert(0 <= k <= chars.len() && utf8_length(chars.take(k)) == offset);
    if k < i {
        lemma_utf8_length_monotonic(chars, k + 1, i);
        lemma_utf8_length_monotonic(chars, k, k + 1);
    } else if i < k {
        lemma_utf8_length_monotonic(chars, i + 1, k);
        lemma_utf8_length_monotonic(chars, i, i + 1);
    }
}

/// The position of the end of a text.
fn end_position_of(chars: &Vec<char>, count: usize) -> (result: Position)
    requires
        count <= chars.len(),
    ensures
        result.line == end_position(chars@.take(count as int)).0,
        result.character == end_position(chars@.take(count as int)).1,
{
    let ghost prefix = chars@.take(count as int);
    let mut line: usize = 0;
    let mut line_start: usize = 0;
    let mut i: usize = 0;
    while i < count
        invariant
            i <= count <= chars.len(),
            prefix == chars@.take(count as int),
            line as nat == line_feed_count(chars@.take(i as int)),
            line_start as nat == last_line_start(chars@.take(i as int)),
            line <= i,
            line_start <= i,
        decreases count - i,
    {
        assert(chars@.take(i + 1).drop_last() == chars@.take(i as int));
        if chars[i] == '\n' {
            line = line + 1;
            line_start = i + 1;
        }
        i = i + 1;
    }
    let mut rest = String::new();
    let mut k: usize = line_start;
    while k < count
        invariant
            line_start <= k <= count <= chars.len(),
            prefix == chars@.take(count as int),
            rest@ == prefix.subrange(line_start as int, k as int),
        decreases count - k,
    {
        push_char(&mut rest, chars[k]);
        k = k + 1;
        assert(prefix.subrange(line_start as int, k as int) == prefix.subrange(
            line_start as int,
            k - 1,
        ).push(prefix[k - 1]));
    }
    assert(rest@ == prefix.skip(line_start as int));
    let character = count_graphemes(rest.as_str());
    Position { line, character }
}

/// The position of a byte offset in a module's text.
pub fn offset_to_position(text: Option<&str>, offset: Offset) -> (result: Position)
    requires
        is_valid_offset(optional_text(text), offset.0 as nat),
    ensures
        (result.line as nat, result.character as nat) == spec_offset_to_position(
            optional_text(text),
            offset.0 as nat,
        ),
{
    let text = match text {
        Some(text) => text,
        None => return Position { line: 0, character: 0 },
    };
    let chars = crate::text::chars_of(text);
    let mut bytes: usize = 0;
    let mut count: usize = 0;
    while count < chars.len() && bytes < offset.0
        invariant
            count <= chars.len(),
            chars@ == text@,
            bytes as nat == utf8_length(chars@.take(count as int)),
            bytes <= offset.0,
            is_valid_offset(Some(text@), offset.0 as nat),
        decreases chars.len() - count,
    {
        assert(chars@.take(count + 1).drop_last() == chars@.take(count as int));
        let width = exec_utf8_width(chars[count]);
        if offset.0 - bytes < width {
            // The offset falls inside this character.
            proof {
                let c = choose|i: int|
                    0 <= i <= chars@.len() && #[trigger] utf8_length(chars@.take(i))
                        == offset.0;
                if offset.0 < utf8_length(text@) {
                    assert(0 <= c <= chars@.len() && utf8_length(chars@.take(c)) == offset.0);
                    if c <= count {
                        lemma_utf8_length_monotonic(chars@, c, count as int);
                    } else {
                        lemma_utf8_length_monotonic(chars@, count + 1, c);
                    }
                } else {
                    lemma_utf8_length_monotonic(chars@, count + 1, chars@.len() as int);
                    assert(chars@.take(chars@.len() as int) == chars@);
                }
            }
            assert(false);
            return Position { line: 0, character: 0 };
        }
        bytes = bytes + width;
        count = count + 1;
    }
    proof {
        if count == chars.len() {
            assert(chars@.take(count as int) == text@);
        } else {
            assert(bytes == offset.0);
            lemma_char_count_at_unique(text@, offset.0 as nat, count as int);
            lemma_utf8_length_monotonic(chars@, count as int, chars@.len() as int);
            assert(chars@.take(chars@.len() as int) == text@);
        }
    }
    end_position_of(&chars, count)
}

/// The positions of the start and end of a range of byte offsets.
pub fn range_to_positions(text: Option<&str>, range: Range<Offset>) -> (result: Range<Position>)
    requires
        is_valid_offset(optional_text(text), range.start.0 as nat),
        is_valid_offset(optional_text(text), range.end.0 as nat),
    ensures
        (result.start.line as nat, result.start.character as nat) == spec_offset_to_position(
            optional_text(text),
            range.start.0 as nat,
        ),
        (result.end.line as nat, result.end.character as nat) == spec_offset_to_position(
            optional_text(text),
            range.end.0 as nat,
        ),
{
    let start = offset_to_position(text, range.start);
    let end = offset_to_position(text, range.end);
    Range { start, end }
}

/// The text of a position, with its line and character counted from one.
pub open spec fn position_text(position: Position) -> Seq<char> {
    decimal((position.line + 1) as nat) + ":"@ + decimal((position.character + 1) as nat)
}

impl Position {
    /// The text of this position, as it is displayed.
    pub fn to_string(&self) -> (result: String)
        ensures
            result@ == position_text(*self),
    {
        let mut result = String::new();
        push_decimal_wide(&mut result, self.line as u128 + 1);
        push_str(&mut result, ":");
        push_decimal_wide(&mut result, self.character as u128 + 1);
        result
    }
}

/// The text of a range of positions: its start and end with a dash between.
pub open spec fn range_text(range: Range<Position>) -> Seq<char> {
    position_text(range.start) + " – "@ + position_text(range.end)
}

/// The text of a range of positions, as it is displayed.
pub fn format_range(range: &Range<Position>) -> (result: String)
    ensures
        result@ == range_text(*range),
{
    let mut result = range.start.to_string();
    push_str(&mut result, " – ");
    let end = range.end.to_string();
    push_str(&mut result, end.as_str());
    result
}

/// The line starts of a text begin with zero, grow strictly, and there is one
/// more of them than the text has line feeds.
pub proof fn lemma_line_starts_shape(bytes: Seq<u8>)
    requires
        bytes.len() <= usize::MAX,
    ensures
        line_starts(bytes).len() >= 1,
        line_starts(bytes)[0] == Offset(0),
        forall|i: int, j: int|
            0 <= i < j < line_starts(bytes).len() ==> line_starts(bytes)[i].0
                < line_starts(bytes)[j].0,
        forall|i: int|
            0 < i < line_starts(bytes).len() ==> bytes[line_starts(bytes)[i].0 - 1] == 10,
        forall|i: int| 0 <= i < line_starts(bytes).len() ==> line_starts(bytes)[i].0 <= bytes.len(),
    decreases bytes.len(),
{
    if bytes.len() > 0 {
        let rest = bytes.drop_last();
        lemma_line_starts_shape(rest);
        let starts = line_starts(bytes);
        let old_starts = line_starts(rest);
        if bytes.last() == 10 {
            assert(starts == old_starts.push(Offset(bytes.len() as usize)));
        } else {
            assert(starts == old_starts);
        }
        assert forall|i: int|
            0 < i < starts.len() implies bytes[starts[i].0 - 1] == 10 by {
            if i < old_starts.len() {
                assert(starts[i] == old_starts[i]);
                assert(bytes[old_starts[i].0 - 1] == rest[old_starts[i].0 - 1]);
            }
        }
        assert forall|i: int, j: int| 0 <= i < j < starts.len() implies starts[i].0
            < starts[j].0 by {
            if j >= old_starts.len() {
                assert(starts[i] == old_starts[i]);
            } else {
                assert(starts[i] == old_starts[i]);
                assert(starts[j] == old_starts[j]);
            }
        }
    }
}

} // verus!
