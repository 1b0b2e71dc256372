use crate::position::utf8_length;
use crate::text::{
    chars_of, decimal, joined, push_decimal, push_joined, push_joined_prefix, push_str, string_views,
};
use vstd::prelude::*;

verus! {

/// A Candy value to be formatted, as a tree: an integer by its decimal text,
/// a tag with its symbol and optional value, a text, a list, a struct by its
/// key and value pairs, a function, or a port.
pub enum FormatValue {
    Int(String),
    Tag { symbol: String, value: Option<Box<FormatValue>> },
    Text(String),
    List(Vec<FormatValue>),
    Struct(Vec<(FormatValue, FormatValue)>),
    Function,
    SendPort,
    ReceivePort,
}

/// How tightly a formatted value binds to what surrounds it.
#[derive(Clone, Copy, Debug, PartialEq, Eq, Structural)]
pub enum Precedence {
    /// No spaces allowed.
    High,
    /// Spaces allowed.
    Low,
}

/// The most bytes that a formatted value may take.
#[derive(Clone, Copy, Debug, PartialEq, Eq, Structural)]
pub enum MaxLength {
    Unlimited,
    Limited(usize),
}

impl MaxLength {
    /// Whether a text of the given length in bytes fits.
    pub open spec fn admits(self, length: nat) -> bool {
        match self {
            MaxLength::Unlimited => true,
            MaxLength::Limited(max) => length <= max,
        }
    }

    /// The limit that is left after the given number of bytes are used.
    pub open spec fn spec_subtract(self, used: nat) -> MaxLength {
        match self {
            MaxLength::Unlimited => MaxLength::Unlimited,
            MaxLength::Limited(max) => MaxLength::Limited((max - used) as usize),
        }
    }

    /// Whether a text of the given length in bytes fits.
    pub fn fits(self, length: usize) -> (result: bool)
        ensures
            result == self.admits(length as nat),
    {
        match self {
            MaxLength::Unlimited => true,
            MaxLength::Limited(max) => length <= max,
        }
    }

    /// Whether a text fits whose length is given capped at the largest `u128`.
    fn fits_capped(self, length: u128, Ghost(exact): Ghost<nat>) -> (result: bool)
        requires
            length == capped(exact),
        ensures
            result == self.admits(exact),
    {
        match self {
            MaxLength::Unlimited => true,
            MaxLength::Limited(max) => length <= max as u128,
        }
    }

    /// The limit that is left after the given number of bytes are used.
    pub fn subtract(self, used: usize) -> (result: MaxLength)
        requires
            self.admits(used as nat),
        ensures
            result == self.spec_subtract(used as nat),
    {
        match self {
            MaxLength::Unlimited => MaxLength::Unlimited,
            MaxLength::Limited(max) => MaxLength::Limited(max - used),
        }
    }
}

/// A number capped at the largest `u128`.
pub open spec fn capped(n: nat) -> nat {
    if n > u128::MAX {
        u128::MAX as nat
    } else {
        n
    }
}

/// Adds two capped numbers, capping the sum.
fn add_capped(a: u128, b: u128) -> (result: u128)
    ensures
        result == capped((a + b) as nat),
{
    a.saturating_add(b)
}

/// The length of a text in bytes, counted in a wide number.
fn byte_length(text: &str) -> (result: u128)
    ensures
        result == utf8_length(text@),
        result <= 4 * text@.len(),
        result <= 4 * (usize::MAX as nat),
{
    let chars = chars_of(text);
    let mut length: u128 = 0;
    let mut i: usize = 0;
    while i < chars.len()
        invariant
            i <= chars.len(),
            chars@ == text@,
            length == utf8_length(chars@.take(i as int)),
            length <= 4 * i,
        decreases chars.len() - i,
    {
        assert(chars@.take(i + 1).drop_last() == chars@.take(i as int));
        let c = chars[i];
        let code = c as u32;
        let width: u128 = if code < 0x80 {
            1
        } else if code < 0x800 {
            2
        } else if code < 0x10000 {
            3
        } else {
            4
        };
        length = length + width;
        i = i + 1;
    }
    assert(chars@.take(chars.len() as int) == text@);
    length
}

/// The ellipsis that stands for what does not fit.
pub open spec fn ellipsis() -> Seq<char> {
    "…"@
}

/// The total length in bytes of a sequence of texts.
pub open spec fn total_length(texts: Seq<Seq<char>>) -> nat
    decreases texts.len(),
{
    if texts.len() == 0 {
        0
    } else {
        total_length(texts.drop_last()) + utf8_length(texts.last())
    }
}

/// The text that stands for the items or entries that are left out.
pub open spec fn more_text(count: nat) -> Seq<char> {
    "+ "@ + decimal(count) + " more"@
}

/// Whether one text comes before or equals another in Rust's order of strings:
/// lexicographically by code point, which is the order of their UTF-8 bytes.
pub open spec fn text_le(a: Seq<char>, b: Seq<char>) -> bool
    decreases a.len(),
{
    if a.len() == 0 {
        true
    } else if b.len() == 0 {
        false
    } else if a[0] != b[0] {
        (a[0] as u32) < (b[0] as u32)
    } else {
        text_le(a.drop_first(), b.drop_first())
    }
}

/// Inserts a keyed entry into a sequence sorted by key, after all entries
/// whose key does not come after its own.
pub open spec fn insert_sorted(sorted: Seq<(Seq<char>, int)>, entry: (Seq<char>, int)) -> Seq<
    (Seq<char>, int),
>
    decreases sorted.len(),
{
    if sorted.len() == 0 {
        seq![entry]
    } else if text_le(sorted.last().0, entry.0) {
        sorted.push(entry)
    } else {
        insert_sorted(sorted.drop_last(), entry).push(sorted.last())
    }
}

/// Keyed entries sorted stably by key: entries with equal keys keep their
/// order.
pub open spec fn sort_by_key(entries: Seq<(Seq<char>, int)>) -> Seq<(Seq<char>, int)>
    decreases entries.len(),
{
    if entries.len() == 0 {
        Seq::empty()
    } else {
        insert_sorted(sort_by_key(entries.drop_last()), entries.last())
    }
}

/// The formatted list: all items if they fit, otherwise as many items as
/// fit (at least one) followed by how many are left out, otherwise how many
/// items there are, otherwise an ellipsis. Each of these is taken only where
/// its whole text fits.
pub open spec fn list_text(items: Seq<Seq<char>>, max_length: MaxLength) -> Seq<char> {
    let n = items.len();
    if !max_length.admits(3) {
        ellipsis()
    } else if n == 0 {
        "(,)"@
    } else if !max_length.admits(4) {
        ellipsis()
    } else if n == 1 {
        if max_length.admits(utf8_length(items[0]) + 3) {
            "("@ + items[0] + ",)"@
        } else {
            "(…,)"@
        }
    } else {
        let shown = shown_items(items, max_length, 0);
        if shown == n && max_length.admits(total_length(items) + 2 * n) {
            "("@ + joined(items, ", "@) + ")"@
        } else {
            match fitting_item_prefix(items, max_length, shown) {
                Some(kept) => "("@ + joined(items.take(kept as int), ", "@) + ", "@ + more_text(
                    (n - kept) as nat,
                ) + ")"@,
                None => {
                    let summary = "(list of "@ + decimal(n) + " items)"@;
                    if max_length.admits(utf8_length(summary)) {
                        summary
                    } else {
                        ellipsis()
                    }
                },
            }
        }
    }
}

/// How many items are formatted before the room for one more runs out: the
/// first count, from `start` on, at which the parentheses, the items so far
/// with a comma and a space each, and one byte more do not fit.
pub open spec fn shown_items(items: Seq<Seq<char>>, max_length: MaxLength, start: nat) -> nat
    decreases items.len() - start,
{
    if start >= items.len() || !max_length.admits(
        2 + total_length(items.take(start as int)) + 2 * start + 1,
    ) {
        start
    } else {
        shown_items(items, max_length, start + 1)
    }
}

/// The longest prefix shorter than `count`, of at least one item, whose
/// list text (parentheses, the items with a comma and a space after each, and
/// the text for the items left out) fits.
pub open spec fn fitting_item_prefix(items: Seq<Seq<char>>, max_length: MaxLength, count: nat) -> Option<
    nat,
>
    decreases count,
{
    if count <= 1 {
        None
    } else if max_length.admits(
        total_length(items.take(count - 1)) + 2 * (count - 1) as nat + 2 + utf8_length(
            more_text((items.len() - (count - 1)) as nat),
        ),
    ) {
        Some((count - 1) as nat)
    } else {
        fitting_item_prefix(items, max_length, (count - 1) as nat)
    }
}

/// The total length of the formatted values when the first `count` of them are
/// shown and the others are an ellipsis, which counts one byte each.
pub open spec fn values_length(values: Seq<Seq<char>>, count: nat) -> nat {
    (values.len() - count) as nat + total_length(values.take(count as int))
}

/// How many values are formatted: values are added one by one until the
/// entries no longer fit with the one just added.
pub open spec fn shown_values(
    keys_length: nat,
    values: Seq<Seq<char>>,
    max_length: MaxLength,
    start: nat,
) -> nat
    decreases values.len() - start,
{
    if start >= values.len() {
        start
    } else if !max_length.admits(keys_length + 4 * values.len() + values_length(values, start + 1)) {
        start + 1
    } else {
        shown_values(keys_length, values, max_length, start + 1)
    }
}

/// How many values are kept after values are dropped from the back until the
/// entries fit (none if they never do).
pub open spec fn kept_values(
    keys_length: nat,
    values: Seq<Seq<char>>,
    max_length: MaxLength,
    count: nat,
) -> nat
    decreases count,
{
    if count == 0 {
        0
    } else if max_length.admits(
        keys_length + values_length(values, (count - 1) as nat) + 4 * values.len(),
    ) {
        (count - 1) as nat
    } else {
        kept_values(keys_length, values, max_length, (count - 1) as nat)
    }
}

/// The longest prefix of keys shorter than `count` that fits, each with a
/// colon, a space, an ellipsis for its value, a comma and a space, together
/// with the text for the entries left out.
pub open spec fn fitting_key_prefix(keys: Seq<Seq<char>>, max_length: MaxLength, count: nat) -> Option<
    nat,
>
    decreases count,
{
    if count == 0 {
        None
    } else if max_length.admits(
        2 + total_length(keys.take(count - 1)) + 5 * (count - 1) as nat + utf8_length(
            more_text((keys.len() - (count - 1)) as nat),
        ),
    ) {
        Some((count - 1) as nat)
    } else {
        fitting_key_prefix(keys, max_length, (count - 1) as nat)
    }
}

/// An entry whose value is shown, or left out as an ellipsis.
pub open spec fn entry_text(key: Seq<char>, value: Option<Seq<char>>) -> Seq<char> {
    match value {
        Some(value) => key + ": "@ + value,
        None => key + ": …"@,
    }
}

/// The entries with the first `shown` values shown.
pub open spec fn entry_texts(keys: Seq<Seq<char>>, values: Seq<Seq<char>>, shown: nat) -> Seq<
    Seq<char>,
> {
    Seq::new(
        keys.len(),
        |i: int|
            entry_text(
                keys[i],
                if i < shown {
                    Some(values[i])
                } else {
                    None
                },
            ),
    )
}

/// The formatted struct, from its keys in sorted order and their values: all
/// entries if they fit, otherwise all keys with as many values as fit,
/// otherwise as many keys as fit followed by how many are left out, otherwise
/// how many entries there are, otherwise an ellipsis.
pub open spec fn struct_text(keys: Seq<Seq<char>>, values: Seq<Seq<char>>, max_length: MaxLength) -> Seq<
    char,
> {
    let n = keys.len();
    let keys_length = total_length(keys);
    if !max_length.admits(2) {
        ellipsis()
    } else if n == 0 {
        "[]"@
    } else if !max_length.admits(2 + keys_length + 5 * n) {
        match fitting_key_prefix(keys, max_length, n) {
            Some(kept) => "["@ + joined(entry_texts(keys.take(kept as int), values, 0), ", "@)
                + ", "@ + more_text((n - kept) as nat) + "]"@,
            None => {
                let summary = "[struct with "@ + decimal(n) + " entries]"@;
                if max_length.admits(utf8_length(summary)) {
                    summary
                } else {
                    ellipsis()
                }
            },
        }
    } else {
        let shown = shown_values(keys_length, values, max_length, 0);
        if shown == n && max_length.admits(keys_length + 4 * n + values_length(values, n)) {
            "["@ + joined(entry_texts(keys, values, n), ", "@) + "]"@
        } else {
            "["@ + joined(
                entry_texts(keys, values, kept_values(keys_length, values, max_length, shown)),
                ", "@,
            ) + "]"@
        }
    }
}

impl FormatValue {
    /// The text of this value, formatted to fit the given length in bytes
    /// where it can; what does not fit is shortened or replaced by an
    /// ellipsis. The items of lists and the keys and values of structs are
    /// formatted without a limit first.
    pub open spec fn formatted(self, precedence: Precedence, max_length: MaxLength) -> Seq<char>
        decreases self,
    {
        match self {
            FormatValue::Int(text) => if max_length.admits(utf8_length(text@)) {
                text@
            } else {
                ellipsis()
            },
            FormatValue::Tag { symbol, value } => {
                let needs_parentheses = value is Some && precedence == Precedence::High;
                let structure: nat = if needs_parentheses {
                    5
                } else if value is Some {
                    3
                } else {
                    1
                };
                if !max_length.admits(structure) {
                    ellipsis()
                } else {
                    let symbol_fits = max_length.admits(
                        (structure - 1) as nat + utf8_length(symbol@),
                    );
                    let head = if symbol_fits {
                        symbol@
                    } else {
                        ellipsis()
                    };
                    let tail = match value {
                        Some(value) => " "@ + if symbol_fits {
                            value.formatted(
                                Precedence::High,
                                max_length.spec_subtract(
                                    (structure - 2) as nat + utf8_length(symbol@),
                                ),
                            )
                        } else {
                            ellipsis()
                        },
                        None => Seq::empty(),
                    };
                    if needs_parentheses {
                        "("@ + head + tail + ")"@
                    } else {
                        head + tail
                    }
                }
            },
            FormatValue::Text(text) => if max_length.admits(1 + utf8_length(text@) + 1) {
                "\""@ + text@ + "\""@
            } else {
                ellipsis()
            },
            FormatValue::Function => if max_length.admits(5) {
                "{ … }"@
            } else {
                ellipsis()
            },
            FormatValue::List(items) => list_text(formatted_items(items@), max_length),
            FormatValue::Struct(entries) => {
                let sorted = sort_by_key(formatted_keys(entries@));
                let values = formatted_values(entries@);
                struct_text(
                    sorted.map_values(|entry: (Seq<char>, int)| entry.0),
                    sorted.map_values(|entry: (Seq<char>, int)| values[entry.1]),
                    max_length,
                )
            },
            FormatValue::SendPort => match precedence {
                Precedence::High => "(send port)"@,
                Precedence::Low => "send port"@,
            },
            FormatValue::ReceivePort => match precedence {
                Precedence::High => "(receive port)"@,
                Precedence::Low => "receive port"@,
            },
        }
    }
}

/// The items of a list, each formatted without a limit.
pub open spec fn formatted_items(items: Seq<FormatValue>) -> Seq<Seq<char>>
    decreases items,
{
    if items.len() == 0 {
        Seq::empty()
    } else {
        formatted_items(items.drop_last()).push(
            items.last().formatted(Precedence::Low, MaxLength::Unlimited),
        )
    }
}

/// The keys of a struct's entries, each formatted without a limit, with the
/// index of its entry.
pub open spec fn formatted_keys(entries: Seq<(FormatValue, FormatValue)>) -> Seq<(Seq<char>, int)>
    decreases entries,
{
    if entries.len() == 0 {
        Seq::empty()
    } else {
        formatted_keys(entries.drop_last()).push(
            (
                entries.last().0.formatted(Precedence::Low, MaxLength::Unlimited),
                entries.len() - 1,
            ),
        )
    }
}

/// The values of a struct's entries, each formatted without a limit.
pub open spec fn formatted_values(entries: Seq<(FormatValue, FormatValue)>) -> Seq<Seq<char>>
    decreases entries,
{
    if entries.len() == 0 {
        Seq::empty()
    } else {
        formatted_values(entries.drop_last()).push(
            entries.last().1.formatted(Precedence::Low, MaxLength::Unlimited),
        )
    }
}


/// Without a limit, a tag with a value is its symbol, a space and the value
/// formatted at high precedence; at high precedence the whole tag stands in
/// parentheses. So a value that is itself a tag with a value stands in
/// parentheses after the symbol: `Foo (Bar 5)`.
pub proof fn lemma_tag_value_in_parentheses(value: FormatValue)
    ensures
        value matches FormatValue::Tag { symbol, value: Some(inner) } ==> {
            &&& value.formatted(Precedence::Low, MaxLength::Unlimited) == symbol@ + " "@
                + inner.formatted(Precedence::High, MaxLength::Unlimited)
            &&& value.formatted(Precedence::High, MaxLength::Unlimited) == "("@ + value.formatted(
                Precedence::Low,
                MaxLength::Unlimited,
            ) + ")"@
            &&& (*inner matches FormatValue::Tag { value: Some(_), .. }) ==> value.formatted(
                Precedence::Low,
                MaxLength::Unlimited,
            ) == symbol@ + " ("@ + inner.formatted(Precedence::Low, MaxLength::Unlimited) + ")"@
        },
{
    if let FormatValue::Tag { symbol, value: Some(inner) } = value {
        let low = value.formatted(Precedence::Low, MaxLength::Unlimited);
        let high = value.formatted(Precedence::High, MaxLength::Unlimited);
        assert(low == symbol@ + " "@ + inner.formatted(Precedence::High, MaxLength::Unlimited));
        assert(high == "("@ + symbol@ + " "@ + inner.formatted(
            Precedence::High,
            MaxLength::Unlimited,
        ) + ")"@);
        assert(high =~= "("@ + low + ")"@);
        if let FormatValue::Tag { symbol: inner_symbol, value: Some(innermost) } = *inner {
            let inner_low = inner.formatted(Precedence::Low, MaxLength::Unlimited);
            let inner_high = inner.formatted(Precedence::High, MaxLength::Unlimited);
            assert(inner_low == inner_symbol@ + " "@ + innermost.formatted(
                Precedence::High,
                MaxLength::Unlimited,
            ));
            assert(inner_high =~= "("@ + inner_low + ")"@);
            reveal_strlit(" ");
            reveal_strlit("(");
            reveal_strlit(" (");
            assert(" ("@ =~= " "@ + "("@);
            assert(low =~= symbol@ + " ("@ + inner_low + ")"@);
        }
    }
}

/// Adds two numbers, the first of them capped, capping the sum.
proof fn lemma_capped_add(x: nat, y: nat)
    ensures
        capped(capped(x) + y) == capped(x + y),
{
}

/// Whether one text comes before or equals another in Rust's order of strings.
fn text_le_exec(a: &str, b: &str) -> (result: bool)
    ensures
        result == text_le(a@, b@),
{
    let a_chars = chars_of(a);
    let b_chars = chars_of(b);
    let mut i: usize = 0;
    assert(a@.skip(0) =~= a@);
    assert(b@.skip(0) =~= b@);
    while i < a_chars.len() && i < b_chars.len() && a_chars[i] == b_chars[i]
        invariant
            i <= a_chars.len(),
            i <= b_chars.len(),
            a_chars@ == a@,
            b_chars@ == b@,
            text_le(a@, b@) == text_le(a@.skip(i as int), b@.skip(i as int)),
        decreases a_chars.len() - i,
    {
        assert(a@.skip(i as int).drop_first() == a@.skip(i + 1));
        assert(b@.skip(i as int).drop_first() == b@.skip(i + 1));
        i = i + 1;
    }
    if i == a_chars.len() {
        true
    } else if i == b_chars.len() {
        false
    } else {
        assert(a@.skip(i as int)[0] == a_chars@[i as int]);
        assert(b@.skip(i as int)[0] == b_chars@[i as int]);
        (a_chars[i] as u32) < (b_chars[i] as u32)
    }
}

/// The values of keyed entries.
pub open spec fn keyed_views(entries: Seq<(String, usize)>) -> Seq<(Seq<char>, int)> {
    entries.map_values(|entry: (String, usize)| (entry.0@, entry.1 as int))
}

proof fn lemma_insert_sorted_split(sorted: Seq<(Seq<char>, int)>, entry: (Seq<char>, int), at: int)
    requires
        0 <= at < sorted.len(),
        !text_le(sorted[at].0, entry.0),
    ensures
        insert_sorted(sorted.take(at + 1), entry) == insert_sorted(sorted.take(at), entry).push(
            sorted[at],
        ),
{
    assert(sorted.take(at + 1).drop_last() == sorted.take(at));
}

/// Sorts keyed entries stably by key, by inserting them one by one.
fn sort_keyed(entries: Vec<(String, usize)>) -> (result: Vec<(String, usize)>)
    ensures
        keyed_views(result@) == sort_by_key(keyed_views(entries@)),
{
    let mut sorted: Vec<(String, usize)> = Vec::new();
    let mut entries = entries;
    let ghost all = keyed_views(entries@);
    let mut count: usize = 0;
    assert(all.skip(0) =~= all);
    assert(all.len() == entries.len());
    while entries.len() > 0
        invariant
            count + entries.len() == all.len(),
            all.len() <= usize::MAX,
            keyed_views(entries@) == all.skip(count as int),
            keyed_views(sorted@) == sort_by_key(all.take(count as int)),
            sorted.len() == count,
        decreases entries.len(),
    {
        let ghost before = entries@;
        let entry = entries.remove(0);
        assert(keyed_views(before)[0] == all[count as int]);
        assert forall|j: int| 0 <= j < entries.len() implies #[trigger] keyed_views(entries@)[j]
            == all.skip(count + 1)[j] by {
            assert(entries@[j] == before[j + 1]);
            assert(keyed_views(before)[j + 1] == all.skip(count as int)[j + 1]);
        }
        assert(keyed_views(entries@) =~= all.skip(count + 1));
        assert(all.take(count + 1).drop_last() == all.take(count as int));
        let ghost entry_view = (entry.0@, entry.1 as int);
        assert(entry_view == all[count as int]);
        let ghost old_sorted = keyed_views(sorted@);
        // Find where the entry goes: after the last entry whose key does not
        // come after its own.
        let mut at: usize = sorted.len();
        assert(old_sorted.take(at as int) =~= old_sorted);
        assert(insert_sorted(old_sorted, entry_view) + old_sorted.skip(at as int) =~= insert_sorted(
            old_sorted,
            entry_view,
        ));
        loop
            invariant
                at <= sorted.len(),
                keyed_views(sorted@) == old_sorted,
                entry_view == (entry.0@, entry.1 as int),
                insert_sorted(old_sorted, entry_view) == insert_sorted(
                    old_sorted.take(at as int),
                    entry_view,
                ) + old_sorted.skip(at as int),
            ensures
                at == 0 || text_le(old_sorted[at - 1].0, entry_view.0),
                insert_sorted(old_sorted, entry_view) == insert_sorted(
                    old_sorted.take(at as int),
                    entry_view,
                ) + old_sorted.skip(at as int),
                at <= sorted.len(),
            decreases at,
        {
            if at == 0 {
                break;
            }
            assert(old_sorted[at - 1] == (sorted@[at - 1].0@, sorted@[at - 1].1 as int));
            if text_le_exec(sorted[at - 1].0.as_str(), entry.0.as_str()) {
                break;
            }
            proof {
                lemma_insert_sorted_split(old_sorted, entry_view, at - 1);
                assert(old_sorted.skip(at - 1) =~= seq![old_sorted[at - 1]] + old_sorted.skip(
                    at as int,
                ));
                assert(insert_sorted(old_sorted.take(at - 1), entry_view).push(old_sorted[at - 1])
                    + old_sorted.skip(at as int) =~= insert_sorted(
                    old_sorted.take(at - 1),
                    entry_view,
                ) + old_sorted.skip(at - 1));
            }
            at = at - 1;
        }
        proof {
            if at > 0 {
                assert(old_sorted.take(at as int).last() == old_sorted[at - 1]);
                assert(old_sorted.take(at as int).drop_last() == old_sorted.take(at - 1));
            }
            assert(insert_sorted(old_sorted.take(at as int), entry_view) == old_sorted.take(
                at as int,
            ).push(entry_view));
        }
        sorted.insert(at, entry);
        assert(keyed_views(sorted@) =~= old_sorted.take(at as int).push(entry_view)
            + old_sorted.skip(at as int));
        count = count + 1;
    }
    assert(all.take(all.len() as int) == all);
    sorted
}

/// The byte lengths of a sequence of texts summed up to each count, capped.
fn prefix_lengths(texts: &Vec<String>) -> (result: Vec<u128>)
    ensures
        result.len() == texts.len() + 1,
        forall|j: int|
            0 <= j <= texts.len() ==> #[trigger] result@[j] == capped(
                total_length(string_views(texts@).take(j)),
            ),
{
    let ghost views = string_views(texts@);
    let mut result: Vec<u128> = Vec::new();
    result.push(0);
    let mut total: u128 = 0;
    let mut i: usize = 0;
    while i < texts.len()
        invariant
            i <= texts.len(),
            views == string_views(texts@),
            result.len() == i + 1,
            total == capped(total_length(views.take(i as int))),
            forall|j: int| 0 <= j <= i ==> #[trigger] result@[j] == capped(
                total_length(views.take(j)),
            ),
        decreases texts.len() - i,
    {
        assert(views.take(i + 1).drop_last() == views.take(i as int));
        assert(views.take(i + 1).last() == texts@[i as int]@);
        let length = byte_length(texts[i].as_str());
        proof {
            lemma_capped_add(total_length(views.take(i as int)), length as nat);
        }
        total = add_capped(total, length);
        result.push(total);
        i = i + 1;
    }
    result
}

/// The text for the items or entries that are left out.
fn more_text_of(count: usize) -> (result: String)
    ensures
        result@ == more_text(count as nat),
{
    let mut result = String::from_str("+ ");
    push_decimal(&mut result, count);
    push_str(&mut result, " more");
    result
}

/// The formatted list, from its items formatted without a limit.
fn list_text_of(items: &Vec<String>, max_length: MaxLength) -> (result: String)
    ensures
        result@ == list_text(string_views(items@), max_length),
{
    let ghost texts = string_views(items@);
    if !max_length.fits(3) {
        return String::from_str("…");
    }
    let n = items.len();
    if n == 0 {
        return String::from_str("(,)");
    }
    if !max_length.fits(4) {
        return String::from_str("…");
    }
    if n == 1 {
        let length = byte_length(items[0].as_str());
        if max_length.fits_capped(length + 3, Ghost(utf8_length(texts[0]) + 3)) {
            let mut result = String::from_str("(");
            push_str(&mut result, items[0].as_str());
            push_str(&mut result, ",)");
            return result;
        } else {
            return String::from_str("(…,)");
        }
    }
    let sums = prefix_lengths(items);
    let mut shown: usize = 0;
    while shown < n && max_length.fits_capped(
        add_capped(sums[shown], 2 * shown as u128 + 3),
        Ghost((2 + total_length(texts.take(shown as int)) + 2 * shown + 1) as nat),
    )
        invariant
            shown <= n == items.len(),
            texts == string_views(items@),
            sums.len() == n + 1,
            forall|j: int| 0 <= j <= n ==> #[trigger] sums@[j] == capped(
                total_length(texts.take(j)),
            ),
            shown_items(texts, max_length, 0) == shown_items(texts, max_length, shown as nat),
        decreases n - shown,
    {
        proof {
            lemma_capped_add(total_length(texts.take(shown as int)), (2 * shown + 3) as nat);
        }
        shown = shown + 1;
    }
    proof {
        if shown < n {
            lemma_capped_add(total_length(texts.take(shown as int)), (2 * shown + 3) as nat);
        }
        assert(texts.take(n as int) == texts);
        lemma_capped_add(total_length(texts), (2 * n) as nat);
    }
    if shown == n && max_length.fits_capped(
        add_capped(sums[n], 2 * n as u128),
        Ghost((total_length(texts) + 2 * n) as nat),
    ) {
        let mut result = String::from_str("(");
        push_joined(&mut result, items, ", ");
        push_str(&mut result, ")");
        return result;
    }
    let mut kept: usize = shown;
    loop
        invariant
            kept <= shown <= n == items.len(),
            n >= 2,
            max_length.admits(3),
            max_length.admits(4),
            shown as nat == shown_items(texts, max_length, 0),
            !(shown == n && max_length.admits((total_length(texts) + 2 * n) as nat)),
            texts == string_views(items@),
            sums.len() == n + 1,
            forall|j: int| 0 <= j <= n ==> #[trigger] sums@[j] == capped(
                total_length(texts.take(j)),
            ),
            fitting_item_prefix(texts, max_length, shown as nat) == fitting_item_prefix(
                texts,
                max_length,
                kept as nat,
            ),
        decreases kept,
    {
        if kept <= 1 {
            let mut summary = String::from_str("(list of ");
            push_decimal(&mut summary, n);
            push_str(&mut summary, " items)");
            let length = byte_length(summary.as_str());
            if max_length.fits_capped(length, Ghost(utf8_length(summary@))) {
                return summary;
            } else {
                return String::from_str("…");
            }
        }
        let candidate = kept - 1;
        let more = more_text_of(n - candidate);
        let more_length = byte_length(more.as_str());
        let needed = add_capped(sums[candidate], 2 * candidate as u128 + 2 + more_length);
        proof {
            lemma_capped_add(
                total_length(texts.take(candidate as int)),
                (2 * candidate + 2 + more_length) as nat,
            );
        }
        if max_length.fits_capped(
            needed,
            Ghost(
                (total_length(texts.take(candidate as int)) + 2 * candidate + 2
                    + more_length) as nat,
            ),
        ) {
            let mut result = String::from_str("(");
            push_joined_prefix(&mut result, items, candidate, ", ");
            assert(string_views(items@.take(candidate as int)) =~= texts.take(candidate as int));
            push_str(&mut result, ", ");
            push_str(&mut result, more.as_str());
            push_str(&mut result, ")");
            return result;
        }
        kept = candidate;
    }
}

/// Adds two capped numbers, capping the sum.
proof fn lemma_capped_sum(x: nat, y: nat)
    ensures
        capped(capped(x) + capped(y)) == capped(x + y),
{
}

/// The entries of a struct as texts: the first `count` keys, of which the
/// first `shown` have their values.
fn entry_strings(keys: &Vec<String>, values: &Vec<String>, count: usize, shown: usize) -> (result:
    Vec<String>)
    requires
        count <= keys.len() == values.len(),
    ensures
        string_views(result@) == entry_texts(
            string_views(keys@).take(count as int),
            string_views(values@),
            shown as nat,
        ),
{
    let ghost expected = entry_texts(
        string_views(keys@).take(count as int),
        string_views(values@),
        shown as nat,
    );
    let mut result: Vec<String> = Vec::new();
    let mut i: usize = 0;
    while i < count
        invariant
            i <= count <= keys.len() == values.len(),
            expected == entry_texts(
                string_views(keys@).take(count as int),
                string_views(values@),
                shown as nat,
            ),
            string_views(result@) == expected.take(i as int),
        decreases count - i,
    {
        let mut entry = keys[i].clone();
        if i < shown {
            push_str(&mut entry, ": ");
            push_str(&mut entry, values[i].as_str());
        } else {
            push_str(&mut entry, ": …");
        }
        let ghost before = result@;
        result.push(entry);
        i = i + 1;
        assert(string_views(result@) =~= string_views(before).push(expected[i - 1]));
        assert(expected.take(i as int) =~= expected.take(i - 1).push(expected[i - 1]));
    }
    assert(expected.take(count as int) =~= expected);
    result
}

/// The formatted struct, from its keys in sorted order and their values,
/// each formatted without a limit.
fn struct_text_of(keys: &Vec<String>, values: &Vec<String>, max_length: MaxLength) -> (result:
    String)
    requires
        keys.len() == values.len(),
    ensures
        result@ == struct_text(string_views(keys@), string_views(values@), max_length),
{
    let ghost ks = string_views(keys@);
    let ghost vs = string_views(values@);
    if !max_length.fits(2) {
        return String::from_str("…");
    }
    let n = keys.len();
    if n == 0 {
        return String::from_str("[]");
    }
    let key_sums = prefix_lengths(keys);
    let ghost keys_length = total_length(ks);
    assert(ks.take(n as int) == ks);
    proof {
        lemma_capped_add(keys_length, 2 + 5 * n as nat);
    }
    if !max_length.fits_capped(
        add_capped(key_sums[n], 2 + 5 * n as u128),
        Ghost((keys_length + 2 + 5 * n) as nat),
    ) {
        let mut kept: usize = n;
        loop
            invariant
                kept <= n == keys.len() == values.len(),
                n > 0,
                ks == string_views(keys@),
                vs == string_views(values@),
                keys_length == total_length(ks),
                max_length.admits(2),
                !max_length.admits((2 + keys_length + 5 * n) as nat),
                key_sums.len() == n + 1,
                forall|j: int| 0 <= j <= n ==> #[trigger] key_sums@[j] == capped(
                    total_length(ks.take(j)),
                ),
                fitting_key_prefix(ks, max_length, n as nat) == fitting_key_prefix(
                    ks,
                    max_length,
                    kept as nat,
                ),
            decreases kept,
        {
            if kept == 0 {
                let mut summary = String::from_str("[struct with ");
                push_decimal(&mut summary, n);
                push_str(&mut summary, " entries]");
                let length = byte_length(summary.as_str());
                if max_length.fits_capped(length, Ghost(utf8_length(summary@))) {
                    return summary;
                } else {
                    return String::from_str("…");
                }
            }
            let candidate = kept - 1;
            let more = more_text_of(n - candidate);
            let more_length = byte_length(more.as_str());
            proof {
                lemma_capped_add(
                    total_length(ks.take(candidate as int)),
                    (2 + 5 * candidate + more_length) as nat,
                );
            }
            if max_length.fits_capped(
                add_capped(key_sums[candidate], 2 + 5 * candidate as u128 + more_length),
                Ghost(
                    (2 + total_length(ks.take(candidate as int)) + 5 * candidate
                        + more_length) as nat,
                ),
            ) {
                let entries = entry_strings(keys, values, candidate, 0);
                let mut result = String::from_str("[");
                push_joined(&mut result, &entries, ", ");
                push_str(&mut result, ", ");
                push_str(&mut result, more.as_str());
                push_str(&mut result, "]");
                return result;
            }
            kept = candidate;
        }
    }
    let value_sums = prefix_lengths(values);
    let keys_part = add_capped(key_sums[n], 4 * n as u128);
    proof {
        lemma_capped_add(keys_length, 4 * n as nat);
    }
    let mut shown: usize = 0;
    loop
        invariant_except_break
            shown_values(keys_length, vs, max_length, 0) == shown_values(
                keys_length,
                vs,
                max_length,
                shown as nat,
            ),
        invariant
            shown <= n == keys.len() == values.len(),
            vs == string_views(values@),
            keys_part == capped((keys_length + 4 * n) as nat),
            value_sums.len() == n + 1,
            forall|j: int| 0 <= j <= n ==> #[trigger] value_sums@[j] == capped(
                total_length(vs.take(j)),
            ),
        ensures
            shown <= n,
            shown_values(keys_length, vs, max_length, 0) == shown as nat,
        decreases n - shown,
    {
        if shown >= n {
            break;
        }
        let next = shown + 1;
        let values_part = add_capped(value_sums[next], (n - next) as u128);
        proof {
            lemma_capped_add(total_length(vs.take(next as int)), (n - next) as nat);
            lemma_capped_sum((keys_length + 4 * n) as nat, values_length(vs, next as nat));
        }
        if !max_length.fits_capped(
            add_capped(keys_part, values_part),
            Ghost((keys_length + 4 * n + values_length(vs, next as nat)) as nat),
        ) {
            shown = next;
            break;
        }
        shown = next;
    }
    let all_values = add_capped(value_sums[n], 0);
    assert(vs.take(n as int) == vs);
    proof {
        lemma_capped_add(total_length(vs), 0);
        lemma_capped_sum((keys_length + 4 * n) as nat, values_length(vs, n as nat));
    }
    if shown == n && max_length.fits_capped(
        add_capped(keys_part, all_values),
        Ghost((keys_length + 4 * n + values_length(vs, n as nat)) as nat),
    ) {
        let entries = entry_strings(keys, values, n, n);
        assert(ks.take(n as int) == ks);
        let mut result = String::from_str("[");
        push_joined(&mut result, &entries, ", ");
        push_str(&mut result, "]");
        return result;
    }
    let mut kept: usize = shown;
    loop
        invariant_except_break
            kept_values(keys_length, vs, max_length, shown as nat) == kept_values(
                keys_length,
                vs,
                max_length,
                kept as nat,
            ),
        invariant
            kept <= shown <= n == keys.len() == values.len(),
            vs == string_views(values@),
            keys_part == capped((keys_length + 4 * n) as nat),
            value_sums.len() == n + 1,
            forall|j: int| 0 <= j <= n ==> #[trigger] value_sums@[j] == capped(
                total_length(vs.take(j)),
            ),
        ensures
            kept_values(keys_length, vs, max_length, shown as nat) == kept as nat,
        decreases kept,
    {
        if kept == 0 {
            break;
        }
        let candidate = kept - 1;
        let values_part = add_capped(value_sums[candidate], (n - candidate) as u128);
        proof {
            lemma_capped_add(total_length(vs.take(candidate as int)), (n - candidate) as nat);
            lemma_capped_sum((keys_length + 4 * n) as nat, values_length(vs, candidate as nat));
        }
        if max_length.fits_capped(
            add_capped(keys_part, values_part),
            Ghost((keys_length + 4 * n + values_length(vs, candidate as nat)) as nat),
        ) {
            kept = candidate;
            break;
        }
        kept = candidate;
    }
    let entries = entry_strings(keys, values, n, kept);
    assert(ks.take(n as int) == ks);
    let mut result = String::from_str("[");
    push_joined(&mut result, &entries, ", ");
    push_str(&mut result, "]");
    result
}

/// Inserting an entry keeps the entries and adds the new one.
proof fn lemma_insert_sorted_elements(sorted: Seq<(Seq<char>, int)>, entry: (Seq<char>, int))
    ensures
        insert_sorted(sorted, entry).len() == sorted.len() + 1,
        forall|i: int|
            0 <= i < insert_sorted(sorted, entry).len() ==> #[trigger] insert_sorted(
                sorted,
                entry,
            )[i] == entry || sorted.contains(insert_sorted(sorted, entry)[i]),
    decreases sorted.len(),
{
    if sorted.len() > 0 && !text_le(sorted.last().0, entry.0) {
        let rest = sorted.drop_last();
        lemma_insert_sorted_elements(rest, entry);
        let inserted = insert_sorted(sorted, entry);
        assert forall|i: int| 0 <= i < inserted.len() implies #[trigger] inserted[i] == entry
            || sorted.contains(inserted[i]) by {
            if i < inserted.len() - 1 {
                let e = insert_sorted(rest, entry)[i];
                if e != entry {
                    let k = choose|k: int| 0 <= k < rest.len() && rest[k] == e;
                    assert(sorted[k] == e);
                }
            } else {
                assert(sorted[sorted.len() - 1] == inserted[i]);
            }
        }
    } else if sorted.len() > 0 {
        let inserted = insert_sorted(sorted, entry);
        assert forall|i: int| 0 <= i < inserted.len() implies #[trigger] inserted[i] == entry
            || sorted.contains(inserted[i]) by {
            if i < sorted.len() {
                assert(sorted[i] == inserted[i]);
            }
        }
    }
}

/// Sorting keeps the number of entries and takes each from the input.
proof fn lemma_sort_elements(entries: Seq<(Seq<char>, int)>)
    ensures
        sort_by_key(entries).len() == entries.len(),
        forall|i: int|
            0 <= i < sort_by_key(entries).len() ==> entries.contains(
                #[trigger] sort_by_key(entries)[i],
            ),
    decreases entries.len(),
{
    if entries.len() > 0 {
        let rest = entries.drop_last();
        lemma_sort_elements(rest);
        lemma_insert_sorted_elements(sort_by_key(rest), entries.last());
        let sorted = sort_by_key(entries);
        assert forall|i: int| 0 <= i < sorted.len() implies entries.contains(
            #[trigger] sorted[i],
        ) by {
            if sorted[i] == entries.last() {
                assert(entries[entries.len() - 1] == sorted[i]);
            } else {
                let j = choose|j: int| 0 <= j < sort_by_key(rest).len() && sort_by_key(rest)[j] == sorted[i];
                let k = choose|k: int| 0 <= k < rest.len() && rest[k] == sort_by_key(rest)[j];
                assert(entries[k] == sorted[i]);
            }
        }
    }
}

/// The keys of a struct's entries carry the indices of their entries.
proof fn lemma_formatted_keys_indices(entries: Seq<(FormatValue, FormatValue)>)
    ensures
        formatted_keys(entries).len() == entries.len(),
        formatted_values(entries).len() == entries.len(),
        forall|i: int| 0 <= i < entries.len() ==> #[trigger] formatted_keys(entries)[i].1 == i,
    decreases entries.len(),
{
    if entries.len() > 0 {
        lemma_formatted_keys_indices(entries.drop_last());
    }
}

/// Formats a value so that it fits the given length in bytes where it can.
pub fn format_value(value: &FormatValue, precedence: Precedence, max_length: MaxLength) -> (result:
    String)
    ensures
        result@ == value.formatted(precedence, max_length),
    decreases value,
{
    match value {
        FormatValue::Int(text) => {
            let length = byte_length(text.as_str());
            if max_length.fits_capped(length, Ghost(utf8_length(text@))) {
                text.clone()
            } else {
                String::from_str("…")
            }
        },
        FormatValue::Tag { symbol, value: inner } => {
            let has_value = inner.is_some();
            let needs_parentheses = has_value && precedence == Precedence::High;
            let structure: u128 = if needs_parentheses {
                5
            } else if has_value {
                3
            } else {
                1
            };
            if !max_length.fits_capped(structure, Ghost(structure as nat)) {
                return String::from_str("…");
            }
            let symbol_length = byte_length(symbol.as_str());
            let symbol_fits = max_length.fits_capped(
                structure - 1 + symbol_length,
                Ghost((structure - 1 + symbol_length) as nat),
            );
            let mut result = String::new();
            if needs_parentheses {
                push_str(&mut result, "(");
            }
            if symbol_fits {
                push_str(&mut result, symbol.as_str());
            } else {
                push_str(&mut result, "…");
            }
            match inner {
                Some(inner) => {
                    push_str(&mut result, " ");
                    if symbol_fits {
                        let used = structure - 2 + symbol_length;
                        let reduced = match max_length {
                            MaxLength::Unlimited => MaxLength::Unlimited,
                            MaxLength::Limited(max) => MaxLength::Limited(max - used as usize),
                        };
                        assert(reduced == max_length.spec_subtract(used as nat));
                        let formatted = format_value(&**inner, Precedence::High, reduced);
                        push_str(&mut result, formatted.as_str());
                    } else {
                        push_str(&mut result, "…");
                    }
                },
                None => {},
            }
            if needs_parentheses {
                push_str(&mut result, ")");
            }
            result
        },
        FormatValue::Text(text) => {
            let length = byte_length(text.as_str());
            if max_length.fits_capped(1 + length + 1, Ghost(1 + utf8_length(text@) + 1)) {
                let mut result = String::from_str("\"");
                push_str(&mut result, text.as_str());
                push_str(&mut result, "\"");
                result
            } else {
                String::from_str("…")
            }
        },
        FormatValue::Function => {
            if max_length.fits(5) {
                String::from_str("{ … }")
            } else {
                String::from_str("…")
            }
        },
        FormatValue::List(items) => {
            let texts = format_items(items);
            list_text_of(&texts, max_length)
        },
        FormatValue::Struct(entries) => {
            let keys = format_keys(entries);
            let values = format_values(entries);
            let sorted = sort_keyed(keys);
            let ghost all_values = formatted_values(entries@);
            let ghost sorted_view = sort_by_key(formatted_keys(entries@));
            proof {
                lemma_formatted_keys_indices(entries@);
                lemma_sort_elements(formatted_keys(entries@));
            }
            let mut sorted_keys: Vec<String> = Vec::new();
            let mut sorted_values: Vec<String> = Vec::new();
            let mut i: usize = 0;
            while i < sorted.len()
                invariant
                    i <= sorted.len(),
                    keyed_views(sorted@) == sorted_view,
                    sorted_view == sort_by_key(formatted_keys(entries@)),
                    sorted_view.len() == entries@.len(),
                    string_views(values@) == all_values,
                    all_values.len() == entries@.len(),
                    formatted_keys(entries@).len() == entries@.len(),
                    forall|k: int| 0 <= k < entries@.len() ==> #[trigger] formatted_keys(entries@)[k].1 == k,
                    forall|k: int|
                        0 <= k < sorted_view.len() ==> formatted_keys(entries@).contains(
                            #[trigger] sorted_view[k],
                        ),
                    sorted_keys.len() == i,
                    sorted_values.len() == i,
                    string_views(sorted_keys@) == sorted_view.map_values(
                        |entry: (Seq<char>, int)| entry.0,
                    ).take(i as int),
                    string_views(sorted_values@) == sorted_view.map_values(
                        |entry: (Seq<char>, int)| all_values[entry.1],
                    ).take(i as int),
                decreases sorted.len() - i,
            {
                let index = sorted[i].1;
                proof {
                    assert(sorted_view[i as int] == (sorted@[i as int].0@, index as int));
                    let k = choose|k: int|
                        0 <= k < formatted_keys(entries@).len() && formatted_keys(entries@)[k]
                            == sorted_view[i as int];
                    assert(formatted_keys(entries@)[k].1 == k);
                }
                let ghost keys_before = sorted_keys@;
                let ghost values_before = sorted_values@;
                sorted_keys.push(sorted[i].0.clone());
                sorted_values.push(values[index].clone());
                i = i + 1;
                assert(string_views(sorted_keys@) =~= string_views(keys_before).push(
                    sorted_view[i - 1].0,
                ));
                assert(string_views(sorted_values@) =~= string_views(values_before).push(
                    all_values[sorted_view[i - 1].1],
                ));
            }
            proof {
                let key_texts = sorted_view.map_values(|entry: (Seq<char>, int)| entry.0);
                let value_texts = sorted_view.map_values(
                    |entry: (Seq<char>, int)| all_values[entry.1],
                );
                assert(key_texts.take(i as int) =~= key_texts);
                assert(value_texts.take(i as int) =~= value_texts);
            }
            struct_text_of(&sorted_keys, &sorted_values, max_length)
        },
        FormatValue::SendPort => match precedence {
            Precedence::High => String::from_str("(send port)"),
            Precedence::Low => String::from_str("send port"),
        },
        FormatValue::ReceivePort => match precedence {
            Precedence::High => String::from_str("(receive port)"),
            Precedence::Low => String::from_str("receive port"),
        },
    }
}

/// Formats the items of a list without a limit.
fn format_items(items: &Vec<FormatValue>) -> (result: Vec<String>)
    ensures
        string_views(result@) == formatted_items(items@),
    decreases items,
{
    let mut result: Vec<String> = Vec::new();
    let mut i: usize = 0;
    while i < items.len()
        invariant
            i <= items.len(),
            result.len() == i,
            string_views(result@) == formatted_items(items@.take(i as int)),
        decreases items.len() - i,
    {
        assert(decreases_to!(items => items@[i as int]));
        assert(items@.take(i + 1).drop_last() == items@.take(i as int));
        let ghost before = result@;
        result.push(format_value(&items[i], Precedence::Low, MaxLength::Unlimited));
        i = i + 1;
        assert(string_views(result@) =~= string_views(before).push(result@[i - 1]@));
    }
    assert(items@.take(items.len() as int) == items@);
    result
}

/// Formats the keys of a struct's entries without a limit, each with the
/// index of its entry.
fn format_keys(entries: &Vec<(FormatValue, FormatValue)>) -> (result: Vec<(String, usize)>)
    ensures
        keyed_views(result@) == formatted_keys(entries@),
    decreases entries,
{
    let mut result: Vec<(String, usize)> = Vec::new();
    let mut i: usize = 0;
    while i < entries.len()
        invariant
            i <= entries.len(),
            result.len() == i,
            keyed_views(result@) == formatted_keys(entries@.take(i as int)),
        decreases entries.len() - i,
    {
        assert(decreases_to!(entries => entries@[i as int]));
        assert(entries@.take(i + 1).drop_last() == entries@.take(i as int));
        let ghost before = result@;
        let key = format_value(&entries[i].0, Precedence::Low, MaxLength::Unlimited);
        result.push((key, i));
        i = i + 1;
        assert(keyed_views(result@) =~= keyed_views(before).push((result@[i - 1].0@, i - 1)));
    }
    assert(entries@.take(entries.len() as int) == entries@);
    result
}

/// Formats the values of a struct's entries without a limit.
fn format_values(entries: &Vec<(FormatValue, FormatValue)>) -> (result: Vec<String>)
    ensures
        string_views(result@) == formatted_values(entries@),
    decreases entries,
{
    let mut result: Vec<String> = Vec::new();
    let mut i: usize = 0;
    while i < entries.len()
        invariant
            i <= entries.len(),
            result.len() == i,
            string_views(result@) == formatted_values(entries@.take(i as int)),
        decreases entries.len() - i,
    {
        assert(decreases_to!(entries => entries@[i as int]));
        assert(entries@.take(i + 1).drop_last() == entries@.take(i as int));
        let ghost before = result@;
        result.push(format_value(&entries[i].1, Precedence::Low, MaxLength::Unlimited));
        i = i + 1;
        assert(string_views(result@) =~= string_views(before).push(result@[i - 1]@));
    }
    assert(entries@.take(entries.len() as int) == entries@);
    result
}

} // verus!
