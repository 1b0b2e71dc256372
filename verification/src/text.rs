use vstd::prelude::*;
use vstd::string::*;

verus! {

/// Appends one character to a string.
///
/// Calls `String::push`, which (as its documentation says) appends the given
/// character to the end of the string; vstd gives it no specification.
#[verifier::external_body]
pub(crate) fn push_char(s: &mut String, c: char)
    ensures
        final(s)@ == old(s)@.push(c),
{
    s.push(c);
}

/// The characters of a string slice, in order.
pub fn chars_of(s: &str) -> (result: Vec<char>)
    ensures
        result@ == s@,
{
    let mut result: Vec<char> = Vec::new();
    for c in it: s.chars()
        invariant
            result@ == it.seq().take(it.index() as int),
    {
        result.push(c);
    }
    result
}

/// Builds a string from a sequence of characters.
pub fn string_from_chars(chars: &Vec<char>) -> (result: String)
    ensures
        result@ == chars@,
{
    let mut result = String::new();
    let mut i: usize = 0;
    while i < chars.len()
        invariant
            i <= chars.len(),
            result@ == chars@.take(i as int),
        decreases chars.len() - i,
    {
        push_char(&mut result, chars[i]);
        i = i + 1;
        assert(chars@.take(i as int) == chars@.take(i - 1).push(chars@[i - 1]));
    }
    assert(chars@.take(chars.len() as int) == chars@);
    result
}

/// Whether a text occurs in another at a position.
pub open spec fn occurs_at(s: Seq<char>, pattern: Seq<char>, position: int) -> bool {
    0 <= position && position + pattern.len() <= s.len() && s.subrange(
        position,
        position + pattern.len(),
    ) == pattern
}

/// Whether a text occurs at a position of a sequence of characters.
fn chars_occur_at(chars: &Vec<char>, pattern: &Vec<char>, position: usize) -> (result: bool)
    requires
        position + pattern.len() <= chars.len(),
    ensures
        result == occurs_at(chars@, pattern@, position as int),
{
    let mut i: usize = 0;
    while i < pattern.len()
        invariant
            i <= pattern.len(),
            position + pattern.len() <= chars.len(),
            forall|j: int| 0 <= j < i ==> chars@[position + j] == pattern@[j],
        decreases pattern.len() - i,
    {
        if chars[position + i] != pattern[i] {
            assert(chars@.subrange(position as int, position + pattern.len())[i as int]
                != pattern@[i as int]);
            return false;
        }
        i = i + 1;
    }
    assert(chars@.subrange(position as int, position + pattern.len()) =~= pattern@);
    true
}

/// Whether one string ends with another.
pub fn str_ends_with(s: &str, suffix: &str) -> (result: bool)
    ensures
        result == (suffix@.len() <= s@.len() && s@.skip(s@.len() - suffix@.len()) == suffix@),
{
    let s_chars = chars_of(s);
    let suffix_chars = chars_of(suffix);
    if suffix_chars.len() > s_chars.len() {
        return false;
    }
    let start = s_chars.len() - suffix_chars.len();
    let result = chars_occur_at(&s_chars, &suffix_chars, start);
    assert(s@.subrange(start as int, start + suffix@.len()) =~= s@.skip(start as int));
    result
}

/// Whether a string holds another.
pub fn str_contains(s: &str, pattern: &str) -> (result: bool)
    ensures
        result == exists|position: int| occurs_at(s@, pattern@, position),
{
    let s_chars = chars_of(s);
    let pattern_chars = chars_of(pattern);
    if pattern_chars.len() > s_chars.len() {
        assert forall|position: int| !occurs_at(s@, pattern@, position) by {}
        return false;
    }
    if pattern_chars.len() == 0 {
        assert(occurs_at(s@, pattern@, 0)) by {
            assert(s@.subrange(0, 0) =~= pattern@);
        }
        return true;
    }
    let last = s_chars.len() - pattern_chars.len();
    let mut position: usize = 0;
    while position <= last
        invariant
            0 < pattern_chars.len() <= s_chars.len(),
            last == s_chars.len() - pattern_chars.len(),
            s_chars@ == s@,
            pattern_chars@ == pattern@,
            position <= last + 1,
            forall|p: int| 0 <= p < position ==> !occurs_at(s@, pattern@, p),
        decreases last + 1 - position,
    {
        if chars_occur_at(&s_chars, &pattern_chars, position) {
            return true;
        }
        position = position + 1;
    }
    assert forall|p: int| !occurs_at(s@, pattern@, p) by {
        if 0 <= p < position {
        }
    }
    false
}

} // verus!

verus! {

/// The decimal digit character for a number below ten.
pub open spec fn digit_char(d: nat) -> char {
    if d == 0 { '0' } else if d == 1 { '1' } else if d == 2 { '2' } else if d == 3 { '3' }
    else if d == 4 { '4' } else if d == 5 { '5' } else if d == 6 { '6' } else if d == 7 { '7' }
    else if d == 8 { '8' } else { '9' }
}

/// The decimal representation of a natural number, without leading zeros.
pub open spec fn decimal(n: nat) -> Seq<char>
    decreases n,
{
    if n < 10 {
        seq![digit_char(n)]
    } else {
        decimal(n / 10).push(digit_char(n % 10))
    }
}

fn exec_digit_char(d: usize) -> (c: char)
    requires
        d < 10,
    ensures
        c == digit_char(d as nat),
{
    match d {
        0 => '0',
        1 => '1',
        2 => '2',
        3 => '3',
        4 => '4',
        5 => '5',
        6 => '6',
        7 => '7',
        8 => '8',
        _ => '9',
    }
}

/// Appends the decimal representation of `n` to `s`.
pub fn push_decimal(s: &mut String, n: usize)
    ensures
        final(s)@ == old(s)@ + decimal(n as nat),
    decreases n,
{
    if n >= 10 {
        push_decimal(s, n / 10);
    }
    push_char(s, exec_digit_char(n % 10));
}

/// Appends the decimal representation of a wide number to `s`.
pub fn push_decimal_wide(s: &mut String, n: u128)
    ensures
        final(s)@ == old(s)@ + decimal(n as nat),
    decreases n,
{
    if n >= 10 {
        push_decimal_wide(s, n / 10);
    }
    push_char(s, exec_digit_char((n % 10) as usize));
}

/// The decimal representation of `n`, as `n.to_string()` gives it.
pub fn decimal_string(n: usize) -> (result: String)
    ensures
        result@ == decimal(n as nat),
{
    let mut s = String::new();
    push_decimal(&mut s, n);
    s
}

/// Appends a string slice.
pub fn push_str(s: &mut String, other: &str)
    ensures
        final(s)@ == old(s)@ + other@,
{
    s.append(other);
}

} // verus!

verus! {

/// The character sequences of a sequence of strings.
pub open spec fn string_views(strings: Seq<String>) -> Seq<Seq<char>> {
    strings.map_values(|s: String| s@)
}

/// Copies a vector of strings.
pub fn clone_strings(strings: &Vec<String>) -> (result: Vec<String>)
    ensures
        result@ == strings@,
{
    let mut result: Vec<String> = Vec::new();
    let mut i: usize = 0;
    while i < strings.len()
        invariant
            i <= strings.len(),
            result@ == strings@.take(i as int),
        decreases strings.len() - i,
    {
        result.push(strings[i].clone());
        i = i + 1;
        assert(strings@.take(i as int) == strings@.take(i - 1).push(strings@[i - 1]));
    }
    assert(strings@.take(strings.len() as int) == strings@);
    result
}

/// Whether two strings have the same characters.
pub fn str_equal(a: &str, b: &str) -> (result: bool)
    ensures
        result == (a@ == b@),
{
    let a_chars = chars_of(a);
    let b_chars = chars_of(b);
    if a_chars.len() != b_chars.len() {
        return false;
    }
    let mut i: usize = 0;
    while i < a_chars.len()
        invariant
            i <= a_chars.len() == b_chars.len(),
            a_chars@ == a@,
            b_chars@ == b@,
            forall|j: int| 0 <= j < i ==> a_chars@[j] == b_chars@[j],
        decreases a_chars.len() - i,
    {
        if a_chars[i] != b_chars[i] {
            return false;
        }
        i = i + 1;
    }
    assert(a@ =~= b@);
    true
}

/// Whether one string starts with another.
pub fn str_starts_with(s: &str, prefix: &str) -> (result: bool)
    ensures
        result == (prefix@.len() <= s@.len() && s@.take(prefix@.len() as int) == prefix@),
{
    let s_chars = chars_of(s);
    let prefix_chars = chars_of(prefix);
    if prefix_chars.len() > s_chars.len() {
        return false;
    }
    let mut i: usize = 0;
    while i < prefix_chars.len()
        invariant
            i <= prefix_chars.len() <= s_chars.len(),
            s_chars@ == s@,
            prefix_chars@ == prefix@,
            forall|j: int| 0 <= j < i ==> s_chars@[j] == prefix_chars@[j],
        decreases prefix_chars.len() - i,
    {
        if s_chars[i] != prefix_chars[i] {
            assert(s@.take(prefix@.len() as int)[i as int] != prefix@[i as int]);
            return false;
        }
        i = i + 1;
    }
    assert(s@.take(prefix@.len() as int) =~= prefix@);
    true
}

} // verus!

verus! {

/// The texts of a sequence joined with a separator between each two.
pub open spec fn joined(parts: Seq<Seq<char>>, separator: Seq<char>) -> Seq<char>
    decreases parts.len(),
{
    if parts.len() == 0 {
        Seq::empty()
    } else if parts.len() == 1 {
        parts[0]
    } else {
        joined(parts.drop_last(), separator) + separator + parts.last()
    }
}

/// Appends the strings of a vector with a separator between each two.
pub fn push_joined(s: &mut String, parts: &Vec<String>, separator: &str)
    ensures
        final(s)@ == old(s)@ + joined(string_views(parts@), separator@),
{
    push_joined_prefix(s, parts, parts.len(), separator);
    assert(parts@.take(parts.len() as int) == parts@);
}

/// Appends the first `count` strings of a vector with a separator between each
/// two.
pub fn push_joined_prefix(s: &mut String, parts: &Vec<String>, count: usize, separator: &str)
    requires
        count <= parts.len(),
    ensures
        final(s)@ == old(s)@ + joined(string_views(parts@.take(count as int)), separator@),
{
    let ghost start = s@;
    let mut i: usize = 0;
    while i < count
        invariant
            i <= count <= parts.len(),
            s@ == start + joined(string_views(parts@.take(i as int)), separator@),
        decreases count - i,
    {
        let ghost views = string_views(parts@.take(i + 1));
        assert(views.drop_last() =~= string_views(parts@.take(i as int)));
        assert(views.last() == parts@[i as int]@);
        if i > 0 {
            push_str(s, separator);
        }
        push_str(s, parts[i].as_str());
        i = i + 1;
        proof {
            if i == 1 {
                assert(views.len() == 1);
                assert(s@ =~= start + views[0]);
            } else {
                assert(s@ =~= start + joined(views.drop_last(), separator@) + separator@
                    + views.last());
            }
        }
    }
}

/// The hexadecimal digit character for a number below sixteen, in lower case.
pub open spec fn hex_digit_char(d: nat) -> char {
    if d < 10 {
        digit_char(d)
    } else if d == 10 {
        'a'
    } else if d == 11 {
        'b'
    } else if d == 12 {
        'c'
    } else if d == 13 {
        'd'
    } else if d == 14 {
        'e'
    } else {
        'f'
    }
}

/// The hexadecimal representation of a natural number in lower case, without
/// leading zeros.
pub open spec fn hexadecimal(n: nat) -> Seq<char>
    decreases n,
{
    if n < 16 {
        seq![hex_digit_char(n)]
    } else {
        hexadecimal(n / 16).push(hex_digit_char(n % 16))
    }
}

fn exec_hex_digit_char(d: usize) -> (c: char)
    requires
        d < 16,
    ensures
        c == hex_digit_char(d as nat),
{
    if d < 10 {
        exec_digit_char(d)
    } else if d == 10 {
        'a'
    } else if d == 11 {
        'b'
    } else if d == 12 {
        'c'
    } else if d == 13 {
        'd'
    } else if d == 14 {
        'e'
    } else {
        'f'
    }
}

/// Appends the hexadecimal representation of `n` to `s`, as `{:x}` writes it.
pub fn push_hexadecimal(s: &mut String, n: usize)
    ensures
        final(s)@ == old(s)@ + hexadecimal(n as nat),
    decreases n,
{
    if n >= 16 {
        push_hexadecimal(s, n / 16);
    }
    push_char(s, exec_hex_digit_char(n % 16));
}

} // verus!
