use crate::text::{chars_of, push_char, push_str, string_from_chars};
use vstd::prelude::*;

verus! {

/// Paths are written with `/` between their components, as on Unix.
pub open spec fn separator() -> char {
    '/'
}

/// The path `rest` relative to `base`, as `Path::join` gives it on Unix: an
/// absolute `rest` replaces `base`; otherwise a separator is put between them
/// unless `base` is empty or already ends with one.
pub open spec fn spec_join(base: Seq<char>, rest: Seq<char>) -> Seq<char> {
    if rest.len() > 0 && rest[0] == separator() {
        rest
    } else if base.len() == 0 || base.last() == separator() {
        base + rest
    } else {
        base.push(separator()) + rest
    }
}

/// Joins a path and a relative or absolute path.
pub fn join(base: &str, rest: &str) -> (result: String)
    ensures
        result@ == spec_join(base@, rest@),
{
    let base_chars = chars_of(base);
    let rest_chars = chars_of(rest);
    if rest_chars.len() > 0 && rest_chars[0] == '/' {
        return string_from_chars(&rest_chars);
    }
    let mut result = string_from_chars(&base_chars);
    if base_chars.len() > 0 && base_chars[base_chars.len() - 1] != '/' {
        push_char(&mut result, '/');
    }
    push_str(&mut result, rest);
    result
}

/// The index after the last separator of a path, that is, where its last
/// component (its file name) starts.
pub open spec fn file_name_start(path: Seq<char>) -> int
    decreases path.len(),
{
    if path.len() == 0 {
        0
    } else if path.last() == separator() {
        path.len() as int
    } else {
        file_name_start(path.drop_last())
    }
}

/// The index of the dot that starts the extension of a file name, if there is
/// one: the last dot, unless it is the first character.
pub open spec fn extension_dot(name: Seq<char>) -> Option<int>
    decreases name.len(),
{
    if name.len() <= 1 {
        None
    } else if name.last() == '.' {
        Some(name.len() - 1)
    } else {
        extension_dot(name.drop_last())
    }
}

/// The path with the extension of its (plain) file name replaced or added:
/// everything up to the end of the file name's stem, a dot and the extension.
pub open spec fn spec_replace_extension(path: Seq<char>, extension: Seq<char>) -> Seq<char> {
    let start = file_name_start(path);
    let name = path.subrange(start, path.len() as int);
    if name.len() == 0 || name == seq!['.', '.'] {
        path
    } else {
        let stem = match extension_dot(name) {
            Some(dot) => name.take(dot),
            None => name,
        };
        path.take(start) + stem + seq!['.'] + extension
    }
}

/// The length of a path without trailing separators and trailing `.`
/// components, which `Path::components` does not count.
pub open spec fn trimmed_length(path: Seq<char>) -> nat
    decreases path.len(),
{
    if path.len() > 1 && path.last() == separator() {
        trimmed_length(path.drop_last())
    } else if path.len() > 1 && path.last() == '.' && path[path.len() - 2] == separator() {
        trimmed_length(path.drop_last())
    } else {
        path.len()
    }
}

/// The path with the extension of its file name set, as `PathBuf::set_extension`
/// does it: the file name is the last component, and a path whose last
/// component is not a name (empty, the root, `.` or `..`) stays as it is;
/// otherwise the path is cut after the file name's stem and the extension is
/// added after a dot.
pub open spec fn spec_with_extension(path: Seq<char>, extension: Seq<char>) -> Seq<char> {
    let trimmed = path.take(trimmed_length(path) as int);
    let name = trimmed.subrange(file_name_start(trimmed), trimmed.len() as int);
    if name.len() == 0 || name == seq!['.'] || name == seq!['.', '.'] {
        path
    } else {
        spec_replace_extension(trimmed, extension)
    }
}

proof fn lemma_trimmed_length_bound(path: Seq<char>)
    ensures
        trimmed_length(path) <= path.len(),
    decreases path.len(),
{
    if path.len() > 1 && (path.last() == separator() || (path.last() == '.' && path[path.len() - 2]
        == separator())) {
        lemma_trimmed_length_bound(path.drop_last());
    }
}

/// Sets the extension of the path's file name.
pub fn with_extension(path: &str, extension: &str) -> (result: String)
    ensures
        result@ == spec_with_extension(path@, extension@),
{
    let chars = chars_of(path);
    let mut end = chars.len();
    assert(path@.take(end as int) == path@);
    while end > 1 && (chars[end - 1] == '/' || (chars[end - 1] == '.' && chars[end - 2] == '/'))
        invariant
            end <= chars.len(),
            chars@ == path@,
            trimmed_length(path@) == trimmed_length(path@.take(end as int)),
        decreases end,
    {
        assert(path@.take(end as int).drop_last() == path@.take(end - 1));
        end = end - 1;
    }
    proof {
        assert(trimmed_length(path@.take(end as int)) == end);
    }
    let trimmed_chars = {
        let mut kept: Vec<char> = Vec::new();
        let mut k: usize = 0;
        while k < end
            invariant
                k <= end <= chars.len(),
                chars@ == path@,
                kept@ == path@.take(k as int),
            decreases end - k,
        {
            kept.push(chars[k]);
            k = k + 1;
            assert(path@.take(k as int) == path@.take(k - 1).push(path@[k - 1]));
        }
        kept
    };
    let ghost trimmed = path@.take(end as int);
    let mut start = end;
    assert(trimmed.take(start as int) == trimmed);
    while start > 0 && trimmed_chars[start - 1] != '/'
        invariant
            start <= end == trimmed_chars.len(),
            trimmed_chars@ == trimmed,
            file_name_start(trimmed) == file_name_start(trimmed.take(start as int)),
        decreases start,
    {
        assert(trimmed.take(start as int).drop_last() == trimmed.take(start - 1));
        start = start - 1;
    }
    assert(file_name_start(trimmed) == start) by {
        if start > 0 {
            assert(trimmed.take(start as int).last() == trimmed[start - 1]);
        }
    }
    let ghost name = trimmed.subrange(start as int, end as int);
    let name_length = end - start;
    if name_length == 0 || (name_length == 1 && trimmed_chars[start] == '.') || (name_length == 2
        && trimmed_chars[start] == '.' && trimmed_chars[start + 1] == '.') {
        proof {
            if name_length == 1 {
                assert(name =~= seq!['.']);
            }
            if name_length == 2 {
                assert(name =~= seq!['.', '.']);
            }
        }
        return string_from_chars(&chars);
    }
    assert(name != seq!['.'] && name != seq!['.', '.']) by {
        assert(name.len() == name_length);
        let one = seq!['.'];
        let two = seq!['.', '.'];
        assert(one.len() == 1 && one[0] == '.');
        assert(two.len() == 2 && two[0] == '.' && two[1] == '.');
        if name_length == 1 {
            assert(name[0] == trimmed[start as int]);
            assert(name[0] != one[0]);
        }
        if name_length == 2 {
            assert(name[0] == trimmed[start as int]);
            assert(name[1] == trimmed[start + 1]);
            assert(name[0] != two[0] || name[1] != two[1]);
        }
    }
    let trimmed_string = string_from_chars(&trimmed_chars);
    replace_extension(trimmed_string.as_str(), extension)
}

proof fn lemma_extension_dot_bounds(name: Seq<char>)
    ensures
        extension_dot(name) matches Some(dot) ==> 1 <= dot < name.len(),
    decreases name.len(),
{
    if name.len() > 1 && name.last() != '.' {
        lemma_extension_dot_bounds(name.drop_last());
    }
}

/// Replaces or adds the extension of the path's file name.
fn replace_extension(path: &str, extension: &str) -> (result: String)
    ensures
        result@ == spec_replace_extension(path@, extension@),
{
    let chars = chars_of(path);
    let mut start = chars.len();
    assert(chars@.take(start as int) == chars@);
    while start > 0 && chars[start - 1] != '/'
        invariant
            start <= chars.len(),
            chars@ == path@,
            file_name_start(path@) == file_name_start(chars@.take(start as int)),
        decreases start,
    {
        assert(chars@.take(start as int).drop_last() == chars@.take(start - 1));
        start = start - 1;
    }
    assert(file_name_start(path@) == start) by {
        if start > 0 {
            assert(chars@.take(start as int).last() == chars@[start - 1]);
        }
    }
    let ghost name = path@.subrange(start as int, path@.len() as int);
    let name_length = chars.len() - start;
    if name_length == 0 || (name_length == 2 && chars[start] == '.' && chars[start + 1] == '.') {
        proof {
            if name_length == 2 {
                assert(name =~= seq!['.', '.']);
            }
        }
        return string_from_chars(&chars);
    }
    assert(name != seq!['.', '.']) by {
        if name_length == 2 {
            assert(name[0] == chars@[start as int]);
            assert(name[1] == chars@[start + 1]);
        }
    }
    // Find the dot that starts the extension.
    let mut end = chars.len();
    let mut stem_end = chars.len();
    assert(name.take(name_length as int) == name);
    while end > start + 1
        invariant
            start + 1 <= end <= chars.len() || end == chars.len(),
            start < chars.len(),
            stem_end <= chars.len(),
            chars@ == path@,
            name == path@.subrange(start as int, path@.len() as int),
            stem_end == chars.len() ==> extension_dot(name) == extension_dot(
                name.take(end - start),
            ),
            stem_end < chars.len() ==> extension_dot(name) == Some(stem_end - start),
        decreases end,
    {
        if stem_end == chars.len() {
            let ghost prefix = name.take(end - start);
            assert(prefix.drop_last() == name.take(end - start - 1));
            assert(prefix.last() == chars@[end - 1]);
            if chars[end - 1] == '.' {
                stem_end = end - 1;
            }
        }
        end = end - 1;
    }
    proof {
        if stem_end == chars.len() {
            assert(extension_dot(name.take(end - start)) is None);
        }
    }
    let mut result = String::new();
    let mut k: usize = 0;
    while k < stem_end
        invariant
            k <= stem_end <= chars.len(),
            chars@ == path@,
            result@ == chars@.take(k as int),
        decreases stem_end - k,
    {
        push_char(&mut result, chars[k]);
        k = k + 1;
        assert(chars@.take(k as int) == chars@.take(k - 1).push(chars@[k - 1]));
    }
    push_char(&mut result, '.');
    push_str(&mut result, extension);
    proof {
        match extension_dot(name) {
            Some(d) => {
                lemma_extension_dot_bounds(name);
                assert(stem_end < chars.len());
                assert(d == stem_end - start);
                let lhs = path@.take(start as int) + name.take(d);
                let rhs = chars@.take(stem_end as int);
                assert(lhs.len() == rhs.len());
                assert forall|i: int| 0 <= i < lhs.len() implies lhs[i] == rhs[i] by {
                    if i >= start {
                        assert(lhs[i] == name.take(d)[i - start]);
                        assert(name[i - start] == path@[i]);
                    }
                }
                assert(lhs =~= rhs);
            },
            None => {
                assert(stem_end == chars.len());
                assert(path@.take(start as int) + name =~= chars@.take(stem_end as int));
            },
        }
    }
    result
}

} // verus!

verus! {

/// The parts of a path between its separators, empty ones included: a path
/// with `n` separators has `n + 1` parts.
pub open spec fn split_parts(path: Seq<char>) -> Seq<Seq<char>>
    decreases path.len(),
{
    if path.len() == 0 {
        seq![Seq::empty()]
    } else if path.last() == separator() {
        split_parts(path.drop_last()).push(Seq::empty())
    } else {
        let parts = split_parts(path.drop_last());
        parts.update(parts.len() - 1, parts.last().push(path.last()))
    }
}

/// Whether a part of a path names something: it is not empty and not `.`.
pub open spec fn is_normal_part(part: Seq<char>) -> bool {
    part.len() > 0 && part != seq!['.']
}

/// The parts of a sequence that name something, in order.
pub open spec fn normal(parts: Seq<Seq<char>>) -> Seq<Seq<char>>
    decreases parts.len(),
{
    if parts.len() == 0 {
        Seq::empty()
    } else if is_normal_part(parts.last()) {
        normal(parts.drop_last()).push(parts.last())
    } else {
        normal(parts.drop_last())
    }
}

/// The components of a path after its root, as `Path::components` gives them:
/// its parts without empty ones and `.`.
pub open spec fn components(path: Seq<char>) -> Seq<Seq<char>> {
    normal(split_parts(path))
}

/// Whether a path starts at the root.
pub open spec fn is_absolute(path: Seq<char>) -> bool {
    path.len() > 0 && path[0] == separator()
}

/// Whether a path is absolute and has no `..` component, as a canonical path
/// is.
pub open spec fn is_canonical_path(path: Seq<char>) -> bool {
    is_absolute(path) && forall|i: int|
        0 <= i < components(path).len() ==> #[trigger] components(path)[i] != seq!['.', '.']
}

/// The components of a path that follow a base path, as `Path::strip_prefix`
/// finds them for an absolute path: the base must be absolute too and its
/// components must begin the path's.
pub open spec fn spec_strip_prefix(path: Seq<char>, base: Seq<char>) -> Option<Seq<Seq<char>>> {
    let path_components = components(path);
    let base_components = components(base);
    if is_absolute(base) && base_components.len() <= path_components.len()
        && path_components.take(base_components.len() as int) == base_components {
        Some(path_components.skip(base_components.len() as int))
    } else {
        None
    }
}

/// The components of a path.
pub fn path_components(path: &str) -> (result: Vec<String>)
    ensures
        crate::text::string_views(result@) == components(path@),
{
    let chars = chars_of(path);
    let mut result: Vec<String> = Vec::new();
    let mut current: Vec<char> = Vec::new();
    let ghost mut finished: Seq<Seq<char>> = Seq::empty();
    let mut i: usize = 0;
    while i < chars.len()
        invariant
            i <= chars.len(),
            chars@ == path@,
            split_parts(path@.take(i as int)) == finished.push(current@),
            crate::text::string_views(result@) == normal(finished),
        decreases chars.len() - i,
    {
        assert(path@.take(i + 1).drop_last() == path@.take(i as int));
        if chars[i] == '/' {
            let ghost parts = finished.push(current@);
            if current.len() > 0 && !(current.len() == 1 && current[0] == '.') {
                let ghost before = result@;
                result.push(string_from_chars(&current));
                assert(crate::text::string_views(result@) =~= crate::text::string_views(before).push(current@));
                assert(parts.drop_last() == finished);
            } else {
                assert(parts.drop_last() == finished);
                assert(!is_normal_part(current@)) by {
                    if current.len() == 1 {
                        assert(current@ =~= seq!['.']);
                    }
                }
            }
            proof {
                finished = parts;
            }
            current = Vec::new();
        } else {
            let ghost before = current@;
            current.push(chars[i]);
            assert(finished.push(before).update(finished.len() as int, before.push(chars@[i as int]))
                =~= finished.push(current@));
        }
        i = i + 1;
    }
    assert(path@.take(chars.len() as int) == path@);
    let ghost parts = finished.push(current@);
    assert(parts.drop_last() == finished);
    if current.len() > 0 && !(current.len() == 1 && current[0] == '.') {
        let ghost before = result@;
        result.push(string_from_chars(&current));
        assert(crate::text::string_views(result@) =~= crate::text::string_views(before).push(current@));
    } else {
        assert(!is_normal_part(current@)) by {
            if current.len() == 1 {
                assert(current@ =~= seq!['.']);
            }
        }
    }
    result
}

/// Whether a path is absolute.
pub fn path_is_absolute(path: &str) -> (result: bool)
    ensures
        result == is_absolute(path@),
{
    let chars = chars_of(path);
    chars.len() > 0 && chars[0] == '/'
}

/// The components of a path that follow a base path, if the base path begins
/// it.
pub fn strip_prefix(path: &str, base: &str) -> (result: Option<Vec<String>>)
    ensures
        match result {
            Some(rest) => spec_strip_prefix(path@, base@) == Some(crate::text::string_views(rest@)),
            None => spec_strip_prefix(path@, base@) is None,
        },
{
    if !path_is_absolute(base) {
        return None;
    }
    let path_parts = path_components(path);
    let base_parts = path_components(base);
    let ghost path_views = crate::text::string_views(path_parts@);
    let ghost base_views = crate::text::string_views(base_parts@);
    if base_parts.len() > path_parts.len() {
        return None;
    }
    let mut i: usize = 0;
    while i < base_parts.len()
        invariant
            i <= base_parts.len() <= path_parts.len(),
            path_views == crate::text::string_views(path_parts@),
            base_views == crate::text::string_views(base_parts@),
            path_views == components(path@),
            base_views == components(base@),
            is_absolute(base@),
            forall|j: int| 0 <= j < i ==> path_views[j] == base_views[j],
        decreases base_parts.len() - i,
    {
        if !crate::text::str_equal(path_parts[i].as_str(), base_parts[i].as_str()) {
            assert(path_views.take(base_views.len() as int)[i as int] != base_views[i as int]);
            return None;
        }
        i = i + 1;
    }
    assert(path_views.take(base_views.len() as int) =~= base_views);
    let mut rest: Vec<String> = Vec::new();
    let mut k: usize = base_parts.len();
    while k < path_parts.len()
        invariant
            base_parts.len() <= k <= path_parts.len(),
            rest.len() == k - base_parts.len(),
            path_views.len() == path_parts.len(),
            path_views == crate::text::string_views(path_parts@),
            crate::text::string_views(rest@) == path_views.subrange(
                base_parts.len() as int,
                k as int,
            ),
        decreases path_parts.len() - k,
    {
        let ghost before = rest@;
        rest.push(path_parts[k].clone());
        k = k + 1;
        assert(crate::text::string_views(rest@) =~= crate::text::string_views(before).push(
            path_views[k - 1],
        ));
        assert(crate::text::string_views(rest@) =~= path_views.subrange(
            base_parts.len() as int,
            k as int,
        ));
    }
    Some(rest)
}

} // verus!
