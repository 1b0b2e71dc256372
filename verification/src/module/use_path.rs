use super::module::{Module, ModuleKind, ModuleView};
use super::package::{Package, PackageView};
use crate::text::{chars_of, clone_strings, push_char, push_str, string_from_chars};
use vstd::prelude::*;

verus! {

/// The target of a `use`: a managed package by name, or a module found
/// relative to the current one.
#[derive(Debug)]
pub enum UsePath {
    Managed(String),
    Relative { parent_navigations: usize, path: String },
}

/// The value of a use path, with its texts as character sequences.
pub enum UsePathView {
    Managed(Seq<char>),
    Relative { parent_navigations: nat, path: Seq<char> },
}

impl View for UsePath {
    type V = UsePathView;

    open spec fn view(&self) -> UsePathView {
        match self {
            UsePath::Managed(name) => UsePathView::Managed(name@),
            UsePath::Relative { parent_navigations, path } => UsePathView::Relative {
                parent_navigations: *parent_navigations as nat,
                path: path@,
            },
        }
    }
}

/// The character that navigates to the parent.
pub open spec fn parent_navigation_char() -> char {
    '.'
}

/// The number of dots that a text starts with.
pub open spec fn leading_dots(text: Seq<char>) -> nat
    decreases text.len(),
{
    if text.len() > 0 && text[0] == parent_navigation_char() {
        1 + leading_dots(text.drop_first())
    } else {
        0
    }
}

/// Whether a character may stand in a target name: an ASCII letter or digit,
/// or a dot.
pub open spec fn is_target_char(c: char) -> bool {
    ||| ('0' <= c && c <= '9')
    ||| ('a' <= c && c <= 'z')
    ||| ('A' <= c && c <= 'Z')
    ||| c == '.'
}

/// Whether every character of a name may stand in a target name.
pub open spec fn is_target_name(name: Seq<char>) -> bool {
    forall|i: int| 0 <= i < name.len() ==> is_target_char(#[trigger] name[i])
}

/// The error text for a target name with other characters.
pub open spec fn invalid_name_message() -> Seq<char> {
    "The target name can only contain letters and dots."@
}

/// The error text for a path that leaves its package.
pub open spec fn too_many_navigations_message() -> Seq<char> {
    "The path contains too many parent navigations. You can't navigate out of the current package."@
}

/// What parsing a text gives: the leading dots count the navigations (one dot
/// is the current folder, each further dot one parent), and the rest is the
/// target name, which must consist of target characters. Without dots the
/// text names a managed package.
pub open spec fn spec_parse(text: Seq<char>) -> Result<UsePathView, Seq<char>> {
    let dots = leading_dots(text);
    let name = text.skip(dots as int);
    if !is_target_name(name) {
        Err(invalid_name_message())
    } else if dots == 0 {
        Ok(UsePathView::Managed(name))
    } else {
        Ok(UsePathView::Relative { parent_navigations: (dots - 1) as nat, path: name })
    }
}

/// The text of a use path: a managed package's name, or one dot more than
/// there are parent navigations followed by the path.
pub open spec fn use_path_text(path: UsePathView) -> Seq<char> {
    match path {
        UsePathView::Managed(name) => name,
        UsePathView::Relative { parent_navigations, path } => Seq::new(
            (parent_navigations + 1) as nat,
            |i: int| parent_navigation_char(),
        ) + path,
    }
}

/// Whether a use path is one that parsing gives: its name consists of target
/// characters and does not start with a dot.
pub open spec fn is_parsed_form(path: UsePathView) -> bool {
    let name = match path {
        UsePathView::Managed(name) => name,
        UsePathView::Relative { path, .. } => path,
    };
    is_target_name(name) && (name.len() == 0 || name[0] != parent_navigation_char())
}

/// The module that a use path names, seen from the current module: a managed
/// package's root module, or the module reached by leaving as many folders as
/// there are parent navigations and then entering the path. A path with a dot
/// names an asset. Leaving more folders than the current module's path has is
/// an error.
pub open spec fn spec_resolve(path: UsePathView, current: ModuleView) -> Result<
    ModuleView,
    Seq<char>,
> {
    match path {
        UsePathView::Managed(name) => Ok(
            ModuleView {
                package: PackageView::Managed(name),
                path: Seq::empty(),
                kind: ModuleKind::Code,
            },
        ),
        UsePathView::Relative { parent_navigations, path } => {
            if parent_navigations > current.path.len() {
                Err(too_many_navigations_message())
            } else {
                Ok(
                    ModuleView {
                        package: current.package,
                        path: current.path.take(current.path.len() - parent_navigations).push(
                            path,
                        ),
                        kind: if path.contains(parent_navigation_char()) {
                            ModuleKind::Asset
                        } else {
                            ModuleKind::Code
                        },
                    },
                )
            }
        },
    }
}

/// Whether a character is an ASCII letter or digit, or a dot.
fn is_target_character(c: char) -> (result: bool)
    ensures
        result == is_target_char(c),
{
    ('0' <= c && c <= '9') || ('a' <= c && c <= 'z') || ('A' <= c && c <= 'Z') || c == '.'
}

proof fn lemma_leading_dots(text: Seq<char>, i: int)
    requires
        0 <= i <= text.len(),
        forall|j: int| 0 <= j < i ==> text[j] == parent_navigation_char(),
        i == text.len() || text[i] != parent_navigation_char(),
    ensures
        leading_dots(text) == i,
    decreases i,
{
    if i > 0 {
        lemma_leading_dots(text.drop_first(), i - 1);
    }
}

proof fn lemma_leading_dots_prefix(text: Seq<char>)
    ensures
        leading_dots(text) <= text.len(),
        forall|j: int| 0 <= j < leading_dots(text) ==> text[j] == parent_navigation_char(),
        leading_dots(text) < text.len() ==> text[leading_dots(text) as int]
            != parent_navigation_char(),
    decreases text.len(),
{
    if text.len() > 0 && text[0] == parent_navigation_char() {
        let rest = text.drop_first();
        lemma_leading_dots_prefix(rest);
        assert forall|j: int| 0 <= j < leading_dots(text) implies text[j]
            == parent_navigation_char() by {
            if j > 0 {
                assert(text[j] == rest[j - 1]);
            }
        }
    }
}

impl UsePath {
    /// Parses the target of a `use`.
    pub fn parse(path: &str) -> (result: Result<Self, String>)
        ensures
            match (result, spec_parse(path@)) {
                (Ok(parsed), Ok(expected)) => parsed@ == expected,
                (Err(message), Err(expected)) => message@ == expected,
                _ => false,
            },
    {
        let chars = chars_of(path);
        let mut dots: usize = 0;
        while dots < chars.len() && chars[dots] == '.'
            invariant
                dots <= chars.len(),
                chars@ == path@,
                forall|j: int| 0 <= j < dots ==> chars@[j] == parent_navigation_char(),
            decreases chars.len() - dots,
        {
            dots = dots + 1;
        }
        proof {
            lemma_leading_dots(path@, dots as int);
        }
        let ghost name = path@.skip(dots as int);
        let mut rest: Vec<char> = Vec::new();
        let mut i: usize = dots;
        while i < chars.len()
            invariant
                dots <= i <= chars.len(),
                chars@ == path@,
                leading_dots(path@) == dots,
                name == path@.skip(dots as int),
                rest@ == name.take(i - dots),
                forall|j: int| 0 <= j < i - dots ==> is_target_char(#[trigger] name[j]),
            decreases chars.len() - i,
        {
            if !is_target_character(chars[i]) {
                assert(name[i - dots] == chars@[i as int]);
                assert(!is_target_char(name[i - dots]));
                return Err(String::from_str("The target name can only contain letters and dots."));
            }
            rest.push(chars[i]);
            i = i + 1;
            assert(name.take(i - dots) == name.take(i - 1 - dots).push(name[i - 1 - dots]));
        }
        assert(rest@ == name);
        let rest = string_from_chars(&rest);
        if dots == 0 {
            Ok(UsePath::Managed(rest))
        } else {
            Ok(UsePath::Relative { parent_navigations: dots - 1, path: rest })
        }
    }

    /// The module that this path names, seen from the current module.
    pub fn resolve_relative_to(&self, current_module: Module) -> (result: Result<Module, String>)
        ensures
            match (result, spec_resolve(self@, current_module@)) {
                (Ok(module), Ok(expected)) => module@ == expected,
                (Err(message), Err(expected)) => message@ == expected,
                _ => false,
            },
    {
        match self {
            UsePath::Managed(name) => Ok(Module::from_package_name(name.clone())),
            UsePath::Relative { parent_navigations, path } => {
                let path_chars = chars_of(path.as_str());
                let mut has_dot = false;
                let mut k: usize = 0;
                while k < path_chars.len()
                    invariant
                        k <= path_chars.len(),
                        path_chars@ == path@,
                        has_dot == path@.take(k as int).contains(parent_navigation_char()),
                    decreases path_chars.len() - k,
                {
                    let ghost prefix = path@.take(k + 1);
                    assert(prefix == path@.take(k as int).push(path@[k as int]));
                    if path_chars[k] == '.' {
                        has_dot = true;
                        assert(prefix[k as int] == parent_navigation_char());
                    } else {
                        assert forall|j: int| 0 <= j < prefix.len() && prefix[j]
                            == parent_navigation_char() implies path@.take(k as int).contains(
                            parent_navigation_char(),
                        ) by {
                            assert(j < k);
                            assert(path@.take(k as int)[j] == prefix[j]);
                        }
                    }
                    k = k + 1;
                }
                assert(path@.take(path@.len() as int) == path@);
                let kind = if has_dot {
                    ModuleKind::Asset
                } else {
                    ModuleKind::Code
                };
                let mut total_path = clone_strings(current_module.path());
                let mut n: usize = 0;
                while n < *parent_navigations
                    invariant
                        n <= *parent_navigations,
                        self@ == (UsePathView::Relative {
                            parent_navigations: *parent_navigations as nat,
                            path: path@,
                        }),
                        total_path.len() + n == current_module@.path.len(),
                        crate::text::string_views(total_path@) == current_module@.path.take(
                            current_module@.path.len() - n,
                        ),
                    decreases *parent_navigations - n,
                {
                    if total_path.len() == 0 {
                        assert(*parent_navigations > current_module@.path.len());
                        return Err(
                            String::from_str(
                                "The path contains too many parent navigations. You can't navigate out of the current package.",
                            ),
                        );
                    }
                    let ghost before = total_path@;
                    total_path.pop();
                    n = n + 1;
                    assert(crate::text::string_views(total_path@) =~= crate::text::string_views(
                        before,
                    ).drop_last());
                }
                total_path.push(path.clone());
                let ghost expected_path = current_module@.path.take(
                    current_module@.path.len() - *parent_navigations,
                ).push(path@);
                assert(crate::text::string_views(total_path@) =~= expected_path);
                Ok(Module::new(current_module.package().clone(), total_path, kind))
            },
        }
    }

    /// The text of this path, as it is written after `use`.
    pub fn to_string(&self) -> (result: String)
        ensures
            result@ == use_path_text(self@),
    {
        match self {
            UsePath::Managed(name) => name.clone(),
            UsePath::Relative { parent_navigations, path } => {
                let mut result = String::new();
                push_char(&mut result, '.');
                let mut n: usize = 0;
                while n < *parent_navigations
                    invariant
                        n <= *parent_navigations,
                        result@ == Seq::new((n + 1) as nat, |i: int| parent_navigation_char()),
                    decreases *parent_navigations - n,
                {
                    push_char(&mut result, '.');
                    n = n + 1;
                    assert(result@ =~= Seq::new((n + 1) as nat, |i: int| parent_navigation_char()));
                }
                push_str(&mut result, path.as_str());
                result
            },
        }
    }
}

/// Writing a parsed use path gives back the text it was parsed from.
pub proof fn lemma_parse_then_text(text: Seq<char>)
    requires
        spec_parse(text) is Ok,
    ensures
        use_path_text(spec_parse(text)->Ok_0) == text,
        is_parsed_form(spec_parse(text)->Ok_0),
{
    lemma_leading_dots_prefix(text);
    let dots = leading_dots(text);
    let name = text.skip(dots as int);
    if dots > 0 {
        assert(Seq::new(dots, |i: int| parent_navigation_char()) + name =~= text);
    } else {
        assert(name =~= text);
    }
}

/// Parsing the text of a use path that parsing can give gives back that path.
pub proof fn lemma_text_then_parse(path: UsePathView)
    requires
        is_parsed_form(path),
    ensures
        spec_parse(use_path_text(path)) == Ok::<UsePathView, Seq<char>>(path),
{
    let text = use_path_text(path);
    match path {
        UsePathView::Managed(name) => {
            lemma_leading_dots(text, 0);
            assert(text.skip(0) =~= name);
        },
        UsePathView::Relative { parent_navigations, path: name } => {
            let dots = parent_navigations + 1;
            lemma_leading_dots(text, dots as int);
            assert(text.skip(dots as int) =~= name);
        },
    }
}

} // verus!
