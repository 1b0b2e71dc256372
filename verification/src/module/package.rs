use super::path::{join, spec_join, spec_strip_prefix, strip_prefix};
use crate::text::{joined, push_joined, push_str, str_equal, string_views};
use vstd::prelude::*;

verus! {

/// The directory that managed packages are stored in, as an absolute path.
#[derive(Clone, Debug, PartialEq, Eq, Hash)]
pub struct PackagesPath(String);

impl PackagesPath {
    /// The path as text.
    pub closed spec fn spec_path(&self) -> Seq<char> {
        self.0@
    }

    /// Wraps a directory path that is known to exist.
    pub fn new(path: String) -> (result: Self)
        ensures
            result.spec_path() == path@,
    {
        PackagesPath(path)
    }

    pub fn as_str(&self) -> (result: &str)
        ensures
            result@ == self.spec_path(),
    {
        self.0.as_str()
    }
}

/// Where the code of a module comes from.
#[derive(Debug, PartialEq, Eq, Hash, PartialOrd, Ord)]
pub enum Package {
    /// A package written by the user.
    User(String),
    /// A package managed by the Candy tooling. This is in some special cache
    /// directory where `use`d packages are downloaded to.
    Managed(String),
    /// An anonymous package. This is created for single untitled files that are
    /// not yet persisted to disk (such as when opening a new VSCode tab and
    /// typing some code).
    Anonymous { url: String },
    /// This package can make the tooling responsible for calls. For example,
    /// the fuzzer and constant evaluator use this.
    Tooling(String),
}

/// The value of a package, with its texts as character sequences.
pub enum PackageView {
    User(Seq<char>),
    Managed(Seq<char>),
    Anonymous { url: Seq<char> },
    Tooling(Seq<char>),
}

impl View for Package {
    type V = PackageView;

    open spec fn view(&self) -> PackageView {
        match self {
            Package::User(path) => PackageView::User(path@),
            Package::Managed(path) => PackageView::Managed(path@),
            Package::Anonymous { url } => PackageView::Anonymous { url: url@ },
            Package::Tooling(tooling) => PackageView::Tooling(tooling@),
        }
    }
}

impl Clone for Package {
    fn clone(&self) -> (result: Self)
        ensures
            result == *self,
    {
        match self {
            Package::User(path) => Package::User(path.clone()),
            Package::Managed(path) => Package::Managed(path.clone()),
            Package::Anonymous { url } => Package::Anonymous { url: url.clone() },
            Package::Tooling(tooling) => Package::Tooling(tooling.clone()),
        }
    }
}

/// The directory of a package: a user package's own path, a managed
/// package's path inside the packages path, and none for anonymous and
/// tooling packages.
pub open spec fn package_path(package: PackageView, packages_path: Seq<char>) -> Option<
    Seq<char>,
> {
    match package {
        PackageView::User(path) => Some(path),
        PackageView::Managed(path) => Some(spec_join(packages_path, path)),
        PackageView::Anonymous { .. } => None,
        PackageView::Tooling(_) => None,
    }
}

impl Package {
    /// The package that holds the builtins.
    pub fn builtins() -> (result: Self)
        ensures
            result@ == PackageView::Managed("Builtins"@),
    {
        Package::Managed(String::from_str("Builtins"))
    }

    /// The package that holds the core library.
    pub fn core_package() -> (result: Self)
        ensures
            result@ == PackageView::Managed("Core"@),
    {
        Package::Managed(String::from_str("Core"))
    }

    /// Whether two packages are the same.
    pub fn equals(&self, other: &Package) -> (result: bool)
        ensures
            result == (self@ == other@),
    {
        match (self, other) {
            (Package::User(a), Package::User(b)) => str_equal(a.as_str(), b.as_str()),
            (Package::Managed(a), Package::Managed(b)) => str_equal(a.as_str(), b.as_str()),
            (Package::Anonymous { url: a }, Package::Anonymous { url: b }) => str_equal(a.as_str(), b.as_str()),
            (Package::Tooling(a), Package::Tooling(b)) => str_equal(a.as_str(), b.as_str()),
            _ => false,
        }
    }

    pub open spec fn spec_to_path(self, packages_path: Seq<char>) -> Option<Seq<char>> {
        package_path(self@, packages_path)
    }

    pub fn to_path(&self, packages_path: &PackagesPath) -> (result: Option<String>)
        ensures
            result matches Some(path) ==> self.spec_to_path(packages_path.spec_path()) == Some(
                path@,
            ),
            result is None ==> self.spec_to_path(packages_path.spec_path()) is None,
    {
        match self {
            Package::User(path) => Some(path.clone()),
            Package::Managed(path) => Some(join(packages_path.as_str(), path.as_str())),
            Package::Anonymous { .. } => None,
            Package::Tooling(_) => None,
        }
    }
}

/// How `Debug` writes a path: quoted, with special characters escaped.
pub uninterp spec fn debug_quoted_path(path: Seq<char>) -> Seq<char>;

/// Writes a path as `Debug` does.
///
/// Calls `<Path as Debug>::fmt` through `format!`: the path's text in double
/// quotes with special characters escaped. The result depends on the path's
/// text alone; this contract names it and says nothing more of it.
#[verifier::external_body]
fn quoted_path(path: &str) -> (result: String)
    ensures
        result@ == debug_quoted_path(path@),
{
    format!("{:?}", std::path::Path::new(path))
}

/// The text of a package: a user package's path as `Debug` writes it, a
/// managed package's path, and `anonymous:` or `tooling:` before the URL or
/// the tooling's name.
pub open spec fn package_text(package: PackageView) -> Seq<char> {
    match package {
        PackageView::User(path) => debug_quoted_path(path),
        PackageView::Managed(path) => path,
        PackageView::Anonymous { url } => "anonymous:"@ + url,
        PackageView::Tooling(tooling) => "tooling:"@ + tooling,
    }
}

impl Package {
    /// The text of this package, as it is displayed.
    pub fn to_string(&self) -> (result: String)
        ensures
            result@ == package_text(self@),
    {
        match self {
            Package::User(path) => quoted_path(path.as_str()),
            Package::Managed(path) => path.clone(),
            Package::Anonymous { url } => {
                let mut result = String::from_str("anonymous:");
                push_str(&mut result, url.as_str());
                result
            },
            Package::Tooling(tooling) => {
                let mut result = String::from_str("tooling:");
                push_str(&mut result, tooling.as_str());
                result
            },
        }
    }
}

/// The package whose root is the given directory: a managed package, by its
/// path relative to the packages path, if the directory lies inside that path,
/// and otherwise a user package.
pub open spec fn package_of_directory(packages_path: Seq<char>, directory: Seq<char>) -> PackageView {
    match spec_strip_prefix(directory, packages_path) {
        Some(relative) => PackageView::Managed(joined(relative, "/"@)),
        None => PackageView::User(directory),
    }
}

impl Package {
    /// The package whose root is the given canonical directory.
    pub fn for_directory(packages_path: &PackagesPath, directory: &str) -> (result: Package)
        ensures
            result@ == package_of_directory(packages_path.spec_path(), directory@),
    {
        match strip_prefix(directory, packages_path.as_str()) {
            Some(relative) => {
                let mut path = String::new();
                push_joined(&mut path, &relative, "/");
                Package::Managed(path)
            },
            None => Package::User(String::from_str(directory)),
        }
    }
}

} // verus!

verus! {

/// What the search for the package around a path does after looking at the
/// names in a directory.
#[derive(Clone, Copy, Debug, PartialEq, Eq, Structural)]
pub enum PackageSearchStep {
    /// The directory has no `_.candy`: the path is in no package.
    NotInPackage,
    /// The directory has `_.candy` and `_package.candy`: it is the package.
    Found,
    /// The directory has `_.candy` only: the search goes on in its parent.
    GoToParent,
}

/// Whether one of some names is the given one.
pub open spec fn has_name(names: Seq<Seq<char>>, name: Seq<char>) -> bool {
    exists|i: int| 0 <= i < names.len() && names[i] == name
}

/// The step of the search for a directory with the given names.
pub open spec fn spec_package_search_step(names: Seq<Seq<char>>) -> PackageSearchStep {
    if !has_name(names, "_.candy"@) {
        PackageSearchStep::NotInPackage
    } else if has_name(names, "_package.candy"@) {
        PackageSearchStep::Found
    } else {
        PackageSearchStep::GoToParent
    }
}

/// Whether one of some names is the given one.
fn names_contain(names: &Vec<String>, name: &str) -> (result: bool)
    ensures
        result == has_name(string_views(names@), name@),
{
    let mut i: usize = 0;
    while i < names.len()
        invariant
            i <= names.len(),
            forall|j: int| 0 <= j < i ==> names@[j]@ != name@,
        decreases names.len() - i,
    {
        if str_equal(names[i].as_str(), name) {
            assert(string_views(names@)[i as int] == name@);
            return true;
        }
        i = i + 1;
    }
    assert forall|j: int| 0 <= j < names.len() implies string_views(names@)[j] != name@ by {
        assert(string_views(names@)[j] == names@[j]@);
    }
    false
}

/// The step of the search for the package around a path, for a directory
/// with the given names: no package without `_.candy`, this directory with
/// `_package.candy` too, and otherwise on to the parent.
pub fn package_search_step(names: &Vec<String>) -> (result: PackageSearchStep)
    ensures
        result == spec_package_search_step(string_views(names@)),
{
    if !names_contain(names, "_.candy") {
        PackageSearchStep::NotInPackage
    } else if names_contain(names, "_package.candy") {
        PackageSearchStep::Found
    } else {
        PackageSearchStep::GoToParent
    }
}

} // verus!
