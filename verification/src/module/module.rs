use super::package::{package_path, package_text, Package, PackageView, PackagesPath};
use super::path::{
    is_canonical_path, join, spec_join, spec_strip_prefix, spec_with_extension, strip_prefix,
    with_extension,
};
use crate::text::{
    chars_of, clone_strings, joined, push_char, push_joined, push_str, str_equal, string_views,
};
use vstd::prelude::*;

verus! {

/// Whether a module holds Candy code or is an asset, such as an image.
#[derive(Clone, Copy, Debug, PartialEq, Eq, Structural, Hash, PartialOrd, Ord)]
pub enum ModuleKind {
    Code,
    Asset,
}

/// A module: a file inside a package, found by the path of its components
/// relative to the package.
#[derive(Debug, PartialEq, Eq, Hash, PartialOrd, Ord)]
pub struct Module {
    package: Package,
    path: Vec<String>,
    kind: ModuleKind,
}

/// The value of a module.
pub struct ModuleView {
    pub package: PackageView,
    pub path: Seq<Seq<char>>,
    pub kind: ModuleKind,
}

impl View for Module {
    type V = ModuleView;

    closed spec fn view(&self) -> ModuleView {
        ModuleView { package: self.package@, path: string_views(self.path@), kind: self.kind }
    }
}

impl Clone for Module {
    fn clone(&self) -> (result: Self)
        ensures
            result@ == self@,
    {
        Module { package: self.package.clone(), path: clone_strings(&self.path), kind: self.kind }
    }
}

/// The path of a module within its package, from the components of its file's
/// path relative to the package: for a code module, the `.candy` extension of
/// the last component is removed, and a last component `_` (a folder's module)
/// is dropped.
pub open spec fn module_path_from_components(components: Seq<Seq<char>>, kind: ModuleKind) -> Seq<
    Seq<char>,
> {
    if kind == ModuleKind::Code && components.len() > 0 {
        let last = components.last();
        let name = last.take(last.len() - 6);
        if name == seq!['_'] {
            components.drop_last()
        } else {
            components.drop_last().push(name)
        }
    } else {
        components
    }
}

/// Whether a file name ends with the `.candy` extension.
pub open spec fn has_candy_extension(name: Seq<char>) -> bool {
    name.len() >= 6 && name.subrange(name.len() - 6, name.len() as int) == ".candy"@
}

/// The path that results from pushing components onto a path one by one.
pub open spec fn push_all(path: Seq<char>, components: Seq<Seq<char>>) -> Seq<char>
    decreases components.len(),
{
    if components.len() == 0 {
        path
    } else {
        spec_join(push_all(path, components.drop_last()), components.last())
    }
}

/// The files that may hold a module: an asset is the file at its path; code
/// is either the `_.candy` file in the folder at its path or the file at its
/// path with the `.candy` extension. Modules of anonymous and tooling packages
/// have no files.
pub open spec fn possible_paths(module: ModuleView, packages_path: Seq<char>) -> Option<
    Seq<Seq<char>>,
> {
    match package_path(module.package, packages_path) {
        Some(package_directory) => {
            let path = push_all(package_directory, module.path);
            Some(
                match module.kind {
                    ModuleKind::Asset => seq![path],
                    ModuleKind::Code => seq![
                        spec_join(path, "_.candy"@),
                        spec_with_extension(path, "candy"@),
                    ],
                },
            )
        },
        None => None,
    }
}

/// The text of a module: its package's text, a colon, and its path with
/// slashes between the components.
pub open spec fn module_text(module: ModuleView) -> Seq<char> {
    package_text(module.package) + ":"@ + joined(module.path, "/"@)
}

impl Module {
    /// The text of this module, as it is displayed.
    pub fn to_string(&self) -> (result: String)
        ensures
            result@ == module_text(self@),
    {
        let mut result = self.package.to_string();
        push_str(&mut result, ":");
        push_joined(&mut result, &self.path, "/");
        result
    }

    pub fn package(&self) -> (result: &Package)
        ensures
            result@ == self@.package,
    {
        &self.package
    }

    pub fn path(&self) -> (result: &Vec<String>)
        ensures
            string_views(result@) == self@.path,
    {
        &self.path
    }

    pub fn kind(&self) -> (result: ModuleKind)
        ensures
            result == self@.kind,
    {
        self.kind
    }

    pub fn new(package: Package, path: Vec<String>, kind: ModuleKind) -> (result: Self)
        ensures
            result@ == (ModuleView { package: package@, path: string_views(path@), kind }),
    {
        Module { package, path, kind }
    }

    /// The root module of a managed package.
    pub fn from_package_name(name: String) -> (result: Self)
        ensures
            result@ == (ModuleView {
                package: PackageView::Managed(name@),
                path: Seq::empty(),
                kind: ModuleKind::Code,
            }),
    {
        let result = Module { package: Package::Managed(name), path: Vec::new(), kind: ModuleKind::Code };
        assert(string_views(result.path@) =~= Seq::empty());
        result
    }

    /// The module in a package whose file's path relative to the package has the
    /// given components.
    pub fn from_package_and_components(
        package: Package,
        components: Vec<String>,
        kind: ModuleKind,
    ) -> (result: Self)
        requires
            kind == ModuleKind::Code && components.len() > 0 ==> has_candy_extension(
                components@.last()@,
            ),
        ensures
            result@ == (ModuleView {
                package: package@,
                path: module_path_from_components(string_views(components@), kind),
                kind,
            }),
    {
        let mut path = components;
        proof {
            reveal_strlit("_");
            assert("_"@ =~= seq!['_']);
        }
        if kind == ModuleKind::Code && path.len() > 0 {
            let ghost before = path@;
            let last = path.pop().unwrap();
            let last_chars = chars_of(last.as_str());
            let mut name = String::new();
            let mut i: usize = 0;
            while i + 6 < last_chars.len()
                invariant
                    last_chars@ == last@,
                    last_chars.len() >= 6,
                    i <= last_chars.len() - 6,
                    name@ == last@.take(i as int),
                decreases last_chars.len() - i,
            {
                push_char(&mut name, last_chars[i]);
                i = i + 1;
                assert(last@.take(i as int) == last@.take(i - 1).push(last@[i - 1]));
            }
            assert(last == before.last());
            assert(name@ == last@.take(last@.len() - 6));
            let ghost components_view = string_views(before);
            assert(components_view.last() == last@);
            assert(components_view.drop_last() =~= string_views(before.drop_last()));
            if !str_equal(name.as_str(), "_") {
                path.push(name);
                assert(string_views(path@) =~= string_views(before.drop_last()).push(last@.take(last@.len() - 6)));
            } else {
                assert(string_views(path@) =~= string_views(before.drop_last()));
            }
            proof {
                assert(string_views(before).last() == last@);
                assert(string_views(before).drop_last() =~= string_views(before.drop_last()));
            }
        }
        Module { package, path, kind }
    }

    /// The files that may hold this module.
    pub fn to_possible_paths(&self, packages_path: &PackagesPath) -> (result: Option<Vec<String>>)
        ensures
            match result {
                Some(paths) => possible_paths(self@, packages_path.spec_path()) == Some(
                    string_views(paths@),
                ),
                None => possible_paths(self@, packages_path.spec_path()) is None,
            },
    {
        let directory = match self.package.to_path(packages_path) {
            Some(directory) => directory,
            None => return None,
        };
        let mut path = directory;
        let mut i: usize = 0;
        while i < self.path.len()
            invariant
                i <= self.path.len(),
                path@ == push_all(
                    package_path(self@.package, packages_path.spec_path())->0,
                    self@.path.take(i as int),
                ),
                package_path(self@.package, packages_path.spec_path()) is Some,
            decreases self.path.len() - i,
        {
            let ghost before = self@.path.take(i as int);
            path = join(path.as_str(), self.path[i].as_str());
            i = i + 1;
            assert(self@.path.take(i as int).drop_last() == before);
        }
        assert(self@.path.take(self.path.len() as int) == self@.path);
        let mut paths: Vec<String> = Vec::new();
        match self.kind {
            ModuleKind::Asset => {
                paths.push(path);
            },
            ModuleKind::Code => {
                paths.push(join(path.as_str(), "_.candy"));
                paths.push(with_extension(path.as_str(), "candy"));
            },
        }
        assert(string_views(paths@) =~= possible_paths(self@, packages_path.spec_path())->0);
        Some(paths)
    }

    /// Whether two modules are the same.
    pub fn equals(&self, other: &Module) -> (result: bool)
        ensures
            result == (self@ == other@),
    {
        if !self.package.equals(&other.package) || self.kind != other.kind {
            return false;
        }
        if self.path.len() != other.path.len() {
            assert(self@.path.len() != other@.path.len());
            return false;
        }
        let mut i: usize = 0;
        while i < self.path.len()
            invariant
                i <= self.path.len() == other.path.len(),
                forall|j: int| 0 <= j < i ==> self.path@[j]@ == other.path@[j]@,
            decreases self.path.len() - i,
        {
            if !str_equal(self.path[i].as_str(), other.path[i].as_str()) {
                assert(self@.path[i as int] != other@.path[i as int]);
                return false;
            }
            i = i + 1;
        }
        assert(self@.path =~= other@.path);
        true
    }
}

/// Why a file is not a module.
#[derive(Debug)]
pub enum ModuleFromPathError {
    /// The file does not exist or its path is invalid.
    NotFound(String),
    /// The file does not lie inside the package.
    NotInPackage(String),
}

/// The message for a file that is not a module.
pub open spec fn module_from_path_message(error: ModuleFromPathError) -> Seq<char> {
    match error {
        ModuleFromPathError::NotFound(path) => "File `"@ + path@
            + "` does not exist or its path is invalid."@,
        ModuleFromPathError::NotInPackage(path) => "File `"@ + path@
            + "` is not located in the package."@,
    }
}

impl ModuleFromPathError {
    /// The message that describes this error.
    pub fn to_string(&self) -> (result: String)
        ensures
            result@ == module_from_path_message(*self),
    {
        let mut result = String::from_str("File `");
        match self {
            ModuleFromPathError::NotFound(path) => {
                push_str(&mut result, path.as_str());
                push_str(&mut result, "` does not exist or its path is invalid.");
            },
            ModuleFromPathError::NotInPackage(path) => {
                push_str(&mut result, path.as_str());
                push_str(&mut result, "` is not located in the package.");
            },
        }
        result
    }
}

/// What finding the module of a file gives: the file must exist (it has a
/// canonical path) and lie inside the package's directory; the module's path
/// comes from the file's components relative to the package.
pub open spec fn module_for_file(
    package: PackageView,
    packages_path: Seq<char>,
    canonicalized: Option<Seq<char>>,
    kind: ModuleKind,
) -> Option<ModuleView> {
    match canonicalized {
        None => None,
        Some(file) => match spec_strip_prefix(file, package_path(package, packages_path)->0) {
            None => None,
            Some(relative) => Some(
                ModuleView {
                    package,
                    path: module_path_from_components(relative, kind),
                    kind,
                },
            ),
        },
    }
}

impl Module {
    /// The module of a file in a package, from the path of the file as given
    /// and its canonical path, if the file exists.
    pub fn from_package_and_path(
        packages_path: &PackagesPath,
        package: Package,
        path: &str,
        canonicalized: Option<&str>,
        kind: ModuleKind,
    ) -> (result: Result<Module, ModuleFromPathError>)
        requires
            package_path(package@, packages_path.spec_path()) is Some,
            canonicalized matches Some(file) ==> is_canonical_path(file@),
            canonicalized matches Some(file) ==> (spec_strip_prefix(
                file@,
                package_path(package@, packages_path.spec_path())->0,
            ) matches Some(relative) ==> (kind == ModuleKind::Code && relative.len() > 0
                ==> has_candy_extension(relative.last()))),
        ensures
            match result {
                Ok(module) => module_for_file(
                    package@,
                    packages_path.spec_path(),
                    match canonicalized {
                        Some(file) => Some(file@),
                        None => None,
                    },
                    kind,
                ) == Some(module@),
                Err(ModuleFromPathError::NotFound(reported)) => canonicalized is None
                    && reported@ == path@,
                Err(ModuleFromPathError::NotInPackage(reported)) => canonicalized is Some
                    && module_for_file(
                    package@,
                    packages_path.spec_path(),
                    match canonicalized {
                        Some(file) => Some(file@),
                        None => None,
                    },
                    kind,
                ) is None && reported@ == path@,
            },
    {
        let file = match canonicalized {
            Some(file) => file,
            None => return Err(ModuleFromPathError::NotFound(String::from_str(path))),
        };
        let directory = match package.to_path(packages_path) {
            Some(directory) => directory,
            None => return Err(ModuleFromPathError::NotInPackage(String::from_str(path))),
        };
        match strip_prefix(file, directory.as_str()) {
            Some(relative) => Ok(Module::from_package_and_components(package, relative, kind)),
            None => Err(ModuleFromPathError::NotInPackage(String::from_str(path))),
        }
    }
}

} // verus!
