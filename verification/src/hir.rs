mod pattern;

pub use self::pattern::{
    all_keys_bind_nothing, any_binds, any_value_binds, binding_known_all, count_all,
    count_fields, count_known_all, count_known_fields, errors_all, field_errors,
    fields_keys_bind_nothing, identifiers_all, identifiers_known_all,
    lemma_identifiers_match_count, lemma_identifiers_match_count_all,
    lemma_identifiers_match_count_fields, value_binding_known, value_identifiers,
    value_identifiers_known, Pattern,
};
pub use crate::ast_tree::CollectErrors;
use crate::id::CountableId;
use crate::module::{module_text, Module, ModuleKind, ModuleView, Package, PackageView};
use crate::text::{
    clone_strings, decimal, hexadecimal, joined, push_decimal, push_hexadecimal, push_joined,
    push_str, string_views,
};
use vstd::prelude::*;

verus! {

/// The ID of an expression of the high-level intermediate representation: the
/// module it stands in and the keys of the bodies that lead to it.
pub struct Id {
    pub module: Module,
    pub keys: Vec<String>,
}

/// The value of an ID.
pub struct IdView {
    pub module: ModuleView,
    pub keys: Seq<Seq<char>>,
}

impl View for Id {
    type V = IdView;

    open spec fn view(&self) -> IdView {
        IdView { module: self.module@, keys: string_views(self.keys@) }
    }
}

impl Clone for Id {
    fn clone(&self) -> (result: Self)
        ensures
            result@ == self@,
    {
        Id { module: self.module.clone(), keys: clone_strings(&self.keys) }
    }
}

/// The ID that blames the named tooling: the root of the tooling package's
/// module.
pub open spec fn tooling_id(name: Seq<char>) -> IdView {
    IdView {
        module: ModuleView {
            package: PackageView::Tooling(name),
            path: Seq::empty(),
            kind: ModuleKind::Code,
        },
        keys: Seq::empty(),
    }
}

/// Whether the first ID is in the same module as the second one and is one of
/// its ancestors: its keys are a proper prefix of the other's.
pub open spec fn is_ancestor(id: IdView, other: IdView) -> bool {
    &&& id.module == other.module
    &&& id.keys.len() < other.keys.len()
    &&& other.keys.take(id.keys.len() as int) == id.keys
}

/// The short text of an ID: a dollar sign and its keys with colons between
/// them.
pub open spec fn short_debug_text(id: IdView) -> Seq<char> {
    "$"@ + joined(id.keys, ":"@)
}

/// The text of an ID: its module and keys inside `HirId(..)`.
pub open spec fn id_text(id: IdView) -> Seq<char> {
    "HirId("@ + module_text(id.module) + ":"@ + joined(id.keys, ":"@) + ")"@
}

impl Id {
    pub fn new(module: Module, keys: Vec<String>) -> (result: Self)
        ensures
            result@ == (IdView { module: module@, keys: string_views(keys@) }),
    {
        Id { module, keys }
    }

    /// An ID that can be used to blame the tooling. For example, when calling
    /// the `main` function, we want to be able to blame the platform for
    /// passing a wrong environment.
    fn tooling(name: String) -> (result: Self)
        ensures
            result@ == tooling_id(name@),
    {
        let keys: Vec<String> = Vec::new();
        let result = Id { module: Module::new(Package::Tooling(name), Vec::new(), ModuleKind::Code), keys };
        assert(result@.keys =~= Seq::<Seq<char>>::empty());
        assert(result@.module.path =~= Seq::<Seq<char>>::empty());
        result
    }

    /// Refers to the platform (non-Candy code).
    pub fn platform() -> (result: Self)
        ensures
            result@ == tooling_id("platform"@),
    {
        Self::tooling(String::from_str("platform"))
    }

    pub fn fuzzer() -> (result: Self)
        ensures
            result@ == tooling_id("fuzzer"@),
    {
        Self::tooling(String::from_str("fuzzer"))
    }

    /// A dummy ID that is guaranteed to never be responsible for a panic.
    pub fn dummy() -> (result: Self)
        ensures
            result@ == tooling_id("dummy"@),
    {
        Self::tooling(String::from_str("dummy"))
    }

    /// When a higher-order function calls a closure passed as a parameter,
    /// that's registered as a normal call instruction, making the callsite in
    /// the higher-order function responsible for the successful fulfillment of
    /// the passed function's `needs`. This ID stands for that responsibility.
    pub fn complicated_responsibility() -> (result: Self)
        ensures
            result@ == tooling_id("complicated-responsibility"@),
    {
        Self::tooling(String::from_str("complicated-responsibility"))
    }

    pub fn to_short_debug_string(&self) -> (result: String)
        ensures
            result@ == short_debug_text(self@),
    {
        let mut result = String::from_str("$");
        push_joined(&mut result, &self.keys, ":");
        result
    }

    /// The text of this ID, as `Debug` and `Display` write it.
    pub fn to_string(&self) -> (result: String)
        ensures
            result@ == id_text(self@),
    {
        let mut result = String::from_str("HirId(");
        let module = self.module.to_string();
        push_str(&mut result, module.as_str());
        push_str(&mut result, ":");
        push_joined(&mut result, &self.keys, ":");
        push_str(&mut result, ")");
        result
    }

    pub fn is_root(&self) -> (result: bool)
        ensures
            result == (self@.keys.len() == 0),
    {
        self.keys.len() == 0
    }

    /// The ID of the body that this ID stands in, if it is not a root.
    pub fn parent(&self) -> (result: Option<Id>)
        ensures
            match result {
                None => self@.keys.len() == 0,
                Some(parent) => self@.keys.len() > 0 && parent@ == (IdView {
                    module: self@.module,
                    keys: self@.keys.drop_last(),
                }),
            },
    {
        if self.keys.len() == 0 {
            return None;
        }
        let mut keys = clone_strings(&self.keys);
        keys.pop();
        let parent = Id { module: self.module.clone(), keys };
        assert(parent@.keys =~= self@.keys.drop_last());
        Some(parent)
    }

    pub fn is_same_module_and_any_parent_of(&self, other: &Self) -> (result: bool)
        ensures
            result == is_ancestor(self@, other@),
    {
        if !self.module.equals(&other.module) || self.keys.len() >= other.keys.len() {
            return false;
        }
        let mut i: usize = 0;
        while i < self.keys.len()
            invariant
                i <= self.keys.len() < other.keys.len(),
                forall|j: int| 0 <= j < i ==> self@.keys[j] == other@.keys[j],
            decreases self.keys.len() - i,
        {
            if !crate::text::str_equal(self.keys[i].as_str(), other.keys[i].as_str()) {
                assert(other@.keys.take(self@.keys.len() as int)[i as int] != self@.keys[i as int]);
                return false;
            }
            i = i + 1;
        }
        assert(other@.keys.take(self@.keys.len() as int) =~= self@.keys);
        true
    }
}

/// An ID's parent is one of its ancestors.
pub proof fn lemma_parent_is_ancestor(id: IdView)
    requires
        id.keys.len() > 0,
    ensures
        is_ancestor(IdView { module: id.module, keys: id.keys.drop_last() }, id),
{
    assert(id.keys.take(id.keys.len() - 1) =~= id.keys.drop_last());
}

/// No ID is its own ancestor.
pub proof fn lemma_ancestor_irreflexive(id: IdView)
    ensures
        !is_ancestor(id, id),
{
}

/// An ancestor of an ancestor of an ID is an ancestor of that ID.
pub proof fn lemma_ancestor_transitive(a: IdView, b: IdView, c: IdView)
    requires
        is_ancestor(a, b),
        is_ancestor(b, c),
    ensures
        is_ancestor(a, c),
{
    assert(c.keys.take(a.keys.len() as int) =~= b.keys.take(a.keys.len() as int));
}

/// Two ancestors of the same ID with keys of the same length are the same.
pub proof fn lemma_ancestor_unique(a: IdView, b: IdView, c: IdView)
    requires
        is_ancestor(a, c),
        is_ancestor(b, c),
        a.keys.len() == b.keys.len(),
    ensures
        a == b,
{
    assert(a.keys =~= b.keys);
}

/// The ID of an identifier that a pattern binds.
#[derive(Clone, Copy, PartialEq, Eq, Structural, Hash, Debug)]
pub struct PatternIdentifierId(pub usize);

impl CountableId for PatternIdentifierId {
    open spec fn spec_index(&self) -> nat {
        self.0 as nat
    }

    fn from_usize(id: usize) -> (result: Self) {
        PatternIdentifierId(id)
    }

    fn to_usize(&self) -> (result: usize) {
        self.0
    }
}

impl PatternIdentifierId {
    /// The text of this ID as `Display` writes it: `p$` and its number.
    pub fn to_string(&self) -> (result: String)
        ensures
            result@ == "p$"@ + decimal(self.0 as nat),
    {
        let mut result = String::from_str("p$");
        push_decimal(&mut result, self.0);
        result
    }

    /// The text of this ID as `Debug` writes it: `pattern_identifier_` and its
    /// number in hexadecimal.
    pub fn to_debug_string(&self) -> (result: String)
        ensures
            result@ == "pattern_identifier_"@ + hexadecimal(self.0 as nat),
    {
        let mut result = String::from_str("pattern_identifier_");
        push_hexadecimal(&mut result, self.0);
        result
    }
}

/// An error found while lowering to the high-level intermediate representation.
#[derive(Clone, Debug, PartialEq, Eq, Hash)]
pub enum HirError {
    NeedsWithWrongNumberOfArguments { num_args: usize },
    PublicAssignmentInNotTopLevel,
    PublicAssignmentWithSameName { name: String },
    UnknownReference { name: String },
}

/// What a reference in the high-level intermediate representation points to.
pub enum HirReferenceKey {
    Id(Id),
}

} // verus!
