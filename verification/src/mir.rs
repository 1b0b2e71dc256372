mod after_panic;
mod constant_folding;
mod expression;
mod ids;
mod pure;
mod tree_shaking;

pub use self::after_panic::{
    is_first_panic, remove_expressions_after_panic, remove_redundant_return_references,
    without_return_references,
};
pub use self::constant_folding::{
    argument, arguments_visible, builtin_result, lemma_call_type_is_result_type,
    lemma_result_reads_only_parameters, is_literal, same_literal, literal_keys, key_matches,
    last_matching_value, struct_get_result, call_result_type, can_fold, contains_text,
    divides_by_zero, ends_with, fold_constants, folded, gives_true_then_false, is_bool,
    is_call_without_arguments, is_int, is_tag, run_builtin, run_fails, starts_with, text_test,
    text_test_result, truth_of, type_of, type_of_fails,
};

pub use self::expression::{lookup, Body, Expression, VisibleExpressions};
pub use self::ids::{
    defined_in, defined_in_entries, fields_referenced, is_captured, referenced_in,
    referenced_in_entries,
};
pub use self::pure::{
    definition_const, definition_deterministic, definition_pure, function_deterministic,
    function_pure, IdSet, PurenessInsights,
};
pub use self::tree_shaking::{
    distinct_ids, forgotten, indices, lemma_tree_shaking_keeps_impure,
    lemma_tree_shaking_keeps_references,
    lemma_tree_shaking_keeps_result, shaken_ids, tree_shake, without_ids,
};
use crate::id::CountableId;
use crate::module::Module;
use crate::text::{decimal, push_decimal};
use vstd::prelude::*;

verus! {

/// The ID of an expression of the mid-level intermediate representation.
#[derive(Clone, Copy, PartialEq, Eq, Structural, Hash, PartialOrd, Ord)]
pub struct Id(usize);

impl CountableId for Id {
    closed spec fn spec_index(&self) -> nat {
        self.0 as nat
    }

    fn from_usize(id: usize) -> (result: Self) {
        Id(id)
    }

    fn to_usize(&self) -> (result: usize) {
        self.0
    }
}

impl Id {
    /// The text of this ID, as `Debug` and `Display` write it: a dollar sign
    /// and its number.
    pub fn to_string(&self) -> (result: String)
        ensures
            result@ == "$"@ + decimal(self.spec_index()),
    {
        let mut result = String::from_str("$");
        push_decimal(&mut result, self.0);
        result
    }
}

/// Whether a visit of the expressions goes on or stops.
pub enum VisitorResult {
    Continue,
    Abort,
}

/// An error found while lowering to the mid-level intermediate representation.
#[derive(Clone, Debug, Eq, Hash, PartialEq)]
pub enum MirError {
    UseWithInvalidPath { module: Module, path: String },
    UseHasTooManyParentNavigations { module: Module, path: String },
    ModuleNotFound { module: Module, path: String },
    UseNotStaticallyResolvable { containing_module: Module },
    ModuleHasCycle { cycle: Vec<String> },
}

/// A panic that an expression may cause: the reason, and the expression that
/// is responsible.
#[derive(Clone, Copy, PartialEq, Eq, Structural, Hash, PartialOrd, Ord)]
pub struct Panic {
    pub reason: Id,
    pub responsible: Id,
}

/// What an operation found by the data flow analysis does.
#[derive(Clone, Copy, PartialEq, Eq, Structural, Hash, PartialOrd, Ord)]
pub enum OperationKind {
    Panic(Panic),
    Impure,
}

} // verus!
