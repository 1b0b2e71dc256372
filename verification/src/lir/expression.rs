use super::{BodyId, ConstantId, Id};
use vstd::prelude::*;

verus! {

/// An expression of the low-level intermediate representation.
#[derive(Clone, PartialEq, Eq)]
pub enum Expression {
    CreateTag { symbol: String, value: Id },
    CreateList(Vec<Id>),
    CreateStruct(Vec<(Id, Id)>),
    CreateFunction { captured: Vec<Id>, body_id: BodyId },
    Constant(ConstantId),
    Reference(Id),
    /// Increase the reference count of the given value.
    Dup { id: Id, amount: usize },
    /// Decrease the reference count of the given value.
    ///
    /// If the reference count reaches zero, the value is freed.
    Drop(Id),
    Call { function: Id, arguments: Vec<Id>, responsible: Id },
    Jump { target: Id },
    JumpConditionally { target: Id, condition: Id },
    Panic { reason: Id, responsible: Id },
    TraceCallStarts { hir_call: Id, function: Id, arguments: Vec<Id>, responsible: Id },
    TraceCallEnds { return_value: Option<Id> },
    TraceTailCall { hir_call: Id, function: Id, arguments: Vec<Id>, responsible: Id },
    TraceExpressionEvaluated { hir_expression: Id, value: Id },
    TraceFoundFuzzableFunction { hir_definition: Id, function: Id },
}

/// Whether the replacer may give `new` for `old`.
pub open spec fn replaced<F: Fn(Id) -> Id>(replacer: F, old: Id, new: Id) -> bool {
    call_ensures(replacer, (old,), new)
}

/// Whether `new` holds, one by one, what the replacer may give for the IDs
/// of `old`.
pub open spec fn all_replaced<F: Fn(Id) -> Id>(replacer: F, old: Seq<Id>, new: Seq<Id>) -> bool {
    &&& old.len() == new.len()
    &&& forall|i: int| #![trigger new[i]] 0 <= i < old.len() ==> replaced(replacer, old[i], new[i])
}

/// Whether `new` holds, pair by pair, what the replacer may give for the keys
/// and values of `old`.
pub open spec fn fields_replaced<F: Fn(Id) -> Id>(
    replacer: F,
    old: Seq<(Id, Id)>,
    new: Seq<(Id, Id)>,
) -> bool {
    &&& old.len() == new.len()
    &&& forall|i: int|
        #![trigger new[i]]
        0 <= i < old.len() ==> replaced(replacer, old[i].0, new[i].0) && replaced(
            replacer,
            old[i].1,
            new[i].1,
        )
}

/// Whether `new` is `old` with each ID in it replaced by what the replacer
/// may give for it, and nothing else changed.
pub open spec fn ids_replaced<F: Fn(Id) -> Id>(replacer: F, old: Expression, new: Expression) -> bool {
    match (old, new) {
        (
            Expression::CreateTag { symbol: old_symbol, value: old_value },
            Expression::CreateTag { symbol: new_symbol, value: new_value },
        ) => old_symbol@ == new_symbol@ && replaced(replacer, old_value, new_value),
        (Expression::CreateList(old_items), Expression::CreateList(new_items)) => all_replaced(
            replacer,
            old_items@,
            new_items@,
        ),
        (Expression::CreateStruct(old_fields), Expression::CreateStruct(new_fields)) =>
            fields_replaced(replacer, old_fields@, new_fields@),
        (
            Expression::CreateFunction { captured: old_captured, body_id: old_body },
            Expression::CreateFunction { captured: new_captured, body_id: new_body },
        ) => all_replaced(replacer, old_captured@, new_captured@) && old_body == new_body,
        (Expression::Constant(old_id), Expression::Constant(new_id)) => old_id == new_id,
        (Expression::Reference(old_id), Expression::Reference(new_id)) => replaced(
            replacer,
            old_id,
            new_id,
        ),
        (
            Expression::Dup { id: old_id, amount: old_amount },
            Expression::Dup { id: new_id, amount: new_amount },
        ) => replaced(replacer, old_id, new_id) && old_amount == new_amount,
        (Expression::Drop(old_id), Expression::Drop(new_id)) => replaced(replacer, old_id, new_id),
        (
            Expression::Call {
                function: old_function,
                arguments: old_arguments,
                responsible: old_responsible,
            },
            Expression::Call {
                function: new_function,
                arguments: new_arguments,
                responsible: new_responsible,
            },
        ) => {
            &&& replaced(replacer, old_function, new_function)
            &&& all_replaced(replacer, old_arguments@, new_arguments@)
            &&& replaced(replacer, old_responsible, new_responsible)
        },
        (Expression::Jump { target: old_target }, Expression::Jump { target: new_target }) =>
            replaced(replacer, old_target, new_target),
        (
            Expression::JumpConditionally { target: old_target, condition: old_condition },
            Expression::JumpConditionally { target: new_target, condition: new_condition },
        ) => replaced(replacer, old_target, new_target) && replaced(
            replacer,
            old_condition,
            new_condition,
        ),
        (
            Expression::Panic { reason: old_reason, responsible: old_responsible },
            Expression::Panic { reason: new_reason, responsible: new_responsible },
        ) => replaced(replacer, old_reason, new_reason) && replaced(
            replacer,
            old_responsible,
            new_responsible,
        ),
        (
            Expression::TraceCallStarts {
                hir_call: old_hir_call,
                function: old_function,
                arguments: old_arguments,
                responsible: old_responsible,
            },
            Expression::TraceCallStarts {
                hir_call: new_hir_call,
                function: new_function,
                arguments: new_arguments,
                responsible: new_responsible,
            },
        ) => {
            &&& replaced(replacer, old_hir_call, new_hir_call)
            &&& replaced(replacer, old_function, new_function)
            &&& all_replaced(replacer, old_arguments@, new_arguments@)
            &&& replaced(replacer, old_responsible, new_responsible)
        },
        (
            Expression::TraceCallEnds { return_value: old_value },
            Expression::TraceCallEnds { return_value: new_value },
        ) => match (old_value, new_value) {
            (Some(old_id), Some(new_id)) => replaced(replacer, old_id, new_id),
            (None, None) => true,
            _ => false,
        },
        (
            Expression::TraceTailCall {
                hir_call: old_hir_call,
                function: old_function,
                arguments: old_arguments,
                responsible: old_responsible,
            },
            Expression::TraceTailCall {
                hir_call: new_hir_call,
                function: new_function,
                arguments: new_arguments,
                responsible: new_responsible,
            },
        ) => {
            &&& replaced(replacer, old_hir_call, new_hir_call)
            &&& replaced(replacer, old_function, new_function)
            &&& all_replaced(replacer, old_arguments@, new_arguments@)
            &&& replaced(replacer, old_responsible, new_responsible)
        },
        (
            Expression::TraceExpressionEvaluated { hir_expression: old_hir, value: old_value },
            Expression::TraceExpressionEvaluated { hir_expression: new_hir, value: new_value },
        ) => replaced(replacer, old_hir, new_hir) && replaced(replacer, old_value, new_value),
        (
            Expression::TraceFoundFuzzableFunction {
                hir_definition: old_definition,
                function: old_function,
            },
            Expression::TraceFoundFuzzableFunction {
                hir_definition: new_definition,
                function: new_function,
            },
        ) => replaced(replacer, old_definition, new_definition) && replaced(
            replacer,
            old_function,
            new_function,
        ),
        _ => false,
    }
}

/// What the replacer gives for an ID.
fn replace_one<F: Fn(Id) -> Id>(replacer: &F, id: Id) -> (result: Id)
    requires
        forall|any: Id| call_requires(*replacer, (any,)),
    ensures
        replaced(*replacer, id, result),
{
    replacer(id)
}

/// What the replacer gives for each of some IDs, in order.
fn replace_all<F: Fn(Id) -> Id>(replacer: &F, ids: &Vec<Id>) -> (result: Vec<Id>)
    requires
        forall|any: Id| call_requires(*replacer, (any,)),
    ensures
        all_replaced(*replacer, ids@, result@),
{
    let mut result: Vec<Id> = Vec::new();
    let mut i: usize = 0;
    while i < ids.len()
        invariant
            i <= ids.len(),
            forall|any: Id| call_requires(*replacer, (any,)),
            result.len() == i,
            forall|j: int| #![trigger result@[j]] 0 <= j < i ==> replaced(*replacer, ids@[j], result@[j]),
        decreases ids.len() - i,
    {
        let new_id = replace_one(replacer, ids[i]);
        let ghost before = result@;
        result.push(new_id);
        proof {
            assert forall|j: int| #![trigger result@[j]] 0 <= j < i + 1 implies replaced(
                *replacer,
                ids@[j],
                result@[j],
            ) by {
                if j < i {
                    assert(result@[j] == before[j]);
                }
            }
        }
        i = i + 1;
    }
    result
}

/// What the replacer gives for the keys and values of fields, pair by pair.
fn replace_fields<F: Fn(Id) -> Id>(replacer: &F, fields: &Vec<(Id, Id)>) -> (result: Vec<(Id, Id)>)
    requires
        forall|any: Id| call_requires(*replacer, (any,)),
    ensures
        fields_replaced(*replacer, fields@, result@),
{
    let mut result: Vec<(Id, Id)> = Vec::new();
    let mut i: usize = 0;
    while i < fields.len()
        invariant
            i <= fields.len(),
            forall|any: Id| call_requires(*replacer, (any,)),
            result.len() == i,
            forall|j: int|
                #![trigger result@[j]]
                0 <= j < i ==> replaced(*replacer, fields@[j].0, result@[j].0) && replaced(
                    *replacer,
                    fields@[j].1,
                    result@[j].1,
                ),
        decreases fields.len() - i,
    {
        let (key, value) = fields[i];
        let new_key = replace_one(replacer, key);
        let new_value = replace_one(replacer, value);
        let ghost before = result@;
        result.push((new_key, new_value));
        proof {
            assert forall|j: int| #![trigger result@[j]] 0 <= j < i + 1 implies replaced(
                *replacer,
                fields@[j].0,
                result@[j].0,
            ) && replaced(*replacer, fields@[j].1, result@[j].1) by {
                if j < i {
                    assert(result@[j] == before[j]);
                }
            }
        }
        i = i + 1;
    }
    result
}

impl Expression {
    /// Replaces each ID that the expression refers to by what the replacer
    /// gives for it; the rest stays as it is.
    pub fn replace_ids<F: Fn(Id) -> Id>(&mut self, replacer: F)
        requires
            forall|any: Id| call_requires(replacer, (any,)),
        ensures
            ids_replaced(replacer, *old(self), *final(self)),
    {
        let replaced_expression = self.with_replaced_ids(&replacer);
        *self = replaced_expression;
    }

    /// The expression with each ID that it refers to replaced by what the
    /// replacer gives for it.
    fn with_replaced_ids<F: Fn(Id) -> Id>(&self, replacer: &F) -> (result: Expression)
        requires
            forall|any: Id| call_requires(*replacer, (any,)),
        ensures
            ids_replaced(*replacer, *self, result),
    {
        match self {
            Expression::CreateTag { symbol, value } => Expression::CreateTag {
                symbol: symbol.clone(),
                value: replace_one(replacer, *value),
            },
            Expression::CreateList(items) => Expression::CreateList(replace_all(replacer, items)),
            Expression::CreateStruct(fields) => Expression::CreateStruct(
                replace_fields(replacer, fields),
            ),
            Expression::CreateFunction { captured, body_id } => Expression::CreateFunction {
                captured: replace_all(replacer, captured),
                body_id: *body_id,
            },
            Expression::Constant(id) => Expression::Constant(*id),
            Expression::Reference(id) => Expression::Reference(replace_one(replacer, *id)),
            Expression::Dup { id, amount } => Expression::Dup {
                id: replace_one(replacer, *id),
                amount: *amount,
            },
            Expression::Drop(id) => Expression::Drop(replace_one(replacer, *id)),
            Expression::Call { function, arguments, responsible } => {
                let function = replace_one(replacer, *function);
                let arguments = replace_all(replacer, arguments);
                let responsible = replace_one(replacer, *responsible);
                Expression::Call { function, arguments, responsible }
            },
            Expression::Jump { target } => Expression::Jump {
                target: replace_one(replacer, *target),
            },
            Expression::JumpConditionally { target, condition } => {
                let target = replace_one(replacer, *target);
                let condition = replace_one(replacer, *condition);
                Expression::JumpConditionally { target, condition }
            },
            Expression::Panic { reason, responsible } => {
                let reason = replace_one(replacer, *reason);
                let responsible = replace_one(replacer, *responsible);
                Expression::Panic { reason, responsible }
            },
            Expression::TraceCallStarts { hir_call, function, arguments, responsible } => {
                let hir_call = replace_one(replacer, *hir_call);
                let function = replace_one(replacer, *function);
                let arguments = replace_all(replacer, arguments);
                let responsible = replace_one(replacer, *responsible);
                Expression::TraceCallStarts { hir_call, function, arguments, responsible }
            },
            Expression::TraceCallEnds { return_value } => Expression::TraceCallEnds {
                return_value: match return_value {
                    Some(id) => Some(replace_one(replacer, *id)),
                    None => None,
                },
            },
            Expression::TraceTailCall { hir_call, function, arguments, responsible } => {
                let hir_call = replace_one(replacer, *hir_call);
                let function = replace_one(replacer, *function);
                let arguments = replace_all(replacer, arguments);
                let responsible = replace_one(replacer, *responsible);
                Expression::TraceTailCall { hir_call, function, arguments, responsible }
            },
            Expression::TraceExpressionEvaluated { hir_expression, value } => {
                let hir_expression = replace_one(replacer, *hir_expression);
                let value = replace_one(replacer, *value);
                Expression::TraceExpressionEvaluated { hir_expression, value }
            },
            Expression::TraceFoundFuzzableFunction { hir_definition, function } => {
                let hir_definition = replace_one(replacer, *hir_definition);
                let function = replace_one(replacer, *function);
                Expression::TraceFoundFuzzableFunction { hir_definition, function }
            },
        }
    }
}

} // verus!
