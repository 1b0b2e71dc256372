use super::Id;
use crate::bigint::Integer;
use crate::builtin_functions::BuiltinFunction;
use crate::hir;
use crate::module::Module;
use vstd::prelude::*;

verus! {

/// An expression of the mid-level intermediate representation.
pub enum Expression {
    Int(Integer),
    Text(String),
    Tag { symbol: String, value: Option<Id> },
    Builtin(BuiltinFunction),
    List(Vec<Id>),
    Struct(Vec<(Id, Id)>),
    Reference(Id),
    /// A HIR ID that can be used to refer to code in the HIR.
    HirId(hir::Id),
    /// A function. Its last parameter is the responsible one, which says who
    /// is at fault where a `needs` is not fulfilled.
    Function {
        original_hirs: Vec<hir::Id>,
        parameters: Vec<Id>,
        responsible_parameter: Id,
        body: Body,
    },
    /// Stands for a parameter where expressions are looked up by ID.
    Parameter,
    Call { function: Id, arguments: Vec<Id>, responsible: Id },
    UseModule { current_module: Module, relative_path: Id, responsible: Id },
    /// The code panics here.
    Panic { reason: Id, responsible: Id },
    /// Several expressions in place of one.
    Multiple(Body),
    TraceCallStarts { hir_call: Id, function: Id, arguments: Vec<Id>, responsible: Id },
    TraceCallEnds { return_value: Id },
    TraceExpressionEvaluated { hir_expression: Id, value: Id },
    TraceFoundFuzzableFunction { hir_definition: Id, function: Id },
}

/// A body of expressions, each with its ID, in order.
pub struct Body {
    pub expressions: Vec<(Id, Expression)>,
}

/// The expression that was last given an ID among entries, if any was.
pub open spec fn lookup(entries: Seq<(Id, Expression)>, id: Id) -> Option<Expression>
    decreases entries.len(),
{
    if entries.len() == 0 {
        None
    } else if entries.last().0 == id {
        Some(entries.last().1)
    } else {
        lookup(entries.drop_last(), id)
    }
}

/// The expressions that are visible at a point of a body, by their IDs.
pub struct VisibleExpressions {
    entries: Vec<(Id, Expression)>,
}

impl VisibleExpressions {
    /// The expression visible under an ID, if there is one.
    pub closed spec fn spec_get(&self, id: Id) -> Option<Expression> {
        lookup(self.entries@, id)
    }

    /// No expressions.
    pub fn none_visible() -> (result: Self)
        ensures
            forall|id: Id| #[trigger] result.spec_get(id) is None,
    {
        VisibleExpressions { entries: Vec::new() }
    }

    /// Makes an expression visible under an ID, in place of what was
    /// visible under it before.
    pub fn insert(&mut self, id: Id, expression: Expression)
        ensures
            final(self).spec_get(id) == Some(expression),
            forall|other: Id| other != id ==> #[trigger] final(self).spec_get(other) == old(
                self,
            ).spec_get(other),
    {
        let ghost before = self.entries@;
        self.entries.push((id, expression));
        assert(self.entries@.drop_last() == before);
    }

    /// Whether an expression is visible under an ID.
    pub fn contains(&self, id: Id) -> (result: bool)
        ensures
            result == self.spec_get(id) is Some,
    {
        self.find(id).is_some()
    }

    /// The expression visible under an ID.
    pub fn get(&self, id: Id) -> (result: &Expression)
        requires
            self.spec_get(id) is Some,
        ensures
            self.spec_get(id) == Some(*result),
    {
        match self.find(id) {
            Some(index) => &self.entries[index].1,
            None => {
                proof {
                    assert(false);
                }
                &self.entries[0].1
            },
        }
    }

    /// Where the expression visible under an ID stands.
    fn find(&self, id: Id) -> (result: Option<usize>)
        ensures
            match result {
                Some(index) => index < self.entries.len() && self.spec_get(id) == Some(
                    self.entries@[index as int].1,
                ),
                None => self.spec_get(id) is None,
            },
    {
        let mut count = self.entries.len();
        assert(self.entries@.take(count as int) =~= self.entries@);
        while count > 0
            invariant
                count <= self.entries.len(),
                lookup(self.entries@, id) == lookup(self.entries@.take(count as int), id),
            decreases count,
        {
            let ghost prefix = self.entries@.take(count as int);
            assert(prefix.drop_last() =~= self.entries@.take(count - 1));
            if self.entries[count - 1].0 == id {
                return Some(count - 1);
            }
            count = count - 1;
        }
        None
    }
}

} // verus!
