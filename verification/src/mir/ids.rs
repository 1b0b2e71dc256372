use super::expression::{Body, Expression};
use super::Id;
use vstd::prelude::*;

verus! {

/// The IDs that an expression defines, in the order in which they are
/// defined: for a function its parameters, its responsible parameter and what
/// its body defines; for several expressions in one what they define; for
/// any other expression none.
pub open spec fn defined_in(expression: Expression) -> Seq<Id>
    decreases expression,
{
    match expression {
        Expression::Function { parameters, responsible_parameter, body, .. } => {
            parameters@ + seq![responsible_parameter] + defined_in_entries(body.expressions@)
        },
        Expression::Multiple(body) => defined_in_entries(body.expressions@),
        _ => Seq::empty(),
    }
}

/// The IDs that a sequence of entries defines: each entry's own ID, followed
/// by what its expression defines.
pub open spec fn defined_in_entries(entries: Seq<(Id, Expression)>) -> Seq<Id>
    decreases entries,
{
    if entries.len() == 0 {
        Seq::empty()
    } else {
        defined_in_entries(entries.drop_last()) + seq![entries.last().0] + defined_in(
            entries.last().1,
        )
    }
}

/// The IDs that an expression refers to, in the order in which they are
/// referenced, with repetitions. A function refers to what its body refers
/// to, its own IDs among them.
pub open spec fn referenced_in(expression: Expression) -> Seq<Id>
    decreases expression,
{
    match expression {
        Expression::Int(_) | Expression::Text(_) | Expression::Builtin(_) | Expression::HirId(
            _,
        ) | Expression::Parameter => Seq::empty(),
        Expression::Tag { value, .. } => match value {
            Some(value) => seq![value],
            None => Seq::empty(),
        },
        Expression::List(items) => items@,
        Expression::Struct(fields) => fields_referenced(fields@),
        Expression::Reference(reference) => seq![reference],
        Expression::Function { body, .. } => referenced_in_entries(body.expressions@),
        Expression::Call { function, arguments, responsible } => seq![function] + arguments@
            + seq![responsible],
        Expression::UseModule { relative_path, responsible, .. } => seq![
            relative_path,
            responsible,
        ],
        Expression::Panic { reason, responsible } => seq![reason, responsible],
        Expression::Multiple(body) => referenced_in_entries(body.expressions@),
        Expression::TraceCallStarts { hir_call, function, arguments, responsible } => seq![
            hir_call,
            function,
        ] + arguments@ + seq![responsible],
        Expression::TraceCallEnds { return_value } => seq![return_value],
        Expression::TraceExpressionEvaluated { hir_expression, value } => seq![
            hir_expression,
            value,
        ],
        Expression::TraceFoundFuzzableFunction { hir_definition, function } => seq![
            hir_definition,
            function,
        ],
    }
}

/// The keys and values of a struct's fields, each key before its value.
pub open spec fn fields_referenced(fields: Seq<(Id, Id)>) -> Seq<Id>
    decreases fields.len(),
{
    if fields.len() == 0 {
        Seq::empty()
    } else {
        fields_referenced(fields.drop_last()) + seq![fields.last().0, fields.last().1]
    }
}

/// The IDs that the expressions of a sequence of entries refer to, in order.
pub open spec fn referenced_in_entries(entries: Seq<(Id, Expression)>) -> Seq<Id>
    decreases entries,
{
    if entries.len() == 0 {
        Seq::empty()
    } else {
        referenced_in_entries(entries.drop_last()) + referenced_in(entries.last().1)
    }
}

/// The IDs that an expression takes from around it: those it refers to and
/// does not define itself.
pub open spec fn is_captured(expression: Expression, id: Id) -> bool {
    referenced_in(expression).contains(id) && !defined_in(expression).contains(id)
}

impl Expression {
    /// All IDs defined inside this expression, in the order in which they
    /// are defined.
    pub fn defined_ids(&self) -> (result: Vec<Id>)
        ensures
            result@ == defined_in(*self),
    {
        let mut defined: Vec<Id> = Vec::new();
        self.collect_defined_ids(&mut defined);
        defined
    }

    fn collect_defined_ids(&self, defined: &mut Vec<Id>)
        ensures
            final(defined)@ == old(defined)@ + defined_in(*self),
        decreases *self, 0nat,
    {
        match self {
            Expression::Function { parameters, responsible_parameter, body, .. } => {
                let mut index: usize = 0;
                while index < parameters.len()
                    invariant
                        index <= parameters.len(),
                        defined@ == old(defined)@ + parameters@.take(index as int),
                    decreases parameters.len() - index,
                {
                    defined.push(parameters[index]);
                    index = index + 1;
                    assert(parameters@.take(index as int) == parameters@.take(index - 1).push(
                        parameters@[index - 1],
                    ));
                }
                assert(parameters@.take(index as int) == parameters@);
                defined.push(*responsible_parameter);
                body.collect_defined_ids(defined);
            },
            Expression::Multiple(body) => {
                assert(old(defined)@ + Seq::<Id>::empty() == old(defined)@);
                body.collect_defined_ids(defined);
            },
            _ => {
                assert(old(defined)@ + Seq::<Id>::empty() == old(defined)@);
            },
        }
    }

    /// All IDs referenced inside this expression, in the order in which they
    /// are referenced. A function also refers to its own IDs, and an ID may
    /// occur more than once.
    pub fn referenced_ids(&self) -> (result: Vec<Id>)
        ensures
            result@ == referenced_in(*self),
    {
        let mut referenced: Vec<Id> = Vec::new();
        self.collect_referenced_ids(&mut referenced);
        referenced
    }

    fn collect_referenced_ids(&self, referenced: &mut Vec<Id>)
        ensures
            final(referenced)@ == old(referenced)@ + referenced_in(*self),
        decreases *self, 0nat,
    {
        match self {
            Expression::Int(_) | Expression::Text(_) | Expression::Builtin(_) | Expression::HirId(
                _,
            ) | Expression::Parameter => {
                assert(old(referenced)@ + Seq::<Id>::empty() == old(referenced)@);
            },
            Expression::Tag { value, .. } => {
                match value {
                    Some(value) => referenced.push(*value),
                    None => {
                        assert(old(referenced)@ + Seq::<Id>::empty() == old(referenced)@);
                    },
                }
            },
            Expression::List(items) => push_all(referenced, items),
            Expression::Struct(fields) => {
                let mut index: usize = 0;
                assert(fields@.take(0) == Seq::<(Id, Id)>::empty());
                while index < fields.len()
                    invariant
                        index <= fields.len(),
                        referenced@ == old(referenced)@ + fields_referenced(
                            fields@.take(index as int),
                        ),
                    decreases fields.len() - index,
                {
                    referenced.push(fields[index].0);
                    referenced.push(fields[index].1);
                    index = index + 1;
                    assert(fields@.take(index as int).drop_last() == fields@.take(index - 1));
                }
                assert(fields@.take(index as int) == fields@);
            },
            Expression::Reference(reference) => referenced.push(*reference),
            Expression::Function { body, .. } => body.collect_referenced_ids(referenced),
            Expression::Call { function, arguments, responsible } => {
                referenced.push(*function);
                push_all(referenced, arguments);
                referenced.push(*responsible);
            },
            Expression::UseModule { relative_path, responsible, .. } => {
                referenced.push(*relative_path);
                referenced.push(*responsible);
            },
            Expression::Panic { reason, responsible } => {
                referenced.push(*reason);
                referenced.push(*responsible);
            },
            Expression::Multiple(body) => body.collect_referenced_ids(referenced),
            Expression::TraceCallStarts { hir_call, function, arguments, responsible } => {
                referenced.push(*hir_call);
                referenced.push(*function);
                push_all(referenced, arguments);
                referenced.push(*responsible);
            },
            Expression::TraceCallEnds { return_value } => referenced.push(*return_value),
            Expression::TraceExpressionEvaluated { hir_expression, value } => {
                referenced.push(*hir_expression);
                referenced.push(*value);
            },
            Expression::TraceFoundFuzzableFunction { hir_definition, function } => {
                referenced.push(*hir_definition);
                referenced.push(*function);
            },
        }
    }

    /// The IDs that this expression refers to but does not define, each
    /// once.
    pub fn captured_ids(&self) -> (result: Vec<Id>)
        ensures
            result@.no_duplicates(),
            forall|id: Id| result@.contains(id) <==> is_captured(*self, id),
    {
        let referenced = self.referenced_ids();
        let defined = self.defined_ids();
        let mut captured: Vec<Id> = Vec::new();
        let mut index: usize = 0;
        while index < referenced.len()
            invariant
                index <= referenced.len(),
                referenced@ == referenced_in(*self),
                defined@ == defined_in(*self),
                captured@.no_duplicates(),
                forall|id: Id|
                    captured@.contains(id) <==> (referenced@.take(index as int).contains(id)
                        && !defined@.contains(id)),
            decreases referenced.len() - index,
        {
            let id = referenced[index];
            let ghost before = captured@;
            if !contains_id(&defined, id) && !contains_id(&captured, id) {
                captured.push(id);
                assert forall|other: Id| captured@.contains(other) implies before.contains(other)
                    || other == id by {
                    if captured@.contains(other) {
                        let k = choose|k: int| 0 <= k < captured@.len() && captured@[k] == other;
                        if k < before.len() {
                            assert(before[k] == other);
                        }
                    }
                }
                assert(captured@[before.len() as int] == id);
            }
            index = index + 1;
            let ghost cur = referenced@.take(index as int);
            let ghost prev = referenced@.take(index - 1);
            assert(cur == prev.push(id));
            assert forall|other: Id|
                captured@.contains(other) <==> (cur.contains(other) && !defined@.contains(other)) by {
                if cur.contains(other) && other != id {
                    let k = choose|k: int| 0 <= k < cur.len() && cur[k] == other;
                    assert(prev[k] == other);
                }
                if prev.contains(other) {
                    let k = choose|k: int| 0 <= k < prev.len() && prev[k] == other;
                    assert(cur[k] == other);
                }
                if other == id {
                    assert(cur[index - 1] == id);
                }
                if before.contains(other) {
                    let k = choose|k: int| 0 <= k < before.len() && before[k] == other;
                    assert(captured@[k] == other);
                }
            }
        }
        assert(referenced@.take(index as int) == referenced@);
        captured
    }
}

impl Body {
    fn collect_defined_ids(&self, defined: &mut Vec<Id>)
        ensures
            final(defined)@ == old(defined)@ + defined_in_entries(self.expressions@),
        decreases *self, 1nat,
    {
        let mut index: usize = 0;
        assert(self.expressions@.take(0) == Seq::<(Id, Expression)>::empty());
        while index < self.expressions.len()
            invariant
                index <= self.expressions.len(),
                defined@ == old(defined)@ + defined_in_entries(self.expressions@.take(index as int)),
            decreases self.expressions.len() - index,
        {
            let ghost prefix = self.expressions@.take(index + 1);
            defined.push(self.expressions[index].0);
            proof {
                assert(decreases_to!(*self => self.expressions));
                assert(decreases_to!(self.expressions => self.expressions@));
                assert(decreases_to!(self.expressions@ => self.expressions@[index as int]));
                assert(decreases_to!(self.expressions@[index as int] => self.expressions@[index as int].1));
            }
            self.expressions[index].1.collect_defined_ids(defined);
            index = index + 1;
            assert(prefix.drop_last() == self.expressions@.take(index - 1));
        }
        assert(self.expressions@.take(index as int) == self.expressions@);
    }

    fn collect_referenced_ids(&self, referenced: &mut Vec<Id>)
        ensures
            final(referenced)@ == old(referenced)@ + referenced_in_entries(self.expressions@),
        decreases *self, 1nat,
    {
        let mut index: usize = 0;
        assert(self.expressions@.take(0) == Seq::<(Id, Expression)>::empty());
        while index < self.expressions.len()
            invariant
                index <= self.expressions.len(),
                referenced@ == old(referenced)@ + referenced_in_entries(
                    self.expressions@.take(index as int),
                ),
            decreases self.expressions.len() - index,
        {
            let ghost prefix = self.expressions@.take(index + 1);
            proof {
                assert(decreases_to!(*self => self.expressions));
                assert(decreases_to!(self.expressions => self.expressions@));
                assert(decreases_to!(self.expressions@ => self.expressions@[index as int]));
                assert(decreases_to!(self.expressions@[index as int] => self.expressions@[index as int].1));
            }
            self.expressions[index].1.collect_referenced_ids(referenced);
            index = index + 1;
            assert(prefix.drop_last() == self.expressions@.take(index - 1));
        }
        assert(self.expressions@.take(index as int) == self.expressions@);
    }
}

/// Appends every ID of a list.
fn push_all(target: &mut Vec<Id>, ids: &Vec<Id>)
    ensures
        final(target)@ == old(target)@ + ids@,
{
    let mut index: usize = 0;
    while index < ids.len()
        invariant
            index <= ids.len(),
            target@ == old(target)@ + ids@.take(index as int),
        decreases ids.len() - index,
    {
        target.push(ids[index]);
        index = index + 1;
        assert(ids@.take(index as int) == ids@.take(index - 1).push(ids@[index - 1]));
    }
    assert(ids@.take(index as int) == ids@);
}

/// Whether a list holds an ID.
fn contains_id(ids: &Vec<Id>, id: Id) -> (result: bool)
    ensures
        result == ids@.contains(id),
{
    let mut index: usize = 0;
    while index < ids.len()
        invariant
            index <= ids.len(),
            forall|k: int| 0 <= k < index ==> ids@[k] != id,
        decreases ids.len() - index,
    {
        if ids[index] == id {
            assert(ids@[index as int] == id);
            return true;
        }
        index = index + 1;
    }
    false
}

} // verus!
