use super::expression::{Body, Expression};
use super::pure::PurenessInsights;
use super::tree_shaking::{forgotten, indices};
use crate::id::CountableId;
use super::Id;
use vstd::prelude::*;

verus! {

/// Whether the entry at an index is the first one of a sequence whose
/// expression is a panic.
pub open spec fn is_first_panic(entries: Seq<(Id, Expression)>, index: int) -> bool {
    &&& 0 <= index < entries.len()
    &&& entries[index].1 is Panic
    &&& forall|k: int| 0 <= k < index ==> !((#[trigger] entries[k]).1 is Panic)
}

/// Removes the expressions after the first panic of a body, since they can
/// never run, and forgets what was known of the IDs they define.
pub fn remove_expressions_after_panic(body: &mut Body, pureness: &mut PurenessInsights)
    ensures
        (forall|k: int| 0 <= k < old(body).expressions@.len() ==> !((#[trigger] old(
            body,
        ).expressions@[k]).1 is Panic)) ==> final(body).expressions@ == old(body).expressions@
            && *final(pureness) == *old(pureness),
        forall|index: int| #[trigger]
            is_first_panic(old(body).expressions@, index) ==> {
                let removed = old(body).expressions@.skip(index + 1);
                let gone = forgotten(removed, Set::full());
                &&& final(body).expressions@ == old(body).expressions@.take(index + 1)
                &&& final(pureness).spec_deterministic_definitions() == old(
                    pureness,
                ).spec_deterministic_definitions().difference(gone)
                &&& final(pureness).spec_deterministic_functions() == old(
                    pureness,
                ).spec_deterministic_functions().difference(gone)
                &&& final(pureness).spec_pure_definitions() == old(
                    pureness,
                ).spec_pure_definitions().difference(gone)
                &&& final(pureness).spec_pure_functions() == old(
                    pureness,
                ).spec_pure_functions().difference(gone)
                &&& final(pureness).spec_const_definitions() == old(
                    pureness,
                ).spec_const_definitions().difference(gone)
            },
{
    let ghost all = body.expressions@;
    let mut index: usize = 0;
    while index < body.expressions.len() && !is_panic(&body.expressions[index].1)
        invariant
            index <= body.expressions.len(),
            body.expressions@ == all,
            forall|k: int| 0 <= k < index ==> !((#[trigger] all[k]).1 is Panic),
        decreases body.expressions.len() - index,
    {
        index = index + 1;
    }
    if index == body.expressions.len() {
        return;
    }
    assert(is_first_panic(all, index as int));
    assert forall|other: int| #[trigger] is_first_panic(all, other) implies other == index by {
        if other < index {
            assert(!(all[other].1 is Panic));
        }
        if other > index {
            assert(!(all[index as int].1 is Panic));
        }
    }
    let ghost start = *pureness;
    let mut rest = body.expressions.split_off(index + 1);
    let ghost removed = rest@;
    assert(removed == all.skip(index + 1));
    let total = rest.len();
    let mut done: usize = 0;
    assert(removed.take(0) == Seq::<(Id, Expression)>::empty());
    while rest.len() > 0
        invariant
            done + rest.len() == total,
            total == removed.len(),
            rest@ == removed.skip(done as int),
            pureness.spec_deterministic_definitions() == start.spec_deterministic_definitions().difference(
                forgotten(removed.take(done as int), Set::full()),
            ),
            pureness.spec_deterministic_functions() == start.spec_deterministic_functions().difference(
                forgotten(removed.take(done as int), Set::full()),
            ),
            pureness.spec_pure_definitions() == start.spec_pure_definitions().difference(
                forgotten(removed.take(done as int), Set::full()),
            ),
            pureness.spec_pure_functions() == start.spec_pure_functions().difference(
                forgotten(removed.take(done as int), Set::full()),
            ),
            pureness.spec_const_definitions() == start.spec_const_definitions().difference(
                forgotten(removed.take(done as int), Set::full()),
            ),
        decreases rest.len(),
    {
        let entry = rest.remove(0);
        let ghost gone = forgotten(removed.take(done as int), Set::full());
        let ghost prefix = removed.take(done + 1);
        assert(entry == removed[done as int]);
        assert(prefix.drop_last() == removed.take(done as int));
        assert(prefix.last() == entry);
        let defined = entry.1.defined_ids();
        pureness.on_remove(entry.0);
        pureness.forget_all(&defined);
        done = done + 1;
        assert(rest@ =~= removed.skip(done as int));
        proof {
            let step = set![entry.0.spec_index()].union(indices(defined@));
            assert(forgotten(prefix, Set::full()) =~= gone.union(step));
            assert(start.spec_deterministic_definitions().difference(gone).remove(
                entry.0.spec_index(),
            ).difference(indices(defined@))
                =~= start.spec_deterministic_definitions().difference(gone.union(step)));
            assert(start.spec_deterministic_functions().difference(gone).remove(
                entry.0.spec_index(),
            ).difference(indices(defined@))
                =~= start.spec_deterministic_functions().difference(gone.union(step)));
            assert(start.spec_pure_definitions().difference(gone).remove(
                entry.0.spec_index(),
            ).difference(indices(defined@))
                =~= start.spec_pure_definitions().difference(gone.union(step)));
            assert(start.spec_pure_functions().difference(gone).remove(
                entry.0.spec_index(),
            ).difference(indices(defined@))
                =~= start.spec_pure_functions().difference(gone.union(step)));
            assert(start.spec_const_definitions().difference(gone).remove(
                entry.0.spec_index(),
            ).difference(indices(defined@))
                =~= start.spec_const_definitions().difference(gone.union(step)));
        }
    }
    assert(removed.take(done as int) == removed);
}

/// Whether an expression is a panic.
fn is_panic(expression: &Expression) -> (result: bool)
    ensures
        result == expression is Panic,
{
    match expression {
        Expression::Panic { .. } => true,
        _ => false,
    }
}

/// A body without the references at its end that only give back the
/// expression just before them.
pub open spec fn without_return_references(entries: Seq<(Id, Expression)>) -> Seq<
    (Id, Expression),
>
    decreases entries.len(),
{
    if entries.len() >= 2 && (entries.last().1 matches Expression::Reference(referenced)
        && referenced == entries[entries.len() - 2].0) {
        without_return_references(entries.drop_last())
    } else {
        entries
    }
}

/// Removes the references at the end of a body that only give back the
/// expression just before them.
pub fn remove_redundant_return_references(body: &mut Body)
    ensures
        final(body).expressions@ == without_return_references(old(body).expressions@),
{
    loop
        invariant
            without_return_references(body.expressions@) == without_return_references(
                old(body).expressions@,
            ),
        decreases body.expressions.len(),
    {
        let count = body.expressions.len();
        if count < 2 {
            return;
        }
        let second_last = body.expressions[count - 2].0;
        let redundant = match &body.expressions[count - 1].1 {
            Expression::Reference(referenced) => *referenced == second_last,
            _ => false,
        };
        if !redundant {
            return;
        }
        let ghost before = body.expressions@;
        body.expressions.pop();
        assert(body.expressions@ == before.drop_last());
    }
}

} // verus!
