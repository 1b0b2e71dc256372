use super::expression::{Body, Expression};
use super::ids::{defined_in, referenced_in};
use super::pure::{definition_pure, PurenessInsights};
use super::Id;
use crate::id::CountableId;
use vstd::prelude::*;

verus! {

/// The IDs that tree shaking removes from a sequence of entries, going from
/// the last entry to the first while `keep` holds the IDs that are still
/// needed: an entry stays where it is needed or is not pure, and then what
/// it refers to is needed; any other entry goes.
pub open spec fn shaken_ids(
    entries: Seq<(Id, Expression)>,
    keep: Set<Id>,
    pure_functions: Set<nat>,
) -> Set<Id>
    decreases entries.len(),
{
    if entries.len() == 0 {
        Set::empty()
    } else {
        let id = entries.last().0;
        let expression = entries.last().1;
        if keep.contains(id) || !definition_pure(expression, pure_functions) {
            shaken_ids(
                entries.drop_last(),
                keep.remove(id).union(referenced_in(expression).to_set()),
                pure_functions,
            )
        } else {
            shaken_ids(entries.drop_last(), keep, pure_functions).insert(id)
        }
    }
}

/// The entries whose IDs are not among the removed ones, in order.
pub open spec fn without_ids(entries: Seq<(Id, Expression)>, removed: Set<Id>) -> Seq<
    (Id, Expression),
>
    decreases entries.len(),
{
    if entries.len() == 0 {
        Seq::empty()
    } else if removed.contains(entries.last().0) {
        without_ids(entries.drop_last(), removed)
    } else {
        without_ids(entries.drop_last(), removed).push(entries.last())
    }
}

/// The numbers of some IDs.
pub open spec fn indices(ids: Seq<Id>) -> Set<nat> {
    Set::new(|index: nat| exists|k: int| 0 <= k < ids.len() && (#[trigger] ids[k]).spec_index() == index)
}

/// The numbers of the IDs that removing entries makes unknown: the ID of
/// each removed entry and the IDs that its expression defines.
pub open spec fn forgotten(entries: Seq<(Id, Expression)>, removed: Set<Id>) -> Set<nat>
    decreases entries.len(),
{
    if entries.len() == 0 {
        Set::empty()
    } else if removed.contains(entries.last().0) {
        forgotten(entries.drop_last(), removed).insert(entries.last().0.spec_index()).union(
            indices(defined_in(entries.last().1)),
        )
    } else {
        forgotten(entries.drop_last(), removed)
    }
}

/// Removes the pure expressions that nothing needs: where the body's result
/// does not depend on them, directly or through other expressions, and
/// running them has no effect. What was known of the removed IDs is
/// forgotten.
pub fn tree_shake(body: &mut Body, pureness: &mut PurenessInsights)
    requires
        old(body).expressions.len() > 0,
    ensures
        ({
            let entries = old(body).expressions@;
            let removed = shaken_ids(
                entries,
                set![entries.last().0],
                old(pureness).spec_pure_functions(),
            );
            let gone = forgotten(entries, removed);
            &&& final(body).expressions@ == without_ids(entries, removed)
            &&& final(pureness).spec_deterministic_definitions() == old(
                pureness,
            ).spec_deterministic_definitions().difference(gone)
            &&& final(pureness).spec_deterministic_functions() == old(
                pureness,
            ).spec_deterministic_functions().difference(gone)
            &&& final(pureness).spec_pure_definitions() == old(pureness).spec_pure_definitions().difference(
                gone,
            )
            &&& final(pureness).spec_pure_functions() == old(pureness).spec_pure_functions().difference(
                gone,
            )
            &&& final(pureness).spec_const_definitions() == old(
                pureness,
            ).spec_const_definitions().difference(gone)
        }),
{
    let ghost all = body.expressions@;
    let ghost pure_functions = pureness.spec_pure_functions();
    let count = body.expressions.len();
    let mut keep: Vec<Id> = Vec::new();
    keep.push(body.expressions[count - 1].0);
    let ghost keep_set: Set<Id> = set![all.last().0];
    let mut removed: Vec<Id> = Vec::new();
    let mut index = count;
    assert(all.take(count as int) == all);
    assert(keep@[0] == all.last().0);
    assert(forall|id: Id| keep@.contains(id) <==> id == all.last().0);
    while index > 0
        invariant
            index <= count,
            count == all.len(),
            body.expressions@ == all,
            pureness.spec_pure_functions() == pure_functions,
            forall|id: Id| keep@.contains(id) <==> keep_set.contains(id),
            shaken_ids(all.take(index as int), keep_set, pure_functions) + removed@.to_set()
                == shaken_ids(all, set![all.last().0], pure_functions),
        decreases index,
    {
        let ghost prefix = all.take(index as int);
        assert(prefix.drop_last() == all.take(index - 1));
        assert(prefix.last() == all[index - 1]);
        let id = body.expressions[index - 1].0;
        let expression = &body.expressions[index - 1].1;
        if contains(&keep, id) || !pureness.is_definition_pure(expression) {
            let referenced = expression.referenced_ids();
            let mut rest: Vec<Id> = Vec::new();
            let mut k: usize = 0;
            while k < keep.len()
                invariant
                    k <= keep.len(),
                    forall|other: Id|
                        rest@.contains(other) <==> (keep@.take(k as int).contains(other) && other
                            != id),
                decreases keep.len() - k,
            {
                let ghost before = rest@;
                let ghost taken = keep@.take(k + 1);
                assert(taken == keep@.take(k as int).push(keep@[k as int]));
                if keep[k] != id {
                    rest.push(keep[k]);
                    assert forall|other: Id|
                        rest@.contains(other) <==> (taken.contains(other) && other != id) by {
                        if rest@.contains(other) && other != keep@[k as int] {
                            let j = choose|j: int| 0 <= j < rest@.len() && rest@[j] == other;
                            assert(before[j] == other);
                        }
                        if taken.contains(other) && other != keep@[k as int] {
                            let j = choose|j: int| 0 <= j < taken.len() && taken[j] == other;
                            assert(keep@.take(k as int)[j] == other);
                        }
                        if other == keep@[k as int] {
                            assert(rest@[rest@.len() - 1] == other);
                            assert(taken[k as int] == other);
                        }
                        if before.contains(other) {
                            let j = choose|j: int| 0 <= j < before.len() && before[j] == other;
                            assert(rest@[j] == other);
                        }
                    }
                } else {
                    assert forall|other: Id|
                        rest@.contains(other) <==> (taken.contains(other) && other != id) by {
                        if taken.contains(other) && other != id {
                            let j = choose|j: int| 0 <= j < taken.len() && taken[j] == other;
                            assert(keep@.take(k as int)[j] == other);
                        }
                        if keep@.take(k as int).contains(other) {
                            let j = choose|j: int| 0 <= j < k && keep@.take(k as int)[j] == other;
                            assert(taken[j] == other);
                        }
                    }
                }
                k = k + 1;
            }
            assert(keep@.take(k as int) == keep@);
            let ghost rest_before = rest@;
            let mut j: usize = 0;
            while j < referenced.len()
                invariant
                    j <= referenced.len(),
                    rest@ == rest_before + referenced@.take(j as int),
                decreases referenced.len() - j,
            {
                rest.push(referenced[j]);
                j = j + 1;
                assert(referenced@.take(j as int) == referenced@.take(j - 1).push(
                    referenced@[j - 1],
                ));
            }
            assert(referenced@.take(j as int) == referenced@);
            proof {
                let next = keep_set.remove(id).union(referenced_in(*expression).to_set());
                assert forall|other: Id| rest@.contains(other) <==> next.contains(other) by {
                    if rest@.contains(other) {
                        let m = choose|m: int| 0 <= m < rest@.len() && rest@[m] == other;
                        if m >= rest_before.len() {
                            assert(referenced@[m - rest_before.len()] == other);
                            assert(referenced_in(*expression).contains(other));
                        } else {
                            assert(rest_before[m] == other);
                        }
                    }
                    if referenced_in(*expression).contains(other) {
                        let m = choose|m: int| 0 <= m < referenced@.len() && referenced@[m] == other;
                        assert(rest@[rest_before.len() + m] == other);
                    }
                    if rest_before.contains(other) {
                        let m = choose|m: int| 0 <= m < rest_before.len() && rest_before[m] == other;
                        assert(rest@[m] == other);
                    }
                }
                keep_set = next;
            }
            keep = rest;
        } else {
            proof {
                removed@.lemma_push_to_set_commute(id);
            }
            removed.push(id);
        }
        index = index - 1;
    }
    assert(all.take(0) == Seq::<(Id, Expression)>::empty());
    let ghost removed_set = shaken_ids(all, set![all.last().0], pure_functions);
    assert(removed@.to_set() =~= removed_set);
    let ghost old_pureness = *pureness;
    let mut entries: Vec<(Id, Expression)> = Vec::new();
    core::mem::swap(&mut entries, &mut body.expressions);
    let mut done: usize = 0;
    while entries.len() > 0
        invariant
            done + entries.len() == count,
            count == all.len(),
            entries@ == all.subrange(done as int, count as int),
            body.expressions@ == without_ids(all.take(done as int), removed_set),
            forall|id: Id| removed@.contains(id) <==> removed_set.contains(id),
            pureness.spec_deterministic_definitions() == old_pureness.spec_deterministic_definitions().difference(
                forgotten(all.take(done as int), removed_set),
            ),
            pureness.spec_deterministic_functions() == old_pureness.spec_deterministic_functions().difference(
                forgotten(all.take(done as int), removed_set),
            ),
            pureness.spec_pure_definitions() == old_pureness.spec_pure_definitions().difference(
                forgotten(all.take(done as int), removed_set),
            ),
            pureness.spec_pure_functions() == old_pureness.spec_pure_functions().difference(
                forgotten(all.take(done as int), removed_set),
            ),
            pureness.spec_const_definitions() == old_pureness.spec_const_definitions().difference(
                forgotten(all.take(done as int), removed_set),
            ),
        decreases entries.len(),
    {
        let entry = entries.remove(0);
        let ghost prefix = all.take(done + 1);
        assert(entry == all[done as int]);
        assert(prefix.drop_last() == all.take(done as int));
        assert(prefix.last() == entry);
        done = done + 1;
        assert(entries@ =~= all.subrange(done as int, count as int));
        if contains(&removed, entry.0) {
            let defined = entry.1.defined_ids();
            let ghost gone = forgotten(all.take(done - 1), removed_set);
            pureness.on_remove(entry.0);
            pureness.forget_all(&defined);
            proof {
                let step = set![entry.0.spec_index()].union(indices(defined@));
                assert(forgotten(prefix, removed_set) =~= gone.union(step));
                assert(old_pureness.spec_deterministic_definitions().difference(gone).remove(
                    entry.0.spec_index(),
                ).difference(indices(defined@)) =~= old_pureness.spec_deterministic_definitions().difference(
                    gone.union(step),
                ));
                assert(old_pureness.spec_deterministic_functions().difference(gone).remove(
                    entry.0.spec_index(),
                ).difference(indices(defined@)) =~= old_pureness.spec_deterministic_functions().difference(
                    gone.union(step),
                ));
                assert(old_pureness.spec_pure_definitions().difference(gone).remove(
                    entry.0.spec_index(),
                ).difference(indices(defined@)) =~= old_pureness.spec_pure_definitions().difference(
                    gone.union(step),
                ));
                assert(old_pureness.spec_pure_functions().difference(gone).remove(
                    entry.0.spec_index(),
                ).difference(indices(defined@)) =~= old_pureness.spec_pure_functions().difference(
                    gone.union(step),
                ));
                assert(old_pureness.spec_const_definitions().difference(gone).remove(
                    entry.0.spec_index(),
                ).difference(indices(defined@)) =~= old_pureness.spec_const_definitions().difference(
                    gone.union(step),
                ));
            }
        } else {
            body.expressions.push(entry);
        }
    }
    assert(all.take(count as int) == all);
}

/// Whether no two entries share an ID.
pub open spec fn distinct_ids(entries: Seq<(Id, Expression)>) -> bool {
    forall|i: int, j: int|
        0 <= i < j < entries.len() ==> (#[trigger] entries[i]).0 != (#[trigger] entries[j]).0
}

/// Tree shaking removes only IDs of the entries it goes through.
proof fn lemma_shaken_ids_of_entries(
    entries: Seq<(Id, Expression)>,
    keep: Set<Id>,
    pure_functions: Set<nat>,
    id: Id,
)
    requires
        shaken_ids(entries, keep, pure_functions).contains(id),
    ensures
        exists|k: int| 0 <= k < entries.len() && (#[trigger] entries[k]).0 == id,
    decreases entries.len(),
{
    let rest = entries.drop_last();
    let last = entries.last();
    if keep.contains(last.0) || !definition_pure(last.1, pure_functions) {
        lemma_shaken_ids_of_entries(
            rest,
            keep.remove(last.0).union(referenced_in(last.1).to_set()),
            pure_functions,
            id,
        );
        let k = choose|k: int| 0 <= k < rest.len() && (#[trigger] rest[k]).0 == id;
        assert(entries[k] == rest[k]);
    } else if id != last.0 {
        lemma_shaken_ids_of_entries(rest, keep, pure_functions, id);
        let k = choose|k: int| 0 <= k < rest.len() && (#[trigger] rest[k]).0 == id;
        assert(entries[k] == rest[k]);
    } else {
        assert(entries[entries.len() - 1].0 == id);
    }
}

/// Tree shaking removes no entry whose expression is not pure, where no two
/// entries share an ID.
pub proof fn lemma_tree_shaking_keeps_impure(
    entries: Seq<(Id, Expression)>,
    keep: Set<Id>,
    pure_functions: Set<nat>,
    index: int,
)
    requires
        distinct_ids(entries),
        0 <= index < entries.len(),
        !definition_pure(entries[index].1, pure_functions),
    ensures
        !shaken_ids(entries, keep, pure_functions).contains(entries[index].0),
    decreases entries.len(),
{
    let rest = entries.drop_last();
    let last = entries.last();
    let id = entries[index].0;
    assert(distinct_ids(rest)) by {
        assert forall|i: int, j: int| 0 <= i < j < rest.len() implies (#[trigger] rest[i]).0
            != (#[trigger] rest[j]).0 by {
            assert(rest[i] == entries[i] && rest[j] == entries[j]);
        }
    }
    if index == entries.len() - 1 {
        let next = keep.remove(last.0).union(referenced_in(last.1).to_set());
        if shaken_ids(rest, next, pure_functions).contains(id) {
            lemma_shaken_ids_of_entries(rest, next, pure_functions, id);
            let k = choose|k: int| 0 <= k < rest.len() && (#[trigger] rest[k]).0 == id;
            assert(entries[k] == rest[k]);
        }
    } else {
        assert(rest[index] == entries[index]);
        assert(entries[index].0 != entries[entries.len() - 1].0);
        if keep.contains(last.0) || !definition_pure(last.1, pure_functions) {
            lemma_tree_shaking_keeps_impure(
                rest,
                keep.remove(last.0).union(referenced_in(last.1).to_set()),
                pure_functions,
                index,
            );
        } else {
            lemma_tree_shaking_keeps_impure(rest, keep, pure_functions, index);
        }
    }
}

/// Tree shaking keeps a body's last expression, which is its result, where no
/// two entries share an ID.
pub proof fn lemma_tree_shaking_keeps_result(entries: Seq<(Id, Expression)>, pure_functions: Set<nat>)
    requires
        distinct_ids(entries),
        entries.len() > 0,
    ensures
        !shaken_ids(entries, set![entries.last().0], pure_functions).contains(entries.last().0),
{
    let rest = entries.drop_last();
    let last = entries.last();
    let next = set![last.0].remove(last.0).union(referenced_in(last.1).to_set());
    if shaken_ids(rest, next, pure_functions).contains(last.0) {
        lemma_shaken_ids_of_entries(rest, next, pure_functions, last.0);
        let k = choose|k: int| 0 <= k < rest.len() && (#[trigger] rest[k]).0 == last.0;
        assert(entries[k] == rest[k]);
        assert(entries[k].0 != entries[entries.len() - 1].0);
    }
}

/// An ID that is still needed stays, where no two entries share an ID: tree
/// shaking removes none of the entries it still has to go through whose ID
/// is needed.
proof fn lemma_needed_kept(
    entries: Seq<(Id, Expression)>,
    keep: Set<Id>,
    pure_functions: Set<nat>,
    index: int,
)
    requires
        distinct_ids(entries),
        0 <= index < entries.len(),
        keep.contains(entries[index].0),
    ensures
        !shaken_ids(entries, keep, pure_functions).contains(entries[index].0),
    decreases entries.len(),
{
    let rest = entries.drop_last();
    let last = entries.last();
    let id = entries[index].0;
    assert(distinct_ids(rest)) by {
        assert forall|i: int, j: int| 0 <= i < j < rest.len() implies (#[trigger] rest[i]).0
            != (#[trigger] rest[j]).0 by {
            assert(rest[i] == entries[i] && rest[j] == entries[j]);
        }
    }
    let next = keep.remove(last.0).union(referenced_in(last.1).to_set());
    if index == entries.len() - 1 {
        if shaken_ids(rest, next, pure_functions).contains(id) {
            lemma_shaken_ids_of_entries(rest, next, pure_functions, id);
            let k = choose|k: int| 0 <= k < rest.len() && (#[trigger] rest[k]).0 == id;
            assert(entries[k] == rest[k]);
        }
    } else {
        assert(rest[index] == entries[index]);
        assert(entries[index].0 != entries[entries.len() - 1].0);
        if keep.contains(last.0) || !definition_pure(last.1, pure_functions) {
            assert(next.contains(id));
            lemma_needed_kept(rest, next, pure_functions, index);
        } else {
            lemma_needed_kept(rest, keep, pure_functions, index);
        }
    }
}

/// Tree shaking leaves a closed body, where no two entries share an ID:
/// what a kept expression refers to among the entries before it is kept
/// too, so every ID that a kept expression uses is still defined.
pub proof fn lemma_tree_shaking_keeps_references(
    entries: Seq<(Id, Expression)>,
    keep: Set<Id>,
    pure_functions: Set<nat>,
    user: int,
    used: int,
)
    requires
        distinct_ids(entries),
        0 <= used < user < entries.len(),
        !shaken_ids(entries, keep, pure_functions).contains(entries[user].0),
        referenced_in(entries[user].1).contains(entries[used].0),
    ensures
        !shaken_ids(entries, keep, pure_functions).contains(entries[used].0),
    decreases entries.len(),
{
    let rest = entries.drop_last();
    let last = entries.last();
    assert(distinct_ids(rest)) by {
        assert forall|i: int, j: int| 0 <= i < j < rest.len() implies (#[trigger] rest[i]).0
            != (#[trigger] rest[j]).0 by {
            assert(rest[i] == entries[i] && rest[j] == entries[j]);
        }
    }
    let next = keep.remove(last.0).union(referenced_in(last.1).to_set());
    assert(rest[used] == entries[used]);
    if user == entries.len() - 1 {
        if !(keep.contains(last.0) || !definition_pure(last.1, pure_functions)) {
            assert(shaken_ids(entries, keep, pure_functions).contains(last.0));
        }
        assert(referenced_in(last.1).to_set().contains(entries[used].0));
        assert(next.contains(rest[used].0));
        lemma_needed_kept(rest, next, pure_functions, used);
    } else {
        assert(rest[user] == entries[user]);
        assert(entries[used].0 != last.0);
        if keep.contains(last.0) || !definition_pure(last.1, pure_functions) {
            lemma_tree_shaking_keeps_references(rest, next, pure_functions, user, used);
        } else {
            lemma_tree_shaking_keeps_references(rest, keep, pure_functions, user, used);
        }
    }
}

/// Whether a list holds an ID.
fn contains(ids: &Vec<Id>, id: Id) -> (result: bool)
    ensures
        result == ids@.contains(id),
{
    let mut index: usize = 0;
    while index < ids.len()
        invariant
            index <= ids.len(),
            forall|k: int| 0 <= k < index ==> ids@[k] != id,
        decreases ids.len() - index,
    {
        if ids[index] == id {
            assert(ids@[index as int] == id);
            return true;
        }
        index = index + 1;
    }
    false
}

impl PurenessInsights {
    /// Forgets everything about some IDs.
    pub fn forget_all(&mut self, ids: &Vec<Id>)
        ensures
            final(self).spec_deterministic_definitions() == old(
                self,
            ).spec_deterministic_definitions().difference(indices(ids@)),
            final(self).spec_deterministic_functions() == old(
                self,
            ).spec_deterministic_functions().difference(indices(ids@)),
            final(self).spec_pure_definitions() == old(self).spec_pure_definitions().difference(
                indices(ids@),
            ),
            final(self).spec_pure_functions() == old(self).spec_pure_functions().difference(indices(ids@)),
            final(self).spec_const_definitions() == old(self).spec_const_definitions().difference(
                indices(ids@),
            ),
    {
        let ghost start = *self;
        let mut k: usize = 0;
        while k < ids.len()
            invariant
                k <= ids.len(),
                self.spec_deterministic_definitions() == start.spec_deterministic_definitions().difference(
                    indices(ids@.take(k as int)),
                ),
                self.spec_deterministic_functions() == start.spec_deterministic_functions().difference(
                    indices(ids@.take(k as int)),
                ),
                self.spec_pure_definitions() == start.spec_pure_definitions().difference(
                    indices(ids@.take(k as int)),
                ),
                self.spec_pure_functions() == start.spec_pure_functions().difference(
                    indices(ids@.take(k as int)),
                ),
                self.spec_const_definitions() == start.spec_const_definitions().difference(
                    indices(ids@.take(k as int)),
                ),
            decreases ids.len() - k,
        {
            self.on_remove(ids[k]);
            proof {
                let before = indices(ids@.take(k as int));
                let after = indices(ids@.take(k + 1));
                assert forall|i: nat| after.contains(i) <==> before.contains(i) || i
                    == ids@[k as int].spec_index() by {
                    if after.contains(i) {
                        let m = choose|m: int|
                            0 <= m < k + 1 && (#[trigger] ids@.take(k + 1)[m]).spec_index() == i;
                        if m < k {
                            assert(ids@.take(k as int)[m] == ids@.take(k + 1)[m]);
                        }
                    }
                    if before.contains(i) {
                        let m = choose|m: int|
                            0 <= m < k && (#[trigger] ids@.take(k as int)[m]).spec_index() == i;
                        assert(ids@.take(k + 1)[m] == ids@.take(k as int)[m]);
                    }
                    if i == ids@[k as int].spec_index() {
                        assert(ids@.take(k + 1)[k as int] == ids@[k as int]);
                    }
                }
                assert(start.spec_deterministic_definitions().difference(before).remove(
                    ids@[k as int].spec_index(),
                ) =~= start.spec_deterministic_definitions().difference(after));
                assert(start.spec_deterministic_functions().difference(before).remove(
                    ids@[k as int].spec_index(),
                ) =~= start.spec_deterministic_functions().difference(after));
                assert(start.spec_pure_definitions().difference(before).remove(
                    ids@[k as int].spec_index(),
                ) =~= start.spec_pure_definitions().difference(after));
                assert(start.spec_pure_functions().difference(before).remove(
                    ids@[k as int].spec_index(),
                ) =~= start.spec_pure_functions().difference(after));
                assert(start.spec_const_definitions().difference(before).remove(
                    ids@[k as int].spec_index(),
                ) =~= start.spec_const_definitions().difference(after));
            }
            k = k + 1;
        }
        assert(ids@.take(k as int) == ids@);
    }
}

} // verus!
