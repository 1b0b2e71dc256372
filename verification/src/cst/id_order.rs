use super::view::CstView;
use vstd::prelude::*;

verus! {

/// Whether the IDs of a sequence of nodes grow strictly from each node to the
/// next, as they do when a parser numbers the nodes in source order, each node
/// before its children.
pub open spec fn ids_increasing(nodes: Seq<CstView>) -> bool {
    forall|i: int, j: int| 0 <= i < j < nodes.len() ==> #[trigger] nodes[i].data.id.0 < #[trigger] nodes[j].data.id.0
}

/// Whether a node with the given ID is among the nodes.
pub open spec fn has_id(nodes: Seq<CstView>, id: usize) -> bool {
    exists|i: int| 0 <= i < nodes.len() && #[trigger] nodes[i].data.id.0 == id
}

/// Whether every ID among the first nodes is below every ID among the second.
pub open spec fn ids_before(first: Seq<CstView>, second: Seq<CstView>) -> bool {
    forall|i: int, j: int|
        0 <= i < first.len() && 0 <= j < second.len() ==> #[trigger] first[i].data.id.0
            < #[trigger] second[j].data.id.0
}

/// Growing IDs stay growing in both halves of a sequence, and the first half's
/// IDs come before the second half's.
pub broadcast proof fn lemma_ids_increasing_concat(first: Seq<CstView>, second: Seq<CstView>)
    requires
        #[trigger] ids_increasing(first + second),
    ensures
        ids_increasing(first),
        ids_increasing(second),
        ids_before(first, second),
{
    let all = first + second;
    assert forall|i: int, j: int| 0 <= i < j < first.len() implies #[trigger] first[i].data.id.0
        < #[trigger] first[j].data.id.0 by {
        assert(all[i] == first[i] && all[j] == first[j]);
    }
    assert forall|i: int, j: int| 0 <= i < j < second.len() implies #[trigger] second[i].data.id.0
        < #[trigger] second[j].data.id.0 by {
        assert(all[first.len() + i] == second[i] && all[first.len() + j] == second[j]);
    }
    assert forall|i: int, j: int|
        0 <= i < first.len() && 0 <= j < second.len() implies #[trigger] first[i].data.id.0
        < #[trigger] second[j].data.id.0 by {
        assert(all[i] == first[i] && all[first.len() + j] == second[j]);
    }
}

/// An ID is in a concatenation of nodes if and only if it is in one of the
/// parts.
pub broadcast proof fn lemma_has_id_concat(first: Seq<CstView>, second: Seq<CstView>, id: usize)
    ensures
        #[trigger] has_id(first + second, id) == (has_id(first, id) || has_id(second, id)),
{
    let all = first + second;
    if has_id(all, id) {
        let i = choose|i: int| 0 <= i < all.len() && #[trigger] all[i].data.id.0 == id;
        if i < first.len() {
            assert(first[i] == all[i]);
        } else {
            assert(second[i - first.len()] == all[i]);
        }
    }
    if has_id(first, id) {
        let i = choose|i: int| 0 <= i < first.len() && #[trigger] first[i].data.id.0 == id;
        assert(all[i] == first[i]);
    }
    if has_id(second, id) {
        let i = choose|i: int| 0 <= i < second.len() && #[trigger] second[i].data.id.0 == id;
        assert(all[first.len() + i] == second[i]);
    }
}

/// No ID is among no nodes.
pub broadcast proof fn lemma_has_id_empty(id: usize)
    ensures
        !#[trigger] has_id(Seq::<CstView>::empty(), id),
{
}

/// A single node has only its own ID.
pub broadcast proof fn lemma_has_id_single(node: CstView, id: usize)
    ensures
        #[trigger] has_id(seq![node], id) == (node.data.id.0 == id),
{
    if node.data.id.0 == id {
        assert(seq![node][0] == node);
    }
}

pub broadcast group group_id_order {
    lemma_ids_increasing_concat,
    lemma_has_id_concat,
    lemma_has_id_empty,
    lemma_has_id_single,
}

} // verus!
