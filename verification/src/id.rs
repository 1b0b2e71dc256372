use vstd::prelude::*;

verus! {

/// An identifier that is numbered sequentially, so that it can be converted
/// from and to a `usize`.
pub trait CountableId: Sized {
    spec fn spec_index(&self) -> nat;

    fn from_usize(id: usize) -> (result: Self)
        ensures
            result.spec_index() == id as nat,
    ;

    fn to_usize(&self) -> (result: usize)
        ensures
            result as nat == self.spec_index(),
    ;
}

/// Hands out consecutive IDs, starting at a given number.
pub struct IdGenerator<T: CountableId> {
    next_id: usize,
    _data: core::marker::PhantomData<T>,
}

impl<T: CountableId> IdGenerator<T> {
    /// The number of the ID that the next call of `generate` returns.
    pub closed spec fn next(&self) -> nat {
        self.next_id as nat
    }

    /// The generator that starts at a number.
    pub closed spec fn spec_start_at(id: usize) -> Self {
        Self { next_id: id, _data: core::marker::PhantomData }
    }

    pub fn start_at(id: usize) -> (result: Self)
        ensures
            result.next() == id as nat,
            result == Self::spec_start_at(id),
    {
        Self { next_id: id, _data: core::marker::PhantomData }
    }

    pub fn default() -> (result: Self)
        ensures
            result.next() == 0,
            result == Self::spec_start_at(0),
    {
        Self::start_at(0)
    }

    pub fn generate(&mut self) -> (id: T)
        requires
            old(self).next() < usize::MAX,
        ensures
            id.spec_index() == old(self).next(),
            final(self).next() == old(self).next() + 1,
    {
        let id = self.next_id;
        self.next_id = self.next_id + 1;
        T::from_usize(id)
    }
}

/// IDs that a generator hands out one after the other are consecutive: where
/// each call gives the number that the generator holds and moves it on by one,
/// the `j`-th call gives the start plus `j`, so the IDs grow and no two are
/// equal.
pub proof fn lemma_generated_ids_consecutive(start: nat, nexts: Seq<nat>, ids: Seq<nat>)
    requires
        nexts.len() == ids.len() + 1,
        nexts[0] == start,
        forall|j: int|
            0 <= j < ids.len() ==> #[trigger] ids[j] == nexts[j] && nexts[j + 1] == nexts[j] + 1,
    ensures
        forall|j: int| 0 <= j < ids.len() ==> #[trigger] ids[j] == start + j,
        forall|i: int, j: int| 0 <= i < j < ids.len() ==> #[trigger] ids[i] < #[trigger] ids[j],
    decreases ids.len(),
{
    if ids.len() > 0 {
        let k = ids.len() - 1;
        assert(ids[k] == nexts[k]);
        lemma_generated_ids_consecutive(start, nexts.drop_last(), ids.drop_last());
        assert forall|j: int| 0 <= j < ids.len() implies #[trigger] ids[j] == start + j by {
            if j < k {
                assert(ids.drop_last()[j] == ids[j]);
            } else if k > 0 {
                assert(ids.drop_last()[k - 1] == ids[k - 1]);
                assert(ids[k - 1] == nexts[k - 1] && nexts[k] == nexts[k - 1] + 1);
            }
        }
    }
}

} // verus!
