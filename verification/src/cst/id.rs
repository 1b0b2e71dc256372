use crate::id::CountableId;
use vstd::prelude::*;

verus! {

/// The ID of a node of the concrete syntax tree.
#[derive(Clone, Copy, Debug, PartialEq, Eq, Structural, Hash, PartialOrd, Ord)]
pub struct Id(pub usize);

impl CountableId for Id {
    open spec fn spec_index(&self) -> nat {
        self.0 as nat
    }

    fn from_usize(id: usize) -> (result: Self) {
        Id(id)
    }

    fn to_usize(&self) -> (result: usize) {
        self.0
    }
}

} // verus!
