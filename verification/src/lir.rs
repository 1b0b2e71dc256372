mod expression;

pub use self::expression::{all_replaced, fields_replaced, ids_replaced, replaced, Expression};
use crate::id::CountableId;
use crate::text::{decimal, push_decimal};
use vstd::prelude::*;

verus! {

/// The ID of an expression of the low-level intermediate representation.
#[derive(Clone, Copy, PartialEq, Eq, Structural, Hash, PartialOrd, Ord)]
pub struct Id(usize);

impl CountableId for Id {
    closed spec fn spec_index(&self) -> nat {
        self.0 as nat
    }

    fn from_usize(id: usize) -> (result: Self) {
        Id(id)
    }

    fn to_usize(&self) -> (result: usize) {
        self.0
    }
}

impl Id {
    /// The text of this ID: a dollar sign and its number.
    pub fn to_string(&self) -> (result: String)
        ensures
            result@ == "$"@ + decimal(self.spec_index()),
    {
        let mut result = String::from_str("$");
        push_decimal(&mut result, self.0);
        result
    }
}

/// The ID of a body of the low-level intermediate representation.
#[derive(Clone, Copy, PartialEq, Eq, Structural, Hash, PartialOrd, Ord)]
pub struct BodyId(usize);

impl CountableId for BodyId {
    closed spec fn spec_index(&self) -> nat {
        self.0 as nat
    }

    fn from_usize(id: usize) -> (result: Self) {
        BodyId(id)
    }

    fn to_usize(&self) -> (result: usize) {
        self.0
    }
}

impl BodyId {
    /// The text of this ID: `body_` and its number.
    pub fn to_string(&self) -> (result: String)
        ensures
            result@ == "body_"@ + decimal(self.spec_index()),
    {
        let mut result = String::from_str("body_");
        push_decimal(&mut result, self.0);
        result
    }
}

/// The ID of a constant of the low-level intermediate representation.
#[derive(Clone, Copy, PartialEq, Eq, Structural, Hash, PartialOrd, Ord)]
pub struct ConstantId(usize);

impl CountableId for ConstantId {
    closed spec fn spec_index(&self) -> nat {
        self.0 as nat
    }

    fn from_usize(id: usize) -> (result: Self) {
        ConstantId(id)
    }

    fn to_usize(&self) -> (result: usize) {
        self.0
    }
}

impl ConstantId {
    /// The text of this ID: a percent sign and its number.
    pub fn to_string(&self) -> (result: String)
        ensures
            result@ == "%"@ + decimal(self.spec_index()),
    {
        let mut result = String::from_str("%");
        push_decimal(&mut result, self.0);
        result
    }
}

} // verus!
