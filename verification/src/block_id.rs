use vstd::prelude::*;

verus! {

/// The address of one fixed-size block: block `number` of the file named
/// `filename`. A plain immutable value; equality and the hash cover both
/// fields, so addresses can key the tables of collaborating components.
///
/// A negative `number` is representable but names no real block; callers
/// that fabricate addresses are expected to pass block counts.
#[derive(Debug, Clone, Hash)]
pub struct BlockId {
    pub filename: String,
    pub number: i32,
}

impl PartialEq for BlockId {
    fn eq(&self, other: &Self) -> (r: bool) {
        self.filename == other.filename && self.number == other.number
    }
}

impl Eq for BlockId {

}

impl vstd::std_specs::cmp::PartialEqSpecImpl for BlockId {
    open spec fn obeys_eq_spec() -> bool {
        true
    }

    open spec fn eq_spec(&self, other: &Self) -> bool {
        self.filename@ == other.filename@ && self.number == other.number
    }
}

} // verus!
