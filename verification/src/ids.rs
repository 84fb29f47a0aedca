//! How a definition numbers what it defines.

use vstd::prelude::*;

verus! {

/// A parameter, by its place in the definition.
#[derive(Clone, Copy, PartialEq, Eq, Debug, Structural)]
pub struct ParamId {
    pub number: u32,
}

impl ParamId {
    /// The parameter at a place.
    pub fn new(number: u32) -> (r: Self)
        ensures
            r.number == number,
    {
        ParamId { number }
    }

    /// The place, as an index.
    pub fn index(self) -> (r: usize)
        ensures
            r == self.number,
    {
        self.number as usize
    }
}

/// A container, by its place in the definition.
#[derive(Clone, Copy, PartialEq, Eq, Debug, Structural)]
pub struct ContainerId {
    pub number: u32,
}

impl ContainerId {
    /// The container at a place.
    pub fn new(number: u32) -> (r: Self)
        ensures
            r.number == number,
    {
        ContainerId { number }
    }

    /// The place, as an index.
    pub fn index(self) -> (r: usize)
        ensures
            r == self.number,
    {
        self.number as usize
    }
}

} // verus!
