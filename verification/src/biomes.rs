//! Dimensions of the world.

use vstd::prelude::*;

verus! {

/// A dimension of the world.
#[allow(non_camel_case_types)]
#[derive(Clone, Copy, Debug, PartialEq, Eq, Structural)]
pub enum Dimension {
    DIM_NETHER,
    DIM_OVERWORLD,
    DIM_END,
    DIM_UNDEF,
}

/// The numeric identifier of a dimension.
pub open spec fn dimension_id(d: Dimension) -> i32 {
    match d {
        Dimension::DIM_NETHER => -1i32,
        Dimension::DIM_OVERWORLD => 0i32,
        Dimension::DIM_END => 1i32,
        Dimension::DIM_UNDEF => 1000i32,
    }
}

impl Dimension {
    /// The numeric identifier of this dimension.
    pub fn value(&self) -> (r: i32)
        ensures
            r == dimension_id(*self),
    {
        match *self {
            Dimension::DIM_NETHER => -1,
            Dimension::DIM_OVERWORLD => 0,
            Dimension::DIM_END => 1,
            Dimension::DIM_UNDEF => 1000,
        }
    }
}

} // verus!
