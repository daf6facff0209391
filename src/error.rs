use vstd::prelude::*;

verus! {

/// Why a component could not be built.
#[derive(Clone, Copy, Debug, PartialEq, Eq)]
pub enum ConstructionError {
    /// A noise standard deviation is negative, or zero where it must be positive.
    InvalidDeviation,
    /// A region's lower bound is not below its upper bound on some axis.
    EmptyRegion,
    /// A coordinate, rate or parameter lies outside the representable range.
    OutOfRange,
    /// A population, agent list or anchor list is empty or too large.
    BadCount,
}

/// All particle weights collapsed to zero: the posterior is degenerate.
#[derive(Clone, Copy, Debug, PartialEq, Eq)]
pub struct DegenerateFilterError;

} // verus!
