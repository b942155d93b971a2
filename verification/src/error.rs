//! Why a matrix cannot be built.

use vstd::prelude::*;

verus! {

/// The ways in which the construction of a matrix fails.
#[derive(Clone, Copy, Debug, PartialEq, Eq)]
pub enum MatrixError {
    /// The grid would have no cells: its width or its height is zero.
    InvalidDimensions,
    /// The convergence probability does not lie between zero and one.
    InvalidProbability,
}

} // verus!
