use vstd::prelude::*;

verus! {

/// Why a clustering operation refused its input.
#[derive(Debug, Clone, Copy, PartialEq, Eq, Structural)]
pub enum KMeansError {
    /// A cluster count, row count or dimensionality of zero, shapes that do
    /// not fit together, or a row index that names no feature row.
    InvalidArgument,
    /// The requested matrix has more cells than can be allocated.
    TooLarge,
}

} // verus!
