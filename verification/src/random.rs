use vstd::prelude::*;
use crate::error::KMeansError;
use crate::matrix::{can_hold, fits, is_seed, Matrix};

verus! {

/// The random number generator that centroids are drawn from,
/// `rand::rngs::StdRng`. It is carried through to the draws; nothing is
/// assumed of its state.
#[verifier::external_type_specification]
#[verifier::external_body]
pub struct ExStdRng(ndarray_rand::rand::rngs::StdRng);

/// Fresh centroids: a matrix of `dimensions` rows and `clusters` columns
/// whose cells are drawn uniformly from the half-open unit interval.
pub fn initialize_centroids(
    dimensions: usize,
    clusters: usize,
    rng: &mut ndarray_rand::rand::rngs::StdRng,
) -> (made: Result<Matrix, KMeansError>)
    ensures
        made == Err::<Matrix, KMeansError>(KMeansError::InvalidArgument) <==> dimensions == 0
            || clusters == 0,
        made == Err::<Matrix, KMeansError>(KMeansError::TooLarge) <==> dimensions != 0 && clusters
            != 0 && !fits(dimensions as nat, clusters as nat),
        made.is_ok() ==> made.unwrap().rows() == dimensions && made.unwrap().cols() == clusters
            && is_seed(made.unwrap()@, dimensions as nat, clusters as nat),
{
    if dimensions == 0 || clusters == 0 {
        return Err(KMeansError::InvalidArgument);
    }
    if !can_hold(dimensions, clusters) {
        return Err(KMeansError::TooLarge);
    }
    Ok(Matrix::raw_random(dimensions, clusters, rng))
}

} // verus!
