use vstd::prelude::*;
use crate::matrix::Matrix;

verus! {

/// The largest square of a difference of two cells.
pub const SQUARE_MAX: u128 = 0xFFFF_FFFE_0000_0001u128;

/// The square of an integer.
pub open spec fn square(x: int) -> int {
    x * x
}

/// Squared Euclidean distance between column `k` of `centroids` and row `r`
/// of `features`, taken over the first `dims` coordinates only.
pub open spec fn partial_distance(
    centroids: Seq<Seq<i32>>,
    k: int,
    features: Seq<Seq<i32>>,
    r: int,
    dims: nat,
) -> int
    decreases dims,
{
    if dims == 0 {
        0
    } else {
        partial_distance(centroids, k, features, r, (dims - 1) as nat) + square(
            centroids[dims - 1][k] - features[r][dims - 1],
        )
    }
}

/// Squared Euclidean distance between column `k` of `centroids` (one row per
/// coordinate) and row `r` of `features`.
pub open spec fn distance(centroids: Seq<Seq<i32>>, k: int, features: Seq<Seq<i32>>, r: int) -> int {
    partial_distance(centroids, k, features, r, centroids.len())
}

/// Among the first `count` centroids, the index of the one nearest to row
/// `r`; of several at the same distance, the lowest index.
pub open spec fn nearest_among(
    centroids: Seq<Seq<i32>>,
    features: Seq<Seq<i32>>,
    r: int,
    count: nat,
) -> int
    decreases count,
{
    if count <= 1 {
        0
    } else {
        let best = nearest_among(centroids, features, r, (count - 1) as nat);
        if distance(centroids, count - 1, features, r) < distance(centroids, best, features, r) {
            count - 1
        } else {
            best
        }
    }
}

/// Number of centroids in a centroid matrix that has at least one row.
pub open spec fn centroid_count(centroids: Seq<Seq<i32>>) -> nat {
    centroids[0].len()
}

/// The index of the centroid nearest to row `r`, the lowest on a tie.
pub open spec fn nearest(centroids: Seq<Seq<i32>>, features: Seq<Seq<i32>>, r: int) -> int {
    nearest_among(centroids, features, r, centroid_count(centroids))
}

/// `k` is below `count`, no centroid below `count` is nearer to row `r`
/// than centroid `k`, and every centroid before `k` is farther.
pub open spec fn is_first_minimum(
    centroids: Seq<Seq<i32>>,
    features: Seq<Seq<i32>>,
    r: int,
    count: nat,
    k: int,
) -> bool {
    &&& 0 <= k < count
    &&& forall|other: int|
        0 <= other < count ==> distance(centroids, k, features, r) <= #[trigger] distance(
            centroids,
            other,
            features,
            r,
        )
    &&& forall|other: int|
        0 <= other < k ==> distance(centroids, k, features, r) < #[trigger] distance(
            centroids,
            other,
            features,
            r,
        )
}

/// The nearest centroid is the first minimum of the distances: ties go to
/// the lowest index.
pub proof fn lemma_nearest_is_first_minimum(
    centroids: Seq<Seq<i32>>,
    features: Seq<Seq<i32>>,
    r: int,
    count: nat,
)
    requires
        count >= 1,
    ensures
        is_first_minimum(centroids, features, r, count, nearest_among(centroids, features, r, count)),
    decreases count,
{
    if count > 1 {
        lemma_nearest_is_first_minimum(centroids, features, r, (count - 1) as nat);
    }
}

/// Only one index is the first minimum.
pub proof fn lemma_first_minimum_is_unique(
    centroids: Seq<Seq<i32>>,
    features: Seq<Seq<i32>>,
    r: int,
    count: nat,
    a: int,
    b: int,
)
    requires
        is_first_minimum(centroids, features, r, count, a),
        is_first_minimum(centroids, features, r, count, b),
    ensures
        a == b,
{
    if a < b {
        assert(distance(centroids, b, features, r) < distance(centroids, a, features, r));
        assert(distance(centroids, a, features, r) <= distance(centroids, b, features, r));
    } else if b < a {
        assert(distance(centroids, a, features, r) < distance(centroids, b, features, r));
        assert(distance(centroids, b, features, r) <= distance(centroids, a, features, r));
    }
}

/// Squares are never negative.
pub proof fn lemma_partial_distance_bounds(
    centroids: Seq<Seq<i32>>,
    k: int,
    features: Seq<Seq<i32>>,
    r: int,
    dims: nat,
)
    ensures
        0 <= partial_distance(centroids, k, features, r, dims) <= dims * SQUARE_MAX,
    decreases dims,
{
    if dims > 0 {
        lemma_partial_distance_bounds(centroids, k, features, r, (dims - 1) as nat);
        let c: int = centroids[dims - 1][k] as int;
        let x: int = features[r][dims - 1] as int;
        assert(0 <= square(c - x) <= SQUARE_MAX) by (nonlinear_arith)
            requires
                -0x8000_0000 <= c < 0x8000_0000,
                -0x8000_0000 <= x < 0x8000_0000,
        ;
    }
}

/// Squared distance between centroid `k` and feature row `r`.
pub(crate) fn squared_distance(centroids: &Matrix, k: usize, features: &Matrix, r: usize) -> (d: u128)
    requires
        centroids.wf(),
        features.wf(),
        features.cols() == centroids.rows(),
        k < centroids.cols(),
        r < features.rows(),
    ensures
        d == distance(centroids@, k as int, features@, r as int),
        d <= centroids.rows() * SQUARE_MAX,
{
    let dims = centroids.nrows();
    let mut acc: u128 = 0;
    let mut j: usize = 0;
    while j < dims
        invariant
            centroids.wf(),
            features.wf(),
            features.cols() == centroids.rows(),
            dims == centroids.rows(),
            k < centroids.cols(),
            r < features.rows(),
            0 <= j <= dims,
            acc == partial_distance(centroids@, k as int, features@, r as int, j as nat),
            acc <= j * SQUARE_MAX,
        decreases dims - j,
    {
        let c = centroids.raw_get(j, k);
        let x = features.raw_get(r, j);
        let gap: u128 = if c >= x {
            (c as i64 - x as i64) as u128
        } else {
            (x as i64 - c as i64) as u128
        };
        proof {
            assert(gap * gap == square(c - x) && gap * gap <= SQUARE_MAX) by (nonlinear_arith)
                requires
                    gap == c - x || gap == x - c,
                    0 <= gap <= 0xFFFF_FFFF,
            ;
        }
        acc = acc + gap * gap;
        j = j + 1;
    }
    acc
}

/// The centroid nearest to feature row `r`, the lowest index on a tie, and
/// its squared distance.
pub(crate) fn nearest_centroid(centroids: &Matrix, features: &Matrix, r: usize) -> (found: (usize, u128))
    requires
        centroids.wf(),
        features.wf(),
        centroids.rows() >= 1,
        centroids.cols() >= 1,
        features.cols() == centroids.rows(),
        r < features.rows(),
    ensures
        found.0 == nearest(centroids@, features@, r as int),
        found.0 < centroids.cols(),
        found.1 == distance(centroids@, found.0 as int, features@, r as int),
        found.1 <= centroids.rows() * SQUARE_MAX,
{
    let count = centroids.ncols();
    let mut best: usize = 0;
    let mut least: u128 = squared_distance(centroids, 0, features, r);
    let mut k: usize = 1;
    while k < count
        invariant
            centroids.wf(),
            features.wf(),
            centroids.rows() >= 1,
            features.cols() == centroids.rows(),
            r < features.rows(),
            count == centroids.cols(),
            1 <= k <= count,
            best < k,
            best == nearest_among(centroids@, features@, r as int, k as nat),
            least == distance(centroids@, best as int, features@, r as int),
            least <= centroids.rows() * SQUARE_MAX,
        decreases count - k,
    {
        let d = squared_distance(centroids, k, features, r);
        if d < least {
            best = k;
            least = d;
        }
        k = k + 1;
    }
    (best, least)
}

} // verus!
