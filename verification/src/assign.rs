use vstd::prelude::*;
use crate::distance::{
    centroid_count, distance, lemma_nearest_is_first_minimum, nearest, nearest_centroid, SQUARE_MAX,
};
use crate::error::KMeansError;
use crate::matrix::Matrix;
use crate::partition::{is_partition, labels_within, lemma_grouping_is_partition};

verus! {

/// A cluster assignment: one group of feature-row indices per centroid.
pub type Cluster = Vec<Vec<usize>>;

/// The groups of a cluster assignment as sequences.
pub open spec fn groups_of(cluster: Cluster) -> Seq<Seq<usize>> {
    Seq::new(cluster@.len(), |k: int| cluster@[k]@)
}

/// The centroid matrix has at least one coordinate and one centroid, the
/// feature matrix has at least one row, and both have the same number of
/// coordinates.
pub open spec fn compatible(centroids: Matrix, features: Matrix) -> bool {
    &&& centroids.rows() >= 1
    &&& centroids.cols() >= 1
    &&& features.rows() >= 1
    &&& features.cols() == centroids.rows()
}

/// For each feature row, the index of its nearest centroid.
pub open spec fn labels(centroids: Seq<Seq<i32>>, features: Seq<Seq<i32>>) -> Seq<int> {
    Seq::new(features.len(), |r: int| nearest(centroids, features, r))
}

/// The rows below `upto` that carry label `k`, in ascending order.
pub open spec fn group_of(labels: Seq<int>, k: int, upto: nat) -> Seq<usize>
    decreases upto,
{
    if upto == 0 {
        Seq::empty()
    } else {
        let earlier = group_of(labels, k, (upto - 1) as nat);
        if labels[upto - 1] == k {
            earlier.push((upto - 1) as usize)
        } else {
            earlier
        }
    }
}

/// `groups` holds, for each of `count` labels, exactly the rows that carry
/// it, in ascending order.
pub open spec fn is_grouping(groups: Seq<Seq<usize>>, labels: Seq<int>, count: nat) -> bool {
    &&& groups.len() == count
    &&& forall|k: int| 0 <= k < count ==> #[trigger] groups[k] == group_of(labels, k, labels.len())
}

/// Every label names a centroid.
pub proof fn lemma_labels_within(centroids: Seq<Seq<i32>>, features: Seq<Seq<i32>>)
    requires
        centroid_count(centroids) >= 1,
    ensures
        labels_within(labels(centroids, features), centroid_count(centroids)),
{
    assert forall|r: int| 0 <= r < labels(centroids, features).len() implies 0 <= #[trigger] labels(
        centroids,
        features,
    )[r] < centroid_count(centroids) by {
        lemma_nearest_is_first_minimum(centroids, features, r, centroid_count(centroids));
    }
}

/// The sum of the squared distances of the rows below `upto` to their
/// nearest centroids.
pub open spec fn error_upto(centroids: Seq<Seq<i32>>, features: Seq<Seq<i32>>, upto: nat) -> int
    decreases upto,
{
    if upto == 0 {
        0
    } else {
        error_upto(centroids, features, (upto - 1) as nat) + distance(
            centroids,
            nearest(centroids, features, upto - 1),
            features,
            upto - 1,
        )
    }
}

/// The total error of a centroid matrix on a feature matrix: the sum over
/// all rows of the squared distance to the nearest centroid.
pub open spec fn total_error(centroids: Seq<Seq<i32>>, features: Seq<Seq<i32>>) -> int {
    error_upto(centroids, features, features.len())
}

/// `count` groups without any row.
pub open spec fn no_groups(count: nat) -> Seq<Seq<usize>> {
    Seq::new(count, |k: int| Seq::<usize>::empty())
}

/// A cluster assignment of `count` empty groups.
pub fn empty_cluster(count: usize) -> (cluster: Cluster)
    ensures
        groups_of(cluster) == no_groups(count as nat),
        cluster@.len() == count,
        forall|j: int| 0 <= j < count ==> (#[trigger] cluster@[j])@ == Seq::<usize>::empty(),
{
    let mut cluster: Cluster = Vec::new();
    let mut k: usize = 0;
    while k < count
        invariant
            0 <= k <= count,
            cluster@.len() == k,
            forall|j: int| 0 <= j < k ==> (#[trigger] cluster@[j])@ == Seq::<usize>::empty(),
        decreases count - k,
    {
        cluster.push(Vec::new());
        k = k + 1;
    }
    assert(groups_of(cluster) =~= no_groups(count as nat));
    cluster
}

/// Assigns every feature row to its nearest centroid (the lowest index on a
/// tie) and sums the squared distances.
///
/// `centroids` has one row per coordinate and one column per centroid;
/// `features` has one row per data point.
pub fn assign_to_centroids(centroids: &Matrix, features: &Matrix) -> (out: Result<(Cluster, u128), KMeansError>)
    ensures
        out.is_ok() <==> compatible(*centroids, *features),
        out.is_err() ==> out == Err::<(Cluster, u128), KMeansError>(KMeansError::InvalidArgument),
        out.is_ok() ==> is_grouping(
            groups_of(out.unwrap().0),
            labels(centroids@, features@),
            centroids.cols(),
        ),
        out.is_ok() ==> out.unwrap().1 == total_error(centroids@, features@),
        out.is_ok() ==> is_partition(groups_of(out.unwrap().0), features.rows()),
{
    let (dims, count) = centroids.shape();
    let (rows, width) = features.shape();
    if dims == 0 || count == 0 || rows == 0 || width != dims {
        return Err(KMeansError::InvalidArgument);
    }
    let mut cluster = empty_cluster(count);
    let ghost marks = labels(centroids@, features@);
    let mut total: u128 = 0;
    let mut r: usize = 0;
    while r < rows
        invariant
            centroids.wf(),
            features.wf(),
            compatible(*centroids, *features),
            dims == centroids.rows(),
            count == centroids.cols(),
            rows == features.rows(),
            marks == labels(centroids@, features@),
            0 <= r <= rows,
            cluster@.len() == count,
            forall|j: int| 0 <= j < count ==> (#[trigger] cluster@[j])@ == group_of(marks, j, r as nat),
            total == error_upto(centroids@, features@, r as nat),
            total <= (r * dims) * SQUARE_MAX,
        decreases rows - r,
    {
        let (best, least) = nearest_centroid(centroids, features, r);
        proof {
            assert(marks[r as int] == best);
            assert((r + 1) * dims == r * dims + dims) by (nonlinear_arith);
            assert((r + 1) * dims <= rows * dims) by (nonlinear_arith)
                requires r + 1 <= rows, dims >= 0;
            assert(((r + 1) * dims) * SQUARE_MAX == (r * dims) * SQUARE_MAX + dims * SQUARE_MAX)
                by (nonlinear_arith)
                requires (r + 1) * dims == r * dims + dims;
        }
        cluster[best].push(r);
        total = total + least;
        r = r + 1;
    }
    proof {
        assert(groups_of(cluster).len() == count);
        assert forall|j: int| 0 <= j < count implies #[trigger] groups_of(cluster)[j] == group_of(
            marks,
            j,
            marks.len(),
        ) by {
            assert(groups_of(cluster)[j] == cluster@[j]@);
        }
        lemma_labels_within(centroids@, features@);
        lemma_grouping_is_partition(groups_of(cluster), marks, count as nat);
    }
    Ok((cluster, total))
}

} // verus!
