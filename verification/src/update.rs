use vstd::prelude::*;
use vstd::arithmetic::div_mod::lemma_fundamental_div_mod_converse;
use crate::assign::{groups_of, Cluster};
use crate::error::KMeansError;
use crate::matrix::{can_hold, fits, is_table, Matrix, ONE};

verus! {

/// The sum of coordinate `j` over the first `upto` rows that `group` names.
pub open spec fn coordinate_sum(features: Seq<Seq<i32>>, group: Seq<usize>, j: int, upto: nat) -> int
    decreases upto,
{
    if upto == 0 {
        0
    } else {
        coordinate_sum(features, group, j, (upto - 1) as nat) + features[group[upto - 1] as int][j]
    }
}

/// The arithmetic mean of coordinate `j` over the rows that `group` names,
/// rounded down to a whole fixed-point step.
pub open spec fn mean(features: Seq<Seq<i32>>, group: Seq<usize>, j: int) -> int {
    coordinate_sum(features, group, j, group.len()) / (group.len() as int)
}

/// Every entry of every group is a row index below `rows`.
pub open spec fn rows_in_range(groups: Seq<Seq<usize>>, rows: nat) -> bool {
    forall|k: int, i: int|
        0 <= k < groups.len() && 0 <= i < groups[k].len() ==> (#[trigger] groups[k][i]) < rows
}

/// `new` is a centroid matrix of `dims` coordinates made from `groups`: the
/// column of a group that holds rows is the mean of those rows, and the
/// column of an empty group lies in the half-open unit interval.
pub open spec fn is_update(
    new: Seq<Seq<i32>>,
    groups: Seq<Seq<usize>>,
    features: Seq<Seq<i32>>,
    dims: nat,
) -> bool {
    &&& is_table(new, dims, groups.len())
    &&& forall|j: int, k: int|
        0 <= j < dims && 0 <= k < groups.len() ==> if groups[k].len() > 0 {
            (#[trigger] new[j][k]) == mean(features, groups[k], j)
        } else {
            0 <= new[j][k] < ONE
        }
}

/// A cluster assignment and a feature matrix from which new centroids can
/// be computed: at least one group, one row and one coordinate, and no
/// group names a row that the matrix lacks.
pub open spec fn updatable(groups: Seq<Seq<usize>>, features: Matrix) -> bool {
    &&& groups.len() >= 1
    &&& features.rows() >= 1
    &&& features.cols() >= 1
    &&& rows_in_range(groups, features.rows())
}

/// Whether every entry of every group is a row index below `rows`.
pub fn indices_valid(cluster: &Cluster, rows: usize) -> (ok: bool)
    ensures
        ok == rows_in_range(groups_of(*cluster), rows as nat),
{
    let ghost groups = groups_of(*cluster);
    let mut k: usize = 0;
    while k < cluster.len()
        invariant
            groups == groups_of(*cluster),
            0 <= k <= cluster.len(),
            forall|l: int, i: int|
                0 <= l < k && 0 <= i < groups[l].len() ==> (#[trigger] groups[l][i]) < rows,
        decreases cluster.len() - k,
    {
        let group = &cluster[k];
        let mut i: usize = 0;
        while i < group.len()
            invariant
                groups == groups_of(*cluster),
                0 <= k < cluster.len(),
                group@ == groups[k as int],
                0 <= i <= group.len(),
                forall|l: int, i: int|
                    0 <= l < k && 0 <= i < groups[l].len() ==> (#[trigger] groups[l][i]) < rows,
                forall|h: int| 0 <= h < i ==> (#[trigger] groups[k as int][h]) < rows,
            decreases group.len() - i,
        {
            if group[i] >= rows {
                assert(groups[k as int][i as int] >= rows);
                return false;
            }
            i = i + 1;
        }
        k = k + 1;
    }
    true
}

/// The mean of coordinate `j` over the rows of a group, rounded down.
pub(crate) fn group_mean(features: &Matrix, group: &Vec<usize>, j: usize) -> (m: i32)
    requires
        features.wf(),
        j < features.cols(),
        group@.len() > 0,
        forall|i: int| 0 <= i < group@.len() ==> (#[trigger] group@[i]) < features.rows(),
    ensures
        m == mean(features@, group@, j as int),
{
    let n = group.len();
    let mut shifted: u128 = 0;
    let mut i: usize = 0;
    while i < n
        invariant
            features.wf(),
            j < features.cols(),
            n == group@.len(),
            forall|i: int| 0 <= i < group@.len() ==> (#[trigger] group@[i]) < features.rows(),
            0 <= i <= n,
            shifted == coordinate_sum(features@, group@, j as int, i as nat) + i * 0x8000_0000,
            shifted <= i * 0xFFFF_FFFF,
        decreases n - i,
    {
        let cell = features.raw_get(group[i], j);
        let lifted: u128 = (cell as i64 + 0x8000_0000i64) as u128;
        shifted = shifted + lifted;
        i = i + 1;
    }
    let quotient: u128 = shifted / (n as u128);
    proof {
        let total = coordinate_sum(features@, group@, j as int, n as nat);
        let rest = (shifted % (n as u128)) as int;
        let count = n as int;
        let q = quotient as int;
        assert(shifted == q * count + rest && q <= 0xFFFF_FFFF) by (nonlinear_arith)
            requires
                count > 0,
                q == shifted as int / count,
                rest == shifted as int % count,
                shifted <= count * 0xFFFF_FFFF,
        ;
        assert(total == (q - 0x8000_0000) * count + rest) by (nonlinear_arith)
            requires
                shifted == q * count + rest,
                shifted == total + count * 0x8000_0000,
        ;
        lemma_fundamental_div_mod_converse(total, count, q - 0x8000_0000, rest);
    }
    (quotient as i64 - 0x8000_0000i64) as i32
}

/// Copies the first column of `column` into column `k` of `centroids` and
/// reports `true`. Where `k` names no column, `column` has no column, or
/// the two differ in their number of rows, nothing changes and the answer
/// is `false`.
pub fn place_column(centroids: &mut Matrix, k: usize, column: &Matrix) -> (done: bool)
    ensures
        done <==> k < old(centroids).cols() && column.cols() >= 1 && column.rows() == old(
            centroids,
        ).rows(),
        final(centroids).rows() == old(centroids).rows(),
        final(centroids).cols() == old(centroids).cols(),
        final(centroids).wf(),
        !done ==> final(centroids)@ == old(centroids)@,
        done ==> forall|j: int, c: int|
            0 <= j < old(centroids).rows() && 0 <= c < old(centroids).cols() ==> (
            #[trigger] final(centroids)@[j][c]) == if c == k {
                column@[j][0]
            } else {
                old(centroids)@[j][c]
            },
{
    let (dims, count) = centroids.shape();
    let (rows, width) = column.shape();
    if k >= count || width == 0 || rows != dims {
        return false;
    }
    let mut j: usize = 0;
    while j < dims
        invariant
            column.wf(),
            column.rows() == dims,
            column.cols() >= 1,
            centroids.wf(),
            centroids.rows() == dims,
            centroids.cols() == count,
            old(centroids).wf(),
            old(centroids).rows() == dims,
            old(centroids).cols() == count,
            k < count,
            0 <= j <= dims,
            forall|h: int, c: int|
                0 <= h < dims && 0 <= c < count ==> (#[trigger] centroids@[h][c]) == if c == k && h
                    < j {
                    column@[h][0]
                } else {
                    old(centroids)@[h][c]
                },
        decreases dims - j,
    {
        let cell = column.raw_get(j, 0);
        centroids.raw_set(j, k, cell);
        j = j + 1;
    }
    true
}

/// Recomputes the centroids from a cluster assignment: the column of each
/// group that holds rows becomes the mean of those rows, rounded down, and
/// the column of each empty group is drawn afresh from the half-open unit
/// interval.
pub fn compute_centroids_from_cluster(
    cluster: &Cluster,
    features: &Matrix,
    rng: &mut ndarray_rand::rand::rngs::StdRng,
) -> (out: Result<Matrix, KMeansError>)
    ensures
        out == Err::<Matrix, KMeansError>(KMeansError::InvalidArgument) <==> !updatable(
            groups_of(*cluster),
            *features,
        ),
        out == Err::<Matrix, KMeansError>(KMeansError::TooLarge) <==> updatable(
            groups_of(*cluster),
            *features,
        ) && !fits(features.cols(), cluster@.len() as nat),
        out.is_ok() ==> out.unwrap().rows() == features.cols() && out.unwrap().cols()
            == cluster@.len() && is_update(
            out.unwrap()@,
            groups_of(*cluster),
            features@,
            features.cols(),
        ),
{
    let (rows, dims) = features.shape();
    let count = cluster.len();
    if count == 0 || rows == 0 || dims == 0 || !indices_valid(cluster, rows) {
        return Err(KMeansError::InvalidArgument);
    }
    if !can_hold(dims, count) {
        return Err(KMeansError::TooLarge);
    }
    let ghost groups = groups_of(*cluster);
    let mut centroids = Matrix::raw_zeros(dims, count);
    let mut k: usize = 0;
    while k < count
        invariant
            features.wf(),
            features.rows() == rows,
            features.cols() == dims,
            dims >= 1,
            dims <= usize::MAX / 8,
            count == cluster@.len(),
            groups == groups_of(*cluster),
            rows_in_range(groups, rows as nat),
            centroids.wf(),
            centroids.rows() == dims,
            centroids.cols() == count,
            0 <= k <= count,
            forall|j: int, c: int|
                0 <= j < dims && 0 <= c < k ==> if groups[c].len() > 0 {
                    (#[trigger] centroids@[j][c]) == mean(features@, groups[c], j)
                } else {
                    0 <= centroids@[j][c] < ONE
                },
        decreases count - k,
    {
        let group = &cluster[k];
        assert(group@ == groups[k as int]);
        if group.len() == 0 {
            let column = Matrix::raw_random(dims, 1, rng);
            let ghost before = centroids@;
            place_column(&mut centroids, k, &column);
            assert forall|j: int, c: int| 0 <= j < dims && 0 <= c < k + 1 implies if groups[c].len()
                > 0 {
                (#[trigger] centroids@[j][c]) == mean(features@, groups[c], j)
            } else {
                0 <= centroids@[j][c] < ONE
            } by {
                if c == k {
                    assert(centroids@[j][c] == column@[j][0]);
                } else {
                    assert(centroids@[j][c] == before[j][c]);
                }
            }
        } else {
            assert forall|i: int| 0 <= i < group@.len() implies (#[trigger] group@[i]) < rows by {
                assert(groups[k as int][i] < rows);
            }
            let mut j: usize = 0;
            while j < dims
                invariant
                    features.wf(),
                    features.rows() == rows,
                    features.cols() == dims,
                    count == cluster@.len(),
                    groups == groups_of(*cluster),
                    centroids.wf(),
                    centroids.rows() == dims,
                    centroids.cols() == count,
                    0 <= k < count,
                    group@ == groups[k as int],
                    group@.len() > 0,
                    forall|i: int| 0 <= i < group@.len() ==> (#[trigger] group@[i]) < rows,
                    0 <= j <= dims,
                    forall|h: int, c: int|
                        0 <= h < dims && 0 <= c < k ==> if groups[c].len() > 0 {
                            (#[trigger] centroids@[h][c]) == mean(features@, groups[c], h)
                        } else {
                            0 <= centroids@[h][c] < ONE
                        },
                    forall|h: int|
                        0 <= h < j ==> (#[trigger] centroids@[h][k as int]) == mean(
                            features@,
                            groups[k as int],
                            h,
                        ),
                decreases dims - j,
            {
                let m = group_mean(features, group, j);
                centroids.raw_set(j, k, m);
                j = j + 1;
            }
        }
        k = k + 1;
    }
    Ok(centroids)
}

} // verus!
