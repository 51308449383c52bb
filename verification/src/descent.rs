use vstd::prelude::*;
use crate::assign::{error_upto, group_of, is_grouping, labels, lemma_labels_within, total_error};
use crate::control::{round_follows, Round};
use crate::distance::{
    centroid_count, distance, lemma_nearest_is_first_minimum, nearest, partial_distance, square,
};
use crate::matrix::is_table;
use crate::partition::{labels_within, lemma_sizes_total, sizes_sum};
use crate::update::{coordinate_sum, is_update, mean};

verus! {

/// The sum over the rows below `upto` of the squared distance of each row
/// to the centroid that `marks` gives it.
pub open spec fn cost_upto(
    centroids: Seq<Seq<i32>>,
    features: Seq<Seq<i32>>,
    marks: Seq<int>,
    upto: nat,
) -> int
    decreases upto,
{
    if upto == 0 {
        0
    } else {
        cost_upto(centroids, features, marks, (upto - 1) as nat) + distance(
            centroids,
            marks[upto - 1],
            features,
            upto - 1,
        )
    }
}

/// The sum over the first `upto` rows of a group of the squared gap
/// between `a` and coordinate `j` of the row.
pub open spec fn spread(features: Seq<Seq<i32>>, group: Seq<usize>, j: int, a: int, upto: nat) -> int
    decreases upto,
{
    if upto == 0 {
        0
    } else {
        spread(features, group, j, a, (upto - 1) as nat) + square(
            a - features[group[upto - 1] as int][j],
        )
    }
}

/// The sum over the first `upto` rows of a group of the square of
/// coordinate `j`.
pub open spec fn squares_sum(features: Seq<Seq<i32>>, group: Seq<usize>, j: int, upto: nat) -> int
    decreases upto,
{
    if upto == 0 {
        0
    } else {
        squares_sum(features, group, j, (upto - 1) as nat) + square(
            features[group[upto - 1] as int][j] as int,
        )
    }
}

/// The cost of a group under centroid `k`, in the first `dims` coordinates.
pub open spec fn within(
    centroids: Seq<Seq<i32>>,
    features: Seq<Seq<i32>>,
    group: Seq<usize>,
    k: int,
    dims: nat,
) -> int
    decreases dims,
{
    if dims == 0 {
        0
    } else {
        within(centroids, features, group, k, (dims - 1) as nat) + spread(
            features,
            group,
            dims - 1,
            centroids[dims - 1][k] as int,
            group.len(),
        )
    }
}

/// The cost of the first `count` groups of a labelling of the rows below
/// `upto`, each under its own centroid.
pub open spec fn grouped(
    centroids: Seq<Seq<i32>>,
    features: Seq<Seq<i32>>,
    marks: Seq<int>,
    count: nat,
    dims: nat,
    upto: nat,
) -> int
    decreases count,
{
    if count == 0 {
        0
    } else {
        grouped(centroids, features, marks, (count - 1) as nat, dims, upto) + within(
            centroids,
            features,
            group_of(marks, count - 1, upto),
            count - 1,
            dims,
        )
    }
}

proof fn lemma_error_is_cost(centroids: Seq<Seq<i32>>, features: Seq<Seq<i32>>, upto: nat)
    requires
        upto <= features.len(),
    ensures
        error_upto(centroids, features, upto) == cost_upto(
            centroids,
            features,
            labels(centroids, features),
            upto,
        ),
    decreases upto,
{
    if upto > 0 {
        lemma_error_is_cost(centroids, features, (upto - 1) as nat);
    }
}

/// The assignment step is the best assignment for its centroids: giving
/// the rows to centroids in any other way costs at least the total error.
pub proof fn lemma_error_is_least_cost(
    centroids: Seq<Seq<i32>>,
    features: Seq<Seq<i32>>,
    marks: Seq<int>,
    upto: nat,
)
    requires
        upto <= marks.len(),
        centroid_count(centroids) >= 1,
        labels_within(marks, centroid_count(centroids)),
    ensures
        error_upto(centroids, features, upto) <= cost_upto(centroids, features, marks, upto),
    decreases upto,
{
    if upto > 0 {
        lemma_error_is_least_cost(centroids, features, marks, (upto - 1) as nat);
        lemma_nearest_is_first_minimum(centroids, features, upto - 1, centroid_count(centroids));
        let k = marks[upto - 1];
        assert(0 <= k < centroid_count(centroids));
        assert(distance(centroids, nearest(centroids, features, upto - 1), features, upto - 1)
            <= distance(centroids, k, features, upto - 1));
    }
}

proof fn lemma_spread_expands(features: Seq<Seq<i32>>, group: Seq<usize>, j: int, a: int, upto: nat)
    ensures
        spread(features, group, j, a, upto) == upto * (a * a) - 2 * a * coordinate_sum(
            features,
            group,
            j,
            upto,
        ) + squares_sum(features, group, j, upto),
    decreases upto,
{
    if upto > 0 {
        let before = (upto - 1) as nat;
        lemma_spread_expands(features, group, j, a, before);
        let v = features[group[upto - 1] as int][j] as int;
        let s = coordinate_sum(features, group, j, before);
        let q = squares_sum(features, group, j, before);
        assert(before * (a * a) - 2 * a * s + q + square(a - v) == upto * (a * a) - 2 * a * (s + v) + (q
            + square(v))) by (nonlinear_arith)
            requires
                upto == before + 1,
        ;
    } else {
        let s = coordinate_sum(features, group, j, upto);
        assert(upto * (a * a) - 2 * a * s == 0) by (nonlinear_arith)
            requires
                upto == 0,
                s == 0,
        ;
    }
}

/// The rounded-down mean is, up to rounding, the best single value for a
/// group: no whole number has a spread that is smaller by as much as the
/// number of rows in the group.
pub proof fn lemma_mean_is_nearly_best(features: Seq<Seq<i32>>, group: Seq<usize>, j: int, a: int)
    requires
        group.len() > 0,
    ensures
        spread(features, group, j, mean(features, group, j), group.len()) <= spread(
            features,
            group,
            j,
            a,
            group.len(),
        ) + group.len(),
{
    let n = group.len() as int;
    let s = coordinate_sum(features, group, j, group.len());
    let q = squares_sum(features, group, j, group.len());
    let m = mean(features, group, j);
    let rest = s % n;
    let at_mean = spread(features, group, j, m, group.len());
    let at_a = spread(features, group, j, a, group.len());
    lemma_spread_expands(features, group, j, m, group.len());
    lemma_spread_expands(features, group, j, a, group.len());
    assert(s == n * m + rest && 0 <= rest < n) by (nonlinear_arith)
        requires
            n > 0,
            m == s / n,
            rest == s % n,
    ;
    assert(n * at_mean == rest * rest + n * q - s * s) by (nonlinear_arith)
        requires
            at_mean == n * (m * m) - 2 * m * s + q,
            s == n * m + rest,
    ;
    assert(n * at_a == (n * a - s) * (n * a - s) + n * q - s * s) by (nonlinear_arith)
        requires
            at_a == n * (a * a) - 2 * a * s + q,
    ;
    assert((n * a - s) * (n * a - s) >= 0) by (nonlinear_arith);
    assert(rest * rest < n * n) by (nonlinear_arith)
        requires
            0 <= rest < n,
    ;
    assert(at_mean - at_a < n) by (nonlinear_arith)
        requires
            n > 0,
            n * at_mean - n * at_a < n * n,
    ;
}

proof fn lemma_spread_of_prefix(
    features: Seq<Seq<i32>>,
    group: Seq<usize>,
    row: usize,
    j: int,
    a: int,
    upto: nat,
)
    requires
        upto <= group.len(),
    ensures
        spread(features, group.push(row), j, a, upto) == spread(features, group, j, a, upto),
    decreases upto,
{
    if upto > 0 {
        lemma_spread_of_prefix(features, group, row, j, a, (upto - 1) as nat);
        assert(group.push(row)[upto - 1] == group[upto - 1]);
    }
}

proof fn lemma_within_push(
    centroids: Seq<Seq<i32>>,
    features: Seq<Seq<i32>>,
    group: Seq<usize>,
    row: usize,
    k: int,
    dims: nat,
)
    ensures
        within(centroids, features, group.push(row), k, dims) == within(
            centroids,
            features,
            group,
            k,
            dims,
        ) + partial_distance(centroids, k, features, row as int, dims),
    decreases dims,
{
    if dims > 0 {
        lemma_within_push(centroids, features, group, row, k, (dims - 1) as nat);
        let a = centroids[dims - 1][k] as int;
        lemma_spread_of_prefix(features, group, row, dims - 1, a, group.len());
        assert(group.push(row).len() == group.len() + 1);
        assert(group.push(row)[group.len() as int] == row);
    }
}

proof fn lemma_within_empty(centroids: Seq<Seq<i32>>, features: Seq<Seq<i32>>, k: int, dims: nat)
    ensures
        within(centroids, features, Seq::<usize>::empty(), k, dims) == 0,
    decreases dims,
{
    if dims > 0 {
        lemma_within_empty(centroids, features, k, (dims - 1) as nat);
    }
}

proof fn lemma_grouped_start(
    centroids: Seq<Seq<i32>>,
    features: Seq<Seq<i32>>,
    marks: Seq<int>,
    count: nat,
    dims: nat,
)
    ensures
        grouped(centroids, features, marks, count, dims, 0) == 0,
    decreases count,
{
    if count > 0 {
        lemma_grouped_start(centroids, features, marks, (count - 1) as nat, dims);
        lemma_within_empty(centroids, features, count - 1, dims);
    }
}

proof fn lemma_grouped_step(
    centroids: Seq<Seq<i32>>,
    features: Seq<Seq<i32>>,
    marks: Seq<int>,
    count: nat,
    dims: nat,
    upto: nat,
)
    requires
        upto < marks.len(),
        upto < usize::MAX,
    ensures
        grouped(centroids, features, marks, count, dims, upto + 1) == grouped(
            centroids,
            features,
            marks,
            count,
            dims,
            upto,
        ) + if 0 <= marks[upto as int] < count {
            partial_distance(centroids, marks[upto as int], features, upto as int, dims)
        } else {
            0
        },
    decreases count,
{
    if count > 0 {
        lemma_grouped_step(centroids, features, marks, (count - 1) as nat, dims, upto);
        let k = count - 1;
        let earlier = group_of(marks, k, upto);
        if marks[upto as int] == k {
            assert(group_of(marks, k, upto + 1) == earlier.push(upto as usize));
            lemma_within_push(centroids, features, earlier, upto as usize, k, dims);
        } else {
            assert(group_of(marks, k, upto + 1) == earlier);
        }
    }
}

proof fn lemma_grouped_is_cost(
    centroids: Seq<Seq<i32>>,
    features: Seq<Seq<i32>>,
    marks: Seq<int>,
    count: nat,
    upto: nat,
)
    requires
        upto <= marks.len(),
        marks.len() <= usize::MAX,
        labels_within(marks, count),
    ensures
        grouped(centroids, features, marks, count, centroids.len(), upto) == cost_upto(
            centroids,
            features,
            marks,
            upto,
        ),
    decreases upto,
{
    if upto == 0 {
        lemma_grouped_start(centroids, features, marks, count, centroids.len());
    } else {
        lemma_grouped_is_cost(centroids, features, marks, count, (upto - 1) as nat);
        lemma_grouped_step(centroids, features, marks, count, centroids.len(), (upto - 1) as nat);
        assert(0 <= marks[upto - 1] < count);
    }
}

/// Columns of `next` that belong to groups with rows hold the means of
/// those groups.
pub open spec fn holds_means(
    next: Seq<Seq<i32>>,
    features: Seq<Seq<i32>>,
    marks: Seq<int>,
    count: nat,
    dims: nat,
) -> bool {
    forall|j: int, k: int|
        0 <= j < dims && 0 <= k < count && group_of(marks, k, marks.len()).len() > 0 ==> (
        #[trigger] next[j][k]) == mean(features, group_of(marks, k, marks.len()), j)
}

proof fn lemma_within_bound(
    old_centroids: Seq<Seq<i32>>,
    next: Seq<Seq<i32>>,
    features: Seq<Seq<i32>>,
    group: Seq<usize>,
    k: int,
    dims: nat,
)
    requires
        forall|j: int| 0 <= j < dims && group.len() > 0 ==> (#[trigger] next[j][k]) == mean(features, group, j),
    ensures
        within(next, features, group, k, dims) <= within(old_centroids, features, group, k, dims) + dims
            * group.len(),
    decreases dims,
{
    if dims > 0 {
        lemma_within_bound(old_centroids, next, features, group, k, (dims - 1) as nat);
        let j = dims - 1;
        if group.len() > 0 {
            assert(next[j][k] == mean(features, group, j));
            lemma_mean_is_nearly_best(features, group, j, old_centroids[j][k] as int);
        }
        assert(dims * group.len() == (dims - 1) * group.len() + group.len()) by (nonlinear_arith);
    }
}

proof fn lemma_grouped_bound(
    old_centroids: Seq<Seq<i32>>,
    next: Seq<Seq<i32>>,
    features: Seq<Seq<i32>>,
    marks: Seq<int>,
    count: nat,
    total: nat,
    dims: nat,
)
    requires
        count <= total,
        holds_means(next, features, marks, total, dims),
    ensures
        grouped(next, features, marks, count, dims, marks.len()) <= grouped(
            old_centroids,
            features,
            marks,
            count,
            dims,
            marks.len(),
        ) + dims * sizes_sum(marks, count, marks.len()),
    decreases count,
{
    if count > 0 {
        lemma_grouped_bound(old_centroids, next, features, marks, (count - 1) as nat, total, dims);
        let k = count - 1;
        let group = group_of(marks, k, marks.len());
        assert forall|j: int| 0 <= j < dims && group.len() > 0 implies (#[trigger] next[j][k]) == mean(
            features,
            group,
            j,
        ) by {}
        lemma_within_bound(old_centroids, next, features, group, k, dims);
        let fewer = sizes_sum(marks, (count - 1) as nat, marks.len());
        assert(dims * (fewer + group.len()) == dims * fewer + dims * group.len())
            by (nonlinear_arith);
    }
}

/// A total error is never negative.
pub proof fn lemma_error_is_not_negative(centroids: Seq<Seq<i32>>, features: Seq<Seq<i32>>, upto: nat)
    ensures
        error_upto(centroids, features, upto) >= 0,
    decreases upto,
{
    if upto > 0 {
        lemma_error_is_not_negative(centroids, features, (upto - 1) as nat);
        crate::distance::lemma_partial_distance_bounds(
            centroids,
            nearest(centroids, features, upto - 1),
            features,
            upto - 1,
            centroids.len(),
        );
    }
}

/// From one iteration to the next the total error does not rise, but for
/// rounding: an update step followed by an assignment step leaves a total
/// error that exceeds the one before by at most one fixed-point step
/// squared for each cell of the feature matrix. This holds whether or not
/// a group was empty and its centroid drawn afresh.
pub proof fn lemma_error_descends(
    before: Seq<Seq<i32>>,
    first: Round,
    second: Round,
    features: Seq<Seq<i32>>,
    rows: nat,
    dims: nat,
    count: nat,
)
    requires
        rows >= 1,
        dims >= 1,
        count >= 1,
        is_table(features, rows, dims),
        is_table(before, dims, count),
        round_follows(before, first, features, count),
        round_follows(first.centroids, second, features, count),
    ensures
        second.error <= first.error + rows * dims,
{
    let marks = labels(before, features);
    let next = first.centroids;
    assert(rows <= usize::MAX) by (nonlinear_arith)
        requires
            rows * dims <= usize::MAX,
            dims >= 1,
    ;
    assert(features[0].len() == dims);
    assert(before[0].len() == count);
    assert(next[0].len() == count);
    lemma_labels_within(before, features);
    lemma_error_is_cost(before, features, rows);
    lemma_grouped_is_cost(before, features, marks, count, rows);
    lemma_error_is_least_cost(next, features, marks, rows);
    lemma_grouped_is_cost(next, features, marks, count, rows);
    assert(holds_means(next, features, marks, count, dims)) by {
        assert forall|j: int, k: int|
            0 <= j < dims && 0 <= k < count && group_of(marks, k, marks.len()).len()
                > 0 implies (#[trigger] next[j][k]) == mean(
            features,
            group_of(marks, k, marks.len()),
            j,
        ) by {
            assert(first.groups[k] == group_of(marks, k, marks.len()));
        }
    }
    lemma_grouped_bound(before, next, features, marks, count, count, dims);
    lemma_sizes_total(marks, count, rows);
    assert(dims * rows == rows * dims) by (nonlinear_arith);
}

} // verus!
