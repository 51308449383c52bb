use vstd::prelude::*;
use crate::assign::{group_of, is_grouping, labels, total_error};
use crate::control::{centroids_before, halts, is_run, round_follows, settled, Round};
use crate::descent::lemma_error_is_not_negative;
use crate::distance::centroid_count;
use crate::matrix::is_table;
use crate::partition::{labels_within, lemma_sizes_total, sizes_sum};
use crate::update::{is_update, mean};

verus! {

/// With one centroid every row carries label zero.
proof fn lemma_single_labels(centroids: Seq<Seq<i32>>, features: Seq<Seq<i32>>)
    requires
        centroid_count(centroids) == 1,
    ensures
        labels(centroids, features) == Seq::new(features.len(), |r: int| 0int),
{
    assert(labels(centroids, features) =~= Seq::new(features.len(), |r: int| 0int));
}

/// With one cluster, an iteration yields the same groups and the same
/// centroids whatever centroids it started from.
proof fn lemma_single_round_is_fixed(
    one: Seq<Seq<i32>>,
    other: Seq<Seq<i32>>,
    first: Round,
    second: Round,
    features: Seq<Seq<i32>>,
    rows: nat,
    dims: nat,
)
    requires
        rows >= 1,
        dims >= 1,
        is_table(features, rows, dims),
        centroid_count(one) == 1,
        centroid_count(other) == 1,
        round_follows(one, first, features, 1),
        round_follows(other, second, features, 1),
    ensures
        first.groups == second.groups,
        first.centroids == second.centroids,
{
    lemma_single_labels(one, features);
    lemma_single_labels(other, features);
    let marks = labels(one, features);
    assert(first.groups[0] == group_of(marks, 0, marks.len()));
    assert(second.groups[0] == group_of(marks, 0, marks.len()));
    assert(first.groups =~= second.groups);
    assert(labels_within(marks, 1));
    lemma_sizes_total(marks, 1, rows);
    assert(sizes_sum(marks, 1, rows) == sizes_sum(marks, 0, rows) + group_of(marks, 0, rows).len());
    assert(first.groups[0].len() == rows);
    assert(features[0].len() == dims);
    assert forall|j: int| 0 <= j < dims implies #[trigger] first.centroids[j]
        == second.centroids[j] by {
        assert(first.centroids[j][0] == mean(features, first.groups[0], j));
        assert(second.centroids[j][0] == mean(features, second.groups[0], j));
        assert(first.centroids[j] =~= second.centroids[j]);
    }
    assert(first.centroids =~= second.centroids);
}

/// With a single cluster a run is short. Every iteration after the first
/// starts from the mean of all rows and so meets the same total error;
/// the error has therefore settled after the third iteration at the
/// latest. The run ends after exactly two iterations when the cap allows
/// two and the error of the second has settled against that of the first
/// (it is zero, or the first was within one percent of it); it ends after
/// exactly three when the cap allows three and the second has not settled.
pub proof fn lemma_single_cluster_run_is_short(
    init: Seq<Seq<i32>>,
    rounds: Seq<Round>,
    features: Seq<Seq<i32>>,
    rows: nat,
    dims: nat,
    cap: nat,
)
    requires
        rows >= 1,
        dims >= 1,
        is_table(features, rows, dims),
        is_run(init, rounds, features, 1, cap),
    ensures
        rounds.len() <= 3,
        rounds.len() == 3 ==> rounds[2].error == rounds[1].error,
        cap >= 2 ==> rounds.len() >= 2,
        cap >= 2 && settled(rounds[0].error, rounds[1].error) ==> rounds.len() == 2,
        cap >= 3 && !settled(rounds[0].error, rounds[1].error) ==> rounds.len() == 3,
{
    assert(features[0].len() == dims);
    assert(init[0].len() == 1);
    if rounds.len() >= 2 {
        assert(halts(rounds, 2) == settled(rounds[0].error, rounds[1].error));
    }
    if rounds.len() >= 3 {
        let start = centroids_before(init, rounds, 0);
        let mid = centroids_before(init, rounds, 1);
        let late = centroids_before(init, rounds, 2);
        assert(round_follows(start, rounds[0], features, 1));
        assert(round_follows(mid, rounds[1], features, 1));
        assert(round_follows(late, rounds[2], features, 1));
        assert(mid[0].len() == 1);
        lemma_single_round_is_fixed(start, mid, rounds[0], rounds[1], features, rows, dims);
        assert(late == mid);
        assert(rounds[2].error == rounds[1].error);
        lemma_error_is_not_negative(mid, features, rows);
        assert(rounds[1].error == total_error(mid, features));
        assert(halts(rounds, 3));
    }
}

} // verus!
