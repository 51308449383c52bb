use vstd::prelude::*;
use crate::assign::{group_of, is_grouping, labels};
use crate::control::{centroids_before, halts, is_run, round_follows, Round};
use crate::matrix::is_table;
use crate::update::{is_update, mean};

verus! {

/// None of the first `count` groups of the round is empty.
pub open spec fn all_groups_filled(round: Round, count: nat) -> bool {
    forall|k: int| 0 <= k < count ==> (#[trigger] round.groups[k]).len() > 0
}

/// An iteration in which no group runs empty is a function of the
/// centroids it starts from: two iterations from the same centroids give
/// the same groups, the same total error and the same new centroids.
pub proof fn lemma_round_is_determined(
    before: Seq<Seq<i32>>,
    one: Round,
    other: Round,
    features: Seq<Seq<i32>>,
    rows: nat,
    dims: nat,
    count: nat,
)
    requires
        rows >= 1,
        dims >= 1,
        is_table(features, rows, dims),
        round_follows(before, one, features, count),
        round_follows(before, other, features, count),
        all_groups_filled(one, count),
    ensures
        one == other,
{
    let marks = labels(before, features);
    assert(features[0].len() == dims);
    assert forall|k: int| 0 <= k < count implies #[trigger] one.groups[k] == other.groups[k] by {
        assert(one.groups[k] == group_of(marks, k, marks.len()));
        assert(other.groups[k] == group_of(marks, k, marks.len()));
    }
    assert(one.groups =~= other.groups);
    assert forall|j: int| 0 <= j < dims implies #[trigger] one.centroids[j] == other.centroids[j] by {
        assert forall|k: int| 0 <= k < count implies #[trigger] one.centroids[j][k]
            == other.centroids[j][k] by {
            assert(one.groups[k].len() > 0);
            assert(one.centroids[j][k] == mean(features, one.groups[k], j));
            assert(other.centroids[j][k] == mean(features, other.groups[k], j));
        }
        assert(one.centroids[j] =~= other.centroids[j]);
    }
    assert(one.centroids =~= other.centroids);
}

proof fn lemma_runs_agree_upto(
    init: Seq<Seq<i32>>,
    one: Seq<Round>,
    other: Seq<Round>,
    features: Seq<Seq<i32>>,
    rows: nat,
    dims: nat,
    count: nat,
    cap: nat,
    upto: nat,
)
    requires
        rows >= 1,
        dims >= 1,
        is_table(features, rows, dims),
        is_run(init, one, features, count, cap),
        is_run(init, other, features, count, cap),
        forall|i: int| 0 <= i < one.len() ==> all_groups_filled(#[trigger] one[i], count),
        upto <= one.len(),
        upto <= other.len(),
    ensures
        forall|i: int| 0 <= i < upto ==> #[trigger] one[i] == other[i],
    decreases upto,
{
    if upto > 0 {
        let i = upto - 1;
        lemma_runs_agree_upto(init, one, other, features, rows, dims, count, cap, i as nat);
        if i > 0 {
            assert(one[i - 1] == other[i - 1]);
        }
        assert(centroids_before(init, one, i) == centroids_before(init, other, i));
        assert(round_follows(centroids_before(init, one, i), one[i], features, count));
        assert(round_follows(centroids_before(init, other, i), other[i], features, count));
        lemma_round_is_determined(
            centroids_before(init, one, i),
            one[i],
            other[i],
            features,
            rows,
            dims,
            count,
        );
    }
}

/// A run in which no group runs empty is a function of its first
/// centroids: two runs from the same centroids, on the same features and
/// under the same cap, take the same number of iterations and agree in
/// every one of them.
pub proof fn lemma_run_is_determined(
    init: Seq<Seq<i32>>,
    one: Seq<Round>,
    other: Seq<Round>,
    features: Seq<Seq<i32>>,
    rows: nat,
    dims: nat,
    count: nat,
    cap: nat,
)
    requires
        rows >= 1,
        dims >= 1,
        is_table(features, rows, dims),
        is_run(init, one, features, count, cap),
        is_run(init, other, features, count, cap),
        forall|i: int| 0 <= i < one.len() ==> all_groups_filled(#[trigger] one[i], count),
    ensures
        one == other,
{
    let shared = if one.len() <= other.len() {
        one.len()
    } else {
        other.len()
    };
    lemma_runs_agree_upto(init, one, other, features, rows, dims, count, cap, shared);
    if shared >= 2 {
        assert(one[shared - 1] == other[shared - 1]);
        assert(one[shared - 2] == other[shared - 2]);
        assert(halts(one, shared as int) == halts(other, shared as int));
    }
    if one.len() < other.len() {
        assert(halts(one, shared as int));
        assert(!halts(other, shared as int));
    } else if other.len() < one.len() {
        assert(halts(other, shared as int));
        assert(!halts(one, shared as int));
    }
    assert(one =~= other);
}

} // verus!
