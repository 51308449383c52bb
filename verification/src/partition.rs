use vstd::prelude::*;
use crate::assign::{group_of, is_grouping};

verus! {

/// The number of row indices held by the first `count` groups.
pub open spec fn size_upto(groups: Seq<Seq<usize>>, count: nat) -> nat
    decreases count,
{
    if count == 0 {
        0
    } else {
        size_upto(groups, (count - 1) as nat) + groups[count - 1].len()
    }
}

/// The number of row indices held by all groups together.
pub open spec fn total_size(groups: Seq<Seq<usize>>) -> nat {
    size_upto(groups, groups.len())
}

/// Every label names one of `count` groups.
pub open spec fn labels_within(labels: Seq<int>, count: nat) -> bool {
    forall|r: int| 0 <= r < labels.len() ==> 0 <= #[trigger] labels[r] < count
}

/// Row `r` stands somewhere in some group.
pub open spec fn has_row(groups: Seq<Seq<usize>>, r: int) -> bool {
    exists|k: int, i: int|
        0 <= k < groups.len() && 0 <= i < groups[k].len() && (#[trigger] groups[k][i]) == r
}

/// The groups split the row indices below `rows`: each entry is such an
/// index, each index stands at exactly one place in exactly one group, and
/// the groups hold `rows` entries in all.
pub open spec fn is_partition(groups: Seq<Seq<usize>>, rows: nat) -> bool {
    &&& forall|k: int, i: int|
        0 <= k < groups.len() && 0 <= i < groups[k].len() ==> (#[trigger] groups[k][i]) < rows
    &&& forall|r: int| 0 <= r < rows ==> #[trigger] has_row(groups, r)
    &&& forall|k: int, i: int, l: int, j: int|
        0 <= k < groups.len() && 0 <= i < groups[k].len() && 0 <= l < groups.len() && 0 <= j
            < groups[l].len() && (#[trigger] groups[k][i]) == (#[trigger] groups[l][j]) ==> k == l
            && i == j
    &&& total_size(groups) == rows
}

/// A group holds rows below the bound that carry its label, in strictly
/// ascending order, and it holds every such row.
pub proof fn lemma_group_contents(labels: Seq<int>, k: int, upto: nat)
    requires
        upto <= labels.len(),
        upto <= usize::MAX,
    ensures
        forall|i: int|
            0 <= i < group_of(labels, k, upto).len() ==> {
                let row = #[trigger] group_of(labels, k, upto)[i];
                row < upto && labels[row as int] == k
            },
        forall|i: int, j: int|
            0 <= i < j < group_of(labels, k, upto).len() ==> (#[trigger] group_of(labels, k, upto)[i])
                < (#[trigger] group_of(labels, k, upto)[j]),
        forall|r: int|
            0 <= r < upto && labels[r] == k ==> exists|i: int|
                0 <= i < group_of(labels, k, upto).len() && #[trigger] group_of(labels, k, upto)[i]
                    == r,
        group_of(labels, k, upto).len() <= upto,
    decreases upto,
{
    if upto > 0 {
        let before = (upto - 1) as nat;
        lemma_group_contents(labels, k, before);
        let earlier = group_of(labels, k, before);
        let now = group_of(labels, k, upto);
        if labels[upto - 1] == k {
            assert(now == earlier.push((upto - 1) as usize));
            assert(now[earlier.len() as int] == (upto - 1) as usize);
            assert forall|r: int| 0 <= r < upto && labels[r] == k implies exists|i: int|
                0 <= i < now.len() && #[trigger] now[i] == r by {
                if r == upto - 1 {
                    assert(now[earlier.len() as int] == r);
                } else {
                    let i = choose|i: int| 0 <= i < earlier.len() && #[trigger] earlier[i] == r;
                    assert(now[i] == r);
                }
            }
        } else {
            assert(now == earlier);
        }
    }
}

/// The sizes of the first `count` groups of a labelling, added up.
pub open spec fn sizes_sum(labels: Seq<int>, count: nat, upto: nat) -> nat
    decreases count,
{
    if count == 0 {
        0
    } else {
        sizes_sum(labels, (count - 1) as nat, upto) + group_of(labels, count - 1, upto).len()
    }
}

proof fn lemma_sizes_step(labels: Seq<int>, count: nat, upto: nat)
    requires
        upto < labels.len(),
    ensures
        sizes_sum(labels, count, upto + 1) == sizes_sum(labels, count, upto) + if 0 <= labels[upto as int]
            < count {
            1nat
        } else {
            0nat
        },
    decreases count,
{
    if count > 0 {
        lemma_sizes_step(labels, (count - 1) as nat, upto);
    }
}

/// When every label names a group, the groups of the rows below `upto`
/// hold `upto` rows in all.
pub proof fn lemma_sizes_total(labels: Seq<int>, count: nat, upto: nat)
    requires
        upto <= labels.len(),
        labels_within(labels, count),
    ensures
        sizes_sum(labels, count, upto) == upto,
    decreases upto,
{
    if upto == 0 {
        lemma_sizes_empty(labels, count);
    } else {
        lemma_sizes_total(labels, count, (upto - 1) as nat);
        lemma_sizes_step(labels, count, (upto - 1) as nat);
    }
}

/// Before any row is looked at, every group is empty.
pub proof fn lemma_sizes_empty(labels: Seq<int>, count: nat)
    ensures
        sizes_sum(labels, count, 0) == 0,
    decreases count,
{
    if count > 0 {
        lemma_sizes_empty(labels, (count - 1) as nat);
    }
}

proof fn lemma_size_matches(groups: Seq<Seq<usize>>, labels: Seq<int>, count: nat)
    requires
        count <= groups.len(),
        forall|k: int| 0 <= k < count ==> #[trigger] groups[k] == group_of(labels, k, labels.len()),
    ensures
        size_upto(groups, count) == sizes_sum(labels, count, labels.len()),
    decreases count,
{
    if count > 0 {
        lemma_size_matches(groups, labels, (count - 1) as nat);
    }
}

/// Grouping rows by label splits the rows: every row index appears in
/// exactly one group, exactly once, and the group sizes add up to the
/// number of rows.
pub proof fn lemma_grouping_is_partition(groups: Seq<Seq<usize>>, labels: Seq<int>, count: nat)
    requires
        is_grouping(groups, labels, count),
        labels_within(labels, count),
        labels.len() <= usize::MAX,
    ensures
        is_partition(groups, labels.len()),
{
    let rows = labels.len();
    assert forall|k: int, i: int| 0 <= k < groups.len() && 0 <= i < groups[k].len() implies (
    #[trigger] groups[k][i]) < rows by {
        lemma_group_contents(labels, k, rows);
    }
    assert forall|r: int| 0 <= r < rows implies #[trigger] has_row(groups, r) by {
        let k = labels[r];
        lemma_group_contents(labels, k, rows);
        let i = choose|i: int|
            0 <= i < group_of(labels, k, rows).len() && #[trigger] group_of(labels, k, rows)[i] == r;
        assert(groups[k][i] == r);
    }
    assert forall|k: int, i: int, l: int, j: int|
        0 <= k < groups.len() && 0 <= i < groups[k].len() && 0 <= l < groups.len() && 0 <= j
            < groups[l].len() && (#[trigger] groups[k][i]) == (#[trigger] groups[l][j]) implies k
        == l && i == j by {
        lemma_group_contents(labels, k, rows);
        lemma_group_contents(labels, l, rows);
        assert(labels[groups[k][i] as int] == k);
        assert(labels[groups[l][j] as int] == l);
        if i < j {
            assert(groups[k][i] < groups[k][j]);
        } else if j < i {
            assert(groups[k][j] < groups[k][i]);
        }
    }
    lemma_size_matches(groups, labels, count);
    lemma_sizes_total(labels, count, rows);
}

} // verus!
