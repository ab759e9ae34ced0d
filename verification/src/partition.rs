//! Counting and summing over the members of a cluster.
//!
//! A labelling is a sequence of cluster indices, one per record. The members
//! of cluster `c` are the positions that carry the label `c`.

use vstd::prelude::*;

verus! {

/// Every label names one of `k` clusters.
pub open spec fn labels_within(labels: Seq<usize>, k: int) -> bool {
    forall|i: int| 0 <= i < labels.len() ==> (#[trigger] labels[i]) < k
}

/// How many of the first `n` labels equal `c`.
pub open spec fn member_count(labels: Seq<usize>, c: int, n: nat) -> nat
    decreases n,
{
    if n == 0 {
        0
    } else {
        let rest = member_count(labels, c, (n - 1) as nat);
        if labels[n - 1] == c {
            rest + 1
        } else {
            rest
        }
    }
}

/// The number of members of cluster `c`.
pub open spec fn cluster_size(labels: Seq<usize>, c: int) -> nat {
    member_count(labels, c, labels.len())
}

/// The sum of `values` over those of the first `n` positions whose label is
/// `c`.
pub open spec fn member_sum(values: Seq<int>, labels: Seq<usize>, c: int, n: nat) -> int
    decreases n,
{
    if n == 0 {
        0
    } else {
        let rest = member_sum(values, labels, c, (n - 1) as nat);
        if labels[n - 1] == c {
            rest + values[n - 1]
        } else {
            rest
        }
    }
}

/// The sum of `values` over the members of cluster `c`.
pub open spec fn cluster_sum(values: Seq<int>, labels: Seq<usize>, c: int) -> int {
    member_sum(values, labels, c, labels.len())
}

/// A cluster has at most as many members as there are labels.
pub proof fn lemma_member_count_bound(labels: Seq<usize>, c: int, n: nat)
    ensures
        member_count(labels, c, n) <= n,
    decreases n,
{
    if n > 0 {
        lemma_member_count_bound(labels, c, (n - 1) as nat);
    }
}

/// A cluster with a member among the first `n` positions has a positive
/// count.
pub proof fn lemma_member_counted(labels: Seq<usize>, c: int, n: nat, i: int)
    requires
        0 <= i < n,
        labels[i] == c,
    ensures
        member_count(labels, c, n) >= 1,
    decreases n,
{
    if i < n - 1 {
        lemma_member_counted(labels, c, (n - 1) as nat, i);
    }
}

/// A cluster whose count is zero has no member among the first `n`
/// positions.
pub proof fn lemma_empty_cluster_has_no_member(labels: Seq<usize>, c: int, n: nat)
    requires
        member_count(labels, c, n) == 0,
    ensures
        forall|i: int| 0 <= i < n ==> labels[i] != c,
{
    assert forall|i: int| 0 <= i < n implies labels[i] != c by {
        if labels[i] == c {
            lemma_member_counted(labels, c, n, i);
        }
    }
}

/// Where every value lies between `0` and `bound`, the sum over a cluster's
/// members lies between `0` and `bound` times the member count.
pub proof fn lemma_member_sum_bound(
    values: Seq<int>,
    labels: Seq<usize>,
    c: int,
    n: nat,
    bound: int,
)
    requires
        n <= values.len(),
        forall|i: int| 0 <= i < n ==> 0 <= #[trigger] values[i] <= bound,
    ensures
        0 <= member_sum(values, labels, c, n) <= member_count(labels, c, n) * bound,
    decreases n,
{
    if n > 0 {
        lemma_member_sum_bound(values, labels, c, (n - 1) as nat, bound);
        let count = member_count(labels, c, (n - 1) as nat) as int;
        assert((count + 1) * bound == count * bound + bound) by (nonlinear_arith);
        assert(0 <= values[n - 1] <= bound);
    } else {
        assert(0 * bound == 0) by (nonlinear_arith);
    }
}

/// The sizes of the clusters `0..k` add up to `n`, written as a running
/// total: the sum of the sizes of the first `k` clusters.
pub open spec fn total_size(labels: Seq<usize>, k: nat, n: nat) -> nat
    decreases k,
{
    if k == 0 {
        0
    } else {
        total_size(labels, (k - 1) as nat, n) + member_count(labels, k - 1, n)
    }
}

/// Every record belongs to exactly one cluster: where all labels lie below
/// `k`, the sizes of the `k` clusters add up to the number of records.
pub proof fn lemma_sizes_partition(labels: Seq<usize>, k: nat, n: nat)
    requires
        n <= labels.len(),
        labels_within(labels, k as int),
    ensures
        total_size(labels, k, n) == n,
    decreases n,
{
    if n == 0 {
        lemma_total_size_of_none(labels, k);
    } else {
        lemma_sizes_partition(labels, k, (n - 1) as nat);
        lemma_total_size_step(labels, k, n);
    }
}

proof fn lemma_total_size_of_none(labels: Seq<usize>, k: nat)
    ensures
        total_size(labels, k, 0) == 0,
    decreases k,
{
    if k > 0 {
        lemma_total_size_of_none(labels, (k - 1) as nat);
    }
}

proof fn lemma_total_size_step(labels: Seq<usize>, k: nat, n: nat)
    requires
        n >= 1,
    ensures
        total_size(labels, k, n) == total_size(labels, k, (n - 1) as nat) + if labels[n - 1] < k {
            1nat
        } else {
            0nat
        },
    decreases k,
{
    if k > 0 {
        lemma_total_size_step(labels, (k - 1) as nat, n);
    }
}

} // verus!
