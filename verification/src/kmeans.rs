//! The k-means engine: partitions scaled vectors into `k` clusters by
//! alternating assignment and centroid update.
//!
//! Starting centroids are sampled from the vectors at evenly spaced
//! positions, rotated by a seed. Distances are squared Euclidean distances in
//! exact integer arithmetic; ties go to the lowest cluster index. A centroid
//! is the mean of its members, rounded down in fixed point; a cluster without
//! members keeps its centroid.

use vstd::prelude::*;
use vstd::arithmetic::div_mod::{lemma_div_is_ordered, lemma_div_multiples_vanish};
use crate::partition::{
    labels_within, member_count, member_sum, cluster_size, cluster_sum, lemma_member_sum_bound,
};
use crate::record::ClusterError;
use crate::scaler::{FeatureVector, FIXED_ONE};

verus! {

/// Every vector of the sequence lies in the unit square.
pub open spec fn all_wf(vectors: Seq<FeatureVector>) -> bool {
    forall|i: int| 0 <= i < vectors.len() ==> (#[trigger] vectors[i]).wf()
}

/// The squared Euclidean distance of two vectors, in fixed point.
pub open spec fn sq_dist(a: FeatureVector, b: FeatureVector) -> int {
    (a.u - b.u) * (a.u - b.u) + (a.s - b.s) * (a.s - b.s)
}

/// `c` is the index of the centroid nearest to `v`, and the lowest such index
/// where several are equally near.
pub open spec fn is_nearest(v: FeatureVector, centroids: Seq<FeatureVector>, c: int) -> bool {
    &&& 0 <= c < centroids.len()
    &&& forall|j: int|
        0 <= j < centroids.len() ==> sq_dist(v, centroids[c]) <= sq_dist(v, #[trigger] centroids[j])
    &&& forall|j: int| 0 <= j < c ==> sq_dist(v, centroids[c]) < sq_dist(v, #[trigger] centroids[j])
}

/// The index of the centroid nearest to `v`; ties go to the lowest index.
pub open spec fn nearest(v: FeatureVector, centroids: Seq<FeatureVector>) -> int {
    choose|c: int| is_nearest(v, centroids, c)
}

/// The label of every vector: the index of its nearest centroid.
pub open spec fn assignment(vectors: Seq<FeatureVector>, centroids: Seq<FeatureVector>) -> Seq<
    usize,
> {
    Seq::new(vectors.len(), |i: int| nearest(vectors[i], centroids) as usize)
}

/// The first coordinates of `vectors`.
pub open spec fn units_axis(vectors: Seq<FeatureVector>) -> Seq<int> {
    Seq::new(vectors.len(), |i: int| vectors[i].u as int)
}

/// The second coordinates of `vectors`.
pub open spec fn subsidies_axis(vectors: Seq<FeatureVector>) -> Seq<int> {
    Seq::new(vectors.len(), |i: int| vectors[i].s as int)
}

/// The centroid of cluster `c` after an update: the mean of its members,
/// rounded down, or `previous` where the cluster has no member.
pub open spec fn updated_centroid(
    vectors: Seq<FeatureVector>,
    labels: Seq<usize>,
    previous: FeatureVector,
    c: int,
) -> FeatureVector {
    let count = cluster_size(labels, c) as int;
    if count == 0 {
        previous
    } else {
        FeatureVector {
            u: (cluster_sum(units_axis(vectors), labels, c) / count) as u64,
            s: (cluster_sum(subsidies_axis(vectors), labels, c) / count) as u64,
        }
    }
}

/// All centroids after an update.
pub open spec fn updated_centroids(
    vectors: Seq<FeatureVector>,
    labels: Seq<usize>,
    previous: Seq<FeatureVector>,
) -> Seq<FeatureVector> {
    Seq::new(previous.len(), |c: int| updated_centroid(vectors, labels, previous[c], c))
}

/// The position of the vector that starts cluster `c`: `k` positions evenly
/// spaced over `n` vectors, rotated by `seed`.
pub open spec fn seed_position(n: int, k: int, seed: int, c: int) -> int {
    (seed % n + c * n / k) % n
}

/// The starting centroids.
pub open spec fn initial_centroids(vectors: Seq<FeatureVector>, k: int, seed: int) -> Seq<
    FeatureVector,
> {
    Seq::new(k as nat, |c: int| vectors[seed_position(vectors.len() as int, k, seed, c)])
}

/// The outcome of at most `remaining` refinement steps from `centroids`,
/// where `previous` is the labelling of the step before. Each step labels the
/// vectors by their nearest centroid and then updates the centroids; the run
/// ends after the step in which no label changed, or after the last step.
pub open spec fn refine(
    vectors: Seq<FeatureVector>,
    centroids: Seq<FeatureVector>,
    previous: Seq<usize>,
    remaining: nat,
) -> (Seq<usize>, Seq<FeatureVector>)
    decreases remaining,
{
    let labels = assignment(vectors, centroids);
    let next = updated_centroids(vectors, labels, centroids);
    if remaining <= 1 || labels == previous {
        (labels, next)
    } else {
        refine(vectors, next, labels, (remaining - 1) as nat)
    }
}

/// The labels and centroids that k-means yields. Before the first step no
/// vector carries a label.
pub open spec fn fit(vectors: Seq<FeatureVector>, k: int, seed: int, max_iterations: nat) -> (
    Seq<usize>,
    Seq<FeatureVector>,
) {
    refine(vectors, initial_centroids(vectors, k, seed), Seq::empty(), max_iterations)
}

/// Only one index is the nearest, so `nearest` names it.
pub proof fn lemma_nearest_unique(v: FeatureVector, centroids: Seq<FeatureVector>, c: int)
    requires
        is_nearest(v, centroids, c),
    ensures
        nearest(v, centroids) == c,
{
    let d = nearest(v, centroids);
    assert(is_nearest(v, centroids, d));
    if d < c {
        assert(sq_dist(v, centroids[c]) < sq_dist(v, centroids[d]));
        assert(sq_dist(v, centroids[d]) <= sq_dist(v, centroids[c]));
    } else if c < d {
        assert(sq_dist(v, centroids[d]) < sq_dist(v, centroids[c]));
        assert(sq_dist(v, centroids[c]) <= sq_dist(v, centroids[d]));
    }
}

/// Among a non-empty sequence of centroids one is the nearest.
pub proof fn lemma_nearest_exists(v: FeatureVector, centroids: Seq<FeatureVector>)
    requires
        centroids.len() > 0,
    ensures
        is_nearest(v, centroids, nearest(v, centroids)),
    decreases centroids.len(),
{
    if centroids.len() == 1 {
        assert(is_nearest(v, centroids, 0));
    } else {
        let front = centroids.drop_last();
        lemma_nearest_exists(v, front);
        let b = nearest(v, front);
        let last = centroids.len() - 1;
        assert forall|j: int| 0 <= j < last implies centroids[j] == front[j] by {}
        if sq_dist(v, centroids[last]) < sq_dist(v, centroids[b]) {
            assert forall|j: int| 0 <= j < centroids.len() implies sq_dist(v, centroids[last])
                <= sq_dist(v, #[trigger] centroids[j]) by {
                if j < last {
                    assert(sq_dist(v, front[b]) <= sq_dist(v, front[j]));
                }
            }
            assert forall|j: int| 0 <= j < last implies sq_dist(v, centroids[last]) < sq_dist(
                v,
                #[trigger] centroids[j],
            ) by {
                assert(sq_dist(v, front[b]) <= sq_dist(v, front[j]));
            }
            assert(is_nearest(v, centroids, last));
        } else {
            assert forall|j: int| 0 <= j < centroids.len() implies sq_dist(v, centroids[b])
                <= sq_dist(v, #[trigger] centroids[j]) by {
                if j < last {
                    assert(sq_dist(v, front[b]) <= sq_dist(v, front[j]));
                }
            }
            assert forall|j: int| 0 <= j < b implies sq_dist(v, centroids[b]) < sq_dist(
                v,
                #[trigger] centroids[j],
            ) by {
                assert(sq_dist(v, front[b]) < sq_dist(v, front[j]));
            }
            assert(is_nearest(v, centroids, b));
        }
    }
}

/// An assignment gives every vector one label, and every label names one of
/// the centroids.
pub proof fn lemma_assignment_labels(vectors: Seq<FeatureVector>, centroids: Seq<FeatureVector>)
    requires
        centroids.len() > 0,
        centroids.len() <= usize::MAX,
    ensures
        assignment(vectors, centroids).len() == vectors.len(),
        labels_within(assignment(vectors, centroids), centroids.len() as int),
        forall|i: int|
            0 <= i < vectors.len() ==> is_nearest(
                vectors[i],
                centroids,
                #[trigger] assignment(vectors, centroids)[i] as int,
            ),
{
    let labels = assignment(vectors, centroids);
    assert forall|i: int| 0 <= i < vectors.len() implies (#[trigger] labels[i]) < centroids.len()
        && is_nearest(vectors[i], centroids, labels[i] as int) by {
        lemma_nearest_exists(vectors[i], centroids);
    }
}

/// An updated centroid lies in the unit square.
pub proof fn lemma_updated_centroid_wf(
    vectors: Seq<FeatureVector>,
    labels: Seq<usize>,
    previous: FeatureVector,
    c: int,
)
    requires
        all_wf(vectors),
        labels.len() == vectors.len(),
        previous.wf(),
    ensures
        updated_centroid(vectors, labels, previous, c).wf(),
        0 <= cluster_sum(units_axis(vectors), labels, c) <= cluster_size(labels, c) * FIXED_ONE,
        0 <= cluster_sum(subsidies_axis(vectors), labels, c) <= cluster_size(labels, c)
            * FIXED_ONE,
{
    let count = cluster_size(labels, c) as int;
    let one = FIXED_ONE as int;
    let su = cluster_sum(units_axis(vectors), labels, c);
    let ss = cluster_sum(subsidies_axis(vectors), labels, c);
    assert forall|i: int| 0 <= i < labels.len() implies 0 <= #[trigger] units_axis(vectors)[i]
        <= one by {
        assert(vectors[i].wf());
    }
    assert forall|i: int| 0 <= i < labels.len() implies 0 <= #[trigger] subsidies_axis(
        vectors,
    )[i] <= one by {
        assert(vectors[i].wf());
    }
    lemma_member_sum_bound(units_axis(vectors), labels, c, labels.len(), one);
    lemma_member_sum_bound(subsidies_axis(vectors), labels, c, labels.len(), one);
    if count > 0 {
        lemma_mean_bound(su, count, one);
        lemma_mean_bound(ss, count, one);
    }
}

/// The mean of `count` values between `0` and `bound` lies between `0` and
/// `bound`.
pub proof fn lemma_mean_bound(sum: int, count: int, bound: int)
    requires
        count > 0,
        0 <= sum <= count * bound,
    ensures
        0 <= sum / count <= bound,
{
    lemma_div_is_ordered(sum, count * bound, count);
    lemma_div_multiples_vanish(bound, count);
    assert(0 <= sum / count) by (nonlinear_arith)
        requires
            0 <= sum,
            count > 0,
    ;
}

/// Updating twice with the same labels moves nothing the second time: where
/// a step leaves every label as it was, the centroids have come to rest, which
/// is why a run ends there.
pub proof fn lemma_unchanged_labels_fix_centroids(
    vectors: Seq<FeatureVector>,
    labels: Seq<usize>,
    before: Seq<FeatureVector>,
)
    ensures
        updated_centroids(vectors, labels, updated_centroids(vectors, labels, before))
            == updated_centroids(vectors, labels, before),
{
    let once = updated_centroids(vectors, labels, before);
    assert(updated_centroids(vectors, labels, once) =~= once);
}

/// Every step of a run labels every vector with one of the clusters and
/// keeps one centroid per cluster inside the unit square.
pub proof fn lemma_refine_labels(
    vectors: Seq<FeatureVector>,
    centroids: Seq<FeatureVector>,
    previous: Seq<usize>,
    remaining: nat,
)
    requires
        0 < centroids.len() <= usize::MAX,
        all_wf(vectors),
        all_wf(centroids),
    ensures
        refine(vectors, centroids, previous, remaining).0.len() == vectors.len(),
        labels_within(
            refine(vectors, centroids, previous, remaining).0,
            centroids.len() as int,
        ),
        refine(vectors, centroids, previous, remaining).1.len() == centroids.len(),
        all_wf(refine(vectors, centroids, previous, remaining).1),
    decreases remaining,
{
    let labels = assignment(vectors, centroids);
    let next = updated_centroids(vectors, labels, centroids);
    lemma_assignment_labels(vectors, centroids);
    assert forall|c: int| 0 <= c < next.len() implies (#[trigger] next[c]).wf() by {
        lemma_updated_centroid_wf(vectors, labels, centroids[c], c);
    }
    if !(remaining <= 1 || labels == previous) {
        lemma_refine_labels(vectors, next, labels, (remaining - 1) as nat);
    }
}

/// For every input that k-means accepts, the result holds one label per
/// vector, every label names one of the `k` clusters, and there are `k`
/// centroids, each inside the unit square.
pub proof fn lemma_fit_labels(
    vectors: Seq<FeatureVector>,
    k: int,
    seed: int,
    max_iterations: nat,
)
    requires
        1 <= k <= vectors.len(),
        k <= usize::MAX,
        all_wf(vectors),
    ensures
        fit(vectors, k, seed, max_iterations).0.len() == vectors.len(),
        labels_within(fit(vectors, k, seed, max_iterations).0, k),
        fit(vectors, k, seed, max_iterations).1.len() == k,
        all_wf(fit(vectors, k, seed, max_iterations).1),
{
    let start = initial_centroids(vectors, k, seed);
    let n = vectors.len() as int;
    assert forall|c: int| 0 <= c < start.len() implies (#[trigger] start[c]).wf() by {
        let position = seed_position(n, k, seed, c);
        assert(0 <= position < n);
        assert(vectors[position].wf());
    }
    lemma_refine_labels(vectors, start, Seq::empty(), max_iterations);
}

/// Computes the squared distance of two vectors of the unit square.
pub fn squared_distance(a: &FeatureVector, b: &FeatureVector) -> (d: u128)
    requires
        a.wf(),
        b.wf(),
    ensures
        d == sq_dist(*a, *b),
{
    let du: u64 = if a.u >= b.u {
        a.u - b.u
    } else {
        b.u - a.u
    };
    let ds: u64 = if a.s >= b.s {
        a.s - b.s
    } else {
        b.s - a.s
    };
    proof {
        let x = du as int;
        let y = ds as int;
        assert(0 <= x * x <= 0x4_0000_0000_0000_0000) by (nonlinear_arith)
            requires
                0 <= x <= 0x2_0000_0000,
        ;
        assert(0 <= y * y <= 0x4_0000_0000_0000_0000) by (nonlinear_arith)
            requires
                0 <= y <= 0x2_0000_0000,
        ;
        assert((a.u - b.u) * (a.u - b.u) == x * x) by (nonlinear_arith)
            requires
                x == a.u - b.u || x == b.u - a.u,
        ;
        assert((a.s - b.s) * (a.s - b.s) == y * y) by (nonlinear_arith)
            requires
                y == a.s - b.s || y == b.s - a.s,
        ;
    }
    (du as u128) * (du as u128) + (ds as u128) * (ds as u128)
}

/// Finds the centroid nearest to `v`; among equally near ones the first.
pub fn nearest_centroid(v: &FeatureVector, centroids: &[FeatureVector]) -> (c: usize)
    requires
        v.wf(),
        all_wf(centroids@),
        centroids@.len() > 0,
    ensures
        is_nearest(*v, centroids@, c as int),
        c == nearest(*v, centroids@),
{
    let mut best: usize = 0;
    let mut best_dist: u128 = squared_distance(v, &centroids[0]);
    let mut j: usize = 1;
    while j < centroids.len()
        invariant
            1 <= j <= centroids@.len(),
            v.wf(),
            all_wf(centroids@),
            best < j,
            best_dist == sq_dist(*v, centroids@[best as int]),
            forall|i: int| 0 <= i < j ==> best_dist <= sq_dist(*v, #[trigger] centroids@[i]),
            forall|i: int| 0 <= i < best ==> best_dist < sq_dist(*v, #[trigger] centroids@[i]),
        decreases centroids@.len() - j,
    {
        let d = squared_distance(v, &centroids[j]);
        if d < best_dist {
            best = j;
            best_dist = d;
        }
        j += 1;
    }
    proof {
        lemma_nearest_unique(*v, centroids@, best as int);
    }
    best
}

/// Labels every vector with the index of its nearest centroid.
pub fn assign(vectors: &[FeatureVector], centroids: &[FeatureVector]) -> (labels: Vec<usize>)
    requires
        all_wf(vectors@),
        all_wf(centroids@),
        centroids@.len() > 0,
    ensures
        labels@ == assignment(vectors@, centroids@),
        labels@.len() == vectors@.len(),
        labels_within(labels@, centroids@.len() as int),
{
    let mut labels: Vec<usize> = Vec::new();
    let mut i: usize = 0;
    while i < vectors.len()
        invariant
            i <= vectors@.len(),
            all_wf(vectors@),
            all_wf(centroids@),
            centroids@.len() > 0,
            labels@.len() == i,
            forall|j: int| 0 <= j < i ==> labels@[j] == nearest(vectors@[j], centroids@),
            forall|j: int| 0 <= j < i ==> (#[trigger] labels@[j]) < centroids@.len(),
        decreases vectors@.len() - i,
    {
        let c = nearest_centroid(&vectors[i], centroids);
        labels.push(c);
        i += 1;
    }
    assert(labels@ =~= assignment(vectors@, centroids@));
    labels
}

/// Moves every centroid to the mean of the vectors that carry its label. A
/// cluster without members keeps its previous centroid.
pub fn update_centroids(
    vectors: &[FeatureVector],
    labels: &[usize],
    previous: &[FeatureVector],
) -> (next: Vec<FeatureVector>)
    requires
        all_wf(vectors@),
        all_wf(previous@),
        labels@.len() == vectors@.len(),
        labels_within(labels@, previous@.len() as int),
    ensures
        next@ == updated_centroids(vectors@, labels@, previous@),
        next@.len() == previous@.len(),
        all_wf(next@),
{
    let k = previous.len();
    let n = vectors.len();
    let mut counts: Vec<usize> = Vec::new();
    let mut sums_u: Vec<u128> = Vec::new();
    let mut sums_s: Vec<u128> = Vec::new();
    let mut c: usize = 0;
    while c < k
        invariant
            c <= k,
            counts@.len() == c,
            sums_u@.len() == c,
            sums_s@.len() == c,
            forall|j: int| 0 <= j < c ==> counts@[j] == 0 && sums_u@[j] == 0 && sums_s@[j] == 0,
        decreases k - c,
    {
        counts.push(0);
        sums_u.push(0);
        sums_s.push(0);
        c += 1;
    }
    let ghost us = units_axis(vectors@);
    let ghost ss = subsidies_axis(vectors@);
    let mut i: usize = 0;
    while i < n
        invariant
            i <= n,
            n == vectors@.len(),
            k == previous@.len(),
            labels@.len() == n,
            all_wf(vectors@),
            labels_within(labels@, k as int),
            us == units_axis(vectors@),
            ss == subsidies_axis(vectors@),
            counts@.len() == k,
            sums_u@.len() == k,
            sums_s@.len() == k,
            forall|j: int|
                0 <= j < k ==> {
                    &&& (#[trigger] counts@[j]) == member_count(labels@, j, i as nat)
                    &&& counts@[j] <= i
                },
            forall|j: int|
                0 <= j < k ==> {
                    &&& (#[trigger] sums_u@[j]) == member_sum(us, labels@, j, i as nat)
                    &&& sums_u@[j] <= i * FIXED_ONE
                },
            forall|j: int|
                0 <= j < k ==> {
                    &&& (#[trigger] sums_s@[j]) == member_sum(ss, labels@, j, i as nat)
                    &&& sums_s@[j] <= i * FIXED_ONE
                },
        decreases n - i,
    {
        let label = labels[i];
        let v = vectors[i];
        assert(v.wf());
        assert(us[i as int] == v.u && ss[i as int] == v.s);
        let count = counts[label];
        let su = sums_u[label];
        let s_s = sums_s[label];
        counts.set(label, count + 1);
        sums_u.set(label, su + v.u as u128);
        sums_s.set(label, s_s + v.s as u128);
        i += 1;
    }
    let mut next: Vec<FeatureVector> = Vec::new();
    let mut c: usize = 0;
    while c < k
        invariant
            c <= k,
            n == vectors@.len(),
            k == previous@.len(),
            labels@.len() == n,
            all_wf(vectors@),
            all_wf(previous@),
            us == units_axis(vectors@),
            ss == subsidies_axis(vectors@),
            counts@.len() == k,
            sums_u@.len() == k,
            sums_s@.len() == k,
            forall|j: int| 0 <= j < k ==> (#[trigger] counts@[j]) == cluster_size(labels@, j),
            forall|j: int| 0 <= j < k ==> (#[trigger] sums_u@[j]) == cluster_sum(us, labels@, j),
            forall|j: int| 0 <= j < k ==> (#[trigger] sums_s@[j]) == cluster_sum(ss, labels@, j),
            next@.len() == c,
            forall|j: int|
                0 <= j < c ==> (#[trigger] next@[j]) == updated_centroid(
                    vectors@,
                    labels@,
                    previous@[j],
                    j,
                ),
            forall|j: int| 0 <= j < c ==> (#[trigger] next@[j]).wf(),
        decreases k - c,
    {
        proof {
            lemma_updated_centroid_wf(vectors@, labels@, previous@[c as int], c as int);
        }
        let count = counts[c];
        if count == 0 {
            next.push(previous[c]);
        } else {
            let u = sums_u[c] / (count as u128);
            let s = sums_s[c] / (count as u128);
            next.push(FeatureVector { u: u as u64, s: s as u64 });
        }
        c += 1;
    }
    assert(next@ =~= updated_centroids(vectors@, labels@, previous@));
    next
}

/// Picks the starting centroids: `k` vectors at evenly spaced positions,
/// rotated by `seed`.
pub fn seed_centroids(vectors: &[FeatureVector], k: usize, seed: u64) -> (centroids: Vec<
    FeatureVector,
>)
    requires
        1 <= k <= vectors@.len(),
        all_wf(vectors@),
    ensures
        centroids@ == initial_centroids(vectors@, k as int, seed as int),
        centroids@.len() == k,
        all_wf(centroids@),
{
    let n = vectors.len();
    let mut centroids: Vec<FeatureVector> = Vec::new();
    let mut c: usize = 0;
    while c < k
        invariant
            c <= k,
            1 <= k <= n,
            n == vectors@.len(),
            all_wf(vectors@),
            centroids@.len() == c,
            forall|j: int|
                0 <= j < c ==> (#[trigger] centroids@[j]) == vectors@[seed_position(
                    n as int,
                    k as int,
                    seed as int,
                    j,
                )],
            forall|j: int| 0 <= j < c ==> (#[trigger] centroids@[j]).wf(),
        decreases k - c,
    {
        proof {
            let ci = c as int;
            let ni = n as int;
            assert(0 <= ci * ni <= 0xffff_ffff_ffff_ffff * 0xffff_ffff_ffff_ffff) by (nonlinear_arith)
                requires
                    0 <= ci <= 0xffff_ffff_ffff_ffff,
                    0 <= ni <= 0xffff_ffff_ffff_ffff,
            ;
            assert(0 <= ci * ni / (k as int) <= ci * ni) by (nonlinear_arith)
                requires
                    0 <= ci * ni,
                    k >= 1,
            ;
        }
        let offset: u128 = (seed as u128) % (n as u128);
        let stride: u128 = (c as u128) * (n as u128) / (k as u128);
        let position: u128 = (offset + stride) % (n as u128);
        let v = vectors[position as usize];
        assert(v.wf());
        centroids.push(v);
        c += 1;
    }
    assert(centroids@ =~= initial_centroids(vectors@, k as int, seed as int));
    centroids
}

/// Tells whether two labellings are the same.
pub fn same_labels(a: &[usize], b: &[usize]) -> (same: bool)
    ensures
        same == (a@ == b@),
{
    if a.len() != b.len() {
        return false;
    }
    let mut i: usize = 0;
    while i < a.len()
        invariant
            i <= a@.len(),
            a@.len() == b@.len(),
            forall|j: int| 0 <= j < i ==> a@[j] == b@[j],
        decreases a@.len() - i,
    {
        if a[i] != b[i] {
            return false;
        }
        i += 1;
    }
    assert(a@ =~= b@);
    true
}

/// Partitions `vectors` into `k` clusters, starting from centroids sampled
/// with `seed`, in at most `max_iterations` refinement steps.
///
/// Fails with `InvalidClusterCount` when `k` is zero or exceeds the number of
/// vectors. Otherwise returns one label below `k` per vector, in input order,
/// and the `k` centroids, exactly as `fit` defines them: the same arguments
/// give the same result.
pub fn fit_predict_seeded(
    vectors: &[FeatureVector],
    k: usize,
    seed: u64,
    max_iterations: usize,
) -> (res: Result<(Vec<usize>, Vec<FeatureVector>), ClusterError>)
    requires
        all_wf(vectors@),
        max_iterations >= 1,
    ensures
        (k == 0 || k > vectors@.len()) ==> res == Err::<
            (Vec<usize>, Vec<FeatureVector>),
            ClusterError,
        >(ClusterError::InvalidClusterCount),
        1 <= k <= vectors@.len() ==> res is Ok,
        res matches Ok((labels, centroids)) ==> {
            &&& (labels@, centroids@) == fit(
                vectors@,
                k as int,
                seed as int,
                max_iterations as nat,
            )
            &&& labels@.len() == vectors@.len()
            &&& labels_within(labels@, k as int)
            &&& centroids@.len() == k
            &&& all_wf(centroids@)
        },
{
    if k == 0 || k > vectors.len() {
        return Err(ClusterError::InvalidClusterCount);
    }
    let mut centroids = seed_centroids(vectors, k, seed);
    let mut previous: Vec<usize> = Vec::new();
    let mut remaining: usize = max_iterations;
    loop
        invariant
            1 <= k <= vectors@.len(),
            all_wf(vectors@),
            all_wf(centroids@),
            centroids@.len() == k,
            remaining >= 1,
            fit(vectors@, k as int, seed as int, max_iterations as nat) == refine(
                vectors@,
                centroids@,
                previous@,
                remaining as nat,
            ),
        decreases remaining,
    {
        let labels = assign(vectors, centroids.as_slice());
        let next = update_centroids(vectors, labels.as_slice(), centroids.as_slice());
        if remaining <= 1 || same_labels(labels.as_slice(), previous.as_slice()) {
            return Ok((labels, next));
        }
        centroids = next;
        previous = labels;
        remaining -= 1;
    }
}

/// Partitions `vectors` into `k` clusters with the default seed `0`.
pub fn fit_predict(vectors: &[FeatureVector], k: usize, max_iterations: usize) -> (res: Result<
    (Vec<usize>, Vec<FeatureVector>),
    ClusterError,
>)
    requires
        all_wf(vectors@),
        max_iterations >= 1,
    ensures
        (k == 0 || k > vectors@.len()) ==> res == Err::<
            (Vec<usize>, Vec<FeatureVector>),
            ClusterError,
        >(ClusterError::InvalidClusterCount),
        1 <= k <= vectors@.len() ==> res is Ok,
        res matches Ok((labels, centroids)) ==> {
            &&& (labels@, centroids@) == fit(vectors@, k as int, 0, max_iterations as nat)
            &&& labels@.len() == vectors@.len()
            &&& labels_within(labels@, k as int)
            &&& centroids@.len() == k
            &&& all_wf(centroids@)
        },
{
    fit_predict_seeded(vectors, k, 0, max_iterations)
}

} // verus!
