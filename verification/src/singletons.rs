//! As many clusters as vectors: where no two vectors coincide, every vector
//! starts a cluster of its own and stays alone in it.

use vstd::prelude::*;
use vstd::arithmetic::div_mod::{
    lemma_div_multiples_vanish, lemma_fundamental_div_mod_converse_mod, lemma_small_mod,
};
use crate::clustering::{clustered_labels, DEFAULT_SEED, MAX_ITERATIONS};
use crate::kmeans::{
    assignment, fit, initial_centroids, is_nearest, refine, seed_position, sq_dist,
    subsidies_axis, units_axis, updated_centroid, updated_centroids, lemma_nearest_unique,
};
use crate::partition::{cluster_size, member_count, member_sum};
use crate::record::HousingProperty;
use crate::scaler::{
    scale_parameters_of, scaled_records, FeatureVector, lemma_denormalize_inverts_normalize,
    lemma_normalized_bounds, lemma_scales_cover_records,
};

verus! {

/// No two of the vectors coincide.
pub open spec fn pairwise_distinct(vectors: Seq<FeatureVector>) -> bool {
    forall|i: int, j: int| 0 <= i < j < vectors.len() ==> vectors[i] != vectors[j]
}

/// No two of the records have both the same unit count and the same subsidy
/// count.
pub open spec fn distinct_positions(records: Seq<HousingProperty>) -> bool {
    forall|i: int, j: int|
        0 <= i < j < records.len() ==> records[i].total_units != records[j].total_units
            || records[i].subsidy_count != records[j].subsidy_count
}

/// `centroids` holds the vectors in another order: centroid `c` is the
/// vector at `pos[c]`, and vector `i` is the centroid at `home[i]`.
pub open spec fn arranges(
    centroids: Seq<FeatureVector>,
    vectors: Seq<FeatureVector>,
    pos: Seq<int>,
    home: Seq<int>,
) -> bool {
    &&& centroids.len() == vectors.len()
    &&& pos.len() == vectors.len()
    &&& home.len() == vectors.len()
    &&& forall|c: int|
        0 <= c < pos.len() ==> 0 <= #[trigger] pos[c] < vectors.len() && home[pos[c]] == c
            && centroids[c] == vectors[pos[c]]
    &&& forall|i: int|
        0 <= i < home.len() ==> 0 <= #[trigger] home[i] < vectors.len() && pos[home[i]] == i
}

/// The labelling that gives vector `i` the label `home[i]`.
pub open spec fn labels_of(home: Seq<int>) -> Seq<usize> {
    Seq::new(home.len(), |i: int| home[i] as usize)
}

/// Two vectors that differ lie at a positive distance, and a vector lies
/// at distance `0` from itself.
pub proof fn lemma_distance_separates(a: FeatureVector, b: FeatureVector)
    ensures
        a == b ==> sq_dist(a, b) == 0,
        a != b ==> sq_dist(a, b) > 0,
{
    let x = a.u - b.u;
    let y = a.s - b.s;
    assert(x * x >= 0 && (x != 0 ==> x * x > 0) && (x == 0 ==> x * x == 0)) by (nonlinear_arith);
    assert(y * y >= 0 && (y != 0 ==> y * y > 0) && (y == 0 ==> y * y == 0)) by (nonlinear_arith);
}

/// A number below `2n` wraps around `n` at most once.
proof fn lemma_wrap_once(x: int, n: int)
    requires
        0 < n,
        0 <= x < 2 * n,
    ensures
        x % n == if x < n {
            x
        } else {
            x - n
        },
{
    if x < n {
        lemma_small_mod(x as nat, n as nat);
    } else {
        assert(x == 1 * n + (x - n));
        lemma_fundamental_div_mod_converse_mod(x, n, 1, x - n);
    }
}

/// With as many clusters as vectors, the starting centroids hold the
/// vectors in rotated order.
pub proof fn lemma_start_arranges(vectors: Seq<FeatureVector>, seed: int) -> (maps: (
    Seq<int>,
    Seq<int>,
))
    requires
        vectors.len() > 0,
    ensures
        arranges(
            initial_centroids(vectors, vectors.len() as int, seed),
            vectors,
            maps.0,
            maps.1,
        ),
{
    let n = vectors.len() as int;
    let s = seed % n;
    let pos = Seq::new(n as nat, |c: int| seed_position(n, n, seed, c));
    let home = Seq::new(n as nat, |i: int| (i + n - s) % n);
    let centroids = initial_centroids(vectors, n, seed);
    assert forall|c: int| 0 <= c < n implies 0 <= #[trigger] pos[c] < n && home[pos[c]] == c
        && centroids[c] == vectors[pos[c]] by {
        lemma_div_multiples_vanish(c, n);
        assert(c * n == n * c) by (nonlinear_arith);
        lemma_wrap_once(s + c, n);
        lemma_wrap_once(pos[c] + n - s, n);
    }
    assert forall|i: int| 0 <= i < n implies 0 <= #[trigger] home[i] < n && pos[home[i]] == i by {
        lemma_wrap_once(i + n - s, n);
        let c = home[i];
        lemma_div_multiples_vanish(c, n);
        assert(c * n == n * c) by (nonlinear_arith);
        lemma_wrap_once(s + c, n);
    }
    (pos, home)
}

/// Where the centroids hold pairwise distinct vectors in another order,
/// every vector is nearest to the centroid that equals it.
pub proof fn lemma_assignment_of_arrangement(
    centroids: Seq<FeatureVector>,
    vectors: Seq<FeatureVector>,
    pos: Seq<int>,
    home: Seq<int>,
)
    requires
        arranges(centroids, vectors, pos, home),
        pairwise_distinct(vectors),
        vectors.len() <= usize::MAX,
    ensures
        assignment(vectors, centroids) == labels_of(home),
{
    let labels = assignment(vectors, centroids);
    assert forall|i: int| 0 <= i < vectors.len() implies labels[i] == labels_of(home)[i] by {
        let v = vectors[i];
        let c = home[i];
        assert(centroids[c] == vectors[pos[c]]);
        assert forall|d: int| 0 <= d < centroids.len() implies sq_dist(v, centroids[c]) <= sq_dist(
            v,
            #[trigger] centroids[d],
        ) && (d != c ==> sq_dist(v, centroids[c]) < sq_dist(v, centroids[d])) by {
            lemma_distance_separates(v, centroids[c]);
            lemma_distance_separates(v, centroids[d]);
            if d != c {
                assert(centroids[d] == vectors[pos[d]]);
                assert(home[pos[d]] == d);
                assert(pos[d] != i);
                if pos[d] < i {
                    assert(vectors[pos[d]] != vectors[i]);
                } else {
                    assert(vectors[i] != vectors[pos[d]]);
                }
            }
        }
        assert(is_nearest(v, centroids, c));
        lemma_nearest_unique(v, centroids, c);
    }
    assert(labels =~= labels_of(home));
}

/// Where exactly one of the first `n` positions carries the label `c`, the
/// cluster counts one member and sums to that member's value.
pub proof fn lemma_single_member(values: Seq<int>, labels: Seq<usize>, c: int, n: nat, i: int)
    requires
        n <= labels.len(),
        forall|j: int| 0 <= j < n && j != i ==> labels[j] != c,
        0 <= i < n ==> labels[i] == c,
    ensures
        0 <= i < n ==> member_count(labels, c, n) == 1 && member_sum(values, labels, c, n)
            == values[i],
        !(0 <= i < n) ==> member_count(labels, c, n) == 0 && member_sum(values, labels, c, n)
            == 0,
    decreases n,
{
    if n > 0 {
        lemma_single_member(values, labels, c, (n - 1) as nat, i);
    }
}

/// Where the centroids hold pairwise distinct vectors in another order,
/// every cluster has exactly one member and an update moves no centroid.
pub proof fn lemma_arrangement_is_stable(
    centroids: Seq<FeatureVector>,
    vectors: Seq<FeatureVector>,
    pos: Seq<int>,
    home: Seq<int>,
)
    requires
        arranges(centroids, vectors, pos, home),
        vectors.len() <= usize::MAX,
    ensures
        forall|c: int|
            0 <= c < vectors.len() ==> #[trigger] cluster_size(labels_of(home), c) == 1,
        updated_centroids(vectors, labels_of(home), centroids) == centroids,
{
    let labels = labels_of(home);
    let n = vectors.len();
    let us = units_axis(vectors);
    let ss = subsidies_axis(vectors);
    assert forall|c: int| 0 <= c < n implies #[trigger] cluster_size(labels, c) == 1
        && updated_centroid(vectors, labels, centroids[c], c) == centroids[c] by {
        let i = pos[c];
        assert(home[i] == c);
        assert forall|j: int| 0 <= j < n && j != i implies labels[j] != c by {
            assert(pos[home[j]] == j);
        }
        assert(labels[i] == c);
        lemma_single_member(us, labels, c, n, i);
        lemma_single_member(ss, labels, c, n, i);
        assert(us[i] == vectors[i].u && ss[i] == vectors[i].s);
    }
    assert(updated_centroids(vectors, labels, centroids) =~= centroids);
}

/// A run that starts from centroids holding pairwise distinct vectors in
/// another order ends with the labelling that sends every vector to its own
/// centroid, and with those centroids.
pub proof fn lemma_refine_keeps_arrangement(
    centroids: Seq<FeatureVector>,
    vectors: Seq<FeatureVector>,
    pos: Seq<int>,
    home: Seq<int>,
    previous: Seq<usize>,
    remaining: nat,
)
    requires
        arranges(centroids, vectors, pos, home),
        pairwise_distinct(vectors),
        vectors.len() <= usize::MAX,
    ensures
        refine(vectors, centroids, previous, remaining) == (labels_of(home), centroids),
    decreases remaining,
{
    lemma_assignment_of_arrangement(centroids, vectors, pos, home);
    lemma_arrangement_is_stable(centroids, vectors, pos, home);
    let labels = labels_of(home);
    if !(remaining <= 1 || labels == previous) {
        lemma_refine_keeps_arrangement(
            centroids,
            vectors,
            pos,
            home,
            labels,
            (remaining - 1) as nat,
        );
    }
}

/// With as many clusters as vectors, and no two vectors alike, k-means
/// leaves every cluster with exactly one member, whatever the seed and the
/// iteration limit, and every centroid where it started.
pub proof fn lemma_one_vector_per_cluster(
    vectors: Seq<FeatureVector>,
    seed: int,
    max_iterations: nat,
)
    requires
        0 < vectors.len() <= usize::MAX,
        pairwise_distinct(vectors),
    ensures
        forall|c: int|
            0 <= c < vectors.len() ==> #[trigger] cluster_size(
                fit(vectors, vectors.len() as int, seed, max_iterations).0,
                c,
            ) == 1,
        fit(vectors, vectors.len() as int, seed, max_iterations).1 == initial_centroids(
            vectors,
            vectors.len() as int,
            seed,
        ),
{
    let n = vectors.len() as int;
    let start = initial_centroids(vectors, n, seed);
    let (pos, home) = lemma_start_arranges(vectors, seed);
    lemma_refine_keeps_arrangement(start, vectors, pos, home, Seq::empty(), max_iterations);
    lemma_arrangement_is_stable(start, vectors, pos, home);
}

/// Records at pairwise distinct positions have pairwise distinct scaled
/// images.
pub proof fn lemma_scaling_keeps_apart(records: Seq<HousingProperty>)
    requires
        distinct_positions(records),
    ensures
        pairwise_distinct(scaled_records(records)),
{
    let params = scale_parameters_of(records);
    let vectors = scaled_records(records);
    assert forall|i: int, j: int| 0 <= i < j < vectors.len() implies vectors[i] != vectors[j] by {
        lemma_scales_cover_records(records, i);
        lemma_scales_cover_records(records, j);
        lemma_denormalize_inverts_normalize(params.units, records[i].total_units as int);
        lemma_denormalize_inverts_normalize(params.units, records[j].total_units as int);
        lemma_denormalize_inverts_normalize(params.subsidies, records[i].subsidy_count as int);
        lemma_denormalize_inverts_normalize(params.subsidies, records[j].subsidy_count as int);
        lemma_normalized_in_range(records, i);
        lemma_normalized_in_range(records, j);
    }
}

/// The scaled image of a record holds the scaled values themselves: they
/// fit their machine type.
proof fn lemma_normalized_in_range(records: Seq<HousingProperty>, i: int)
    requires
        0 <= i < records.len(),
    ensures
        scaled_records(records)[i].u == scale_parameters_of(records).units.normalized(
            records[i].total_units as int,
        ),
        scaled_records(records)[i].s == scale_parameters_of(records).subsidies.normalized(
            records[i].subsidy_count as int,
        ),
{
    let params = scale_parameters_of(records);
    lemma_scales_cover_records(records, i);
    lemma_normalized_bounds(params.units, records[i].total_units as int);
    lemma_normalized_bounds(params.subsidies, records[i].subsidy_count as int);
}

/// Clustering records at pairwise distinct positions into as many clusters
/// as there are records leaves every cluster with exactly one member.
pub proof fn lemma_one_record_per_cluster(records: Seq<HousingProperty>)
    requires
        0 < records.len() <= usize::MAX,
        distinct_positions(records),
    ensures
        forall|c: int|
            0 <= c < records.len() ==> #[trigger] cluster_size(
                clustered_labels(records, records.len() as int),
                c,
            ) == 1,
{
    lemma_scaling_keeps_apart(records);
    lemma_one_vector_per_cluster(
        scaled_records(records),
        DEFAULT_SEED as int,
        MAX_ITERATIONS as nat,
    );
}

} // verus!
