//! The cluster report: centroids in raw units, cluster sizes and the owner
//! types found in each cluster.

use vstd::prelude::*;
use crate::kmeans::all_wf;
use crate::partition::{labels_within, member_count, cluster_size, lemma_member_count_bound};
use crate::record::HousingProperty;
use crate::scaler::{
    scale_parameters_of, scaled_records, lemma_denormalize_inverts_normalize,
    lemma_normalized_bounds, lemma_scales_cover_records, FeatureVector, ScaleParameters,
};

verus! {

/// A centroid in raw units: whole units and whole subsidies.
#[derive(Debug, Clone, Copy, PartialEq, Eq, Structural)]
pub struct RawCentroid {
    pub total_units: u32,
    pub subsidy_count: u32,
}

/// The raw position that a scaled centroid stands for.
pub open spec fn denormalized_centroid(centroid: FeatureVector, params: ScaleParameters)
    -> RawCentroid {
    RawCentroid {
        total_units: params.units.denormalized(centroid.u as int) as u32,
        subsidy_count: params.subsidies.denormalized(centroid.s as int) as u32,
    }
}

/// Denormalizing undoes scaling: the scaled image of a record, taken as a
/// centroid and mapped back with the scales of its records, is the record's
/// own position.
pub proof fn lemma_denormalize_inverts_scale(records: Seq<HousingProperty>, i: int)
    requires
        0 <= i < records.len(),
    ensures
        denormalized_centroid(scaled_records(records)[i], scale_parameters_of(records))
            == (RawCentroid {
            total_units: records[i].total_units,
            subsidy_count: records[i].subsidy_count,
        }),
{
    let params = scale_parameters_of(records);
    lemma_scales_cover_records(records, i);
    lemma_denormalize_inverts_normalize(params.units, records[i].total_units as int);
    lemma_denormalize_inverts_normalize(params.subsidies, records[i].subsidy_count as int);
    lemma_normalized_bounds(params.units, records[i].total_units as int);
    lemma_normalized_bounds(params.subsidies, records[i].subsidy_count as int);
}

/// An owner type and the number of records that carry it.
#[derive(Debug)]
pub struct OwnerCount {
    pub owner: String,
    pub count: usize,
}

/// The sum of the counts that `entries` hold for `owner`.
pub open spec fn tallied(entries: Seq<OwnerCount>, owner: Seq<char>) -> nat
    decreases entries.len(),
{
    if entries.len() == 0 {
        0
    } else {
        let rest = tallied(entries.drop_last(), owner);
        if entries.last().owner@ == owner {
            rest + entries.last().count as nat
        } else {
            rest
        }
    }
}

/// How often each owner type occurs, as a list of distinct owner types in
/// the order in which they were first seen.
#[derive(Debug)]
pub struct OwnerTally {
    pub entries: Vec<OwnerCount>,
}

impl View for OwnerTally {
    type V = Map<Seq<char>, nat>;

    /// The mapping from the owner types seen to their counts. An owner type
    /// that was never seen is absent.
    open spec fn view(&self) -> Map<Seq<char>, nat> {
        Map::new(|owner: Seq<char>| self.count_of(owner) > 0, |owner: Seq<char>| self.count_of(owner))
    }
}

impl OwnerTally {
    /// No owner type is listed twice and every listed count is positive.
    pub open spec fn wf(&self) -> bool {
        &&& forall|i: int| 0 <= i < self.entries@.len() ==> (#[trigger] self.entries@[i]).count >= 1
        &&& forall|i: int, j: int|
            0 <= i < j < self.entries@.len() ==> (#[trigger] self.entries@[i]).owner@ != (
            #[trigger] self.entries@[j]).owner@
    }

    /// The count held for `owner`; `0` where it was never seen.
    pub open spec fn count_of(&self, owner: Seq<char>) -> nat {
        tallied(self.entries@, owner)
    }

    /// A tally of nothing.
    pub fn new() -> (tally: OwnerTally)
        ensures
            tally.wf(),
            tally.entries@.len() == 0,
            forall|owner: Seq<char>| tally.count_of(owner) == 0,
            tally@ =~= Map::<Seq<char>, nat>::empty(),
    {
        OwnerTally { entries: Vec::new() }
    }

    /// The number of distinct owner types seen.
    pub fn len(&self) -> (n: usize)
        ensures
            n == self.entries@.len(),
    {
        self.entries.len()
    }

    /// Whether no owner type was seen.
    pub fn is_empty(&self) -> (empty: bool)
        ensures
            empty == (self.entries@.len() == 0),
    {
        self.entries.len() == 0
    }

    /// The count held for `owner`; `0` where it was never seen.
    pub fn count(&self, owner: &String) -> (n: usize)
        requires
            self.wf(),
        ensures
            n == self.count_of(owner@),
    {
        let mut i: usize = 0;
        while i < self.entries.len()
            invariant
                i <= self.entries@.len(),
                self.wf(),
                forall|j: int| 0 <= j < i ==> (#[trigger] self.entries@[j]).owner@ != owner@,
            decreases self.entries@.len() - i,
        {
            if self.entries[i].owner == *owner {
                proof {
                    lemma_tallied_at(self.entries@, i as int);
                }
                return self.entries[i].count;
            }
            i += 1;
        }
        proof {
            lemma_tallied_absent(self.entries@, owner@);
        }
        0
    }

    /// Counts one more record of `owner`.
    pub fn record(&mut self, owner: &String)
        requires
            old(self).wf(),
            old(self).count_of(owner@) < usize::MAX,
        ensures
            final(self).wf(),
            final(self).count_of(owner@) == old(self).count_of(owner@) + 1,
            forall|other: Seq<char>|
                other != owner@ ==> final(self).count_of(other) == old(self).count_of(other),
    {
        let mut i: usize = 0;
        while i < self.entries.len()
            invariant
                i <= self.entries@.len(),
                *self == *old(self),
                self.wf(),
                self.count_of(owner@) < usize::MAX,
                forall|j: int| 0 <= j < i ==> (#[trigger] self.entries@[j]).owner@ != owner@,
            decreases self.entries@.len() - i,
        {
            if self.entries[i].owner == *owner {
                let ghost before = self.entries@;
                proof {
                    lemma_tallied_at(before, i as int);
                }
                let count = self.entries[i].count;
                self.entries[i].count = count + 1;
                proof {
                    let after = self.entries@;
                    assert(after[i as int].owner == before[i as int].owner);
                    assert(after[i as int].count == before[i as int].count + 1);
                    assert forall|j: int| 0 <= j < before.len() && j != i implies after[j]
                        == before[j] by {}
                    assert forall|other: Seq<char>| true implies tallied(after, other) == tallied(
                        before,
                        other,
                    ) + if other == owner@ {
                        1nat
                    } else {
                        0nat
                    } by {
                        lemma_tallied_bumped(before, after, i as int, other);
                    }
                }
                return ;
            }
            i += 1;
        }
        let ghost before = self.entries@;
        self.entries.push(OwnerCount { owner: owner.clone(), count: 1 });
        proof {
            let after = self.entries@;
            assert(after.drop_last() =~= before);
            lemma_tallied_absent(before, owner@);
        }
    }
}

/// Where no entry names `owner`, nothing is tallied for it.
pub proof fn lemma_tallied_absent(entries: Seq<OwnerCount>, owner: Seq<char>)
    requires
        forall|j: int| 0 <= j < entries.len() ==> (#[trigger] entries[j]).owner@ != owner,
    ensures
        tallied(entries, owner) == 0,
    decreases entries.len(),
{
    if entries.len() > 0 {
        lemma_tallied_absent(entries.drop_last(), owner);
    }
}

/// Where the entries name distinct owners, the tally of an entry's owner is
/// that entry's count.
pub proof fn lemma_tallied_at(entries: Seq<OwnerCount>, i: int)
    requires
        0 <= i < entries.len(),
        forall|a: int, b: int|
            0 <= a < b < entries.len() ==> (#[trigger] entries[a]).owner@ != (
            #[trigger] entries[b]).owner@,
    ensures
        tallied(entries, entries[i].owner@) == entries[i].count,
    decreases entries.len(),
{
    let front = entries.drop_last();
    let last = entries.len() - 1;
    if i == last {
        assert forall|j: int| 0 <= j < front.len() implies (#[trigger] front[j]).owner@
            != entries[i].owner@ by {
            assert(front[j] == entries[j]);
        }
        lemma_tallied_absent(front, entries[i].owner@);
    } else {
        assert(front[i] == entries[i]);
        assert forall|a: int, b: int| 0 <= a < b < front.len() implies (#[trigger] front[a]).owner@
            != (#[trigger] front[b]).owner@ by {
            assert(front[a] == entries[a] && front[b] == entries[b]);
        }
        lemma_tallied_at(front, i);
    }
}

/// Raising the count of entry `i` by one raises the tally of its owner by
/// one and leaves every other tally as it was.
pub proof fn lemma_tallied_bumped(
    before: Seq<OwnerCount>,
    after: Seq<OwnerCount>,
    i: int,
    owner: Seq<char>,
)
    requires
        0 <= i < before.len(),
        after.len() == before.len(),
        after[i].owner@ == before[i].owner@,
        after[i].count == before[i].count + 1,
        forall|j: int| 0 <= j < before.len() && j != i ==> after[j] == before[j],
        forall|a: int, b: int|
            0 <= a < b < before.len() ==> (#[trigger] before[a]).owner@ != (
            #[trigger] before[b]).owner@,
    ensures
        tallied(after, owner) == tallied(before, owner) + if owner == before[i].owner@ {
            1nat
        } else {
            0nat
        },
    decreases before.len(),
{
    let last = before.len() - 1;
    let front_before = before.drop_last();
    let front_after = after.drop_last();
    if i == last {
        assert(front_after =~= front_before);
    } else {
        assert forall|a: int, b: int| 0 <= a < b < front_before.len() implies (
        #[trigger] front_before[a]).owner@ != (#[trigger] front_before[b]).owner@ by {
            assert(front_before[a] == before[a] && front_before[b] == before[b]);
        }
        assert(front_before[i] == before[i] && front_after[i] == after[i]);
        assert forall|j: int| 0 <= j < front_before.len() && j != i implies front_after[j]
            == front_before[j] by {
            assert(front_after[j] == after[j] && front_before[j] == before[j]);
        }
        lemma_tallied_bumped(front_before, front_after, i, owner);
        assert(after[last] == before[last]);
    }
}

/// How many of the first `n` records carry the label `c` and the owner type
/// `owner`.
pub open spec fn owner_count(
    records: Seq<HousingProperty>,
    labels: Seq<usize>,
    c: int,
    owner: Seq<char>,
    n: nat,
) -> nat
    decreases n,
{
    if n == 0 {
        0
    } else {
        let rest = owner_count(records, labels, c, owner, (n - 1) as nat);
        if labels[n - 1] == c && records[n - 1].owner_type@ == owner {
            rest + 1
        } else {
            rest
        }
    }
}

/// The owner types of the records of cluster `c`, each with the number of
/// records that carry it. An owner type without a record in the cluster is
/// absent.
pub open spec fn owner_distribution(records: Seq<HousingProperty>, labels: Seq<usize>, c: int)
    -> Map<Seq<char>, nat> {
    Map::new(
        |owner: Seq<char>| owner_count(records, labels, c, owner, labels.len()) > 0,
        |owner: Seq<char>| owner_count(records, labels, c, owner, labels.len()),
    )
}

/// No owner type is counted more often in a cluster than the cluster has
/// members.
pub proof fn lemma_owner_count_bound(
    records: Seq<HousingProperty>,
    labels: Seq<usize>,
    c: int,
    owner: Seq<char>,
    n: nat,
)
    ensures
        owner_count(records, labels, c, owner, n) <= member_count(labels, c, n),
    decreases n,
{
    if n > 0 {
        lemma_owner_count_bound(records, labels, c, owner, (n - 1) as nat);
    }
}

/// A cluster without members has size `0` and an empty owner distribution.
pub proof fn lemma_empty_cluster_report(records: Seq<HousingProperty>, labels: Seq<usize>, c: int)
    requires
        cluster_size(labels, c) == 0,
    ensures
        owner_distribution(records, labels, c) == Map::<Seq<char>, nat>::empty(),
{
    assert forall|owner: Seq<char>| owner_count(records, labels, c, owner, labels.len())
        == 0 by {
        lemma_owner_count_bound(records, labels, c, owner, labels.len());
    }
    assert(owner_distribution(records, labels, c) =~= Map::<Seq<char>, nat>::empty());
}

/// What the reporter derives from one clustering run.
#[derive(Debug)]
pub struct ClusterSummary {
    /// The centroid of each cluster, in raw units.
    pub centroids: Vec<RawCentroid>,
    /// The number of records of each cluster.
    pub sizes: Vec<usize>,
    /// The owner types of each cluster, with their counts.
    pub owner_distribution: Vec<OwnerTally>,
}

/// Maps every centroid back to raw units, rounded to whole numbers.
pub fn denormalize_centroids(centroids: &[FeatureVector], params: &ScaleParameters) -> (raw: Vec<
    RawCentroid,
>)
    requires
        all_wf(centroids@),
        params.wf(),
    ensures
        raw@.len() == centroids@.len(),
        forall|c: int|
            0 <= c < centroids@.len() ==> {
                &&& (#[trigger] raw@[c]) == denormalized_centroid(centroids@[c], *params)
                &&& params.units.covers(raw@[c].total_units as int)
                &&& params.subsidies.covers(raw@[c].subsidy_count as int)
            },
{
    let mut raw: Vec<RawCentroid> = Vec::new();
    let mut c: usize = 0;
    while c < centroids.len()
        invariant
            c <= centroids@.len(),
            all_wf(centroids@),
            params.wf(),
            raw@.len() == c,
            forall|j: int|
                0 <= j < c ==> {
                    &&& (#[trigger] raw@[j]) == denormalized_centroid(centroids@[j], *params)
                    &&& params.units.covers(raw@[j].total_units as int)
                    &&& params.subsidies.covers(raw@[j].subsidy_count as int)
                },
        decreases centroids@.len() - c,
    {
        let centroid = centroids[c];
        assert(centroid.wf());
        let total_units = params.units.denormalize(centroid.u);
        let subsidy_count = params.subsidies.denormalize(centroid.s);
        raw.push(RawCentroid { total_units, subsidy_count });
        c += 1;
    }
    raw
}

/// Counts the members of each of `k` clusters.
pub fn cluster_sizes(labels: &[usize], k: usize) -> (sizes: Vec<usize>)
    requires
        labels_within(labels@, k as int),
    ensures
        sizes@.len() == k,
        forall|c: int| 0 <= c < k ==> (#[trigger] sizes@[c]) == cluster_size(labels@, c),
{
    let mut sizes: Vec<usize> = Vec::new();
    let mut c: usize = 0;
    while c < k
        invariant
            c <= k,
            sizes@.len() == c,
            forall|j: int| 0 <= j < c ==> (#[trigger] sizes@[j]) == 0,
        decreases k - c,
    {
        sizes.push(0);
        c += 1;
    }
    let mut i: usize = 0;
    while i < labels.len()
        invariant
            i <= labels@.len(),
            labels_within(labels@, k as int),
            sizes@.len() == k,
            forall|j: int|
                0 <= j < k ==> {
                    &&& (#[trigger] sizes@[j]) == member_count(labels@, j, i as nat)
                    &&& sizes@[j] <= i
                },
        decreases labels@.len() - i,
    {
        let label = labels[i];
        let size = sizes[label];
        sizes.set(label, size + 1);
        i += 1;
    }
    sizes
}

/// Tallies the owner types of the records of each of `k` clusters.
pub fn owner_tallies(records: &[HousingProperty], labels: &[usize], k: usize) -> (tallies: Vec<
    OwnerTally,
>)
    requires
        labels@.len() == records@.len(),
        labels_within(labels@, k as int),
    ensures
        tallies@.len() == k,
        forall|c: int|
            0 <= c < k ==> {
                &&& (#[trigger] tallies@[c]).wf()
                &&& tallies@[c]@ == owner_distribution(records@, labels@, c)
            },
{
    let mut tallies: Vec<OwnerTally> = Vec::new();
    let mut c: usize = 0;
    while c < k
        invariant
            c <= k,
            tallies@.len() == c,
            forall|j: int|
                0 <= j < c ==> {
                    &&& (#[trigger] tallies@[j]).wf()
                    &&& forall|owner: Seq<char>| tallies@[j].count_of(owner) == 0
                },
        decreases k - c,
    {
        tallies.push(OwnerTally::new());
        c += 1;
    }
    let mut i: usize = 0;
    while i < labels.len()
        invariant
            i <= labels@.len(),
            labels@.len() == records@.len(),
            labels_within(labels@, k as int),
            tallies@.len() == k,
            forall|j: int|
                0 <= j < k ==> {
                    &&& (#[trigger] tallies@[j]).wf()
                    &&& forall|owner: Seq<char>|
                        tallies@[j].count_of(owner) == owner_count(
                            records@,
                            labels@,
                            j,
                            owner,
                            i as nat,
                        )
                },
        decreases labels@.len() - i,
    {
        let label = labels[i];
        let owner = &records[i].owner_type;
        proof {
            lemma_owner_count_bound(records@, labels@, label as int, owner@, i as nat);
            lemma_member_count_bound(labels@, label as int, i as nat);
        }
        let ghost before = tallies@;
        tallies[label].record(owner);
        proof {
            assert forall|j: int| 0 <= j < k implies {
                &&& (#[trigger] tallies@[j]).wf()
                &&& forall|o: Seq<char>|
                    tallies@[j].count_of(o) == owner_count(records@, labels@, j, o, (i + 1) as nat)
            } by {
                if j != label {
                    assert(tallies@[j] == before[j]);
                }
            }
        }
        i += 1;
    }
    proof {
        assert forall|c: int| 0 <= c < k implies (#[trigger] tallies@[c])@ == owner_distribution(
            records@,
            labels@,
            c,
        ) by {
            assert(tallies@[c]@ =~= owner_distribution(records@, labels@, c));
        }
    }
    tallies
}

/// Derives the report of a clustering run: the centroids in raw units, the
/// size of every cluster and the owner types found in it.
///
/// `labels` holds one label per record and `centroids` one centroid per
/// cluster. A cluster without members is reported with size `0` and an empty
/// owner distribution.
pub fn summarize(
    records: &[HousingProperty],
    labels: &[usize],
    centroids: &[FeatureVector],
    params: &ScaleParameters,
) -> (summary: ClusterSummary)
    requires
        labels@.len() == records@.len(),
        labels_within(labels@, centroids@.len() as int),
        all_wf(centroids@),
        params.wf(),
    ensures
        summary.centroids@.len() == centroids@.len(),
        summary.sizes@.len() == centroids@.len(),
        summary.owner_distribution@.len() == centroids@.len(),
        forall|c: int|
            0 <= c < centroids@.len() ==> {
                &&& (#[trigger] summary.centroids@[c]) == denormalized_centroid(
                    centroids@[c],
                    *params,
                )
                &&& params.units.covers(summary.centroids@[c].total_units as int)
                &&& params.subsidies.covers(summary.centroids@[c].subsidy_count as int)
            },
        forall|c: int|
            0 <= c < centroids@.len() ==> (#[trigger] summary.sizes@[c]) == cluster_size(
                labels@,
                c,
            ),
        forall|c: int|
            0 <= c < centroids@.len() ==> {
                &&& (#[trigger] summary.owner_distribution@[c]).wf()
                &&& summary.owner_distribution@[c]@ == owner_distribution(records@, labels@, c)
            },
        forall|c: int|
            0 <= c < centroids@.len() && summary.sizes@[c] == 0 ==> (
            #[trigger] summary.owner_distribution@[c])@ == Map::<Seq<char>, nat>::empty(),
{
    let k = centroids.len();
    let raw = denormalize_centroids(centroids, params);
    let sizes = cluster_sizes(labels, k);
    let tallies = owner_tallies(records, labels, k);
    proof {
        assert forall|c: int| 0 <= c < k && sizes@[c] == 0 implies (#[trigger] tallies@[c])@
            == Map::<Seq<char>, nat>::empty() by {
            lemma_empty_cluster_report(records@, labels@, c);
        }
    }
    ClusterSummary { centroids: raw, sizes, owner_distribution: tallies }
}

} // verus!
