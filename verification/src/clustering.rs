//! The whole pipeline: scale the records, partition them, report.

use vstd::prelude::*;
use crate::kmeans::{fit, fit_predict_seeded};
use crate::partition::{labels_within, cluster_size};
use crate::record::{ClusterError, HousingProperty};
use crate::report::{
    summarize, denormalized_centroid, owner_distribution, ClusterSummary,
};
use crate::scaler::{scale, scaled_records, scale_parameters_of, FeatureVector};

verus! {

/// The number of refinement steps after which k-means stops at the latest.
pub const MAX_ITERATIONS: usize = 100;

/// The seed with which the starting centroids are sampled.
pub const DEFAULT_SEED: u64 = 0;

/// The labels that clustering gives to `records`.
pub open spec fn clustered_labels(records: Seq<HousingProperty>, k: int) -> Seq<usize> {
    fit(scaled_records(records), k, DEFAULT_SEED as int, MAX_ITERATIONS as nat).0
}

/// The scaled centroids that clustering `records` ends with.
pub open spec fn clustered_centroids(records: Seq<HousingProperty>, k: int) -> Seq<
    FeatureVector,
> {
    fit(scaled_records(records), k, DEFAULT_SEED as int, MAX_ITERATIONS as nat).1
}

/// The error, if any, with which clustering `records` into `k` clusters
/// fails: an empty input is reported first, then a cluster count that is zero
/// or exceeds the number of records.
pub open spec fn clustering_error(records: Seq<HousingProperty>, k: int) -> Option<ClusterError> {
    if records.len() == 0 {
        Some(ClusterError::EmptyInput)
    } else if k == 0 || k > records.len() {
        Some(ClusterError::InvalidClusterCount)
    } else {
        None
    }
}

/// The outcome of one clustering run: the label of every record and the
/// report on the clusters.
#[derive(Debug)]
pub struct ClusterReport {
    pub labels: Vec<usize>,
    pub summary: ClusterSummary,
}

impl ClusterReport {
    /// The report is the one that clustering `records` into `k` clusters
    /// yields.
    pub open spec fn describes(&self, records: Seq<HousingProperty>, k: int) -> bool {
        &&& self.labels@ == clustered_labels(records, k)
        &&& self.labels@.len() == records.len()
        &&& labels_within(self.labels@, k)
        &&& self.summary.centroids@.len() == k
        &&& self.summary.sizes@.len() == k
        &&& self.summary.owner_distribution@.len() == k
        &&& forall|c: int|
            0 <= c < k ==> (#[trigger] self.summary.centroids@[c]) == denormalized_centroid(
                clustered_centroids(records, k)[c],
                scale_parameters_of(records),
            )
        &&& forall|c: int|
            0 <= c < k ==> (#[trigger] self.summary.sizes@[c]) == cluster_size(self.labels@, c)
        &&& forall|c: int|
            0 <= c < k ==> {
                &&& (#[trigger] self.summary.owner_distribution@[c]).wf()
                &&& self.summary.owner_distribution@[c]@ == owner_distribution(
                    records,
                    self.labels@,
                    c,
                )
            }
        &&& forall|c: int|
            0 <= c < k && self.summary.sizes@[c] == 0 ==> (
            #[trigger] self.summary.owner_distribution@[c])@ == Map::<Seq<char>, nat>::empty()
    }
}

/// Clusters `properties` into `k` clusters and reports on them.
///
/// Fails with `EmptyInput` when there are no properties, and with
/// `InvalidClusterCount` when `k` is zero or exceeds their number; nothing is
/// computed in either case.
pub fn cluster_report(properties: &[HousingProperty], k: usize) -> (res: Result<
    ClusterReport,
    ClusterError,
>)
    ensures
        match clustering_error(properties@, k as int) {
            Some(e) => res is Err && res->Err_0 == e,
            None => res is Ok && res->Ok_0.describes(properties@, k as int),
        },
{
    let (vectors, params) = match scale(properties) {
        Ok(scaled) => scaled,
        Err(e) => {
            return Err(e);
        },
    };
    let (labels, centroids) = match fit_predict_seeded(
        vectors.as_slice(),
        k,
        DEFAULT_SEED,
        MAX_ITERATIONS,
    ) {
        Ok(fitted) => fitted,
        Err(e) => {
            return Err(e);
        },
    };
    let summary = summarize(properties, labels.as_slice(), centroids.as_slice(), &params);
    Ok(ClusterReport { labels, summary })
}

/// Clusters `properties` into `k` clusters and returns the label of every
/// property, in input order.
///
/// Fails with `EmptyInput` when there are no properties, and with
/// `InvalidClusterCount` when `k` is zero or exceeds their number.
pub fn cluster_properties(properties: &[HousingProperty], k: usize) -> (res: Result<
    Vec<usize>,
    ClusterError,
>)
    ensures
        match clustering_error(properties@, k as int) {
            Some(e) => res is Err && res->Err_0 == e,
            None => {
                &&& res is Ok
                &&& res->Ok_0@ == clustered_labels(properties@, k as int)
                &&& res->Ok_0@.len() == properties@.len()
                &&& labels_within(res->Ok_0@, k as int)
            },
        },
{
    match cluster_report(properties, k) {
        Ok(report) => Ok(report.labels),
        Err(e) => Err(e),
    }
}

} // verus!
