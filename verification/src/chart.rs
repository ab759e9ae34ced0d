//! What a scatter chart of the clusters shows: one color, one series of
//! points and one centre mark per cluster.

use vstd::prelude::*;
use crate::partition::{labels_within, member_count, member_sum};
use crate::record::HousingProperty;

verus! {

/// A color as red, green and blue.
#[derive(Debug, Clone, Copy, PartialEq, Eq, Structural)]
pub struct ClusterColor {
    pub r: u8,
    pub g: u8,
    pub b: u8,
}

/// The color of each cluster: red, blue, green and purple for the first
/// four, black for all others.
pub open spec fn cluster_color(cluster_id: int) -> ClusterColor {
    if cluster_id == 0 {
        ClusterColor { r: 228, g: 26, b: 28 }
    } else if cluster_id == 1 {
        ClusterColor { r: 55, g: 126, b: 184 }
    } else if cluster_id == 2 {
        ClusterColor { r: 77, g: 175, b: 74 }
    } else if cluster_id == 3 {
        ClusterColor { r: 152, g: 78, b: 163 }
    } else {
        ClusterColor { r: 0, g: 0, b: 0 }
    }
}

/// Assigns a color to a cluster.
pub fn get_cluster_color(cluster_id: usize) -> (color: ClusterColor)
    ensures
        color == cluster_color(cluster_id as int),
{
    match cluster_id {
        0 => ClusterColor { r: 228, g: 26, b: 28 },
        1 => ClusterColor { r: 55, g: 126, b: 184 },
        2 => ClusterColor { r: 77, g: 175, b: 74 },
        3 => ClusterColor { r: 152, g: 78, b: 163 },
        _ => ClusterColor { r: 0, g: 0, b: 0 },
    }
}

/// The first four clusters have colors of their own.
pub proof fn lemma_first_colors_differ(a: int, b: int)
    requires
        0 <= a < 4,
        0 <= b < 4,
        a != b,
    ensures
        cluster_color(a) != cluster_color(b),
{
}

/// The number of records that carry both a property and a label.
pub open spec fn paired(records: Seq<HousingProperty>, labels: Seq<usize>) -> nat {
    if records.len() <= labels.len() {
        records.len()
    } else {
        labels.len()
    }
}

/// The number of clusters that a labelling speaks of: one more than its
/// greatest label, and `1` for an empty labelling.
pub fn cluster_count(labels: &[usize]) -> (k: usize)
    requires
        labels_within(labels@, usize::MAX as int),
    ensures
        k >= 1,
        labels_within(labels@, k as int),
        labels@.len() == 0 ==> k == 1,
        labels@.len() > 0 ==> labels@.contains((k - 1) as usize),
{
    let mut greatest: usize = 0;
    let mut i: usize = 0;
    while i < labels.len()
        invariant
            i <= labels@.len(),
            labels_within(labels@, usize::MAX as int),
            forall|j: int| 0 <= j < i ==> (#[trigger] labels@[j]) <= greatest,
            i == 0 ==> greatest == 0,
            i > 0 ==> exists|j: int| 0 <= j < i && labels@[j] == greatest,
            greatest < usize::MAX,
        decreases labels@.len() - i,
    {
        if labels[i] > greatest {
            greatest = labels[i];
        }
        proof {
            if labels@[i as int] != greatest {
                let j = choose|j: int| 0 <= j < i && labels@[j] == greatest;
                assert(0 <= j < i + 1 && labels@[j] == greatest);
            }
        }
        i += 1;
    }
    proof {
        if labels@.len() > 0 {
            let j = choose|j: int| 0 <= j < i && labels@[j] == greatest;
            assert(labels@[j] == greatest);
        }
    }
    greatest + 1
}

/// The positions, in raw units, of those of the first `n` records that carry
/// the label `c`, in input order.
pub open spec fn points_of(records: Seq<HousingProperty>, labels: Seq<usize>, c: int, n: nat)
    -> Seq<(u32, u32)>
    decreases n,
{
    if n == 0 {
        Seq::empty()
    } else {
        let rest = points_of(records, labels, c, (n - 1) as nat);
        if labels[n - 1] == c {
            rest.push((records[n - 1].total_units, records[n - 1].subsidy_count))
        } else {
            rest
        }
    }
}

/// Collects the points of one cluster's series. A property without a label,
/// or a label without a property, is left out.
pub fn cluster_points(properties: &[HousingProperty], labels: &[usize], cluster_id: usize) -> (
    points: Vec<(u32, u32)>
)
    ensures
        points@ == points_of(
            properties@,
            labels@,
            cluster_id as int,
            paired(properties@, labels@),
        ),
{
    let n = if properties.len() <= labels.len() {
        properties.len()
    } else {
        labels.len()
    };
    let mut points: Vec<(u32, u32)> = Vec::new();
    let mut i: usize = 0;
    while i < n
        invariant
            i <= n,
            n <= properties@.len(),
            n <= labels@.len(),
            points@ == points_of(properties@, labels@, cluster_id as int, i as nat),
        decreases n - i,
    {
        if labels[i] == cluster_id {
            points.push((properties[i].total_units, properties[i].subsidy_count));
        }
        i += 1;
    }
    points
}

/// The raw unit counts as integers.
pub open spec fn unit_values(records: Seq<HousingProperty>) -> Seq<int> {
    Seq::new(records.len(), |i: int| records[i].total_units as int)
}

/// The raw subsidy counts as integers.
pub open spec fn subsidy_values(records: Seq<HousingProperty>) -> Seq<int> {
    Seq::new(records.len(), |i: int| records[i].subsidy_count as int)
}

/// The totals from which a cluster's centre mark is drawn: the sums of its
/// members' units and subsidies, and the number of its members. The centre
/// is each sum divided by the count; a cluster without members has none.
#[derive(Debug, Clone, Copy, PartialEq, Eq, Structural)]
pub struct ClusterTotal {
    pub units: u128,
    pub subsidies: u128,
    pub count: usize,
}

/// Sums the units and subsidies of the members of each of `k` clusters. A
/// property without a label, or a label without a property, is left out.
pub fn cluster_totals(properties: &[HousingProperty], labels: &[usize], k: usize) -> (totals: Vec<
    ClusterTotal,
>)
    requires
        labels_within(labels@, k as int),
    ensures
        totals@.len() == k,
        forall|c: int|
            0 <= c < k ==> {
                &&& (#[trigger] totals@[c]).count == member_count(
                    labels@,
                    c,
                    paired(properties@, labels@),
                )
                &&& totals@[c].units == member_sum(
                    unit_values(properties@),
                    labels@,
                    c,
                    paired(properties@, labels@),
                )
                &&& totals@[c].subsidies == member_sum(
                    subsidy_values(properties@),
                    labels@,
                    c,
                    paired(properties@, labels@),
                )
            },
{
    let n = if properties.len() <= labels.len() {
        properties.len()
    } else {
        labels.len()
    };
    let mut totals: Vec<ClusterTotal> = Vec::new();
    let mut c: usize = 0;
    while c < k
        invariant
            c <= k,
            totals@.len() == c,
            forall|j: int|
                0 <= j < c ==> (#[trigger] totals@[j]) == (ClusterTotal {
                    units: 0,
                    subsidies: 0,
                    count: 0,
                }),
        decreases k - c,
    {
        totals.push(ClusterTotal { units: 0, subsidies: 0, count: 0 });
        c += 1;
    }
    let ghost us = unit_values(properties@);
    let ghost ss = subsidy_values(properties@);
    let mut i: usize = 0;
    while i < n
        invariant
            i <= n,
            n <= properties@.len(),
            n <= labels@.len(),
            labels_within(labels@, k as int),
            us == unit_values(properties@),
            ss == subsidy_values(properties@),
            totals@.len() == k,
            forall|j: int|
                0 <= j < k ==> {
                    &&& (#[trigger] totals@[j]).count == member_count(labels@, j, i as nat)
                    &&& totals@[j].units == member_sum(us, labels@, j, i as nat)
                    &&& totals@[j].subsidies == member_sum(ss, labels@, j, i as nat)
                    &&& totals@[j].count <= i
                    &&& totals@[j].units <= i * 0xffff_ffff
                    &&& totals@[j].subsidies <= i * 0xffff_ffff
                },
        decreases n - i,
    {
        let label = labels[i];
        let p = &properties[i];
        assert(us[i as int] == p.total_units && ss[i as int] == p.subsidy_count);
        let t = totals[label];
        totals.set(
            label,
            ClusterTotal {
                units: t.units + p.total_units as u128,
                subsidies: t.subsidies + p.subsidy_count as u128,
                count: t.count + 1,
            },
        );
        i += 1;
    }
    totals
}

} // verus!
