//! The housing record and the errors of the clustering pipeline.

use vstd::prelude::*;

verus! {

/// One housing property: its unit count, its active-subsidy count and the
/// category of its owner.
#[derive(Debug)]
pub struct HousingProperty {
    pub total_units: u32,
    pub subsidy_count: u32,
    pub owner_type: String,
}

/// Why a clustering call produced no result.
#[derive(Debug, Clone, Copy, PartialEq, Eq, Structural)]
pub enum ClusterError {
    /// The record sequence is empty, so no minimum or maximum exists.
    EmptyInput,
    /// The cluster count is zero or exceeds the number of records.
    InvalidClusterCount,
}

/// The unit counts of `records`, in order.
pub open spec fn units_of(records: Seq<HousingProperty>) -> Seq<u32> {
    Seq::new(records.len(), |i: int| records[i].total_units)
}

/// The subsidy counts of `records`, in order.
pub open spec fn subsidies_of(records: Seq<HousingProperty>) -> Seq<u32> {
    Seq::new(records.len(), |i: int| records[i].subsidy_count)
}

/// Collects the unit counts of `records`.
pub fn unit_column(records: &[HousingProperty]) -> (column: Vec<u32>)
    ensures
        column@ == units_of(records@),
{
    let mut column: Vec<u32> = Vec::new();
    let mut i: usize = 0;
    while i < records.len()
        invariant
            i <= records@.len(),
            column@.len() == i,
            forall|j: int| 0 <= j < i ==> column@[j] == records@[j].total_units,
        decreases records@.len() - i,
    {
        column.push(records[i].total_units);
        i += 1;
    }
    assert(column@ =~= units_of(records@));
    column
}

/// Collects the subsidy counts of `records`.
pub fn subsidy_column(records: &[HousingProperty]) -> (column: Vec<u32>)
    ensures
        column@ == subsidies_of(records@),
{
    let mut column: Vec<u32> = Vec::new();
    let mut i: usize = 0;
    while i < records.len()
        invariant
            i <= records@.len(),
            column@.len() == i,
            forall|j: int| 0 <= j < i ==> column@[j] == records@[j].subsidy_count,
        decreases records@.len() - i,
    {
        column.push(records[i].subsidy_count);
        i += 1;
    }
    assert(column@ =~= subsidies_of(records@));
    column
}

} // verus!
