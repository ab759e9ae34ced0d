//! Feature scaling: raw counts to fixed-point values in the unit interval.
//!
//! A scaled value is an integer between `0` and `FIXED_ONE`, standing for the
//! fraction `value / FIXED_ONE`. `FIXED_ONE` is more than twice the widest
//! possible range, so distinct raw values stay distinct after scaling and
//! scaling can be undone exactly.

use vstd::prelude::*;
use vstd::arithmetic::div_mod::{
    lemma_div_is_ordered, lemma_div_multiples_vanish, lemma_fundamental_div_mod, lemma_mod_bound,
};
use crate::record::{HousingProperty, ClusterError, units_of, subsidies_of};

verus! {

/// The fixed-point representation of `1`.
pub const FIXED_ONE: u64 = 0x2_0000_0000;

/// A record's position in the normalized plane: scaled units and scaled
/// subsidies, each a fixed-point value.
#[derive(Debug, Clone, Copy, PartialEq, Eq, Structural)]
pub struct FeatureVector {
    pub u: u64,
    pub s: u64,
}

impl FeatureVector {
    /// Both coordinates lie in the unit interval.
    pub open spec fn wf(self) -> bool {
        self.u <= FIXED_ONE && self.s <= FIXED_ONE
    }
}

/// Observed minimum and range (maximum minus minimum) of one dimension.
#[derive(Debug, Clone, Copy, PartialEq, Eq, Structural)]
pub struct DimensionScale {
    pub min: u32,
    pub range: u32,
}

impl DimensionScale {
    /// The maximum `min + range` is itself a raw value.
    pub open spec fn wf(self) -> bool {
        self.min + self.range <= u32::MAX
    }

    /// `value` lies between the observed minimum and maximum.
    pub open spec fn covers(self, value: int) -> bool {
        self.min <= value <= self.min + self.range
    }

    /// The scaled image of `value`: `0` on a constant dimension, else
    /// `(value - min) / range` in fixed point, rounded down.
    pub open spec fn normalized(self, value: int) -> int {
        if self.range == 0 {
            0
        } else {
            (value - self.min) * FIXED_ONE / (self.range as int)
        }
    }

    /// The raw value that `scaled` stands for: `scaled * range + min`,
    /// rounded to the nearest whole number, halves upward.
    pub open spec fn denormalized(self, scaled: int) -> int {
        (scaled * self.range + FIXED_ONE / 2) / (FIXED_ONE as int) + self.min
    }

    /// All values of the dimension are equal, so every scaled value is `0`.
    pub fn is_degenerate(&self) -> (flat: bool)
        ensures
            flat == (self.range == 0),
    {
        self.range == 0
    }

    /// Scales one raw value of this dimension.
    pub fn normalize(&self, value: u32) -> (scaled: u64)
        requires
            self.wf(),
            self.covers(value as int),
        ensures
            scaled == self.normalized(value as int),
            scaled <= FIXED_ONE,
    {
        if self.range == 0 {
            0
        } else {
            let offset: u128 = (value - self.min) as u128;
            let range: u128 = self.range as u128;
            proof {
                lemma_normalized_bounds(*self, value as int);
            }
            let scaled: u128 = offset * (FIXED_ONE as u128) / range;
            scaled as u64
        }
    }

    /// Maps a scaled value back to the nearest raw value of this dimension.
    pub fn denormalize(&self, scaled: u64) -> (raw: u32)
        requires
            self.wf(),
            scaled <= FIXED_ONE,
        ensures
            raw == self.denormalized(scaled as int),
            self.covers(raw as int),
    {
        proof {
            lemma_denormalized_bounds(*self, scaled as int);
        }
        let product: u128 = (scaled as u128) * (self.range as u128);
        let whole: u128 = (product + (FIXED_ONE / 2) as u128) / (FIXED_ONE as u128);
        (whole as u32) + self.min
    }
}

/// The scales of both dimensions.
#[derive(Debug, Clone, Copy, PartialEq, Eq, Structural)]
pub struct ScaleParameters {
    pub units: DimensionScale,
    pub subsidies: DimensionScale,
}

impl ScaleParameters {
    /// Both scales are well formed.
    pub open spec fn wf(self) -> bool {
        self.units.wf() && self.subsidies.wf()
    }
}

/// `m` occurs in `values` and nothing in `values` is smaller.
pub open spec fn is_minimum(values: Seq<u32>, m: u32) -> bool {
    values.contains(m) && forall|i: int| 0 <= i < values.len() ==> m <= values[i]
}

/// `m` occurs in `values` and nothing in `values` is larger.
pub open spec fn is_maximum(values: Seq<u32>, m: u32) -> bool {
    values.contains(m) && forall|i: int| 0 <= i < values.len() ==> values[i] <= m
}

/// The least element of a non-empty sequence.
pub open spec fn minimum(values: Seq<u32>) -> u32 {
    choose|m: u32| is_minimum(values, m)
}

/// The greatest element of a non-empty sequence.
pub open spec fn maximum(values: Seq<u32>) -> u32 {
    choose|m: u32| is_maximum(values, m)
}

/// The scale that a non-empty column of raw values defines.
pub open spec fn dimension_scale_of(values: Seq<u32>) -> DimensionScale {
    DimensionScale {
        min: minimum(values),
        range: (maximum(values) - minimum(values)) as u32,
    }
}

/// The scales that a non-empty sequence of records defines.
pub open spec fn scale_parameters_of(records: Seq<HousingProperty>) -> ScaleParameters {
    ScaleParameters {
        units: dimension_scale_of(units_of(records)),
        subsidies: dimension_scale_of(subsidies_of(records)),
    }
}

/// The scaled image of one record.
pub open spec fn scaled_record(record: HousingProperty, params: ScaleParameters) -> FeatureVector {
    FeatureVector {
        u: params.units.normalized(record.total_units as int) as u64,
        s: params.subsidies.normalized(record.subsidy_count as int) as u64,
    }
}

/// The scaled images of all records, in input order.
pub open spec fn scaled_records(records: Seq<HousingProperty>) -> Seq<FeatureVector> {
    Seq::new(records.len(), |i: int| scaled_record(records[i], scale_parameters_of(records)))
}

/// A scaled value of a covered raw value lies in the unit interval, and the
/// product it is computed from fits the machine arithmetic.
pub proof fn lemma_normalized_bounds(dim: DimensionScale, value: int)
    requires
        dim.wf(),
        dim.covers(value),
    ensures
        0 <= dim.normalized(value) <= FIXED_ONE,
        0 <= (value - dim.min) * FIXED_ONE <= dim.range * FIXED_ONE,
        dim.range * FIXED_ONE <= 0x2_0000_0000_0000_0000,
{
    let d = value - dim.min;
    let r = dim.range as int;
    let one = FIXED_ONE as int;
    assert(0 <= d * one <= r * one) by (nonlinear_arith)
        requires
            0 <= d <= r,
            one > 0,
    ;
    assert(r * one <= 0x2_0000_0000_0000_0000) by (nonlinear_arith)
        requires
            0 <= r <= 0xffff_ffff,
            one == 0x2_0000_0000,
    ;
    if r > 0 {
        lemma_div_is_ordered(d * one, r * one, r);
        lemma_div_multiples_vanish(one, r);
        assert(r * one == one * r) by (nonlinear_arith);
        assert(0 <= d * one / r) by (nonlinear_arith)
            requires
                0 <= d * one,
                r > 0,
        ;
    }
}

/// A value of the unit interval denormalizes to a raw value between the
/// observed minimum and maximum.
pub proof fn lemma_denormalized_bounds(dim: DimensionScale, scaled: int)
    requires
        dim.wf(),
        0 <= scaled <= FIXED_ONE,
    ensures
        0 <= scaled * dim.range <= FIXED_ONE * dim.range,
        FIXED_ONE * dim.range <= 0x2_0000_0000_0000_0000,
        dim.covers(dim.denormalized(scaled)),
{
    let r = dim.range as int;
    let one = FIXED_ONE as int;
    assert(0 <= scaled * r <= one * r) by (nonlinear_arith)
        requires
            0 <= scaled <= one,
            0 <= r,
    ;
    assert(one * r <= 0x2_0000_0000_0000_0000) by (nonlinear_arith)
        requires
            0 <= r <= 0xffff_ffff,
            one == 0x2_0000_0000,
    ;
    assert(one * r == 0x2_0000_0000 * r);
}

/// Denormalizing undoes scaling: a raw value between the observed minimum
/// and maximum, scaled and mapped back, is the value itself.
pub proof fn lemma_denormalize_inverts_normalize(dim: DimensionScale, value: int)
    requires
        dim.wf(),
        dim.covers(value),
    ensures
        dim.denormalized(dim.normalized(value)) == value,
{
    let d = value - dim.min;
    let r = dim.range as int;
    let one = FIXED_ONE as int;
    if r == 0 {
        assert(0 * r == 0);
    } else {
        let q = d * one / r;
        lemma_normalized_bounds(dim, value);
        lemma_fundamental_div_mod(d * one, r);
        lemma_mod_bound(d * one, r);
        assert(r * q == q * r) by (nonlinear_arith);
        assert(d * one == 0x2_0000_0000 * d) by (nonlinear_arith)
            requires
                one == 0x2_0000_0000,
        ;
        assert(d * one - r < q * r <= d * one);
    }
}

/// A sequence has at most one minimum and at most one maximum, so
/// `minimum` and `maximum` name them.
pub proof fn lemma_extremes_unique(values: Seq<u32>, lo: u32, hi: u32)
    requires
        is_minimum(values, lo),
        is_maximum(values, hi),
    ensures
        minimum(values) == lo,
        maximum(values) == hi,
        lo <= hi,
{
    let m = minimum(values);
    assert(is_minimum(values, m));
    let i = choose|i: int| 0 <= i < values.len() && values[i] == m;
    let j = choose|j: int| 0 <= j < values.len() && values[j] == lo;
    assert(lo <= values[i] && m <= values[j]);
    let x = maximum(values);
    assert(is_maximum(values, x));
    let a = choose|a: int| 0 <= a < values.len() && values[a] == x;
    let b = choose|b: int| 0 <= b < values.len() && values[b] == hi;
    assert(values[a] <= hi && values[b] <= x);
    assert(lo <= values[b]);
}

/// A record that attains the minimum of a dimension scales to exactly `0`,
/// and one that attains the maximum scales to exactly `1`, whenever the
/// range is positive.
pub proof fn lemma_extremes_scale_to_ends(dim: DimensionScale)
    requires
        dim.wf(),
        dim.range > 0,
    ensures
        dim.normalized(dim.min as int) == 0,
        dim.normalized(dim.min + dim.range) == FIXED_ONE,
{
    let r = dim.range as int;
    let one = FIXED_ONE as int;
    assert(0 * one / r == 0) by (nonlinear_arith)
        requires
            r > 0,
    ;
    lemma_div_multiples_vanish(one, r);
    assert(r * one == one * r) by (nonlinear_arith);
}

/// A non-empty column has a minimum and a maximum, and its scale is made of
/// them.
pub proof fn lemma_extremes_exist(values: Seq<u32>)
    requires
        values.len() > 0,
    ensures
        is_minimum(values, minimum(values)),
        is_maximum(values, maximum(values)),
        minimum(values) <= maximum(values),
        dimension_scale_of(values).wf(),
        dimension_scale_of(values).min == minimum(values),
        dimension_scale_of(values).min + dimension_scale_of(values).range == maximum(values),
    decreases values.len(),
{
    if values.len() == 1 {
        assert(values[0] == values[0]);
        assert(is_minimum(values, values[0]));
        assert(is_maximum(values, values[0]));
    } else {
        let front = values.drop_last();
        let v = values.last();
        lemma_extremes_exist(front);
        let lo = minimum(front);
        let hi = maximum(front);
        let a = choose|a: int| 0 <= a < front.len() && front[a] == lo;
        let b = choose|b: int| 0 <= b < front.len() && front[b] == hi;
        assert(values[a] == lo && values[b] == hi && values[values.len() - 1] == v);
        let new_lo = if v < lo {
            v
        } else {
            lo
        };
        let new_hi = if v > hi {
            v
        } else {
            hi
        };
        assert forall|j: int| 0 <= j < values.len() implies new_lo <= #[trigger] values[j]
            && values[j] <= new_hi by {
            if j < front.len() {
                assert(front[j] == values[j]);
            }
        }
        assert(is_minimum(values, new_lo));
        assert(is_maximum(values, new_hi));
    }
    lemma_extremes_unique(values, minimum(values), maximum(values));
}

/// The scales of a sequence of records are well formed and cover every one
/// of the records.
pub proof fn lemma_scales_cover_records(records: Seq<HousingProperty>, i: int)
    requires
        0 <= i < records.len(),
    ensures
        scale_parameters_of(records).wf(),
        scale_parameters_of(records).units.covers(records[i].total_units as int),
        scale_parameters_of(records).subsidies.covers(records[i].subsidy_count as int),
{
    lemma_extremes_exist(units_of(records));
    lemma_extremes_exist(subsidies_of(records));
    assert(units_of(records)[i] == records[i].total_units);
    assert(subsidies_of(records)[i] == records[i].subsidy_count);
}

/// A record whose unit count is the least of all scales to exactly `0` in
/// that dimension, and one whose unit count is the greatest to exactly `1`,
/// whenever the units differ at all. The same holds of the subsidies.
pub proof fn lemma_scaled_extremes(records: Seq<HousingProperty>, i: int)
    requires
        0 <= i < records.len(),
    ensures
        ({
            let units = scale_parameters_of(records).units;
            let subsidies = scale_parameters_of(records).subsidies;
            let v = scaled_records(records)[i];
            &&& units.range > 0 && records[i].total_units == minimum(units_of(records)) ==> v.u
                == 0
            &&& units.range > 0 && records[i].total_units == maximum(units_of(records)) ==> v.u
                == FIXED_ONE
            &&& subsidies.range > 0 && records[i].subsidy_count == minimum(subsidies_of(records))
                ==> v.s == 0
            &&& subsidies.range > 0 && records[i].subsidy_count == maximum(subsidies_of(records))
                ==> v.s == FIXED_ONE
        }),
{
    lemma_extremes_exist(units_of(records));
    lemma_extremes_exist(subsidies_of(records));
    let units = scale_parameters_of(records).units;
    let subsidies = scale_parameters_of(records).subsidies;
    if units.range > 0 {
        lemma_extremes_scale_to_ends(units);
    }
    if subsidies.range > 0 {
        lemma_extremes_scale_to_ends(subsidies);
    }
}

/// Where all records agree on the unit count, every scaled unit value is
/// `0`; where they agree on the subsidy count, every scaled subsidy value is
/// `0`.
pub proof fn lemma_constant_dimension_scales_to_zero(records: Seq<HousingProperty>)
    requires
        records.len() > 0,
    ensures
        (forall|i: int, j: int|
            0 <= i < records.len() && 0 <= j < records.len() ==> records[i].total_units
                == records[j].total_units) ==> forall|i: int|
            0 <= i < records.len() ==> (#[trigger] scaled_records(records)[i]).u == 0,
        (forall|i: int, j: int|
            0 <= i < records.len() && 0 <= j < records.len() ==> records[i].subsidy_count
                == records[j].subsidy_count) ==> forall|i: int|
            0 <= i < records.len() ==> (#[trigger] scaled_records(records)[i]).s == 0,
{
    let us = units_of(records);
    let ss = subsidies_of(records);
    lemma_extremes_exist(us);
    lemma_extremes_exist(ss);
    if forall|i: int, j: int|
        0 <= i < records.len() && 0 <= j < records.len() ==> records[i].total_units
            == records[j].total_units {
        let a = choose|a: int| 0 <= a < us.len() && us[a] == minimum(us);
        let b = choose|b: int| 0 <= b < us.len() && us[b] == maximum(us);
        assert(records[a].total_units == records[b].total_units);
        assert(scale_parameters_of(records).units.range == 0);
    }
    if forall|i: int, j: int|
        0 <= i < records.len() && 0 <= j < records.len() ==> records[i].subsidy_count
            == records[j].subsidy_count {
        let a = choose|a: int| 0 <= a < ss.len() && ss[a] == minimum(ss);
        let b = choose|b: int| 0 <= b < ss.len() && ss[b] == maximum(ss);
        assert(records[a].subsidy_count == records[b].subsidy_count);
        assert(scale_parameters_of(records).subsidies.range == 0);
    }
}

/// The least and the greatest element of `values`; `(0, 0)` when `values`
/// is empty.
pub fn min_max(values: &[u32]) -> (bounds: (u32, u32))
    ensures
        values@.len() == 0 ==> bounds == (0u32, 0u32),
        values@.len() > 0 ==> is_minimum(values@, bounds.0) && is_maximum(values@, bounds.1),
        values@.len() > 0 ==> bounds.0 == minimum(values@) && bounds.1 == maximum(values@),
        bounds.0 <= bounds.1,
{
    if values.len() == 0 {
        return (0, 0);
    }
    let mut lo: u32 = values[0];
    let mut hi: u32 = values[0];
    let mut i: usize = 1;
    assert(values@.take(1)[0] == lo);
    while i < values.len()
        invariant
            1 <= i <= values@.len(),
            is_minimum(values@.take(i as int), lo),
            is_maximum(values@.take(i as int), hi),
        decreases values@.len() - i,
    {
        let v = values[i];
        let ghost before = values@.take(i as int);
        let ghost after = values@.take(i + 1);
        proof {
            let a = choose|a: int| 0 <= a < before.len() && before[a] == lo;
            let b = choose|b: int| 0 <= b < before.len() && before[b] == hi;
            assert(after[a] == lo && after[b] == hi && after[i as int] == v);
            assert forall|j: int| 0 <= j < after.len() implies (if v < lo { v } else { lo })
                <= #[trigger] after[j] && after[j] <= (if v > hi { v } else { hi }) by {
                if j < i {
                    assert(before[j] == after[j]);
                }
            }
        }
        if v < lo {
            lo = v;
        }
        if v > hi {
            hi = v;
        }
        i += 1;
    }
    proof {
        assert(values@.take(i as int) =~= values@);
        lemma_extremes_unique(values@, lo, hi);
    }
    (lo, hi)
}

/// Finds the minimum and the range of both dimensions in one pass over the
/// records.
pub fn observed_scales(records: &[HousingProperty]) -> (params: ScaleParameters)
    requires
        records@.len() > 0,
    ensures
        params == scale_parameters_of(records@),
        params.wf(),
{
    let first = &records[0];
    let mut u_lo: u32 = first.total_units;
    let mut u_hi: u32 = first.total_units;
    let mut s_lo: u32 = first.subsidy_count;
    let mut s_hi: u32 = first.subsidy_count;
    let mut i: usize = 1;
    while i < records.len()
        invariant
            1 <= i <= records@.len(),
            forall|j: int|
                0 <= j < i ==> u_lo <= (#[trigger] records@[j]).total_units <= u_hi && s_lo
                    <= records@[j].subsidy_count <= s_hi,
            exists|j: int| 0 <= j < i && records@[j].total_units == u_lo,
            exists|j: int| 0 <= j < i && records@[j].total_units == u_hi,
            exists|j: int| 0 <= j < i && records@[j].subsidy_count == s_lo,
            exists|j: int| 0 <= j < i && records@[j].subsidy_count == s_hi,
        decreases records@.len() - i,
    {
        let r = &records[i];
        if r.total_units < u_lo {
            u_lo = r.total_units;
        }
        if r.total_units > u_hi {
            u_hi = r.total_units;
        }
        if r.subsidy_count < s_lo {
            s_lo = r.subsidy_count;
        }
        if r.subsidy_count > s_hi {
            s_hi = r.subsidy_count;
        }
        i += 1;
    }
    proof {
        let us = units_of(records@);
        let ss = subsidies_of(records@);
        let a = choose|j: int| 0 <= j < i && records@[j].total_units == u_lo;
        let b = choose|j: int| 0 <= j < i && records@[j].total_units == u_hi;
        let c = choose|j: int| 0 <= j < i && records@[j].subsidy_count == s_lo;
        let d = choose|j: int| 0 <= j < i && records@[j].subsidy_count == s_hi;
        assert(us[a] == u_lo && us[b] == u_hi && ss[c] == s_lo && ss[d] == s_hi);
        assert forall|j: int| 0 <= j < us.len() implies u_lo <= #[trigger] us[j] <= u_hi by {
            assert(us[j] == records@[j].total_units);
        }
        assert forall|j: int| 0 <= j < ss.len() implies s_lo <= #[trigger] ss[j] <= s_hi by {
            assert(ss[j] == records@[j].subsidy_count);
        }
        lemma_extremes_unique(us, u_lo, u_hi);
        lemma_extremes_unique(ss, s_lo, s_hi);
    }
    ScaleParameters {
        units: DimensionScale { min: u_lo, range: u_hi - u_lo },
        subsidies: DimensionScale { min: s_lo, range: s_hi - s_lo },
    }
}

/// Scales the records of a non-empty sequence into the unit square.
///
/// Each dimension is mapped linearly so that its observed minimum goes to `0`
/// and its observed maximum to `1`; a dimension whose values are all equal
/// goes to `0` throughout. The vectors keep the order of the records. An
/// empty sequence has no minimum and is rejected.
pub fn scale(records: &[HousingProperty]) -> (res: Result<
    (Vec<FeatureVector>, ScaleParameters),
    ClusterError,
>)
    ensures
        records@.len() == 0 ==> res == Err::<(Vec<FeatureVector>, ScaleParameters), ClusterError>(
            ClusterError::EmptyInput,
        ),
        records@.len() > 0 ==> res is Ok,
        res matches Ok((vectors, params)) ==> {
            &&& params == scale_parameters_of(records@)
            &&& params.wf()
            &&& vectors@ == scaled_records(records@)
            &&& vectors@.len() == records@.len()
            &&& forall|i: int| 0 <= i < vectors@.len() ==> (#[trigger] vectors@[i]).wf()
            &&& forall|i: int|
                0 <= i < records@.len() ==> params.units.covers(
                    (#[trigger] records@[i]).total_units as int,
                ) && params.subsidies.covers(records@[i].subsidy_count as int)
        },
{
    if records.len() == 0 {
        return Err(ClusterError::EmptyInput);
    }
    let params = observed_scales(records);
    let mut vectors: Vec<FeatureVector> = Vec::new();
    let mut i: usize = 0;
    while i < records.len()
        invariant
            i <= records@.len(),
            params == scale_parameters_of(records@),
            vectors@.len() == i,
            forall|j: int| 0 <= j < i ==> vectors@[j] == scaled_record(records@[j], params),
            forall|j: int| 0 <= j < i ==> (#[trigger] vectors@[j]).wf(),
        decreases records@.len() - i,
    {
        let r = &records[i];
        proof {
            lemma_scales_cover_records(records@, i as int);
        }
        let u = params.units.normalize(r.total_units);
        let s = params.subsidies.normalize(r.subsidy_count);
        vectors.push(FeatureVector { u, s });
        i += 1;
    }
    proof {
        assert(vectors@ =~= scaled_records(records@));
        assert forall|j: int| 0 <= j < records@.len() implies params.units.covers(
            (#[trigger] records@[j]).total_units as int,
        ) && params.subsidies.covers(records@[j].subsidy_count as int) by {
            lemma_scales_cover_records(records@, j);
        }
    }
    Ok((vectors, params))
}

} // verus!
