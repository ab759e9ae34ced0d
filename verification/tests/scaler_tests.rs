use housing_clustering::record::{subsidy_column, unit_column, ClusterError, HousingProperty};
use housing_clustering::scaler::{
    min_max, observed_scales, scale, DimensionScale, FeatureVector, ScaleParameters, FIXED_ONE,
};

fn record(total_units: u32, subsidy_count: u32) -> HousingProperty {
    HousingProperty { total_units, subsidy_count, owner_type: String::from("Owner") }
}

#[test]
fn fixed_one_is_two_to_the_thirty_third() {
    assert_eq!(FIXED_ONE, 1u64 << 33);
}

#[test]
fn scale_gives_exact_fixed_point_values() {
    let records = vec![record(1, 1), record(2, 2), record(99, 99), record(100, 100)];
    let (vectors, params) = scale(&records).expect("scaling failed");
    assert_eq!(params.units, DimensionScale { min: 1, range: 99 });
    assert_eq!(params.subsidies, DimensionScale { min: 1, range: 99 });
    assert_eq!(
        vectors,
        vec![
            FeatureVector { u: 0, s: 0 },
            FeatureVector { u: 86767016, s: 86767016 },
            FeatureVector { u: 8503167575, s: 8503167575 },
            FeatureVector { u: 8589934592, s: 8589934592 },
        ]
    );
}

#[test]
fn scale_keeps_input_order_and_scales_dimensions_apart() {
    let records = vec![record(110, 4), record(10, 50), record(210, 1), record(60, 25)];
    let (vectors, params) = scale(&records).expect("scaling failed");
    assert_eq!(params.units, DimensionScale { min: 10, range: 200 });
    assert_eq!(params.subsidies, DimensionScale { min: 1, range: 49 });
    assert_eq!(vectors.len(), 4);
    assert_eq!(vectors[0], FeatureVector { u: FIXED_ONE / 2, s: 3 * FIXED_ONE / 49 });
    assert_eq!(vectors[1], FeatureVector { u: 0, s: FIXED_ONE });
    assert_eq!(vectors[2], FeatureVector { u: FIXED_ONE, s: 0 });
    assert_eq!(vectors[3], FeatureVector { u: FIXED_ONE / 4, s: 24 * FIXED_ONE / 49 });
}

#[test]
fn minimum_scales_to_zero_and_maximum_to_one() {
    let records = vec![record(7, 900), record(3, 20), record(12, 20), record(3, 900), record(9, 21)];
    let (vectors, params) = scale(&records).expect("scaling failed");
    assert!(params.units.range > 0 && params.subsidies.range > 0);
    for (r, v) in records.iter().zip(vectors.iter()) {
        if r.total_units == 3 {
            assert_eq!(v.u, 0);
        }
        if r.total_units == 12 {
            assert_eq!(v.u, FIXED_ONE);
        }
        if r.subsidy_count == 20 {
            assert_eq!(v.s, 0);
        }
        if r.subsidy_count == 900 {
            assert_eq!(v.s, FIXED_ONE);
        }
        assert!(v.u <= FIXED_ONE && v.s <= FIXED_ONE);
    }
}

#[test]
fn constant_dimension_scales_to_zero() {
    let records = vec![record(50, 3), record(50, 10), record(50, 7), record(50, 10), record(50, 0)];
    let (vectors, params) = scale(&records).expect("scaling failed");
    assert_eq!(params.units, DimensionScale { min: 50, range: 0 });
    assert!(params.units.is_degenerate());
    assert!(!params.subsidies.is_degenerate());
    assert!(vectors.iter().all(|v| v.u == 0));
    let subsidies: Vec<u64> = vectors.iter().map(|v| v.s).collect();
    assert_eq!(subsidies, vec![2576980377, 8589934592, 6012954214, 8589934592, 0]);
}

#[test]
fn single_record_scales_to_the_origin() {
    let records = vec![record(42, 17)];
    let (vectors, params) = scale(&records).expect("scaling failed");
    assert_eq!(vectors, vec![FeatureVector { u: 0, s: 0 }]);
    assert_eq!(params.units, DimensionScale { min: 42, range: 0 });
    assert_eq!(params.subsidies, DimensionScale { min: 17, range: 0 });
}

#[test]
fn scale_rejects_empty_input() {
    let records: Vec<HousingProperty> = Vec::new();
    assert_eq!(scale(&records), Err(ClusterError::EmptyInput));
}

#[test]
fn scale_covers_the_full_integer_domain() {
    let records = vec![record(0, u32::MAX), record(u32::MAX, 0), record(1, u32::MAX - 1)];
    let (vectors, params) = scale(&records).expect("scaling failed");
    assert_eq!(params.units, DimensionScale { min: 0, range: u32::MAX });
    assert_eq!(vectors[0], FeatureVector { u: 0, s: FIXED_ONE });
    assert_eq!(vectors[1], FeatureVector { u: FIXED_ONE, s: 0 });
    assert_eq!(vectors[2], FeatureVector { u: 2, s: FIXED_ONE - 3 });
    for (r, v) in records.iter().zip(vectors.iter()) {
        assert_eq!(params.units.denormalize(v.u), r.total_units);
        assert_eq!(params.subsidies.denormalize(v.s), r.subsidy_count);
    }
}

#[test]
fn normalize_rounds_down() {
    let dim = DimensionScale { min: 10, range: 3 };
    assert_eq!(dim.normalize(10), 0);
    assert_eq!(dim.normalize(11), 2863311530);
    assert_eq!(dim.normalize(12), 5726623061);
    assert_eq!(dim.normalize(13), FIXED_ONE);
}

#[test]
fn denormalize_rounds_to_nearest() {
    let dim = DimensionScale { min: 10, range: 4 };
    assert_eq!(dim.denormalize(0), 10);
    assert_eq!(dim.denormalize(FIXED_ONE), 14);
    assert_eq!(dim.denormalize(FIXED_ONE / 2), 12);
    // 0.3 * 4 = 1.2 rounds to 1; 0.4 * 4 = 1.6 rounds to 2.
    assert_eq!(dim.denormalize(FIXED_ONE / 10 * 3), 11);
    assert_eq!(dim.denormalize(FIXED_ONE / 10 * 4), 12);
    // Exactly half way rounds upward: 0.125 * 4 = 0.5.
    assert_eq!(dim.denormalize(FIXED_ONE / 8), 11);
    assert_eq!(dim.denormalize(FIXED_ONE / 8 - 1), 10);
}

#[test]
fn denormalize_on_a_constant_dimension_gives_the_constant() {
    let dim = DimensionScale { min: 50, range: 0 };
    assert_eq!(dim.denormalize(0), 50);
    assert_eq!(dim.denormalize(FIXED_ONE / 3), 50);
    assert_eq!(dim.denormalize(FIXED_ONE), 50);
}

#[test]
fn denormalize_inverts_normalize() {
    for (min, range) in [(0u32, 1u32), (5, 99), (1000, 12345), (u32::MAX - 77, 77), (7, 0)] {
        let dim = DimensionScale { min, range };
        let step = if range > 200 { range / 100 } else { 1 };
        let mut value = min;
        loop {
            assert_eq!(dim.denormalize(dim.normalize(value)), value);
            if value - min + step > range {
                break;
            }
            value += step;
        }
        assert_eq!(dim.denormalize(dim.normalize(min + range)), min + range);
    }
}

#[test]
fn denormalize_stays_within_the_observed_domain() {
    let dim = DimensionScale { min: 20, range: 600 };
    for i in 0..=1000u64 {
        let raw = dim.denormalize(FIXED_ONE / 1000 * i);
        assert!(20 <= raw && raw <= 620);
    }
}

#[test]
fn min_max_of_values() {
    assert_eq!(min_max(&[4, 9, 2, 7]), (2, 9));
    assert_eq!(min_max(&[5]), (5, 5));
    assert_eq!(min_max(&[3, 3, 3]), (3, 3));
    assert_eq!(min_max(&[u32::MAX, 0]), (0, u32::MAX));
    assert_eq!(min_max(&[]), (0, 0));
}

#[test]
fn columns_keep_record_order() {
    let records = vec![record(10, 1), record(20, 2), record(5, 30)];
    assert_eq!(unit_column(&records), vec![10, 20, 5]);
    assert_eq!(subsidy_column(&records), vec![1, 2, 30]);
    assert_eq!(unit_column(&[]), Vec::<u32>::new());
}

#[test]
fn observed_scales_hold_minimum_and_range() {
    let records = vec![record(7, 900), record(3, 20), record(12, 20), record(3, 900), record(9, 21)];
    assert_eq!(
        observed_scales(&records),
        ScaleParameters {
            units: DimensionScale { min: 3, range: 9 },
            subsidies: DimensionScale { min: 20, range: 880 },
        }
    );
    assert_eq!(
        observed_scales(&records[2..3]),
        ScaleParameters {
            units: DimensionScale { min: 12, range: 0 },
            subsidies: DimensionScale { min: 20, range: 0 },
        }
    );
}
