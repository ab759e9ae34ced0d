use housing_clustering::record::HousingProperty;
use housing_clustering::report::{
    cluster_sizes, denormalize_centroids, owner_tallies, summarize, OwnerTally, RawCentroid,
};
use housing_clustering::scaler::{DimensionScale, FeatureVector, ScaleParameters, FIXED_ONE};

fn owned(total_units: u32, subsidy_count: u32, owner: &str) -> HousingProperty {
    HousingProperty { total_units, subsidy_count, owner_type: owner.to_string() }
}

fn sample_params() -> ScaleParameters {
    ScaleParameters {
        units: DimensionScale { min: 10, range: 200 },
        subsidies: DimensionScale { min: 1, range: 49 },
    }
}

#[test]
fn denormalize_centroids_rounds_to_whole_units() {
    let centroids = vec![
        FeatureVector { u: 139586436, s: 350609574 },
        FeatureVector { u: 8160437862, s: 7888715441 },
        FeatureVector { u: 214748364, s: 0 },
        FeatureVector { u: FIXED_ONE, s: FIXED_ONE },
    ];
    let raw = denormalize_centroids(&centroids, &sample_params());
    assert_eq!(
        raw,
        vec![
            RawCentroid { total_units: 13, subsidy_count: 3 },
            RawCentroid { total_units: 200, subsidy_count: 46 },
            RawCentroid { total_units: 15, subsidy_count: 1 },
            RawCentroid { total_units: 210, subsidy_count: 50 },
        ]
    );
}

#[test]
fn cluster_sizes_count_labels() {
    assert_eq!(cluster_sizes(&[0, 2, 2, 1, 2, 0], 3), vec![2, 1, 3]);
    assert_eq!(cluster_sizes(&[0, 2, 2, 0], 4), vec![2, 0, 2, 0]);
    assert_eq!(cluster_sizes(&[], 2), vec![0, 0]);
    assert_eq!(cluster_sizes(&[], 0), Vec::<usize>::new());
}

#[test]
fn owner_tally_counts_in_order_of_first_appearance() {
    let mut tally = OwnerTally::new();
    assert!(tally.is_empty());
    assert_eq!(tally.len(), 0);
    assert_eq!(tally.count(&"Public".to_string()), 0);
    for owner in ["Public", "Non-Profit", "Public", "For Profit", "Public", "Non-Profit"] {
        tally.record(&owner.to_string());
    }
    assert!(!tally.is_empty());
    assert_eq!(tally.len(), 3);
    assert_eq!(tally.count(&"Public".to_string()), 3);
    assert_eq!(tally.count(&"Non-Profit".to_string()), 2);
    assert_eq!(tally.count(&"For Profit".to_string()), 1);
    assert_eq!(tally.count(&"Unknown".to_string()), 0);
    let listed: Vec<(&str, usize)> =
        tally.entries.iter().map(|e| (e.owner.as_str(), e.count)).collect();
    assert_eq!(listed, vec![("Public", 3), ("Non-Profit", 2), ("For Profit", 1)]);
}

#[test]
fn owner_tally_tells_similar_names_apart() {
    let mut tally = OwnerTally::new();
    tally.record(&"Profit".to_string());
    tally.record(&"profit".to_string());
    tally.record(&"Profit ".to_string());
    tally.record(&String::new());
    assert_eq!(tally.len(), 4);
    assert_eq!(tally.count(&"Profit".to_string()), 1);
    assert_eq!(tally.count(&String::new()), 1);
}

#[test]
fn owner_tallies_split_owners_by_cluster() {
    let records = vec![
        owned(1, 1, "A"),
        owned(2, 2, "B"),
        owned(3, 3, "A"),
        owned(4, 4, "C"),
        owned(5, 5, "B"),
    ];
    let tallies = owner_tallies(&records, &[0, 0, 2, 2, 0], 3);
    assert_eq!(tallies.len(), 3);
    assert_eq!(tallies[0].count(&"A".to_string()), 1);
    assert_eq!(tallies[0].count(&"B".to_string()), 2);
    assert_eq!(tallies[0].count(&"C".to_string()), 0);
    assert_eq!(tallies[0].len(), 2);
    assert!(tallies[1].is_empty());
    assert_eq!(tallies[2].count(&"A".to_string()), 1);
    assert_eq!(tallies[2].count(&"C".to_string()), 1);
    assert_eq!(tallies[2].len(), 2);
}

#[test]
fn summarize_reports_centroids_sizes_and_owners() {
    let records = vec![
        owned(10, 2, "Non-Profit"),
        owned(20, 5, "For Profit"),
        owned(12, 3, "Non-Profit"),
        owned(200, 50, "For Profit"),
        owned(210, 48, "Public"),
        owned(15, 1, "Non-Profit"),
        owned(190, 40, "For Profit"),
        owned(11, 2, "Public"),
    ];
    let labels = vec![0, 0, 0, 1, 1, 2, 1, 0];
    let centroids = vec![
        FeatureVector { u: 139586436, s: 350609574 },
        FeatureVector { u: 8160437862, s: 7888715441 },
        FeatureVector { u: 214748364, s: 0 },
    ];
    let summary = summarize(&records, &labels, &centroids, &sample_params());
    assert_eq!(
        summary.centroids,
        vec![
            RawCentroid { total_units: 13, subsidy_count: 3 },
            RawCentroid { total_units: 200, subsidy_count: 46 },
            RawCentroid { total_units: 15, subsidy_count: 1 },
        ]
    );
    assert_eq!(summary.sizes, vec![4, 3, 1]);
    assert_eq!(summary.owner_distribution.len(), 3);
    assert_eq!(summary.owner_distribution[0].count(&"Non-Profit".to_string()), 2);
    assert_eq!(summary.owner_distribution[0].count(&"For Profit".to_string()), 1);
    assert_eq!(summary.owner_distribution[0].count(&"Public".to_string()), 1);
    assert_eq!(summary.owner_distribution[1].count(&"For Profit".to_string()), 2);
    assert_eq!(summary.owner_distribution[1].count(&"Public".to_string()), 1);
    assert_eq!(summary.owner_distribution[2].count(&"Non-Profit".to_string()), 1);
    assert_eq!(summary.owner_distribution[2].len(), 1);
}

#[test]
fn summarize_reports_empty_clusters_with_size_zero_and_no_owners() {
    let records = vec![owned(1, 1, "A"), owned(2, 2, "B"), owned(3, 3, "A")];
    let centroids = vec![
        FeatureVector { u: 0, s: 0 },
        FeatureVector { u: FIXED_ONE / 2, s: FIXED_ONE / 2 },
        FeatureVector { u: FIXED_ONE, s: FIXED_ONE },
        FeatureVector { u: 5, s: 5 },
    ];
    let params = ScaleParameters {
        units: DimensionScale { min: 1, range: 2 },
        subsidies: DimensionScale { min: 1, range: 2 },
    };
    let summary = summarize(&records, &[0, 0, 2], &centroids, &params);
    assert_eq!(summary.sizes, vec![2, 0, 1, 0]);
    for c in [1usize, 3] {
        assert_eq!(summary.sizes[c], 0);
        assert!(summary.owner_distribution[c].is_empty());
        assert_eq!(summary.owner_distribution[c].count(&"A".to_string()), 0);
    }
    assert_eq!(summary.centroids[1], RawCentroid { total_units: 2, subsidy_count: 2 });
    assert_eq!(summary.centroids[3], RawCentroid { total_units: 1, subsidy_count: 1 });
    assert_eq!(summary.owner_distribution[0].len(), 2);
    assert_eq!(summary.owner_distribution[2].count(&"A".to_string()), 1);
}

#[test]
fn summarize_without_clusters_is_empty() {
    let summary = summarize(&[], &[], &[], &sample_params());
    assert!(summary.centroids.is_empty());
    assert!(summary.sizes.is_empty());
    assert!(summary.owner_distribution.is_empty());
}
