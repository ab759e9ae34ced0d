use housing_clustering::kmeans::{
    assign, fit_predict, fit_predict_seeded, nearest_centroid, same_labels, seed_centroids,
    squared_distance, update_centroids,
};
use housing_clustering::record::ClusterError;
use housing_clustering::scaler::{FeatureVector, FIXED_ONE};

fn fv(u: u64, s: u64) -> FeatureVector {
    FeatureVector { u, s }
}

fn mixed_vectors() -> Vec<FeatureVector> {
    vec![
        fv(0, 175304787),
        fv(429496729, 701219150),
        fv(85899345, 350609575),
        fv(8160437862, 8589934592),
        fv(8589934592, 8239325016),
        fv(214748364, 0),
        fv(7730941132, 6836886716),
        fv(42949672, 175304787),
    ]
}

#[test]
fn squared_distance_is_exact() {
    assert_eq!(squared_distance(&fv(3, 10), &fv(7, 4)), 52);
    assert_eq!(squared_distance(&fv(7, 4), &fv(3, 10)), 52);
    assert_eq!(squared_distance(&fv(9, 9), &fv(9, 9)), 0);
    assert_eq!(
        squared_distance(&fv(0, 0), &fv(FIXED_ONE, FIXED_ONE)),
        147573952589676412928u128
    );
}

#[test]
fn nearest_centroid_picks_the_closest() {
    let centroids = vec![fv(0, 0), fv(FIXED_ONE, FIXED_ONE), fv(FIXED_ONE / 2, FIXED_ONE / 2)];
    assert_eq!(nearest_centroid(&fv(10, 10), &centroids), 0);
    assert_eq!(nearest_centroid(&fv(FIXED_ONE - 5, FIXED_ONE), &centroids), 1);
    assert_eq!(nearest_centroid(&fv(FIXED_ONE / 2, FIXED_ONE / 2 + 9), &centroids), 2);
}

#[test]
fn nearest_centroid_breaks_ties_by_lowest_index() {
    let v = fv(FIXED_ONE / 2, 0);
    assert_eq!(nearest_centroid(&v, &[fv(0, 0), fv(FIXED_ONE, 0)]), 0);
    assert_eq!(nearest_centroid(&v, &[fv(FIXED_ONE, 0), fv(0, 0)]), 0);
    assert_eq!(
        nearest_centroid(
            &v,
            &[fv(FIXED_ONE, 0), fv(0, 0), fv(FIXED_ONE / 2, 0), fv(FIXED_ONE / 2, 0)]
        ),
        2
    );
}

#[test]
fn assign_labels_every_vector() {
    let vectors = mixed_vectors();
    let centroids = vec![fv(0, 175304787), fv(85899345, 350609575), fv(7730941132, 6836886716)];
    let labels = assign(&vectors, &centroids);
    assert_eq!(labels, vec![0, 1, 1, 2, 2, 0, 2, 0]);
    assert_eq!(assign(&[], &centroids), Vec::<usize>::new());
}

#[test]
fn update_centroids_takes_the_mean_rounded_down() {
    let vectors = vec![fv(0, 0), fv(10, 20), fv(30, 40), fv(FIXED_ONE, FIXED_ONE), fv(5, 5)];
    let previous = vec![fv(1, 1), fv(7, 7), fv(9, 9)];
    let next = update_centroids(&vectors, &[0, 0, 0, 2, 0], &previous);
    assert_eq!(next, vec![fv(11, 16), fv(7, 7), fv(FIXED_ONE, FIXED_ONE)]);
}

#[test]
fn update_centroids_keeps_the_centroid_of_an_empty_cluster() {
    let vectors = vec![fv(0, 0), fv(10, 20), fv(30, 40), fv(FIXED_ONE, FIXED_ONE), fv(5, 5)];
    let previous = vec![fv(1, 1), fv(7, 7)];
    let next = update_centroids(&vectors, &[1, 1, 1, 1, 1], &previous);
    assert_eq!(next, vec![fv(1, 1), fv(1717986927, 1717986931)]);
}

#[test]
fn seed_centroids_samples_evenly_spaced_positions() {
    let vectors: Vec<FeatureVector> = (0..10u64).map(|i| fv(i, 100 + i)).collect();
    let picked = |seed: u64| -> Vec<u64> {
        seed_centroids(&vectors, 3, seed).iter().map(|c| c.u).collect()
    };
    assert_eq!(picked(0), vec![0, 3, 6]);
    assert_eq!(picked(1), vec![1, 4, 7]);
    assert_eq!(picked(7), vec![7, 0, 3]);
    assert_eq!(picked(10), vec![0, 3, 6]);
    assert_eq!(picked(25), vec![5, 8, 1]);
    assert_eq!(picked(u64::MAX), vec![5, 8, 1]);
    let all: Vec<u64> = seed_centroids(&vectors, 10, 0).iter().map(|c| c.u).collect();
    assert_eq!(all, vec![0, 1, 2, 3, 4, 5, 6, 7, 8, 9]);
    let one: Vec<u64> = seed_centroids(&vectors, 1, 4).iter().map(|c| c.u).collect();
    assert_eq!(one, vec![4]);
}

#[test]
fn same_labels_compares_whole_sequences() {
    assert!(same_labels(&[0, 1, 2], &[0, 1, 2]));
    assert!(!same_labels(&[0, 1, 2], &[0, 1, 1]));
    assert!(!same_labels(&[0, 1], &[0, 1, 2]));
    assert!(same_labels(&[], &[]));
    assert!(!same_labels(&[], &[0]));
}

#[test]
fn fit_predict_separates_two_groups() {
    let vectors = vec![fv(0, 0), fv(86767016, 86767016), fv(8503167575, 8503167575), fv(FIXED_ONE, FIXED_ONE)];
    let (labels, centroids) = fit_predict(&vectors, 2, 100).expect("clustering failed");
    assert_eq!(labels, vec![0, 0, 1, 1]);
    assert_eq!(centroids, vec![fv(43383508, 43383508), fv(8546551083, 8546551083)]);
}

#[test]
fn fit_predict_on_mixed_vectors() {
    let vectors = mixed_vectors();
    let (labels, centroids) = fit_predict(&vectors, 3, 100).expect("clustering failed");
    assert_eq!(labels, vec![0, 0, 0, 1, 1, 2, 1, 0]);
    assert_eq!(
        centroids,
        vec![fv(139586436, 350609574), fv(8160437862, 7888715441), fv(214748364, 0)]
    );
    let (labels, centroids) = fit_predict(&vectors, 1, 100).expect("clustering failed");
    assert_eq!(labels, vec![0; 8]);
    assert_eq!(centroids, vec![fv(3156800962, 3133573077)]);
}

#[test]
fn fit_predict_stops_at_the_iteration_limit() {
    let vectors = mixed_vectors();
    let (labels, centroids) = fit_predict(&vectors, 3, 1).expect("clustering failed");
    assert_eq!(labels, vec![0, 1, 1, 1, 1, 2, 1, 0]);
    assert_eq!(
        centroids,
        vec![fv(21474836, 175304787), fv(4999341932, 4943595009), fv(214748364, 0)]
    );
    let (labels, centroids) = fit_predict(&vectors, 3, 2).expect("clustering failed");
    assert_eq!(labels, vec![0, 0, 0, 1, 1, 2, 1, 0]);
    assert_eq!(
        centroids,
        vec![fv(139586436, 350609574), fv(8160437862, 7888715441), fv(214748364, 0)]
    );
}

#[test]
fn fit_predict_result_is_stable_once_converged() {
    let vectors = mixed_vectors();
    let converged = fit_predict(&vectors, 3, 3).expect("clustering failed");
    for limit in [4usize, 5, 100, usize::MAX] {
        assert_eq!(fit_predict(&vectors, 3, limit), Ok(converged.clone()));
    }
    let (labels, centroids) = converged;
    assert_eq!(assign(&vectors, &centroids), labels);
    assert_eq!(update_centroids(&vectors, &labels, &centroids), centroids);
}

#[test]
fn fit_predict_is_deterministic() {
    let vectors = mixed_vectors();
    for k in 1..=8usize {
        for seed in [0u64, 1, 5, 1234567] {
            let first = fit_predict_seeded(&vectors, k, seed, 100);
            let second = fit_predict_seeded(&vectors, k, seed, 100);
            assert!(first.is_ok());
            assert_eq!(first, second);
        }
    }
}

#[test]
fn fit_predict_uses_seed_zero() {
    let vectors = mixed_vectors();
    assert_eq!(fit_predict(&vectors, 3, 100), fit_predict_seeded(&vectors, 3, 0, 100));
    assert_eq!(fit_predict(&vectors, 2, 1), fit_predict_seeded(&vectors, 2, 0, 1));
}

#[test]
fn seed_rotates_the_starting_centroids() {
    let vectors = mixed_vectors();
    let (labels, centroids) = fit_predict_seeded(&vectors, 3, 5, 100).expect("clustering failed");
    assert_eq!(labels, vec![1, 1, 1, 2, 2, 0, 2, 1]);
    assert_eq!(
        centroids,
        vec![fv(214748364, 0), fv(139586436, 350609574), fv(8160437862, 7888715441)]
    );
    let (labels, centroids) = fit_predict_seeded(&vectors, 2, 3, 100).expect("clustering failed");
    assert_eq!(labels, vec![1, 1, 1, 0, 0, 1, 0, 1]);
    assert_eq!(centroids, vec![fv(8160437862, 7888715441), fv(154618822, 280487659)]);
}

#[test]
fn fit_predict_labels_and_centroids_are_in_range() {
    let vectors = mixed_vectors();
    for k in 1..=8usize {
        let (labels, centroids) = fit_predict(&vectors, k, 100).expect("clustering failed");
        assert_eq!(labels.len(), vectors.len());
        assert!(labels.iter().all(|&label| label < k));
        assert_eq!(centroids.len(), k);
        assert!(centroids.iter().all(|c| c.u <= FIXED_ONE && c.s <= FIXED_ONE));
    }
}

#[test]
fn fit_predict_with_one_cluster_per_vector() {
    let vectors = mixed_vectors();
    let (labels, centroids) = fit_predict(&vectors, 8, 100).expect("clustering failed");
    assert_eq!(labels, vec![0, 1, 2, 3, 4, 5, 6, 7]);
    assert_eq!(centroids, vectors);
}

#[test]
fn fit_predict_rejects_zero_clusters() {
    let vectors = mixed_vectors();
    assert_eq!(fit_predict(&vectors, 0, 100), Err(ClusterError::InvalidClusterCount));
    assert_eq!(fit_predict_seeded(&vectors, 0, 9, 100), Err(ClusterError::InvalidClusterCount));
}

#[test]
fn fit_predict_rejects_more_clusters_than_vectors() {
    let vectors = mixed_vectors();
    assert_eq!(fit_predict(&vectors, 9, 100), Err(ClusterError::InvalidClusterCount));
    assert_eq!(fit_predict(&[], 1, 100), Err(ClusterError::InvalidClusterCount));
    assert_eq!(fit_predict(&[], 0, 100), Err(ClusterError::InvalidClusterCount));
}

#[test]
fn fit_predict_freezes_the_centroid_of_an_empty_cluster() {
    let vectors = vec![fv(7, 7), fv(7, 7), fv(7, 7)];
    let (labels, centroids) = fit_predict(&vectors, 3, 100).expect("clustering failed");
    assert_eq!(labels, vec![0, 0, 0]);
    assert_eq!(centroids, vec![fv(7, 7), fv(7, 7), fv(7, 7)]);
}
