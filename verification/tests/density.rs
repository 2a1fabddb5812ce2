use clusterkit::geometry::{ONE, ZERO};
use clusterkit::clustering::hdbscan_wrapper::{
    adjust_hyper_params, hdbscan_fit, HyperParams, NOISE,
};

#[test]
fn hyper_params_are_clamped_to_the_samples() {
    let params = adjust_hyper_params(10, 10, 5);
    assert_eq!(params.min_samples, 4);
    assert_eq!(params.min_cluster_size, 5);
}

#[test]
fn hyper_params_that_fit_stay() {
    assert_eq!(
        adjust_hyper_params(3, 4, 100),
        HyperParams { min_samples: 3, min_cluster_size: 4 }
    );
    assert_eq!(
        adjust_hyper_params(99, 100, 100),
        HyperParams { min_samples: 99, min_cluster_size: 100 }
    );
    assert_eq!(
        adjust_hyper_params(100, 101, 100),
        HyperParams { min_samples: 99, min_cluster_size: 100 }
    );
}

#[test]
fn hyper_params_have_floors() {
    assert_eq!(adjust_hyper_params(0, 0, 50), HyperParams { min_samples: 1, min_cluster_size: 2 });
    assert_eq!(adjust_hyper_params(5, 5, 1), HyperParams { min_samples: 1, min_cluster_size: 2 });
    assert_eq!(adjust_hyper_params(5, 5, 0), HyperParams { min_samples: 1, min_cluster_size: 2 });
    assert_eq!(adjust_hyper_params(5, 5, 2), HyperParams { min_samples: 1, min_cluster_size: 2 });
    assert_eq!(
        adjust_hyper_params(usize::MAX, usize::MAX, usize::MAX),
        HyperParams { min_samples: usize::MAX - 1, min_cluster_size: usize::MAX }
    );
}

#[test]
fn bit_patterns_are_those_of_one_and_zero() {
    assert_eq!(f64::from_bits(ONE), 1.0);
    assert_eq!(f64::from_bits(ZERO), 0.0);
    assert_eq!(NOISE, -1);
}

#[test]
fn labels_get_probabilities_and_scores() {
    let result = hdbscan_fit(vec![0, -1, 1, 1, -1, 0]);
    assert_eq!(result.labels, vec![0, -1, 1, 1, -1, 0]);
    let probabilities: Vec<f64> = result.probabilities.iter().map(|b| f64::from_bits(*b)).collect();
    let scores: Vec<f64> = result.outlier_scores.iter().map(|b| f64::from_bits(*b)).collect();
    assert_eq!(probabilities, vec![1.0, 0.0, 1.0, 1.0, 0.0, 1.0]);
    assert_eq!(scores, vec![0.0, 1.0, 0.0, 0.0, 1.0, 0.0]);
}

#[test]
fn no_labels_give_nothing() {
    let result = hdbscan_fit(Vec::new());
    assert!(result.labels.is_empty());
    assert!(result.probabilities.is_empty());
    assert!(result.outlier_scores.is_empty());
}

#[test]
fn other_negative_labels_are_no_noise() {
    let result = hdbscan_fit(vec![-2, i32::MIN, i32::MAX]);
    assert_eq!(result.probabilities, vec![ONE, ONE, ONE]);
    assert_eq!(result.outlier_scores, vec![ZERO, ZERO, ZERO]);
}
