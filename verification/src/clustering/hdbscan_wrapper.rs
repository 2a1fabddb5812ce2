//! Density clustering: the hyperparameters that the clustering routine is
//! given, and the shape in which its labels are handed on.

use vstd::prelude::*;
use crate::geometry::{ONE, ZERO};

verus! {

/// The label of a point that belongs to no cluster.
pub const NOISE: i32 = -1;

/// The smaller of two numbers.
pub open spec fn min(a: int, b: int) -> int {
    if a <= b {
        a
    } else {
        b
    }
}

/// The larger of two numbers.
pub open spec fn max(a: int, b: int) -> int {
    if a >= b {
        a
    } else {
        b
    }
}

/// The `min_samples` that the routine accepts for `n_samples` points: at
/// least 1, and otherwise no more than what was asked for and than one less
/// than there are points.
pub open spec fn clamped_min_samples(min_samples: usize, n_samples: usize) -> int {
    max(1, min(min_samples as int, max(n_samples - 1, 0)))
}

/// The `min_cluster_size` that the routine accepts for `n_samples` points: at
/// least 2, and otherwise no more than what was asked for and than there are
/// points.
pub open spec fn clamped_min_cluster_size(min_cluster_size: usize, n_samples: usize) -> int {
    max(2, min(min_cluster_size as int, n_samples as int))
}

/// The hyperparameters that a run is made with.
#[derive(Clone, Copy, Debug, PartialEq, Eq, Structural)]
pub struct HyperParams {
    pub min_samples: usize,
    pub min_cluster_size: usize,
}

/// Fits the hyperparameters that were asked for to the number of points.
///
/// The clustering routine refuses a `min_samples` or a `min_cluster_size`
/// that is not below the number of points, so both are clamped, without an
/// error.
pub fn adjust_hyper_params(min_samples: usize, min_cluster_size: usize, n_samples: usize) -> (params:
    HyperParams)
    ensures
        params.min_samples == clamped_min_samples(min_samples, n_samples),
        params.min_cluster_size == clamped_min_cluster_size(min_cluster_size, n_samples),
{
    let most = if n_samples == 0 {
        0
    } else {
        n_samples - 1
    };
    let samples = if min_samples < most {
        min_samples
    } else {
        most
    };
    let size = if min_cluster_size < n_samples {
        min_cluster_size
    } else {
        n_samples
    };
    HyperParams {
        min_samples: if samples < 1 {
            1
        } else {
            samples
        },
        min_cluster_size: if size < 2 {
            2
        } else {
            size
        },
    }
}

/// The labels of a run and what is made up beside them. The probabilities and
/// the outlier scores are double-precision numbers, by their bit patterns.
#[derive(Clone, Debug, PartialEq, Eq)]
pub struct HdbscanResult {
    pub labels: Vec<i32>,
    pub probabilities: Vec<u64>,
    pub outlier_scores: Vec<u64>,
}

/// The probability that stands beside `label`: one for a point in a cluster,
/// zero for noise.
pub open spec fn probability_of(label: i32) -> u64 {
    if label == NOISE {
        ZERO
    } else {
        ONE
    }
}

/// The outlier score that stands beside `label`: the other way round.
pub open spec fn outlier_score_of(label: i32) -> u64 {
    if label == NOISE {
        ONE
    } else {
        ZERO
    }
}

/// Puts the labels of a run into the shape in which they are handed on. The
/// routine gives neither probabilities nor outlier scores, so each point gets
/// those that its label stands for.
pub fn hdbscan_fit(labels: Vec<i32>) -> (result: HdbscanResult)
    ensures
        result.labels == labels,
        result.probabilities@ == labels@.map_values(|label: i32| probability_of(label)),
        result.outlier_scores@ == labels@.map_values(|label: i32| outlier_score_of(label)),
{
    let mut probabilities: Vec<u64> = Vec::new();
    let mut outlier_scores: Vec<u64> = Vec::new();
    let mut i: usize = 0;
    while i < labels.len()
        invariant
            i <= labels.len(),
            probabilities@ == labels@.take(i as int).map_values(|label: i32| probability_of(label)),
            outlier_scores@ == labels@.take(i as int).map_values(
                |label: i32| outlier_score_of(label),
            ),
        decreases labels.len() - i,
    {
        let noise = labels[i] == NOISE;
        probabilities.push(if noise { ZERO } else { ONE });
        outlier_scores.push(if noise { ONE } else { ZERO });
        assert(labels@.take(i + 1) =~= labels@.take(i as int).push(labels@[i as int]));
        assert(probabilities@ =~= labels@.take(i + 1).map_values(
            |label: i32| probability_of(label),
        ));
        assert(outlier_scores@ =~= labels@.take(i + 1).map_values(
            |label: i32| outlier_score_of(label),
        ));
        i += 1;
    }
    assert(labels@.take(i as int) == labels@);
    HdbscanResult { labels, probabilities, outlier_scores }
}

} // verus!
