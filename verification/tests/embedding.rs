use clusterkit::embedder::{
    GraphPlan, IntegerArg, RustUMAP, SavedUMAPModel, SolverOutcome, SolverPlan, EF_CONSTRUCTION,
    MAX_NB_CONNECTION,
};
use clusterkit::geometry::ONE;
use clusterkit::error::Error;
use clusterkit::hnsw::Insertion;

fn defaults() -> RustUMAP {
    RustUMAP::new(
        IntegerArg::Absent,
        IntegerArg::Absent,
        IntegerArg::Absent,
        IntegerArg::Absent,
        IntegerArg::Absent,
    )
}

fn with_neighbors(n_neighbors: u64) -> RustUMAP {
    RustUMAP::new(
        IntegerArg::Value(2),
        IntegerArg::Value(n_neighbors),
        IntegerArg::Absent,
        IntegerArg::Absent,
        IntegerArg::Absent,
    )
}

fn singles(rows: &[Vec<f32>]) -> Vec<Vec<u32>> {
    rows.iter().map(|row| row.iter().map(|x| x.to_bits()).collect()).collect()
}

fn doubles(rows: &[Vec<f64>]) -> Vec<Vec<u64>> {
    rows.iter().map(|row| row.iter().map(|x| x.to_bits()).collect()).collect()
}

fn distance(a: &[f32], b: &[f32]) -> f32 {
    a.iter().zip(b.iter()).map(|(x, y)| (x - y).powi(2)).sum::<f32>().sqrt()
}

fn key(distance: f32) -> u32 {
    if distance == 0.0 {
        0
    } else {
        distance.to_bits()
    }
}

fn embedded(rows: &[Vec<f64>]) -> SolverOutcome {
    SolverOutcome::Embedded { count: rows.len(), embedding: doubles(rows) }
}

#[test]
fn settings_have_defaults() {
    let umap = defaults();
    assert!(!umap.is_fitted());
    assert_eq!(
        umap.solver_plan(),
        SolverPlan {
            asked_dim: 2,
            nb_grad_batch: 10,
            scale_rho: ONE,
            beta: ONE,
            b: ONE,
            grad_step: ONE,
            nb_sampling_by_edge: 8,
            dmap_init: true,
            random_seed: None,
        }
    );
    assert_eq!(f64::from_bits(ONE), 1.0);
    assert_eq!(
        umap.graph_plan(100, 4),
        GraphPlan {
            max_nb_connection: MAX_NB_CONNECTION,
            nb_points: 100,
            nb_layer: 4,
            ef_construction: EF_CONSTRUCTION,
            random_seed: None,
            insertion: Insertion::Parallel,
            n_neighbors: 15,
        }
    );
    assert_eq!(MAX_NB_CONNECTION, 70);
    assert_eq!(EF_CONSTRUCTION, 50);
}

#[test]
fn settings_are_taken_where_they_fit() {
    let umap = RustUMAP::new(
        IntegerArg::Value(3),
        IntegerArg::Value(7),
        IntegerArg::Value(99),
        IntegerArg::Value(20),
        IntegerArg::Value(0),
    );
    let solver = umap.solver_plan();
    assert_eq!(solver.asked_dim, 3);
    assert_eq!(solver.nb_grad_batch, 20);
    assert_eq!(solver.nb_sampling_by_edge, 0);
    assert_eq!(solver.random_seed, Some(99));
    let graph = umap.graph_plan(10, 2);
    assert_eq!(graph.n_neighbors, 7);
    assert_eq!(graph.random_seed, Some(99));
    assert_eq!(graph.insertion, Insertion::Serial);
}

#[test]
fn settings_that_do_not_fit_get_defaults() {
    let umap = RustUMAP::new(
        IntegerArg::OutOfRange,
        IntegerArg::Value(u32::MAX as u64 + 1),
        IntegerArg::OutOfRange,
        IntegerArg::Value(u64::MAX),
        IntegerArg::OutOfRange,
    );
    let solver = umap.solver_plan();
    assert_eq!(solver.asked_dim, 2);
    assert_eq!(solver.nb_grad_batch, 10);
    assert_eq!(solver.nb_sampling_by_edge, 8);
    assert_eq!(solver.random_seed, Some(42));
    assert_eq!(umap.graph_plan(10, 2).n_neighbors, 15);
    let largest = RustUMAP::new(
        IntegerArg::Value(u32::MAX as u64),
        IntegerArg::Absent,
        IntegerArg::Value(u64::MAX),
        IntegerArg::Absent,
        IntegerArg::Absent,
    );
    assert_eq!(largest.solver_plan().asked_dim, u32::MAX as usize);
    assert_eq!(largest.solver_plan().random_seed, Some(u64::MAX));
}

#[test]
fn graph_has_at_most_sixteen_layers() {
    let umap = defaults();
    assert_eq!(umap.graph_plan(1, 0).nb_layer, 0);
    assert_eq!(umap.graph_plan(1000, 6).nb_layer, 6);
    assert_eq!(umap.graph_plan(10_000_000, 16).nb_layer, 16);
    assert_eq!(umap.graph_plan(100_000_000, 18).nb_layer, 16);
}

#[test]
fn fit_keeps_vectors_and_embedding() {
    let mut umap = defaults();
    let training = singles(&[vec![0.0, 0.0], vec![1.0, 0.0], vec![0.0, 1.0]]);
    let embedding = vec![vec![0.5, -0.5], vec![1.5, 2.5], vec![-3.0, 4.0]];
    let answer = umap.fit_transform(training.clone(), embedded(&embedding));
    assert_eq!(answer, Ok(doubles(&embedding)));
    assert!(umap.is_fitted());
    assert_eq!(umap.training_data(), Ok(&training));
    assert_eq!(umap.training_embeddings(), Ok(&doubles(&embedding)));
}

#[test]
fn fit_alone_answers_nothing() {
    let mut umap = defaults();
    let training = singles(&[vec![0.0], vec![1.0]]);
    assert_eq!(umap.fit(training, embedded(&[vec![0.1, 0.2], vec![0.3, 0.4]])), Ok(()));
    assert!(umap.is_fitted());
}

#[test]
fn fit_needs_rows() {
    let mut umap = defaults();
    assert_eq!(
        umap.fit_transform(Vec::new(), embedded(&[vec![0.0, 0.0]])),
        Err(Error::InvalidArgument)
    );
    assert!(!umap.is_fitted());
}

#[test]
fn fit_needs_rows_of_one_length() {
    let mut umap = defaults();
    let ragged = singles(&[vec![0.0, 0.0], vec![1.0, 0.0], vec![0.0], vec![]]);
    assert_eq!(
        umap.fit_transform(ragged.clone(), embedded(&[vec![0.0, 0.0]])),
        Err(Error::RowLengthMismatch { row: 2, expected: 2, got: 1 })
    );
    assert_eq!(
        umap.fit(ragged, SolverOutcome::Failed),
        Err(Error::RowLengthMismatch { row: 2, expected: 2, got: 1 })
    );
    assert!(!umap.is_fitted());
}

#[test]
fn fit_fails_with_the_solver() {
    let mut umap = defaults();
    let training = singles(&[vec![0.0, 0.0], vec![1.0, 0.0]]);
    assert_eq!(
        umap.fit_transform(training.clone(), SolverOutcome::Failed),
        Err(Error::EmbeddingFailed)
    );
    assert!(!umap.is_fitted());
    assert_eq!(
        umap.fit_transform(
            training.clone(),
            SolverOutcome::Embedded { count: 0, embedding: Vec::new() }
        ),
        Err(Error::EmbeddingFailed)
    );
    assert!(!umap.is_fitted());
    assert_eq!(umap.save_model().err(), Some(Error::ModelNotFitted));
}

#[test]
fn failed_fit_leaves_the_model_that_was_there() {
    let mut umap = defaults();
    let training = singles(&[vec![0.0, 0.0], vec![1.0, 0.0]]);
    let embedding = vec![vec![0.5, -0.5], vec![1.5, 2.5]];
    umap.fit(training.clone(), embedded(&embedding)).unwrap();
    let other = singles(&[vec![9.0, 9.0]]);
    assert_eq!(umap.fit(other, SolverOutcome::Failed), Err(Error::EmbeddingFailed));
    assert_eq!(umap.training_data(), Ok(&training));
    assert_eq!(umap.training_embeddings(), Ok(&doubles(&embedding)));
}

#[test]
fn nothing_works_without_a_model() {
    let umap = defaults();
    assert_eq!(umap.transform(&vec![vec![0, 1]]), Err(Error::ModelNotFitted));
    assert_eq!(umap.transform(&Vec::new()), Err(Error::ModelNotFitted));
    assert_eq!(umap.save_model(), Err(Error::ModelNotFitted));
    assert_eq!(umap.training_data(), Err(Error::ModelNotFitted));
    assert_eq!(umap.training_embeddings(), Err(Error::ModelNotFitted));
}

#[test]
fn model_is_saved_without_the_seed() {
    let mut umap = RustUMAP::new(
        IntegerArg::Value(3),
        IntegerArg::Value(4),
        IntegerArg::Value(7),
        IntegerArg::Value(5),
        IntegerArg::Value(6),
    );
    let training = singles(&[vec![1.0, 2.0], vec![3.0, 4.0]]);
    let embedding = vec![vec![0.1, 0.2, 0.3], vec![0.4, 0.5, 0.6]];
    umap.fit(training.clone(), embedded(&embedding)).unwrap();
    let saved = umap.save_model().unwrap();
    assert_eq!(
        saved,
        SavedUMAPModel {
            n_components: 3,
            n_neighbors: 4,
            nb_grad_batch: 5,
            nb_sampling_by_edge: 6,
            embeddings: doubles(&embedding),
            original_data: training.clone(),
        }
    );
    let loaded = RustUMAP::load_model(saved.clone());
    assert!(loaded.is_fitted());
    assert_eq!(loaded.solver_plan().random_seed, None);
    assert_eq!(loaded.graph_plan(2, 0).insertion, Insertion::Parallel);
    assert_eq!(loaded.solver_plan().asked_dim, 3);
    assert_eq!(loaded.graph_plan(2, 0).n_neighbors, 4);
    assert_eq!(loaded.solver_plan().nb_grad_batch, 5);
    assert_eq!(loaded.solver_plan().nb_sampling_by_edge, 6);
    assert_eq!(loaded.save_model(), Ok(saved));
    assert_eq!(loaded.training_data(), Ok(&training));
}

#[test]
fn transform_chooses_the_nearest() {
    let mut umap = with_neighbors(2);
    let vectors = vec![vec![0.0f32, 0.0], vec![10.0, 0.0], vec![0.0, 3.0], vec![4.0, 4.0]];
    let embedding = vec![vec![0.0, 0.0], vec![1.0, 1.0], vec![2.0, 2.0], vec![3.0, 3.0]];
    umap.fit(singles(&vectors), embedded(&embedding)).unwrap();
    let queries = vec![vec![0.0f32, 1.0], vec![9.0, 1.0]];
    let keys: Vec<Vec<u32>> = queries
        .iter()
        .map(|q| vectors.iter().map(|v| key(distance(q, v))).collect())
        .collect();
    assert_eq!(umap.transform(&keys), Ok(vec![vec![0, 2], vec![1, 3]]));
}

#[test]
fn transform_takes_all_when_few() {
    let mut umap = defaults();
    let vectors = vec![vec![0.0f32], vec![5.0], vec![2.0]];
    umap.fit(singles(&vectors), embedded(&[vec![0.0, 0.0], vec![1.0, 1.0], vec![2.0, 2.0]]))
        .unwrap();
    let keys = vec![vec![key(1.0), key(4.0), key(1.0)]];
    assert_eq!(umap.transform(&keys), Ok(vec![vec![0, 2, 1]]));
    assert_eq!(umap.transform(&Vec::new()), Ok(Vec::new()));
}

#[test]
fn transform_needs_a_key_for_each_vector() {
    let mut umap = defaults();
    umap.fit(singles(&[vec![0.0], vec![5.0]]), embedded(&[vec![0.0, 0.0], vec![1.0, 1.0]]))
        .unwrap();
    assert_eq!(
        umap.transform(&vec![vec![1, 2], vec![1], vec![]]),
        Err(Error::DimensionMismatch { expected: 2, got: 1 })
    );
    assert_eq!(
        umap.transform(&vec![vec![1, 2, 3]]),
        Err(Error::DimensionMismatch { expected: 2, got: 3 })
    );
}

fn project(umap: &RustUMAP, queries: &[Vec<f32>]) -> Vec<Vec<f64>> {
    let vectors: Vec<Vec<f32>> = umap
        .training_data()
        .unwrap()
        .iter()
        .map(|row| row.iter().map(|bits| f32::from_bits(*bits)).collect())
        .collect();
    let embeddings: Vec<Vec<f64>> = umap
        .training_embeddings()
        .unwrap()
        .iter()
        .map(|row| row.iter().map(|bits| f64::from_bits(*bits)).collect())
        .collect();
    let distances: Vec<Vec<f32>> =
        queries.iter().map(|q| vectors.iter().map(|v| distance(q, v)).collect()).collect();
    let keys: Vec<Vec<u32>> =
        distances.iter().map(|row| row.iter().map(|d| key(*d)).collect()).collect();
    let chosen = umap.transform(&keys).unwrap();
    let width = umap.solver_plan().asked_dim;
    let mut projected = Vec::new();
    for (row, neighbors) in chosen.iter().enumerate() {
        let mut average = vec![0.0f64; width];
        let mut total_weight = 0.0f64;
        for idx in neighbors {
            let weight = 1.0 / (distances[row][*idx] as f64 + 0.001);
            total_weight += weight;
            for (i, value) in embeddings[*idx].iter().enumerate() {
                average[i] += value * weight;
            }
        }
        for value in average.iter_mut() {
            *value /= total_weight;
        }
        projected.push(average);
    }
    projected
}

#[test]
fn transform_of_the_training_rows_is_near_their_embedding() {
    let mut umap = with_neighbors(3);
    let vectors = vec![
        vec![0.0f32, 0.0],
        vec![10.0, 0.0],
        vec![0.0, 10.0],
        vec![10.0, 10.0],
        vec![5.0, 5.0],
    ];
    let embedding =
        vec![vec![-1.0, -1.0], vec![1.0, -1.0], vec![-1.0, 1.0], vec![1.0, 1.0], vec![0.0, 0.0]];
    umap.fit(singles(&vectors), embedded(&embedding)).unwrap();
    let projected = project(&umap, &vectors);
    assert_eq!(projected.len(), 5);
    for (row, own) in embedding.iter().enumerate() {
        for (i, value) in own.iter().enumerate() {
            assert!((projected[row][i] - value).abs() < 0.001);
        }
    }
}

#[test]
fn transform_weighs_by_inverse_distance() {
    let mut umap = with_neighbors(2);
    let vectors = vec![vec![0.0f32], vec![3.0], vec![100.0]];
    let embedding = vec![vec![0.0, 10.0], vec![6.0, 20.0], vec![50.0, 50.0]];
    umap.fit(singles(&vectors), embedded(&embedding)).unwrap();
    let projected = project(&umap, &[vec![1.0]]);
    let near = 1.0 / (1.0 + 0.001);
    let far = 1.0 / (2.0 + 0.001);
    let total = near + far;
    assert!((projected[0][0] - (0.0 * near + 6.0 * far) / total).abs() < 1e-12);
    assert!((projected[0][1] - (10.0 * near + 20.0 * far) / total).abs() < 1e-12);
    // The same rows give the same answer each time.
    assert_eq!(project(&umap, &[vec![1.0]]), projected);
}
