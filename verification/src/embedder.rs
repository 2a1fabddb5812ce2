//! The graph-embedding pipeline: its configuration, the model a fit leaves
//! behind, and the choice of neighbours when new points are projected.
//!
//! The neighbour graph and the embedding solver work on numbers that this
//! crate does not compute with. A caller runs them and reports what came
//! back; what is decided on the way stands here. Vectors and embeddings are
//! kept by the bit patterns of their elements, single precision for the
//! training vectors and double precision for the embeddings.

use vstd::prelude::*;
use crate::error::Error;
use crate::geometry::{are_nearest, at_most, nearest_neighbors, ONE};
use crate::hnsw::Insertion;
use crate::utils::{copy_matrix, matrix_shape, rows_of, shape};

verus! {

/// Output dimension where none is asked for.
pub const DEFAULT_N_COMPONENTS: usize = 2;

/// Neighbours per point where none are asked for.
pub const DEFAULT_N_NEIGHBORS: usize = 15;

/// Gradient batches of the solver where none are asked for.
pub const DEFAULT_NB_GRAD_BATCH: usize = 10;

/// Samples per edge of the solver where none are asked for.
pub const DEFAULT_NB_SAMPLING_BY_EDGE: usize = 8;

/// The seed that stands in for one that does not fit in 64 bits.
pub const FALLBACK_SEED: u64 = 42;

/// Connections per node of the neighbour graph.
pub const MAX_NB_CONNECTION: usize = 70;

/// Search breadth while the neighbour graph is built.
pub const EF_CONSTRUCTION: usize = 50;

/// The most layers the neighbour graph gets.
pub const MAX_LAYER: usize = 16;

/// An optional integer option as a caller found it.
#[derive(Clone, Copy, Debug, PartialEq, Eq, Structural)]
pub enum IntegerArg {
    /// Not given, or given as something that is no integer.
    Absent,
    /// An integer that is negative or needs more than 64 bits.
    OutOfRange,
    /// An integer that fits in 64 bits.
    Value(u64),
}

/// The count that `arg` asks for: its value where that fits in 32 bits,
/// `default` otherwise.
pub open spec fn count_or(arg: IntegerArg, default: usize) -> usize {
    match arg {
        IntegerArg::Value(v) => if v <= u32::MAX {
            v as usize
        } else {
            default
        },
        _ => default,
    }
}

/// The seed that `arg` asks for: none where it is absent, `FALLBACK_SEED`
/// where it is out of range.
pub open spec fn seed_of(arg: IntegerArg) -> Option<u64> {
    match arg {
        IntegerArg::Absent => None,
        IntegerArg::OutOfRange => Some(FALLBACK_SEED),
        IntegerArg::Value(v) => Some(v),
    }
}

fn read_count(arg: IntegerArg, default: usize) -> (count: usize)
    ensures
        count == count_or(arg, default),
{
    match arg {
        IntegerArg::Value(v) => if v <= u32::MAX as u64 {
            v as usize
        } else {
            default
        },
        _ => default,
    }
}

/// With a seed the graph must come out the same each time, so points enter it
/// one by one; without one they may enter in parallel.
pub open spec fn insertion_for(random_seed: Option<u64>) -> Insertion {
    if random_seed is Some {
        Insertion::Serial
    } else {
        Insertion::Parallel
    }
}

/// What the neighbour graph of a fit is built with.
#[derive(Clone, Copy, Debug, PartialEq, Eq, Structural)]
pub struct GraphPlan {
    pub max_nb_connection: usize,
    pub nb_points: usize,
    pub nb_layer: usize,
    pub ef_construction: usize,
    pub random_seed: Option<u64>,
    pub insertion: Insertion,
    pub n_neighbors: usize,
}

/// What the embedding solver of a fit is run with. The four step sizes are
/// double-precision numbers, given by their bit patterns.
#[derive(Clone, Copy, Debug, PartialEq, Eq, Structural)]
pub struct SolverPlan {
    pub asked_dim: usize,
    pub nb_grad_batch: usize,
    pub scale_rho: u64,
    pub beta: u64,
    pub b: u64,
    pub grad_step: u64,
    pub nb_sampling_by_edge: usize,
    pub dmap_init: bool,
    pub random_seed: Option<u64>,
}

/// What the graph builder and the solver reported.
#[derive(Clone, Debug, PartialEq, Eq)]
pub enum SolverOutcome {
    /// One of them failed.
    Failed,
    /// The solver embedded `count` points; `embedding` has one row for each.
    Embedded { count: usize, embedding: Vec<Vec<u64>> },
}

/// A trained model as it is written out, field by field in this order.
#[derive(Clone, Debug, PartialEq, Eq)]
pub struct SavedUMAPModel {
    pub n_components: usize,
    pub n_neighbors: usize,
    pub nb_grad_batch: usize,
    pub nb_sampling_by_edge: usize,
    pub embeddings: Vec<Vec<u64>>,
    pub original_data: Vec<Vec<u32>>,
}

/// The training vectors of a model and the embedding that was found for them,
/// row `i` of the one for row `i` of the other.
#[derive(Clone, Debug, PartialEq, Eq)]
pub struct TrainedModel {
    pub vectors: Vec<Vec<u32>>,
    pub embeddings: Vec<Vec<u64>>,
}

/// A trained model as sequences.
pub struct ModelView {
    pub vectors: Seq<Seq<u32>>,
    pub embeddings: Seq<Seq<u64>>,
}

/// A pipeline as plain values.
pub struct UmapView {
    pub n_components: usize,
    pub n_neighbors: usize,
    pub random_seed: Option<u64>,
    pub nb_grad_batch: usize,
    pub nb_sampling_by_edge: usize,
    pub model: Option<ModelView>,
}

/// The embedding pipeline: its settings and, once fitted, its model.
#[derive(Debug)]
pub struct RustUMAP {
    n_components: usize,
    n_neighbors: usize,
    random_seed: Option<u64>,
    nb_grad_batch: usize,
    nb_sampling_by_edge: usize,
    model: Option<TrainedModel>,
}

impl View for TrainedModel {
    type V = ModelView;

    open spec fn view(&self) -> ModelView {
        ModelView { vectors: rows_of(self.vectors@), embeddings: rows_of(self.embeddings@) }
    }
}

impl View for RustUMAP {
    type V = UmapView;

    closed spec fn view(&self) -> UmapView {
        UmapView {
            n_components: self.n_components,
            n_neighbors: self.n_neighbors,
            random_seed: self.random_seed,
            nb_grad_batch: self.nb_grad_batch,
            nb_sampling_by_edge: self.nb_sampling_by_edge,
            model: match self.model {
                Some(model) => Some(model@),
                None => None,
            },
        }
    }
}

/// What a fit answers and leaves behind, given the pipeline before it, the
/// training vectors and what the solver reported.
///
/// The vectors must form a matrix, the solver must not have failed and must
/// have embedded at least one point. Then the pipeline holds the vectors and
/// their embedding, and the embedding is the answer. Otherwise the fit fails
/// and the pipeline stays as it was, with the model it had or without one.
pub open spec fn fit_result(
    before: UmapView,
    training: Seq<Vec<u32>>,
    outcome: SolverOutcome,
) -> (UmapView, Result<Seq<Seq<u64>>, Error>) {
    match shape(training) {
        Err(e) => (before, Err(e)),
        Ok(_) => match outcome {
            SolverOutcome::Failed => (before, Err(Error::EmbeddingFailed)),
            SolverOutcome::Embedded { count, embedding } => if count == 0 {
                (before, Err(Error::EmbeddingFailed))
            } else {
                (
                    UmapView {
                        model: Some(
                            ModelView {
                                vectors: rows_of(training),
                                embeddings: rows_of(embedding@),
                            },
                        ),
                        ..before
                    },
                    Ok(rows_of(embedding@)),
                )
            },
        },
    }
}

/// How many neighbours a projection draws on: as many as the pipeline asks
/// for, and no more than there are training vectors.
pub open spec fn neighbor_count(umap: UmapView) -> nat {
    at_most(umap.n_neighbors as nat, umap.model.unwrap().vectors.len())
}

impl RustUMAP {
    /// A pipeline without a model. Counts that are absent, out of range or
    /// too large for 32 bits get their defaults; see `seed_of` for the seed.
    pub fn new(
        n_components: IntegerArg,
        n_neighbors: IntegerArg,
        random_seed: IntegerArg,
        nb_grad_batch: IntegerArg,
        nb_sampling_by_edge: IntegerArg,
    ) -> (umap: RustUMAP)
        ensures
            umap@ == (UmapView {
                n_components: count_or(n_components, DEFAULT_N_COMPONENTS),
                n_neighbors: count_or(n_neighbors, DEFAULT_N_NEIGHBORS),
                random_seed: seed_of(random_seed),
                nb_grad_batch: count_or(nb_grad_batch, DEFAULT_NB_GRAD_BATCH),
                nb_sampling_by_edge: count_or(nb_sampling_by_edge, DEFAULT_NB_SAMPLING_BY_EDGE),
                model: None,
            }),
    {
        let seed = match random_seed {
            IntegerArg::Absent => None,
            IntegerArg::OutOfRange => Some(FALLBACK_SEED),
            IntegerArg::Value(v) => Some(v),
        };
        RustUMAP {
            n_components: read_count(n_components, DEFAULT_N_COMPONENTS),
            n_neighbors: read_count(n_neighbors, DEFAULT_N_NEIGHBORS),
            random_seed: seed,
            nb_grad_batch: read_count(nb_grad_batch, DEFAULT_NB_GRAD_BATCH),
            nb_sampling_by_edge: read_count(nb_sampling_by_edge, DEFAULT_NB_SAMPLING_BY_EDGE),
            model: None,
        }
    }

    /// Whether a model has been fitted or loaded.
    pub fn is_fitted(&self) -> (fitted: bool)
        ensures
            fitted == (self@.model is Some),
    {
        self.model.is_some()
    }

    /// What the neighbour graph over `nb_points` training vectors is built
    /// with. `log_points` is the natural logarithm of `nb_points`, rounded
    /// down; the graph gets that many layers, and at most `MAX_LAYER`.
    pub fn graph_plan(&self, nb_points: usize, log_points: usize) -> (plan: GraphPlan)
        ensures
            plan == (GraphPlan {
                max_nb_connection: MAX_NB_CONNECTION,
                nb_points,
                nb_layer: if log_points < MAX_LAYER {
                    log_points
                } else {
                    MAX_LAYER
                },
                ef_construction: EF_CONSTRUCTION,
                random_seed: self@.random_seed,
                insertion: insertion_for(self@.random_seed),
                n_neighbors: self@.n_neighbors,
            }),
    {
        GraphPlan {
            max_nb_connection: MAX_NB_CONNECTION,
            nb_points,
            nb_layer: if log_points < MAX_LAYER {
                log_points
            } else {
                MAX_LAYER
            },
            ef_construction: EF_CONSTRUCTION,
            random_seed: self.random_seed,
            insertion: if self.random_seed.is_some() {
                Insertion::Serial
            } else {
                Insertion::Parallel
            },
            n_neighbors: self.n_neighbors,
        }
    }

    /// What the embedding solver is run with.
    pub fn solver_plan(&self) -> (plan: SolverPlan)
        ensures
            plan == (SolverPlan {
                asked_dim: self@.n_components,
                nb_grad_batch: self@.nb_grad_batch,
                scale_rho: ONE,
                beta: ONE,
                b: ONE,
                grad_step: ONE,
                nb_sampling_by_edge: self@.nb_sampling_by_edge,
                dmap_init: true,
                random_seed: self@.random_seed,
            }),
    {
        SolverPlan {
            asked_dim: self.n_components,
            nb_grad_batch: self.nb_grad_batch,
            scale_rho: ONE,
            beta: ONE,
            b: ONE,
            grad_step: ONE,
            nb_sampling_by_edge: self.nb_sampling_by_edge,
            dmap_init: true,
            random_seed: self.random_seed,
        }
    }

    /// Ends a fit; see `fit_result`. `training` holds the vectors that were
    /// fitted and `outcome` what the solver made of them.
    pub fn fit(&mut self, training: Vec<Vec<u32>>, outcome: SolverOutcome) -> (done: Result<
        (),
        Error,
    >)
        ensures
            final(self)@ == fit_result(old(self)@, training@, outcome).0,
            match fit_result(old(self)@, training@, outcome).1 {
                Ok(_) => done == Ok::<(), Error>(()),
                Err(e) => done == Err::<(), Error>(e),
            },
    {
        match matrix_shape(&training) {
            Err(e) => {
                return Err(e);
            },
            Ok(_) => {},
        }
        match outcome {
            SolverOutcome::Failed => Err(Error::EmbeddingFailed),
            SolverOutcome::Embedded { count, embedding } => {
                if count == 0 {
                    return Err(Error::EmbeddingFailed);
                }
                self.model = Some(TrainedModel { vectors: training, embeddings: embedding });
                Ok(())
            },
        }
    }

    /// As `fit`, and hands back the embedding, row `i` for row `i` of the
    /// training vectors.
    pub fn fit_transform(&mut self, training: Vec<Vec<u32>>, outcome: SolverOutcome) -> (done:
        Result<Vec<Vec<u64>>, Error>)
        ensures
            final(self)@ == fit_result(old(self)@, training@, outcome).0,
            match fit_result(old(self)@, training@, outcome).1 {
                Ok(embedding) => done is Ok && rows_of(done->Ok_0@) == embedding,
                Err(e) => done == Err::<Vec<Vec<u64>>, Error>(e),
            },
    {
        match self.fit(training, outcome) {
            Err(e) => Err(e),
            Ok(_) => {
                match &self.model {
                    Some(model) => Ok(copy_matrix(&model.embeddings)),
                    None => Err(Error::ModelNotFitted),
                }
            },
        }
    }

    /// The training vectors of the model, or `ModelNotFitted`.
    pub fn training_data(&self) -> (vectors: Result<&Vec<Vec<u32>>, Error>)
        ensures
            match self@.model {
                Some(model) => vectors is Ok && rows_of(vectors->Ok_0@) == model.vectors,
                None => vectors == Err::<&Vec<Vec<u32>>, Error>(Error::ModelNotFitted),
            },
    {
        match &self.model {
            Some(model) => Ok(&model.vectors),
            None => Err(Error::ModelNotFitted),
        }
    }

    /// The embedding of the training vectors, or `ModelNotFitted`.
    pub fn training_embeddings(&self) -> (embeddings: Result<&Vec<Vec<u64>>, Error>)
        ensures
            match self@.model {
                Some(model) => embeddings is Ok && rows_of(embeddings->Ok_0@) == model.embeddings,
                None => embeddings == Err::<&Vec<Vec<u64>>, Error>(Error::ModelNotFitted),
            },
    {
        match &self.model {
            Some(model) => Ok(&model.embeddings),
            None => Err(Error::ModelNotFitted),
        }
    }

    /// Chooses, for each new point, the training vectors that its projection
    /// is averaged from.
    ///
    /// Row `i` of `distances` holds the keys of the distances from new point
    /// `i` to every training vector, in the order of the training vectors.
    /// The answer for a point lists `neighbor_count` training vectors, the
    /// nearest first, and among equally near ones the earlier first.
    ///
    /// Without a model the answer is `ModelNotFitted`. A row that does not
    /// have one key for each training vector is refused with
    /// `DimensionMismatch`; the first such row is reported.
    pub fn transform(&self, distances: &Vec<Vec<u32>>) -> (chosen: Result<Vec<Vec<usize>>, Error>)
        ensures
            self@.model is None ==> chosen == Err::<Vec<Vec<usize>>, Error>(Error::ModelNotFitted),
            self@.model is Some ==> match chosen {
                Ok(lists) => {
                    &&& lists@.len() == distances@.len()
                    &&& forall|i: int|
                        0 <= i < distances@.len() ==> {
                            &&& (#[trigger] distances@[i]).len()
                                == self@.model.unwrap().vectors.len()
                            &&& are_nearest(distances@[i]@, neighbor_count(self@), lists@[i]@)
                        }
                },
                Err(Error::DimensionMismatch { expected, got }) => {
                    &&& expected == self@.model.unwrap().vectors.len()
                    &&& exists|i: int|
                        {
                            &&& 0 <= i < distances@.len()
                            &&& (#[trigger] distances@[i]).len() == got
                            &&& got != expected
                            &&& forall|j: int|
                                0 <= j < i ==> (#[trigger] distances@[j]).len() == expected
                        }
                },
                Err(_) => false,
            },
    {
        let model = match &self.model {
            Some(model) => model,
            None => {
                return Err(Error::ModelNotFitted);
            },
        };
        let expected = model.vectors.len();
        let mut lists: Vec<Vec<usize>> = Vec::new();
        let mut i: usize = 0;
        while i < distances.len()
            invariant
                i <= distances.len(),
                lists@.len() == i,
                self@.model is Some,
                expected == self@.model.unwrap().vectors.len(),
                forall|j: int|
                    0 <= j < i ==> {
                        &&& (#[trigger] distances@[j]).len() == expected
                        &&& are_nearest(distances@[j]@, neighbor_count(self@), lists@[j]@)
                    },
            decreases distances.len() - i,
        {
            let got = distances[i].len();
            if got != expected {
                return Err(Error::DimensionMismatch { expected, got });
            }
            let nearest = nearest_neighbors(&distances[i], self.n_neighbors);
            lists.push(nearest);
            i += 1;
        }
        Ok(lists)
    }

    /// The model and the settings it was fitted with, ready to be written
    /// out, or `ModelNotFitted`. The seed is no part of it.
    pub fn save_model(&self) -> (saved: Result<SavedUMAPModel, Error>)
        ensures
            match self@.model {
                Some(model) => {
                    &&& saved is Ok
                    &&& saved->Ok_0.n_components == self@.n_components
                    &&& saved->Ok_0.n_neighbors == self@.n_neighbors
                    &&& saved->Ok_0.nb_grad_batch == self@.nb_grad_batch
                    &&& saved->Ok_0.nb_sampling_by_edge == self@.nb_sampling_by_edge
                    &&& rows_of(saved->Ok_0.embeddings@) == model.embeddings
                    &&& rows_of(saved->Ok_0.original_data@) == model.vectors
                },
                None => saved is Err && saved->Err_0 == Error::ModelNotFitted,
            },
    {
        match &self.model {
            None => Err(Error::ModelNotFitted),
            Some(model) => Ok(
                SavedUMAPModel {
                    n_components: self.n_components,
                    n_neighbors: self.n_neighbors,
                    nb_grad_batch: self.nb_grad_batch,
                    nb_sampling_by_edge: self.nb_sampling_by_edge,
                    embeddings: copy_matrix(&model.embeddings),
                    original_data: copy_matrix(&model.vectors),
                },
            ),
        }
    }

    /// A pipeline with the model and the settings of `saved`, and no seed.
    /// It can project new points at once.
    pub fn load_model(saved: SavedUMAPModel) -> (umap: RustUMAP)
        ensures
            umap@ == (UmapView {
                n_components: saved.n_components,
                n_neighbors: saved.n_neighbors,
                random_seed: None,
                nb_grad_batch: saved.nb_grad_batch,
                nb_sampling_by_edge: saved.nb_sampling_by_edge,
                model: Some(
                    ModelView {
                        vectors: rows_of(saved.original_data@),
                        embeddings: rows_of(saved.embeddings@),
                    },
                ),
            }),
    {
        RustUMAP {
            n_components: saved.n_components,
            n_neighbors: saved.n_neighbors,
            random_seed: None,
            nb_grad_batch: saved.nb_grad_batch,
            nb_sampling_by_edge: saved.nb_sampling_by_edge,
            model: Some(
                TrainedModel { vectors: saved.original_data, embeddings: saved.embeddings },
            ),
        }
    }
}

} // verus!
