//! K-means: the seeding of the centroids, the passes of the iteration and the
//! labelling of new points, as far as they are decisions.
//!
//! Distances, means and sums are a caller's work. It hands over the keys of
//! the distances it measured (see the module `geometry`) and is told which
//! centroid a point goes to, whether the iteration is over, and which points
//! a centroid is to be averaged from.

use vstd::prelude::*;
use rand::rngs::StdRng;
use rand::Rng;
use crate::error::Error;
use crate::geometry::{is_nearest, nearest};

pub mod hdbscan_wrapper;

verus! {

/// The seedable generator of the crate `rand`. Nothing is known of its state.
#[verifier::external_type_specification]
#[verifier::external_body]
pub struct ExStdRng(rand::rngs::StdRng);

/// `Rng::gen_range` on the half-open range from 0 to `high`: some value of
/// the range. The call panics on an empty range, which `requires` excludes.
#[verifier::external_body]
fn gen_range(rng: &mut StdRng, high: usize) -> (value: usize)
    requires
        high > 0,
    ensures
        value < high,
{
    rng.gen_range(0..high)
}

/// The 64 bits of `seed`, read as an unsigned number: a negative seed wraps
/// around.
pub open spec fn wrapped(seed: i64) -> int {
    if seed >= 0 {
        seed as int
    } else {
        seed + 0x1_0000_0000_0000_0000
    }
}

/// The state that a generator is seeded with for the seed `seed`.
pub fn seed_state(seed: i64) -> (state: u64)
    ensures
        state == wrapped(seed),
{
    if seed >= 0 {
        seed as u64
    } else {
        u64::MAX - ((-(seed + 1)) as u64)
    }
}

/// The row that becomes the first centroid: any of the `n_samples` rows, as
/// the generator has it.
pub fn first_centroid(rng: &mut StdRng, n_samples: usize) -> (row: usize)
    requires
        n_samples > 0,
    ensures
        row < n_samples,
{
    gen_range(rng, n_samples)
}

/// What `degenerate_choice` answers: with all weights zero, the row that
/// becomes centroid `i`; otherwise nothing.
pub open spec fn degenerate_row(i: usize, cumulative: Seq<u64>) -> Option<usize> {
    if cumulative.len() == 0 || cumulative.last() == 0 {
        Some(
            if i < cumulative.len() {
                i
            } else {
                0
            },
        )
    } else {
        None
    }
}

/// Decides whether centroid `i` can be drawn at all.
///
/// `cumulative[j]` is the key of the running sum, up to row `j`, of the
/// squared distances from each row to its nearest centroid so far. Where the
/// whole sum is zero every row lies on a centroid and no draw can tell them
/// apart: centroid `i` is then row `i`, or row 0 if the rows have run out.
/// Otherwise the answer is `None`, and centroid `i` is drawn with `roulette`.
pub fn degenerate_choice(i: usize, cumulative: &Vec<u64>) -> (row: Option<usize>)
    ensures
        row == degenerate_row(i, cumulative@),
{
    let n = cumulative.len();
    if n == 0 || cumulative[n - 1] == 0 {
        if i < n {
            Some(i)
        } else {
            Some(0)
        }
    } else {
        None
    }
}

/// The running sum before row `j`: zero before the first row.
pub open spec fn sum_before(cumulative: Seq<u64>, j: int) -> u64 {
    if j <= 0 {
        0
    } else {
        cumulative[j - 1]
    }
}

/// Row `j` can be drawn against `threshold`: its running sum reaches the
/// threshold, and the row adds to the sum. A row that adds nothing lies on a
/// centroid chosen before and is never drawn.
pub open spec fn can_be_drawn(cumulative: Seq<u64>, threshold: u64, j: int) -> bool {
    cumulative[j] >= threshold && cumulative[j] > sum_before(cumulative, j)
}

/// `row` is what `roulette` answers: the first row that can be drawn against
/// `threshold`, if there is one.
pub open spec fn is_roulette_row(cumulative: Seq<u64>, threshold: u64, row: Option<usize>) -> bool {
    match row {
        Some(j) => {
            &&& j < cumulative.len()
            &&& can_be_drawn(cumulative, threshold, j as int)
            &&& forall|i: int| 0 <= i < j ==> !can_be_drawn(cumulative, threshold, i)
        },
        None => forall|i: int|
            0 <= i < cumulative.len() ==> !can_be_drawn(cumulative, threshold, i),
    }
}

/// Draws the next centroid with a chance in proportion to the squared
/// distance from the centroids so far.
///
/// `cumulative` is as for `degenerate_choice`, and `threshold` is the key of
/// a number drawn evenly between zero and the whole sum. The first row whose
/// running sum reaches the threshold and which adds to the sum becomes the
/// centroid. A row that adds nothing to the sum lies on a centroid chosen
/// before; it is passed over, even where the threshold is zero. Where no row
/// can be drawn the answer is `None`, and the centroid stays at the origin.
pub fn roulette(cumulative: &Vec<u64>, threshold: u64) -> (row: Option<usize>)
    ensures
        is_roulette_row(cumulative@, threshold, row),
{
    let mut before: u64 = 0;
    let mut j: usize = 0;
    while j < cumulative.len()
        invariant
            j <= cumulative.len(),
            before == sum_before(cumulative@, j as int),
            forall|i: int| 0 <= i < j ==> !can_be_drawn(cumulative@, threshold, i),
        decreases cumulative.len() - j,
    {
        let sum = cumulative[j];
        if sum >= threshold && sum > before {
            return Some(j);
        }
        before = sum;
        j += 1;
    }
    None
}

/// A row that `roulette` draws adds to the running sum: its own squared
/// distance from the centroids so far is not zero, so it lies on none of
/// them. No draw, whatever the threshold, repeats a centroid.
pub proof fn lemma_roulette_row_has_weight(cumulative: Seq<u64>, threshold: u64, row: usize)
    requires
        is_roulette_row(cumulative, threshold, Some(row)),
    ensures
        row == 0 ==> cumulative[0] > 0,
        row > 0 ==> cumulative[row as int] > cumulative[row - 1],
{
}

/// Where the running sums never fall and the threshold is above zero, the
/// row drawn is the first whose running sum reaches the threshold.
pub proof fn lemma_roulette_row_is_first_to_reach(cumulative: Seq<u64>, threshold: u64, row: usize)
    requires
        is_roulette_row(cumulative, threshold, Some(row)),
        threshold > 0,
        forall|i: int, j: int|
            0 <= i <= j < cumulative.len() ==> #[trigger] cumulative[i] <= #[trigger] cumulative[j],
    ensures
        cumulative[row as int] >= threshold,
        forall|i: int| 0 <= i < row ==> cumulative[i] < threshold,
{
    assert forall|i: int| 0 <= i < row implies cumulative[i] < threshold by {
        lemma_none_reaches_before(cumulative, threshold, row as int, i);
    }
}

/// Below a row before which no row can be drawn, no running sum that never
/// falls reaches a threshold above zero.
proof fn lemma_none_reaches_before(cumulative: Seq<u64>, threshold: u64, row: int, i: int)
    requires
        0 <= i < row <= cumulative.len(),
        threshold > 0,
        forall|j: int| 0 <= j < row ==> !can_be_drawn(cumulative, threshold, j),
        forall|a: int, b: int|
            0 <= a <= b < cumulative.len() ==> #[trigger] cumulative[a] <= #[trigger] cumulative[b],
    ensures
        cumulative[i] < threshold,
    decreases i,
{
    assert(!can_be_drawn(cumulative, threshold, i));
    if i > 0 {
        lemma_none_reaches_before(cumulative, threshold, row, i - 1);
    }
}

/// What a pass of the iteration leads to.
#[derive(Clone, Copy, Debug, PartialEq, Eq, Structural)]
pub enum Step {
    /// No point changed its cluster: the iteration is over and the centroids
    /// stay as they are.
    Converged,
    /// The centroids are to be recomputed from the new labels.
    Recompute,
}

/// What becomes of a centroid after a pass.
#[derive(Debug, PartialEq, Eq)]
pub enum Update {
    /// No point is assigned to it: it stays where it is.
    Keep,
    /// It moves to the mean of these rows, listed in rising order.
    Average(Vec<usize>),
}

/// A run of K-means as plain values.
pub struct KMeansView {
    pub n_samples: nat,
    pub k: nat,
    pub max_iter: nat,
    /// Passes made so far that did not end the run.
    pub iteration: nat,
    /// The cluster of each point, all zero before the first pass.
    pub labels: Seq<usize>,
    pub converged: bool,
}

impl KMeansView {
    /// Whether another pass is due.
    pub open spec fn wants_pass(self) -> bool {
        self.iteration < self.max_iter && !self.converged
    }

    /// The labels that a pass over `distances` gives: for each point the
    /// nearest centroid, the first among equally near ones.
    pub open spec fn relabels(self, distances: Seq<Vec<u64>>, labels: Seq<usize>) -> bool {
        &&& labels.len() == distances.len()
        &&& forall|i: int|
            0 <= i < distances.len() ==> is_nearest(
                (#[trigger] distances[i])@,
                labels[i] as int,
            )
    }
}

/// Points at the same distances from the centroids get the same label. So
/// points that are equal always share a cluster.
pub proof fn lemma_same_distances_same_label(
    run: KMeansView,
    distances: Seq<Vec<u64>>,
    labels: Seq<usize>,
    i: int,
    j: int,
)
    requires
        run.relabels(distances, labels),
        0 <= i < distances.len(),
        0 <= j < distances.len(),
        distances[i]@ == distances[j]@,
    ensures
        labels[i] == labels[j],
{
    assert(is_nearest(distances[i]@, labels[i] as int));
    assert(is_nearest(distances[j]@, labels[j] as int));
    crate::geometry::lemma_nearest_is_unique(distances[i]@, labels[i] as int, labels[j] as int);
}

/// A run of K-means: the labels of the points and how far the iteration is.
#[derive(Debug)]
pub struct KMeans {
    n_samples: usize,
    k: usize,
    max_iter: usize,
    iteration: usize,
    labels: Vec<usize>,
    converged: bool,
}

impl View for KMeans {
    type V = KMeansView;

    closed spec fn view(&self) -> KMeansView {
        KMeansView {
            n_samples: self.n_samples as nat,
            k: self.k as nat,
            max_iter: self.max_iter as nat,
            iteration: self.iteration as nat,
            labels: self.labels@,
            converged: self.converged,
        }
    }
}

/// The points with label `cluster`, in rising order.
pub open spec fn members(labels: Seq<usize>, cluster: usize) -> Seq<usize>
    decreases labels.len(),
{
    if labels.len() == 0 {
        Seq::empty()
    } else if labels.last() == cluster {
        members(labels.drop_last(), cluster).push((labels.len() - 1) as usize)
    } else {
        members(labels.drop_last(), cluster)
    }
}

/// The labels of `distances`, row by row.
fn label_rows(distances: &Vec<Vec<u64>>) -> (labels: Vec<usize>)
    ensures
        labels@.len() == distances@.len(),
        forall|i: int|
            0 <= i < distances@.len() ==> is_nearest((#[trigger] distances@[i])@, labels@[i] as int),
{
    let mut labels: Vec<usize> = Vec::new();
    let mut i: usize = 0;
    while i < distances.len()
        invariant
            i <= distances.len(),
            labels@.len() == i,
            forall|r: int|
                0 <= r < i ==> is_nearest((#[trigger] distances@[r])@, labels@[r] as int),
        decreases distances.len() - i,
    {
        labels.push(nearest(&distances[i]));
        i += 1;
    }
    labels
}

impl KMeans {
    /// The invariant of a run: one label for each point.
    pub closed spec fn wf(&self) -> bool {
        self.labels@.len() == self.n_samples
    }

    /// Starts a run over `n_samples` points with `k` clusters and at most
    /// `max_iter` passes. Without points, or with more clusters than points,
    /// the answer is `InvalidArgument`. Every point starts in cluster 0.
    pub fn new(n_samples: usize, k: usize, max_iter: usize) -> (run: Result<KMeans, Error>)
        ensures
            n_samples == 0 || k > n_samples ==> run is Err && run->Err_0 == Error::InvalidArgument,
            !(n_samples == 0 || k > n_samples) ==> {
                &&& run is Ok
                &&& run->Ok_0.wf()
                &&& run->Ok_0@ == (KMeansView {
                    n_samples: n_samples as nat,
                    k: k as nat,
                    max_iter: max_iter as nat,
                    iteration: 0,
                    labels: Seq::new(n_samples as nat, |i: int| 0usize),
                    converged: false,
                })
            },
    {
        if n_samples == 0 || k > n_samples {
            return Err(Error::InvalidArgument);
        }
        let mut labels: Vec<usize> = Vec::new();
        let mut i: usize = 0;
        while i < n_samples
            invariant
                i <= n_samples,
                labels@ == Seq::new(i as nat, |j: int| 0usize),
            decreases n_samples - i,
        {
            labels.push(0);
            assert(labels@ =~= Seq::new((i + 1) as nat, |j: int| 0usize));
            i += 1;
        }
        Ok(KMeans { n_samples, k, max_iter, iteration: 0, labels, converged: false })
    }

    /// Whether another pass is due: the passes are not used up and the run
    /// has not converged.
    pub fn wants_pass(&self) -> (due: bool)
        ensures
            due == self@.wants_pass(),
    {
        self.iteration < self.max_iter && !self.converged
    }

    /// Makes a pass: assigns every point to its nearest centroid and says
    /// whether the run goes on.
    ///
    /// Row `i` of `distances` holds the keys of the distances from point `i`
    /// to each centroid, in the order of the centroids. A point goes to the
    /// nearest centroid, and to the first of several equally near ones. The
    /// run has converged when no label changed and this was not the first
    /// pass; otherwise the centroids are to be recomputed, and the pass
    /// counts.
    ///
    /// Where no pass is due, or `distances` does not have a row for each
    /// point, the answer is `InvalidArgument` and the run stays as it was.
    pub fn assign(&mut self, distances: &Vec<Vec<u64>>) -> (step: Result<Step, Error>)
        requires
            old(self).wf(),
        ensures
            final(self).wf(),
            !old(self)@.wants_pass() || distances@.len() != old(self)@.n_samples ==> {
                &&& step == Err::<Step, Error>(Error::InvalidArgument)
                &&& final(self)@ == old(self)@
            },
            old(self)@.wants_pass() && distances@.len() == old(self)@.n_samples ==> {
                &&& step is Ok
                &&& old(self)@.relabels(distances@, final(self)@.labels)
                &&& step->Ok_0 == (if final(self)@.labels == old(self)@.labels && old(
                    self,
                )@.iteration > 0 {
                    Step::Converged
                } else {
                    Step::Recompute
                })
                &&& final(self)@ == (KMeansView {
                    labels: final(self)@.labels,
                    converged: step->Ok_0 == Step::Converged,
                    iteration: if step->Ok_0 == Step::Converged {
                        old(self)@.iteration
                    } else {
                        old(self)@.iteration + 1
                    },
                    ..old(self)@
                })
            },
    {
        if !self.wants_pass() || distances.len() != self.n_samples {
            return Err(Error::InvalidArgument);
        }
        let labels = label_rows(distances);
        let mut changed = false;
        let mut i: usize = 0;
        while i < labels.len()
            invariant
                i <= labels.len(),
                labels@.len() == self.labels@.len(),
                changed <==> exists|r: int| 0 <= r < i && labels@[r] != self.labels@[r],
            decreases labels.len() - i,
        {
            if labels[i] != self.labels[i] {
                changed = true;
            }
            i += 1;
        }
        assert(changed <==> labels@ != self.labels@) by {
            if !changed {
                assert(labels@ =~= self.labels@);
            }
        }
        self.labels = labels;
        if !changed && self.iteration > 0 {
            self.converged = true;
            Ok(Step::Converged)
        } else {
            self.iteration = self.iteration + 1;
            Ok(Step::Recompute)
        }
    }

    /// What becomes of the centroid of `cluster` after a pass: it moves to
    /// the mean of the points assigned to it, or stays if there is none.
    pub fn centroid_update(&self, cluster: usize) -> (update: Update)
        requires
            self.wf(),
        ensures
            update == (if members(self@.labels, cluster).len() == 0 {
                Update::Keep
            } else {
                Update::Average(update->Average_0)
            }),
            update is Average ==> update->Average_0@ == members(self@.labels, cluster),
    {
        let mut rows: Vec<usize> = Vec::new();
        let mut i: usize = 0;
        while i < self.labels.len()
            invariant
                i <= self.labels.len(),
                rows@ == members(self.labels@.take(i as int), cluster),
            decreases self.labels.len() - i,
        {
            assert(self.labels@.take(i + 1).drop_last() == self.labels@.take(i as int));
            if self.labels[i] == cluster {
                rows.push(i);
            }
            i += 1;
        }
        assert(self.labels@.take(i as int) == self.labels@);
        if rows.len() == 0 {
            Update::Keep
        } else {
            Update::Average(rows)
        }
    }

    /// The cluster of each point as of the last pass.
    pub fn labels(&self) -> (labels: &Vec<usize>)
        ensures
            labels@ == self@.labels,
    {
        &self.labels
    }

    /// How many passes were made that did not end the run.
    pub fn iterations(&self) -> (count: usize)
        ensures
            count == self@.iteration,
    {
        self.iteration
    }
}

/// Labels new points by their nearest centroid.
///
/// Row `i` of `distances` holds the keys of the distances from point `i` to
/// each centroid. The answer has the nearest centroid of each point, the
/// first of several equally near ones; without points it is
/// `InvalidArgument`.
pub fn kmeans_predict(distances: &Vec<Vec<u64>>) -> (labels: Result<Vec<usize>, Error>)
    ensures
        distances@.len() == 0 ==> labels is Err && labels->Err_0 == Error::InvalidArgument,
        distances@.len() > 0 ==> {
            &&& labels is Ok
            &&& labels->Ok_0@.len() == distances@.len()
            &&& forall|i: int|
                0 <= i < distances@.len() ==> is_nearest(
                    (#[trigger] distances@[i])@,
                    labels->Ok_0@[i] as int,
                )
        },
{
    if distances.len() == 0 {
        return Err(Error::InvalidArgument);
    }
    Ok(label_rows(distances))
}

} // verus!
