//! The vector index: which labels are taken, which internal number each
//! entry has, what is attached to it, and how a search is answered.
//!
//! The neighbour graph itself holds the vectors and is kept by the caller.
//! Every entry enters the graph under the internal number that the index
//! gives it here, and a search of the graph comes back here as a list of
//! internal numbers with their distances.

use vstd::prelude::*;
use vstd::string::StringExecFns;
use crate::error::Error;
use crate::tables::{
    holds_entry, holds_label, holds_record, no_label_twice, one_record_each, LabelTable,
    RecordStore,
};

verus! {

/// Capacity of the graph where none is asked for.
pub const DEFAULT_MAX_ELEMENTS: usize = 10_000;

/// Connections per node where none are asked for.
pub const DEFAULT_M: usize = 16;

/// Search breadth while the graph is built, where none is asked for. A new
/// index searches with the same breadth.
pub const DEFAULT_EF_CONSTRUCTION: usize = 200;

/// Layers of the graph.
pub const MAX_LAYER: usize = 16;

/// Neighbours that a search looks for where no number is asked for.
pub const DEFAULT_K: usize = 10;

/// Search breadth of an index that was loaded.
pub const LOADED_EF_SEARCH: usize = 200;

/// The distance spaces that have a name.
#[derive(Clone, Copy, Debug, PartialEq, Eq, Structural)]
pub enum DistanceType {
    Euclidean,
    Cosine,
    InnerProduct,
}

/// The name of a distance space, as it is given and written out.
pub open spec fn space_name(space: DistanceType) -> Seq<char> {
    match space {
        DistanceType::Euclidean => "euclidean"@,
        DistanceType::Cosine => "cosine"@,
        DistanceType::InnerProduct => "inner_product"@,
    }
}

/// The distance space with the name `name`, if there is one.
pub open spec fn space_named(name: Seq<char>) -> Option<DistanceType> {
    if name == "euclidean"@ {
        Some(DistanceType::Euclidean)
    } else if name == "cosine"@ {
        Some(DistanceType::Cosine)
    } else if name == "inner_product"@ {
        Some(DistanceType::InnerProduct)
    } else {
        None
    }
}

/// Every distance space is found again by its name.
pub proof fn lemma_space_is_found_by_name(space: DistanceType)
    ensures
        space_named(space_name(space)) == Some(space),
{
    reveal_strlit("euclidean");
    reveal_strlit("cosine");
    reveal_strlit("inner_product");
    assert("euclidean"@.len() == 9);
    assert("cosine"@.len() == 6);
    assert("inner_product"@.len() == 13);
}

impl DistanceType {
    /// The name of the space.
    pub fn name(&self) -> (name: &'static str)
        ensures
            name@ == space_name(*self),
    {
        match self {
            DistanceType::Euclidean => "euclidean",
            DistanceType::Cosine => "cosine",
            DistanceType::InnerProduct => "inner_product",
        }
    }

    /// The space with the name `name`, if there is one.
    pub fn named(name: &str) -> (space: Option<DistanceType>)
        ensures
            space == space_named(name@),
    {
        let name = String::from_str(name);
        if name == String::from_str("euclidean") {
            Some(DistanceType::Euclidean)
        } else if name == String::from_str("cosine") {
            Some(DistanceType::Cosine)
        } else if name == String::from_str("inner_product") {
            Some(DistanceType::InnerProduct)
        } else {
            None
        }
    }
}

/// The ten digits.
pub open spec fn digit(d: nat) -> char {
    if d == 0 {
        '0'
    } else if d == 1 {
        '1'
    } else if d == 2 {
        '2'
    } else if d == 3 {
        '3'
    } else if d == 4 {
        '4'
    } else if d == 5 {
        '5'
    } else if d == 6 {
        '6'
    } else if d == 7 {
        '7'
    } else if d == 8 {
        '8'
    } else {
        '9'
    }
}

/// `n` in decimal notation, without leading zeros.
pub open spec fn decimal(n: nat) -> Seq<char>
    decreases n,
{
    if n < 10 {
        seq![digit(n)]
    } else {
        decimal(n / 10).push(digit(n % 10))
    }
}

fn digit_str(d: usize) -> (s: &'static str)
    requires
        d < 10,
    ensures
        s@ == seq![digit(d as nat)],
{
    proof {
        reveal_strlit("0");
        reveal_strlit("1");
        reveal_strlit("2");
        reveal_strlit("3");
        reveal_strlit("4");
        reveal_strlit("5");
        reveal_strlit("6");
        reveal_strlit("7");
        reveal_strlit("8");
        reveal_strlit("9");
    }
    let s = if d == 0 {
        "0"
    } else if d == 1 {
        "1"
    } else if d == 2 {
        "2"
    } else if d == 3 {
        "3"
    } else if d == 4 {
        "4"
    } else if d == 5 {
        "5"
    } else if d == 6 {
        "6"
    } else if d == 7 {
        "7"
    } else if d == 8 {
        "8"
    } else {
        "9"
    };
    assert(s@ =~= seq![digit(d as nat)]);
    s
}

/// The label of an entry that was given none: the number `n` in decimal.
pub fn decimal_label(n: usize) -> (label: String)
    ensures
        label@ == decimal(n as nat),
    decreases n,
{
    if n < 10 {
        String::from_str(digit_str(n))
    } else {
        let mut label = decimal_label(n / 10);
        label.append(digit_str(n % 10));
        assert(label@ =~= decimal(n as nat));
        label
    }
}

/// What holding a vector of length `vector_len` against the dimension
/// `expected_dim` answers.
pub open spec fn dimension_checked(vector_len: usize, expected_dim: usize) -> Result<(), Error> {
    if vector_len == expected_dim {
        Ok(())
    } else {
        Err(Error::DimensionMismatch { expected: expected_dim, got: vector_len })
    }
}

/// Holds the length of a vector against the dimension of an index. A vector
/// of another length is refused with `DimensionMismatch`.
pub fn check_dimension(vector_len: usize, expected_dim: usize) -> (checked: Result<(), Error>)
    ensures
        checked == dimension_checked(vector_len, expected_dim),
{
    if vector_len == expected_dim {
        Ok(())
    } else {
        Err(Error::DimensionMismatch { expected: expected_dim, got: vector_len })
    }
}

/// What the caller attached to an entry: pairs of a key and a value.
pub type Attributes = Vec<(String, String)>;

/// Attributes as sequences.
pub open spec fn attributes_view(pairs: Seq<(String, String)>) -> Seq<(Seq<char>, Seq<char>)> {
    Seq::new(pairs.len(), |i: int| (pairs[i].0@, pairs[i].1@))
}

/// What the index keeps of an entry besides its vector.
#[derive(Clone, Debug, PartialEq, Eq)]
pub struct ItemMetadata {
    pub label: String,
    pub metadata: Option<Attributes>,
}

/// An entry's record as sequences.
pub struct ItemView {
    pub label: Seq<char>,
    pub metadata: Option<Seq<(Seq<char>, Seq<char>)>>,
}

impl View for ItemMetadata {
    type V = ItemView;

    open spec fn view(&self) -> ItemView {
        ItemView {
            label: self.label@,
            metadata: match self.metadata {
                Some(pairs) => Some(attributes_view(pairs@)),
                None => None,
            },
        }
    }
}

/// The label table as sequences.
pub open spec fn labels_view(table: Seq<(String, usize)>) -> Seq<(Seq<char>, usize)> {
    Seq::new(table.len(), |i: int| (table[i].0@, table[i].1))
}

/// The record table as sequences.
pub open spec fn records_view(table: Seq<(usize, ItemMetadata)>) -> Seq<(usize, ItemView)> {
    Seq::new(table.len(), |i: int| (table[i].0, table[i].1@))
}

/// An index as plain values.
pub struct IndexView {
    pub dim: usize,
    pub space: DistanceType,
    pub max_elements: usize,
    pub m: usize,
    pub ef_construction: usize,
    pub random_seed: Option<u64>,
    /// Every label that is taken, with the internal number it stands for, in
    /// the order in which the labels were taken.
    pub labels: Seq<(Seq<char>, usize)>,
    /// The record of every entry under its internal number, in the order in
    /// which the entries were added.
    pub records: Seq<(usize, ItemView)>,
    /// The next internal number to be given out.
    pub next_id: usize,
    pub ef_search: usize,
}

impl IndexView {
    /// The label `label` is taken.
    pub open spec fn has_label(self, label: Seq<char>) -> bool {
        holds_label(self.labels, label)
    }

    /// There is a record under the internal number `id`.
    pub open spec fn has_record(self, id: usize) -> bool {
        holds_record(self.records, id)
    }

    /// The record under the internal number `id`.
    pub open spec fn record(self, id: usize) -> ItemView {
        let i = choose|i: int| 0 <= i < self.records.len() && (#[trigger] self.records[i]).0 == id;
        self.records[i].1
    }

    /// How many entries the index holds.
    pub open spec fn size(self) -> nat {
        self.records.len()
    }

    /// The invariant of an index. The dimension is positive. No label is
    /// taken twice and no internal number holds two records. Labels, internal
    /// numbers and records go together: there are as many labels as records,
    /// and the label of every record stands in the label table for the
    /// internal number of that record. Every number in use was given out
    /// before.
    pub open spec fn wf(self) -> bool {
        &&& self.dim > 0
        &&& no_label_twice(self.labels)
        &&& one_record_each(self.records)
        &&& self.labels.len() == self.records.len()
        &&& forall|i: int|
            0 <= i < self.records.len() ==> holds_entry(
                self.labels,
                (#[trigger] self.records[i]).1.label,
                self.records[i].0,
            )
        &&& forall|i: int| 0 <= i < self.labels.len() ==> (#[trigger] self.labels[i]).1 < self.next_id
        &&& forall|i: int|
            0 <= i < self.records.len() ==> (#[trigger] self.records[i]).0 < self.next_id
    }

    /// What creating an index answers.
    pub open spec fn create(
        dim: usize,
        space: Seq<char>,
        max_elements: Option<usize>,
        m: Option<usize>,
        ef_construction: Option<usize>,
        random_seed: Option<u64>,
    ) -> Result<IndexView, Error> {
        if dim == 0 {
            Err(Error::InvalidDimension)
        } else {
            match space_named(space) {
                None => Err(Error::InvalidArgument),
                Some(DistanceType::Euclidean) => {
                    let breadth = match ef_construction {
                        Some(ef) => ef,
                        None => DEFAULT_EF_CONSTRUCTION,
                    };
                    Ok(
                        IndexView {
                            dim,
                            space: DistanceType::Euclidean,
                            max_elements: match max_elements {
                                Some(n) => n,
                                None => DEFAULT_MAX_ELEMENTS,
                            },
                            m: match m {
                                Some(m) => m,
                                None => DEFAULT_M,
                            },
                            ef_construction: breadth,
                            random_seed,
                            labels: Seq::empty(),
                            records: Seq::empty(),
                            next_id: 0,
                            ef_search: breadth,
                        },
                    )
                },
                Some(_) => Err(Error::UnsupportedCapability),
            }
        }
    }

    /// The label that the next entry gets if it is given none: the counter
    /// in decimal.
    pub open spec fn next_label(self) -> Seq<char> {
        decimal(self.next_id as nat)
    }

    /// What adding one entry does and answers, for a vector of length
    /// `vector_len`.
    ///
    /// The length must be the dimension of the index (`DimensionMismatch`).
    /// An entry without a label gets the counter in decimal as its label.
    /// The label must be free (`DuplicateLabel`). Then the entry gets the
    /// counter as its internal number, the label is taken for that number,
    /// the record is stored under it, and the counter moves on by one. An
    /// attempt that fails changes nothing.
    pub open spec fn insert(
        self,
        vector_len: usize,
        label: Option<Seq<char>>,
        metadata: Option<Seq<(Seq<char>, Seq<char>)>>,
    ) -> (IndexView, Result<usize, Error>) {
        match dimension_checked(vector_len, self.dim) {
            Err(e) => (self, Err(e)),
            Ok(_) => {
                let id = self.next_id;
                let label = match label {
                    Some(label) => label,
                    None => self.next_label(),
                };
                if self.has_label(label) {
                    (self, Err(Error::DuplicateLabel))
                } else {
                    (
                        IndexView {
                            labels: self.labels.push((label, id)),
                            records: self.records.push((id, ItemView { label, metadata })),
                            next_id: (id + 1) as usize,
                            ..self
                        },
                        Ok(id),
                    )
                }
            },
        }
    }

    /// The label of row `row` of a batch, if the batch has labels.
    pub open spec fn label_of_row(labels: Option<Seq<Seq<char>>>, row: int) -> Option<Seq<char>> {
        match labels {
            Some(labels) => Some(labels[row]),
            None => None,
        }
    }

    /// What adding the first `n` rows of a batch, one after the other, does
    /// and answers. Each row is added as an entry of its own, without
    /// attributes. The first row that cannot be added ends the batch; the
    /// rows before it stay added.
    pub open spec fn insert_rows(
        self,
        vector_lens: Seq<usize>,
        labels: Option<Seq<Seq<char>>>,
        n: nat,
    ) -> BatchView
        decreases n,
    {
        if n == 0 {
            BatchView { index: self, ids: Seq::empty(), failure: None }
        } else {
            let before = self.insert_rows(vector_lens, labels, (n - 1) as nat);
            if before.failure is Some {
                before
            } else {
                let row = (n - 1) as usize;
                let (index, answer) = before.index.insert(
                    vector_lens[row as int],
                    Self::label_of_row(labels, row as int),
                    None,
                );
                match answer {
                    Ok(id) => BatchView { index, ids: before.ids.push(id), failure: None },
                    Err(error) => BatchView {
                        index,
                        ids: before.ids,
                        failure: Some(BatchError { row, error }),
                    },
                }
            }
        }
    }

    /// How the vectors of a batch enter the graph: one by one if the index
    /// was created with a seed or the caller does not want it otherwise, in
    /// parallel else.
    pub open spec fn insertion(self, parallel: bool) -> Insertion {
        if parallel && self.random_seed is None {
            Insertion::Parallel
        } else {
            Insertion::Serial
        }
    }

    /// What adding a batch does and answers.
    ///
    /// Labels, if there are any, must be as many as rows; otherwise nothing
    /// happens and the failure is `InvalidArgument`, at the first row that
    /// has no label or the first label that has no row. Then the rows are
    /// added one after the other, each in full before the next is looked at.
    /// A batch is not added as a whole: if a row fails, the rows before it
    /// stay in the index, and their internal numbers are answered beside the
    /// failure.
    pub open spec fn insert_batch(
        self,
        vector_lens: Seq<usize>,
        labels: Option<Seq<Seq<char>>>,
    ) -> BatchView {
        if labels is Some && labels.unwrap().len() != vector_lens.len() {
            BatchView {
                index: self,
                ids: Seq::empty(),
                failure: Some(
                    BatchError {
                        row: if labels.unwrap().len() < vector_lens.len() {
                            labels.unwrap().len() as usize
                        } else {
                            vector_lens.len() as usize
                        },
                        error: Error::InvalidArgument,
                    },
                ),
            }
        } else {
            self.insert_rows(vector_lens, labels, vector_lens.len())
        }
    }

    /// What preparing a search does and answers, for a query of length
    /// `query_len`.
    pub open spec fn prepare(self, query_len: usize, k: Option<usize>, ef: Option<usize>) -> (
        IndexView,
        Result<SearchRequest, Error>,
    ) {
        match dimension_checked(query_len, self.dim) {
            Err(e) => (self, Err(e)),
            Ok(_) => {
                let breadth = match ef {
                    Some(ef) => ef,
                    None => self.ef_search,
                };
                (
                    IndexView { ef_search: breadth, ..self },
                    Ok(
                        SearchRequest {
                            k: match k {
                                Some(k) => k,
                                None => DEFAULT_K,
                            },
                            ef: breadth,
                        },
                    ),
                )
            },
        }
    }

    /// The hit that a neighbour makes: the record under its internal number
    /// and its distance. A neighbour without a record makes none.
    pub open spec fn hit(self, neighbour: Neighbour) -> Option<HitView> {
        if self.has_record(neighbour.d_id) {
            Some(HitView { item: self.record(neighbour.d_id), distance: neighbour.distance })
        } else {
            None
        }
    }

    /// The hits of a search that found `neighbours`, in their order.
    pub open spec fn hits(self, neighbours: Seq<Neighbour>) -> Seq<HitView> {
        neighbours.filter_map(|neighbour: Neighbour| self.hit(neighbour))
    }

    /// What loading an index from its parts answers.
    ///
    /// The space must have a name, and the tables and the counter must
    /// describe an index (`wf`); otherwise the parts are corrupt. An index
    /// that was loaded has no seed, the default settings, and searches with
    /// the breadth `LOADED_EF_SEARCH`.
    pub open spec fn restore(
        records: Seq<(usize, ItemView)>,
        labels: Seq<(Seq<char>, usize)>,
        next_id: usize,
        dim: usize,
        space: Seq<char>,
    ) -> Result<IndexView, Error> {
        match space_named(space) {
            None => Err(Error::CorruptPersistedState),
            Some(space) => {
                let index = IndexView {
                    dim,
                    space,
                    max_elements: DEFAULT_MAX_ELEMENTS,
                    m: DEFAULT_M,
                    ef_construction: DEFAULT_EF_CONSTRUCTION,
                    random_seed: None,
                    labels,
                    records,
                    next_id,
                    ef_search: LOADED_EF_SEARCH,
                };
                if index.wf() {
                    Ok(index)
                } else {
                    Err(Error::CorruptPersistedState)
                }
            },
        }
    }
}

/// How vectors enter the graph.
#[derive(Clone, Copy, Debug, PartialEq, Eq, Structural)]
pub enum Insertion {
    /// One after the other, in the order of their rows.
    Serial,
    /// On several threads, in no fixed order.
    Parallel,
}

/// Why a batch ended early: the row at which it ended, and the failure.
#[derive(Clone, Copy, Debug, PartialEq, Eq, Structural)]
pub struct BatchError {
    pub row: usize,
    pub error: Error,
}

/// A batch as far as its rows were added.
pub struct BatchView {
    /// The index after the rows so far.
    pub index: IndexView,
    /// The internal numbers of the rows that were added, in their order.
    pub ids: Seq<usize>,
    pub failure: Option<BatchError>,
}

/// What the rows of a batch that were added are to do next.
#[derive(Clone, Debug, PartialEq, Eq)]
pub struct BatchPlan {
    /// The internal number of each row that was added, under which its
    /// vector is to enter the graph.
    pub ids: Vec<usize>,
    pub insertion: Insertion,
}

/// A batch that ended early: where and why, and what the rows before that
/// are to do next.
#[derive(Clone, Debug, PartialEq, Eq)]
pub struct BatchFailure {
    pub row: usize,
    pub error: Error,
    pub committed: BatchPlan,
}

/// What the graph is to be searched with.
#[derive(Clone, Copy, Debug, PartialEq, Eq, Structural)]
pub struct SearchRequest {
    /// How many neighbours are looked for.
    pub k: usize,
    /// The breadth of the search.
    pub ef: usize,
}

/// What a search of the graph found: the internal number of an entry and the
/// key of its distance from the query.
#[derive(Clone, Copy, Debug, PartialEq, Eq, Structural)]
pub struct Neighbour {
    pub d_id: usize,
    pub distance: u32,
}

/// A hit as sequences.
pub struct HitView {
    pub item: ItemView,
    pub distance: u32,
}

/// The labels of the hits of a search, nearest first, and their distances if
/// they were asked for.
#[derive(Clone, Debug, PartialEq, Eq)]
pub struct SearchResults {
    pub labels: Vec<String>,
    pub distances: Option<Vec<u32>>,
}

/// A hit of a search with what the index keeps of the entry.
#[derive(Clone, Debug, PartialEq, Eq)]
pub struct MetadataHit {
    pub label: String,
    pub distance: u32,
    pub metadata: Option<Attributes>,
}

impl View for MetadataHit {
    type V = HitView;

    open spec fn view(&self) -> HitView {
        HitView {
            item: ItemView { label: self.label@, metadata: option_attributes_view(self.metadata) },
            distance: self.distance,
        }
    }
}

/// What is written beside the graph when an index is saved, field by field in
/// this order.
#[derive(Clone, Debug, PartialEq, Eq)]
pub struct Sidecar {
    pub metadata: Vec<(usize, ItemMetadata)>,
    pub label_to_id: Vec<(String, usize)>,
    pub current_id: usize,
    pub dim: usize,
    pub space: String,
}

/// Strings as sequences.
pub open spec fn strings_view(strings: Seq<String>) -> Seq<Seq<char>> {
    Seq::new(strings.len(), |i: int| strings[i]@)
}

/// Hits as sequences.
pub open spec fn hits_view(hits: Seq<MetadataHit>) -> Seq<HitView> {
    Seq::new(hits.len(), |i: int| hits[i]@)
}

/// The index: its settings, the labels that are taken and the records of its
/// entries.
#[derive(Debug)]
pub struct HnswIndex {
    dim: usize,
    space: DistanceType,
    max_elements: usize,
    m: usize,
    ef_construction: usize,
    random_seed: Option<u64>,
    label_to_id: LabelTable,
    metadata_store: RecordStore,
    current_id: usize,
    ef_search: usize,
}

impl View for HnswIndex {
    type V = IndexView;

    closed spec fn view(&self) -> IndexView {
        IndexView {
            dim: self.dim,
            space: self.space,
            max_elements: self.max_elements,
            m: self.m,
            ef_construction: self.ef_construction,
            random_seed: self.random_seed,
            labels: self.label_to_id@,
            records: self.metadata_store@,
            next_id: self.current_id,
            ef_search: self.ef_search,
        }
    }
}

/// The settings of an index and its size.
#[derive(Clone, Copy, Debug, PartialEq, Eq, Structural)]
pub struct Config {
    pub dim: usize,
    pub space: DistanceType,
    pub ef: usize,
    pub size: usize,
}

/// What the graph of an index is built with.
#[derive(Clone, Copy, Debug, PartialEq, Eq, Structural)]
pub struct GraphSettings {
    pub max_nb_connection: usize,
    pub max_elements: usize,
    pub max_layer: usize,
    pub ef_construction: usize,
    pub random_seed: Option<u64>,
}

/// Figures of an index.
#[derive(Clone, Copy, Debug, PartialEq, Eq, Structural)]
pub struct Stats {
    pub size: usize,
    pub dim: usize,
    pub ef_search: usize,
}

impl HnswIndex {
    /// The invariant of an index: what `IndexView::wf` asks, and that its
    /// two tables are in order.
    pub closed spec fn wf(&self) -> bool {
        &&& self@.wf()
        &&& self.label_to_id.wf()
        &&& self.metadata_store.wf()
    }

    /// An index that is well formed is so as plain values.
    pub proof fn lemma_view_is_well_formed(&self)
        requires
            self.wf(),
        ensures
            self@.wf(),
    {
    }

    /// Creates an empty index for vectors of length `dim`.
    ///
    /// The dimension must not be zero (`InvalidDimension`). The space must be
    /// one that has a name (`InvalidArgument`), and of those only the
    /// Euclidean one can be used (`UnsupportedCapability`). Settings that are
    /// not given get their defaults.
    pub fn new(
        dim: usize,
        space: &str,
        max_elements: Option<usize>,
        m: Option<usize>,
        ef_construction: Option<usize>,
        random_seed: Option<u64>,
    ) -> (index: Result<HnswIndex, Error>)
        ensures
            match IndexView::create(dim, space@, max_elements, m, ef_construction, random_seed) {
                Ok(view) => index is Ok && index->Ok_0@ == view && index->Ok_0.wf(),
                Err(e) => index is Err && index->Err_0 == e,
            },
    {
        if dim == 0 {
            return Err(Error::InvalidDimension);
        }
        match DistanceType::named(space) {
            None => Err(Error::InvalidArgument),
            Some(DistanceType::Euclidean) => {
                let breadth = match ef_construction {
                    Some(ef) => ef,
                    None => DEFAULT_EF_CONSTRUCTION,
                };
                Ok(
                    HnswIndex {
                        dim,
                        space: DistanceType::Euclidean,
                        max_elements: match max_elements {
                            Some(n) => n,
                            None => DEFAULT_MAX_ELEMENTS,
                        },
                        m: match m {
                            Some(m) => m,
                            None => DEFAULT_M,
                        },
                        ef_construction: breadth,
                        random_seed,
                        label_to_id: LabelTable::new(),
                        metadata_store: RecordStore::new(),
                        current_id: 0,
                        ef_search: breadth,
                    },
                )
            },
            Some(_) => Err(Error::UnsupportedCapability),
        }
    }

    /// How many entries the index holds.
    pub fn size(&self) -> (size: usize)
        ensures
            size == self@.size(),
    {
        self.metadata_store.len()
    }

    /// Whether the index holds no entry.
    pub fn empty(&self) -> (empty: bool)
        ensures
            empty == (self@.size() == 0),
    {
        self.metadata_store.len() == 0
    }

    /// Sets the breadth that searches use from now on.
    pub fn set_ef(&mut self, ef: usize)
        ensures
            final(self)@ == (IndexView { ef_search: ef, ..old(self)@ }),
            old(self).wf() ==> final(self).wf(),
    {
        self.ef_search = ef;
    }

    /// The settings of the index and its size.
    pub fn config(&self) -> (config: Config)
        ensures
            config == (Config {
                dim: self@.dim,
                space: self@.space,
                ef: self@.ef_search,
                size: self@.size() as usize,
            }),
    {
        Config {
            dim: self.dim,
            space: self.space,
            ef: self.ef_search,
            size: self.metadata_store.len(),
        }
    }

    /// Figures of the index.
    pub fn stats(&self) -> (stats: Stats)
        ensures
            stats == (Stats {
                size: self@.size() as usize,
                dim: self@.dim,
                ef_search: self@.ef_search,
            }),
    {
        Stats { size: self.metadata_store.len(), dim: self.dim, ef_search: self.ef_search }
    }

    /// What the graph of the index is built with. An index that was loaded
    /// answers with the defaults; its graph keeps what it was built with.
    pub fn graph_settings(&self) -> (settings: GraphSettings)
        ensures
            settings == (GraphSettings {
                max_nb_connection: self@.m,
                max_elements: self@.max_elements,
                max_layer: MAX_LAYER,
                ef_construction: self@.ef_construction,
                random_seed: self@.random_seed,
            }),
    {
        GraphSettings {
            max_nb_connection: self.m,
            max_elements: self.max_elements,
            max_layer: MAX_LAYER,
            ef_construction: self.ef_construction,
            random_seed: self.random_seed,
        }
    }

    /// The next internal number to be given out.
    pub fn next_id(&self) -> (next: usize)
        ensures
            next == self@.next_id,
    {
        self.current_id
    }

    /// Whether the counter has room for `rows` more entries.
    pub fn has_room(&self, rows: usize) -> (room: bool)
        ensures
            room == (self@.next_id + rows <= usize::MAX),
    {
        rows <= usize::MAX - self.current_id
    }

    /// Where the record under the internal number `id` stands, if there is
    /// one.
    fn find_record(&self, id: usize) -> (position: Option<usize>)
        requires
            self.wf(),
        ensures
            match position {
                Some(p) => {
                    &&& p < self@.records.len()
                    &&& self@.records[p as int].0 == id
                    &&& self@.has_record(id)
                    &&& self@.record(id) == self@.records[p as int].1
                },
                None => !self@.has_record(id),
            },
    {
        let position = self.metadata_store.find(id);
        proof {
            if let Some(p) = position {
                let chosen = choose|c: int|
                    0 <= c < self@.records.len() && (#[trigger] self@.records[c]).0 == id;
                if chosen < p {
                    assert(self@.records[chosen].0 != self@.records[p as int].0);
                } else if chosen > p {
                    assert(self@.records[p as int].0 != self@.records[chosen].0);
                }
            }
        }
        position
    }

    /// Adds one entry and answers the internal number under which its
    /// vector, of length `vector_len`, is to enter the graph; see
    /// `IndexView::insert`.
    ///
    /// Label, internal number and record are set down together or not at
    /// all: an attempt that fails leaves the index as it was. The counter
    /// must have room for one more number.
    pub fn add_item(
        &mut self,
        vector_len: usize,
        label: Option<String>,
        metadata: Option<Attributes>,
    ) -> (id: Result<usize, Error>)
        requires
            old(self).wf(),
            old(self)@.next_id + 1 <= usize::MAX,
        ensures
            final(self).wf(),
            final(self)@ == old(self)@.insert(
                vector_len,
                option_view(label),
                option_attributes_view(metadata),
            ).0,
            id == old(self)@.insert(
                vector_len,
                option_view(label),
                option_attributes_view(metadata),
            ).1,
    {
        match check_dimension(vector_len, self.dim) {
            Err(e) => {
                return Err(e);
            },
            Ok(_) => {},
        }
        let id = self.current_id;
        let ghost before = self@;
        let ghost asked = option_view(label);
        let ghost attached = option_attributes_view(metadata);
        let label = match label {
            Some(label) => label,
            None => decimal_label(id),
        };
        if !self.label_to_id.take(label.clone(), id) {
            return Err(Error::DuplicateLabel);
        }
        proof {
            lemma_number_is_free(before.records, before.next_id, id);
        }
        self.metadata_store.insert(id, ItemMetadata { label, metadata });
        self.current_id = self.current_id + 1;
        proof {
            self.label_to_id.lemma_no_label_twice();
            self.metadata_store.lemma_one_record_each();
            lemma_insert_keeps_well_formed(before, vector_len, asked, attached);
        }
        Ok(id)
    }

    /// Adds a batch of entries and answers the internal numbers under which
    /// their vectors are to enter the graph, and how; see
    /// `IndexView::insert_batch`. `vector_lens` holds the length of the
    /// vector of each row.
    ///
    /// A batch is not added as a whole: a row that fails ends it, and the
    /// rows before it stay added. Their internal numbers come back with the
    /// failure, so that their vectors enter the graph all the same. The
    /// counter must have room for one more number for each row.
    pub fn add_batch(
        &mut self,
        vector_lens: &Vec<usize>,
        labels: Option<&Vec<String>>,
        parallel: bool,
    ) -> (plan: Result<BatchPlan, BatchFailure>)
        requires
            old(self).wf(),
            old(self)@.next_id + vector_lens@.len() <= usize::MAX,
        ensures
            final(self).wf(),
            final(self)@ == old(self)@.insert_batch(vector_lens@, option_labels_view(labels)).index,
            match old(self)@.insert_batch(vector_lens@, option_labels_view(labels)).failure {
                None => {
                    &&& plan is Ok
                    &&& plan->Ok_0.ids@ == old(self)@.insert_batch(
                        vector_lens@,
                        option_labels_view(labels),
                    ).ids
                    &&& plan->Ok_0.insertion == old(self)@.insertion(parallel)
                },
                Some(failure) => {
                    &&& plan is Err
                    &&& plan->Err_0.row == failure.row
                    &&& plan->Err_0.error == failure.error
                    &&& plan->Err_0.committed.ids@ == old(self)@.insert_batch(
                        vector_lens@,
                        option_labels_view(labels),
                    ).ids
                    &&& plan->Err_0.committed.insertion == old(self)@.insertion(parallel)
                },
            },
    {
        let n = vector_lens.len();
        let insertion = if parallel && self.random_seed.is_none() {
            Insertion::Parallel
        } else {
            Insertion::Serial
        };
        match labels {
            Some(given) => {
                if given.len() != n {
                    let row = if given.len() < n {
                        given.len()
                    } else {
                        n
                    };
                    return Err(
                        BatchFailure {
                            row,
                            error: Error::InvalidArgument,
                            committed: BatchPlan { ids: Vec::new(), insertion },
                        },
                    );
                }
            },
            None => {},
        }
        let ghost start = self@;
        let ghost label_views = option_labels_view(labels);
        let mut ids: Vec<usize> = Vec::new();
        let mut i: usize = 0;
        while i < n
            invariant
                i <= n,
                n == vector_lens@.len(),
                label_views == option_labels_view(labels),
                labels is Some ==> labels.unwrap()@.len() == n,
                start == old(self)@,
                self.wf(),
                start.next_id + n <= usize::MAX,
                start.next_id <= self@.next_id <= start.next_id + i,
                self@.random_seed == start.random_seed,
                insertion == start.insertion(parallel),
                start.insert_rows(vector_lens@, label_views, i as nat) == (BatchView {
                    index: self@,
                    ids: ids@,
                    failure: None,
                }),
            decreases n - i,
        {
            let label = match labels {
                Some(given) => Some(given[i].clone()),
                None => None,
            };
            assert(option_view(label) == IndexView::label_of_row(label_views, i as int));
            let ghost so_far = start.insert_rows(vector_lens@, label_views, i as nat);
            let ghost next = start.insert_rows(vector_lens@, label_views, (i + 1) as nat);
            match self.add_item(vector_lens[i], label, None) {
                Err(error) => {
                    proof {
                        assert(next == (BatchView {
                            index: self@,
                            ids: so_far.ids,
                            failure: Some(BatchError { row: i, error }),
                        }));
                        lemma_failure_ends_batch(start, vector_lens@, label_views, i + 1, n as int);
                    }
                    return Err(
                        BatchFailure { row: i, error, committed: BatchPlan { ids, insertion } },
                    );
                },
                Ok(id) => {
                    ids.push(id);
                    assert(next == (BatchView { index: self@, ids: ids@, failure: None }));
                },
            }
            i += 1;
        }
        Ok(BatchPlan { ids, insertion })
    }

    /// Prepares a search of the graph for a query of length `query_len`.
    ///
    /// The length must be the dimension of the index (`DimensionMismatch`).
    /// A breadth that is given is used for this search and for all that
    /// follow; without one the search uses the breadth that the index has.
    /// `DEFAULT_K` neighbours are looked for where no number is given.
    pub fn prepare_search(&mut self, query_len: usize, k: Option<usize>, ef: Option<usize>) -> (request:
        Result<SearchRequest, Error>)
        ensures
            final(self)@ == old(self)@.prepare(query_len, k, ef).0,
            request == old(self)@.prepare(query_len, k, ef).1,
            old(self).wf() ==> final(self).wf(),
    {
        match check_dimension(query_len, self.dim) {
            Err(e) => {
                return Err(e);
            },
            Ok(_) => {},
        }
        match ef {
            Some(ef) => {
                self.ef_search = ef;
            },
            None => {},
        }
        Ok(
            SearchRequest {
                k: match k {
                    Some(k) => k,
                    None => DEFAULT_K,
                },
                ef: self.ef_search,
            },
        )
    }

    /// Answers a search with the labels of what the graph found.
    ///
    /// `neighbours` is what the graph found, nearest first. Each neighbour
    /// is answered with the label of its record, in the same order, and with
    /// its distance if `include_distances` is set. A neighbour without a
    /// record is passed over.
    pub fn search(&self, neighbours: &Vec<Neighbour>, include_distances: bool) -> (results:
        SearchResults)
        requires
            self.wf(),
        ensures
            strings_view(results.labels@) == self@.hits(neighbours@).map_values(
                |hit: HitView| hit.item.label,
            ),
            include_distances ==> results.distances is Some && results.distances->Some_0@
                == self@.hits(neighbours@).map_values(|hit: HitView| hit.distance),
            !include_distances ==> results.distances is None,
    {
        let mut labels: Vec<String> = Vec::new();
        let mut distances: Vec<u32> = Vec::new();
        let mut i: usize = 0;
        while i < neighbours.len()
            invariant
                i <= neighbours.len(),
                self.wf(),
                strings_view(labels@) == self@.hits(neighbours@.take(i as int)).map_values(
                    |hit: HitView| hit.item.label,
                ),
                distances@ == self@.hits(neighbours@.take(i as int)).map_values(
                    |hit: HitView| hit.distance,
                ),
            decreases neighbours.len() - i,
        {
            let neighbour = neighbours[i];
            let ghost labels_before = strings_view(labels@);
            let ghost hits_before = self@.hits(neighbours@.take(i as int));
            proof {
                neighbours@.lemma_filter_map_take_succ(
                    |neighbour: Neighbour| self@.hit(neighbour),
                    i as int,
                );
            }
            match self.find_record(neighbour.d_id) {
                Some(p) => {
                    let label = self.metadata_store.get(p).1.label.clone();
                    labels.push(label);
                    distances.push(neighbour.distance);
                    let ghost hit = HitView {
                        item: self@.record(neighbour.d_id),
                        distance: neighbour.distance,
                    };
                    assert(self@.hits(neighbours@.take(i + 1)) == hits_before + seq![hit]);
                    assert(strings_view(labels@) =~= labels_before.push(label@));
                    assert(strings_view(labels@) =~= (hits_before + seq![hit]).map_values(
                        |hit: HitView| hit.item.label,
                    ));
                    assert(distances@ =~= (hits_before + seq![hit]).map_values(
                        |hit: HitView| hit.distance,
                    ));
                },
                None => {
                    assert(self@.hits(neighbours@.take(i + 1)) == hits_before + Seq::empty());
                    assert(hits_before + Seq::<HitView>::empty() =~= hits_before);
                },
            }
            i += 1;
        }
        assert(neighbours@.take(i as int) == neighbours@);
        SearchResults {
            labels,
            distances: if include_distances {
                Some(distances)
            } else {
                None
            },
        }
    }

    /// Answers a search with the hits of what the graph found: for each
    /// neighbour, nearest first, its label, its distance and what is
    /// attached to it. A neighbour without a record is passed over.
    pub fn search_with_metadata(&self, neighbours: &Vec<Neighbour>) -> (results: Vec<MetadataHit>)
        requires
            self.wf(),
        ensures
            hits_view(results@) == self@.hits(neighbours@),
    {
        let mut results: Vec<MetadataHit> = Vec::new();
        let mut i: usize = 0;
        while i < neighbours.len()
            invariant
                i <= neighbours.len(),
                self.wf(),
                hits_view(results@) == self@.hits(neighbours@.take(i as int)),
            decreases neighbours.len() - i,
        {
            let neighbour = neighbours[i];
            let ghost hits_before = hits_view(results@);
            proof {
                neighbours@.lemma_filter_map_take_succ(
                    |neighbour: Neighbour| self@.hit(neighbour),
                    i as int,
                );
            }
            match self.find_record(neighbour.d_id) {
                Some(p) => {
                    let item = &self.metadata_store.get(p).1;
                    let hit = MetadataHit {
                        label: item.label.clone(),
                        distance: neighbour.distance,
                        metadata: copy_option_attributes(&item.metadata),
                    };
                    results.push(hit);
                    assert(hit@ == (HitView {
                        item: self@.record(neighbour.d_id),
                        distance: neighbour.distance,
                    }));
                    assert(hits_view(results@) =~= hits_before + seq![hit@]);
                },
                None => {
                    assert(hits_before + Seq::<HitView>::empty() =~= hits_before);
                },
            }
            i += 1;
        }
        assert(neighbours@.take(i as int) == neighbours@);
        results
    }

    /// What is written beside the graph when the index is saved: the records,
    /// the labels, the counter, the dimension and the name of the space.
    pub fn save(&self) -> (sidecar: Sidecar)
        ensures
            records_view(sidecar.metadata@) == self@.records,
            labels_view(sidecar.label_to_id@) == self@.labels,
            sidecar.current_id == self@.next_id,
            sidecar.dim == self@.dim,
            sidecar.space@ == space_name(self@.space),
    {
        let mut metadata: Vec<(usize, ItemMetadata)> = Vec::new();
        let mut i: usize = 0;
        while i < self.metadata_store.len()
            invariant
                i <= self@.records.len(),
                records_view(metadata@) == self@.records.take(i as int),
            decreases self@.records.len() - i,
        {
            let ghost before = records_view(metadata@);
            let entry = self.metadata_store.get(i);
            let item = ItemMetadata {
                label: entry.1.label.clone(),
                metadata: copy_option_attributes(&entry.1.metadata),
            };
            metadata.push((entry.0, item));
            assert(records_view(metadata@) =~= before.push((entry.0, entry.1@)));
            assert(self@.records.take(i + 1) =~= before.push((entry.0, entry.1@)));
            i += 1;
        }
        assert(self@.records.take(i as int) == self@.records);
        let mut label_to_id: Vec<(String, usize)> = Vec::new();
        let mut j: usize = 0;
        while j < self.label_to_id.len()
            invariant
                j <= self@.labels.len(),
                labels_view(label_to_id@) == self@.labels.take(j as int),
            decreases self@.labels.len() - j,
        {
            let ghost before = labels_view(label_to_id@);
            let entry = self.label_to_id.get(j);
            label_to_id.push((entry.0.clone(), entry.1));
            assert(labels_view(label_to_id@) =~= before.push((entry.0@, entry.1)));
            assert(self@.labels.take(j + 1) =~= before.push((entry.0@, entry.1)));
            j += 1;
        }
        assert(self@.labels.take(j as int) == self@.labels);
        Sidecar {
            metadata,
            label_to_id,
            current_id: self.current_id,
            dim: self.dim,
            space: String::from_str(self.space.name()),
        }
    }

    /// The index that `sidecar` describes, or `CorruptPersistedState`; see
    /// `IndexView::restore`.
    pub fn load(sidecar: Sidecar) -> (index: Result<HnswIndex, Error>)
        ensures
            match IndexView::restore(
                records_view(sidecar.metadata@),
                labels_view(sidecar.label_to_id@),
                sidecar.current_id,
                sidecar.dim,
                sidecar.space@,
            ) {
                Ok(view) => index is Ok && index->Ok_0@ == view && index->Ok_0.wf(),
                Err(e) => index is Err && index->Err_0 == e,
            },
    {
        let space = match DistanceType::named(sidecar.space.as_str()) {
            Some(space) => space,
            None => {
                return Err(Error::CorruptPersistedState);
            },
        };
        let ghost labels = labels_view(sidecar.label_to_id@);
        let ghost records = records_view(sidecar.metadata@);
        let ghost wanted = IndexView {
            dim: sidecar.dim,
            space,
            max_elements: DEFAULT_MAX_ELEMENTS,
            m: DEFAULT_M,
            ef_construction: DEFAULT_EF_CONSTRUCTION,
            random_seed: None,
            labels,
            records,
            next_id: sidecar.current_id,
            ef_search: LOADED_EF_SEARCH,
        };
        if sidecar.dim == 0 {
            return Err(Error::CorruptPersistedState);
        }
        if sidecar.label_to_id.len() != sidecar.metadata.len() {
            assert(wanted.labels.len() != wanted.records.len());
            return Err(Error::CorruptPersistedState);
        }
        let mut label_to_id = LabelTable::new();
        let mut i: usize = 0;
        while i < sidecar.label_to_id.len()
            invariant
                i <= sidecar.label_to_id.len(),
                labels == labels_view(sidecar.label_to_id@),
                label_to_id.wf(),
                label_to_id@ == labels.take(i as int),
                forall|a: int| 0 <= a < i ==> (#[trigger] labels[a]).1 < sidecar.current_id,
                space_named(sidecar.space@) == Some(space),
                wanted == (IndexView {
                    dim: sidecar.dim,
                    space,
                    max_elements: DEFAULT_MAX_ELEMENTS,
                    m: DEFAULT_M,
                    ef_construction: DEFAULT_EF_CONSTRUCTION,
                    random_seed: None,
                    labels,
                    records,
                    next_id: sidecar.current_id,
                    ef_search: LOADED_EF_SEARCH,
                }),
                records == records_view(sidecar.metadata@),
            decreases sidecar.label_to_id.len() - i,
        {
            let entry = &sidecar.label_to_id[i];
            assert(labels[i as int] == (entry.0@, entry.1));
            if entry.1 >= sidecar.current_id {
                assert(!(wanted.labels[i as int].1 < wanted.next_id));
                return Err(Error::CorruptPersistedState);
            }
            let ghost before = label_to_id@;
            if !label_to_id.take(entry.0.clone(), entry.1) {
                proof {
                    let a = choose|a: int|
                        0 <= a < before.len() && (#[trigger] before[a]).0 == entry.0@;
                    assert(labels.take(i as int)[a] == labels[a]);
                    assert(wanted.labels[a].0 == wanted.labels[i as int].0);
                }
                return Err(Error::CorruptPersistedState);
            }
            assert(labels.take(i + 1) =~= labels.take(i as int).push(labels[i as int]));
            i += 1;
        }
        assert(labels.take(i as int) == labels);
        let mut metadata_store = RecordStore::new();
        let mut j: usize = 0;
        while j < sidecar.metadata.len()
            invariant
                j <= sidecar.metadata.len(),
                records == records_view(sidecar.metadata@),
                metadata_store.wf(),
                metadata_store@ == records.take(j as int),
                forall|a: int| 0 <= a < j ==> (#[trigger] records[a]).0 < sidecar.current_id,
                forall|a: int|
                    0 <= a < j ==> holds_entry(labels, (#[trigger] records[a]).1.label, records[a].0),
                label_to_id.wf(),
                label_to_id@ == labels,
                space_named(sidecar.space@) == Some(space),
                wanted == (IndexView {
                    dim: sidecar.dim,
                    space,
                    max_elements: DEFAULT_MAX_ELEMENTS,
                    m: DEFAULT_M,
                    ef_construction: DEFAULT_EF_CONSTRUCTION,
                    random_seed: None,
                    labels,
                    records,
                    next_id: sidecar.current_id,
                    ef_search: LOADED_EF_SEARCH,
                }),
                labels == labels_view(sidecar.label_to_id@),
            decreases sidecar.metadata.len() - j,
        {
            let entry = &sidecar.metadata[j];
            assert(records[j as int] == (entry.0, entry.1@));
            if entry.0 >= sidecar.current_id {
                assert(!(wanted.records[j as int].0 < wanted.next_id));
                return Err(Error::CorruptPersistedState);
            }
            match label_to_id.find(&entry.1.label) {
                Some(id) => {
                    if id != entry.0 {
                        proof {
                            label_to_id.lemma_no_label_twice();
                            let label = entry.1.label@;
                            if holds_entry(labels, label, entry.0) {
                                let p = choose|p: int|
                                    0 <= p < labels.len() && #[trigger] labels[p] == (label, id);
                                let q = choose|q: int|
                                    0 <= q < labels.len() && #[trigger] labels[q] == (
                                        label,
                                        entry.0,
                                    );
                                if p < q {
                                    assert(labels[p].0 != labels[q].0);
                                } else if q < p {
                                    assert(labels[q].0 != labels[p].0);
                                }
                            }
                            assert(!holds_entry(
                                wanted.labels,
                                wanted.records[j as int].1.label,
                                wanted.records[j as int].0,
                            ));
                        }
                        return Err(Error::CorruptPersistedState);
                    }
                },
                None => {
                    proof {
                        let label = entry.1.label@;
                        if holds_entry(labels, label, entry.0) {
                            let q = choose|q: int|
                                0 <= q < labels.len() && #[trigger] labels[q] == (label, entry.0);
                            assert(labels[q].0 == label);
                        }
                        assert(!holds_entry(
                            wanted.labels,
                            wanted.records[j as int].1.label,
                            wanted.records[j as int].0,
                        ));
                    }
                    return Err(Error::CorruptPersistedState);
                },
            }
            let ghost before = metadata_store@;
            let item = ItemMetadata {
                label: entry.1.label.clone(),
                metadata: copy_option_attributes(&entry.1.metadata),
            };
            if !metadata_store.insert(entry.0, item) {
                proof {
                    let a = choose|a: int|
                        0 <= a < before.len() && (#[trigger] before[a]).0 == entry.0;
                    assert(records.take(j as int)[a] == records[a]);
                    assert(wanted.records[a].0 == wanted.records[j as int].0);
                }
                return Err(Error::CorruptPersistedState);
            }
            assert(records.take(j + 1) =~= records.take(j as int).push(records[j as int]));
            j += 1;
        }
        assert(records.take(j as int) == records);
        proof {
            label_to_id.lemma_no_label_twice();
            metadata_store.lemma_one_record_each();
        }
        Ok(
            HnswIndex {
                dim: sidecar.dim,
                space,
                max_elements: DEFAULT_MAX_ELEMENTS,
                m: DEFAULT_M,
                ef_construction: DEFAULT_EF_CONSTRUCTION,
                random_seed: None,
                label_to_id,
                metadata_store,
                current_id: sidecar.current_id,
                ef_search: LOADED_EF_SEARCH,
            },
        )
    }
}

/// An internal number at or above the counter holds no record yet.
proof fn lemma_number_is_free(records: Seq<(usize, ItemView)>, counter: usize, id: usize)
    requires
        forall|i: int| 0 <= i < records.len() ==> (#[trigger] records[i]).0 < counter,
        counter <= id,
    ensures
        !holds_record(records, id),
{
}

/// A copy of attributes.
fn copy_attributes(pairs: &Attributes) -> (copy: Attributes)
    ensures
        attributes_view(copy@) == attributes_view(pairs@),
{
    let mut copy: Attributes = Vec::new();
    let mut i: usize = 0;
    while i < pairs.len()
        invariant
            i <= pairs.len(),
            copy@.len() == i,
            forall|j: int|
                0 <= j < i ==> (#[trigger] copy@[j]).0@ == pairs@[j].0@ && copy@[j].1@
                    == pairs@[j].1@,
        decreases pairs.len() - i,
    {
        let pair = &pairs[i];
        copy.push((pair.0.clone(), pair.1.clone()));
        i += 1;
    }
    assert(attributes_view(copy@) =~= attributes_view(pairs@));
    copy
}

/// A copy of optional attributes.
fn copy_option_attributes(metadata: &Option<Attributes>) -> (copy: Option<Attributes>)
    ensures
        option_attributes_view(copy) == option_attributes_view(*metadata),
{
    match metadata {
        Some(pairs) => Some(copy_attributes(pairs)),
        None => None,
    }
}

/// Once a row has failed, the rows after it change nothing.
proof fn lemma_failure_ends_batch(
    start: IndexView,
    vector_lens: Seq<usize>,
    labels: Option<Seq<Seq<char>>>,
    failed: int,
    n: int,
)
    requires
        0 <= failed <= n,
        start.insert_rows(vector_lens, labels, failed as nat).failure is Some,
    ensures
        start.insert_rows(vector_lens, labels, n as nat) == start.insert_rows(
            vector_lens,
            labels,
            failed as nat,
        ),
    decreases n - failed,
{
    if failed < n {
        lemma_failure_ends_batch(start, vector_lens, labels, failed, n - 1);
    }
}

/// An optional list of labels as sequences.
pub open spec fn option_labels_view(labels: Option<&Vec<String>>) -> Option<Seq<Seq<char>>> {
    match labels {
        Some(labels) => Some(strings_view(labels@)),
        None => None,
    }
}

/// The neighbours of `neighbours` are in the order of their distances, the
/// nearest first.
pub open spec fn nearest_first(neighbours: Seq<Neighbour>) -> bool {
    forall|i: int, j: int|
        0 <= i < j < neighbours.len() ==> (#[trigger] neighbours[i]).distance <= (
        #[trigger] neighbours[j]).distance
}

/// The hits of `hits` are in the order of their distances, the nearest first.
pub open spec fn hits_nearest_first(hits: Seq<HitView>) -> bool {
    forall|i: int, j: int|
        0 <= i < j < hits.len() ==> (#[trigger] hits[i]).distance <= (#[trigger] hits[j]).distance
}

/// A vector whose length is not the dimension of the index is refused with
/// `DimensionMismatch`, and the index stays as it is. A vector of the right
/// length whose label is free, or is made, is added, and the index then holds
/// exactly one entry more.
pub proof fn lemma_insert_checks_dimension(
    index: IndexView,
    vector_len: usize,
    label: Option<Seq<char>>,
    metadata: Option<Seq<(Seq<char>, Seq<char>)>>,
)
    ensures
        vector_len != index.dim ==> index.insert(vector_len, label, metadata) == (
            index,
            Err::<usize, Error>(Error::DimensionMismatch { expected: index.dim, got: vector_len }),
        ),
        vector_len == index.dim && label is Some && !index.has_label(label.unwrap()) ==> {
            &&& index.insert(vector_len, label, metadata).1 is Ok
            &&& index.insert(vector_len, label, metadata).0.size() == index.size() + 1
        },
        vector_len == index.dim && label is None && !index.has_label(index.next_label()) ==> {
            &&& index.insert(vector_len, label, metadata).1 is Ok
            &&& index.insert(vector_len, label, metadata).0.size() == index.size() + 1
        },
{
}

/// An attempt to add an entry that fails leaves the index as it was: neither
/// a label nor an internal number is used up.
pub proof fn lemma_failed_insert_changes_nothing(
    index: IndexView,
    vector_len: usize,
    label: Option<Seq<char>>,
    metadata: Option<Seq<(Seq<char>, Seq<char>)>>,
)
    requires
        index.insert(vector_len, label, metadata).1 is Err,
    ensures
        index.insert(vector_len, label, metadata).0 == index,
{
}

/// Adding an entry keeps an index well formed: label, internal number and
/// record are set down together, so the two tables stay in step.
pub proof fn lemma_insert_keeps_well_formed(
    index: IndexView,
    vector_len: usize,
    label: Option<Seq<char>>,
    metadata: Option<Seq<(Seq<char>, Seq<char>)>>,
)
    requires
        index.wf(),
        index.next_id + 1 <= usize::MAX,
    ensures
        index.insert(vector_len, label, metadata).0.wf(),
{
    let (after, answer) = index.insert(vector_len, label, metadata);
    if answer is Ok {
        let id = index.next_id;
        let taken = match label {
            Some(label) => label,
            None => index.next_label(),
        };
        let last = index.labels.len() as int;
        assert(after.labels[last] == (taken, id));
        assert(after.records[last].0 == id);
        assert forall|i: int, j: int| 0 <= i < j < after.labels.len() implies (
        #[trigger] after.labels[i]).0 != (#[trigger] after.labels[j]).0 by {
            assert(after.labels[i] == index.labels[i]);
            if j < last {
                assert(after.labels[j] == index.labels[j]);
            }
        }
        assert forall|i: int, j: int| 0 <= i < j < after.records.len() implies (
        #[trigger] after.records[i]).0 != (#[trigger] after.records[j]).0 by {
            assert(after.records[i] == index.records[i]);
            if j < last {
                assert(after.records[j] == index.records[j]);
            }
        }
        assert forall|i: int| 0 <= i < after.records.len() implies holds_entry(
            after.labels,
            (#[trigger] after.records[i]).1.label,
            after.records[i].0,
        ) by {
            if i < last {
                assert(after.records[i] == index.records[i]);
                let p = choose|p: int|
                    0 <= p < index.labels.len() && #[trigger] index.labels[p] == (
                        index.records[i].1.label,
                        index.records[i].0,
                    );
                assert(after.labels[p] == index.labels[p]);
            }
        }
        assert forall|i: int| 0 <= i < after.labels.len() implies (#[trigger] after.labels[i]).1
            < after.next_id by {
            if i < last {
                assert(after.labels[i] == index.labels[i]);
            }
        }
        assert forall|i: int| 0 <= i < after.records.len() implies (#[trigger] after.records[i]).0
            < after.next_id by {
            if i < last {
                assert(after.records[i] == index.records[i]);
            }
        }
    }
}

/// On an index that was just created, a vector of the wrong length is refused
/// with `DimensionMismatch`, and a vector of the right length is added
/// whatever its label: the index then holds one entry, under the internal
/// number 0.
pub proof fn lemma_insert_after_create(
    dim: usize,
    space: Seq<char>,
    max_elements: Option<usize>,
    m: Option<usize>,
    ef_construction: Option<usize>,
    random_seed: Option<u64>,
    vector_len: usize,
    label: Option<Seq<char>>,
    metadata: Option<Seq<(Seq<char>, Seq<char>)>>,
)
    requires
        IndexView::create(dim, space, max_elements, m, ef_construction, random_seed) is Ok,
    ensures
        ({
            let index = IndexView::create(
                dim,
                space,
                max_elements,
                m,
                ef_construction,
                random_seed,
            )->Ok_0;
            let (after, answer) = index.insert(vector_len, label, metadata);
            &&& index.wf()
            &&& index.size() == 0
            &&& vector_len != dim ==> after == index && answer == Err::<usize, Error>(
                Error::DimensionMismatch { expected: dim, got: vector_len },
            )
            &&& vector_len == dim ==> answer == Ok::<usize, Error>(0usize) && after.size()
                == index.size() + 1
        }),
{
}

/// A label that was given to one entry cannot be given to a second: the
/// attempt fails with `DuplicateLabel` and leaves the index, and with it its
/// size, as it was. The second vector has the right length; one of the wrong
/// length is refused for that before its label is looked at.
pub proof fn lemma_label_cannot_be_taken_twice(
    index: IndexView,
    label: Seq<char>,
    first_len: usize,
    first_metadata: Option<Seq<(Seq<char>, Seq<char>)>>,
    second_len: usize,
    second_metadata: Option<Seq<(Seq<char>, Seq<char>)>>,
)
    requires
        index.insert(first_len, Some(label), first_metadata).1 is Ok,
        second_len == index.dim,
    ensures
        ({
            let once = index.insert(first_len, Some(label), first_metadata).0;
            let (twice, answer) = once.insert(second_len, Some(label), second_metadata);
            &&& answer == Err::<usize, Error>(Error::DuplicateLabel)
            &&& twice == once
            &&& twice.size() == once.size()
        }),
{
    let once = index.insert(first_len, Some(label), first_metadata).0;
    assert(once.labels.last().0 == label);
    assert(once.has_label(label));
}

/// A label that is taken is refused whenever it is given again, whatever
/// comes with it: the attempt fails with `DuplicateLabel`, and the index
/// stays as it was. So its size stays, the entry under the label keeps what
/// it had, and every search of the graph is answered as before.
pub proof fn lemma_taken_label_is_refused(
    index: IndexView,
    label: Seq<char>,
    vector_len: usize,
    metadata: Option<Seq<(Seq<char>, Seq<char>)>>,
    neighbours: Seq<Neighbour>,
)
    requires
        index.has_label(label),
        vector_len == index.dim,
    ensures
        ({
            let (after, answer) = index.insert(vector_len, Some(label), metadata);
            &&& answer == Err::<usize, Error>(Error::DuplicateLabel)
            &&& after == index
            &&& after.size() == index.size()
            &&& after.hits(neighbours) == index.hits(neighbours)
        }),
{
}

/// Internal numbers are given out in order, one to each entry: an entry
/// that is added gets the counter as its internal number, and the counter
/// moves on by one. An entry without a label of its own is labelled with
/// that number in decimal. The number was never given out before and is
/// never given out again, and an index that was well formed stays so.
pub proof fn lemma_internal_numbers_are_fresh(
    index: IndexView,
    vector_len: usize,
    label: Option<Seq<char>>,
    metadata: Option<Seq<(Seq<char>, Seq<char>)>>,
)
    requires
        index.wf(),
        index.next_id + 1 <= usize::MAX,
        index.insert(vector_len, label, metadata).1 is Ok,
    ensures
        ({
            let (after, answer) = index.insert(vector_len, label, metadata);
            let id = answer->Ok_0;
            &&& id == index.next_id
            &&& after.next_id == id + 1
            &&& !index.has_record(id)
            &&& after.has_record(id)
            &&& after.record(id).label == (match label {
                Some(label) => label,
                None => decimal(id as nat),
            })
            &&& after.record(id).metadata == metadata
            &&& after.labels.len() == after.records.len()
            &&& after.wf()
        }),
{
    let (after, answer) = index.insert(vector_len, label, metadata);
    let id = answer->Ok_0;
    lemma_insert_keeps_well_formed(index, vector_len, label, metadata);
    let last = index.records.len() as int;
    assert(after.records[last].0 == id);
    if index.has_record(id) {
        let i = choose|i: int| 0 <= i < index.records.len() && (#[trigger] index.records[i]).0 == id;
        assert(index.records[i].0 < index.next_id);
    }
    let chosen = choose|i: int| 0 <= i < after.records.len() && (#[trigger] after.records[i]).0 == id;
    if chosen < last {
        assert(after.records[chosen].0 != after.records[last].0);
    }
}

/// A batch is added row by row, and what was added stays: the index holds
/// one entry more for every internal number that is answered. If a row
/// failed, the rows before it were added, as many as the number of the row
/// that failed; otherwise all rows were. An index that was well formed stays
/// so.
pub proof fn lemma_batch_keeps_rows_before_failure(
    index: IndexView,
    vector_lens: Seq<usize>,
    labels: Option<Seq<Seq<char>>>,
    n: nat,
)
    requires
        index.wf(),
        index.next_id + n <= usize::MAX,
    ensures
        ({
            let batch = index.insert_rows(vector_lens, labels, n);
            &&& batch.index.wf()
            &&& batch.index.size() == index.size() + batch.ids.len()
            &&& batch.index.next_id == index.next_id + batch.ids.len()
            &&& match batch.failure {
                Some(failure) => batch.ids.len() == failure.row && failure.row < n,
                None => batch.ids.len() == n,
            }
        }),
    decreases n,
{
    if n > 0 {
        lemma_batch_keeps_rows_before_failure(index, vector_lens, labels, (n - 1) as nat);
        let before = index.insert_rows(vector_lens, labels, (n - 1) as nat);
        if before.failure is None {
            lemma_insert_keeps_well_formed(
                before.index,
                vector_lens[n - 1],
                IndexView::label_of_row(labels, n - 1),
                None,
            );
        }
    }
}

/// A search answers the neighbours that the graph found in their order: if
/// they come nearest first, so do the hits. No neighbour is answered twice
/// or added, and if every neighbour has a record there are as many hits as
/// neighbours.
pub proof fn lemma_search_keeps_order(index: IndexView, neighbours: Seq<Neighbour>)
    requires
        nearest_first(neighbours),
    ensures
        hits_nearest_first(index.hits(neighbours)),
        index.hits(neighbours).len() <= neighbours.len(),
        (forall|i: int| 0 <= i < neighbours.len() ==> index.has_record((#[trigger] neighbours[i]).d_id))
            ==> index.hits(neighbours).len() == neighbours.len(),
        forall|t: int|
            0 <= t < index.hits(neighbours).len() ==> (#[trigger] index.hits(neighbours)[t]).distance
                <= neighbours.last().distance,
    decreases neighbours.len(),
{
    if neighbours.len() > 0 {
        let rest = neighbours.drop_last();
        let last = neighbours.last();
        assert(nearest_first(rest)) by {
            assert forall|i: int, j: int| 0 <= i < j < rest.len() implies (#[trigger] rest[i]).distance
                <= (#[trigger] rest[j]).distance by {
                assert(neighbours[i].distance <= neighbours[j].distance);
            }
        }
        lemma_search_keeps_order(index, rest);
        if rest.len() > 0 {
            assert(rest.last().distance <= last.distance) by {
                assert(neighbours[rest.len() - 1].distance <= neighbours[neighbours.len() - 1].distance);
            }
        }
        if (forall|i: int| 0 <= i < neighbours.len() ==> index.has_record((#[trigger] neighbours[i]).d_id)) {
            assert(forall|i: int| 0 <= i < rest.len() ==> index.has_record((#[trigger] rest[i]).d_id)) by {
                assert forall|i: int| 0 <= i < rest.len() implies index.has_record((#[trigger] rest[i]).d_id) by {
                    assert(index.has_record(neighbours[i].d_id));
                }
            }
            assert(index.has_record(neighbours[neighbours.len() - 1].d_id));
        }
    }
}

/// Two records with the same label are one record: in an index that is well
/// formed a label stands for one internal number only.
pub proof fn lemma_label_tells_records_apart(index: IndexView, a: usize, b: usize)
    requires
        index.wf(),
        index.has_record(a),
        index.has_record(b),
        index.record(a).label == index.record(b).label,
    ensures
        a == b,
{
    let i = choose|i: int| 0 <= i < index.records.len() && (#[trigger] index.records[i]).0 == a;
    let j = choose|j: int| 0 <= j < index.records.len() && (#[trigger] index.records[j]).0 == b;
    let label = index.records[i].1.label;
    assert(holds_entry(index.labels, index.records[i].1.label, index.records[i].0));
    assert(holds_entry(index.labels, index.records[j].1.label, index.records[j].0));
    let p = choose|p: int| 0 <= p < index.labels.len() && #[trigger] index.labels[p] == (label, a);
    let q = choose|q: int| 0 <= q < index.labels.len() && #[trigger] index.labels[q] == (label, b);
    if p < q {
        assert(index.labels[p].0 != index.labels[q].0);
    } else if q < p {
        assert(index.labels[q].0 != index.labels[p].0);
    }
}

/// Where every neighbour that the graph found has a record, the search
/// answers each of them, in their order: none is dropped and none is added.
pub proof fn lemma_search_answers_every_neighbour(index: IndexView, neighbours: Seq<Neighbour>)
    requires
        forall|i: int| 0 <= i < neighbours.len() ==> index.has_record((#[trigger] neighbours[i]).d_id),
    ensures
        index.hits(neighbours).len() == neighbours.len(),
        forall|i: int|
            0 <= i < neighbours.len() ==> (#[trigger] index.hits(neighbours)[i]) == (HitView {
                item: index.record(neighbours[i].d_id),
                distance: neighbours[i].distance,
            }),
    decreases neighbours.len(),
{
    if neighbours.len() > 0 {
        let rest = neighbours.drop_last();
        assert forall|i: int| 0 <= i < rest.len() implies index.has_record(
            (#[trigger] rest[i]).d_id,
        ) by {
            assert(index.has_record(neighbours[i].d_id));
        }
        lemma_search_answers_every_neighbour(index, rest);
        assert(index.has_record(neighbours[neighbours.len() - 1].d_id));
        assert forall|i: int| 0 <= i < neighbours.len() implies (#[trigger] index.hits(
            neighbours,
        )[i]) == (HitView {
            item: index.record(neighbours[i].d_id),
            distance: neighbours[i].distance,
        }) by {
            if i < rest.len() {
                assert(index.hits(rest)[i] == (HitView {
                    item: index.record(rest[i].d_id),
                    distance: rest[i].distance,
                }));
            }
        }
    }
}

/// Where the graph found every entry once, and nothing else, the search
/// answers with as many labels as neighbours, each the label of an entry and
/// no label twice. So a search of an index with `N` entries for more than `N`
/// neighbours, for which the graph finds them all, answers with the `N`
/// labels.
pub proof fn lemma_search_answers_each_entry_once(index: IndexView, neighbours: Seq<Neighbour>)
    requires
        index.wf(),
        forall|i: int| 0 <= i < neighbours.len() ==> index.has_record((#[trigger] neighbours[i]).d_id),
        forall|i: int, j: int|
            0 <= i < j < neighbours.len() ==> (#[trigger] neighbours[i]).d_id != (
            #[trigger] neighbours[j]).d_id,
    ensures
        index.hits(neighbours).len() == neighbours.len(),
        forall|i: int|
            0 <= i < neighbours.len() ==> index.has_label(
                (#[trigger] index.hits(neighbours)[i]).item.label,
            ),
        forall|i: int, j: int|
            0 <= i < j < neighbours.len() ==> (#[trigger] index.hits(neighbours)[i]).item.label != (
            #[trigger] index.hits(neighbours)[j]).item.label,
{
    lemma_search_answers_every_neighbour(index, neighbours);
    let hits = index.hits(neighbours);
    assert forall|i: int| 0 <= i < neighbours.len() implies index.has_label(
        (#[trigger] hits[i]).item.label,
    ) by {
        let id = neighbours[i].d_id;
        assert(index.has_record(id));
        let c = choose|c: int| 0 <= c < index.records.len() && (#[trigger] index.records[c]).0 == id;
        assert(holds_entry(index.labels, index.records[c].1.label, index.records[c].0));
        let p = choose|p: int|
            0 <= p < index.labels.len() && #[trigger] index.labels[p] == (
                index.records[c].1.label,
                index.records[c].0,
            );
        assert(index.labels[p].0 == hits[i].item.label);
    }
    assert forall|i: int, j: int| 0 <= i < j < neighbours.len() implies (#[trigger] hits[i]).item.label
        != (#[trigger] hits[j]).item.label by {
        assert(index.has_record(neighbours[i].d_id));
        assert(index.has_record(neighbours[j].d_id));
        if hits[i].item.label == hits[j].item.label {
            lemma_label_tells_records_apart(index, neighbours[i].d_id, neighbours[j].d_id);
        }
    }
}

/// The hits of a search depend on the records of the index alone.
pub proof fn lemma_hits_depend_on_records(a: IndexView, b: IndexView, neighbours: Seq<Neighbour>)
    requires
        a.records == b.records,
    ensures
        a.hits(neighbours) == b.hits(neighbours),
    decreases neighbours.len(),
{
    if neighbours.len() > 0 {
        lemma_hits_depend_on_records(a, b, neighbours.drop_last());
        assert(a.hit(neighbours.last()) == b.hit(neighbours.last()));
    }
}

/// What is saved of an index brings it back: loading the parts that `save`
/// writes gives an index with the same dimension, space, counter, labels and
/// records, hence of the same size, which answers every search of the graph
/// with the same hits in the same order.
pub proof fn lemma_save_then_load(index: IndexView, neighbours: Seq<Neighbour>)
    requires
        index.wf(),
    ensures
        ({
            let loaded = IndexView::restore(
                index.records,
                index.labels,
                index.next_id,
                index.dim,
                space_name(index.space),
            );
            &&& loaded is Ok
            &&& loaded->Ok_0 == (IndexView {
                max_elements: DEFAULT_MAX_ELEMENTS,
                m: DEFAULT_M,
                ef_construction: DEFAULT_EF_CONSTRUCTION,
                random_seed: None,
                ef_search: LOADED_EF_SEARCH,
                ..index
            })
            &&& loaded->Ok_0.size() == index.size()
            &&& loaded->Ok_0.hits(neighbours) == index.hits(neighbours)
        }),
{
    lemma_space_is_found_by_name(index.space);
    let loaded = IndexView::restore(
        index.records,
        index.labels,
        index.next_id,
        index.dim,
        space_name(index.space),
    );
    lemma_hits_depend_on_records(loaded->Ok_0, index, neighbours);
}

/// An optional label as a sequence.
pub open spec fn option_view(label: Option<String>) -> Option<Seq<char>> {
    match label {
        Some(label) => Some(label@),
        None => None,
    }
}

/// Optional attributes as sequences.
pub open spec fn option_attributes_view(metadata: Option<Attributes>) -> Option<
    Seq<(Seq<char>, Seq<char>)>,
> {
    match metadata {
        Some(pairs) => Some(attributes_view(pairs@)),
        None => None,
    }
}

} // verus!
