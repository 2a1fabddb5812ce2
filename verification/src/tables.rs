//! The two tables of the vector index: the labels that are taken, and the
//! records of the entries.
//!
//! Each table keeps its entries in the order in which they came, and beside
//! them a hash map that tells where an entry stands, so that a label or an
//! internal number is looked up without going through the table.

use vstd::prelude::*;
use std::collections::HashMap;
use crate::hnsw::{ItemMetadata, ItemView};

verus! {

broadcast use vstd::std_specs::hash::group_hash_axioms;

/// Where a hash starts.
pub const HASH_BASIS: u64 = 0xcbf2_9ce4_8422_2325;

/// What a hash is multiplied by after each byte.
pub const HASH_PRIME: u64 = 0x0000_0100_0000_01b3;

/// The hash of a sequence of bytes: each byte in turn is mixed in and the
/// whole multiplied by `HASH_PRIME`, without regard to overflow.
pub open spec fn hash_of(bytes: Seq<u8>) -> u64
    decreases bytes.len(),
{
    if bytes.len() == 0 {
        HASH_BASIS
    } else {
        (hash_of(bytes.drop_last()) ^ (bytes.last() as u64)).wrapping_mul(HASH_PRIME)
    }
}

/// The hash of a label: that of its bytes.
pub open spec fn label_hash(label: Seq<char>) -> u64 {
    hash_of(vstd::utf8::encode_utf8(label))
}

/// The hash of `label`.
pub fn hash_label(label: &String) -> (hash: u64)
    ensures
        hash == label_hash(label@),
{
    let bytes = label.as_str().as_bytes();
    let mut hash = HASH_BASIS;
    let mut i: usize = 0;
    while i < bytes.len()
        invariant
            i <= bytes.len(),
            bytes@ == vstd::utf8::encode_utf8(label@),
            hash == hash_of(bytes@.take(i as int)),
        decreases bytes.len() - i,
    {
        assert(bytes@.take(i + 1).drop_last() == bytes@.take(i as int));
        hash = (hash ^ (bytes[i] as u64)).wrapping_mul(HASH_PRIME);
        i += 1;
    }
    assert(bytes@.take(i as int) == bytes@);
    hash
}

/// The label `label` stands in `labels`.
pub open spec fn holds_label(labels: Seq<(Seq<char>, usize)>, label: Seq<char>) -> bool {
    exists|i: int| 0 <= i < labels.len() && (#[trigger] labels[i]).0 == label
}

/// The label `label` stands in `labels` for the internal number `id`.
pub open spec fn holds_entry(labels: Seq<(Seq<char>, usize)>, label: Seq<char>, id: usize) -> bool {
    exists|i: int| 0 <= i < labels.len() && #[trigger] labels[i] == (label, id)
}

/// No label stands twice in `labels`.
pub open spec fn no_label_twice(labels: Seq<(Seq<char>, usize)>) -> bool {
    forall|i: int, j: int|
        0 <= i < j < labels.len() ==> (#[trigger] labels[i]).0 != (#[trigger] labels[j]).0
}

/// The labels that are taken, each with the internal number it stands for.
#[derive(Debug)]
pub struct LabelTable {
    entries: Vec<(String, usize)>,
    /// For the hash of each label, the places in `entries` of the labels
    /// with that hash.
    buckets: HashMap<u64, Vec<usize>>,
}

impl View for LabelTable {
    type V = Seq<(Seq<char>, usize)>;

    closed spec fn view(&self) -> Seq<(Seq<char>, usize)> {
        Seq::new(self.entries@.len(), |i: int| (self.entries@[i].0@, self.entries@[i].1))
    }
}

impl LabelTable {
    /// The entry at place `p` is filed under the hash of its label.
    spec fn filed(&self, p: int) -> bool {
        let hash = label_hash(self.entries@[p].0@);
        self.buckets@.contains_key(hash) && self.buckets@[hash]@.contains(p as usize)
    }

    /// The invariant of the table: no label stands in it twice, every entry
    /// is filed, and what is filed is the place of an entry.
    pub closed spec fn wf(&self) -> bool {
        &&& no_label_twice(self@)
        &&& forall|p: int| 0 <= p < self.entries@.len() ==> #[trigger] self.filed(p)
        &&& forall|hash: u64, j: int|
            self.buckets@.contains_key(hash) && 0 <= j < self.buckets@[hash]@.len() ==> (
            #[trigger] self.buckets@[hash]@[j]) < self.entries@.len()
    }

    /// In a table that is well formed no label stands twice.
    pub proof fn lemma_no_label_twice(&self)
        requires
            self.wf(),
        ensures
            no_label_twice(self@),
    {
    }

    /// A table without entries.
    pub fn new() -> (table: LabelTable)
        ensures
            table.wf(),
            table@ == Seq::<(Seq<char>, usize)>::empty(),
    {
        let table = LabelTable { entries: Vec::new(), buckets: HashMap::new() };
        assert(table@ =~= Seq::<(Seq<char>, usize)>::empty());
        table
    }

    /// How many labels are taken.
    pub fn len(&self) -> (len: usize)
        ensures
            len == self@.len(),
    {
        self.entries.len()
    }

    /// The label at place `i` and the internal number it stands for.
    pub fn get(&self, i: usize) -> (entry: &(String, usize))
        requires
            i < self@.len(),
        ensures
            (entry.0@, entry.1) == self@[i as int],
    {
        &self.entries[i]
    }

    /// Whether `label` is taken.
    pub fn contains(&self, label: &String) -> (taken: bool)
        requires
            self.wf(),
        ensures
            taken == holds_label(self@, label@),
    {
        self.find(label).is_some()
    }

    /// The internal number that `label` stands for, if the label is taken.
    pub fn find(&self, label: &String) -> (found: Option<usize>)
        requires
            self.wf(),
        ensures
            match found {
                Some(id) => holds_entry(self@, label@, id),
                None => !holds_label(self@, label@),
            },
    {
        let hash = hash_label(label);
        match self.buckets.get(&hash) {
            None => {
                assert forall|p: int| 0 <= p < self@.len() implies (#[trigger] self@[p]).0
                    != label@ by {
                    assert(self.filed(p));
                }
                None
            },
            Some(bucket) => {
                let mut j: usize = 0;
                while j < bucket.len()
                    invariant
                        j <= bucket.len(),
                        self.wf(),
                        self.buckets@.contains_key(hash),
                        self.buckets@[hash] == *bucket,
                        forall|i: int|
                            0 <= i < j ==> (#[trigger] self@[bucket@[i] as int]).0 != label@,
                    decreases bucket.len() - j,
                {
                    let p = bucket[j];
                    if self.entries[p].0 == *label {
                        assert(self@[p as int] == (label@, self.entries@[p as int].1));
                        return Some(self.entries[p].1);
                    }
                    j += 1;
                }
                assert forall|p: int| 0 <= p < self@.len() implies (#[trigger] self@[p]).0
                    != label@ by {
                    assert(self.filed(p));
                    assert(p < self.entries.len());
                    if self@[p].0 == label@ {
                        let i = choose|i: int| 0 <= i < bucket@.len() && bucket@[i] == p as usize;
                        assert(self@[bucket@[i] as int].0 != label@);
                    }
                }
                None
            },
        }
    }

    /// Takes `label` for the internal number `id`, unless it is taken
    /// already. The answer says whether the label was free.
    pub fn take(&mut self, label: String, id: usize) -> (free: bool)
        requires
            old(self).wf(),
        ensures
            final(self).wf(),
            free == !holds_label(old(self)@, label@),
            free ==> final(self)@ == old(self)@.push((label@, id)),
            !free ==> final(self)@ == old(self)@,
    {
        if self.contains(&label) {
            return false;
        }
        let hash = hash_label(&label);
        let place = self.entries.len();
        let ghost before = *self;
        let mut bucket = match self.buckets.remove(&hash) {
            Some(bucket) => bucket,
            None => Vec::new(),
        };
        let ghost old_bucket = bucket@;
        bucket.push(place);
        self.buckets.insert(hash, bucket);
        self.entries.push((label, id));
        assert(self@ =~= before@.push((label@, id)));
        assert forall|p: int| 0 <= p < self.entries@.len() implies #[trigger] self.filed(p) by {
            if p < place {
                assert(before.filed(p));
                let h = label_hash(before.entries@[p].0@);
                if h == hash {
                    let i = choose|i: int| 0 <= i < old_bucket.len() && old_bucket[i] == p as usize;
                    assert(bucket@[i] == p as usize);
                }
            } else {
                assert(bucket@[old_bucket.len() as int] == place);
            }
        }
        assert forall|h: u64, j: int|
            self.buckets@.contains_key(h) && 0 <= j < self.buckets@[h]@.len() implies (
        #[trigger] self.buckets@[h]@[j]) < self.entries@.len() by {
            if h == hash {
                if j < old_bucket.len() {
                    assert(before.buckets@.contains_key(hash));
                    assert(before.buckets@[hash]@[j] < before.entries@.len());
                }
            } else {
                assert(before.buckets@.contains_key(h));
                assert(before.buckets@[h]@[j] < before.entries@.len());
            }
        }
        assert forall|i: int, j: int| 0 <= i < j < self@.len() implies (#[trigger] self@[i]).0 != (
        #[trigger] self@[j]).0 by {
            assert(self@[i] == before@[i]);
            if j < place {
                assert(self@[j] == before@[j]);
            }
        }
        true
    }
}

/// There is a record under the internal number `id` in `records`.
pub open spec fn holds_record(records: Seq<(usize, ItemView)>, id: usize) -> bool {
    exists|i: int| 0 <= i < records.len() && (#[trigger] records[i]).0 == id
}

/// No internal number holds two records in `records`.
pub open spec fn one_record_each(records: Seq<(usize, ItemView)>) -> bool {
    forall|i: int, j: int|
        0 <= i < j < records.len() ==> (#[trigger] records[i]).0 != (#[trigger] records[j]).0
}

/// The records of the entries, each under its internal number.
#[derive(Debug)]
pub struct RecordStore {
    entries: Vec<(usize, ItemMetadata)>,
    /// For each internal number, the place of its record in `entries`.
    places: HashMap<usize, usize>,
}

impl View for RecordStore {
    type V = Seq<(usize, ItemView)>;

    closed spec fn view(&self) -> Seq<(usize, ItemView)> {
        Seq::new(self.entries@.len(), |i: int| (self.entries@[i].0, self.entries@[i].1@))
    }
}

impl RecordStore {
    /// The invariant of the store: the places are those of the records.
    pub closed spec fn wf(&self) -> bool {
        &&& forall|p: int|
            0 <= p < self.entries@.len() ==> self.places@.contains_key(
                (#[trigger] self.entries@[p]).0,
            ) && self.places@[self.entries@[p].0] == p
        &&& forall|id: usize| #[trigger]
            self.places@.contains_key(id) ==> self.places@[id] < self.entries@.len()
                && self.entries@[self.places@[id] as int].0 == id
    }

    /// In a store that is well formed no internal number holds two records.
    pub proof fn lemma_one_record_each(&self)
        requires
            self.wf(),
        ensures
            one_record_each(self@),
    {
        assert forall|i: int, j: int| 0 <= i < j < self@.len() implies (#[trigger] self@[i]).0 != (
        #[trigger] self@[j]).0 by {
            assert(self.places@[self.entries@[i].0] == i);
            assert(self.places@[self.entries@[j].0] == j);
        }
    }

    /// A store without records.
    pub fn new() -> (store: RecordStore)
        ensures
            store.wf(),
            store@ == Seq::<(usize, ItemView)>::empty(),
    {
        let store = RecordStore { entries: Vec::new(), places: HashMap::new() };
        assert(store@ =~= Seq::<(usize, ItemView)>::empty());
        store
    }

    /// How many records there are.
    pub fn len(&self) -> (len: usize)
        ensures
            len == self@.len(),
    {
        self.entries.len()
    }

    /// The record at place `i` and its internal number.
    pub fn get(&self, i: usize) -> (entry: &(usize, ItemMetadata))
        requires
            i < self@.len(),
        ensures
            (entry.0, entry.1@) == self@[i as int],
    {
        &self.entries[i]
    }

    /// The place of the record under the internal number `id`, if there is
    /// one.
    pub fn find(&self, id: usize) -> (place: Option<usize>)
        requires
            self.wf(),
        ensures
            match place {
                Some(p) => p < self@.len() && self@[p as int].0 == id,
                None => !holds_record(self@, id),
            },
    {
        match self.places.get(&id) {
            Some(place) => {
                assert(self.places@.contains_key(id));
                Some(*place)
            },
            None => {
                assert forall|p: int| 0 <= p < self@.len() implies (#[trigger] self@[p]).0
                    != id by {
                    assert(self.places@.contains_key(self.entries@[p].0));
                }
                None
            },
        }
    }

    /// Stores `item` under the internal number `id`, unless that number
    /// holds a record already. The answer says whether the number was free.
    pub fn insert(&mut self, id: usize, item: ItemMetadata) -> (free: bool)
        requires
            old(self).wf(),
        ensures
            final(self).wf(),
            free == !holds_record(old(self)@, id),
            free ==> final(self)@ == old(self)@.push((id, item@)),
            !free ==> final(self)@ == old(self)@,
    {
        if self.places.contains_key(&id) {
            assert(self@[self.places@[id] as int].0 == id);
            return false;
        }
        let ghost before = *self;
        let place = self.entries.len();
        assert forall|p: int| 0 <= p < before@.len() implies (#[trigger] before@[p]).0 != id by {
            assert(before.places@.contains_key(before.entries@[p].0));
        }
        self.places.insert(id, place);
        self.entries.push((id, item));
        assert(self@ =~= before@.push((id, item@)));
        assert forall|p: int| 0 <= p < self.entries@.len() implies self.places@.contains_key(
            (#[trigger] self.entries@[p]).0,
        ) && self.places@[self.entries@[p].0] == p by {
            if p < place {
                assert(before.entries@[p].0 != id) by {
                    assert(before@[p].0 == before.entries@[p].0);
                }
            }
        }
        assert forall|other: usize| #[trigger]
            self.places@.contains_key(other) implies self.places@[other] < self.entries@.len()
            && self.entries@[self.places@[other] as int].0 == other by {
            if other != id {
                assert(before.places@.contains_key(other));
            }
        }
        true
    }
}

} // verus!
