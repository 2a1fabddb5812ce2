use clusterkit::error::Error;
use clusterkit::hnsw::{
    check_dimension, decimal_label, BatchFailure, BatchPlan, Config, DistanceType, HnswIndex, Insertion, ItemMetadata,
    GraphSettings, MetadataHit, Neighbour, SearchRequest, Sidecar, Stats, DEFAULT_EF_CONSTRUCTION, DEFAULT_K,
    LOADED_EF_SEARCH,
};

fn index(dim: usize) -> HnswIndex {
    HnswIndex::new(dim, "euclidean", None, None, None, None).unwrap()
}

fn label(text: &str) -> Option<String> {
    Some(text.to_string())
}

fn found(d_id: usize, distance: f32) -> Neighbour {
    Neighbour { d_id, distance: distance.to_bits() }
}

#[test]
fn create_with_defaults() {
    let index = index(3);
    assert_eq!(index.size(), 0);
    assert!(index.empty());
    assert_eq!(
        index.config(),
        Config { dim: 3, space: DistanceType::Euclidean, ef: DEFAULT_EF_CONSTRUCTION, size: 0 }
    );
    assert_eq!(index.stats(), Stats { size: 0, dim: 3, ef_search: 200 });
}

#[test]
fn create_searches_with_the_breadth_it_was_built_with() {
    let index = HnswIndex::new(8, "euclidean", Some(500), Some(32), Some(77), Some(1)).unwrap();
    assert_eq!(index.config().ef, 77);
    assert_eq!(index.config().dim, 8);
}

#[test]
fn create_refuses_dimension_zero() {
    assert_eq!(
        HnswIndex::new(0, "euclidean", None, None, None, None).err(),
        Some(Error::InvalidDimension)
    );
    assert_eq!(
        HnswIndex::new(0, "no such space", None, None, None, None).err(),
        Some(Error::InvalidDimension)
    );
}

#[test]
fn create_refuses_spaces_that_cannot_be_used() {
    assert_eq!(
        HnswIndex::new(4, "cosine", None, None, None, None).err(),
        Some(Error::UnsupportedCapability)
    );
    assert_eq!(
        HnswIndex::new(4, "inner_product", None, None, None, None).err(),
        Some(Error::UnsupportedCapability)
    );
}

#[test]
fn create_refuses_spaces_without_a_name() {
    for name in ["manhattan", "", "Euclidean", "euclidean ", "l2"] {
        assert_eq!(
            HnswIndex::new(4, name, None, None, None, None).err(),
            Some(Error::InvalidArgument)
        );
    }
}

#[test]
fn space_names() {
    assert_eq!(DistanceType::Euclidean.name(), "euclidean");
    assert_eq!(DistanceType::Cosine.name(), "cosine");
    assert_eq!(DistanceType::InnerProduct.name(), "inner_product");
    for space in [DistanceType::Euclidean, DistanceType::Cosine, DistanceType::InnerProduct] {
        assert_eq!(DistanceType::named(space.name()), Some(space));
    }
    assert_eq!(DistanceType::named("hamming"), None);
}

#[test]
fn decimal_labels() {
    assert_eq!(decimal_label(0), "0");
    assert_eq!(decimal_label(7), "7");
    assert_eq!(decimal_label(10), "10");
    assert_eq!(decimal_label(1234567890), "1234567890");
    assert_eq!(decimal_label(usize::MAX), usize::MAX.to_string());
    for n in 0..1200 {
        assert_eq!(decimal_label(n), n.to_string());
    }
}

#[test]
fn length_is_held_against_the_dimension() {
    assert_eq!(check_dimension(3, 3), Ok(()));
    assert_eq!(check_dimension(0, 0), Ok(()));
    assert_eq!(check_dimension(2, 3), Err(Error::DimensionMismatch { expected: 3, got: 2 }));
    assert_eq!(check_dimension(4, 3), Err(Error::DimensionMismatch { expected: 3, got: 4 }));
}

#[test]
fn graph_is_built_with_the_settings() {
    let index = HnswIndex::new(8, "euclidean", Some(500), Some(32), Some(77), Some(1)).unwrap();
    assert_eq!(
        index.graph_settings(),
        GraphSettings {
            max_nb_connection: 32,
            max_elements: 500,
            max_layer: 16,
            ef_construction: 77,
            random_seed: Some(1),
        }
    );
    let plain = HnswIndex::new(8, "euclidean", None, None, None, None).unwrap();
    assert_eq!(
        plain.graph_settings(),
        GraphSettings {
            max_nb_connection: 16,
            max_elements: 10_000,
            max_layer: 16,
            ef_construction: 200,
            random_seed: None,
        }
    );
}

#[test]
fn counter_has_room() {
    let mut index = HnswIndex::new(1, "euclidean", None, None, None, None).unwrap();
    assert_eq!(index.next_id(), 0);
    assert!(index.has_room(1));
    assert!(index.has_room(usize::MAX));
    index.add_item(1, None, None).unwrap();
    assert_eq!(index.next_id(), 1);
    assert!(index.has_room(usize::MAX - 1));
    assert!(!index.has_room(usize::MAX));
}

#[test]
fn insert_of_wrong_length_is_refused() {
    let mut index = index(3);
    assert_eq!(
        index.add_item(2, label("a"), None),
        Err(Error::DimensionMismatch { expected: 3, got: 2 })
    );
    assert_eq!(
        index.add_item(4, None, None),
        Err(Error::DimensionMismatch { expected: 3, got: 4 })
    );
    assert_eq!(index.size(), 0);
    // Nothing was used up: the label is free and the counter is where it was.
    assert_eq!(index.add_item(3, label("a"), None), Ok(0));
}

#[test]
fn insert_of_right_length_adds_one() {
    let mut index = index(3);
    assert_eq!(index.add_item(3, label("first"), None), Ok(0));
    assert_eq!(index.size(), 1);
    assert!(!index.empty());
    assert_eq!(index.add_item(3, label("second"), None), Ok(1));
    assert_eq!(index.size(), 2);
}

#[test]
fn insert_with_the_same_label_is_refused() {
    let mut index = index(2);
    assert_eq!(index.add_item(2, label("twin"), None), Ok(0));
    assert_eq!(index.add_item(2, label("twin"), None), Err(Error::DuplicateLabel));
    assert_eq!(index.size(), 1);
    assert_eq!(index.add_item(2, label("other"), None), Ok(1));
    assert_eq!(index.size(), 2);
}

#[test]
fn wrong_length_comes_before_the_label() {
    let mut index = index(2);
    assert_eq!(index.add_item(2, label("twin"), None), Ok(0));
    assert_eq!(
        index.add_item(5, label("twin"), None),
        Err(Error::DimensionMismatch { expected: 2, got: 5 })
    );
}

#[test]
fn labels_are_made_from_the_counter() {
    let mut index = index(1);
    // Label and internal number are the same counter.
    assert_eq!(index.add_item(1, None, None), Ok(0));
    assert_eq!(index.add_item(1, None, None), Ok(1));
    assert_eq!(index.add_item(1, label("named"), None), Ok(2));
    assert_eq!(index.add_item(1, None, None), Ok(3));
    assert_eq!(index.next_id(), 4);
    let hits = index.search(&vec![found(0, 0.0), found(1, 1.0), found(2, 2.0), found(3, 3.0)], false);
    assert_eq!(hits.labels, vec!["0", "1", "named", "3"]);
}

#[test]
fn two_unlabelled_entries_are_zero_and_one() {
    let mut index = index(1);
    assert_eq!(index.add_item(1, None, None), Ok(0));
    assert_eq!(index.add_item(1, None, None), Ok(1));
    assert_eq!(index.search(&vec![found(0, 0.0)], false).labels, vec!["0"]);
    assert_eq!(index.search(&vec![found(1, 0.0)], false).labels, vec!["1"]);
}

#[test]
fn a_made_label_can_be_taken_already() {
    let mut index = index(1);
    assert_eq!(index.add_item(1, label("1"), None), Ok(0));
    // The counter stands at 1, and "1" is taken.
    assert_eq!(index.add_item(1, None, None), Err(Error::DuplicateLabel));
    assert_eq!(index.size(), 1);
    // The failed attempt used up nothing.
    assert_eq!(index.next_id(), 1);
    assert_eq!(index.add_item(1, None, None), Err(Error::DuplicateLabel));
    assert_eq!(index.add_item(1, label("other"), None), Ok(1));
    assert_eq!(index.add_item(1, None, None), Ok(2));
    let hits = index.search(&vec![found(0, 0.0), found(1, 0.0), found(2, 0.0)], false);
    assert_eq!(hits.labels, vec!["1", "other", "2"]);
}

#[test]
fn failed_insert_uses_up_no_number() {
    let mut index = index(2);
    assert_eq!(index.add_item(2, label("a"), None), Ok(0));
    assert_eq!(index.add_item(2, label("a"), None), Err(Error::DuplicateLabel));
    assert_eq!(index.add_item(3, None, None), Err(Error::DimensionMismatch { expected: 2, got: 3 }));
    assert_eq!(index.next_id(), 1);
    assert_eq!(index.add_item(2, label("b"), None), Ok(1));
}

#[test]
fn batch_with_labels() {
    let mut index = index(2);
    let labels = vec!["a".to_string(), "b".to_string(), "c".to_string()];
    let plan = index.add_batch(&vec![2, 2, 2], Some(&labels), true);
    assert_eq!(plan, Ok(BatchPlan { ids: vec![0, 1, 2], insertion: Insertion::Parallel }));
    assert_eq!(index.size(), 3);
    let hits = index.search_with_metadata(&vec![found(2, 0.5), found(0, 1.5)]);
    assert_eq!(
        hits,
        vec![
            MetadataHit { label: "c".to_string(), distance: 0.5f32.to_bits(), metadata: None },
            MetadataHit { label: "a".to_string(), distance: 1.5f32.to_bits(), metadata: None },
        ]
    );
}

#[test]
fn batch_without_labels() {
    let mut index = index(2);
    let plan = index.add_batch(&vec![2, 2], None, false).unwrap();
    assert_eq!(plan.ids, vec![0, 1]);
    assert_eq!(plan.insertion, Insertion::Serial);
    assert_eq!(index.size(), 2);
    let hits = index.search(&vec![found(0, 0.0), found(1, 0.0)], false);
    assert_eq!(hits.labels, vec!["0", "1"]);
}

#[test]
fn empty_batch() {
    let mut index = index(2);
    let plan = index.add_batch(&Vec::new(), None, true).unwrap();
    assert!(plan.ids.is_empty());
    assert_eq!(index.size(), 0);
    let none: Vec<String> = Vec::new();
    assert!(index.add_batch(&Vec::new(), Some(&none), true).is_ok());
}

#[test]
fn batch_with_a_seed_enters_one_by_one() {
    let mut seeded = HnswIndex::new(2, "euclidean", None, None, None, Some(42)).unwrap();
    assert_eq!(seeded.add_batch(&vec![2], None, true).unwrap().insertion, Insertion::Serial);
    assert_eq!(seeded.add_batch(&vec![2], None, false).unwrap().insertion, Insertion::Serial);
    let mut unseeded = index(2);
    assert_eq!(unseeded.add_batch(&vec![2], None, true).unwrap().insertion, Insertion::Parallel);
    assert_eq!(unseeded.add_batch(&vec![2], None, false).unwrap().insertion, Insertion::Serial);
}

fn nothing(insertion: Insertion) -> BatchPlan {
    BatchPlan { ids: Vec::new(), insertion }
}

#[test]
fn batch_needs_a_label_for_each_row() {
    let mut index = index(2);
    let labels = vec!["a".to_string()];
    assert_eq!(
        index.add_batch(&vec![2, 2], Some(&labels), true),
        Err(BatchFailure {
            row: 1,
            error: Error::InvalidArgument,
            committed: nothing(Insertion::Parallel),
        })
    );
    let many = vec!["a".to_string(), "b".to_string(), "c".to_string()];
    assert_eq!(
        index.add_batch(&vec![2, 2], Some(&many), false),
        Err(BatchFailure {
            row: 2,
            error: Error::InvalidArgument,
            committed: nothing(Insertion::Serial),
        })
    );
    assert_eq!(index.size(), 0);
    // Nothing was taken.
    assert_eq!(index.add_item(2, label("a"), None), Ok(0));
}

#[test]
fn batch_ends_at_the_first_duplicate() {
    let mut index = index(2);
    assert_eq!(index.add_item(2, label("taken"), None), Ok(0));
    let labels = vec!["x".to_string(), "taken".to_string(), "y".to_string()];
    assert_eq!(
        index.add_batch(&vec![2, 2, 2], Some(&labels), true),
        Err(BatchFailure {
            row: 1,
            error: Error::DuplicateLabel,
            committed: BatchPlan { ids: vec![1], insertion: Insertion::Parallel },
        })
    );
    // The row before the duplicate stays added, with its record; the row
    // after it was never looked at.
    assert_eq!(index.size(), 2);
    assert_eq!(index.search(&vec![found(1, 0.0)], false).labels, vec!["x"]);
    assert_eq!(index.add_item(2, label("x"), None), Err(Error::DuplicateLabel));
    assert_eq!(index.add_item(2, label("y"), None), Ok(2));
    assert_eq!(index.size(), 3);
}

#[test]
fn batch_of_two_rows_with_one_label_keeps_the_first() {
    let mut index = index(2);
    let labels = vec!["a".to_string(), "a".to_string()];
    let failure = index.add_batch(&vec![2, 2], Some(&labels), false).unwrap_err();
    assert_eq!(failure.row, 1);
    assert_eq!(failure.error, Error::DuplicateLabel);
    assert_eq!(failure.committed, BatchPlan { ids: vec![0], insertion: Insertion::Serial });
    assert_eq!(index.size(), 1);
    assert_eq!(index.search(&vec![found(0, 0.0)], false).labels, vec!["a"]);
    assert_eq!(index.next_id(), 1);
}

#[test]
fn batch_ends_at_a_duplicate_within_itself() {
    let mut index = index(1);
    let labels = vec!["p".to_string(), "q".to_string(), "p".to_string()];
    assert_eq!(
        index.add_batch(&vec![1, 1, 1], Some(&labels), false),
        Err(BatchFailure {
            row: 2,
            error: Error::DuplicateLabel,
            committed: BatchPlan { ids: vec![0, 1], insertion: Insertion::Serial },
        })
    );
    assert_eq!(index.size(), 2);
    assert_eq!(index.search(&vec![found(1, 0.0), found(0, 1.0)], false).labels, vec!["q", "p"]);
}

#[test]
fn batch_ends_at_a_row_of_wrong_length() {
    let mut index = index(3);
    let labels = vec!["a".to_string(), "b".to_string()];
    assert_eq!(
        index.add_batch(&vec![3, 2], Some(&labels), true),
        Err(BatchFailure {
            row: 1,
            error: Error::DimensionMismatch { expected: 3, got: 2 },
            committed: BatchPlan { ids: vec![0], insertion: Insertion::Parallel },
        })
    );
    assert_eq!(index.size(), 1);
    assert_eq!(index.add_item(3, label("a"), None), Err(Error::DuplicateLabel));
    assert_eq!(index.add_item(3, label("b"), None), Ok(1));
}

#[test]
fn tables_stay_in_step_after_a_failed_batch() {
    let mut index = index(1);
    let labels = vec!["a".to_string(), "a".to_string()];
    assert!(index.add_batch(&vec![1, 1], Some(&labels), true).is_err());
    assert_eq!(index.add_item(1, label("b"), None), Ok(1));
    let sidecar = index.save();
    assert_eq!(sidecar.label_to_id.len(), 2);
    assert_eq!(sidecar.metadata.len(), 2);
    assert_eq!(index.size(), 2);
    for (id, item) in &sidecar.metadata {
        assert!(sidecar.label_to_id.contains(&(item.label.clone(), *id)));
    }
}

#[test]
fn search_is_prepared() {
    let mut index = index(4);
    assert_eq!(index.prepare_search(4, None, None), Ok(SearchRequest { k: DEFAULT_K, ef: 200 }));
    assert_eq!(index.prepare_search(4, Some(3), None), Ok(SearchRequest { k: 3, ef: 200 }));
    assert_eq!(index.prepare_search(4, Some(0), Some(50)), Ok(SearchRequest { k: 0, ef: 50 }));
}

#[test]
fn search_breadth_stays() {
    let mut index = index(4);
    assert_eq!(index.prepare_search(4, Some(5), Some(64)), Ok(SearchRequest { k: 5, ef: 64 }));
    assert_eq!(index.config().ef, 64);
    assert_eq!(index.prepare_search(4, Some(5), None), Ok(SearchRequest { k: 5, ef: 64 }));
    index.set_ef(9);
    assert_eq!(index.stats().ef_search, 9);
    assert_eq!(index.prepare_search(4, None, None), Ok(SearchRequest { k: 10, ef: 9 }));
}

#[test]
fn search_with_a_query_of_wrong_length() {
    let mut index = index(4);
    assert_eq!(
        index.prepare_search(3, Some(5), Some(64)),
        Err(Error::DimensionMismatch { expected: 4, got: 3 })
    );
    // The breadth was not touched.
    assert_eq!(index.config().ef, 200);
}

#[test]
fn search_answers_in_the_order_of_the_graph() {
    let mut index = index(2);
    for name in ["a", "b", "c"] {
        index.add_item(2, label(name), None).unwrap();
    }
    // More neighbours were asked for than there are points: the graph finds all three.
    let request = index.prepare_search(2, Some(10), None).unwrap();
    assert!(request.k > index.size());
    let neighbours = vec![found(1, 0.0), found(2, 1.0), found(0, 1.0)];
    let results = index.search(&neighbours, true);
    assert_eq!(results.labels, vec!["b", "c", "a"]);
    let distances: Vec<f32> =
        results.distances.unwrap().iter().map(|bits| f32::from_bits(*bits)).collect();
    assert_eq!(distances, vec![0.0, 1.0, 1.0]);
    assert!(distances.windows(2).all(|pair| pair[0] <= pair[1]));
}

#[test]
fn search_without_distances() {
    let mut index = index(2);
    index.add_item(2, label("a"), None).unwrap();
    let results = index.search(&vec![found(0, 2.5)], false);
    assert_eq!(results.labels, vec!["a"]);
    assert_eq!(results.distances, None);
    let empty = index.search(&Vec::new(), true);
    assert!(empty.labels.is_empty());
    assert_eq!(empty.distances, Some(Vec::new()));
}

#[test]
fn search_passes_over_what_has_no_record() {
    let mut index = index(2);
    index.add_item(2, label("a"), None).unwrap();
    index.add_item(2, label("b"), None).unwrap();
    let neighbours = vec![found(7, 0.1), found(1, 0.2), found(9, 0.3), found(0, 0.4)];
    let results = index.search(&neighbours, true);
    assert_eq!(results.labels, vec!["b", "a"]);
    assert_eq!(results.distances, Some(vec![0.2f32.to_bits(), 0.4f32.to_bits()]));
    let hits = index.search_with_metadata(&neighbours);
    assert_eq!(hits.len(), 2);
    assert_eq!(hits[0].label, "b");
    assert_eq!(hits[1].label, "a");
}

#[test]
fn search_with_metadata_hands_back_what_was_attached() {
    let mut index = index(2);
    let attached = vec![
        ("colour".to_string(), "red".to_string()),
        ("size".to_string(), "large".to_string()),
    ];
    index.add_item(2, label("tagged"), Some(attached.clone())).unwrap();
    index.add_item(2, label("plain"), None).unwrap();
    index.add_item(2, label("bare"), Some(Vec::new())).unwrap();
    let hits = index.search_with_metadata(&vec![found(1, 0.0), found(0, 0.25), found(2, 4.0)]);
    assert_eq!(
        hits,
        vec![
            MetadataHit { label: "plain".to_string(), distance: 0, metadata: None },
            MetadataHit {
                label: "tagged".to_string(),
                distance: 0.25f32.to_bits(),
                metadata: Some(attached),
            },
            MetadataHit {
                label: "bare".to_string(),
                distance: 4.0f32.to_bits(),
                metadata: Some(Vec::new()),
            },
        ]
    );
}

#[test]
fn save_writes_the_parts_in_order() {
    let mut index = index(3);
    index.add_item(3, label("a"), Some(vec![("k".to_string(), "v".to_string())])).unwrap();
    index.add_item(3, None, None).unwrap();
    let sidecar = index.save();
    assert_eq!(
        sidecar,
        Sidecar {
            metadata: vec![
                (
                    0,
                    ItemMetadata {
                        label: "a".to_string(),
                        metadata: Some(vec![("k".to_string(), "v".to_string())]),
                    },
                ),
                (1, ItemMetadata { label: "1".to_string(), metadata: None }),
            ],
            label_to_id: vec![("a".to_string(), 0), ("1".to_string(), 1)],
            current_id: 2,
            dim: 3,
            space: "euclidean".to_string(),
        }
    );
}

#[test]
fn save_then_load_keeps_size_and_answers() {
    let mut index = index(2);
    for (i, name) in ["a", "b", "c", "d", "e"].iter().enumerate() {
        let attached = if i % 2 == 0 {
            Some(vec![("n".to_string(), i.to_string())])
        } else {
            None
        };
        index.add_item(2, label(name), attached).unwrap();
    }
    index.set_ef(31);
    let neighbours = vec![found(3, 0.5), found(0, 0.75), found(4, 1.0), found(11, 2.0)];
    let before = index.search(&neighbours, true);
    let before_hits = index.search_with_metadata(&neighbours);

    let mut loaded = HnswIndex::load(index.save()).unwrap();
    assert_eq!(loaded.size(), 5);
    assert_eq!(loaded.size(), index.size());
    assert_eq!(loaded.search(&neighbours, true), before);
    assert_eq!(loaded.search_with_metadata(&neighbours), before_hits);
    assert_eq!(before.labels, vec!["d", "a", "e"]);
    assert_eq!(loaded.config().ef, LOADED_EF_SEARCH);
    assert_eq!(loaded.config().dim, 2);
    assert_eq!(loaded.save(), index.save());
    // Labels stay taken and the counter goes on.
    assert_eq!(loaded.add_item(2, label("a"), None), Err(Error::DuplicateLabel));
    assert_eq!(loaded.add_item(2, label("f"), None), Ok(5));
}

#[test]
fn load_accepts_every_space_that_has_a_name() {
    for space in ["euclidean", "cosine", "inner_product"] {
        let sidecar = Sidecar {
            metadata: Vec::new(),
            label_to_id: Vec::new(),
            current_id: 0,
            dim: 4,
            space: space.to_string(),
        };
        let loaded = HnswIndex::load(sidecar).unwrap();
        assert_eq!(loaded.config().space.name(), space);
    }
}

#[test]
fn load_refuses_a_space_without_a_name() {
    let sidecar = Sidecar {
        metadata: Vec::new(),
        label_to_id: Vec::new(),
        current_id: 0,
        dim: 4,
        space: "chebyshev".to_string(),
    };
    assert_eq!(HnswIndex::load(sidecar).err(), Some(Error::CorruptPersistedState));
}

fn entry(name: &str) -> ItemMetadata {
    ItemMetadata { label: name.to_string(), metadata: None }
}

#[test]
fn load_refuses_parts_that_describe_no_index() {
    let good = Sidecar {
        metadata: vec![(0, entry("a")), (1, entry("b"))],
        label_to_id: vec![("a".to_string(), 0), ("b".to_string(), 1)],
        current_id: 2,
        dim: 4,
        space: "euclidean".to_string(),
    };
    assert!(HnswIndex::load(good.clone()).is_ok());

    let mut no_dimension = good.clone();
    no_dimension.dim = 0;
    assert_eq!(HnswIndex::load(no_dimension).err(), Some(Error::CorruptPersistedState));

    let mut label_twice = good.clone();
    label_twice.label_to_id = vec![("a".to_string(), 0), ("a".to_string(), 1)];
    assert_eq!(HnswIndex::load(label_twice).err(), Some(Error::CorruptPersistedState));

    let mut record_twice = good.clone();
    record_twice.metadata = vec![(1, entry("a")), (1, entry("b"))];
    assert_eq!(HnswIndex::load(record_twice).err(), Some(Error::CorruptPersistedState));

    let mut counter_behind = good.clone();
    counter_behind.current_id = 1;
    assert_eq!(HnswIndex::load(counter_behind).err(), Some(Error::CorruptPersistedState));

    let mut label_ahead = good.clone();
    label_ahead.label_to_id = vec![("a".to_string(), 0), ("b".to_string(), 2)];
    assert_eq!(HnswIndex::load(label_ahead).err(), Some(Error::CorruptPersistedState));
}

#[test]
fn load_refuses_tables_that_are_out_of_step() {
    let good = Sidecar {
        metadata: vec![(0, entry("a")), (1, entry("b"))],
        label_to_id: vec![("b".to_string(), 1), ("a".to_string(), 0)],
        current_id: 2,
        dim: 4,
        space: "euclidean".to_string(),
    };
    assert!(HnswIndex::load(good.clone()).is_ok());

    // A label without a record.
    let mut label_alone = good.clone();
    label_alone.label_to_id.push(("c".to_string(), 1));
    assert_eq!(HnswIndex::load(label_alone).err(), Some(Error::CorruptPersistedState));

    // A record without a label.
    let mut record_alone = good.clone();
    record_alone.label_to_id.pop();
    assert_eq!(HnswIndex::load(record_alone).err(), Some(Error::CorruptPersistedState));

    // A record whose label is not in the table.
    let mut other_label = good.clone();
    other_label.label_to_id = vec![("b".to_string(), 1), ("c".to_string(), 0)];
    assert_eq!(HnswIndex::load(other_label).err(), Some(Error::CorruptPersistedState));

    // A record whose label stands for another number.
    let mut swapped = good.clone();
    swapped.label_to_id = vec![("b".to_string(), 0), ("a".to_string(), 1)];
    assert_eq!(HnswIndex::load(swapped).err(), Some(Error::CorruptPersistedState));
}

#[test]
fn load_takes_the_tables_in_any_order() {
    let sidecar = Sidecar {
        metadata: vec![(4, entry("late")), (0, entry("early"))],
        label_to_id: vec![("late".to_string(), 4), ("early".to_string(), 0)],
        current_id: 9,
        dim: 1,
        space: "euclidean".to_string(),
    };
    let mut loaded = HnswIndex::load(sidecar).unwrap();
    assert_eq!(loaded.size(), 2);
    assert_eq!(loaded.search(&vec![found(0, 0.0), found(4, 1.0)], false).labels, vec!["early", "late"]);
    assert_eq!(loaded.add_item(1, None, None), Ok(9));
    assert_eq!(loaded.search(&vec![found(9, 0.0)], false).labels, vec!["9"]);
}
