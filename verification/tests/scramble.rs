//! The scrambled data generator feeding each container shape.

use spp_experiments::scramble::generate;
use spp_experiments::scramble::scrambled_values;
use spp_experiments::ArrayStore;
use spp_experiments::Container;
use spp_experiments::DequeStore;
use spp_experiments::HashStore;
use spp_experiments::ListStore;
use spp_experiments::TreeStore;

#[test]
fn scrambled_values_have_requested_length() {
    assert_eq!(scrambled_values(0).len(), 0);
    assert_eq!(scrambled_values(17).len(), 17);
}

#[test]
fn generate_empty_yields_empty_container() {
    let array: ArrayStore = generate(0);
    assert_eq!(array.into_values().len(), 0);
    let tree: TreeStore = generate(0);
    assert_eq!(tree.into_values().len(), 0);
}

#[test]
fn generate_fills_sequence_shapes_exactly() {
    let array: ArrayStore = generate(25);
    assert_eq!(array.values().len(), 25);
    let deque: DequeStore = generate(25);
    assert_eq!(deque.values().len(), 25);
    let list: ListStore = generate(25);
    assert_eq!(list.values().len(), 25);
}

#[test]
fn generate_hash_shape_holds_distinct_values() {
    let hash: HashStore = generate(50);
    let values = hash.into_values();
    assert!(values.len() <= 50);
    let mut keys = std::collections::HashSet::new();
    for v in &values {
        assert!(keys.insert(v.sort_key()));
    }
}

#[test]
fn generate_tree_shape_is_ascending() {
    let tree: TreeStore = generate(50);
    let values = tree.into_values();
    assert!(values.len() <= 50);
    for pair in values.windows(2) {
        assert!(pair[0].sort_key() < pair[1].sort_key());
    }
}
