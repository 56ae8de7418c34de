//! The container catalog and the reduction it feeds, on concrete inputs.
//! The floating-point fold itself is written out here, over the value
//! sequences the library hands back.

use spp_experiments::catalog::modes_agree;
use spp_experiments::ArrayStore;
use spp_experiments::CmpValue;
use spp_experiments::Container;
use spp_experiments::DequeStore;
use spp_experiments::HashStore;
use spp_experiments::Inner;
use spp_experiments::ListStore;
use spp_experiments::TreeStore;

fn vals(xs: &[f64]) -> Vec<CmpValue> {
    xs.iter().map(|x| CmpValue::new(x.to_bits())).collect()
}

fn floats(vs: Vec<CmpValue>) -> Vec<f64> {
    vs.into_iter().map(|v| f64::from_bits(v.inner())).collect()
}

fn sum_sq(vs: Vec<CmpValue>) -> f64 {
    floats(vs).into_iter().map(|x| x * x).sum()
}

#[test]
fn empty_container_sums_to_zero() {
    assert_eq!(sum_sq(ArrayStore::from_values(vals(&[])).into_values()), 0.0);
    assert_eq!(sum_sq(ArrayStore::from_values(vals(&[])).values()), 0.0);
    assert_eq!(sum_sq(DequeStore::from_values(vals(&[])).into_values()), 0.0);
    assert_eq!(sum_sq(DequeStore::from_values(vals(&[])).values()), 0.0);
    assert_eq!(sum_sq(ListStore::from_values(vals(&[])).into_values()), 0.0);
    assert_eq!(sum_sq(ListStore::from_values(vals(&[])).values()), 0.0);
    assert_eq!(sum_sq(HashStore::from_values(vals(&[])).into_values()), 0.0);
    assert_eq!(sum_sq(HashStore::from_values(vals(&[])).values()), 0.0);
    assert_eq!(sum_sq(TreeStore::from_values(vals(&[])).into_values()), 0.0);
    assert_eq!(sum_sq(TreeStore::from_values(vals(&[])).values()), 0.0);
}

#[test]
fn uniform_copies_kept_by_sequence_shapes() {
    let expected = 4.0 * 2.5 * 2.5;
    assert_eq!(sum_sq(ArrayStore::from_values(vals(&[2.5; 4])).into_values()), expected);
    assert_eq!(sum_sq(DequeStore::from_values(vals(&[2.5; 4])).into_values()), expected);
    assert_eq!(sum_sq(ListStore::from_values(vals(&[2.5; 4])).into_values()), expected);
}

#[test]
fn uniform_copies_coalesced_by_set_shapes() {
    let expected = 2.5 * 2.5;
    assert_eq!(sum_sq(HashStore::from_values(vals(&[2.5; 4])).into_values()), expected);
    assert_eq!(sum_sq(TreeStore::from_values(vals(&[2.5; 4])).into_values()), expected);
}

#[test]
fn by_move_and_by_ref_agree() {
    let input = [1.5, -2.0, 1.5, 3.25, 0.0];
    let a = ArrayStore::from_values(vals(&input));
    assert_eq!(sum_sq(a.values()), sum_sq(a.into_values()));
    let d = DequeStore::from_values(vals(&input));
    assert_eq!(sum_sq(d.values()), sum_sq(d.into_values()));
    let l = ListStore::from_values(vals(&input));
    assert_eq!(sum_sq(l.values()), sum_sq(l.into_values()));
    let h = HashStore::from_values(vals(&input));
    assert_eq!(sum_sq(h.values()), sum_sq(h.into_values()));
    let t = TreeStore::from_values(vals(&input));
    assert_eq!(sum_sq(t.values()), sum_sq(t.into_values()));

    assert!(modes_agree(ArrayStore::from_values(vals(&input))));
    assert!(modes_agree(DequeStore::from_values(vals(&input))));
    assert!(modes_agree(ListStore::from_values(vals(&input))));
    assert!(modes_agree(HashStore::from_values(vals(&input))));
    assert!(modes_agree(TreeStore::from_values(vals(&input))));
}

#[test]
fn three_four_as_array_by_move() {
    assert_eq!(sum_sq(ArrayStore::from_values(vals(&[3.0, 4.0])).into_values()), 25.0);
}

#[test]
fn hash_shape_coalesces_duplicates() {
    let sum = sum_sq(HashStore::from_values(vals(&[1.0, 1.0, 2.0])).into_values());
    assert_eq!(sum, 5.0);
    assert_ne!(sum, 6.0);
}

#[test]
fn sequence_shapes_keep_order_and_duplicates() {
    let input = [2.0, 1.0, 2.0, -3.0];
    assert_eq!(floats(ArrayStore::from_values(vals(&input)).into_values()), input.to_vec());
    assert_eq!(floats(DequeStore::from_values(vals(&input)).into_values()), input.to_vec());
    assert_eq!(floats(ListStore::from_values(vals(&input)).into_values()), input.to_vec());
}

#[test]
fn hash_shape_keeps_first_occurrence_order() {
    let built = HashStore::from_values(vals(&[2.0, 1.0, 2.0, 3.0, 1.0]));
    assert_eq!(floats(built.into_values()), vec![2.0, 1.0, 3.0]);
}

#[test]
fn tree_shape_traverses_ascending() {
    let built = TreeStore::from_values(vals(&[2.0, -1.0, 3.0, 2.0, -2.5]));
    assert_eq!(floats(built.into_values()), vec![-2.5, -1.0, 2.0, 3.0]);
}

#[test]
fn tree_shape_coalesces_signed_zeros() {
    let built = TreeStore::from_values(vals(&[0.0, -0.0, 1.0]));
    assert_eq!(floats(built.into_values()), vec![0.0, 1.0]);
}

#[test]
fn set_shapes_keep_first_raw_pattern_of_equal_values() {
    let built = HashStore::from_values(vals(&[-0.0, 0.0]));
    let kept = built.into_values();
    assert_eq!(kept.len(), 1);
    assert_eq!(kept[0].inner(), (-0.0f64).to_bits());

    let built = TreeStore::from_values(vals(&[-0.0, 0.0]));
    let kept = built.into_values();
    assert_eq!(kept.len(), 1);
    assert_eq!(kept[0].inner(), (-0.0f64).to_bits());
}

#[test]
fn duplicate_preserves_values() {
    let a = ArrayStore::from_values(vals(&[1.0, 2.0, 1.0]));
    let copy = a.duplicate();
    assert_eq!(floats(a.into_values()), floats(copy.into_values()));

    let t = TreeStore::from_values(vals(&[4.0, -4.0]));
    let copy = t.duplicate();
    assert_eq!(floats(t.into_values()), floats(copy.into_values()));

    let h = HashStore::from_values(vals(&[4.0, 4.0, 5.0]));
    let copy = h.duplicate();
    assert_eq!(floats(h.into_values()), floats(copy.into_values()));
}
