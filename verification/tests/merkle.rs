use solina::circuit::{CircuitBuilder, PartialWitness};
use solina::merkle::{compress, extend_to_power_of_two, hash_or_noop, merkle_root};

fn leaf(v: u64) -> Vec<u64> {
    vec![v]
}

fn cat(a: &Vec<u64>, b: &Vec<u64>) -> Vec<u64> {
    let mut out = a.clone();
    out.extend_from_slice(b);
    out
}

#[test]
fn test_merkle_root() {
    let leaves = vec![leaf(0), leaf(1), leaf(2), leaf(3)];
    let root = merkle_root(leaves, 0);

    // Recompute the same tree by hand, leaf hashes first, then pairwise.
    let h0 = hash_or_noop(&leaf(0));
    let h1 = hash_or_noop(&leaf(1));
    let h2 = hash_or_noop(&leaf(2));
    let h3 = hash_or_noop(&leaf(3));
    let c01 = compress(&cat(&h0, &h1));
    let c23 = compress(&cat(&h2, &h3));
    let expected = compress(&cat(&c01, &c23));
    assert_eq!(root, expected);
}

#[test]
fn test_merkle_root_2() {
    // A five-leaf list pads to eight leaves: the length leaf, then fillers.
    let leaves = vec![leaf(0), leaf(1), leaf(2), leaf(3), leaf(4)];
    let root = merkle_root(leaves.clone(), 0);

    let padded = extend_to_power_of_two(leaves, 0);
    assert_eq!(padded.len(), 8);
    assert_eq!(padded[5], vec![5u64]);
    assert_eq!(padded[6], vec![0u64]);
    assert_eq!(padded[7], vec![0u64]);

    // An already power-of-two list is left alone, so recomputing over the
    // padded list gives the same root.
    let padded_root = merkle_root(padded, 0);
    assert_eq!(root, padded_root);
}

#[test]
fn padding_leaves_power_of_two_untouched() {
    let leaves = vec![leaf(7), leaf(8), leaf(9), leaf(10)];
    let padded = extend_to_power_of_two(leaves.clone(), 0);
    assert_eq!(padded, leaves);

    let one = vec![leaf(42)];
    assert_eq!(extend_to_power_of_two(one.clone(), 3), one);
}

#[test]
fn padding_appends_length_then_sentinel() {
    let leaves = vec![leaf(1), leaf(2), leaf(3)];
    let padded = extend_to_power_of_two(leaves, 9);
    assert_eq!(padded.len(), 4);
    assert_eq!(padded[0], vec![1u64]);
    assert_eq!(padded[1], vec![2u64]);
    assert_eq!(padded[2], vec![3u64]);
    assert_eq!(padded[3], vec![3u64]);

    let leaves = vec![leaf(1), leaf(2), leaf(3), leaf(4), leaf(5), leaf(6)];
    let padded = extend_to_power_of_two(leaves, 9);
    assert_eq!(padded.len(), 8);
    assert_eq!(padded[6], vec![6u64]);
    assert_eq!(padded[7], vec![9u64]);
}

#[test]
fn compress_is_four_field_elements() {
    let out = compress(&vec![1, 2, 3, 4, 5]);
    assert_eq!(out.len(), 4);
    for v in out {
        assert!(v < 0xffff_ffff_0000_0001);
    }
}

#[test]
fn hash_or_noop_passes_short_leaves_through() {
    assert_eq!(hash_or_noop(&vec![11, 22]), vec![11, 22, 0, 0]);
    let long = vec![1, 2, 3, 4, 5];
    assert_eq!(hash_or_noop(&long), compress(&long));
}

#[test]
fn tree_generation() {
    // Four one-wire leaves: no padding, four leaf hashes, three pairings.
    let mut circuit_builder = CircuitBuilder::new();
    let mut merkle_tree_leaf_targets = Vec::with_capacity(4);
    for _ in 0..4 {
        merkle_tree_leaf_targets.push(circuit_builder.add_virtual_targets(1));
    }
    let flat: Vec<_> = merkle_tree_leaf_targets.iter().map(|v| v[0]).collect();
    let to_extend_target = circuit_builder.zero();
    let root = circuit_builder.add_merkle_root_target(merkle_tree_leaf_targets, to_extend_target);
    assert_eq!(root.elements.len(), 4);
    assert_eq!(circuit_builder.ops.len(), 1 + 4 + 3);
    assert_eq!(circuit_builder.num_wires, 4 + 1 + 7 * 4);

    let mut partial_witness = PartialWitness::new();
    let values = vec![0u64, 1, 2, 3];
    partial_witness.set_targets(&flat, &values);
    assert_eq!(partial_witness.assignments.len(), 4);
}

#[test]
fn tree_generation_2() {
    // Five leaves pad to eight: a pinned length wire, eight leaf hashes,
    // seven pairings.
    let mut circuit_builder = CircuitBuilder::new();
    let mut merkle_tree_leaf_targets = Vec::with_capacity(5);
    for _ in 0..5 {
        merkle_tree_leaf_targets.push(circuit_builder.add_virtual_targets(1));
    }
    let to_extend_target = circuit_builder.zero();
    let root = circuit_builder.add_merkle_root_target(merkle_tree_leaf_targets, to_extend_target);
    assert_eq!(root.elements.len(), 4);
    assert_eq!(circuit_builder.ops.len(), 1 + 1 + 8 + 7);
    assert_eq!(circuit_builder.num_wires, 5 + 1 + 1 + 15 * 4);
}
