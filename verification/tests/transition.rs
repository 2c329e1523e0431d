use solina::bignum::BigNum;
use solina::circuit::CircuitBuilder;
use solina::error::CircuitError;
use solina::keys::PrivateKey;
use solina::intent::{ExecuteRuntime, Intent};
use solina::swap_intent::{SwapConstraints, SwapDirection, SwapInputs, SwapIntent};
use solina::keys::PublicKey;
use solina::signature_circuit::generate_intent_signature_proof;
use solina::transition::{
    generate_state_transition_circuit, IntentSignature, ProofVerifyData,
};

fn make_intent(quote_amount: u64, min_base: u64, direction: SwapDirection) -> IntentSignature {
    let inputs = SwapInputs {
        from: BigNum::from_u64(9),
        quote_token: BigNum::from_u64(125),
        base_token: BigNum::from_u64(64),
        quote_amount: BigNum::from_u64(quote_amount),
        direction,
    };
    let constraints = SwapConstraints { min_base_token_amount: BigNum::from_u64(min_base) };
    let intent = SwapIntent::build_intent(inputs, constraints, ExecuteRuntime::Swap);
    let key = PrivateKey::new();
    let signature = intent.sign_intent(key);
    IntentSignature { intent, signature }
}

#[test]
fn transition_rejects_empty_state() {
    let mut builder = CircuitBuilder::new();
    let new_intent = make_intent(10, 1, SwapDirection::Buy);
    let state: Vec<IntentSignature> = Vec::new();
    let r = generate_state_transition_circuit(&mut builder, None, &new_intent, Some(0), &state, None);
    assert!(matches!(r, Err(CircuitError::EmptyIntentList)));
    assert_eq!(builder.ops.len(), 0);
}

#[test]
fn transition_rejects_missing_insertion_index() {
    let mut builder = CircuitBuilder::new();
    let new_intent = make_intent(10, 1, SwapDirection::Buy);
    let state = vec![make_intent(30, 1, SwapDirection::Buy)];
    let r = generate_state_transition_circuit(&mut builder, None, &new_intent, None, &state, None);
    assert!(matches!(r, Err(CircuitError::MissingInsertionIndex)));
    assert_eq!(builder.ops.len(), 0);
}

#[test]
fn transition_rejects_out_of_range_index() {
    let mut builder = CircuitBuilder::new();
    let new_intent = make_intent(10, 1, SwapDirection::Buy);
    let state = vec![make_intent(30, 1, SwapDirection::Buy)];
    let r = generate_state_transition_circuit(&mut builder, None, &new_intent, Some(2), &state, None);
    assert!(matches!(r, Err(CircuitError::IndexOutOfRange)));
}

#[test]
fn transition_inserts_at_declared_index() {
    // Two committed intents; the new one goes between them: leaves below the
    // index stay, leaves at or above it shift by one.
    let mut builder = CircuitBuilder::new();
    let new_intent = make_intent(20, 1, SwapDirection::Buy);
    let state = vec![
        make_intent(30, 1, SwapDirection::Buy),
        make_intent(10, 1, SwapDirection::Buy),
    ];
    let targets = generate_state_transition_circuit(
        &mut builder,
        None,
        &new_intent,
        Some(1),
        &state,
        None,
    )
    .unwrap();
    assert_eq!(targets.state_hash_targets.len(), 2);
    assert_eq!(targets.state_root_targets.elements.len(), 4);
    assert_eq!(targets.price_and_base_amount_targets.price_targets.len(), 2);
    let new_state = targets.new_state_hash_targets.unwrap();
    assert_eq!(new_state.len(), 3);
    assert!(targets.new_state_root_targets.is_some());
    assert!(targets.leaf_index_bits_targets.is_none());
    assert!(builder.ops.len() > 0);
    assert_eq!(builder.verified_proofs.len(), 0);
}

#[test]
fn transition_chains_previous_proof_and_walks_matching_path() {
    let mut builder = CircuitBuilder::new();
    let new_intent = make_intent(20, 1, SwapDirection::Sell);
    let state = vec![
        make_intent(10, 1, SwapDirection::Sell),
        make_intent(30, 1, SwapDirection::Sell),
    ];
    let matched = make_intent(20, 1, SwapDirection::Buy);
    let targets = generate_state_transition_circuit(
        &mut builder,
        Some(ProofVerifyData { proof_id: 41 }),
        &new_intent,
        None,
        &state,
        Some((0, matched)),
    )
    .unwrap();
    assert_eq!(builder.verified_proofs, vec![41u64]);
    let bits = targets.leaf_index_bits_targets.unwrap();
    assert_eq!(bits.len(), 256);
    // Two committed leaves make a tree of height one: one sibling hash.
    let path = targets.merkle_proof_targets.unwrap();
    assert_eq!(path.siblings.len(), 1);
    assert!(targets.new_state_hash_targets.is_none());
}

#[test]
fn matching_path_is_as_deep_as_the_padded_tree() {
    // Five committed leaves pad to eight: the path holds three siblings.
    let mut builder = CircuitBuilder::new();
    let new_intent = make_intent(60, 1, SwapDirection::Sell);
    let state = vec![
        make_intent(10, 1, SwapDirection::Sell),
        make_intent(20, 1, SwapDirection::Sell),
        make_intent(30, 1, SwapDirection::Sell),
        make_intent(40, 1, SwapDirection::Sell),
        make_intent(50, 1, SwapDirection::Sell),
    ];
    let matched = make_intent(30, 1, SwapDirection::Buy);
    let targets = generate_state_transition_circuit(
        &mut builder,
        None,
        &new_intent,
        None,
        &state,
        Some((2, matched)),
    )
    .unwrap();
    let path = targets.merkle_proof_targets.unwrap();
    assert_eq!(path.siblings.len(), 3);
    // One committed leaf needs no sibling at all.
    let mut builder = CircuitBuilder::new();
    let new_intent = make_intent(60, 1, SwapDirection::Sell);
    let state = vec![make_intent(10, 1, SwapDirection::Sell)];
    let matched = make_intent(10, 1, SwapDirection::Buy);
    let targets = generate_state_transition_circuit(
        &mut builder,
        None,
        &new_intent,
        None,
        &state,
        Some((0, matched)),
    )
    .unwrap();
    let path = targets.merkle_proof_targets.unwrap();
    assert_eq!(path.siblings.len(), 0);
}

#[test]
fn signature_proof_instance_binds_the_intent() {
    let signed = make_intent(20, 1, SwapDirection::Buy);
    let key = PrivateKey::new();
    let public_key = PublicKey::from_private_key(&key);
    let signature = signed.intent.sign_intent(key);
    let data = generate_intent_signature_proof(&signed.intent, &public_key, &signature).unwrap();
    assert_eq!(data.witness.assignments.len(), 160);
    assert_eq!(data.targets.message_target.len(), 32);
    assert_eq!(data.targets.public_key_target.len(), 64);
    assert_eq!(data.circuit.num_wires, 160);
    assert_eq!(data.circuit.ops.len(), 1);
}
