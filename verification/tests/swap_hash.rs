use solina::bignum::BigNum;
use solina::hashing::StructuredHashInterface;
use solina::swap_intent::{SwapConstraints, SwapDirection, SwapInputs, SwapIntent};

fn fixture_inputs() -> SwapInputs {
    SwapInputs {
        from: BigNum::from_u64(255),
        quote_amount: BigNum::from_u64(1_000_000_000_000),
        quote_token: BigNum::from_u64(125),
        base_token: BigNum::from_u64(64),
        direction: SwapDirection::Buy,
    }
}

fn fixture_constraints() -> SwapConstraints {
    SwapConstraints { min_base_token_amount: BigNum::from_u64(64) }
}

#[test]
fn it_works_swap_inputs_type_encoding() {
    assert_eq!(
        SwapInputs::type_encode().as_str(),
        "SwapInputs(BigUint from,BigUint quote_token,BigUint base_token,BigUint quote_amount)"
    );
}

#[test]
fn it_works_swap_constraints_type_encoding() {
    assert_eq!(
        SwapConstraints::type_encode().as_str(),
        "SwapConstraints(BigUint min_base_token_amount)"
    );
}

#[test]
fn it_works_swap_intent_type_encoding() {
    assert_eq!(
        SwapIntent::type_encode(),
        format!(
            "SwapIntent(SwapInputs inputs,SwapConstraints constraints){}{}",
            SwapConstraints::type_encode(),
            SwapInputs::type_encode(),
        )
    );
}

#[test]
fn it_works_swap_inputs_struct_hash() {
    let inputs = fixture_inputs();
    let hash = inputs.structured_hash();
    assert_eq!(
        hash,
        vec![
            186, 101, 125, 97, 49, 232, 81, 6, 161, 29, 40, 233, 194, 228, 236, 187, 13, 240,
            22, 165, 28, 19, 253, 103, 191, 74, 123, 112, 246, 125, 183, 139
        ]
    );
}

#[test]
fn it_works_swap_constraints_struct_hash() {
    let constraints = fixture_constraints();
    let hash = constraints.structured_hash();
    assert_eq!(
        hash,
        vec![
            234, 72, 17, 64, 171, 119, 130, 160, 214, 239, 34, 138, 193, 55, 126, 70, 99, 51,
            17, 186, 102, 158, 246, 83, 37, 222, 43, 39, 99, 185, 141, 28
        ]
    );
}

#[test]
fn it_works_swap_intent_struct_hash() {
    let intent = SwapIntent { inputs: fixture_inputs(), constraints: fixture_constraints() };
    let hash = intent.structured_hash();
    assert_eq!(
        hash,
        vec![
            189, 82, 148, 152, 172, 104, 0, 13, 64, 1, 22, 117, 178, 200, 200, 168, 243, 142,
            13, 152, 208, 63, 125, 179, 210, 98, 124, 23, 39, 58, 92, 19
        ]
    );
}

#[test]
fn structured_hash_is_deterministic() {
    let intent = SwapIntent { inputs: fixture_inputs(), constraints: fixture_constraints() };
    assert_eq!(intent.structured_hash(), intent.structured_hash());
    assert_eq!(fixture_inputs().structured_hash(), fixture_inputs().structured_hash());
}

#[test]
fn structured_hash_separates_fixtures() {
    let intent = SwapIntent { inputs: fixture_inputs(), constraints: fixture_constraints() };
    let inputs_hash = fixture_inputs().structured_hash();
    let constraints_hash = fixture_constraints().structured_hash();
    let intent_hash = intent.structured_hash();
    assert_ne!(inputs_hash, constraints_hash);
    assert_ne!(inputs_hash, intent_hash);
    assert_ne!(constraints_hash, intent_hash);

    let mut other = fixture_inputs();
    other.direction = SwapDirection::Sell;
    assert_ne!(other.structured_hash(), inputs_hash);

    let mut changed = fixture_inputs();
    changed.from = BigNum::from_u64(256);
    assert_ne!(changed.structured_hash(), inputs_hash);
}
