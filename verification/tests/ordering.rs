use solina::bignum::BigNum;
use solina::error::CircuitError;
use solina::keys::PrivateKey;
use solina::intent::{ExecuteRuntime, Intent};
use solina::swap_intent::{SwapConstraints, SwapDirection, SwapInputs, SwapIntent};
use solina::transition::{check_intent_ordering, IntentSignature};

fn make_intent(quote_amount: u64, min_base: u64, direction: SwapDirection) -> IntentSignature {
    let inputs = SwapInputs {
        from: BigNum::from_u64(7),
        quote_token: BigNum::from_u64(125),
        base_token: BigNum::from_u64(64),
        quote_amount: BigNum::from_u64(quote_amount),
        direction,
    };
    let constraints = SwapConstraints { min_base_token_amount: BigNum::from_u64(min_base) };
    let intent = SwapIntent::build_intent(inputs, constraints, ExecuteRuntime::Swap);
    let key = PrivateKey::new();
    let signature = intent.sign_intent(key);
    IntentSignature { intent, signature }
}

#[test]
fn ordering_accepts_sorted_buy_side() {
    // Prices 30, 20, 10: descending, as a buy book must be.
    let intents = vec![
        make_intent(30, 1, SwapDirection::Buy),
        make_intent(20, 1, SwapDirection::Buy),
        make_intent(10, 1, SwapDirection::Buy),
    ];
    assert!(check_intent_ordering(&intents).is_ok());
}

#[test]
fn ordering_accepts_sorted_sell_side() {
    let intents = vec![
        make_intent(10, 1, SwapDirection::Sell),
        make_intent(20, 1, SwapDirection::Sell),
        make_intent(30, 1, SwapDirection::Sell),
    ];
    assert!(check_intent_ordering(&intents).is_ok());
}

#[test]
fn ordering_rejects_adjacent_swap() {
    let intents = vec![
        make_intent(20, 1, SwapDirection::Buy),
        make_intent(30, 1, SwapDirection::Buy),
        make_intent(10, 1, SwapDirection::Buy),
    ];
    assert_eq!(check_intent_ordering(&intents), Err(CircuitError::UnorderedIntentList));
}

#[test]
fn ordering_ties_follow_amount_tie_break() {
    // Equal prices: a buy book wants amounts ascending on the tie.
    let good = vec![
        make_intent(20, 2, SwapDirection::Buy),
        make_intent(40, 4, SwapDirection::Buy),
    ];
    assert!(check_intent_ordering(&good).is_ok());

    let bad = vec![
        make_intent(40, 4, SwapDirection::Buy),
        make_intent(20, 2, SwapDirection::Buy),
    ];
    assert_eq!(check_intent_ordering(&bad), Err(CircuitError::UnorderedIntentList));

    // A sell book wants amounts descending on the tie.
    let good = vec![
        make_intent(40, 4, SwapDirection::Sell),
        make_intent(20, 2, SwapDirection::Sell),
    ];
    assert!(check_intent_ordering(&good).is_ok());
}

#[test]
fn ordering_rejects_mixed_directions() {
    let intents = vec![
        make_intent(30, 1, SwapDirection::Buy),
        make_intent(10, 1, SwapDirection::Sell),
    ];
    assert_eq!(check_intent_ordering(&intents), Err(CircuitError::UnorderedIntentList));
}

#[test]
fn ordering_rejects_empty_list() {
    let intents: Vec<IntentSignature> = Vec::new();
    assert_eq!(check_intent_ordering(&intents), Err(CircuitError::EmptyIntentList));
}
