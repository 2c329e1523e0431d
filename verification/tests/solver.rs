use solina::bignum::BigNum;
use solina::hashing::StructuredHashInterface;
use solina::keys::PrivateKey;
use solina::intent::{ExecuteRuntime, Intent};
use solina::merkle::merkle_root;
use solina::solver::SwapSolver;
use solina::swap_intent::{SwapConstraints, SwapDirection, SwapInputs, SwapIntent};
use solina::transition::IntentSignature;

fn make_intent(quote_amount: u64, min_base: u64, direction: SwapDirection) -> IntentSignature {
    let inputs = SwapInputs {
        from: BigNum::from_u64(3),
        quote_token: BigNum::from_u64(125),
        base_token: BigNum::from_u64(64),
        quote_amount: BigNum::from_u64(quote_amount),
        direction,
    };
    let constraints = SwapConstraints { min_base_token_amount: BigNum::from_u64(min_base) };
    let intent = SwapIntent::build_intent(inputs, constraints, ExecuteRuntime::Swap);
    let key = PrivateKey::new();
    let signature = intent.sign_intent(key);
    IntentSignature { intent, signature }
}

#[test]
fn solver_keeps_each_side_sorted() {
    let mut solver = SwapSolver::new();
    // Buy prices arrive out of order; the book keeps them descending.
    assert_eq!(solver.execute_on_new_intent(make_intent(10, 1, SwapDirection::Buy)), 0);
    assert_eq!(solver.execute_on_new_intent(make_intent(30, 1, SwapDirection::Buy)), 0);
    assert_eq!(solver.execute_on_new_intent(make_intent(20, 1, SwapDirection::Buy)), 1);
    let state = solver.current_state();
    let prices: Vec<u64> = state
        .buy_order_intents
        .iter()
        .map(|i| {
            let p = i.intent.get_price();
            let limbs = p.limbs();
            if limbs.is_empty() { 0 } else { limbs[0] as u64 }
        })
        .collect();
    assert_eq!(prices, vec![30, 20, 10]);

    assert_eq!(solver.execute_on_new_intent(make_intent(20, 1, SwapDirection::Sell)), 0);
    assert_eq!(solver.execute_on_new_intent(make_intent(10, 1, SwapDirection::Sell)), 0);
    let state = solver.current_state();
    assert_eq!(state.sell_order_intents.len(), 2);
    assert_eq!(state.buy_order_intents.len(), 3);
}

#[test]
fn solver_commitment_matches_native_root() {
    let mut solver = SwapSolver::new();
    solver.execute_on_new_intent(make_intent(30, 1, SwapDirection::Buy));
    solver.execute_on_new_intent(make_intent(10, 1, SwapDirection::Buy));
    let commitment = solver.commit_to_current_state();
    assert!(commitment.sell_intent_commitment.is_none());
    let root = commitment.buy_intent_commitment.unwrap();

    let state = solver.current_state();
    let leaves: Vec<Vec<u64>> = state
        .buy_order_intents
        .iter()
        .map(|i| {
            i.intent.structured_hash().iter().map(|b| *b as u64).collect()
        })
        .collect();
    assert_eq!(root, merkle_root(leaves, 0));
}
