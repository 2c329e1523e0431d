use vstd::prelude::*;
use crate::bignum::{limb_count, lemma_num_limbs_le, lemma_wf_limb_count, limbs_nat};
use crate::circuit::{
    BoolTarget, CircuitBuilder, GateOp, HashOutTarget, MerkleProofTarget, Target, copy_targets,
    lemma_prefix_trans, lemma_satisfied_prefix, op_holds, satisfied_ops, wire_bytes, wire_u32s,
    wire_u32s_ok, wire_values,
};
use crate::hashing::structured_hash_of;
use crate::keys::ecdsa_verify_ok;
use crate::merkle::{floor_log2, merkle_root_spec};
use crate::merkle_circuit::{lemma_doubling_count_is_padded_height, padded_len, target_leaf_values};
use crate::signature_circuit::ECDSASignatureCircuitTargets;
use crate::hashing::StructuredHashInterface;
use vstd::utf8::encode_utf8;
use crate::error::CircuitError;
use crate::keys::Signature;
use crate::swap_intent::{SwapDirection, SwapIntent};

verus! {

/// An intent together with its owner's signature over its structured hash.
pub struct IntentSignature {
    pub intent: SwapIntent,
    pub signature: Signature,
}

impl IntentSignature {
    /// The intent's numeric fields are well-formed, its base-amount bound is
    /// nonzero, and both its quote amount and bound fit the declared limb
    /// count.
    pub open spec fn wf(&self) -> bool {
        &&& self.intent.wf()
        &&& self.signature.wf()
        &&& self.intent.amount_spec() != 0
        &&& self.intent.inputs.quote_amount.limbs_seq().len() <= 8
        &&& self.intent.constraints.min_base_token_amount.limbs_seq().len() <= 8
    }
}

/// The price-time-priority rule for one adjacent pair of one side of the
/// book: a buy book is price-descending with amounts ascending on price
/// ties; a sell book is price-ascending with amounts descending on ties.
pub open spec fn pair_ordered(direction: SwapDirection, p1: nat, a1: nat, p2: nat, a2: nat)
    -> bool {
    match direction {
        SwapDirection::Buy => p1 > p2 || (p1 == p2 && a1 <= a2),
        SwapDirection::Sell => p1 < p2 || (p1 == p2 && a1 >= a2),
    }
}

/// Every intent in the list trades in the given direction.
pub open spec fn all_same_direction(intents: Seq<IntentSignature>, d: SwapDirection) -> bool {
    forall|i: int| 0 <= i < intents.len() ==> (#[trigger] intents[i]).intent.inputs.direction == d
}

/// Every adjacent pair of the list satisfies the rule for the direction.
pub open spec fn intents_well_ordered(intents: Seq<IntentSignature>, d: SwapDirection) -> bool {
    forall|i: int|
        0 <= i < intents.len() - 1 ==> pair_ordered(
            d,
            (#[trigger] intents[i]).intent.price_spec(),
            intents[i].intent.amount_spec(),
            intents[i + 1].intent.price_spec(),
            intents[i + 1].intent.amount_spec(),
        )
}

/// Every intent in the list is well-formed.
pub open spec fn all_wf(intents: Seq<IntentSignature>) -> bool {
    forall|i: int| 0 <= i < intents.len() ==> (#[trigger] intents[i]).wf()
}

/// Whether an intent may stand directly before another on a side.
pub fn pair_ordered_exec(d: SwapDirection, a: &IntentSignature, b: &IntentSignature) -> (r: bool)
    requires
        a.wf(),
        b.wf(),
    ensures
        r == pair_ordered(
            d,
            a.intent.price_spec(),
            a.intent.amount_spec(),
            b.intent.price_spec(),
            b.intent.amount_spec(),
        ),
{
    let first_price = a.intent.get_price();
    let second_price = b.intent.get_price();
    let first_amount = &a.intent.constraints.min_base_token_amount;
    let second_amount = &b.intent.constraints.min_base_token_amount;
    match d {
        SwapDirection::Buy => {
            if second_price.lt(&first_price) {
                true
            } else if first_price.eq_value(&second_price) {
                first_amount.le(second_amount)
            } else {
                false
            }
        },
        SwapDirection::Sell => {
            if first_price.lt(&second_price) {
                true
            } else if first_price.eq_value(&second_price) {
                second_amount.le(first_amount)
            } else {
                false
            }
        },
    }
}

/// Checks, natively, that a list of intents forms one well-ordered side of
/// the book: nonempty, of one direction, and sorted by the price-time rule.
/// An empty list is malformed, never vacuously ordered.
#[verifier::rlimit(100)]
#[verifier::spinoff_prover]
pub fn check_intent_ordering(intents: &Vec<IntentSignature>) -> (r: Result<(), CircuitError>)
    requires
        all_wf(intents@),
    ensures
        match r {
            Ok(()) => intents@.len() >= 1 && all_same_direction(
                intents@,
                intents@[0].intent.inputs.direction,
            ) && intents_well_ordered(intents@, intents@[0].intent.inputs.direction),
            Err(e) => (e == CircuitError::EmptyIntentList && intents@.len() == 0) || (e
                == CircuitError::UnorderedIntentList && intents@.len() >= 1 && !(
            all_same_direction(intents@, intents@[0].intent.inputs.direction)
                && intents_well_ordered(intents@, intents@[0].intent.inputs.direction))),
        },
{
    if intents.len() == 0 {
        return Err(CircuitError::EmptyIntentList);
    }
    let direction = intents[0].intent.inputs.direction;
    let mut i: usize = 0;
    while i < intents.len()
        invariant
            i <= intents@.len(),
            direction == intents@[0].intent.inputs.direction,
            forall|j: int| 0 <= j < i ==> (#[trigger] intents@[j]).intent.inputs.direction
                == direction,
        decreases intents@.len() - i,
    {
        let d = intents[i].intent.inputs.direction;
        if d != direction {
            return Err(CircuitError::UnorderedIntentList);
        }
        i += 1;
    }
    let mut i: usize = 1;
    while i < intents.len()
        invariant
            all_wf(intents@),
            1 <= i,
            intents@.len() >= 1,
            i <= intents@.len() || intents@.len() == 1,
            direction == intents@[0].intent.inputs.direction,
            all_same_direction(intents@, direction),
            forall|j: int|
                0 <= j < i - 1 ==> pair_ordered(
                    direction,
                    (#[trigger] intents@[j]).intent.price_spec(),
                    intents@[j].intent.amount_spec(),
                    intents@[j + 1].intent.price_spec(),
                    intents@[j + 1].intent.amount_spec(),
                ),
        decreases intents@.len() - i,
    {
        let ok = pair_ordered_exec(direction, &intents[i - 1], &intents[i]);
        if !ok {
            return Err(CircuitError::UnorderedIntentList);
        }
        i += 1;
    }
    Ok(())
}


/// Limb values widened to 64-bit wire values.
pub open spec fn u32s_as_u64s(s: Seq<u32>) -> Seq<u64> {
    Seq::new(s.len(), |i: int| s[i] as u64)
}

/// The big-integer value the witness gives to a vector of limb wires.
pub open spec fn wire_biguint(w: Seq<u64>, ts: Seq<Target>) -> nat {
    limbs_nat(wire_u32s(w, ts))
}





/// The honest assignment of the allocated limb wires: each intent's price
/// and base-amount bound wires hold exactly the intent's own limb values.
pub open spec fn honest_limb_wires(
    w: Seq<u64>,
    pts: Seq<Vec<Target>>,
    bts: Seq<Vec<Target>>,
    intents: Seq<IntentSignature>,
) -> bool {
    forall|j: int|
        0 <= j < intents.len() ==> wire_u32s_ok(w, (#[trigger] pts[j])@) && wire_u32s_ok(
            w,
            bts[j]@,
        ) && wire_biguint(w, pts[j]@) == intents[j].intent.price_spec() && wire_biguint(
            w,
            bts[j]@,
        ) == intents[j].intent.amount_spec()
}

/// Constraint suffixes built in two stages hold under the later witness.
proof fn lemma_suffix_stitch(
    w_pre: Seq<u64>,
    hw: Seq<u64>,
    prev_ops: Seq<GateOp>,
    fin_ops: Seq<GateOp>,
    base: int,
)
    requires
        w_pre.is_prefix_of(hw),
        prev_ops.is_prefix_of(fin_ops),
        0 <= base,
        forall|k: int| base <= k < prev_ops.len() ==> op_holds(w_pre, #[trigger] prev_ops[k]),
        forall|k: int| prev_ops.len() <= k < fin_ops.len() ==> op_holds(hw, #[trigger] fin_ops[k]),
    ensures
        forall|k: int| base <= k < fin_ops.len() ==> op_holds(hw, #[trigger] fin_ops[k]),
{
    assert forall|k: int| base <= k < fin_ops.len() implies op_holds(hw, #[trigger] fin_ops[k]) by {
        if k < prev_ops.len() {
            assert(fin_ops[k] == prev_ops[k]);
            crate::circuit::lemma_op_holds_extend(w_pre, hw, prev_ops[k]);
        }
    }
}

/// One-step prefix fact for a pushed witness.
proof fn lemma_push_prefix(hw_old: Seq<u64>, hw: Seq<u64>)
    requires
        hw_old.len() <= hw.len(),
        forall|t: int| 0 <= t < hw_old.len() ==> hw[t] == hw_old[t],
    ensures
        hw_old.is_prefix_of(hw),
{
    assert(hw_old =~= hw.subrange(0, hw_old.len() as int));
}

/// The limb wires allocated for each intent's price and base-amount bound.
pub struct PriceAndBaseAmountTargets {
    pub price_targets: Vec<Vec<Target>>,
    pub base_amount_targets: Vec<Vec<Target>>,
}

impl CircuitBuilder {
    /// Allocates the limb wires of every intent's price and base-amount
    /// bound, extending an honest witness with the true limb values.
    #[verifier::rlimit(100)]
    #[verifier::spinoff_prover]
    fn allocate_intent_limb_wires(
        &mut self,
        state_intents: &Vec<IntentSignature>,
        Ghost(w_in): Ghost<Seq<u64>>,
    ) -> (r: (Vec<Vec<Target>>, Vec<Vec<Target>>, Ghost<Seq<u64>>))
        requires
            all_wf(state_intents@),
            w_in.len() == old(self).num_wires,
            old(self).num_wires + 64 * state_intents@.len() + 64 <= usize::MAX,
        ensures
            final(self).ops@ == old(self).ops@,
            final(self).public_inputs@ == old(self).public_inputs@,
            final(self).verified_proofs@ == old(self).verified_proofs@,
            final(self).num_wires <= old(self).num_wires + 16 * state_intents@.len(),
            r.0@.len() == state_intents@.len(),
            r.1@.len() == state_intents@.len(),
            forall|j: int|
                0 <= j < state_intents@.len() ==> (#[trigger] r.0@[j])@.len() == limb_count(
                    state_intents@[j].intent.price_spec(),
                ) && r.1@[j]@.len() == limb_count(state_intents@[j].intent.amount_spec()),
            r.2@.len() == final(self).num_wires,
            w_in.is_prefix_of(r.2@),
            honest_limb_wires(r.2@, r.0@, r.1@, state_intents@),
    {
        let n = state_intents.len();
        let ghost mut hw: Seq<u64> = w_in;
        let mut price_targets: Vec<Vec<Target>> = Vec::new();
        let mut base_amount_targets: Vec<Vec<Target>> = Vec::new();
        let mut i: usize = 0;
        while i < n
            invariant
                all_wf(state_intents@),
                n == state_intents@.len(),
                i <= n,
                old(self).num_wires + 64 * n + 64 <= usize::MAX,
                self.num_wires <= old(self).num_wires + 16 * i,
                self.ops@ == old(self).ops@,
                self.public_inputs@ == old(self).public_inputs@,
                self.verified_proofs@ == old(self).verified_proofs@,
                price_targets@.len() == i,
                base_amount_targets@.len() == i,
                forall|j: int|
                    0 <= j < i ==> (#[trigger] price_targets@[j])@.len() == limb_count(
                        state_intents@[j].intent.price_spec(),
                    ) && base_amount_targets@[j]@.len() == limb_count(
                        state_intents@[j].intent.amount_spec(),
                    ),
                hw.len() == self.num_wires,
                w_in.is_prefix_of(hw),
                forall|j: int|
                    0 <= j < i ==> wire_u32s_ok(hw, (#[trigger] price_targets@[j])@)
                        && wire_u32s_ok(hw, base_amount_targets@[j]@) && wire_biguint(
                        hw,
                        price_targets@[j]@,
                    ) == state_intents@[j].intent.price_spec() && wire_biguint(
                        hw,
                        base_amount_targets@[j]@,
                    ) == state_intents@[j].intent.amount_spec(),
            decreases n - i,
        {
            let price = state_intents[i].intent.get_price();
            proof {
                assert(state_intents@[i as int].wf());
                let quote = state_intents@[i as int].intent.inputs.quote_amount;
                let denom = state_intents@[i as int].intent.amount_spec();
                vstd::arithmetic::div_mod::lemma_div_is_ordered_by_denominator(
                    quote.as_nat() as int,
                    1,
                    denom as int,
                );
                vstd::arithmetic::div_mod::lemma_div_basics(quote.as_nat() as int);
                assert(price.as_nat() <= quote.as_nat());
                lemma_num_limbs_le(&price, &quote);
                lemma_wf_limb_count(&price);
                lemma_wf_limb_count(
                    &state_intents@[i as int].intent.constraints.min_base_token_amount,
                );
            }
            let pt = self.add_virtual_biguint_target(price.num_limbs());
            let at = self.add_virtual_biguint_target(
                state_intents[i].intent.constraints.min_base_token_amount.num_limbs(),
            );
            price_targets.push(pt);
            base_amount_targets.push(at);
            proof {
                assert(price_targets@[i as int]@.len() == limb_count(
                    state_intents@[i as int].intent.price_spec(),
                ));
                assert(base_amount_targets@[i as int]@.len() == limb_count(
                    state_intents@[i as int].intent.amount_spec(),
                ));
                let amount = state_intents@[i as int].intent.constraints.min_base_token_amount;
                let hw_old = hw;
                hw = hw + u32s_as_u64s(price.limbs_seq()) + u32s_as_u64s(amount.limbs_seq());
                lemma_push_prefix(hw_old, hw);
                lemma_push_prefix(w_in, hw);
                assert forall|j: int|
                    0 <= j < i implies wire_u32s_ok(hw, (#[trigger] price_targets@[j])@)
                        && wire_u32s_ok(hw, base_amount_targets@[j]@) && wire_biguint(
                        hw,
                        price_targets@[j]@,
                    ) == state_intents@[j].intent.price_spec() && wire_biguint(
                        hw,
                        base_amount_targets@[j]@,
                    ) == state_intents@[j].intent.amount_spec() by {
                    crate::circuit::lemma_wire_values_extend(hw_old, hw, price_targets@[j]@);
                    crate::circuit::lemma_wire_values_extend(
                        hw_old,
                        hw,
                        base_amount_targets@[j]@,
                    );
                    assert forall|t: int|
                        0 <= t < price_targets@[j]@.len() implies hw[(#[trigger]
                    price_targets@[j]@[t]).index as int] < 0x1_0000_0000 by {
                        assert(hw[price_targets@[j]@[t].index as int] == hw_old[
                            price_targets@[j]@[t].index as int
                        ]);
                    }
                    assert forall|t: int|
                        0 <= t < base_amount_targets@[j]@.len() implies hw[(#[trigger]
                    base_amount_targets@[j]@[t]).index as int] < 0x1_0000_0000 by {
                        assert(hw[base_amount_targets@[j]@[t].index as int] == hw_old[
                            base_amount_targets@[j]@[t].index as int
                        ]);
                    }
                }
                crate::bignum::lemma_as_nat_is_limbs(&price);
                crate::bignum::lemma_as_nat_is_limbs(&amount);
                assert(wire_u32s(hw, price_targets@[i as int]@) =~= price.limbs_seq());
                assert(wire_u32s(hw, base_amount_targets@[i as int]@) =~= amount.limbs_seq());
                assert(wire_u32s_ok(hw, price_targets@[i as int]@));
                assert(wire_u32s_ok(hw, base_amount_targets@[i as int]@));
            }
            i += 1;
        }
        proof {
            assert(honest_limb_wires(hw, price_targets@, base_amount_targets@, state_intents@));
        }
        (price_targets, base_amount_targets, Ghost(hw))
    }

    /// Emits the shared-direction constraints: one constant bit per intent,
    /// each tied to the first intent's bit, so a window mixing directions
    /// admits no satisfying witness; a window of one direction is satisfied
    /// by the honest bits.
    #[verifier::rlimit(100)]
    #[verifier::spinoff_prover]
    fn emit_direction_bits(
        &mut self,
        state_intents: &Vec<IntentSignature>,
        Ghost(w_in): Ghost<Seq<u64>>,
    ) -> (w_out: Ghost<Seq<u64>>)
        requires
            state_intents@.len() >= 1,
            old(self).num_wires + state_intents@.len() + 1 <= usize::MAX,
            w_in.len() == old(self).num_wires,
        ensures
            old(self).ops@.is_prefix_of(final(self).ops@),
            final(self).num_wires <= old(self).num_wires + state_intents@.len() + 1,
            final(self).public_inputs@ == old(self).public_inputs@,
            final(self).verified_proofs@ == old(self).verified_proofs@,
            forall|w: Seq<u64>, j: int|
                #![trigger satisfied_ops(final(self).ops@, w), state_intents@[j]]
                satisfied_ops(final(self).ops@, w) && 1 <= j < state_intents@.len() ==> (
                state_intents@[j]).intent.inputs.direction
                    == state_intents@[0].intent.inputs.direction,
            w_in.is_prefix_of(w_out@),
            w_out@.len() == final(self).num_wires,
            all_same_direction(state_intents@, state_intents@[0].intent.inputs.direction)
                ==> forall|k: int|
                old(self).ops@.len() <= k < final(self).ops@.len() ==> op_holds(
                    w_out@,
                    #[trigger] final(self).ops@[k],
                ),
    {
        let n = state_intents.len();
        let direction = state_intents[0].intent.inputs.direction;
        let ghost hyp_dir = all_same_direction(state_intents@, direction);
        let ghost mut hw: Seq<u64> = w_in;
        // Every intent in the window must share one direction bit: each
        // intent's constant bit is tied to the first intent's, so a window
        // mixing directions admits no satisfying witness.
        let intent_swap_direction = self.constant_bool(direction.as_bool());
        proof {
            let hw_old = hw;
            hw = hw.push(if direction is Sell { 1u64 } else { 0u64 });
            lemma_push_prefix(hw_old, hw);
        }
        let ghost ops_dir0 = self.ops@;
        let mut i: usize = 1;
        while i < n
            invariant
                n == state_intents@.len(),
                n >= 1,
                1 <= i <= n || (n == 1 && i == 1),
                direction == state_intents@[0].intent.inputs.direction,
                hyp_dir == all_same_direction(state_intents@, direction),
                old(self).num_wires + n + 1 <= usize::MAX,
                self.num_wires <= old(self).num_wires + 1 + i,
                old(self).ops@.is_prefix_of(self.ops@),
                ops_dir0.is_prefix_of(self.ops@),
                ops_dir0.len() >= 1,
                ops_dir0.last() == (GateOp::Constant {
                    target: intent_swap_direction.target,
                    value: if direction is Sell {
                        1u64
                    } else {
                        0u64
                    },
                }),
                self.public_inputs@ == old(self).public_inputs@,
                self.verified_proofs@ == old(self).verified_proofs@,
                forall|w: Seq<u64>, j: int|
                    #![trigger satisfied_ops(self.ops@, w), state_intents@[j]]
                    satisfied_ops(self.ops@, w) && 1 <= j < i ==> (
                    state_intents@[j]).intent.inputs.direction == direction,
                hw.len() == self.num_wires,
                w_in.is_prefix_of(hw),
                intent_swap_direction.target.index < hw.len(),
                hw[intent_swap_direction.target.index as int] == (if direction is Sell {
                    1u64
                } else {
                    0u64
                }),
                hyp_dir ==> forall|k: int|
                    old(self).ops@.len() <= k < self.ops@.len() ==> op_holds(
                        hw,
                        #[trigger] self.ops@[k],
                    ),
            decreases n - i,
        {
            let ghost prev_ops = self.ops@;
            let ghost hw_old = hw;
            let bit = self.constant_bool(state_intents[i].intent.inputs.direction.as_bool());
            let ghost ops_bit = self.ops@;
            self.connect(intent_swap_direction.target, bit.target);
            proof {
                assert(prev_ops.is_prefix_of(self.ops@)) by {
                    assert(prev_ops =~= self.ops@.subrange(0, prev_ops.len() as int));
                }
                lemma_prefix_trans(ops_dir0, prev_ops, self.ops@);
                lemma_prefix_trans(old(self).ops@, prev_ops, self.ops@);
                assert forall|w: Seq<u64>, j: int|
                    #![trigger satisfied_ops(self.ops@, w), state_intents@[j]]
                    satisfied_ops(self.ops@, w) && 1 <= j < i + 1 implies (
                state_intents@[j]).intent.inputs.direction == direction by {
                    lemma_satisfied_prefix(prev_ops, self.ops@, w);
                    if j == i {
                        assert(op_holds(w, self.ops@[ops_dir0.len() - 1]));
                        assert(self.ops@[ops_dir0.len() - 1] == ops_dir0.last());
                        assert(op_holds(w, self.ops@[ops_bit.len() - 1]));
                        assert(self.ops@[ops_bit.len() - 1] == ops_bit.last());
                        assert(op_holds(w, self.ops@[self.ops@.len() - 1]));
                    }
                }
                hw = hw.push(
                    if state_intents@[i as int].intent.inputs.direction is Sell {
                        1u64
                    } else {
                        0u64
                    },
                );
                lemma_push_prefix(hw_old, hw);
                lemma_push_prefix(w_in, hw);
                if hyp_dir {
                    assert forall|k: int|
                        prev_ops.len() <= k < self.ops@.len() implies op_holds(
                        hw,
                        #[trigger] self.ops@[k],
                    ) by {
                        if k == prev_ops.len() {
                            assert(self.ops@[k] == ops_bit.last());
                        } else {
                            assert(self.ops@[k] == self.ops@.last());
                            assert(state_intents@[i as int].intent.inputs.direction
                                == direction);
                        }
                    }
                    lemma_suffix_stitch(
                        hw_old,
                        hw,
                        prev_ops,
                        self.ops@,
                        old(self).ops@.len() as int,
                    );
                }
            }
            i += 1;
        }
        proof {
            lemma_push_prefix(w_in, hw);
        }
        Ghost(hw)
    }

    /// Emits the adjacent-pair ordering constraints over the allocated limb
    /// wires; the honest limb values of a well-ordered window satisfy every
    /// emitted constraint.
    #[verifier::rlimit(100)]
    #[verifier::spinoff_prover]
    fn emit_ordering_pairs(
        &mut self,
        state_intents: &Vec<IntentSignature>,
        price_targets: &Vec<Vec<Target>>,
        base_amount_targets: &Vec<Vec<Target>>,
    )
        requires
            all_wf(state_intents@),
            state_intents@.len() >= 1,
            price_targets@.len() == state_intents@.len(),
            base_amount_targets@.len() == state_intents@.len(),
            old(self).num_wires + 20 * state_intents@.len() <= usize::MAX,
        ensures
            old(self).ops@.is_prefix_of(final(self).ops@),
            final(self).num_wires <= old(self).num_wires + 20 * state_intents@.len(),
            final(self).public_inputs@ == old(self).public_inputs@,
            final(self).verified_proofs@ == old(self).verified_proofs@,
            forall|w: Seq<u64>, j: int|
                #![trigger satisfied_ops(final(self).ops@, w), price_targets@[j]]
                satisfied_ops(final(self).ops@, w) && 0 <= j < state_intents@.len() - 1
                    ==> pair_ordered(
                    state_intents@[0].intent.inputs.direction,
                    wire_biguint(w, price_targets@[j]@),
                    wire_biguint(w, base_amount_targets@[j]@),
                    wire_biguint(w, price_targets@[j + 1]@),
                    wire_biguint(w, base_amount_targets@[j + 1]@),
                ),
    {
        let n = state_intents.len();
        let direction = state_intents[0].intent.inputs.direction;
        let ghost ops_dirs = self.ops@;
        let mut i: usize = 1;
        while i < n
            invariant
                all_wf(state_intents@),
                n == state_intents@.len(),
                n >= 1,
                1 <= i <= n || (n == 1 && i == 1),
                direction == state_intents@[0].intent.inputs.direction,
                all_wf(state_intents@),
                old(self).num_wires + 20 * n <= usize::MAX,
                self.num_wires <= old(self).num_wires + 20 * i,
                old(self).ops@.is_prefix_of(self.ops@),
                ops_dirs.is_prefix_of(self.ops@),
                self.public_inputs@ == old(self).public_inputs@,
                self.verified_proofs@ == old(self).verified_proofs@,
                price_targets@.len() == n,
                base_amount_targets@.len() == n,
                forall|w: Seq<u64>, j: int|
                    #![trigger satisfied_ops(self.ops@, w), price_targets@[j]]
                    satisfied_ops(self.ops@, w) && 0 <= j < i - 1 ==> pair_ordered(
                        direction,
                        wire_biguint(w, price_targets@[j]@),
                        wire_biguint(w, base_amount_targets@[j]@),
                        wire_biguint(w, price_targets@[j + 1]@),
                        wire_biguint(w, base_amount_targets@[j + 1]@),
                    ),
            decreases n - i,
        {
            let ghost prev_ops = self.ops@;
            let Ghost(w_next) = self.enforce_pair_ordered(
                direction,
                &price_targets[i - 1],
                &base_amount_targets[i - 1],
                &price_targets[i],
                &base_amount_targets[i],
                Ghost(Seq::empty()),
            );
            proof {
                lemma_prefix_trans(ops_dirs, prev_ops, self.ops@);
                assert forall|w: Seq<u64>, j: int|
                    #![trigger satisfied_ops(self.ops@, w), price_targets@[j]]
                    satisfied_ops(self.ops@, w) && 0 <= j < i implies pair_ordered(
                    direction,
                    wire_biguint(w, price_targets@[j]@),
                    wire_biguint(w, base_amount_targets@[j]@),
                    wire_biguint(w, price_targets@[j + 1]@),
                    wire_biguint(w, base_amount_targets@[j + 1]@),
                ) by {
                    lemma_satisfied_prefix(prev_ops, self.ops@, w);
                }
            }
            i += 1;
        }
    }

    /// Emits the constraints forcing one adjacent pair of price and amount
    /// wire vectors to satisfy the rule for the direction: the two prices
    /// are compared as big integers, the direction selects the buy or the
    /// sell rule, and the selected verdict is asserted true.
    #[verifier::rlimit(100)]
    #[verifier::spinoff_prover]
    fn enforce_pair_ordered(
        &mut self,
        direction: SwapDirection,
        prev_price: &Vec<Target>,
        prev_amount: &Vec<Target>,
        cur_price: &Vec<Target>,
        cur_amount: &Vec<Target>,
        Ghost(w_in): Ghost<Seq<u64>>,
    ) -> (w_out: Ghost<Seq<u64>>)
        requires
            old(self).num_wires + 20 <= usize::MAX,
        ensures
            old(self).ops@.is_prefix_of(final(self).ops@),
            final(self).num_wires == old(self).num_wires + 16,
            final(self).ops@.len() == old(self).ops@.len() + 17,
            final(self).public_inputs@ == old(self).public_inputs@,
            final(self).verified_proofs@ == old(self).verified_proofs@,
            forall|w: Seq<u64>| #[trigger]
                satisfied_ops(final(self).ops@, w) ==> pair_ordered(
                    direction,
                    wire_biguint(w, prev_price@),
                    wire_biguint(w, prev_amount@),
                    wire_biguint(w, cur_price@),
                    wire_biguint(w, cur_amount@),
                ),
            w_in.is_prefix_of(w_out@),
            (w_in.len() == old(self).num_wires && wire_u32s_ok(w_in, prev_price@)
                && wire_u32s_ok(w_in, prev_amount@) && wire_u32s_ok(w_in, cur_price@)
                && wire_u32s_ok(w_in, cur_amount@) && pair_ordered(
                direction,
                wire_biguint(w_in, prev_price@),
                wire_biguint(w_in, prev_amount@),
                wire_biguint(w_in, cur_price@),
                wire_biguint(w_in, cur_amount@),
            )) ==> (forall|k: int|
                old(self).ops@.len() <= k < final(self).ops@.len() ==> op_holds(
                    w_out@,
                    #[trigger] final(self).ops@[k],
                )),
            w_out@.len() == w_in.len() + 16,
    {
        let p_le = self.cmp_biguint(prev_price, cur_price);
        let ghost ops1 = self.ops@;
        let p_ge = self.cmp_biguint(cur_price, prev_price);
        let ghost ops2 = self.ops@;
        let a_le = self.cmp_biguint(prev_amount, cur_amount);
        let ghost ops3 = self.ops@;
        let a_ge = self.cmp_biguint(cur_amount, prev_amount);
        let ghost ops4 = self.ops@;
        let p_gt = self.not(p_le);
        let p_lt = self.not(p_ge);
        let t_w = self._true();
        let f_w = self._false();
        let p_eq_t = self._if(p_le, p_ge.target, f_w.target);
        let p_eq = BoolTarget { target: p_eq_t };
        let tie_buy = self._if(p_eq, a_le.target, f_w.target);
        let tie_sell = self._if(p_eq, a_ge.target, f_w.target);
        let buy_ok = self._if(p_gt, t_w.target, tie_buy);
        let sell_ok = self._if(p_lt, t_w.target, tie_sell);
        let d_w = self.constant_bool(direction.as_bool());
        let not_d = self.not(d_w);
        let ok = self._if(not_d, buy_ok, sell_ok);
        self.assert_true(BoolTarget { target: ok });
        let ghost hp = wire_biguint(w_in, prev_price@);
        let ghost ha = wire_biguint(w_in, prev_amount@);
        let ghost hc = wire_biguint(w_in, cur_price@);
        let ghost hb = wire_biguint(w_in, cur_amount@);
        let ghost v0: u64 = if hp <= hc { 1 } else { 0 };
        let ghost v1: u64 = if hc <= hp { 1 } else { 0 };
        let ghost v2: u64 = if ha <= hb { 1 } else { 0 };
        let ghost v3: u64 = if hb <= ha { 1 } else { 0 };
        let ghost v4: u64 = (1 - v0) as u64;
        let ghost v5: u64 = (1 - v1) as u64;
        let ghost v6: u64 = 1;
        let ghost v7: u64 = 0;
        let ghost v8: u64 = if v0 == 1 { v1 } else { v7 };
        let ghost v9: u64 = if v8 == 1 { v2 } else { v7 };
        let ghost v10: u64 = if v8 == 1 { v3 } else { v7 };
        let ghost v11: u64 = if v4 == 1 { v6 } else { v9 };
        let ghost v12: u64 = if v5 == 1 { v6 } else { v10 };
        let ghost v13: u64 = if direction is Sell { 1 } else { 0 };
        let ghost v14: u64 = (1 - v13) as u64;
        let ghost v15: u64 = if v14 == 1 { v11 } else { v12 };
        let ghost w_ext = w_in + seq![
            v0, v1, v2, v3, v4, v5, v6, v7, v8, v9, v10, v11, v12, v13, v14, v15,
        ];
        proof {
            let fops = self.ops@;
            assert(ops4.is_prefix_of(fops)) by {
                assert(ops4 =~= fops.subrange(0, ops4.len() as int));
            }
            lemma_prefix_trans(ops3, ops4, fops);
            lemma_prefix_trans(ops2, ops3, fops);
            lemma_prefix_trans(ops1, ops2, fops);
            assert forall|w: Seq<u64>| #[trigger]
                satisfied_ops(fops, w) implies pair_ordered(
                direction,
                wire_biguint(w, prev_price@),
                wire_biguint(w, prev_amount@),
                wire_biguint(w, cur_price@),
                wire_biguint(w, cur_amount@),
            ) by {
                let pp = wire_biguint(w, prev_price@);
                let pa = wire_biguint(w, prev_amount@);
                let cp = wire_biguint(w, cur_price@);
                let ca = wire_biguint(w, cur_amount@);
                assert(op_holds(w, fops[ops1.len() - 1]));
                assert(fops[ops1.len() - 1] == ops1.last());
                assert(op_holds(w, fops[ops2.len() - 1]));
                assert(fops[ops2.len() - 1] == ops2.last());
                assert(op_holds(w, fops[ops3.len() - 1]));
                assert(fops[ops3.len() - 1] == ops3.last());
                assert(op_holds(w, fops[ops4.len() - 1]));
                assert(fops[ops4.len() - 1] == ops4.last());
                assert(w[p_le.target.index as int] == (if pp <= cp {
                    1u64
                } else {
                    0u64
                }));
                assert(w[p_ge.target.index as int] == (if cp <= pp {
                    1u64
                } else {
                    0u64
                }));
                assert(w[a_le.target.index as int] == (if pa <= ca {
                    1u64
                } else {
                    0u64
                }));
                assert(w[a_ge.target.index as int] == (if ca <= pa {
                    1u64
                } else {
                    0u64
                }));
                assert(op_holds(w, fops[fops.len() - 13]));
                assert(op_holds(w, fops[fops.len() - 12]));
                assert(op_holds(w, fops[fops.len() - 11]));
                assert(op_holds(w, fops[fops.len() - 10]));
                assert(op_holds(w, fops[fops.len() - 9]));
                assert(op_holds(w, fops[fops.len() - 8]));
                assert(op_holds(w, fops[fops.len() - 7]));
                assert(op_holds(w, fops[fops.len() - 6]));
                assert(op_holds(w, fops[fops.len() - 5]));
                assert(op_holds(w, fops[fops.len() - 4]));
                assert(op_holds(w, fops[fops.len() - 3]));
                assert(op_holds(w, fops[fops.len() - 2]));
                assert(op_holds(w, fops[fops.len() - 1]));
                assert(w[ok.index as int] == 1);
            }
            if w_in.len() == old(self).num_wires && wire_u32s_ok(w_in, prev_price@)
                && wire_u32s_ok(w_in, prev_amount@) && wire_u32s_ok(w_in, cur_price@)
                && wire_u32s_ok(w_in, cur_amount@) && pair_ordered(direction, hp, ha, hc, hb) {
                crate::circuit::lemma_wire_values_extend(w_in, w_ext, prev_price@);
                crate::circuit::lemma_wire_values_extend(w_in, w_ext, prev_amount@);
                crate::circuit::lemma_wire_values_extend(w_in, w_ext, cur_price@);
                crate::circuit::lemma_wire_values_extend(w_in, w_ext, cur_amount@);
                assert(w_ext[p_le.target.index as int] == v0);
                assert(w_ext[p_ge.target.index as int] == v1);
                assert(w_ext[a_le.target.index as int] == v2);
                assert(w_ext[a_ge.target.index as int] == v3);
                assert(w_ext[p_gt.target.index as int] == v4);
                assert(w_ext[p_lt.target.index as int] == v5);
                assert(w_ext[t_w.target.index as int] == v6);
                assert(w_ext[f_w.target.index as int] == v7);
                assert(w_ext[p_eq_t.index as int] == v8);
                assert(w_ext[tie_buy.index as int] == v9);
                assert(w_ext[tie_sell.index as int] == v10);
                assert(w_ext[buy_ok.index as int] == v11);
                assert(w_ext[sell_ok.index as int] == v12);
                assert(w_ext[d_w.target.index as int] == v13);
                assert(w_ext[not_d.target.index as int] == v14);
                assert(w_ext[ok.index as int] == v15);
                assert(v15 == 1);
                assert forall|k: int|
                    old(self).ops@.len() <= k < fops.len() implies op_holds(
                    w_ext,
                    #[trigger] fops[k],
                ) by {
                    assert(fops[ops1.len() - 1] == ops1.last());
                    assert(fops[ops2.len() - 1] == ops2.last());
                    assert(fops[ops3.len() - 1] == ops3.last());
                    assert(fops[ops4.len() - 1] == ops4.last());
                }
            }
        }
        Ghost(w_ext)
    }

    /// Emits the constraints of the ordering invariant over a side's intents:
    /// limb wires for every price and base-amount bound, one shared direction
    /// bit, and for each adjacent pair the direction-selected rule asserted
    /// true. Fails exactly on an empty list, before any constraint is
    /// emitted. Under every satisfying witness the allocated wires' values
    /// are pairwise ordered by the rule.
    #[verifier::rlimit(100)]
    #[verifier::spinoff_prover]
    pub fn generate_intent_correct_ordering_proof(
        &mut self,
        state_intents: &Vec<IntentSignature>,
    ) -> (r: Result<PriceAndBaseAmountTargets, CircuitError>)
        requires
            all_wf(state_intents@),
            old(self).num_wires + 64 * state_intents@.len() + 64 <= usize::MAX,
        ensures
            match r {
                Err(e) => {
                    &&& e == CircuitError::EmptyIntentList
                    &&& state_intents@.len() == 0
                    &&& *final(self) == *old(self)
                },
                Ok(pt) => {
                    &&& state_intents@.len() >= 1
                    &&& old(self).ops@.is_prefix_of(final(self).ops@)
                    &&& final(self).num_wires <= old(self).num_wires + 64 * state_intents@.len()
                        + 64
                    &&& final(self).public_inputs@ == old(self).public_inputs@
                    &&& final(self).verified_proofs@ == old(self).verified_proofs@
                    &&& pt.price_targets@.len() == state_intents@.len()
                    &&& pt.base_amount_targets@.len() == state_intents@.len()
                    &&& forall|i: int|
                        0 <= i < state_intents@.len() ==> (#[trigger] pt.price_targets@[i])@.len()
                            == limb_count(state_intents@[i].intent.price_spec()) && pt
                            .base_amount_targets@[i]@.len() == limb_count(
                            state_intents@[i].intent.amount_spec(),
                        )
                    &&& forall|w: Seq<u64>| #[trigger]
                        satisfied_ops(final(self).ops@, w) ==> all_same_direction(
                            state_intents@,
                            state_intents@[0].intent.inputs.direction,
                        )
                    &&& forall|w: Seq<u64>| #[trigger]
                        satisfied_ops(final(self).ops@, w) ==> forall|i: int|
                            0 <= i < state_intents@.len() - 1 ==> pair_ordered(
                                state_intents@[0].intent.inputs.direction,
                                wire_biguint(w, (#[trigger] pt.price_targets@[i])@),
                                wire_biguint(w, pt.base_amount_targets@[i]@),
                                wire_biguint(w, pt.price_targets@[i + 1]@),
                                wire_biguint(w, pt.base_amount_targets@[i + 1]@),
                            )
                },
            },
    {
        let n = state_intents.len();
        if n == 0 {
            return Err(CircuitError::EmptyIntentList);
        }
        let direction = state_intents[0].intent.inputs.direction;
        let ghost mut hw: Seq<u64> = Seq::new(old(self).num_wires as nat, |x: int| 0u64);
        let (price_targets, base_amount_targets, Ghost(hw_alloc)) = self
            .allocate_intent_limb_wires(state_intents, Ghost(hw));
        proof {
            hw = hw_alloc;
        }
        let Ghost(hw_dirs) = self.emit_direction_bits(state_intents, Ghost(hw));
        proof {
            hw = hw_dirs;
        }
        let ghost ops_dirs = self.ops@;
        self.emit_ordering_pairs(state_intents, &price_targets, &base_amount_targets);
        proof {
            lemma_prefix_trans(old(self).ops@, ops_dirs, self.ops@);
        }
        proof {
            let ghost fops = self.ops@;
            assert forall|w: Seq<u64>| #[trigger] satisfied_ops(fops, w) implies all_same_direction(
                state_intents@,
                state_intents@[0].intent.inputs.direction,
            ) by {
                lemma_satisfied_prefix(ops_dirs, fops, w);
                assert forall|j: int|
                    0 <= j < state_intents@.len() implies (#[trigger]
                state_intents@[j]).intent.inputs.direction
                    == state_intents@[0].intent.inputs.direction by {
                    if j >= 1 {
                        assert(satisfied_ops(ops_dirs, w) && state_intents@[j]
                            == state_intents@[j]);
                    }
                }
            }
            assert forall|w: Seq<u64>| #[trigger] satisfied_ops(fops, w) implies forall|j: int|
                0 <= j < state_intents@.len() - 1 ==> pair_ordered(
                    state_intents@[0].intent.inputs.direction,
                    wire_biguint(w, (#[trigger] price_targets@[j])@),
                    wire_biguint(w, base_amount_targets@[j]@),
                    wire_biguint(w, price_targets@[j + 1]@),
                    wire_biguint(w, base_amount_targets@[j + 1]@),
                ) by {
                assert forall|j: int| 0 <= j < state_intents@.len() - 1 implies pair_ordered(
                    state_intents@[0].intent.inputs.direction,
                    wire_biguint(w, (#[trigger] price_targets@[j])@),
                    wire_biguint(w, base_amount_targets@[j]@),
                    wire_biguint(w, price_targets@[j + 1]@),
                    wire_biguint(w, base_amount_targets@[j + 1]@),
                ) by {
                    assert(satisfied_ops(fops, w));
                    assert(price_targets@[j] == price_targets@[j]);
                }
            }
        }
        Ok(PriceAndBaseAmountTargets { price_targets, base_amount_targets })
    }
}

/// The bytes of a string, widened to 64-bit wire values.
pub open spec fn bytes_as_u64s(b: Seq<u8>) -> Seq<u64> {
    Seq::new(b.len(), |i: int| b[i] as u64)
}

/// The structured hash an intent's commitment leaf must hold, as wire values.
pub open spec fn intent_leaf_values(intent: SwapIntent) -> Seq<u64> {
    bytes_as_u64s(
        structured_hash_of(
            encode_utf8(SwapIntent::type_encode_spec()),
            intent.data_encode_spec(),
        ),
    )
}

/// A prior transition's proof, named by the identifier under which the
/// backend holds it; the chain is threaded explicitly through these values.
pub struct ProofVerifyData {
    pub proof_id: u64,
}

/// Copies a list of wire vectors.
pub fn copy_target_matrix(v: &Vec<Vec<Target>>) -> (r: Vec<Vec<Target>>)
    ensures
        r@.len() == v@.len(),
        forall|i: int| 0 <= i < v@.len() ==> (#[trigger] r@[i])@ == v@[i]@,
{
    let mut out: Vec<Vec<Target>> = Vec::new();
    let mut i: usize = 0;
    while i < v.len()
        invariant
            i <= v@.len(),
            out@.len() == i,
            forall|j: int| 0 <= j < i ==> (#[trigger] out@[j])@ == v@[j]@,
        decreases v@.len() - i,
    {
        let row = copy_targets(&v[i]);
        out.push(row);
        i += 1;
    }
    out
}

/// Allocates the commitment wires over `n` intent leaves: 32 byte wires per
/// leaf, each registered as a public input; the Merkle root over them with a
/// zero sentinel; and an independently allocated public root connected to
/// the computed root, against a prover handing inconsistent public inputs.
fn add_intents_commitment_targets(circuit_builder: &mut CircuitBuilder, n: usize) -> (r: (
    Vec<Vec<Target>>,
    HashOutTarget,
))
    requires
        1 <= n < 0x100_0000,
        old(circuit_builder).num_wires + 64 * n + 64 <= usize::MAX,
    ensures
        old(circuit_builder).ops@.is_prefix_of(final(circuit_builder).ops@),
        final(circuit_builder).num_wires <= old(circuit_builder).num_wires + 64 * n + 64,
        final(circuit_builder).verified_proofs@ == old(circuit_builder).verified_proofs@,
        r.0@.len() == n,
        forall|i: int| 0 <= i < n ==> (#[trigger] r.0@[i])@.len() == 32,
        r.1.elements@.len() == 4,
        final(circuit_builder).public_inputs@.len() == old(circuit_builder).public_inputs@.len()
            + 32 * n + 4,
        forall|i: int|
            0 <= i < old(circuit_builder).public_inputs@.len() ==> final(circuit_builder)
                .public_inputs@[i] == old(circuit_builder).public_inputs@[i],
        forall|i: int, j: int|
            #![trigger r.0@[i]@[j]]
            0 <= i < n && 0 <= j < 32 ==> final(circuit_builder).public_inputs@[
                old(circuit_builder).public_inputs@.len() + 32 * i + j
            ] == r.0@[i]@[j],
        forall|w: Seq<u64>| #[trigger]
            satisfied_ops(final(circuit_builder).ops@, w) ==> wire_values(w, r.1.elements@)
                == merkle_root_spec(target_leaf_values(w, r.0@), 0) && wire_values(
                w,
                final(circuit_builder).public_inputs@.subrange(
                    final(circuit_builder).public_inputs@.len() - 4,
                    final(circuit_builder).public_inputs@.len() as int,
                ),
            ) == wire_values(w, r.1.elements@),
{
    let ghost pubs0 = circuit_builder.public_inputs@;
    let mut hash_targets: Vec<Vec<Target>> = Vec::new();
    let mut i: usize = 0;
    while i < n
        invariant
            i <= n,
            n < 0x100_0000,
            old(circuit_builder).num_wires + 64 * n + 64 <= usize::MAX,
            circuit_builder.num_wires <= old(circuit_builder).num_wires + 32 * i,
            circuit_builder.ops@ == old(circuit_builder).ops@,
            circuit_builder.verified_proofs@ == old(circuit_builder).verified_proofs@,
            pubs0 == old(circuit_builder).public_inputs@,
            circuit_builder.public_inputs@.len() == pubs0.len() + 32 * i,
            forall|t: int| 0 <= t < pubs0.len() ==> circuit_builder.public_inputs@[t] == pubs0[t],
            hash_targets@.len() == i,
            forall|t: int| 0 <= t < i ==> (#[trigger] hash_targets@[t])@.len() == 32,
            forall|t: int, j: int|
                #![trigger hash_targets@[t]@[j]]
                0 <= t < i && 0 <= j < 32 ==> circuit_builder.public_inputs@[pubs0.len() + 32 * t
                    + j] == hash_targets@[t]@[j],
        decreases n - i,
    {
        let ts = circuit_builder.add_virtual_targets(32);
        circuit_builder.register_public_inputs(&ts);
        hash_targets.push(ts);
        i += 1;
    }
    let to_extend_target = circuit_builder.zero();
    let ghost ops_zero = circuit_builder.ops@;
    let leaves = copy_target_matrix(&hash_targets);
    let ghost leaves_snapshot = leaves@;
    let root_targets = circuit_builder.add_merkle_root_target(leaves, to_extend_target);
    let ghost ops_root = circuit_builder.ops@;
    let public_input_root_targets = circuit_builder.add_virtual_hash();
    circuit_builder.register_public_inputs(&public_input_root_targets.elements);
    let mut j: usize = 0;
    while j < 4
        invariant
            j <= 4,
            root_targets.elements@.len() == 4,
            public_input_root_targets.elements@.len() == 4,
            ops_root.is_prefix_of(circuit_builder.ops@),
            circuit_builder.ops@.len() == ops_root.len() + j,
            forall|t: int|
                0 <= t < j ==> circuit_builder.ops@[ops_root.len() + t] == (GateOp::Connect {
                    a: root_targets.elements@[t],
                    b: public_input_root_targets.elements@[t],
                }),
            circuit_builder.num_wires <= old(circuit_builder).num_wires + 64 * n + 13,
            circuit_builder.verified_proofs@ == old(circuit_builder).verified_proofs@,
            circuit_builder.public_inputs@.len() == pubs0.len() + 32 * n + 4,
            forall|t: int| 0 <= t < pubs0.len() ==> circuit_builder.public_inputs@[t] == pubs0[t],
            forall|t: int, u: int|
                #![trigger hash_targets@[t]@[u]]
                0 <= t < n && 0 <= u < 32 ==> circuit_builder.public_inputs@[pubs0.len() + 32 * t
                    + u] == hash_targets@[t]@[u],
            forall|t: int|
                0 <= t < 4 ==> circuit_builder.public_inputs@[pubs0.len() + 32 * n + t]
                    == public_input_root_targets.elements@[t],
        decreases 4 - j,
    {
        proof {
            assert(ops_root.is_prefix_of(circuit_builder.ops@.push(GateOp::Connect {
                a: root_targets.elements@[j as int],
                b: public_input_root_targets.elements@[j as int],
            }))) by {
                assert(ops_root =~= circuit_builder.ops@.push(GateOp::Connect {
                    a: root_targets.elements@[j as int],
                    b: public_input_root_targets.elements@[j as int],
                }).subrange(0, ops_root.len() as int));
            }
        }
        circuit_builder.connect(root_targets.elements[j], public_input_root_targets.elements[j]);
        j += 1;
    }
    proof {
        let fops = circuit_builder.ops@;
        let fpubs = circuit_builder.public_inputs@;
        lemma_prefix_trans(old(circuit_builder).ops@, ops_zero, fops);
        assert forall|w: Seq<u64>| #[trigger] satisfied_ops(fops, w) implies wire_values(
            w,
            root_targets.elements@,
        ) == merkle_root_spec(target_leaf_values(w, hash_targets@), 0) && wire_values(
            w,
            fpubs.subrange(fpubs.len() - 4, fpubs.len() as int),
        ) == wire_values(w, root_targets.elements@) by {
            lemma_satisfied_prefix(ops_root, fops, w);
            lemma_satisfied_prefix(ops_zero, fops, w);
            assert(op_holds(w, fops[ops_zero.len() - 1]));
            assert(fops[ops_zero.len() - 1] == ops_zero.last());
            assert(w[to_extend_target.index as int] == 0);
            assert(target_leaf_values(w, leaves_snapshot) =~= target_leaf_values(
                w,
                hash_targets@,
            ));
            assert(wire_values(w, root_targets.elements@) == merkle_root_spec(
                target_leaf_values(w, hash_targets@),
                0,
            ));
            assert forall|t: int| 0 <= t < 4 implies wire_values(
                w,
                fpubs.subrange(fpubs.len() - 4, fpubs.len() as int),
            )[t] == wire_values(w, root_targets.elements@)[t] by {
                assert(op_holds(w, fops[ops_root.len() + t]));
                assert(fpubs.subrange(fpubs.len() - 4, fpubs.len() as int)[t] == fpubs[fpubs.len()
                    - 4 + t]);
                assert(fpubs[pubs0.len() + 32 * n + t] == public_input_root_targets.elements@[t]);
            }
            assert(wire_values(w, fpubs.subrange(fpubs.len() - 4, fpubs.len() as int))
                =~= wire_values(w, root_targets.elements@));
        }
    }
    (hash_targets, root_targets)
}

/// The commitment wires over the state with one intent inserted at a
/// declared index: the inserted leaf's wires are pinned to the new intent's
/// own structured hash, so the prover cannot substitute another leaf there.
pub fn generate_new_state_commitment_with_no_matching(
    circuit_builder: &mut CircuitBuilder,
    state_intents: &Vec<IntentSignature>,
    new_intent: &IntentSignature,
    new_intent_index: usize,
) -> (r: (Vec<Vec<Target>>, HashOutTarget))
    requires
        state_intents@.len() + 1 < 0x100_0000,
        new_intent_index <= state_intents@.len(),
        old(circuit_builder).num_wires + 64 * (state_intents@.len() + 1) + 128 <= usize::MAX,
    ensures
        old(circuit_builder).ops@.is_prefix_of(final(circuit_builder).ops@),
        final(circuit_builder).num_wires <= old(circuit_builder).num_wires + 64 * (
        state_intents@.len() + 1) + 128,
        final(circuit_builder).verified_proofs@ == old(circuit_builder).verified_proofs@,
        r.0@.len() == state_intents@.len() + 1,
        forall|i: int| 0 <= i < r.0@.len() ==> (#[trigger] r.0@[i])@.len() == 32,
        r.1.elements@.len() == 4,
        final(circuit_builder).public_inputs@.len() >= old(circuit_builder).public_inputs@.len(),
        forall|i: int|
            0 <= i < old(circuit_builder).public_inputs@.len() ==> final(circuit_builder)
                .public_inputs@[i] == old(circuit_builder).public_inputs@[i],
        forall|w: Seq<u64>| #[trigger]
            satisfied_ops(final(circuit_builder).ops@, w) ==> wire_values(w, r.1.elements@)
                == merkle_root_spec(target_leaf_values(w, r.0@), 0) && wire_values(
                w,
                r.0@[new_intent_index as int]@,
            ) == intent_leaf_values(new_intent.intent),
{
    let n = state_intents.len();
    let (new_hash_targets, new_root_targets) = add_intents_commitment_targets(
        circuit_builder,
        n + 1,
    );
    let ghost ops_core = circuit_builder.ops@;
    let hash = new_intent.intent.structured_hash();
    let mut j: usize = 0;
    while j < 32
        invariant
            j <= 32,
            n + 1 < 0x100_0000,
            hash@.len() == 32,
            hash@ == structured_hash_of(
                encode_utf8(SwapIntent::type_encode_spec()),
                new_intent.intent.data_encode_spec(),
            ),
            new_intent_index < new_hash_targets@.len(),
            new_hash_targets@.len() == n + 1,
            forall|i: int|
                0 <= i < new_hash_targets@.len() ==> (#[trigger] new_hash_targets@[i])@.len()
                    == 32,
            old(circuit_builder).num_wires + 64 * (n + 1) + 128 <= usize::MAX,
            circuit_builder.num_wires <= old(circuit_builder).num_wires + 64 * (n + 1) + 64 + 2
                * j,
            ops_core.is_prefix_of(circuit_builder.ops@),
            circuit_builder.public_inputs@.len() >= old(circuit_builder).public_inputs@.len(),
            forall|i: int|
                0 <= i < old(circuit_builder).public_inputs@.len() ==> circuit_builder
                    .public_inputs@[i] == old(circuit_builder).public_inputs@[i],
            circuit_builder.verified_proofs@ == old(circuit_builder).verified_proofs@,
            forall|w: Seq<u64>, t: int|
                #![trigger satisfied_ops(circuit_builder.ops@, w), hash@[t]]
                satisfied_ops(circuit_builder.ops@, w) && 0 <= t < j ==> w[
                    new_hash_targets@[new_intent_index as int]@[t].index as int
                ] == hash@[t] as u64,
        decreases 32 - j,
    {
        let ghost prev_ops = circuit_builder.ops@;
        let c = circuit_builder.constant(hash[j] as u64);
        let ghost ops_c = circuit_builder.ops@;
        circuit_builder.connect(new_hash_targets[new_intent_index][j], c);
        proof {
            assert forall|w: Seq<u64>, t: int|
                #![trigger satisfied_ops(circuit_builder.ops@, w), hash@[t]]
                satisfied_ops(circuit_builder.ops@, w) && 0 <= t < j + 1 implies w[
                new_hash_targets@[new_intent_index as int]@[t].index as int
            ] == hash@[t] as u64 by {
                lemma_satisfied_prefix(prev_ops, circuit_builder.ops@, w);
                if t == j {
                    assert(op_holds(w, circuit_builder.ops@[ops_c.len() - 1]));
                    assert(op_holds(w, circuit_builder.ops@[ops_c.len() as int]));
                }
            }
        }
        j += 1;
    }
    proof {
        lemma_prefix_trans(old(circuit_builder).ops@, ops_core, circuit_builder.ops@);
        let fops = circuit_builder.ops@;
        assert forall|w: Seq<u64>| #[trigger] satisfied_ops(fops, w) implies wire_values(
            w,
            new_root_targets.elements@,
        ) == merkle_root_spec(target_leaf_values(w, new_hash_targets@), 0) && wire_values(
            w,
            new_hash_targets@[new_intent_index as int]@,
        ) == intent_leaf_values(new_intent.intent) by {
            lemma_satisfied_prefix(ops_core, fops, w);
            assert(wire_values(w, new_hash_targets@[new_intent_index as int]@)
                =~= intent_leaf_values(new_intent.intent));
        }
    }
    (new_hash_targets, new_root_targets)
}

/// The proofs recorded after optionally verifying a predecessor.
pub open spec fn verified_after(base: Seq<u64>, prev: Option<ProofVerifyData>) -> Seq<u64> {
    match prev {
        Some(p) => base.push(p.proof_id),
        None => base,
    }
}

/// The wires a state transition exposes: the signature gadget's wires, the
/// committed state's leaf and root wires, the ordering wires, and, by
/// branch, either the inserted state's wires or the inclusion path's wires.
pub struct StateTransitionTargets {
    pub ecdsa_targets: ECDSASignatureCircuitTargets,
    pub state_hash_targets: Vec<Vec<Target>>,
    pub state_root_targets: HashOutTarget,
    pub price_and_base_amount_targets: PriceAndBaseAmountTargets,
    pub new_state_hash_targets: Option<Vec<Vec<Target>>>,
    pub new_state_root_targets: Option<HashOutTarget>,
    pub leaf_index_bits_targets: Option<Vec<BoolTarget>>,
    pub merkle_proof_targets: Option<MerkleProofTarget>,
}

/// The wire an old leaf's byte is tied to in the inserted state: the same
/// position below the insertion index, one position later at or above it.
pub open spec fn shifted_leaf_wire(
    new_targets: Seq<Vec<Target>>,
    branch_index: int,
    t: int,
    u: int,
) -> int {
    if t < branch_index {
        new_targets[t]@[u].index as int
    } else {
        new_targets[t + 1]@[u].index as int
    }
}

/// What every witness satisfying a transition's constraint system must make
/// true of the transition's wires: the new intent's signature verifies; the
/// committed root is the Merkle root of the leaf wires; the price and bound
/// wires are pairwise ordered by the direction's rule; and, by branch,
/// either the new commitment holds the new intent's own structured hash at
/// the declared index with every old leaf unchanged below it and shifted by
/// exactly one position at or above it, or the matched leaf walks its
/// authentication path to the committed root.
pub open spec fn transition_holds(
    w: Seq<u64>,
    t: StateTransitionTargets,
    new_intent: SwapIntent,
    n: int,
    branch_index: int,
    matched: bool,
    direction: SwapDirection,
) -> bool {
    &&& ecdsa_verify_ok(
        wire_bytes(w, t.ecdsa_targets.message_target@),
        wire_bytes(w, t.ecdsa_targets.signature_r_target@),
        wire_bytes(w, t.ecdsa_targets.signature_s_target@),
        wire_bytes(w, t.ecdsa_targets.public_key_target@),
    )
    &&& wire_values(w, t.state_root_targets.elements@) == merkle_root_spec(
        target_leaf_values(w, t.state_hash_targets@),
        0,
    )
    &&& (forall|i: int|
        0 <= i < n - 1 ==> pair_ordered(
            direction,
            wire_biguint(w, (#[trigger] t.price_and_base_amount_targets.price_targets@[i])@),
            wire_biguint(w, t.price_and_base_amount_targets.base_amount_targets@[i]@),
            wire_biguint(w, t.price_and_base_amount_targets.price_targets@[i + 1]@),
            wire_biguint(w, t.price_and_base_amount_targets.base_amount_targets@[i + 1]@),
        ))
    &&& (!matched ==> t.new_state_hash_targets is Some && t.new_state_root_targets is Some && {
        let nt = t.new_state_hash_targets->Some_0;
        &&& wire_values(w, t.new_state_root_targets->Some_0.elements@) == merkle_root_spec(
            target_leaf_values(w, nt@),
            0,
        )
        &&& wire_values(w, nt@[branch_index]@) == intent_leaf_values(new_intent)
        &&& (forall|i: int|
            0 <= i < branch_index ==> wire_values(w, (#[trigger] nt@[i])@) == wire_values(
                w,
                t.state_hash_targets@[i]@,
            ))
        &&& (forall|i: int|
            branch_index <= i < n ==> wire_values(w, (#[trigger] nt@[i + 1])@) == wire_values(
                w,
                t.state_hash_targets@[i]@,
            ))
    })
    &&& (matched ==> t.leaf_index_bits_targets is Some && t.merkle_proof_targets is Some && {
        let bits = t.leaf_index_bits_targets->Some_0;
        let proof = t.merkle_proof_targets->Some_0;
        crate::circuit::merkle_path_fold(
            crate::merkle::hash_or_noop_spec(wire_values(w, t.state_hash_targets@[branch_index]@)),
            Seq::new(bits@.len(), |i: int| w[bits@[i].target.index as int]),
            Seq::new(proof.siblings@.len(), |i: int| wire_values(w, proof.siblings@[i].elements@)),
        ) == wire_values(w, t.state_root_targets.elements@)
    })
}

/// Copies a list of boolean wires.
fn copy_bool_targets(v: &Vec<BoolTarget>) -> (r: Vec<BoolTarget>)
    ensures
        r@ == v@,
{
    let mut out: Vec<BoolTarget> = Vec::new();
    let mut i: usize = 0;
    while i < v.len()
        invariant
            i <= v@.len(),
            out@ == v@.subrange(0, i as int),
        decreases v@.len() - i,
    {
        proof {
            assert(out@.push(v@[i as int]) =~= v@.subrange(0, i + 1));
        }
        out.push(v[i]);
        i += 1;
    }
    proof {
        assert(out@ =~= v@);
    }
    out
}

/// Copies a Merkle path's wires.
fn copy_proof_targets(v: &MerkleProofTarget) -> (r: MerkleProofTarget)
    ensures
        r.siblings@.len() == v.siblings@.len(),
        forall|i: int|
            0 <= i < v.siblings@.len() ==> (#[trigger] r.siblings@[i]).elements@
                == v.siblings@[i].elements@,
{
    let mut siblings: Vec<HashOutTarget> = Vec::new();
    let mut i: usize = 0;
    while i < v.siblings.len()
        invariant
            i <= v.siblings@.len(),
            siblings@.len() == i,
            forall|j: int|
                0 <= j < i ==> (#[trigger] siblings@[j]).elements@ == v.siblings@[j].elements@,
        decreases v.siblings@.len() - i,
    {
        let h = HashOutTarget { elements: copy_targets(&v.siblings[i].elements) };
        siblings.push(h);
        i += 1;
    }
    MerkleProofTarget { siblings }
}

/// Allocates and publicly registers the leaf-index bit wires of a Merkle
/// inclusion claim, each constrained to hold zero or one.
fn add_index_bit_targets(circuit_builder: &mut CircuitBuilder) -> (r: Vec<BoolTarget>)
    requires
        old(circuit_builder).num_wires + 256 <= usize::MAX,
    ensures
        old(circuit_builder).ops@.is_prefix_of(final(circuit_builder).ops@),
        final(circuit_builder).num_wires <= old(circuit_builder).num_wires + 256,
        final(circuit_builder).verified_proofs@ == old(circuit_builder).verified_proofs@,
        final(circuit_builder).public_inputs@.len() >= old(circuit_builder).public_inputs@.len(),
        forall|i: int|
            0 <= i < old(circuit_builder).public_inputs@.len() ==> final(circuit_builder)
                .public_inputs@[i] == old(circuit_builder).public_inputs@[i],
        r@.len() == 256,
{
    let mut out: Vec<BoolTarget> = Vec::new();
    let mut i: usize = 0;
    while i < 256
        invariant
            i <= 256,
            old(circuit_builder).num_wires + 256 <= usize::MAX,
            circuit_builder.num_wires <= old(circuit_builder).num_wires + i,
            old(circuit_builder).ops@.is_prefix_of(circuit_builder.ops@),
            circuit_builder.verified_proofs@ == old(circuit_builder).verified_proofs@,
            circuit_builder.public_inputs@.len() >= old(circuit_builder).public_inputs@.len(),
            forall|t: int|
                0 <= t < old(circuit_builder).public_inputs@.len() ==> circuit_builder
                    .public_inputs@[t] == old(circuit_builder).public_inputs@[t],
            out@.len() == i,
        decreases 256 - i,
    {
        let ghost prev_ops = circuit_builder.ops@;
        let b = circuit_builder.add_virtual_bool_target_safe();
        proof {
            assert(prev_ops.is_prefix_of(circuit_builder.ops@)) by {
                assert(prev_ops =~= circuit_builder.ops@.subrange(0, prev_ops.len() as int));
            }
            lemma_prefix_trans(old(circuit_builder).ops@, prev_ops, circuit_builder.ops@);
        }
        circuit_builder.register_public_input(b.target);
        out.push(b);
        i += 1;
    }
    out
}

/// Builds one state transition's constraint system: the new intent's
/// signature check, the prior proof's in-circuit verification unless this is
/// the chain's first transition, the Merkle commitment over the current
/// intents with its root registered publicly, the ordering invariant with
/// the price and bound wires registered publicly, and then either a Merkle
/// inclusion of a matched counter-order in the committed state or the
/// insertion of the new intent at a declared index. Malformed inputs are
/// rejected before any constraint is emitted.
#[verifier::rlimit(100)]
#[verifier::spinoff_prover]
pub fn generate_state_transition_circuit(
    circuit_builder: &mut CircuitBuilder,
    previous_state_proof: Option<ProofVerifyData>,
    new_intent: &IntentSignature,
    new_intent_index: Option<usize>,
    state_intents: &Vec<IntentSignature>,
    matching_intent: Option<(usize, IntentSignature)>,
) -> (r: Result<StateTransitionTargets, CircuitError>)
    requires
        all_wf(state_intents@),
        new_intent.wf(),
        state_intents@.len() < 0x10_0000,
        old(circuit_builder).num_wires + 512 * state_intents@.len() + 4096 <= usize::MAX,
    ensures
        r is Err <==> (state_intents@.len() == 0 || (matching_intent is None && new_intent_index
            is None) || (matching_intent matches Some((ind, _)) && ind >= state_intents@.len())
            || (matching_intent is None && (new_intent_index matches Some(ind) && ind
            > state_intents@.len()))),
        match r {
            Err(e) => {
                &&& *final(circuit_builder) == *old(circuit_builder)
                &&& (e == CircuitError::EmptyIntentList <==> state_intents@.len() == 0)
                &&& (e == CircuitError::MissingInsertionIndex <==> state_intents@.len() >= 1
                    && matching_intent is None && new_intent_index is None)
                &&& (e == CircuitError::IndexOutOfRange <==> state_intents@.len() >= 1 && ((
                matching_intent matches Some((ind, _)) && ind >= state_intents@.len()) || (
                matching_intent is None && (new_intent_index matches Some(ind) && ind
                    > state_intents@.len()))))
            },
            Ok(t) => {
                &&& state_intents@.len() >= 1
                &&& (matching_intent is None ==> (new_intent_index matches Some(ind) && ind
                    <= state_intents@.len()))
                &&& (matching_intent matches Some((ind, _)) ==> ind < state_intents@.len())
                &&& old(circuit_builder).ops@.is_prefix_of(final(circuit_builder).ops@)
                &&& final(circuit_builder).verified_proofs@ == verified_after(
                    old(circuit_builder).verified_proofs@,
                    previous_state_proof,
                )
                &&& forall|i: int|
                    0 <= i < old(circuit_builder).public_inputs@.len() ==> final(circuit_builder)
                        .public_inputs@[i] == old(circuit_builder).public_inputs@[i]
                &&& t.state_hash_targets@.len() == state_intents@.len()
                &&& t.state_root_targets.elements@.len() == 4
                &&& t.price_and_base_amount_targets.price_targets@.len() == state_intents@.len()
                &&& t.price_and_base_amount_targets.base_amount_targets@.len()
                    == state_intents@.len()
                &&& (matching_intent is None ==> t.new_state_hash_targets is Some
                    && t.new_state_hash_targets->Some_0@.len() == state_intents@.len() + 1)
                &&& (matching_intent is Some ==> (t.merkle_proof_targets matches Some(mp)
                    && mp.siblings@.len() == floor_log2(
                    padded_len(state_intents@.len() as nat),
                )))
                &&& forall|i: int|
                    0 <= i < state_intents@.len() ==> (#[trigger]
                    t.price_and_base_amount_targets.price_targets@[i])@.len() == limb_count(
                        state_intents@[i].intent.price_spec(),
                    ) && t.price_and_base_amount_targets.base_amount_targets@[i]@.len()
                        == limb_count(state_intents@[i].intent.amount_spec())
                &&& final(circuit_builder).public_inputs@.len() >= old(
                    circuit_builder,
                ).public_inputs@.len() + 32 * state_intents@.len() + 4
                &&& forall|i: int, j: int|
                    #![trigger t.state_hash_targets@[i]@[j]]
                    0 <= i < state_intents@.len() && 0 <= j < 32 ==> final(circuit_builder)
                        .public_inputs@[old(circuit_builder).public_inputs@.len() + 32 * i + j]
                        == t.state_hash_targets@[i]@[j]
                &&& forall|w: Seq<u64>| #[trigger]
                    satisfied_ops(final(circuit_builder).ops@, w) ==> wire_values(
                        w,
                        final(circuit_builder).public_inputs@.subrange(
                            old(circuit_builder).public_inputs@.len() + 32 * state_intents@.len()
                                as int,
                            old(circuit_builder).public_inputs@.len() + 32 * state_intents@.len()
                                + 4int,
                        ),
                    ) == wire_values(w, t.state_root_targets.elements@)
                &&& forall|w: Seq<u64>| #[trigger]
                    satisfied_ops(final(circuit_builder).ops@, w) ==> all_same_direction(
                        state_intents@,
                        state_intents@[0].intent.inputs.direction,
                    )
                &&& forall|w: Seq<u64>| #[trigger]
                    satisfied_ops(final(circuit_builder).ops@, w) ==> transition_holds(
                        w,
                        t,
                        new_intent.intent,
                        state_intents@.len() as int,
                        (if matching_intent is Some {
                            matching_intent->Some_0.0 as int
                        } else {
                            new_intent_index->Some_0 as int
                        }),
                        matching_intent is Some,
                        state_intents@[0].intent.inputs.direction,
                    )
            },
        },
{
    let n = state_intents.len();
    if n == 0 {
        return Err(CircuitError::EmptyIntentList);
    }
    let branch_index: usize;
    match &matching_intent {
        Some((ind, _)) => {
            if *ind >= n {
                return Err(CircuitError::IndexOutOfRange);
            }
            branch_index = *ind;
        },
        None => {
            match new_intent_index {
                Some(ind) => {
                    if ind > n {
                        return Err(CircuitError::IndexOutOfRange);
                    }
                    branch_index = ind;
                },
                None => {
                    return Err(CircuitError::MissingInsertionIndex);
                },
            }
        },
    }
    let ghost direction = state_intents@[0].intent.inputs.direction;
    // 1. Verify the new intent's signature.
    let ecdsa_targets = circuit_builder.verify_intent_signature();
    // 2. Verify the previous state proof, unless this is the chain's first
    //    transition, which has no predecessor to verify.
    match &previous_state_proof {
        Some(p) => {
            circuit_builder.verify_proof(p.proof_id);
        },
        None => {},
    }
    let ghost ops_sig = circuit_builder.ops@;
    // 3.-6. Commit to the current state: per-intent structured-hash wires
    //       and the Merkle root, all registered as public inputs.
    let (state_hash_targets, state_root_targets) = add_intents_commitment_targets(
        circuit_builder,
        n,
    );
    let ghost ops_commit = circuit_builder.ops@;
    let ghost pubs_commit = circuit_builder.public_inputs@;
    // 7. Assert that the intents are well sorted.
    let price_and_base_amount_targets = match circuit_builder
        .generate_intent_correct_ordering_proof(state_intents) {
        Ok(pt) => pt,
        Err(_) => {
            proof {
                assert(false);
            }
            return Err(CircuitError::EmptyIntentList);
        },
    };
    let ghost ops_order = circuit_builder.ops@;
    // 8. Register the price and base-amount wires as public inputs.
    let mut i: usize = 0;
    while i < n
        invariant
            i <= n,
            n == state_intents@.len(),
            price_and_base_amount_targets.price_targets@.len() == n,
            price_and_base_amount_targets.base_amount_targets@.len() == n,
            circuit_builder.ops@ == ops_order,
            circuit_builder.num_wires <= old(circuit_builder).num_wires + 320 * n + 512,
            circuit_builder.verified_proofs@ == verified_after(
                old(circuit_builder).verified_proofs@,
                previous_state_proof,
            ),
            circuit_builder.public_inputs@.len() >= pubs_commit.len(),
            forall|t: int|
                0 <= t < pubs_commit.len() ==> circuit_builder.public_inputs@[t]
                    == pubs_commit[t],
        decreases n - i,
    {
        circuit_builder.register_public_inputs(&price_and_base_amount_targets.price_targets[i]);
        i += 1;
    }
    let mut i: usize = 0;
    while i < n
        invariant
            i <= n,
            n == state_intents@.len(),
            price_and_base_amount_targets.price_targets@.len() == n,
            price_and_base_amount_targets.base_amount_targets@.len() == n,
            circuit_builder.ops@ == ops_order,
            circuit_builder.num_wires <= old(circuit_builder).num_wires + 320 * n + 512,
            circuit_builder.verified_proofs@ == verified_after(
                old(circuit_builder).verified_proofs@,
                previous_state_proof,
            ),
            circuit_builder.public_inputs@.len() >= pubs_commit.len(),
            forall|t: int|
                0 <= t < pubs_commit.len() ==> circuit_builder.public_inputs@[t]
                    == pubs_commit[t],
        decreases n - i,
    {
        circuit_builder.register_public_inputs(
            &price_and_base_amount_targets.base_amount_targets[i],
        );
        i += 1;
    }
    if matching_intent.is_some() {
        // 10. Provide a Merkle proof that the matched intent was part of the
        //     committed state: index bits and path wires, registered as
        //     public inputs, walked from the matched leaf to the root.
        let leaf_index_bits_targets = add_index_bit_targets(circuit_builder);
        // The path is exactly as deep as the padded tree: the least count of
        // doublings that reaches the list's length.
        let mut height: usize = 0;
        let mut p: usize = 1;
        proof {
            vstd::arithmetic::power2::lemma2_to64();
        }
        while p < n
            invariant
                p == vstd::arithmetic::power2::pow2(height as nat),
                1 <= p < n + n,
                height <= 20,
                n < 0x10_0000,
                height >= 1 ==> vstd::arithmetic::power2::pow2((height - 1) as nat) < n,
            decreases n + n - p,
        {
            proof {
                vstd::arithmetic::power2::lemma_pow2_adds(1, height as nat);
                vstd::arithmetic::power2::lemma2_to64();
                assert(height < 20) by {
                    if height >= 20 {
                        if height as nat > 20 {
                            vstd::arithmetic::power2::lemma_pow2_strictly_increases(
                                20,
                                height as nat,
                            );
                        }
                        assert(p >= vstd::arithmetic::power2::pow2(20));
                        assert(false);
                    }
                }
            }
            p = 2 * p;
            height += 1;
        }
        proof {
            lemma_doubling_count_is_padded_height(n as nat, height as nat);
        }
        let merkle_proof_targets = MerkleProofTarget {
            siblings: circuit_builder.add_virtual_hashes(height),
        };
        let mut si: usize = 0;
        while si < merkle_proof_targets.siblings.len()
            invariant
                si <= merkle_proof_targets.siblings@.len(),
                merkle_proof_targets.siblings@.len() <= 20,
                forall|t: int|
                    0 <= t < merkle_proof_targets.siblings@.len() ==> (#[trigger]
                    merkle_proof_targets.siblings@[t]).elements@.len() == 4,
                ops_order.is_prefix_of(circuit_builder.ops@),
                circuit_builder.verified_proofs@ == verified_after(
                    old(circuit_builder).verified_proofs@,
                    previous_state_proof,
                ),
                circuit_builder.public_inputs@.len() >= pubs_commit.len(),
                forall|t: int|
                    0 <= t < pubs_commit.len() ==> circuit_builder.public_inputs@[t]
                        == pubs_commit[t],
            decreases merkle_proof_targets.siblings@.len() - si,
        {
            circuit_builder.register_public_inputs(&merkle_proof_targets.siblings[si].elements);
            si += 1;
        }
        let ghost ops_bits = circuit_builder.ops@;
        let leaf = copy_targets(&state_hash_targets[branch_index]);
        let bits = copy_bool_targets(&leaf_index_bits_targets);
        let root_copy = HashOutTarget { elements: copy_targets(&state_root_targets.elements) };
        let sib_copy = copy_proof_targets(&merkle_proof_targets);
        circuit_builder.verify_merkle_proof(leaf, bits, root_copy, sib_copy);
        let result = StateTransitionTargets {
            ecdsa_targets,
            state_hash_targets,
            state_root_targets,
            price_and_base_amount_targets,
            new_state_hash_targets: None,
            new_state_root_targets: None,
            leaf_index_bits_targets: Some(leaf_index_bits_targets),
            merkle_proof_targets: Some(merkle_proof_targets),
        };
        proof {
            let fops = circuit_builder.ops@;
            lemma_prefix_trans(old(circuit_builder).ops@, ops_sig, fops);
            assert forall|w: Seq<u64>| #[trigger] satisfied_ops(fops, w) implies
                all_same_direction(
                state_intents@,
                state_intents@[0].intent.inputs.direction,
            ) by {
                lemma_satisfied_prefix(ops_order, fops, w);
            }
            assert forall|w: Seq<u64>| #[trigger] satisfied_ops(fops, w) implies wire_values(
                w,
                circuit_builder.public_inputs@.subrange(
                    old(circuit_builder).public_inputs@.len() + 32 * n,
                    old(circuit_builder).public_inputs@.len() + 32 * n + 4,
                ),
            ) == wire_values(w, result.state_root_targets.elements@) by {
                lemma_satisfied_prefix(ops_commit, fops, w);
                assert(circuit_builder.public_inputs@.subrange(
                    old(circuit_builder).public_inputs@.len() + 32 * n,
                    old(circuit_builder).public_inputs@.len() + 32 * n + 4,
                ) =~= pubs_commit.subrange(
                    pubs_commit.len() - 4,
                    pubs_commit.len() as int,
                ));
            }
            assert forall|w: Seq<u64>| #[trigger] satisfied_ops(fops, w) implies transition_holds(
                w,
                result,
                new_intent.intent,
                n as int,
                branch_index as int,
                true,
                direction,
            ) by {
                lemma_satisfied_prefix(ops_sig, fops, w);
                lemma_satisfied_prefix(ops_commit, fops, w);
                lemma_satisfied_prefix(ops_order, fops, w);
                assert(ecdsa_verify_ok(
                    wire_bytes(w, result.ecdsa_targets.message_target@),
                    wire_bytes(w, result.ecdsa_targets.signature_r_target@),
                    wire_bytes(w, result.ecdsa_targets.signature_s_target@),
                    wire_bytes(w, result.ecdsa_targets.public_key_target@),
                ));
                assert(wire_values(w, result.state_root_targets.elements@) == merkle_root_spec(
                    target_leaf_values(w, result.state_hash_targets@),
                    0,
                ));
                assert(forall|i: int|
                    0 <= i < n - 1 ==> pair_ordered(
                        direction,
                        wire_biguint(
                            w,
                            (
                            #[trigger] result.price_and_base_amount_targets.price_targets@[i])@,
                        ),
                        wire_biguint(
                            w,
                            result.price_and_base_amount_targets.base_amount_targets@[i]@,
                        ),
                        wire_biguint(
                            w,
                            result.price_and_base_amount_targets.price_targets@[i + 1]@,
                        ),
                        wire_biguint(
                            w,
                            result.price_and_base_amount_targets.base_amount_targets@[i + 1]@,
                        ),
                    ));
                assert(crate::circuit::merkle_path_fold(
                    crate::merkle::hash_or_noop_spec(wire_values(w, leaf@)),
                    Seq::new(bits@.len(), |i: int| w[bits@[i].target.index as int]),
                    Seq::new(
                        sib_copy.siblings@.len(),
                        |i: int| wire_values(w, sib_copy.siblings@[i].elements@),
                    ),
                ) == wire_values(w, root_copy.elements@));
                assert(Seq::new(
                    result.leaf_index_bits_targets->Some_0@.len(),
                    |i: int| w[result.leaf_index_bits_targets->Some_0@[i].target.index as int],
                ) =~= Seq::new(bits@.len(), |i: int| w[bits@[i].target.index as int]));
                assert(Seq::new(
                    result.merkle_proof_targets->Some_0.siblings@.len(),
                    |i: int|
                        wire_values(w, result.merkle_proof_targets->Some_0.siblings@[i].elements@),
                ) =~= Seq::new(
                    sib_copy.siblings@.len(),
                    |i: int| wire_values(w, sib_copy.siblings@[i].elements@),
                ));
                assert(wire_values(w, leaf@) =~= wire_values(
                    w,
                    result.state_hash_targets@[branch_index as int]@,
                ));
                assert(wire_values(w, root_copy.elements@) =~= wire_values(
                    w,
                    result.state_root_targets.elements@,
                ));
            }
        }
        return Ok(result);
    }
    // 10'. No match: commit to the state with the new intent inserted at the
    //      declared index, and tie every other leaf to the old commitment,
    //      identity below the index and shifted by one at or above it.
    let (new_state_hash_targets, new_state_root_targets) =
        generate_new_state_commitment_with_no_matching(
        circuit_builder,
        state_intents,
        new_intent,
        branch_index,
    );
    let ghost ops_new = circuit_builder.ops@;
    let mut i: usize = 0;
    while i < n
        invariant
            i <= n,
            n == state_intents@.len(),
            branch_index <= n,
            state_hash_targets@.len() == n,
            forall|t: int| 0 <= t < n ==> (#[trigger] state_hash_targets@[t])@.len() == 32,
            new_state_hash_targets@.len() == n + 1,
            forall|t: int| 0 <= t < n + 1 ==> (#[trigger] new_state_hash_targets@[t])@.len()
                == 32,
            ops_new.is_prefix_of(circuit_builder.ops@),
            circuit_builder.verified_proofs@ == verified_after(
                old(circuit_builder).verified_proofs@,
                previous_state_proof,
            ),
            circuit_builder.public_inputs@.len() >= pubs_commit.len(),
            forall|t: int|
                0 <= t < pubs_commit.len() ==> circuit_builder.public_inputs@[t]
                    == pubs_commit[t],
            forall|w: Seq<u64>, t: int, u: int|
                #![trigger satisfied_ops(circuit_builder.ops@, w), state_hash_targets@[t]@[u]]
                satisfied_ops(circuit_builder.ops@, w) && 0 <= t < i && 0 <= u < 32 ==> w[
                    shifted_leaf_wire(new_state_hash_targets@, branch_index as int, t, u)
                ] == w[state_hash_targets@[t]@[u].index as int],
        decreases n - i,
    {
        let mut j: usize = 0;
        while j < 32
            invariant
                j <= 32,
                i < n,
                n == state_intents@.len(),
                branch_index <= n,
                state_hash_targets@.len() == n,
                forall|t: int| 0 <= t < n ==> (#[trigger] state_hash_targets@[t])@.len() == 32,
                new_state_hash_targets@.len() == n + 1,
                forall|t: int|
                    0 <= t < n + 1 ==> (#[trigger] new_state_hash_targets@[t])@.len() == 32,
                ops_new.is_prefix_of(circuit_builder.ops@),
                circuit_builder.verified_proofs@ == verified_after(
                    old(circuit_builder).verified_proofs@,
                    previous_state_proof,
                ),
                circuit_builder.public_inputs@.len() >= pubs_commit.len(),
                forall|t: int|
                    0 <= t < pubs_commit.len() ==> circuit_builder.public_inputs@[t]
                        == pubs_commit[t],
                forall|w: Seq<u64>, t: int, u: int|
                    #![trigger satisfied_ops(circuit_builder.ops@, w), state_hash_targets@[t]@[u]]
                    satisfied_ops(circuit_builder.ops@, w) && ((0 <= t < i && 0 <= u < 32) || (t
                        == i && 0 <= u < j)) ==> w[
                        shifted_leaf_wire(new_state_hash_targets@, branch_index as int, t, u)
                    ] == w[state_hash_targets@[t]@[u].index as int],
            decreases 32 - j,
        {
            let ghost prev_ops = circuit_builder.ops@;
            if i < branch_index {
                circuit_builder.connect(new_state_hash_targets[i][j], state_hash_targets[i][j]);
            } else {
                circuit_builder.connect(
                    new_state_hash_targets[i + 1][j],
                    state_hash_targets[i][j],
                );
            }
            proof {
                assert(prev_ops.is_prefix_of(circuit_builder.ops@)) by {
                    assert(prev_ops =~= circuit_builder.ops@.subrange(0, prev_ops.len() as int));
                }
                lemma_prefix_trans(ops_new, prev_ops, circuit_builder.ops@);
                assert forall|w: Seq<u64>, t: int, u: int|
                    #![trigger satisfied_ops(circuit_builder.ops@, w), state_hash_targets@[t]@[u]]
                    satisfied_ops(circuit_builder.ops@, w) && ((0 <= t < i && 0 <= u < 32) || (t
                        == i && 0 <= u < j + 1)) implies w[
                    shifted_leaf_wire(new_state_hash_targets@, branch_index as int, t, u)
                ] == w[state_hash_targets@[t]@[u].index as int] by {
                    lemma_satisfied_prefix(prev_ops, circuit_builder.ops@, w);
                    if t == i && u == j {
                        assert(op_holds(w, circuit_builder.ops@[circuit_builder.ops@.len() - 1]));
                    }
                }
            }
            j += 1;
        }
        i += 1;
    }
    let result = StateTransitionTargets {
        ecdsa_targets,
        state_hash_targets,
        state_root_targets,
        price_and_base_amount_targets,
        new_state_hash_targets: Some(new_state_hash_targets),
        new_state_root_targets: Some(new_state_root_targets),
        leaf_index_bits_targets: None,
        merkle_proof_targets: None,
    };
    proof {
        let fops = circuit_builder.ops@;
        lemma_prefix_trans(old(circuit_builder).ops@, ops_sig, fops);
        assert forall|w: Seq<u64>| #[trigger] satisfied_ops(fops, w) implies all_same_direction(
            state_intents@,
            state_intents@[0].intent.inputs.direction,
        ) by {
            lemma_satisfied_prefix(ops_order, fops, w);
        }
        assert forall|w: Seq<u64>| #[trigger] satisfied_ops(fops, w) implies wire_values(
            w,
            circuit_builder.public_inputs@.subrange(
                old(circuit_builder).public_inputs@.len() + 32 * n,
                old(circuit_builder).public_inputs@.len() + 32 * n + 4,
            ),
        ) == wire_values(w, result.state_root_targets.elements@) by {
            lemma_satisfied_prefix(ops_commit, fops, w);
            assert(circuit_builder.public_inputs@.subrange(
                old(circuit_builder).public_inputs@.len() + 32 * n,
                old(circuit_builder).public_inputs@.len() + 32 * n + 4,
            ) =~= pubs_commit.subrange(pubs_commit.len() - 4, pubs_commit.len() as int));
        }
        assert forall|w: Seq<u64>| #[trigger] satisfied_ops(fops, w) implies transition_holds(
            w,
            result,
            new_intent.intent,
            n as int,
            branch_index as int,
            false,
            direction,
        ) by {
            lemma_satisfied_prefix(ops_sig, fops, w);
            lemma_satisfied_prefix(ops_commit, fops, w);
            lemma_satisfied_prefix(ops_order, fops, w);
            lemma_satisfied_prefix(ops_new, fops, w);
            let nt = result.new_state_hash_targets->Some_0;
            assert forall|t: int| 0 <= t < branch_index implies wire_values(
                w,
                (#[trigger] nt@[t])@,
            ) == wire_values(w, result.state_hash_targets@[t]@) by {
                assert forall|u: int| 0 <= u < 32 implies wire_values(w, nt@[t]@)[u]
                    == wire_values(w, result.state_hash_targets@[t]@)[u] by {
                    assert(w[shifted_leaf_wire(nt@, branch_index as int, t, u)] == w[
                        state_hash_targets@[t]@[u].index as int
                    ]);
                }
                assert(wire_values(w, nt@[t]@) =~= wire_values(
                    w,
                    result.state_hash_targets@[t]@,
                ));
            }
            assert forall|t: int| branch_index <= t < n implies wire_values(
                w,
                (#[trigger] nt@[t + 1])@,
            ) == wire_values(w, result.state_hash_targets@[t]@) by {
                assert forall|u: int| 0 <= u < 32 implies wire_values(w, nt@[t + 1]@)[u]
                    == wire_values(w, result.state_hash_targets@[t]@)[u] by {
                    assert(w[shifted_leaf_wire(nt@, branch_index as int, t, u)] == w[
                        state_hash_targets@[t]@[u].index as int
                    ]);
                }
                assert(wire_values(w, nt@[t + 1]@) =~= wire_values(
                    w,
                    result.state_hash_targets@[t]@,
                ));
            }
        }
    }
    Ok(result)
}

} // verus!
