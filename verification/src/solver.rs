use vstd::prelude::*;
use crate::error::CircuitError;
use crate::merkle::{merkle_root_spec, merkle_root, leaf_views};
use crate::swap_intent::SwapDirection;
use crate::transition::{
    IntentSignature, ProofVerifyData, StateTransitionTargets, all_same_direction, all_wf,
    generate_state_transition_circuit, intent_leaf_values, intents_well_ordered,
    pair_ordered, pair_ordered_exec,
};
use crate::circuit::{satisfied_ops, CircuitBuilder};
use crate::hashing::StructuredHashInterface;

verus! {

/// One side of the book is a well-formed, well-ordered sequence of intents
/// that all trade in the side's direction.
pub open spec fn side_wf(intents: Seq<IntentSignature>, d: SwapDirection) -> bool {
    &&& all_wf(intents)
    &&& all_same_direction(intents, d)
    &&& intents_well_ordered(intents, d)
}

/// Struct encapsulating swap intents: ordering of intents is kept on both
/// the buy and the sell side, each sorted by the price-time-priority rule
/// for its direction.
pub struct SwapState {
    pub buy_order_intents: Vec<IntentSignature>,
    pub sell_order_intents: Vec<IntentSignature>,
}

/// Swap state commitments, for buy and sell intents simultaneously: each
/// side's Merkle root over its intents' structured hashes, or nothing for an
/// empty side, which has no meaningful root.
pub struct SwapStateCommitment {
    /// Commitment to the ordered buy intents.
    pub buy_intent_commitment: Option<Vec<u64>>,
    /// Commitment to the ordered sell intents.
    pub sell_intent_commitment: Option<Vec<u64>>,
}

/// The commitment leaves of a side: each intent's structured hash as wire
/// values.
pub open spec fn side_leaves(intents: Seq<IntentSignature>) -> Seq<Seq<u64>> {
    Seq::new(intents.len(), |i: int| intent_leaf_values(intents[i].intent))
}

/// Totality of the pair rule: of any two intents of one side, one may stand
/// before the other.
pub proof fn lemma_pair_ordered_total(d: SwapDirection, p1: nat, a1: nat, p2: nat, a2: nat)
    ensures
        pair_ordered(d, p1, a1, p2, a2) || pair_ordered(d, p2, a2, p1, a1),
{
}

/// Inserts an intent into a sorted side at its priority position and returns
/// that position: intents before it keep their places, intents at or after
/// it shift by one, and the side stays sorted.
#[verifier::rlimit(100)]
#[verifier::spinoff_prover]
fn insert_into_side(side: &mut Vec<IntentSignature>, intent: IntentSignature, d: SwapDirection)
    -> (r: usize)
    requires
        side_wf(old(side)@, d),
        intent.wf(),
        intent.intent.inputs.direction == d,
        old(side)@.len() < usize::MAX,
    ensures
        side_wf(final(side)@, d),
        r <= old(side)@.len(),
        final(side)@.len() == old(side)@.len() + 1,
        final(side)@ == old(side)@.insert(r as int, intent),
{
    let n = side.len();
    let mut i: usize = 0;
    let mut found = false;
    while i < n && !found
        invariant
            i <= n,
            n == side@.len(),
            side_wf(side@, d),
            side@ == old(side)@,
            intent.wf(),
            forall|j: int|
                0 <= j < i ==> pair_ordered(
                    d,
                    (#[trigger] side@[j]).intent.price_spec(),
                    side@[j].intent.amount_spec(),
                    intent.intent.price_spec(),
                    intent.intent.amount_spec(),
                ),
            found ==> i < n && pair_ordered(
                d,
                intent.intent.price_spec(),
                intent.intent.amount_spec(),
                side@[i as int].intent.price_spec(),
                side@[i as int].intent.amount_spec(),
            ),
        decreases n - i + (if found { 0int } else { 1int }),
    {
        if pair_ordered_exec(d, &side[i], &intent) {
            i += 1;
        } else {
            proof {
                lemma_pair_ordered_total(
                    d,
                    side@[i as int].intent.price_spec(),
                    side@[i as int].intent.amount_spec(),
                    intent.intent.price_spec(),
                    intent.intent.amount_spec(),
                );
            }
            found = true;
        }
    }
    let ghost pre = side@;
    side.insert(i, intent);
    proof {
        let post = side@;
        assert(post == pre.insert(i as int, intent));
        assert forall|j: int| 0 <= j < post.len() implies (#[trigger] post[j]).wf()
            && post[j].intent.inputs.direction == d by {
            if j < i {
                assert(post[j] == pre[j]);
            } else if j == i {
            } else {
                assert(post[j] == pre[j - 1]);
            }
        }
        assert forall|j: int| 0 <= j < post.len() - 1 implies pair_ordered(
            d,
            (#[trigger] post[j]).intent.price_spec(),
            post[j].intent.amount_spec(),
            post[j + 1].intent.price_spec(),
            post[j + 1].intent.amount_spec(),
        ) by {
            if j + 1 < i {
                assert(post[j] == pre[j]);
                assert(post[j + 1] == pre[j + 1]);
            } else if j + 1 == i {
                assert(post[j] == pre[j]);
                assert(post[j + 1] == intent);
            } else if j == i {
                assert(post[j] == intent);
                assert(post[j + 1] == pre[j]);
            } else {
                assert(post[j] == pre[j - 1]);
                assert(post[j + 1] == pre[j]);
            }
        }
    }
    i
}

/// A solver holding its local book, one ordered side per direction.
pub struct SwapSolver {
    pub state: SwapState,
}

impl SwapSolver {
    /// Both sides of the held book are well-formed and well-ordered.
    pub open spec fn wf(&self) -> bool {
        &&& side_wf(self.state.buy_order_intents@, SwapDirection::Buy)
        &&& side_wf(self.state.sell_order_intents@, SwapDirection::Sell)
    }

    /// The held buy side.
    pub open spec fn buy_side(&self) -> Seq<IntentSignature> {
        self.state.buy_order_intents@
    }

    /// The held sell side.
    pub open spec fn sell_side(&self) -> Seq<IntentSignature> {
        self.state.sell_order_intents@
    }

    /// A solver with an empty book.
    pub fn new() -> (r: SwapSolver)
        ensures
            r.wf(),
            r.buy_side().len() == 0,
            r.sell_side().len() == 0,
    {
        SwapSolver {
            state: SwapState { buy_order_intents: Vec::new(), sell_order_intents: Vec::new() },
        }
    }

    /// The solver's current book.
    pub fn current_state(&self) -> (r: &SwapState)
        ensures
            r.buy_order_intents@ == self.buy_side(),
            r.sell_order_intents@ == self.sell_side(),
    {
        &self.state
    }

    /// Admits a new intent into the side it trades on, at its priority
    /// position, and returns that position; the side stays sorted.
    #[verifier::rlimit(100)]
    #[verifier::spinoff_prover]
    pub fn execute_on_new_intent(&mut self, intent: IntentSignature) -> (r: usize)
        requires
            old(self).wf(),
            intent.wf(),
            old(self).buy_side().len() < usize::MAX,
            old(self).sell_side().len() < usize::MAX,
        ensures
            final(self).wf(),
            intent.intent.inputs.direction is Buy ==> {
                &&& r <= old(self).buy_side().len()
                &&& final(self).buy_side() == old(self).buy_side().insert(r as int, intent)
                &&& final(self).sell_side() == old(self).sell_side()
            },
            intent.intent.inputs.direction is Sell ==> {
                &&& r <= old(self).sell_side().len()
                &&& final(self).sell_side() == old(self).sell_side().insert(r as int, intent)
                &&& final(self).buy_side() == old(self).buy_side()
            },
    {
        match intent.intent.inputs.direction {
            SwapDirection::Buy => {
                let r = insert_into_side(
                    &mut self.state.buy_order_intents,
                    intent,
                    SwapDirection::Buy,
                );
                proof {
                    assert(side_wf(self.state.buy_order_intents@, SwapDirection::Buy));
                    assert(self.state.sell_order_intents@ == old(
                        self,
                    ).state.sell_order_intents@);
                }
                r
            },
            SwapDirection::Sell => {
                let r = insert_into_side(
                    &mut self.state.sell_order_intents,
                    intent,
                    SwapDirection::Sell,
                );
                proof {
                    assert(side_wf(self.state.sell_order_intents@, SwapDirection::Sell));
                    assert(self.state.buy_order_intents@ == old(self).state.buy_order_intents@);
                }
                r
            },
        }
    }

    /// Commits to the current book: each nonempty side's Merkle root over
    /// its intents' structured hashes, with a zero sentinel; an empty side
    /// has no meaningful root and is rejected with nothing.
    #[verifier::rlimit(100)]
    #[verifier::spinoff_prover]
    pub fn commit_to_current_state(&self) -> (r: SwapStateCommitment)
        requires
            self.wf(),
            self.buy_side().len() < 0x10_0000,
            self.sell_side().len() < 0x10_0000,
        ensures
            match r.buy_intent_commitment {
                Some(root) => self.buy_side().len() >= 1 && root@ == merkle_root_spec(
                    side_leaves(self.buy_side()),
                    0,
                ),
                None => self.buy_side().len() == 0,
            },
            match r.sell_intent_commitment {
                Some(root) => self.sell_side().len() >= 1 && root@ == merkle_root_spec(
                    side_leaves(self.sell_side()),
                    0,
                ),
                None => self.sell_side().len() == 0,
            },
    {
        SwapStateCommitment {
            buy_intent_commitment: commit_to_side(&self.state.buy_order_intents),
            sell_intent_commitment: commit_to_side(&self.state.sell_order_intents),
        }
    }
}

/// Computes one side's commitment: the Merkle root over the intents'
/// structured hashes, or nothing for an empty side.
fn commit_to_side(intents: &Vec<IntentSignature>) -> (r: Option<Vec<u64>>)
    requires
        intents@.len() < 0x10_0000,
    ensures
        match r {
            Some(root) => intents@.len() >= 1 && root@ == merkle_root_spec(
                side_leaves(intents@),
                0,
            ),
            None => intents@.len() == 0,
        },
{
    let n = intents.len();
    if n == 0 {
        return None;
    }
    let mut leaves: Vec<Vec<u64>> = Vec::new();
    let mut i: usize = 0;
    while i < n
        invariant
            i <= n,
            n == intents@.len(),
            n < 0x10_0000,
            leaves@.len() == i,
            forall|j: int|
                0 <= j < i ==> (#[trigger] leaves@[j])@ == intent_leaf_values(
                    intents@[j].intent,
                ) && leaves@[j]@.len() == 32,
        decreases n - i,
    {
        let digest = intents[i].intent.structured_hash();
        let leaf = crate::signature_circuit::bytes_to_u64s(&digest);
        proof {
            assert(leaf@ =~= intent_leaf_values(intents@[i as int].intent));
        }
        leaves.push(leaf);
        i += 1;
    }
    proof {
        assert(leaf_views(leaves@) =~~= side_leaves(intents@));
    }
    let root = merkle_root(leaves, 0);
    Some(root)
}

/// Generates the circuit for one state transition on behalf of a solver,
/// optionally chaining a prior transition's proof.
pub struct SwapSolverCircuitGenerator {
    recursive_proof_data: Option<ProofVerifyData>,
}

impl SwapSolverCircuitGenerator {
    /// A generator for a chain's first transition, with no prior proof.
    pub fn new() -> (r: SwapSolverCircuitGenerator)
        ensures
            r.prior_proof() is None,
    {
        SwapSolverCircuitGenerator { recursive_proof_data: None }
    }

    /// A generator chaining the given prior transition's proof.
    pub fn new_with_recursive_proof_data(recursive_proof_data: ProofVerifyData) -> (r:
        SwapSolverCircuitGenerator)
        ensures
            r.prior_proof() matches Some(p) && p.proof_id == recursive_proof_data.proof_id,
    {
        SwapSolverCircuitGenerator { recursive_proof_data: Some(recursive_proof_data) }
    }

    /// The prior proof this generator chains, if any.
    pub closed spec fn prior_proof(&self) -> Option<ProofVerifyData> {
        self.recursive_proof_data
    }

    /// Builds the transition circuit over the given candidate state, new
    /// intent and branch data, verifying the chained prior proof when one is
    /// held.
    pub fn generate_circuit(
        self,
        circuit_builder: &mut CircuitBuilder,
        new_intent: &IntentSignature,
        new_intent_index: Option<usize>,
        state_intents: &Vec<IntentSignature>,
        matching_intent: Option<(usize, IntentSignature)>,
    ) -> (r: Result<StateTransitionTargets, CircuitError>)
        requires
            all_wf(state_intents@),
            new_intent.wf(),
            state_intents@.len() < 0x10_0000,
            old(circuit_builder).num_wires + 512 * state_intents@.len() + 4096 <= usize::MAX,
        ensures
            r is Err <==> (state_intents@.len() == 0 || (matching_intent is None
                && new_intent_index is None) || (matching_intent matches Some((ind, _)) && ind
                >= state_intents@.len()) || (matching_intent is None && (
            new_intent_index matches Some(ind) && ind > state_intents@.len()))),
            r is Err ==> *final(circuit_builder) == *old(circuit_builder),
            r matches Ok(t) ==> {
                &&& old(circuit_builder).ops@.is_prefix_of(final(circuit_builder).ops@)
                &&& final(circuit_builder).verified_proofs@ == crate::transition::verified_after(
                    old(circuit_builder).verified_proofs@,
                    self.prior_proof(),
                )
                &&& t.state_hash_targets@.len() == state_intents@.len()
                &&& t.state_root_targets.elements@.len() == 4
                &&& forall|w: Seq<u64>| #[trigger]
                    satisfied_ops(final(circuit_builder).ops@, w) ==> all_same_direction(
                        state_intents@,
                        state_intents@[0].intent.inputs.direction,
                    )
                &&& forall|w: Seq<u64>| #[trigger]
                    satisfied_ops(final(circuit_builder).ops@, w)
                        ==> crate::transition::transition_holds(
                        w,
                        t,
                        new_intent.intent,
                        state_intents@.len() as int,
                        (if matching_intent is Some {
                            matching_intent->Some_0.0 as int
                        } else {
                            new_intent_index->Some_0 as int
                        }),
                        matching_intent is Some,
                        state_intents@[0].intent.inputs.direction,
                    )
            },
    {
        generate_state_transition_circuit(
            circuit_builder,
            self.recursive_proof_data,
            new_intent,
            new_intent_index,
            state_intents,
            matching_intent,
        )
    }
}

} // verus!
