use vstd::prelude::*;
use crate::hashing::{structured_hash_of, StructuredHashInterface};
use crate::keys::{ecdsa_sig_of, Message, PrivateKey, Signature};
use crate::swap_intent::{SwapConstraints, SwapInputs, SwapIntent};
use vstd::utf8::encode_utf8;

verus! {

/// Reference enum from a label to the actual computation execution, and a
/// proof generation.
pub enum ExecuteRuntime {
    Swap,
}

/// An order kind the settlement engine can admit: it can be built from its
/// inputs and constraints, signed over its structured hash, and taken apart
/// again.
pub trait Intent: Sized {
    type Inputs;
    type Constraints;

    fn build_intent(
        inputs: Self::Inputs,
        constraints: Self::Constraints,
        execute_runtime: ExecuteRuntime,
    ) -> Self;

    fn sign_intent(&self, private_key: PrivateKey) -> Signature
        requires
            private_key.wf(),
    ;

    fn get_constraints(&self) -> Self::Constraints;

    fn get_inputs(&self) -> Self::Inputs;

    fn get_runtime_execution(&self) -> ExecuteRuntime;
}

impl Intent for SwapIntent {
    type Inputs = SwapInputs;

    type Constraints = SwapConstraints;

    fn build_intent(
        inputs: SwapInputs,
        constraints: SwapConstraints,
        _execute_runtime: ExecuteRuntime,
    ) -> (r: SwapIntent)
        ensures
            r.inputs == inputs,
            r.constraints == constraints,
    {
        SwapIntent { inputs, constraints }
    }

    /// Signs the intent's structured hash; an ill-formed key yields no
    /// signature.
    fn sign_intent(&self, private_key: PrivateKey) -> (r: Signature)
        ensures
            r.wf(),
            (r.r_seq(), r.s_seq()) == ecdsa_sig_of(
                structured_hash_of(
                    encode_utf8(SwapIntent::type_encode_spec()),
                    self.data_encode_spec(),
                ),
                private_key.bytes_seq(),
            ),
    {
        let digest = self.structured_hash();
        let message = Message::new_message(digest);
        private_key.sign_message(&message)
    }

    fn get_constraints(&self) -> (r: SwapConstraints)
        ensures
            r.min_base_token_amount.as_nat() == self.constraints.min_base_token_amount.as_nat(),
            r.min_base_token_amount.wf() == self.constraints.min_base_token_amount.wf(),
    {
        SwapConstraints { min_base_token_amount: self.constraints.min_base_token_amount.clone_num() }
    }

    fn get_inputs(&self) -> (r: SwapInputs)
        ensures
            r.from.as_nat() == self.inputs.from.as_nat(),
            r.quote_token.as_nat() == self.inputs.quote_token.as_nat(),
            r.base_token.as_nat() == self.inputs.base_token.as_nat(),
            r.quote_amount.as_nat() == self.inputs.quote_amount.as_nat(),
            r.direction == self.inputs.direction,
            r.wf() == self.inputs.wf(),
    {
        SwapInputs {
            from: self.inputs.from.clone_num(),
            quote_token: self.inputs.quote_token.clone_num(),
            base_token: self.inputs.base_token.clone_num(),
            quote_amount: self.inputs.quote_amount.clone_num(),
            direction: self.inputs.direction,
        }
    }

    fn get_runtime_execution(&self) -> ExecuteRuntime {
        ExecuteRuntime::Swap
    }
}

} // verus!
