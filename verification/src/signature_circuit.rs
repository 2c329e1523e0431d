use vstd::prelude::*;
use vstd::utf8::encode_utf8;
use crate::circuit::{
    CircuitBuilder, PartialWitness, Target, copy_targets, is_ecdsa_gate, satisfied_ops,
    wire_bytes, wire_bytes_ok,
};
use crate::error::TypeConversionError;
use crate::hashing::{structured_hash_of, StructuredHashInterface};
use crate::keys::{Message, PublicKey, Signature, ecdsa_verify_ok};
use crate::swap_intent::SwapIntent;

verus! {

/// The wires of the in-circuit ECDSA signature check: byte wires for the
/// message, the public key's coordinates and the signature's two scalars.
pub struct ECDSASignatureCircuitTargets {
    pub message_target: Vec<Target>,
    pub public_key_target: Vec<Target>,
    pub signature_r_target: Vec<Target>,
    pub signature_s_target: Vec<Target>,
}

impl CircuitBuilder {
    /// Allocates wires for a message, a public key and a signature, and
    /// constrains them so that every satisfying witness holds a signature
    /// the ECDSA verifier accepts for that message and key.
    pub fn verify_intent_signature(&mut self) -> (r: ECDSASignatureCircuitTargets)
        requires
            old(self).num_wires + 160 <= usize::MAX,
        ensures
            old(self).ops@.is_prefix_of(final(self).ops@),
            final(self).num_wires == old(self).num_wires + 160,
            final(self).ops@.len() == old(self).ops@.len() + 1,
            is_ecdsa_gate(
                final(self).ops@.last(),
                r.message_target@,
                r.public_key_target@,
                r.signature_r_target@,
                r.signature_s_target@,
            ),
            final(self).public_inputs@ == old(self).public_inputs@,
            final(self).verified_proofs@ == old(self).verified_proofs@,
            r.message_target@.len() == 32,
            r.public_key_target@.len() == 64,
            r.signature_r_target@.len() == 32,
            r.signature_s_target@.len() == 32,
            forall|i: int|
                0 <= i < 32 ==> (#[trigger] r.message_target@[i]).index == old(self).num_wires
                    + i,
            forall|i: int|
                0 <= i < 64 ==> (#[trigger] r.public_key_target@[i]).index == old(self).num_wires
                    + 32 + i,
            forall|i: int|
                0 <= i < 32 ==> (#[trigger] r.signature_r_target@[i]).index == old(
                    self,
                ).num_wires + 96 + i,
            forall|i: int|
                0 <= i < 32 ==> (#[trigger] r.signature_s_target@[i]).index == old(
                    self,
                ).num_wires + 128 + i,
            forall|w: Seq<u64>| #[trigger]
                satisfied_ops(final(self).ops@, w) ==> wire_bytes_ok(w, r.message_target@)
                    && wire_bytes_ok(w, r.public_key_target@) && wire_bytes_ok(
                    w,
                    r.signature_r_target@,
                ) && wire_bytes_ok(w, r.signature_s_target@) && ecdsa_verify_ok(
                    wire_bytes(w, r.message_target@),
                    wire_bytes(w, r.signature_r_target@),
                    wire_bytes(w, r.signature_s_target@),
                    wire_bytes(w, r.public_key_target@),
                ),
    {
        let message_target = self.add_virtual_targets(32);
        let public_key_target = self.add_virtual_targets(64);
        let signature_r_target = self.add_virtual_targets(32);
        let signature_s_target = self.add_virtual_targets(32);
        let m2 = copy_targets(&message_target);
        let p2 = copy_targets(&public_key_target);
        let r2 = copy_targets(&signature_r_target);
        let s2 = copy_targets(&signature_s_target);
        self.ecdsa_verify_gate(m2, p2, r2, s2);
        proof {
            let fops = self.ops@;
            assert forall|w: Seq<u64>| #[trigger] satisfied_ops(fops, w) implies wire_bytes_ok(
                w,
                message_target@,
            ) && wire_bytes_ok(w, public_key_target@) && wire_bytes_ok(w, signature_r_target@)
                && wire_bytes_ok(w, signature_s_target@) && ecdsa_verify_ok(
                wire_bytes(w, message_target@),
                wire_bytes(w, signature_r_target@),
                wire_bytes(w, signature_s_target@),
                wire_bytes(w, public_key_target@),
            ) by {
                assert(crate::circuit::op_holds(w, fops[fops.len() - 1]));
            }
        }
        ECDSASignatureCircuitTargets {
            message_target,
            public_key_target,
            signature_r_target,
            signature_s_target,
        }
    }
}

impl PartialWitness {
    /// Assigns the message's, public key's and signature's bytes to the
    /// gadget's wires, in wire order.
    pub fn verify_signed_intent(
        &mut self,
        message: &Message,
        public_key: &PublicKey,
        signature: &Signature,
        targets: &ECDSASignatureCircuitTargets,
    )
        requires
            message.wf(),
            public_key.wf(),
            signature.wf(),
            targets.message_target@.len() == 32,
            targets.public_key_target@.len() == 64,
            targets.signature_r_target@.len() == 32,
            targets.signature_s_target@.len() == 32,
        ensures
            final(self).assignments@.len() == old(self).assignments@.len() + 160,
            forall|i: int|
                0 <= i < old(self).assignments@.len() ==> final(self).assignments@[i] == old(
                    self,
                ).assignments@[i],
            forall|i: int|
                0 <= i < 32 ==> final(self).assignments@[old(self).assignments@.len() + i] == (
                (#[trigger] targets.message_target@[i]),
                message.bytes_seq()[i] as u64,
                ),
            forall|i: int|
                0 <= i < 64 ==> final(self).assignments@[old(self).assignments@.len() + 32 + i]
                    == ((#[trigger] targets.public_key_target@[i]), public_key.bytes_seq()[i]
                    as u64),
            forall|i: int|
                0 <= i < 32 ==> final(self).assignments@[old(self).assignments@.len() + 96 + i]
                    == ((#[trigger] targets.signature_r_target@[i]), signature.r_seq()[i] as u64),
            forall|i: int|
                0 <= i < 32 ==> final(self).assignments@[old(self).assignments@.len() + 128 + i]
                    == ((#[trigger] targets.signature_s_target@[i]), signature.s_seq()[i] as u64),
    {
        proof {
            crate::keys::lemma_valid_public_key_len(public_key.bytes_seq());
            crate::keys::lemma_valid_secret_key_len(signature.r_seq());
            crate::keys::lemma_valid_secret_key_len(signature.s_seq());
        }
        let message_values = bytes_to_u64s(message.bytes_vec());
        let public_key_values = bytes_to_u64s(public_key.bytes_vec());
        let r_values = bytes_to_u64s(signature.r_bytes_vec());
        let s_values = bytes_to_u64s(signature.s_bytes_vec());
        self.set_targets(&targets.message_target, &message_values);
        self.set_targets(&targets.public_key_target, &public_key_values);
        self.set_targets(&targets.signature_r_target, &r_values);
        self.set_targets(&targets.signature_s_target, &s_values);
    }
}

/// Widens bytes to 64-bit wire values.
pub fn bytes_to_u64s(b: &Vec<u8>) -> (r: Vec<u64>)
    ensures
        r@.len() == b@.len(),
        forall|i: int| 0 <= i < b@.len() ==> r@[i] == b@[i] as u64,
{
    let mut out: Vec<u64> = Vec::new();
    let mut i: usize = 0;
    while i < b.len()
        invariant
            i <= b@.len(),
            out@.len() == i,
            forall|j: int| 0 <= j < i ==> out@[j] == b@[j] as u64,
        decreases b@.len() - i,
    {
        out.push(b[i] as u64);
        i += 1;
    }
    out
}

/// One intent's signature check, ready for a proving backend: the gadget's
/// constraint system, the wires it exposes, and the witness assignment that
/// binds the concrete message, key and signature to them.
pub struct SignatureProofData {
    pub circuit: CircuitBuilder,
    pub witness: PartialWitness,
    pub targets: ECDSASignatureCircuitTargets,
}

/// Builds the signature-check instance for one intent: a fresh constraint
/// system holding the ECDSA gadget over the intent's structured hash, and
/// the witness assignment carrying the given key and signature. Every
/// witness satisfying the instance holds a signature the verifier accepts.
pub fn generate_intent_signature_proof(
    intent: &SwapIntent,
    public_key: &PublicKey,
    signature: &Signature,
) -> (r: Result<SignatureProofData, TypeConversionError>)
    requires
        public_key.wf(),
        signature.wf(),
    ensures
        r matches Ok(d) && {
            &&& d.circuit.num_wires == 160
            &&& d.circuit.ops@.len() == 1
            &&& is_ecdsa_gate(
                d.circuit.ops@.last(),
                d.targets.message_target@,
                d.targets.public_key_target@,
                d.targets.signature_r_target@,
                d.targets.signature_s_target@,
            )
            &&& d.circuit.public_inputs@.len() == 0
            &&& d.circuit.verified_proofs@.len() == 0
            &&& d.targets.message_target@.len() == 32
            &&& d.targets.public_key_target@.len() == 64
            &&& d.targets.signature_r_target@.len() == 32
            &&& d.targets.signature_s_target@.len() == 32
            &&& d.witness.assignments@.len() == 160
            &&& forall|i: int|
                0 <= i < 32 ==> d.witness.assignments@[i] == (
                (#[trigger] d.targets.message_target@[i]),
                structured_hash_of(
                    encode_utf8(SwapIntent::type_encode_spec()),
                    intent.data_encode_spec(),
                )[i] as u64,
                )
            &&& forall|i: int|
                0 <= i < 64 ==> d.witness.assignments@[32 + i] == ((
                #[trigger] d.targets.public_key_target@[i]), public_key.bytes_seq()[i] as u64)
            &&& forall|i: int|
                0 <= i < 32 ==> d.witness.assignments@[96 + i] == ((
                #[trigger] d.targets.signature_r_target@[i]), signature.r_seq()[i] as u64)
            &&& forall|i: int|
                0 <= i < 32 ==> d.witness.assignments@[128 + i] == ((
                #[trigger] d.targets.signature_s_target@[i]), signature.s_seq()[i] as u64)
            &&& forall|w: Seq<u64>| #[trigger]
                satisfied_ops(d.circuit.ops@, w) ==> ecdsa_verify_ok(
                    wire_bytes(w, d.targets.message_target@),
                    wire_bytes(w, d.targets.signature_r_target@),
                    wire_bytes(w, d.targets.signature_s_target@),
                    wire_bytes(w, d.targets.public_key_target@),
                )
        },
{
    let mut circuit_builder = CircuitBuilder::new();
    let mut partial_witness = PartialWitness::new();
    let signature_targets = circuit_builder.verify_intent_signature();
    let digest = intent.structured_hash();
    let message = match Message::from_slice(digest.as_slice()) {
        Ok(m) => m,
        Err(e) => {
            proof {
                assert(false);
            }
            return Err(e);
        },
    };
    partial_witness.verify_signed_intent(&message, public_key, signature, &signature_targets);
    Ok(SignatureProofData {
        circuit: circuit_builder,
        witness: partial_witness,
        targets: signature_targets,
    })
}

} // verus!
