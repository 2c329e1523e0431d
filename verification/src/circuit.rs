use vstd::prelude::*;
use crate::bignum::limbs_nat;
use crate::merkle::{compress_spec, hash_or_noop_spec};
use crate::keys::ecdsa_verify_ok;

verus! {

/// One wire of the constraint system, identified by its index.
#[derive(Clone, Copy, Debug, PartialEq, Eq, Structural)]
pub struct Target {
    pub index: usize,
}

/// A wire constrained, where it is made, to hold zero or one.
#[derive(Clone, Copy, Debug, PartialEq, Eq, Structural)]
pub struct BoolTarget {
    pub target: Target,
}

/// Four wires holding one compression output.
#[derive(Clone, Debug)]
pub struct HashOutTarget {
    pub elements: Vec<Target>,
}

/// Wires carrying a Merkle authentication path: one sibling hash per level.
#[derive(Clone, Debug)]
pub struct MerkleProofTarget {
    pub siblings: Vec<HashOutTarget>,
}

/// One constraint of the abstract constraint system.
pub enum GateOp {
    /// The wire holds the given constant.
    Constant { target: Target, value: u64 },
    /// The two wires hold equal values.
    Connect { a: Target, b: Target },
    /// The four output wires hold the compression of the input wires:
    /// hash-or-noop for a leaf, hash-no-pad otherwise.
    Hash { inputs: Vec<Target>, outputs: Vec<Target>, or_noop: bool },
    /// The limb wires, least significant first, are 32-bit limbs, and the
    /// output holds one exactly when the first big integer is at most the
    /// second.
    CmpLe { lhs: Vec<Target>, rhs: Vec<Target>, out: BoolTarget },
    /// The input is boolean and the output its negation.
    Not { input: BoolTarget, out: BoolTarget },
    /// The condition is boolean and the output holds the first value when the
    /// condition is one, the second otherwise.
    Select { cond: BoolTarget, if_true: Target, if_false: Target, out: Target },
    /// The wire holds zero or one.
    BoolCheck { target: BoolTarget },
    /// The wire holds one.
    AssertTrue { target: BoolTarget },
    /// The byte wires hold a message, a public key and a signature that the
    /// ECDSA verifier accepts.
    EcdsaVerify {
        message: Vec<Target>,
        public_key: Vec<Target>,
        sig_r: Vec<Target>,
        sig_s: Vec<Target>,
    },
    /// The leaf's hash, combined with the sibling hashes along the path given
    /// by the index bits, reaches the root hash.
    MerkleInclusion {
        leaf: Vec<Target>,
        index_bits: Vec<BoolTarget>,
        proof: MerkleProofTarget,
        root: HashOutTarget,
    },
}

/// The values a witness gives to a list of wires.
pub open spec fn wire_values(w: Seq<u64>, ts: Seq<Target>) -> Seq<u64> {
    Seq::new(ts.len(), |i: int| w[ts[i].index as int])
}

/// Every listed wire exists in the witness.
pub open spec fn wires_in_range(w: Seq<u64>, ts: Seq<Target>) -> bool {
    forall|i: int| 0 <= i < ts.len() ==> (#[trigger] ts[i]).index < w.len()
}

/// The wires' values read as bytes; meaningful under `wire_bytes_ok`.
pub open spec fn wire_bytes(w: Seq<u64>, ts: Seq<Target>) -> Seq<u8> {
    Seq::new(ts.len(), |i: int| w[ts[i].index as int] as u8)
}

/// Every listed wire exists and holds a byte value.
pub open spec fn wire_bytes_ok(w: Seq<u64>, ts: Seq<Target>) -> bool {
    wires_in_range(w, ts) && forall|i: int|
        0 <= i < ts.len() ==> w[(#[trigger] ts[i]).index as int] < 256
}

/// The wires' values read as 32-bit limbs; meaningful under `wire_u32s_ok`.
pub open spec fn wire_u32s(w: Seq<u64>, ts: Seq<Target>) -> Seq<u32> {
    Seq::new(ts.len(), |i: int| w[ts[i].index as int] as u32)
}

/// Every listed wire exists and holds a 32-bit value.
pub open spec fn wire_u32s_ok(w: Seq<u64>, ts: Seq<Target>) -> bool {
    wires_in_range(w, ts) && forall|i: int|
        0 <= i < ts.len() ==> w[(#[trigger] ts[i]).index as int] < 0x1_0000_0000
}

/// A boolean wire exists and holds zero or one.
pub open spec fn bool_wire_ok(w: Seq<u64>, b: BoolTarget) -> bool {
    b.target.index < w.len() && w[b.target.index as int] <= 1
}

/// The hash reached from a leaf hash by walking a Merkle path: at each level
/// the current hash is compressed with the sibling, on the side given by the
/// index bit.
pub open spec fn merkle_path_fold(cur: Seq<u64>, bits: Seq<u64>, sibs: Seq<Seq<u64>>) -> Seq<u64>
    decreases sibs.len(),
{
    if sibs.len() == 0 {
        cur
    } else {
        let next = if bits.len() > 0 && bits[0] == 1 {
            compress_spec(sibs[0] + cur)
        } else {
            compress_spec(cur + sibs[0])
        };
        merkle_path_fold(next, bits.drop_first(), sibs.drop_first())
    }
}

/// Whether one constraint holds under a witness.
pub open spec fn op_holds(w: Seq<u64>, op: GateOp) -> bool {
    match op {
        GateOp::Constant { target, value } => target.index < w.len() && w[target.index as int]
            == value,
        GateOp::Connect { a, b } => a.index < w.len() && b.index < w.len() && w[a.index as int]
            == w[b.index as int],
        GateOp::Hash { inputs, outputs, or_noop } => {
            &&& wires_in_range(w, inputs@)
            &&& wires_in_range(w, outputs@)
            &&& wire_values(w, outputs@) == (if or_noop {
                hash_or_noop_spec(wire_values(w, inputs@))
            } else {
                compress_spec(wire_values(w, inputs@))
            })
        },
        GateOp::CmpLe { lhs, rhs, out } => {
            &&& wire_u32s_ok(w, lhs@)
            &&& wire_u32s_ok(w, rhs@)
            &&& bool_wire_ok(w, out)
            &&& w[out.target.index as int] == (if limbs_nat(wire_u32s(w, lhs@)) <= limbs_nat(
                wire_u32s(w, rhs@),
            ) {
                1u64
            } else {
                0u64
            })
        },
        GateOp::Not { input, out } => {
            &&& bool_wire_ok(w, input)
            &&& bool_wire_ok(w, out)
            &&& w[out.target.index as int] == 1 - w[input.target.index as int]
        },
        GateOp::Select { cond, if_true, if_false, out } => {
            &&& bool_wire_ok(w, cond)
            &&& if_true.index < w.len()
            &&& if_false.index < w.len()
            &&& out.index < w.len()
            &&& w[out.index as int] == (if w[cond.target.index as int] == 1 {
                w[if_true.index as int]
            } else {
                w[if_false.index as int]
            })
        },
        GateOp::BoolCheck { target } => bool_wire_ok(w, target),
        GateOp::AssertTrue { target } => target.target.index < w.len() && w[
            target.target.index as int
        ] == 1,
        GateOp::EcdsaVerify { message, public_key, sig_r, sig_s } => {
            &&& wire_bytes_ok(w, message@)
            &&& wire_bytes_ok(w, public_key@)
            &&& wire_bytes_ok(w, sig_r@)
            &&& wire_bytes_ok(w, sig_s@)
            &&& ecdsa_verify_ok(
                wire_bytes(w, message@),
                wire_bytes(w, sig_r@),
                wire_bytes(w, sig_s@),
                wire_bytes(w, public_key@),
            )
        },
        GateOp::MerkleInclusion { leaf, index_bits, proof, root } => {
            &&& wires_in_range(w, leaf@)
            &&& wires_in_range(w, root.elements@)
            &&& (forall|i: int|
                0 <= i < index_bits@.len() ==> bool_wire_ok(w, #[trigger] index_bits@[i]))
            &&& (forall|i: int|
                0 <= i < proof.siblings@.len() ==> wires_in_range(
                    w,
                    (#[trigger] proof.siblings@[i]).elements@,
                ))
            &&& merkle_path_fold(
                hash_or_noop_spec(wire_values(w, leaf@)),
                Seq::new(index_bits@.len(), |i: int| w[index_bits@[i].target.index as int]),
                Seq::new(
                    proof.siblings@.len(),
                    |i: int| wire_values(w, proof.siblings@[i].elements@),
                ),
            ) == wire_values(w, root.elements@)
        },
    }
}

/// Whether a witness satisfies every constraint in a list.
pub open spec fn satisfied_ops(ops: Seq<GateOp>, w: Seq<u64>) -> bool {
    forall|i: int| 0 <= i < ops.len() ==> op_holds(w, #[trigger] ops[i])
}



/// Wire values of in-range wires are unchanged by extending the witness.
pub proof fn lemma_wire_values_extend(w1: Seq<u64>, w2: Seq<u64>, ts: Seq<Target>)
    requires
        w1.is_prefix_of(w2),
        wires_in_range(w1, ts),
    ensures
        wire_values(w2, ts) == wire_values(w1, ts),
        wire_u32s(w2, ts) == wire_u32s(w1, ts),
        wire_bytes(w2, ts) == wire_bytes(w1, ts),
        wires_in_range(w2, ts),
        forall|i: int|
            0 <= i < ts.len() ==> w2[(#[trigger] ts[i]).index as int] == w1[ts[i].index as int],
{
    assert(wire_values(w2, ts) =~= wire_values(w1, ts));
    assert(wire_u32s(w2, ts) =~= wire_u32s(w1, ts));
    assert(wire_bytes(w2, ts) =~= wire_bytes(w1, ts));
}

/// A constraint that holds under a witness still holds under any extension
/// of it: every wire it reads keeps its value.
pub proof fn lemma_op_holds_extend(w1: Seq<u64>, w2: Seq<u64>, op: GateOp)
    requires
        w1.is_prefix_of(w2),
        op_holds(w1, op),
    ensures
        op_holds(w2, op),
{
    match op {
        GateOp::Constant { target, value } => {},
        GateOp::Connect { a, b } => {},
        GateOp::Hash { inputs, outputs, or_noop } => {
            lemma_wire_values_extend(w1, w2, inputs@);
            lemma_wire_values_extend(w1, w2, outputs@);
        },
        GateOp::CmpLe { lhs, rhs, out } => {
            lemma_wire_values_extend(w1, w2, lhs@);
            lemma_wire_values_extend(w1, w2, rhs@);
        },
        GateOp::Not { input, out } => {},
        GateOp::Select { cond, if_true, if_false, out } => {},
        GateOp::BoolCheck { target } => {},
        GateOp::AssertTrue { target } => {},
        GateOp::EcdsaVerify { message, public_key, sig_r, sig_s } => {
            lemma_wire_values_extend(w1, w2, message@);
            lemma_wire_values_extend(w1, w2, public_key@);
            lemma_wire_values_extend(w1, w2, sig_r@);
            lemma_wire_values_extend(w1, w2, sig_s@);
        },
        GateOp::MerkleInclusion { leaf, index_bits, proof, root } => {
            lemma_wire_values_extend(w1, w2, leaf@);
            lemma_wire_values_extend(w1, w2, root.elements@);
            assert forall|i: int|
                0 <= i < proof.siblings@.len() implies wire_values(
                w2,
                (#[trigger] proof.siblings@[i]).elements@,
            ) == wire_values(w1, proof.siblings@[i].elements@) by {
                lemma_wire_values_extend(w1, w2, proof.siblings@[i].elements@);
            }
            assert(Seq::new(
                index_bits@.len(),
                |i: int| w2[index_bits@[i].target.index as int],
            ) =~= Seq::new(index_bits@.len(), |i: int| w1[index_bits@[i].target.index as int]));
            assert(Seq::new(
                proof.siblings@.len(),
                |i: int| wire_values(w2, proof.siblings@[i].elements@),
            ) =~= Seq::new(
                proof.siblings@.len(),
                |i: int| wire_values(w1, proof.siblings@[i].elements@),
            ));
        },
    }
}

/// Prefix-of is transitive.
pub proof fn lemma_prefix_trans(a: Seq<GateOp>, b: Seq<GateOp>, c: Seq<GateOp>)
    requires
        a.is_prefix_of(b),
        b.is_prefix_of(c),
    ensures
        a.is_prefix_of(c),
{
    assert(a =~= c.subrange(0, a.len() as int));
}

/// A witness satisfying a list of constraints satisfies every prefix of it.
pub proof fn lemma_satisfied_prefix(ops1: Seq<GateOp>, ops2: Seq<GateOp>, w: Seq<u64>)
    requires
        ops1.is_prefix_of(ops2),
        satisfied_ops(ops2, w),
    ensures
        satisfied_ops(ops1, w),
{
    assert forall|i: int| 0 <= i < ops1.len() implies op_holds(w, #[trigger] ops1[i]) by {
        assert(ops1[i] == ops2[i]);
    }
}

/// The last constraint is a hash gate with the given wires.
pub open spec fn is_hash_gate(op: GateOp, inputs: Seq<Target>, outputs: Seq<Target>, or_noop: bool)
    -> bool {
    match op {
        GateOp::Hash { inputs: gi, outputs: go, or_noop: gn } => gi@ == inputs && go@ == outputs
            && gn == or_noop,
        _ => false,
    }
}

/// The constraint is a comparison gate with the given wires.
pub open spec fn is_cmp_gate(op: GateOp, lhs: Seq<Target>, rhs: Seq<Target>, out: BoolTarget)
    -> bool {
    match op {
        GateOp::CmpLe { lhs: gl, rhs: gr, out: go } => gl@ == lhs && gr@ == rhs && go == out,
        _ => false,
    }
}

/// The constraint is an ECDSA verification gate with the given wires.
pub open spec fn is_ecdsa_gate(
    op: GateOp,
    message: Seq<Target>,
    public_key: Seq<Target>,
    sig_r: Seq<Target>,
    sig_s: Seq<Target>,
) -> bool {
    match op {
        GateOp::EcdsaVerify { message: gm, public_key: gp, sig_r: gr, sig_s: gs } => gm@ == message
            && gp@ == public_key && gr@ == sig_r && gs@ == sig_s,
        _ => false,
    }
}

/// The constraint is a Merkle inclusion gate with the given wires.
pub open spec fn is_merkle_gate(
    op: GateOp,
    leaf: Seq<Target>,
    index_bits: Seq<BoolTarget>,
    siblings: Seq<Seq<Target>>,
    root: Seq<Target>,
) -> bool {
    match op {
        GateOp::MerkleInclusion { leaf: gl, index_bits: gb, proof: gp, root: gr } => {
            &&& gl@ == leaf
            &&& gb@ == index_bits
            &&& gp.siblings@.len() == siblings.len()
            &&& (forall|i: int|
                0 <= i < siblings.len() ==> (#[trigger] gp.siblings@[i]).elements@ == siblings[i])
            &&& gr.elements@ == root
        },
        _ => false,
    }
}

/// The abstract constraint system under construction: wires are indices, and
/// each emitted constraint is recorded in order. The backend out of scope
/// here would lower this description to its own gates.
pub struct CircuitBuilder {
    /// How many wires exist; wire indices below this count are in use.
    pub num_wires: usize,
    /// The constraints emitted so far, in order.
    pub ops: Vec<GateOp>,
    /// The wires registered as public inputs, in registration order, which
    /// fixes the public-input layout.
    pub public_inputs: Vec<Target>,
    /// The proofs scheduled for in-circuit verification, by caller-chosen
    /// identifier.
    pub verified_proofs: Vec<u64>,
}

impl CircuitBuilder {
    /// An empty circuit.
    pub fn new() -> (r: CircuitBuilder)
        ensures
            r.num_wires == 0,
            r.ops@ =~= Seq::<GateOp>::empty(),
            r.public_inputs@ =~= Seq::<Target>::empty(),
            r.verified_proofs@ =~= Seq::<u64>::empty(),
    {
        CircuitBuilder {
            num_wires: 0,
            ops: Vec::new(),
            public_inputs: Vec::new(),
            verified_proofs: Vec::new(),
        }
    }

    /// Allocates one fresh wire.
    pub fn add_virtual_target(&mut self) -> (r: Target)
        requires
            old(self).num_wires < usize::MAX,
        ensures
            final(self).num_wires == old(self).num_wires + 1,
            final(self).ops@ == old(self).ops@,
            final(self).public_inputs@ == old(self).public_inputs@,
            final(self).verified_proofs@ == old(self).verified_proofs@,
            r.index == old(self).num_wires,
    {
        let t = Target { index: self.num_wires };
        self.num_wires = self.num_wires + 1;
        t
    }

    /// Allocates `n` fresh wires.
    pub fn add_virtual_targets(&mut self, n: usize) -> (r: Vec<Target>)
        requires
            old(self).num_wires + n <= usize::MAX,
        ensures
            final(self).num_wires == old(self).num_wires + n,
            final(self).ops@ == old(self).ops@,
            final(self).public_inputs@ == old(self).public_inputs@,
            final(self).verified_proofs@ == old(self).verified_proofs@,
            r@.len() == n,
            forall|i: int| 0 <= i < n ==> (#[trigger] r@[i]).index == old(self).num_wires + i,
    {
        let mut out: Vec<Target> = Vec::new();
        let mut i: usize = 0;
        while i < n
            invariant
                i <= n,
                old(self).num_wires + n <= usize::MAX,
                self.num_wires == old(self).num_wires + i,
                self.ops@ == old(self).ops@,
                self.public_inputs@ == old(self).public_inputs@,
                self.verified_proofs@ == old(self).verified_proofs@,
                out@.len() == i,
                forall|j: int|
                    0 <= j < i ==> (#[trigger] out@[j]).index == old(self).num_wires + j,
            decreases n - i,
        {
            let t = self.add_virtual_target();
            out.push(t);
            i += 1;
        }
        out
    }

    /// Allocates the limb wires of one big-integer value of the given
    /// limb count.
    pub fn add_virtual_biguint_target(&mut self, num_limbs: usize) -> (r: Vec<Target>)
        requires
            old(self).num_wires + num_limbs <= usize::MAX,
        ensures
            final(self).num_wires == old(self).num_wires + num_limbs,
            final(self).ops@ == old(self).ops@,
            final(self).public_inputs@ == old(self).public_inputs@,
            final(self).verified_proofs@ == old(self).verified_proofs@,
            r@.len() == num_limbs,
            forall|i: int|
                0 <= i < num_limbs ==> (#[trigger] r@[i]).index == old(self).num_wires + i,
    {
        self.add_virtual_targets(num_limbs)
    }

    /// Allocates a wire pinned to a constant.
    pub fn constant(&mut self, value: u64) -> (r: Target)
        requires
            old(self).num_wires < usize::MAX,
        ensures
            final(self).num_wires == old(self).num_wires + 1,
            final(self).ops@ == old(self).ops@.push(GateOp::Constant { target: r, value }),
            final(self).public_inputs@ == old(self).public_inputs@,
            final(self).verified_proofs@ == old(self).verified_proofs@,
            r.index == old(self).num_wires,
    {
        let t = self.add_virtual_target();
        self.ops.push(GateOp::Constant { target: t, value });
        t
    }

    /// Allocates a wire pinned to zero.
    pub fn zero(&mut self) -> (r: Target)
        requires
            old(self).num_wires < usize::MAX,
        ensures
            final(self).num_wires == old(self).num_wires + 1,
            final(self).ops@ == old(self).ops@.push(GateOp::Constant { target: r, value: 0 }),
            final(self).public_inputs@ == old(self).public_inputs@,
            final(self).verified_proofs@ == old(self).verified_proofs@,
            r.index == old(self).num_wires,
    {
        self.constant(0)
    }

    /// Allocates a boolean wire pinned to a constant bit.
    pub fn constant_bool(&mut self, b: bool) -> (r: BoolTarget)
        requires
            old(self).num_wires < usize::MAX,
        ensures
            final(self).num_wires == old(self).num_wires + 1,
            final(self).ops@ == old(self).ops@.push(
                GateOp::Constant { target: r.target, value: if b { 1 } else { 0 } },
            ),
            final(self).public_inputs@ == old(self).public_inputs@,
            final(self).verified_proofs@ == old(self).verified_proofs@,
            r.target.index == old(self).num_wires,
    {
        let t = self.constant(if b { 1 } else { 0 });
        BoolTarget { target: t }
    }

    /// Allocates a boolean wire pinned to one.
    pub fn _true(&mut self) -> (r: BoolTarget)
        requires
            old(self).num_wires < usize::MAX,
        ensures
            final(self).num_wires == old(self).num_wires + 1,
            final(self).ops@ == old(self).ops@.push(
                GateOp::Constant { target: r.target, value: 1 },
            ),
            final(self).public_inputs@ == old(self).public_inputs@,
            final(self).verified_proofs@ == old(self).verified_proofs@,
            r.target.index == old(self).num_wires,
    {
        self.constant_bool(true)
    }

    /// Allocates a boolean wire pinned to zero.
    pub fn _false(&mut self) -> (r: BoolTarget)
        requires
            old(self).num_wires < usize::MAX,
        ensures
            final(self).num_wires == old(self).num_wires + 1,
            final(self).ops@ == old(self).ops@.push(
                GateOp::Constant { target: r.target, value: 0 },
            ),
            final(self).public_inputs@ == old(self).public_inputs@,
            final(self).verified_proofs@ == old(self).verified_proofs@,
            r.target.index == old(self).num_wires,
    {
        self.constant_bool(false)
    }

    /// Allocates a fresh wire constrained to hold zero or one.
    pub fn add_virtual_bool_target_safe(&mut self) -> (r: BoolTarget)
        requires
            old(self).num_wires < usize::MAX,
        ensures
            final(self).num_wires == old(self).num_wires + 1,
            final(self).ops@ == old(self).ops@.push(GateOp::BoolCheck { target: r }),
            final(self).public_inputs@ == old(self).public_inputs@,
            final(self).verified_proofs@ == old(self).verified_proofs@,
            r.target.index == old(self).num_wires,
    {
        let t = self.add_virtual_target();
        let b = BoolTarget { target: t };
        self.ops.push(GateOp::BoolCheck { target: b });
        b
    }

    /// Constrains the negation of a boolean wire onto a fresh wire.
    pub fn not(&mut self, input: BoolTarget) -> (r: BoolTarget)
        requires
            old(self).num_wires < usize::MAX,
        ensures
            final(self).num_wires == old(self).num_wires + 1,
            final(self).ops@ == old(self).ops@.push(GateOp::Not { input, out: r }),
            final(self).public_inputs@ == old(self).public_inputs@,
            final(self).verified_proofs@ == old(self).verified_proofs@,
            r.target.index == old(self).num_wires,
    {
        let t = self.add_virtual_target();
        let b = BoolTarget { target: t };
        self.ops.push(GateOp::Not { input, out: b });
        b
    }

    /// Constrains a fresh wire to the boolean selection between two wires.
    pub fn _if(&mut self, cond: BoolTarget, if_true: Target, if_false: Target) -> (r: Target)
        requires
            old(self).num_wires < usize::MAX,
        ensures
            final(self).num_wires == old(self).num_wires + 1,
            final(self).ops@ == old(self).ops@.push(
                GateOp::Select { cond, if_true, if_false, out: r },
            ),
            final(self).public_inputs@ == old(self).public_inputs@,
            final(self).verified_proofs@ == old(self).verified_proofs@,
            r.index == old(self).num_wires,
    {
        let t = self.add_virtual_target();
        self.ops.push(GateOp::Select { cond, if_true, if_false, out: t });
        t
    }

    /// Constrains two wires to hold equal values.
    pub fn connect(&mut self, a: Target, b: Target)
        ensures
            final(self).num_wires == old(self).num_wires,
            final(self).ops@ == old(self).ops@.push(GateOp::Connect { a, b }),
            final(self).public_inputs@ == old(self).public_inputs@,
            final(self).verified_proofs@ == old(self).verified_proofs@,
    {
        self.ops.push(GateOp::Connect { a, b });
    }

    /// Constrains a boolean wire to hold one.
    pub fn assert_true(&mut self, b: BoolTarget)
        ensures
            final(self).num_wires == old(self).num_wires,
            final(self).ops@ == old(self).ops@.push(GateOp::AssertTrue { target: b }),
            final(self).public_inputs@ == old(self).public_inputs@,
            final(self).verified_proofs@ == old(self).verified_proofs@,
    {
        self.ops.push(GateOp::AssertTrue { target: b });
    }

    /// Registers a wire as the next public input.
    pub fn register_public_input(&mut self, t: Target)
        ensures
            final(self).num_wires == old(self).num_wires,
            final(self).ops@ == old(self).ops@,
            final(self).public_inputs@ == old(self).public_inputs@.push(t),
            final(self).verified_proofs@ == old(self).verified_proofs@,
    {
        self.public_inputs.push(t);
    }

    /// Registers a list of wires as the next public inputs, in order.
    pub fn register_public_inputs(&mut self, ts: &Vec<Target>)
        ensures
            final(self).num_wires == old(self).num_wires,
            final(self).ops@ == old(self).ops@,
            final(self).public_inputs@ == old(self).public_inputs@ + ts@,
            final(self).verified_proofs@ == old(self).verified_proofs@,
    {
        let mut i: usize = 0;
        while i < ts.len()
            invariant
                i <= ts@.len(),
                self.num_wires == old(self).num_wires,
                self.ops@ == old(self).ops@,
                self.public_inputs@ == old(self).public_inputs@ + ts@.subrange(0, i as int),
                self.verified_proofs@ == old(self).verified_proofs@,
            decreases ts@.len() - i,
        {
            proof {
                assert((old(self).public_inputs@ + ts@.subrange(0, i as int)).push(ts@[i as int])
                    =~= old(self).public_inputs@ + ts@.subrange(0, i + 1));
            }
            self.register_public_input(ts[i]);
            i += 1;
        }
        proof {
            assert(ts@.subrange(0, ts@.len() as int) =~= ts@);
        }
    }

    /// Allocates four fresh wires for one hash value.
    pub fn add_virtual_hash(&mut self) -> (r: HashOutTarget)
        requires
            old(self).num_wires + 4 <= usize::MAX,
        ensures
            final(self).num_wires == old(self).num_wires + 4,
            final(self).ops@ == old(self).ops@,
            final(self).public_inputs@ == old(self).public_inputs@,
            final(self).verified_proofs@ == old(self).verified_proofs@,
            r.elements@.len() == 4,
            forall|i: int|
                0 <= i < 4 ==> (#[trigger] r.elements@[i]).index == old(self).num_wires + i,
    {
        let elements = self.add_virtual_targets(4);
        HashOutTarget { elements }
    }

    /// Allocates `n` fresh hash values' wires.
    pub fn add_virtual_hashes(&mut self, n: usize) -> (r: Vec<HashOutTarget>)
        requires
            old(self).num_wires + 4 * n <= usize::MAX,
        ensures
            final(self).num_wires == old(self).num_wires + 4 * n,
            final(self).ops@ == old(self).ops@,
            final(self).public_inputs@ == old(self).public_inputs@,
            final(self).verified_proofs@ == old(self).verified_proofs@,
            r@.len() == n,
            forall|i: int| 0 <= i < n ==> (#[trigger] r@[i]).elements@.len() == 4,
    {
        let mut out: Vec<HashOutTarget> = Vec::new();
        let mut i: usize = 0;
        while i < n
            invariant
                i <= n,
                old(self).num_wires + 4 * n <= usize::MAX,
                self.num_wires == old(self).num_wires + 4 * i,
                self.ops@ == old(self).ops@,
                self.public_inputs@ == old(self).public_inputs@,
                self.verified_proofs@ == old(self).verified_proofs@,
                out@.len() == i,
                forall|j: int| 0 <= j < i ==> (#[trigger] out@[j]).elements@.len() == 4,
            decreases n - i,
        {
            let h = self.add_virtual_hash();
            out.push(h);
            i += 1;
        }
        out
    }

    /// Emits a hash-or-noop constraint over the input wires onto four fresh
    /// output wires.
    pub fn hash_or_noop(&mut self, inputs: Vec<Target>) -> (r: HashOutTarget)
        requires
            old(self).num_wires + 4 <= usize::MAX,
        ensures
            final(self).num_wires == old(self).num_wires + 4,
            final(self).ops@.len() == old(self).ops@.len() + 1,
            old(self).ops@.is_prefix_of(final(self).ops@),
            is_hash_gate(final(self).ops@.last(), inputs@, r.elements@, true),
            final(self).public_inputs@ == old(self).public_inputs@,
            final(self).verified_proofs@ == old(self).verified_proofs@,
            r.elements@.len() == 4,
    {
        self.hash_gate(inputs, true)
    }

    /// Emits a hash-no-pad constraint over the input wires onto four fresh
    /// output wires.
    pub fn hash_n_to_hash_no_pad(&mut self, inputs: Vec<Target>) -> (r: HashOutTarget)
        requires
            old(self).num_wires + 4 <= usize::MAX,
        ensures
            final(self).num_wires == old(self).num_wires + 4,
            final(self).ops@.len() == old(self).ops@.len() + 1,
            old(self).ops@.is_prefix_of(final(self).ops@),
            is_hash_gate(final(self).ops@.last(), inputs@, r.elements@, false),
            final(self).public_inputs@ == old(self).public_inputs@,
            final(self).verified_proofs@ == old(self).verified_proofs@,
            r.elements@.len() == 4,
    {
        self.hash_gate(inputs, false)
    }

    fn hash_gate(&mut self, inputs: Vec<Target>, or_noop: bool) -> (r: HashOutTarget)
        requires
            old(self).num_wires + 4 <= usize::MAX,
        ensures
            final(self).num_wires == old(self).num_wires + 4,
            final(self).ops@.len() == old(self).ops@.len() + 1,
            old(self).ops@.is_prefix_of(final(self).ops@),
            is_hash_gate(final(self).ops@.last(), inputs@, r.elements@, or_noop),
            final(self).public_inputs@ == old(self).public_inputs@,
            final(self).verified_proofs@ == old(self).verified_proofs@,
            r.elements@.len() == 4,
    {
        let outputs = self.add_virtual_targets(4);
        let out_copy = copy_targets(&outputs);
        self.ops.push(GateOp::Hash { inputs, outputs, or_noop });
        HashOutTarget { elements: out_copy }
    }

    /// Emits a big-integer comparison constraint over two limb-wire vectors
    /// onto a fresh boolean wire, which holds one exactly when the first is
    /// at most the second.
    pub fn cmp_biguint(&mut self, lhs: &Vec<Target>, rhs: &Vec<Target>) -> (r: BoolTarget)
        requires
            old(self).num_wires < usize::MAX,
        ensures
            final(self).num_wires == old(self).num_wires + 1,
            final(self).ops@.len() == old(self).ops@.len() + 1,
            old(self).ops@.is_prefix_of(final(self).ops@),
            is_cmp_gate(final(self).ops@.last(), lhs@, rhs@, r),
            final(self).public_inputs@ == old(self).public_inputs@,
            final(self).verified_proofs@ == old(self).verified_proofs@,
            r.target.index == old(self).num_wires,
    {
        let t = self.add_virtual_target();
        let b = BoolTarget { target: t };
        let lhs_copy = copy_targets(lhs);
        let rhs_copy = copy_targets(rhs);
        self.ops.push(GateOp::CmpLe { lhs: lhs_copy, rhs: rhs_copy, out: b });
        b
    }

    /// Emits an ECDSA verification constraint over byte wires for the
    /// message, the public key's coordinates and the signature's scalars.
    pub fn ecdsa_verify_gate(
        &mut self,
        message: Vec<Target>,
        public_key: Vec<Target>,
        sig_r: Vec<Target>,
        sig_s: Vec<Target>,
    )
        ensures
            final(self).num_wires == old(self).num_wires,
            final(self).ops@.len() == old(self).ops@.len() + 1,
            old(self).ops@.is_prefix_of(final(self).ops@),
            is_ecdsa_gate(final(self).ops@.last(), message@, public_key@, sig_r@, sig_s@),
            final(self).public_inputs@ == old(self).public_inputs@,
            final(self).verified_proofs@ == old(self).verified_proofs@,
    {
        self.ops.push(GateOp::EcdsaVerify { message, public_key, sig_r, sig_s });
    }

    /// Emits a Merkle inclusion constraint: the leaf's hash walks the path of
    /// sibling hashes, on the sides given by the index bits, to the root.
    pub fn verify_merkle_proof(
        &mut self,
        leaf: Vec<Target>,
        index_bits: Vec<BoolTarget>,
        root: HashOutTarget,
        proof: MerkleProofTarget,
    )
        ensures
            final(self).num_wires == old(self).num_wires,
            final(self).ops@.len() == old(self).ops@.len() + 1,
            old(self).ops@.is_prefix_of(final(self).ops@),
            is_merkle_gate(
                final(self).ops@.last(),
                leaf@,
                index_bits@,
                Seq::new(proof.siblings@.len(), |i: int| proof.siblings@[i].elements@),
                root.elements@,
            ),
            final(self).public_inputs@ == old(self).public_inputs@,
            final(self).verified_proofs@ == old(self).verified_proofs@,
            forall|w: Seq<u64>| #[trigger]
                satisfied_ops(final(self).ops@, w) ==> merkle_path_fold(
                    hash_or_noop_spec(wire_values(w, leaf@)),
                    Seq::new(index_bits@.len(), |i: int| w[index_bits@[i].target.index as int]),
                    Seq::new(
                        proof.siblings@.len(),
                        |i: int| wire_values(w, proof.siblings@[i].elements@),
                    ),
                ) == wire_values(w, root.elements@),
    {
        self.ops.push(GateOp::MerkleInclusion { leaf, index_bits, proof, root });
        proof {
            let fops = self.ops@;
            assert forall|w: Seq<u64>| #[trigger] satisfied_ops(fops, w) implies merkle_path_fold(
                hash_or_noop_spec(wire_values(w, leaf@)),
                Seq::new(index_bits@.len(), |i: int| w[index_bits@[i].target.index as int]),
                Seq::new(
                    proof.siblings@.len(),
                    |i: int| wire_values(w, proof.siblings@[i].elements@),
                ),
            ) == wire_values(w, root.elements@) by {
                assert(op_holds(w, fops[fops.len() - 1]));
            }
        }
    }

    /// Schedules a prior proof for in-circuit verification; the recursive
    /// check itself belongs to the backend out of scope here.
    pub fn verify_proof(&mut self, proof_id: u64)
        ensures
            final(self).num_wires == old(self).num_wires,
            final(self).ops@ == old(self).ops@,
            final(self).public_inputs@ == old(self).public_inputs@,
            final(self).verified_proofs@ == old(self).verified_proofs@.push(proof_id),
    {
        self.verified_proofs.push(proof_id);
    }
}

/// Copies a list of wires.
pub fn copy_targets(v: &Vec<Target>) -> (r: Vec<Target>)
    ensures
        r@ == v@,
{
    let mut out: Vec<Target> = Vec::new();
    let mut i: usize = 0;
    while i < v.len()
        invariant
            i <= v@.len(),
            out@ == v@.subrange(0, i as int),
        decreases v@.len() - i,
    {
        proof {
            assert(out@.push(v@[i as int]) =~= v@.subrange(0, i + 1));
        }
        out.push(v[i]);
        i += 1;
    }
    proof {
        assert(out@ =~= v@);
    }
    out
}

/// A partial assignment of witness values to wires, recorded in order.
pub struct PartialWitness {
    /// The assignments made so far.
    pub assignments: Vec<(Target, u64)>,
}

impl PartialWitness {
    /// An empty assignment.
    pub fn new() -> (r: PartialWitness)
        ensures
            r.assignments@ =~= Seq::<(Target, u64)>::empty(),
    {
        PartialWitness { assignments: Vec::new() }
    }

    /// Assigns one value to one wire.
    pub fn set_target(&mut self, t: Target, value: u64)
        ensures
            final(self).assignments@ == old(self).assignments@.push((t, value)),
    {
        self.assignments.push((t, value));
    }

    /// Assigns a value to each wire of a list, in order.
    pub fn set_targets(&mut self, ts: &Vec<Target>, values: &Vec<u64>)
        requires
            ts@.len() == values@.len(),
        ensures
            final(self).assignments@.len() == old(self).assignments@.len() + ts@.len(),
            forall|i: int|
                0 <= i < old(self).assignments@.len() ==> final(self).assignments@[i] == old(
                    self,
                ).assignments@[i],
            forall|i: int|
                0 <= i < ts@.len() ==> final(self).assignments@[old(self).assignments@.len() + i]
                    == (ts@[i], values@[i]),
    {
        let mut i: usize = 0;
        while i < ts.len()
            invariant
                i <= ts@.len(),
                ts@.len() == values@.len(),
                self.assignments@.len() == old(self).assignments@.len() + i,
                forall|j: int|
                    0 <= j < old(self).assignments@.len() ==> self.assignments@[j] == old(
                        self,
                    ).assignments@[j],
                forall|j: int|
                    0 <= j < i ==> self.assignments@[old(self).assignments@.len() + j] == (
                    ts@[j],
                    values@[j],
                    ),
            decreases ts@.len() - i,
        {
            self.set_target(ts[i], values[i]);
            i += 1;
        }
    }

    /// Whether a total witness agrees with every recorded assignment.
    pub open spec fn consistent_with(&self, w: Seq<u64>) -> bool {
        forall|i: int|
            0 <= i < self.assignments@.len() ==> {
                let (t, v) = #[trigger] self.assignments@[i];
                t.index < w.len() && w[t.index as int] == v
            }
    }
}

} // verus!
