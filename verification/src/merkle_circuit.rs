use vstd::prelude::*;
use vstd::arithmetic::power2::pow2;
use crate::circuit::{
    CircuitBuilder, GateOp, HashOutTarget, Target, copy_targets, is_hash_gate,
    lemma_satisfied_prefix, satisfied_ops, wire_values,
};
use crate::merkle::{
    floor_log2, hash_or_noop_spec, is_pow2, lemma_floor_log2_bounds, lemma_is_pow2_halves,
    lemma_pad_pow2_identity, lemma_pad_structure, lemma_pow2_is_pow2, level_up, merkle_root_spec,
    pad_spec, root_spec,
};

verus! {

/// The values a witness gives to each leaf's wire vector.
pub open spec fn target_leaf_values(w: Seq<u64>, tss: Seq<Vec<Target>>) -> Seq<Seq<u64>> {
    Seq::new(tss.len(), |i: int| wire_values(w, tss[i]@))
}

/// The values a witness gives to each hash target.
pub open spec fn hash_target_values(w: Seq<u64>, hs: Seq<HashOutTarget>) -> Seq<Seq<u64>> {
    Seq::new(hs.len(), |i: int| wire_values(w, hs[i].elements@))
}

/// The length a leaf list has after power-of-two padding.
pub open spec fn padded_len(n: nat) -> nat {
    if is_pow2(n) {
        n
    } else {
        pow2(floor_log2(n) + 1)
    }
}

pub proof fn lemma_padded_len_bounds(n: nat)
    requires
        n >= 1,
    ensures
        n <= padded_len(n) <= 2 * n,
        is_pow2(padded_len(n)),
{
    if is_pow2(n) {
    } else {
        lemma_floor_log2_bounds(n);
        vstd::arithmetic::power2::lemma_pow2_adds(1, floor_log2(n));
        vstd::arithmetic::power2::lemma2_to64();
        lemma_pow2_is_pow2(floor_log2(n) + 1);
    }
}


/// The count of doublings that first reaches a list's length is exactly the
/// height of the padded tree: the authentication path of one leaf holds one
/// sibling hash per level.
pub proof fn lemma_doubling_count_is_padded_height(n: nat, k: nat)
    requires
        n >= 1,
        pow2(k) >= n,
        k == 0 ==> n == 1,
        k >= 1 ==> pow2((k - 1) as nat) < n,
    ensures
        k == floor_log2(padded_len(n)),
{
    lemma_floor_log2_bounds(n);
    let f = floor_log2(n);
    if is_pow2(n) {
        assert(padded_len(n) == n);
        if k < f {
            vstd::arithmetic::power2::lemma_pow2_strictly_increases(k, f);
            assert(false);
        }
        if k > f {
            if (k - 1) as nat > f {
                vstd::arithmetic::power2::lemma_pow2_strictly_increases(f, (k - 1) as nat);
            }
            assert(pow2((k - 1) as nat) >= pow2(f));
            assert(false);
        }
    } else {
        assert(padded_len(n) == pow2(f + 1));
        vstd::arithmetic::power2::lemma_pow2_strictly_increases(f + 1, f + 2);
        crate::merkle::lemma_floor_log2_unique(pow2(f + 1), f + 1);
        assert(n != pow2(f));
        if k < f {
            vstd::arithmetic::power2::lemma_pow2_strictly_increases(k, f);
            assert(false);
        }
        if k == f {
            assert(false);
        }
        if k > f + 1 {
            if (k - 1) as nat > f + 1 {
                vstd::arithmetic::power2::lemma_pow2_strictly_increases(f + 1, (k - 1) as nat);
            }
            assert(pow2((k - 1) as nat) >= pow2(f + 1));
            assert(false);
        }
    }
}

impl CircuitBuilder {
    /// Extends a list of leaf wire vectors to a power-of-two length: one leaf
    /// pinned to the original length is appended, then the sentinel wire
    /// fills the rest. Under every satisfying witness the padded leaves'
    /// values are exactly the padding of the original leaves' values.
    pub fn extend_targets_to_power_of_two(
        &mut self,
        targets: Vec<Vec<Target>>,
        to_extend_target: Target,
    ) -> (r: Vec<Vec<Target>>)
        requires
            1 <= targets@.len() < 0x1000_0000,
            old(self).num_wires < usize::MAX,
        ensures
            old(self).ops@.is_prefix_of(final(self).ops@),
            final(self).num_wires <= old(self).num_wires + 1,
            final(self).public_inputs@ == old(self).public_inputs@,
            final(self).verified_proofs@ == old(self).verified_proofs@,
            r@.len() == padded_len(targets@.len()),
            forall|w: Seq<u64>| #[trigger]
                satisfied_ops(final(self).ops@, w) ==> target_leaf_values(w, r@) == pad_spec(
                    target_leaf_values(w, targets@),
                    w[to_extend_target.index as int],
                ),
    {
        let ghost orig_ts = targets@;
        let n = targets.len();
        let mut p: usize = 1;
        let ghost mut k: nat = 0;
        proof {
            vstd::arithmetic::power2::lemma2_to64();
        }
        while 2 * p <= n
            invariant
                p == pow2(k),
                1 <= p <= n,
                n < 0x1000_0000,
            decreases n - p,
        {
            p = 2 * p;
            proof {
                vstd::arithmetic::power2::lemma_pow2_adds(1, k);
                vstd::arithmetic::power2::lemma2_to64();
                k = k + 1;
            }
        }
        proof {
            vstd::arithmetic::power2::lemma_pow2_adds(1, k);
            vstd::arithmetic::power2::lemma2_to64();
            crate::merkle::lemma_floor_log2_unique(n as nat, k);
        }
        if p == n {
            proof {
                assert(is_pow2(orig_ts.len()));
                assert forall|w: Seq<u64>| #[trigger]
                    satisfied_ops(self.ops@, w) implies target_leaf_values(w, targets@)
                    == pad_spec(
                    target_leaf_values(w, orig_ts),
                    w[to_extend_target.index as int],
                ) by {
                    assert(target_leaf_values(w, orig_ts).len() == orig_ts.len());
                }
            }
            return targets;
        }
        let length_wire = self.constant(n as u64);
        let ghost final_ops = self.ops@;
        let mut out = targets;
        let mut length_leaf: Vec<Target> = Vec::new();
        length_leaf.push(length_wire);
        out.push(length_leaf);
        proof {
            assert(out@[n as int]@ =~= seq![length_wire]);
        }
        let target_len = 2 * p;
        proof {
            assert(target_len == padded_len(orig_ts.len()));
        }
        while out.len() < target_len
            invariant
                n + 1 <= out@.len() <= target_len,
                n == orig_ts.len(),
                target_len == padded_len(orig_ts.len()),
                self.ops@ == final_ops,
                self.public_inputs@ == old(self).public_inputs@,
                self.verified_proofs@ == old(self).verified_proofs@,
                self.num_wires == old(self).num_wires + 1,
                forall|i: int| 0 <= i < n ==> out@[i] == orig_ts[i],
                out@[n as int]@ == seq![length_wire],
                forall|i: int| n < i < out@.len() ==> (#[trigger] out@[i])@ == seq![
                    to_extend_target,
                ],
            decreases target_len - out@.len(),
        {
            let mut filler: Vec<Target> = Vec::new();
            filler.push(to_extend_target);
            proof {
                assert(filler@ =~= seq![to_extend_target]);
            }
            out.push(filler);
        }
        proof {
            assert(!is_pow2(orig_ts.len()));
            assert forall|w: Seq<u64>| #[trigger]
                satisfied_ops(self.ops@, w) implies target_leaf_values(w, out@) == pad_spec(
                target_leaf_values(w, orig_ts),
                w[to_extend_target.index as int],
            ) by {
                let e = w[to_extend_target.index as int];
                let vals = target_leaf_values(w, orig_ts);
                assert(vals.len() == n);
                assert(op_holds_at(self.ops@, w, self.ops@.len() - 1));
                assert(w[length_wire.index as int] == n as u64);
                let lhs = target_leaf_values(w, out@);
                let rhs = pad_spec(vals, e);
                assert(rhs.len() == pow2(floor_log2(n as nat) + 1));
                assert(lhs.len() == rhs.len());
                assert forall|i: int| 0 <= i < lhs.len() implies lhs[i] == rhs[i] by {
                    if i < n {
                        assert(out@[i] == orig_ts[i]);
                        assert(rhs[i] == vals[i]);
                    } else if i == n {
                        assert(wire_values(w, out@[i]@) =~= seq![n as u64]);
                        assert(rhs[i] == seq![n as u64]);
                    } else {
                        assert(wire_values(w, out@[i]@) =~= seq![e]);
                        assert(rhs[i] == seq![e]);
                    }
                }
                assert(lhs =~= rhs);
            }
        }
        out
    }

    /// Builds the wires of a Merkle root over leaf wire vectors: the list is
    /// padded to a power-of-two length, each leaf hashed by the hash-or-noop
    /// convention, and adjacent hashes compressed pairwise to the root. Under
    /// every satisfying witness the root wires hold exactly the Merkle root
    /// of the leaves' values: the in-circuit builder and the native
    /// evaluator agree.
    pub fn add_merkle_root_target(
        &mut self,
        targets: Vec<Vec<Target>>,
        to_extend_target: Target,
    ) -> (r: HashOutTarget)
        requires
            1 <= targets@.len() < 0x1000_0000,
            old(self).num_wires + 32 * targets@.len() + 8 <= usize::MAX,
        ensures
            old(self).ops@.is_prefix_of(final(self).ops@),
            final(self).num_wires <= old(self).num_wires + 32 * targets@.len() + 8,
            final(self).public_inputs@ == old(self).public_inputs@,
            final(self).verified_proofs@ == old(self).verified_proofs@,
            r.elements@.len() == 4,
            forall|w: Seq<u64>| #[trigger]
                satisfied_ops(final(self).ops@, w) ==> wire_values(w, r.elements@)
                    == merkle_root_spec(
                    target_leaf_values(w, targets@),
                    w[to_extend_target.index as int],
                ),
    {
        let ghost orig_ts = targets@;
        let ghost n = targets@.len();
        proof {
            lemma_padded_len_bounds(n);
        }
        let padded = self.extend_targets_to_power_of_two(targets, to_extend_target);
        let ghost ops_padded = self.ops@;
        let ghost wires_padded = self.num_wires as nat;
        let ghost plen = padded@.len() as nat;
        let mut level: Vec<HashOutTarget> = Vec::new();
        let mut i: usize = 0;
        while i < padded.len()
            invariant
                i <= padded@.len(),
                plen == padded@.len(),
                plen == padded_len(n),
                n >= 1,
                is_pow2(plen),
                plen <= 2 * n,
                wires_padded <= old(self).num_wires + 1,
                old(self).num_wires + 32 * n + 8 <= usize::MAX,
                ops_padded.is_prefix_of(self.ops@),
                old(self).ops@.is_prefix_of(ops_padded),
                self.num_wires == wires_padded + 4 * i,
                self.public_inputs@ == old(self).public_inputs@,
                self.verified_proofs@ == old(self).verified_proofs@,
                level@.len() == i,
                forall|t: int| 0 <= t < i ==> (#[trigger] level@[t]).elements@.len() == 4,
                forall|w: Seq<u64>, t: int|
                    #![trigger satisfied_ops(self.ops@, w), level@[t]]
                    satisfied_ops(self.ops@, w) && 0 <= t < i ==> wire_values(
                        w,
                        level@[t].elements@,
                    ) == hash_or_noop_spec(wire_values(w, padded@[t]@)),
            decreases padded@.len() - i,
        {
            let ghost prev_ops = self.ops@;
            let inputs = copy_targets(&padded[i]);
            let h = self.hash_or_noop(inputs);
            level.push(h);
            proof {
                assert forall|w: Seq<u64>, t: int|
                    #![trigger satisfied_ops(self.ops@, w), level@[t]]
                    satisfied_ops(self.ops@, w) && 0 <= t < i + 1 implies wire_values(
                    w,
                    level@[t].elements@,
                ) == hash_or_noop_spec(wire_values(w, padded@[t]@)) by {
                    lemma_satisfied_prefix(prev_ops, self.ops@, w);
                    if t < i {
                    } else {
                        assert(op_holds_at(self.ops@, w, self.ops@.len() - 1));
                    }
                }
            }
            i += 1;
        }
        let ghost ops_hashed = self.ops@;
        let ghost wires_hashed = self.num_wires as nat;
        proof {
            assert(wires_hashed == wires_padded + 4 * plen);
            assert forall|w: Seq<u64>| #[trigger]
                satisfied_ops(self.ops@, w) implies root_spec(hash_target_values(w, level@))
                == root_spec(
                Seq::new(plen, |t: int| hash_or_noop_spec(wire_values(w, padded@[t]@))),
            ) by {
                assert forall|t: int| 0 <= t < plen implies hash_target_values(w, level@)[t]
                    == hash_or_noop_spec(wire_values(w, padded@[t]@)) by {
                    assert(wire_values(w, level@[t].elements@) == hash_or_noop_spec(
                        wire_values(w, padded@[t]@),
                    ));
                }
                assert(hash_target_values(w, level@) =~= Seq::new(
                    plen,
                    |t: int| hash_or_noop_spec(wire_values(w, padded@[t]@)),
                ));
            }
        }
        while level.len() > 1
            invariant
                1 <= level@.len() <= plen,
                plen == padded_len(n),
                n >= 1,
                is_pow2(level@.len() as nat),
                is_pow2(plen),
                plen <= 2 * n,
                wires_hashed <= old(self).num_wires + 1 + 4 * plen,
                old(self).num_wires + 32 * n + 8 <= usize::MAX,
                ops_padded.is_prefix_of(self.ops@),
                old(self).ops@.is_prefix_of(ops_padded),
                self.num_wires <= wires_hashed + 4 * (plen - level@.len()),
                self.public_inputs@ == old(self).public_inputs@,
                self.verified_proofs@ == old(self).verified_proofs@,
                forall|t: int| 0 <= t < level@.len() ==> (#[trigger] level@[t]).elements@.len()
                    == 4,
                forall|w: Seq<u64>| #[trigger]
                    satisfied_ops(self.ops@, w) ==> root_spec(hash_target_values(w, level@))
                        == root_spec(
                        Seq::new(plen, |t: int| hash_or_noop_spec(wire_values(w, padded@[t]@))),
                    ),
            decreases level@.len(),
        {
            proof {
                lemma_is_pow2_halves(level@.len() as nat);
            }
            let ghost prev_level = level@;
            let m = level.len();
            let mut next: Vec<HashOutTarget> = Vec::new();
            let mut j: usize = 0;
            while j < m / 2
                invariant
                    m == prev_level.len(),
                    m % 2 == 0,
                    2 <= m <= plen,
                    level@ == prev_level,
                    j <= m / 2,
                    old(self).num_wires + 32 * n + 8 <= usize::MAX,
                    plen <= 2 * n,
                    wires_hashed <= old(self).num_wires + 1 + 4 * plen,
                    ops_padded.is_prefix_of(self.ops@),
                    old(self).ops@.is_prefix_of(ops_padded),
                    self.num_wires <= wires_hashed + 4 * (plen - m) + 4 * j,
                    self.public_inputs@ == old(self).public_inputs@,
                    self.verified_proofs@ == old(self).verified_proofs@,
                    forall|t: int| 0 <= t < prev_level.len() ==> (#[trigger]
                    prev_level[t]).elements@.len() == 4,
                    next@.len() == j,
                    forall|t: int| 0 <= t < j ==> (#[trigger] next@[t]).elements@.len() == 4,
                    forall|w: Seq<u64>, t: int|
                        #![trigger satisfied_ops(self.ops@, w), next@[t]]
                        satisfied_ops(self.ops@, w) && 0 <= t < j ==> wire_values(
                            w,
                            next@[t].elements@,
                        ) == crate::merkle::compress_spec(
                            wire_values(w, prev_level[2 * t].elements@) + wire_values(
                                w,
                                prev_level[2 * t + 1].elements@,
                            ),
                        ),
                    forall|w: Seq<u64>| #[trigger]
                        satisfied_ops(self.ops@, w) ==> root_spec(hash_target_values(w, prev_level))
                            == root_spec(
                            Seq::new(plen, |t: int| hash_or_noop_spec(wire_values(w, padded@[t]@))),
                        ),
                decreases m / 2 - j,
            {
                let ghost prev_ops = self.ops@;
                let mut cat = copy_targets(&level[2 * j].elements);
                let mut right = copy_targets(&level[2 * j + 1].elements);
                cat.append(&mut right);
                proof {
                    assert(cat@ =~= prev_level[2 * j as int].elements@ + prev_level[
                        2 * j as int + 1
                    ].elements@);
                }
                let h = self.hash_n_to_hash_no_pad(cat);
                next.push(h);
                proof {
                    assert forall|w: Seq<u64>, t: int|
                        #![trigger satisfied_ops(self.ops@, w), next@[t]]
                        satisfied_ops(self.ops@, w) && 0 <= t < j + 1 implies wire_values(
                        w,
                        next@[t].elements@,
                    ) == crate::merkle::compress_spec(
                        wire_values(w, prev_level[2 * t].elements@) + wire_values(
                            w,
                            prev_level[2 * t + 1].elements@,
                        ),
                    ) by {
                        lemma_satisfied_prefix(prev_ops, self.ops@, w);
                        if t < j {
                        } else {
                            assert(op_holds_at(self.ops@, w, self.ops@.len() - 1));
                            assert(wire_values(w, cat@) =~= wire_values(
                                w,
                                prev_level[2 * t].elements@,
                            ) + wire_values(w, prev_level[2 * t + 1].elements@));
                        }
                    }
                    assert forall|w: Seq<u64>| #[trigger]
                        satisfied_ops(self.ops@, w) implies root_spec(
                        hash_target_values(w, prev_level),
                    ) == root_spec(
                        Seq::new(plen, |t: int| hash_or_noop_spec(wire_values(w, padded@[t]@))),
                    ) by {
                        lemma_satisfied_prefix(prev_ops, self.ops@, w);
                    }
                }
                j += 1;
            }
            proof {
                assert forall|w: Seq<u64>| #[trigger]
                    satisfied_ops(self.ops@, w) implies root_spec(hash_target_values(w, next@))
                    == root_spec(
                    Seq::new(plen, |t: int| hash_or_noop_spec(wire_values(w, padded@[t]@))),
                ) by {
                    let lv = hash_target_values(w, prev_level);
                    assert(hash_target_values(w, next@) =~= level_up(lv));
                    assert(root_spec(lv) == root_spec(level_up(lv)));
                }
            }
            level = next;
        }
        proof {
            assert(level@.len() == 1);
        }
        let root = HashOutTarget { elements: copy_targets(&level[0].elements) };
        proof {
            assert forall|w: Seq<u64>| #[trigger]
                satisfied_ops(self.ops@, w) implies wire_values(w, root.elements@)
                == merkle_root_spec(
                target_leaf_values(w, orig_ts),
                w[to_extend_target.index as int],
            ) by {
                lemma_satisfied_prefix(ops_padded, self.ops@, w);
                let e = w[to_extend_target.index as int];
                let vals = target_leaf_values(w, orig_ts);
                let lv = hash_target_values(w, level@);
                assert(root_spec(lv) == lv[0]);
                assert(wire_values(w, root.elements@) == lv[0]);
                assert(target_leaf_values(w, padded@) == pad_spec(vals, e));
                assert(Seq::new(plen, |t: int| hash_or_noop_spec(wire_values(w, padded@[t]@)))
                    =~= pad_spec(vals, e).map_values(|l: Seq<u64>| hash_or_noop_spec(l)));
            }
        }
        root
    }
}

/// One recorded constraint of a satisfied list holds.
pub open spec fn op_holds_at(ops: Seq<GateOp>, w: Seq<u64>, i: int) -> bool {
    crate::circuit::op_holds(w, ops[i])
}

} // verus!
