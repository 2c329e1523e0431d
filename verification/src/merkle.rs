use vstd::prelude::*;
use vstd::arithmetic::power2::{
    pow2, lemma_pow2_adds, lemma_pow2_pos, lemma_pow2_strictly_increases, lemma2_to64,
    lemma2_to64_rest,
};
use crate::hashing::{keccak_of, keccak_digest};

verus! {

/// The order of the proving backend's native field; hash outputs are reduced
/// into it so that every wire value is a canonical field element.
pub const FIELD_ORDER: u64 = 0xffff_ffff_0000_0001;

/// Byte `k` (little-endian position, `0 <= k < 8`) of a 64-bit word.
pub open spec fn u64_le_byte(x: u64, k: int) -> u8 {
    ((x as nat / pow2((8 * k) as nat)) % 256) as u8
}

/// The little-endian byte serialization of a sequence of 64-bit words.
pub open spec fn le_bytes_of_u64s(s: Seq<u64>) -> Seq<u8> {
    Seq::new(8 * s.len(), |i: int| u64_le_byte(s[i / 8], i % 8))
}

/// The number denoted by little-endian bytes.
pub open spec fn le_bytes_nat(b: Seq<u8>) -> nat
    decreases b.len(),
{
    if b.len() == 0 {
        0
    } else {
        (b[0] + 256 * le_bytes_nat(b.drop_first())) as nat
    }
}

pub proof fn lemma_le_bytes_nat_bound(b: Seq<u8>)
    ensures
        le_bytes_nat(b) < pow2(8 * b.len()),
    decreases b.len(),
{
    if b.len() == 0 {
        lemma2_to64();
    } else {
        lemma_le_bytes_nat_bound(b.drop_first());
        lemma_pow2_adds(8, 8 * (b.len() - 1) as nat);
        lemma2_to64();
        assert(256 * le_bytes_nat(b.drop_first()) <= 256 * (pow2(8 * (b.len() - 1) as nat) - 1))
            by (nonlinear_arith)
            requires le_bytes_nat(b.drop_first()) <= pow2(8 * (b.len() - 1) as nat) - 1;
    }
}

/// The two-to-one / vector compression supplied to the commitment scheme: the
/// Keccak digest of the words' serialization, read back as four field
/// elements.
pub open spec fn compress_spec(s: Seq<u64>) -> Seq<u64> {
    let d = keccak_of(le_bytes_of_u64s(s));
    seq![
        (le_bytes_nat(d.subrange(0, 8)) % (FIELD_ORDER as nat)) as u64,
        (le_bytes_nat(d.subrange(8, 16)) % (FIELD_ORDER as nat)) as u64,
        (le_bytes_nat(d.subrange(16, 24)) % (FIELD_ORDER as nat)) as u64,
        (le_bytes_nat(d.subrange(24, 32)) % (FIELD_ORDER as nat)) as u64,
    ]
}

/// The hash-or-noop convention for leaves: a leaf of at most four elements
/// passes through unhashed, padded with zeros; a longer leaf is compressed.
pub open spec fn hash_or_noop_spec(s: Seq<u64>) -> Seq<u64> {
    if s.len() <= 4 {
        s + Seq::new((4 - s.len()) as nat, |i: int| 0u64)
    } else {
        compress_spec(s)
    }
}

/// Serializes 64-bit words into little-endian bytes.
pub fn u64s_to_le_bytes(values: &Vec<u64>) -> (r: Vec<u8>)
    requires
        values@.len() < 0x1000_0000,
    ensures
        r@ == le_bytes_of_u64s(values@),
{
    let n = values.len();
    let mut data: Vec<u8> = Vec::new();
    let mut j: usize = 0;
    while j < n
        invariant
            j <= n,
            n == values@.len(),
            n < 0x1000_0000,
            data@.len() == 8 * j,
            forall|i: int| 0 <= i < 8 * j ==> data@[i] == le_bytes_of_u64s(values@)[i],
        decreases n - j,
    {
        let limb = values[j];
        let mut divisor: u64 = 1;
        proof {
            lemma2_to64();
        }
        let mut k: usize = 0;
        while k < 8
            invariant
                k <= 8,
                j < n,
                n == values@.len(),
                limb == values@[j as int],
                k < 8 ==> divisor == pow2((8 * k) as nat),
                data@.len() == 8 * j + k,
                forall|i: int| 0 <= i < 8 * j ==> data@[i] == le_bytes_of_u64s(values@)[i],
                forall|i: int|
                    8 * j <= i < 8 * j + k ==> data@[i] == u64_le_byte(limb, i - 8 * j),
            decreases 8 - k,
        {
            proof {
                lemma_pow2_pos((8 * k) as nat);
            }
            let byte = ((limb / divisor) % 256) as u8;
            assert(byte == u64_le_byte(limb, k as int));
            data.push(byte);
            if k < 7 {
                proof {
                    lemma_pow2_adds((8 * k) as nat, 8);
                    lemma2_to64();
                    lemma2_to64_rest();
                }
                divisor = divisor * 256;
            }
            k += 1;
        }
        proof {
            assert forall|i: int| 8 * j <= i < 8 * (j + 1) implies data@[i] == le_bytes_of_u64s(
                values@,
            )[i] by {
                assert(i / 8 == j) by (nonlinear_arith)
                    requires 8 * j <= i < 8 * (j + 1), 0 <= j;
                assert(i % 8 == i - 8 * j) by (nonlinear_arith)
                    requires 8 * j <= i < 8 * (j + 1), 0 <= j;
            }
        }
        j += 1;
    }
    proof {
        assert(data@ =~= le_bytes_of_u64s(values@));
    }
    data
}

/// Reads eight little-endian bytes as one 64-bit word.
fn read_u64_le(d: &Vec<u8>, off: usize) -> (r: u64)
    requires
        off + 8 <= d@.len(),
    ensures
        r == le_bytes_nat(d@.subrange(off as int, off + 8)),
{
    let dn = d.len();
    let mut acc: u64 = 0;
    let mut k: usize = 8;
    proof {
        lemma2_to64();
        assert(d@.subrange(off + 8int, off + 8) =~= Seq::<u8>::empty());
    }
    while k > 0
        invariant
            k <= 8,
            off + 8 <= dn,
            dn == d@.len(),
            acc == le_bytes_nat(d@.subrange(off + k, off + 8)),
            acc < pow2(8 * (8 - k) as nat),
        decreases k,
    {
        proof {
            lemma_le_bytes_nat_bound(d@.subrange(off + k, off + 8));
            lemma_pow2_adds(8, 8 * (8 - k) as nat);
            lemma2_to64();
            lemma2_to64_rest();
        }
        k -= 1;
        let byte = d[off + k];
        proof {
            let s = d@.subrange(off + k, off + 8);
            assert(s.drop_first() =~= d@.subrange(off + k + 1, off + 8));
            assert(s[0] == d@[off + k]);
        }
        acc = byte as u64 + 256 * acc;
        proof {
            lemma_le_bytes_nat_bound(d@.subrange(off + k, off + 8));
        }
    }
    proof {
        assert(d@.subrange(off as int, off + 8) =~= d@.subrange(off + 0, off + 8));
    }
    acc
}

/// Compresses a vector of words into four field elements through the Keccak
/// digest of their serialization.
pub fn compress(values: &Vec<u64>) -> (r: Vec<u64>)
    requires
        values@.len() < 0x1000_0000,
    ensures
        r@ == compress_spec(values@),
        r@.len() == 4,
        forall|i: int| 0 <= i < 4 ==> r@[i] < FIELD_ORDER,
{
    let bytes = u64s_to_le_bytes(values);
    let d = keccak_digest(bytes.as_slice());
    let mut r: Vec<u64> = Vec::new();
    r.push(read_u64_le(&d, 0) % FIELD_ORDER);
    r.push(read_u64_le(&d, 8) % FIELD_ORDER);
    r.push(read_u64_le(&d, 16) % FIELD_ORDER);
    r.push(read_u64_le(&d, 24) % FIELD_ORDER);
    proof {
        assert(r@ =~= compress_spec(values@));
    }
    r
}

/// Hashes one leaf by the hash-or-noop convention.
pub fn hash_or_noop(values: &Vec<u64>) -> (r: Vec<u64>)
    requires
        values@.len() < 0x1000_0000,
    ensures
        r@ == hash_or_noop_spec(values@),
        r@.len() == 4,
{
    if values.len() <= 4 {
        let mut r: Vec<u64> = Vec::new();
        let mut i: usize = 0;
        while i < values.len()
            invariant
                i <= values@.len() <= 4,
                r@ == values@.subrange(0, i as int),
            decreases values@.len() - i,
        {
            r.push(values[i]);
            i += 1;
        }
        while i < 4
            invariant
                values@.len() <= i <= 4,
                r@.len() == i,
                r@.subrange(0, values@.len() as int) == values@,
                forall|j: int| values@.len() <= j < i ==> r@[j] == 0u64,
            decreases 4 - i,
        {
            r.push(0u64);
            i += 1;
        }
        proof {
            assert(r@ =~= hash_or_noop_spec(values@));
        }
        r
    } else {
        compress(values)
    }
}

/// The element-wise views of a sequence of leaf vectors.
pub open spec fn leaf_views(s: Seq<Vec<u64>>) -> Seq<Seq<u64>> {
    s.map_values(|v: Vec<u64>| v@)
}

/// The floor of the base-two logarithm.
pub open spec fn floor_log2(n: nat) -> nat
    decreases n,
{
    if n <= 1 {
        0
    } else {
        1 + floor_log2(n / 2)
    }
}

pub proof fn lemma_floor_log2_bounds(n: nat)
    requires
        n >= 1,
    ensures
        pow2(floor_log2(n)) <= n < pow2(floor_log2(n) + 1),
    decreases n,
{
    if n == 1 {
        lemma2_to64();
    } else {
        lemma_floor_log2_bounds(n / 2);
        lemma_pow2_adds(1, floor_log2(n / 2));
        lemma_pow2_adds(1, floor_log2(n / 2) + 1);
        lemma2_to64();
    }
}

pub proof fn lemma_floor_log2_unique(n: nat, k: nat)
    requires
        pow2(k) <= n < pow2(k + 1),
    ensures
        floor_log2(n) == k,
    decreases n,
{
    lemma_pow2_pos(k);
    if k == 0 {
        lemma2_to64();
    } else {
        lemma_pow2_adds(1, (k - 1) as nat);
        lemma_pow2_adds(1, k);
        lemma2_to64();
        assert(pow2(k) == 2 * pow2((k - 1) as nat));
        assert(pow2(k + 1) == 2 * pow2(k));
        assert(n >= 2);
        lemma_floor_log2_unique(n / 2, (k - 1) as nat);
    }
}

/// Whether a length is a power of two.
pub open spec fn is_pow2(n: nat) -> bool {
    n >= 1 && n == pow2(floor_log2(n))
}

pub proof fn lemma_pow2_is_pow2(k: nat)
    ensures
        is_pow2(pow2(k)),
{
    lemma_pow2_pos(k);
    lemma_pow2_strictly_increases(k, k + 1);
    lemma_floor_log2_unique(pow2(k), k);
}

pub proof fn lemma_is_pow2_halves(n: nat)
    requires
        is_pow2(n),
        n > 1,
    ensures
        n % 2 == 0,
        is_pow2(n / 2),
    decreases n,
{
    let f = floor_log2(n);
    if f == 0 {
        assert(n == pow2(0));
        lemma2_to64();
    } else {
        lemma_pow2_adds(1, (f - 1) as nat);
        lemma2_to64();
        assert(n == 2 * pow2((f - 1) as nat));
        lemma_pow2_is_pow2((f - 1) as nat);
    }
}

/// Pads a leaf list to the next power-of-two length: a list already of
/// power-of-two length is unchanged; otherwise one leaf holding the original
/// length is appended and the rest is filled with the sentinel leaf.
pub open spec fn pad_spec(leaves: Seq<Seq<u64>>, to_extend: u64) -> Seq<Seq<u64>> {
    let n = leaves.len();
    if is_pow2(n) {
        leaves
    } else {
        leaves.push(seq![n as u64]) + Seq::new(
            (pow2(floor_log2(n) + 1) - n - 1) as nat,
            |i: int| seq![to_extend],
        )
    }
}

/// Padding a list whose length is already a power of two returns it
/// unchanged.
pub proof fn lemma_pad_pow2_identity(leaves: Seq<Seq<u64>>, to_extend: u64)
    requires
        is_pow2(leaves.len()),
    ensures
        pad_spec(leaves, to_extend) == leaves,
{
}

/// Padding a list whose length is not a power of two yields the least
/// power-of-two length greater than it; the original leaves stay in place,
/// the leaf right after them encodes the original length, and every later
/// slot holds the sentinel leaf.
pub proof fn lemma_pad_structure(leaves: Seq<Seq<u64>>, to_extend: u64)
    requires
        leaves.len() >= 1,
        !is_pow2(leaves.len()),
    ensures
        is_pow2(pad_spec(leaves, to_extend).len()),
        leaves.len() < pad_spec(leaves, to_extend).len(),
        pad_spec(leaves, to_extend).len() <= 2 * leaves.len(),
        pad_spec(leaves, to_extend)[leaves.len() as int] == seq![leaves.len() as u64],
        forall|i: int| 0 <= i < leaves.len() ==> pad_spec(leaves, to_extend)[i] == leaves[i],
        forall|i: int|
            leaves.len() < i < pad_spec(leaves, to_extend).len() ==> pad_spec(leaves, to_extend)[i]
                == seq![to_extend],
{
    let n = leaves.len();
    let f = floor_log2(n);
    lemma_floor_log2_bounds(n);
    lemma_pow2_adds(1, f);
    lemma2_to64();
    assert(pow2(f + 1) == 2 * pow2(f));
    assert(n != pow2(f));
    lemma_pow2_is_pow2(f + 1);
    assert(pad_spec(leaves, to_extend).len() == pow2(f + 1));
}

/// The next level of a hash tree: adjacent pairs compressed two-to-one.
pub open spec fn level_up(h: Seq<Seq<u64>>) -> Seq<Seq<u64>> {
    Seq::new(h.len() / 2, |i: int| compress_spec(h[2 * i] + h[2 * i + 1]))
}

/// The root of a binary hash tree over a power-of-two list of hashes.
pub open spec fn root_spec(h: Seq<Seq<u64>>) -> Seq<u64>
    decreases h.len(),
{
    if h.len() <= 1 {
        if h.len() == 1 {
            h[0]
        } else {
            Seq::empty()
        }
    } else {
        root_spec(level_up(h))
    }
}

/// The Merkle root of a leaf list: leaves padded to a power-of-two length,
/// each hashed by the hash-or-noop convention, then paired bottom-up.
pub open spec fn merkle_root_spec(leaves: Seq<Seq<u64>>, to_extend: u64) -> Seq<u64> {
    root_spec(pad_spec(leaves, to_extend).map_values(|l: Seq<u64>| hash_or_noop_spec(l)))
}

/// Extends a list of leaves to a power-of-two length, appending one leaf that
/// encodes the original length and then the sentinel leaf as filler.
pub fn extend_to_power_of_two(values: Vec<Vec<u64>>, to_extend: u64) -> (r: Vec<Vec<u64>>)
    requires
        1 <= values@.len() < 0x1000_0000,
    ensures
        leaf_views(r@) == pad_spec(leaf_views(values@), to_extend),
{
    let n = values.len();
    let ghost orig = leaf_views(values@);
    let mut p: usize = 1;
    let ghost mut k: nat = 0;
    proof {
        lemma2_to64();
    }
    while 2 * p <= n
        invariant
            p == pow2(k),
            1 <= p <= n,
            n < 0x1000_0000,
        decreases n - p,
    {
        p = 2 * p;
        proof {
            lemma_pow2_adds(1, k);
            lemma2_to64();
            k = k + 1;
        }
    }
    proof {
        lemma_pow2_adds(1, k);
        lemma2_to64();
        lemma_floor_log2_unique(n as nat, k);
    }
    if p == n {
        proof {
            assert(is_pow2(orig.len()));
        }
        return values;
    }
    let mut out = values;
    let mut length_leaf: Vec<u64> = Vec::new();
    length_leaf.push(n as u64);
    out.push(length_leaf);
    proof {
        assert(leaf_views(out@) =~~= orig.push(seq![n as u64]) + Seq::new(
            (out@.len() - orig.len() - 1) as nat,
            |i: int| seq![to_extend],
        ));
    }
    let target = 2 * p;
    proof {
        lemma_pow2_adds(1, k);
        lemma2_to64();
        assert(target == pow2(floor_log2(n as nat) + 1));
    }
    while out.len() < target
        invariant
            out@.len() >= orig.len() + 1,
            out@.len() <= target,
            target == pow2(floor_log2(orig.len()) + 1),
            target <= 2 * orig.len(),
            leaf_views(out@) == orig.push(seq![orig.len() as u64]) + Seq::new(
                (out@.len() - orig.len() - 1) as nat,
                |i: int| seq![to_extend],
            ),
        decreases target - out@.len(),
    {
        let ghost pre = out@;
        let mut filler: Vec<u64> = Vec::new();
        filler.push(to_extend);
        proof {
            assert(filler@ =~= seq![to_extend]);
        }
        out.push(filler);
        proof {
            let target_seq = orig.push(seq![orig.len() as u64]) + Seq::new(
                (out@.len() - orig.len() - 1) as nat,
                |i: int| seq![to_extend],
            );
            let prev_seq = orig.push(seq![orig.len() as u64]) + Seq::new(
                (pre.len() - orig.len() - 1) as nat,
                |i: int| seq![to_extend],
            );
            assert(leaf_views(pre) == prev_seq);
            assert forall|j: int| 0 <= j < out@.len() implies leaf_views(out@)[j]
                == target_seq[j] by {
                assert(leaf_views(out@)[j] == out@[j]@);
                if j < pre.len() {
                    assert(out@[j] == pre[j]);
                    assert(pre[j]@ == prev_seq[j]);
                    assert(target_seq[j] == prev_seq[j]);
                } else {
                    assert(out@[j] == filler);
                    assert(target_seq[j] == seq![to_extend]);
                }
            }
            assert(leaf_views(out@) =~= target_seq);
        }
    }
    proof {
        assert(leaf_views(out@) =~~= pad_spec(orig, to_extend));
    }
    out
}

/// Computes the Merkle root of a leaf list: the list is padded to a
/// power-of-two length, each leaf hashed by the hash-or-noop convention, and
/// adjacent hashes compressed pairwise until one root remains.
pub fn merkle_root(leaves: Vec<Vec<u64>>, to_extend: u64) -> (r: Vec<u64>)
    requires
        1 <= leaves@.len() < 0x1000_0000,
        forall|i: int| 0 <= i < leaves@.len() ==> #[trigger] leaves@[i]@.len() < 0x1000_0000,
    ensures
        r@ == merkle_root_spec(leaf_views(leaves@), to_extend),
        r@.len() == 4,
{
    let ghost orig = leaf_views(leaves@);
    let padded = extend_to_power_of_two(leaves, to_extend);
    let ghost padded_views = pad_spec(orig, to_extend);
    proof {
        if is_pow2(orig.len()) {
            lemma_pad_pow2_identity(orig, to_extend);
        } else {
            lemma_pad_structure(orig, to_extend);
        }
        assert(is_pow2(padded_views.len()));
        assert forall|j: int| 0 <= j < padded@.len() implies #[trigger] padded@[j]@.len()
            < 0x1000_0000 by {
            assert(padded@[j]@ == leaf_views(padded@)[j]);
            if is_pow2(orig.len()) {
                assert(padded_views[j] == orig[j]);
            } else {
                if j < orig.len() {
                    assert(padded_views[j] == orig[j]);
                } else if j == orig.len() {
                    assert(padded_views[j] == seq![orig.len() as u64]);
                } else {
                    assert(padded_views[j] == seq![to_extend]);
                }
            }
        }
    }
    let mut level: Vec<Vec<u64>> = Vec::new();
    let mut i: usize = 0;
    while i < padded.len()
        invariant
            i <= padded@.len(),
            leaf_views(padded@) == padded_views,
            forall|j: int|
                0 <= j < padded@.len() ==> #[trigger] padded@[j]@.len() < 0x1000_0000,
            level@.len() == i,
            forall|j: int|
                0 <= j < i ==> (#[trigger] level@[j])@ == hash_or_noop_spec(padded@[j]@)
                    && level@[j]@.len() == 4,
        decreases padded@.len() - i,
    {
        let h = hash_or_noop(&padded[i]);
        level.push(h);
        i += 1;
    }
    proof {
        assert(leaf_views(level@) =~~= padded_views.map_values(
            |l: Seq<u64>| hash_or_noop_spec(l),
        ));
    }
    let ghost hashed = padded_views.map_values(|l: Seq<u64>| hash_or_noop_spec(l));
    while level.len() > 1
        invariant
            level@.len() >= 1,
            is_pow2(level@.len()),
            forall|j: int|
                0 <= j < level@.len() ==> (#[trigger] level@[j])@.len() == 4,
            root_spec(leaf_views(level@)) == root_spec(hashed),
        decreases level@.len(),
    {
        proof {
            lemma_is_pow2_halves(level@.len() as nat);
        }
        let m = level.len();
        let mut next: Vec<Vec<u64>> = Vec::new();
        let mut j: usize = 0;
        while j < m / 2
            invariant
                m == level@.len(),
                m % 2 == 0,
                m >= 2,
                j <= m / 2,
                forall|t: int|
                    0 <= t < level@.len() ==> (#[trigger] level@[t])@.len() == 4,
                next@.len() == j,
                forall|t: int|
                    0 <= t < j ==> (#[trigger] next@[t])@ == compress_spec(
                        level@[2 * t]@ + level@[2 * t + 1]@,
                    ) && next@[t]@.len() == 4,
            decreases m / 2 - j,
        {
            let mut cat: Vec<u64> = Vec::new();
            let left = &level[2 * j];
            let right = &level[2 * j + 1];
            let mut t: usize = 0;
            while t < left.len()
                invariant
                    t <= left@.len(),
                    cat@ == left@.subrange(0, t as int),
                decreases left@.len() - t,
            {
                cat.push(left[t]);
                t += 1;
            }
            let mut u: usize = 0;
            while u < right.len()
                invariant
                    u <= right@.len(),
                    cat@ == left@ + right@.subrange(0, u as int),
                decreases right@.len() - u,
            {
                proof {
                    assert(cat@.push(right@[u as int]) =~= left@ + right@.subrange(
                        0,
                        u + 1,
                    ));
                }
                cat.push(right[u]);
                u += 1;
            }
            proof {
                assert(cat@ =~= left@ + right@);
            }
            let h = compress(&cat);
            next.push(h);
            j += 1;
        }
        proof {
            assert(leaf_views(next@) =~~= level_up(leaf_views(level@)));
            assert(root_spec(leaf_views(next@)) == root_spec(hashed));
        }
        level = next;
    }
    proof {
        assert(leaf_views(level@).len() == 1);
        assert(root_spec(leaf_views(level@)) == leaf_views(level@)[0]);
    }
    let root = &level[0];
    let mut r: Vec<u64> = Vec::new();
    let mut t: usize = 0;
    while t < root.len()
        invariant
            t <= root@.len(),
            r@ == root@.subrange(0, t as int),
        decreases root@.len() - t,
    {
        r.push(root[t]);
        t += 1;
    }
    proof {
        assert(r@ =~= root@);
        assert(root@.len() == 4) by {
            if hashed.len() == 1 {
            }
        }
    }
    r
}

} // verus!
