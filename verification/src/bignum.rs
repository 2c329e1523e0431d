use vstd::prelude::*;
use vstd::arithmetic::power2::{pow2, lemma_pow2_adds, lemma_pow2_pos, lemma2_to64};
use vstd::arithmetic::div_mod::lemma_fundamental_div_mod;

verus! {

/// The number denoted by base-2^32 limbs given least significant first.
pub open spec fn limbs_nat(s: Seq<u32>) -> nat
    decreases s.len(),
{
    if s.len() == 0 {
        0
    } else {
        (limbs_nat(s.drop_last()) + s.last() * pow2(32 * (s.len() - 1) as nat)) as nat
    }
}

/// The big-endian bytes of a number, with no leading zero byte; empty for zero.
pub open spec fn min_be_bytes(n: nat) -> Seq<u8>
    decreases n,
{
    if n == 0 {
        Seq::empty()
    } else {
        min_be_bytes(n / 256) + seq![(n % 256) as u8]
    }
}

/// The big-endian byte encoding a big unsigned integer serializes to: minimal,
/// except that zero is a single zero byte.
pub open spec fn biguint_bytes(n: nat) -> Seq<u8> {
    if n == 0 {
        seq![0u8]
    } else {
        min_be_bytes(n)
    }
}

/// An unsigned big integer, stored as base-2^32 limbs, least significant
/// first, with no trailing zero limb.
#[derive(Clone, Debug, PartialEq, Eq)]
pub struct BigNum {
    limbs: Vec<u32>,
}

pub proof fn lemma_limbs_nat_bound(s: Seq<u32>)
    ensures
        limbs_nat(s) < pow2(32 * s.len()),
    decreases s.len(),
{
    if s.len() == 0 {
        lemma2_to64();
    } else {
        lemma_limbs_nat_bound(s.drop_last());
        lemma_pow2_adds(32 * (s.len() - 1) as nat, 32);
        lemma2_to64();
        assert(s.last() * pow2(32 * (s.len() - 1) as nat) <= 0xffffffffu32 * pow2(
            32 * (s.len() - 1) as nat,
        )) by (nonlinear_arith)
            requires s.last() <= 0xffffffffu32, pow2(32 * (s.len() - 1) as nat) >= 0;
        assert(pow2(32 * (s.len() - 1) as nat) + 0xffffffffu32 * pow2(32 * (s.len() - 1) as nat)
            == 0x100000000 * pow2(32 * (s.len() - 1) as nat)) by (nonlinear_arith);
    }
}

/// A minimal nonempty limb sequence denotes at least the weight of its
/// most significant limb's position.
pub proof fn lemma_limbs_nat_minimal_lower(s: Seq<u32>)
    requires
        s.len() > 0,
        s.last() != 0,
    ensures
        limbs_nat(s) >= pow2(32 * (s.len() - 1) as nat),
{
    assert(s.last() * pow2(32 * (s.len() - 1) as nat) >= 1 * pow2(
        32 * (s.len() - 1) as nat,
    )) by (nonlinear_arith)
        requires s.last() >= 1, pow2(32 * (s.len() - 1) as nat) >= 0;
}

/// Lexicographic comparison from the most significant limb down agrees with
/// numeric comparison for limb sequences of equal length.
pub proof fn lemma_lex_lt(s: Seq<u32>, t: Seq<u32>, i: int)
    requires
        s.len() == t.len(),
        0 <= i < s.len(),
        s[i] < t[i],
        forall|j: int| i < j < s.len() ==> s[j] == t[j],
    ensures
        limbs_nat(s) < limbs_nat(t),
    decreases s.len(),
{
    if i == s.len() - 1 {
        lemma_limbs_nat_bound(s.drop_last());
        lemma_pow2_pos(32 * (s.len() - 1) as nat);
        assert((s[i] + 1) * pow2(32 * (s.len() - 1) as nat) <= t[i] * pow2(
            32 * (s.len() - 1) as nat,
        )) by (nonlinear_arith)
            requires s[i] + 1 <= t[i], pow2(32 * (s.len() - 1) as nat) >= 0;
        assert((s[i] + 1) * pow2(32 * (s.len() - 1) as nat) == s[i] * pow2(
            32 * (s.len() - 1) as nat,
        ) + pow2(32 * (s.len() - 1) as nat)) by (nonlinear_arith);
    } else {
        lemma_lex_lt(s.drop_last(), t.drop_last(), i);
        assert(s.last() == t.last());
    }
}

impl BigNum {
    /// The number this value denotes.
    pub closed spec fn as_nat(&self) -> nat {
        limbs_nat(self.limbs@)
    }

    /// The stored limbs, least significant first.
    pub closed spec fn limbs_seq(&self) -> Seq<u32> {
        self.limbs@
    }

    /// Well-formed: the limb sequence carries no trailing zero limb, so each
    /// number has exactly one representation.
    pub closed spec fn wf(&self) -> bool {
        self.limbs@.len() == 0 || self.limbs@.last() != 0
    }

    /// The zero value.
    pub fn zero() -> (r: BigNum)
        ensures
            r.wf(),
            r.as_nat() == 0,
    {
        BigNum { limbs: Vec::new() }
    }

    /// Builds a big integer from a 64-bit value.
    pub fn from_u64(x: u64) -> (r: BigNum)
        ensures
            r.wf(),
            r.as_nat() == x,
    {
        let mut limbs: Vec<u32> = Vec::new();
        let lo = (x % 0x1_0000_0000) as u32;
        let hi = (x / 0x1_0000_0000) as u32;
        proof {
            lemma2_to64();
            lemma_fundamental_div_mod(x as int, 0x1_0000_0000);
        }
        if hi == 0 {
            if lo != 0 {
                limbs.push(lo);
                assert(limbs_nat(limbs@) == limbs_nat(limbs@.drop_last()) + lo * pow2(0));
            }
        } else {
            limbs.push(lo);
            limbs.push(hi);
            proof {
                let s = limbs@;
                let d = s.drop_last();
                assert(d.drop_last() =~= Seq::<u32>::empty());
                assert(limbs_nat(d.drop_last()) == 0);
                assert(d.last() == lo);
                assert(d.len() == 1);
                assert(limbs_nat(d) == (limbs_nat(d.drop_last()) + lo * pow2(0)) as nat);
                assert(limbs_nat(s) == (limbs_nat(d) + hi * pow2(32)) as nat);
            }
        }
        BigNum { limbs }
    }

    /// Builds a big integer from a 32-bit value.
    pub fn from_u32(x: u32) -> (r: BigNum)
        ensures
            r.wf(),
            r.as_nat() == x,
    {
        BigNum::from_u64(x as u64)
    }


    /// Copies the value.
    pub fn clone_num(&self) -> (r: BigNum)
        ensures
            r.as_nat() == self.as_nat(),
            r.wf() == self.wf(),
            r.limbs_seq() == self.limbs_seq(),
    {
        let mut limbs: Vec<u32> = Vec::new();
        let mut i: usize = 0;
        while i < self.limbs.len()
            invariant
                i <= self.limbs@.len(),
                limbs@ == self.limbs@.subrange(0, i as int),
            decreases self.limbs@.len() - i,
        {
            proof {
                assert(limbs@.push(self.limbs@[i as int]) =~= self.limbs@.subrange(0, i + 1));
            }
            limbs.push(self.limbs[i]);
            i += 1;
        }
        proof {
            assert(limbs@ =~= self.limbs@);
        }
        BigNum { limbs }
    }

    /// How many base-2^32 limbs the value occupies.
    pub fn num_limbs(&self) -> (r: usize)
        ensures
            r == self.limbs_seq().len(),
    {
        self.limbs.len()
    }

    /// The stored limbs, least significant first.
    pub fn limbs(&self) -> (r: &Vec<u32>)
        ensures
            r@ == self.limbs_seq(),
    {
        &self.limbs
    }

    /// Numeric strict comparison.
    pub fn lt(&self, other: &BigNum) -> (r: bool)
        requires
            self.wf(),
            other.wf(),
        ensures
            r == (self.as_nat() < other.as_nat()),
    {
        let n = self.limbs.len();
        let m = other.limbs.len();
        if n != m {
            proof {
                if n < m {
                    lemma_limbs_nat_bound(self.limbs@);
                    lemma_limbs_nat_minimal_lower(other.limbs@);
                    if 32 * n < 32 * (m - 1) {
                        vstd::arithmetic::power2::lemma_pow2_strictly_increases(
                            32 * n as nat,
                            32 * (m - 1) as nat,
                        );
                    }
                } else {
                    lemma_limbs_nat_bound(other.limbs@);
                    lemma_limbs_nat_minimal_lower(self.limbs@);
                    if 32 * m < 32 * (n - 1) {
                        vstd::arithmetic::power2::lemma_pow2_strictly_increases(
                            32 * m as nat,
                            32 * (n - 1) as nat,
                        );
                    }
                }
            }
            return n < m;
        }
        let mut i: usize = n;
        while i > 0
            invariant
                i <= n,
                n == self.limbs@.len(),
                n == other.limbs@.len(),
                forall|j: int| i <= j < n ==> self.limbs@[j] == other.limbs@[j],
            decreases i,
        {
            i -= 1;
            if self.limbs[i] < other.limbs[i] {
                proof {
                    lemma_lex_lt(self.limbs@, other.limbs@, i as int);
                }
                return true;
            }
            if self.limbs[i] > other.limbs[i] {
                proof {
                    lemma_lex_lt(other.limbs@, self.limbs@, i as int);
                }
                return false;
            }
        }
        proof {
            assert(self.limbs@ =~= other.limbs@);
        }
        false
    }

    /// Numeric non-strict comparison.
    pub fn le(&self, other: &BigNum) -> (r: bool)
        requires
            self.wf(),
            other.wf(),
        ensures
            r == (self.as_nat() <= other.as_nat()),
    {
        !other.lt(self)
    }

    /// Numeric equality.
    pub fn eq_value(&self, other: &BigNum) -> (r: bool)
        requires
            self.wf(),
            other.wf(),
        ensures
            r == (self.as_nat() == other.as_nat()),
    {
        !self.lt(other) && !other.lt(self)
    }

    /// Integer-division quotient.
    pub fn div(&self, other: &BigNum) -> (r: BigNum)
        requires
            other.as_nat() != 0,
        ensures
            r.wf(),
            r.as_nat() == self.as_nat() / other.as_nat(),
    {
        let limbs = biguint_div_limbs(&self.limbs, &other.limbs);
        BigNum { limbs }
    }

    /// The big-endian byte serialization of the value: minimal, except that
    /// zero serializes as one zero byte.
    pub fn to_bytes_be(&self) -> (r: Vec<u8>)
        ensures
            r@ == biguint_bytes(self.as_nat()),
    {
        biguint_to_bytes_be(&self.limbs)
    }
}

/// Relies on num_bigint: `BigUint::from_slice` reads base-2^32 digits least
/// significant first, `/` computes the integer-division quotient, and
/// `to_u32_digits` returns the quotient's digits least significant first with
/// no trailing zero digit.
#[verifier::external_body]
fn biguint_div_limbs(a: &Vec<u32>, b: &Vec<u32>) -> (r: Vec<u32>)
    requires
        limbs_nat(b@) != 0,
    ensures
        limbs_nat(r@) == limbs_nat(a@) / limbs_nat(b@),
        r@.len() == 0 || r@.last() != 0,
{
    let q = num_bigint::BigUint::from_slice(a) / num_bigint::BigUint::from_slice(b);
    q.to_u32_digits()
}

/// Relies on num_bigint: `BigUint::from_slice` reads base-2^32 digits least
/// significant first and `to_bytes_be` returns the number's big-endian bytes
/// with no leading zero byte, a single zero byte for zero.
#[verifier::external_body]
fn biguint_to_bytes_be(a: &Vec<u32>) -> (r: Vec<u8>)
    ensures
        r@ == biguint_bytes(limbs_nat(a@)),
{
    num_bigint::BigUint::from_slice(a).to_bytes_be()
}


/// How many base-2^32 limbs a number needs: none for zero, else one per
/// division by the limb base until it vanishes.
#[verifier::opaque]
pub open spec fn limb_count(n: nat) -> nat
    decreases n,
{
    if n == 0 {
        0
    } else {
        1 + limb_count(n / 0x1_0000_0000)
    }
}

pub proof fn lemma_limb_count_of_range(n: nat, k: nat)
    requires
        k >= 1,
        pow2(32 * (k - 1) as nat) <= n < pow2(32 * k),
    ensures
        limb_count(n) == k,
    decreases k,
{
    reveal(limb_count);
    lemma2_to64();
    lemma_pow2_pos(32 * (k - 1) as nat);
    assert(n >= 1);
    if k == 1 {
        assert(n / 0x1_0000_0000 == 0);
        assert(limb_count(0nat) == 0);
        assert(limb_count(n) == 1 + limb_count(n / 0x1_0000_0000));
    } else {
        lemma_pow2_adds(32 * (k - 2) as nat, 32);
        lemma_pow2_adds(32 * (k - 1) as nat, 32);
        assert(n / 0x1_0000_0000 >= pow2(32 * (k - 2) as nat)) by {
            vstd::arithmetic::div_mod::lemma_div_multiples_vanish(
                pow2(32 * (k - 2) as nat) as int,
                0x1_0000_0000,
            );
            vstd::arithmetic::div_mod::lemma_div_is_ordered(
                pow2(32 * (k - 2) as nat) as int * 0x1_0000_0000,
                n as int,
                0x1_0000_0000,
            );
        }
        assert(n / 0x1_0000_0000 < pow2(32 * (k - 1) as nat)) by {
            vstd::arithmetic::div_mod::lemma_multiply_divide_lt(
                n as int,
                0x1_0000_0000,
                pow2(32 * (k - 1) as nat) as int,
            );
        }
        lemma_limb_count_of_range(n / 0x1_0000_0000, (k - 1) as nat);
        assert(limb_count(n) == 1 + limb_count(n / 0x1_0000_0000));
    }
}


/// The value a big integer denotes is its limbs' value.
pub proof fn lemma_as_nat_is_limbs(a: &BigNum)
    ensures
        a.as_nat() == limbs_nat(a.limbs_seq()),
{
}

/// A well-formed big integer occupies exactly as many limbs as its value
/// needs.
pub proof fn lemma_wf_limb_count(a: &BigNum)
    requires
        a.wf(),
    ensures
        a.limbs_seq().len() == limb_count(a.as_nat()),
{
    let s = a.limbs@;
    if s.len() == 0 {
        reveal(limb_count);
    } else {
        lemma_limbs_nat_bound(s);
        lemma_limbs_nat_minimal_lower(s);
        lemma_limb_count_of_range(limbs_nat(s), s.len());
    }
}

/// A well-formed big integer denoting at most another's value occupies at
/// most as many limbs.
pub proof fn lemma_num_limbs_le(a: &BigNum, b: &BigNum)
    requires
        a.wf(),
        a.as_nat() <= b.as_nat(),
    ensures
        a.limbs_seq().len() <= b.limbs_seq().len(),
{
    let s = a.limbs@;
    let t = b.limbs@;
    if s.len() > t.len() {
        lemma_limbs_nat_bound(t);
        lemma_limbs_nat_minimal_lower(s);
        if 32 * t.len() < 32 * (s.len() - 1) {
            vstd::arithmetic::power2::lemma_pow2_strictly_increases(
                32 * t.len(),
                32 * (s.len() - 1) as nat,
            );
        }
        assert(false);
    }
}

} // verus!
