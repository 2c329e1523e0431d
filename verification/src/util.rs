use vstd::prelude::*;
use vstd::arithmetic::power2::{pow2, lemma_pow2_adds, lemma2_to64, lemma2_to64_rest};
use crate::error::TypeConversionError;

verus! {

/// Byte `i` (big-endian position, `0 <= i < 8`) of a 64-bit word.
pub open spec fn u64_byte(x: u64, i: int) -> u8 {
    ((x as nat / pow2((8 * (7 - i)) as nat)) % 256) as u8
}

/// The eight bytes of a 64-bit word in big-endian order.
pub open spec fn u64_be_bytes(x: u64) -> Seq<u8> {
    Seq::new(8, |i: int| u64_byte(x, i))
}

/// The bytes of a sequence of 64-bit limbs given least-significant limb
/// first, re-serialized as one big-endian byte string: the most significant
/// limb contributes the first eight bytes.
pub open spec fn u64s_rev_be_bytes(s: Seq<u64>) -> Seq<u8> {
    Seq::new(8 * s.len(), |i: int| u64_be_bytes(s[s.len() - 1 - i / 8])[i % 8])
}

/// Converts a slice of 64-bit limbs, least-significant limb first, into the
/// big-endian byte string of the number they represent, `N` bytes long.
/// Fails exactly when the slice does not hold `N / 8` limbs.
pub fn convert_u64_le_to_u8_be<const N: usize>(slice: &[u64]) -> (r: Result<
    Vec<u8>,
    TypeConversionError,
>)
    ensures
        match r {
            Ok(data) => 8 * slice@.len() == N && data@ == u64s_rev_be_bytes(slice@),
            Err(e) => 8 * slice@.len() != N && (e matches TypeConversionError::InvalidSliceLength(
                found,
                want,
            ) && found == slice@.len() && want == N),
        },
{
    if slice.len() > usize::MAX / 8 || 8 * slice.len() != N {
        return Err(TypeConversionError::InvalidSliceLength(slice.len(), N));
    }
    let n = slice.len();
    let mut data: Vec<u8> = Vec::new();
    let mut j: usize = 0;
    while j < n
        invariant
            j <= n,
            n == slice@.len(),
            8 * n == N,
            data@.len() == 8 * j,
            forall|i: int|
                0 <= i < 8 * j ==> data@[i] == u64s_rev_be_bytes(slice@)[i],
        decreases n - j,
    {
        let limb = slice[n - 1 - j];
        let mut divisor: u64 = 0x100_0000_0000_0000;
        proof {
            lemma2_to64_rest();
        }
        let mut k: usize = 0;
        while k < 8
            invariant
                k <= 8,
                j < n,
                n == slice@.len(),
                limb == slice@[n - 1 - j],
                k < 8 ==> divisor == pow2((8 * (7 - k)) as nat),
                data@.len() == 8 * j + k,
                forall|i: int|
                    0 <= i < 8 * j ==> data@[i] == u64s_rev_be_bytes(slice@)[i],
                forall|i: int|
                    8 * j <= i < 8 * j + k ==> data@[i] == u64_be_bytes(limb)[i - 8 * j],
            decreases 8 - k,
        {
            proof {
                vstd::arithmetic::power2::lemma_pow2_pos((8 * (7 - k)) as nat);
            }
            let byte = ((limb / divisor) % 256) as u8;
            assert(byte == u64_byte(limb, k as int));
            data.push(byte);
            if k < 7 {
                proof {
                    lemma_pow2_adds((8 * (6 - k)) as nat, 8);
                    lemma2_to64();
                    assert(divisor == pow2((8 * (6 - k)) as nat) * 256);
                    assert(divisor / 256 == pow2((8 * (6 - k)) as nat)) by {
                        vstd::arithmetic::div_mod::lemma_div_multiples_vanish(
                            pow2((8 * (6 - k)) as nat) as int,
                            256,
                        );
                    }
                }
                divisor = divisor / 256;
            }
            k += 1;
        }
        proof {
            assert forall|i: int| 8 * j <= i < 8 * (j + 1) implies data@[i] == u64s_rev_be_bytes(
                slice@,
            )[i] by {
                assert(i / 8 == j) by (nonlinear_arith)
                    requires 8 * j <= i < 8 * (j + 1), 0 <= j;
                assert(i % 8 == i - 8 * j) by (nonlinear_arith)
                    requires 8 * j <= i < 8 * (j + 1), 0 <= j;
            }
        }
        j += 1;
    }
    proof {
        assert(data@ =~= u64s_rev_be_bytes(slice@));
    }
    Ok(data)
}

} // verus!
