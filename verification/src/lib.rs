pub mod bignum;
pub mod challenger;
pub mod circuit;
pub mod eip712;
pub mod error;
pub mod hashing;
pub mod intent;
pub mod keys;
pub mod merkle;
pub mod merkle_circuit;
pub mod signature_circuit;
pub mod solver;
pub mod swap_intent;
pub mod transition;
pub mod util;
pub mod wallet;

use vstd::prelude::*;

verus! {

/// Encodes a boolean as a 32-byte word: `true` becomes a word whose first
/// byte is one, `false` an all-zero word.
pub fn encode_bool_value(value: bool) -> (r: Vec<u8>)
    ensures
        r@.len() == 32,
        r@[0] == (if value { 1u8 } else { 0u8 }),
        forall|i: int| 1 <= i < 32 ==> r@[i] == 0u8,
{
    let mut data: Vec<u8> = Vec::new();
    if value {
        data.push(1u8);
    } else {
        data.push(0u8);
    }
    let mut i: usize = 1;
    while i < 32
        invariant
            1 <= i <= 32,
            data@.len() == i,
            data@[0] == (if value { 1u8 } else { 0u8 }),
            forall|j: int| 1 <= j < i ==> data@[j] == 0u8,
        decreases 32 - i,
    {
        data.push(0u8);
        i += 1;
    }
    data
}

} // verus!
