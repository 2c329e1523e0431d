use vstd::prelude::*;
use vstd::utf8::encode_utf8;

verus! {

/// The 32-byte Keccak-256 digest of a byte string, named after the outside
/// hash function that computes it.
pub uninterp spec fn keccak_of(data: Seq<u8>) -> Seq<u8>;

/// Relies on keccak_hash::keccak: the 32-byte Keccak-256 digest of the input
/// bytes, a function of the input alone.
#[verifier::external_body]
pub fn keccak_digest(data: &[u8]) -> (r: Vec<u8>)
    ensures
        r@ == keccak_of(data@),
        r@.len() == 32,
{
    keccak_hash::keccak(data).as_bytes().to_vec()
}

/// The type-tagged hash of a value: the digest of the type encoding's digest
/// followed by the data encoding's digest.
pub open spec fn structured_hash_of(type_bytes: Seq<u8>, data_bytes: Seq<u8>) -> Seq<u8> {
    keccak_of(keccak_of(type_bytes) + keccak_of(data_bytes))
}

/// Computes the structured hash from a type encoding and a data encoding.
pub fn structured_hash_bytes(type_encoding: &String, data: &Vec<u8>) -> (r: Vec<u8>)
    ensures
        r@ == structured_hash_of(encode_utf8(type_encoding@), data@),
        r@.len() == 32,
{
    let mut cat = keccak_digest(type_encoding.as_str().as_bytes());
    let mut dh = keccak_digest(data.as_slice());
    cat.append(&mut dh);
    keccak_digest(cat.as_slice())
}

/// Canonical, type-tagged hashing of a record: `type_encode` is a function of
/// the type alone, `data_encode` serializes every field, and the structured
/// hash ties the two digests together, separating distinct shapes.
pub trait StructuredHashInterface: Sized {
    /// What the type encoding says, independent of any value.
    spec fn type_encode_spec() -> Seq<char>;

    /// What the data encoding of this value says.
    spec fn data_encode_spec(&self) -> Seq<u8>;

    /// The canonical type signature of the record type.
    fn type_encode() -> (r: String)
        ensures
            r@ == Self::type_encode_spec(),
    ;

    /// The canonical serialization of this value's fields.
    fn data_encode(&self) -> (r: Vec<u8>)
        ensures
            r@ == self.data_encode_spec(),
    ;

    /// The type-tagged digest of this value, used both as its signing payload
    /// and as its commitment leaf.
    fn structured_hash(&self) -> (r: Vec<u8>)
        ensures
            r@ == structured_hash_of(
                encode_utf8(Self::type_encode_spec()),
                self.data_encode_spec(),
            ),
            r@.len() == 32,
    {
        let type_encoding = Self::type_encode();
        let data = self.data_encode();
        structured_hash_bytes(&type_encoding, &data)
    }
}

} // verus!
