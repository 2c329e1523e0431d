use vstd::prelude::*;
use rand::Rng;
use rand::RngCore;
use crate::error::TypeConversionError;
use crate::util::{convert_u64_le_to_u8_be, u64s_rev_be_bytes};

verus! {

/// The number denoted by big-endian bytes.
pub open spec fn be_bytes_nat(b: Seq<u8>) -> nat
    decreases b.len(),
{
    if b.len() == 0 {
        0
    } else {
        (256 * be_bytes_nat(b.drop_last()) + b.last()) as nat
    }
}

/// The order of the secp256k1 base field.
pub open spec fn secp_field_order() -> nat {
    0xfffffffffffffffffffffffffffffffffffffffffffffffffffffffefffffc2fnat
}

/// The order of the secp256k1 group of curve points.
pub open spec fn secp_group_order() -> nat {
    0xfffffffffffffffffffffffffffffffebaaedce6af48a03bbfd25e8cd0364141nat
}

/// Thirty-two big-endian bytes encode a valid secret key when they denote a
/// nonzero scalar below the group order; the signing library rejects any
/// others.
#[verifier::opaque]
pub open spec fn valid_secret_key_bytes(b: Seq<u8>) -> bool {
    b.len() == 32 && 0 < be_bytes_nat(b) < secp_group_order()
}

/// Whether coordinates denote a point of the curve `y^2 = x^3 + 7`.
pub open spec fn on_curve(x: nat, y: nat) -> bool {
    (y * y) % secp_field_order() == (x * x * x + 7) % secp_field_order()
}

/// Sixty-four bytes encode a valid public key when they hold the big-endian
/// coordinates, each below the field order, of a point of the curve; the
/// signing library rejects any others.
#[verifier::opaque]
pub open spec fn valid_public_key_bytes(b: Seq<u8>) -> bool {
    &&& b.len() == 64
    &&& be_bytes_nat(b.subrange(0, 32)) < secp_field_order()
    &&& be_bytes_nat(b.subrange(32, 64)) < secp_field_order()
    &&& on_curve(be_bytes_nat(b.subrange(0, 32)), be_bytes_nat(b.subrange(32, 64)))
}

/// The least-significant-first 64-bit limbs of a 32-byte big-endian string.
pub open spec fn limbs_of_be_bytes(b: Seq<u8>) -> Seq<u64> {
    Seq::new(4, |i: int| be_bytes_nat(b.subrange(32 - 8 * (i + 1), 32 - 8 * i)) as u64)
}

/// Valid secret-key bytes are exactly 32 bytes long.
pub proof fn lemma_valid_secret_key_len(b: Seq<u8>)
    requires
        valid_secret_key_bytes(b),
    ensures
        b.len() == 32,
{
    reveal(valid_secret_key_bytes);
}

/// Valid public-key bytes are exactly 64 bytes long.
pub proof fn lemma_valid_public_key_len(b: Seq<u8>)
    requires
        valid_public_key_bytes(b),
    ensures
        b.len() == 64,
{
    reveal(valid_public_key_bytes);
}

/// The public key, as sixty-four bytes of big-endian coordinates, derived
/// from a secret key; named after the outside derivation that computes it.
pub uninterp spec fn pubkey_of(sk: Seq<u8>) -> Seq<u8>;

/// The deterministic ECDSA signature, as two 32-byte big-endian scalars, of a
/// 32-byte message under a secret key; named after the outside signing
/// routine, which derives its nonce deterministically.
pub uninterp spec fn ecdsa_sig_of(msg: Seq<u8>, sk: Seq<u8>) -> (Seq<u8>, Seq<u8>);

/// Whether an ECDSA signature, given as raw big-endian scalar bytes, is valid
/// for a message and a public key; named after the outside verifier.
pub uninterp spec fn ecdsa_verify_ok(msg: Seq<u8>, r: Seq<u8>, s: Seq<u8>, pk: Seq<u8>) -> bool;

/// What a 32-byte message reduces to once read as a scalar and re-serialized
/// by the signing library; named after that round trip.
pub uninterp spec fn msg_reduced_of(msg: Seq<u8>) -> Seq<u8>;

/// Relies on libsecp256k1::SecretKey::random with rand's OsRng: it loops
/// until the drawn bytes parse as a key, so whatever comes back, `serialize`
/// returns 32 bytes denoting a nonzero scalar below the group order.
#[verifier::external_body]
fn random_secret_key_bytes() -> (r: Vec<u8>)
    ensures
        valid_secret_key_bytes(r@),
{
    let mut rng = rand::rngs::OsRng;
    let sk = libsecp256k1::SecretKey::random(&mut rng);
    sk.serialize().to_vec()
}

/// Relies on rand::Rng::gen through thread_rng: whatever comes back is 32
/// bytes.
#[verifier::external_body]
fn random_bytes_32() -> (r: Vec<u8>)
    ensures
        r@.len() == 32,
{
    let data: [u8; 32] = rand::thread_rng().gen();
    data.to_vec()
}

/// Relies on rand's OsRng fill_bytes: whatever comes back is 32 bytes, fit
/// for a domain-separator salt.
#[verifier::external_body]
pub fn random_salt() -> (r: Vec<u8>)
    ensures
        r@.len() == 32,
{
    let mut salt = [0u8; 32];
    rand::rngs::OsRng.fill_bytes(&mut salt);
    salt.to_vec()
}

/// Relies on libsecp256k1::SecretKey::parse: it accepts exactly the 32-byte
/// strings denoting a nonzero scalar below the group order.
#[verifier::external_body]
fn secret_key_check(b: &Vec<u8>) -> (r: Result<(), libsecp256k1::Error>)
    requires
        b@.len() == 32,
    ensures
        r is Ok <==> valid_secret_key_bytes(b@),
{
    let mut a = [0u8; 32];
    a.copy_from_slice(b.as_slice());
    match libsecp256k1::SecretKey::parse(&a) {
        Ok(_) => Ok(()),
        Err(e) => Err(e),
    }
}

/// Relies on libsecp256k1::PublicKey::parse_slice in raw format: it accepts
/// exactly sixty-four bytes of in-range coordinates of a curve point.
#[verifier::external_body]
fn public_key_check(b: &Vec<u8>) -> (r: Result<(), libsecp256k1::Error>)
    requires
        b@.len() == 64,
    ensures
        r is Ok <==> valid_public_key_bytes(b@),
{
    match libsecp256k1::PublicKey::parse_slice(
        b.as_slice(),
        Some(libsecp256k1::PublicKeyFormat::Raw),
    ) {
        Ok(_) => Ok(()),
        Err(e) => Err(e),
    }
}

/// Relies on libsecp256k1::PublicKey::from_secret_key and serialize: the
/// serialized form is one tag byte followed by the point's big-endian
/// coordinates, which parse back as a valid public key.
#[verifier::external_body]
fn public_key_from_secret_bytes(sk: &Vec<u8>) -> (r: Vec<u8>)
    requires
        valid_secret_key_bytes(sk@),
    ensures
        r@ == pubkey_of(sk@),
        valid_public_key_bytes(r@),
{
    let mut a = [0u8; 32];
    a.copy_from_slice(sk.as_slice());
    let secret = libsecp256k1::SecretKey::parse(&a).expect("valid secret key bytes");
    let public = libsecp256k1::PublicKey::from_secret_key(&secret);
    public.serialize()[1..65].to_vec()
}

/// Relies on libsecp256k1::sign: the signature of the message under the key,
/// serialized as the two scalars' big-endian bytes; the nonce is derived
/// deterministically, so the result is a function of the arguments alone,
/// and both scalars are nonzero and below the group order.
#[verifier::external_body]
fn ecdsa_sign_bytes(msg: &Vec<u8>, sk: &Vec<u8>) -> (r: (Vec<u8>, Vec<u8>))
    requires
        msg@.len() == 32,
        valid_secret_key_bytes(sk@),
    ensures
        (r.0@, r.1@) == ecdsa_sig_of(msg@, sk@),
        valid_secret_key_bytes(r.0@),
        valid_secret_key_bytes(r.1@),
{
    let mut m = [0u8; 32];
    m.copy_from_slice(msg.as_slice());
    let mut a = [0u8; 32];
    a.copy_from_slice(sk.as_slice());
    let secret = libsecp256k1::SecretKey::parse(&a).expect("valid secret key bytes");
    let message = libsecp256k1::Message::parse(&m);
    let (signature, _) = libsecp256k1::sign(&message, &secret);
    let ser = signature.serialize();
    (ser[0..32].to_vec(), ser[32..64].to_vec())
}

/// Relies on libsecp256k1::verify, with Signature::parse_standard_slice to
/// read the scalars: a signature either scalar of which overflows the group
/// order or is zero is invalid, and otherwise the verifier decides; the
/// verdict is a function of the arguments alone.
#[verifier::external_body]
fn ecdsa_verify_bytes(msg: &Vec<u8>, sig_r: &Vec<u8>, sig_s: &Vec<u8>, pk: &Vec<u8>) -> (r: bool)
    requires
        msg@.len() == 32,
        sig_r@.len() == 32,
        sig_s@.len() == 32,
        valid_public_key_bytes(pk@),
    ensures
        r == ecdsa_verify_ok(msg@, sig_r@, sig_s@, pk@),
{
    let mut m = [0u8; 32];
    m.copy_from_slice(msg.as_slice());
    let message = libsecp256k1::Message::parse(&m);
    let mut compact = [0u8; 64];
    compact[0..32].copy_from_slice(sig_r.as_slice());
    compact[32..64].copy_from_slice(sig_s.as_slice());
    let signature = match libsecp256k1::Signature::parse_standard(&compact) {
        Ok(s) => s,
        Err(_) => return false,
    };
    let public = libsecp256k1::PublicKey::parse_slice(
        pk.as_slice(),
        Some(libsecp256k1::PublicKeyFormat::Raw),
    ).expect("valid public key bytes");
    libsecp256k1::verify(&message, &signature, &public)
}

/// Relies on libsecp256k1::Message::parse and serialize: parse reads the
/// bytes as a scalar, allowing reduction, and serialize writes that scalar
/// back as 32 big-endian bytes; the round trip is a function of the bytes,
/// and bytes already denoting a scalar below the group order come back
/// unchanged.
#[verifier::external_body]
fn message_reduce_bytes(msg: &Vec<u8>) -> (r: Vec<u8>)
    requires
        msg@.len() == 32,
    ensures
        r@ == msg_reduced_of(msg@),
        r@.len() == 32,
        be_bytes_nat(msg@) < secp_group_order() ==> r@ == msg@,
{
    let mut m = [0u8; 32];
    m.copy_from_slice(msg.as_slice());
    libsecp256k1::Message::parse(&m).serialize().to_vec()
}

/// A secret signing key, held as the 32 big-endian bytes of its scalar.
pub struct PrivateKey {
    bytes: Vec<u8>,
}

impl PrivateKey {
    /// The key's scalar bytes.
    pub closed spec fn bytes_seq(&self) -> Seq<u8> {
        self.bytes@
    }

    /// The held bytes denote a nonzero scalar below the group order.
    pub open spec fn wf(&self) -> bool {
        valid_secret_key_bytes(self.bytes_seq())
    }

    /// Draws a fresh random key.
    pub fn new() -> (r: PrivateKey)
        ensures
            r.wf(),
    {
        PrivateKey { bytes: random_secret_key_bytes() }
    }

    /// Reads a key from the proof engine's limb representation: four 64-bit
    /// limbs, least significant first. Succeeds exactly when the denoted
    /// scalar is a valid secret key.
    pub fn from_plonky2_secret_key(limbs: &[u64; 4]) -> (r: Result<
        PrivateKey,
        TypeConversionError,
    >)
        ensures
            match r {
                Ok(pk) => pk.wf() && pk.bytes_seq() == u64s_rev_be_bytes(limbs@)
                    && valid_secret_key_bytes(u64s_rev_be_bytes(limbs@)),
                Err(e) => !valid_secret_key_bytes(u64s_rev_be_bytes(limbs@)) && (
                e matches TypeConversionError::InvalidLibSecp256K1TypeConversion(_)),
            },
    {
        let slice = vstd::array::array_as_slice(limbs);
        let bytes = match convert_u64_le_to_u8_be::<32>(slice) {
            Ok(b) => b,
            Err(_) => {
                proof {
                    assert(false);
                }
                return Err(TypeConversionError::InvalidSliceLength(4, 32));
            },
        };
        match secret_key_check(&bytes) {
            Ok(_) => Ok(PrivateKey { bytes }),
            Err(e) => Err(TypeConversionError::InvalidLibSecp256K1TypeConversion(e)),
        }
    }

    /// The key's scalar bytes.
    pub fn bytes_vec(&self) -> (r: &Vec<u8>)
        ensures
            r@ == self.bytes_seq(),
    {
        &self.bytes
    }

    /// Signs a 32-byte message with this key.
    pub fn sign_message(&self, message: &Message) -> (r: Signature)
        requires
            self.wf(),
            message.wf(),
        ensures
            r.wf(),
            (r.r_seq(), r.s_seq()) == ecdsa_sig_of(message.bytes_seq(), self.bytes_seq()),
    {
        let (sig_r, sig_s) = ecdsa_sign_bytes(&message.bytes, &self.bytes);
        Signature { r: sig_r, s: sig_s }
    }
}

/// A public verification key, held as the sixty-four big-endian coordinate
/// bytes of its curve point.
pub struct PublicKey {
    bytes: Vec<u8>,
}

impl PublicKey {
    /// The point's coordinate bytes, x then y, big-endian.
    pub closed spec fn bytes_seq(&self) -> Seq<u8> {
        self.bytes@
    }

    /// The held bytes denote a point of the curve.
    pub open spec fn wf(&self) -> bool {
        valid_public_key_bytes(self.bytes_seq())
    }

    /// Derives the public key of a secret key.
    pub fn from_private_key(private_key: &PrivateKey) -> (r: PublicKey)
        requires
            private_key.wf(),
        ensures
            r.wf(),
            r.bytes_seq() == pubkey_of(private_key.bytes_seq()),
    {
        PublicKey { bytes: public_key_from_secret_bytes(&private_key.bytes) }
    }

    /// Derives the public key of a secret key given in the proof engine's
    /// limb representation.
    pub fn from_plonky2_secret_key(limbs: &[u64; 4]) -> (r: Result<
        PublicKey,
        TypeConversionError,
    >)
        ensures
            match r {
                Ok(pk) => pk.wf() && valid_secret_key_bytes(u64s_rev_be_bytes(limbs@))
                    && pk.bytes_seq() == pubkey_of(u64s_rev_be_bytes(limbs@)),
                Err(e) => !valid_secret_key_bytes(u64s_rev_be_bytes(limbs@)) && (
                e matches TypeConversionError::InvalidLibSecp256K1TypeConversion(_)),
            },
    {
        let private_key = PrivateKey::from_plonky2_secret_key(limbs)?;
        Ok(Self::from_private_key(&private_key))
    }

    /// The held coordinate bytes.
    pub fn bytes_vec(&self) -> (r: &Vec<u8>)
        ensures
            r@ == self.bytes_seq(),
    {
        &self.bytes
    }

    /// Copies the key.
    pub fn clone_key(&self) -> (r: PublicKey)
        ensures
            r.bytes_seq() == self.bytes_seq(),
    {
        let mut bytes: Vec<u8> = Vec::new();
        let mut i: usize = 0;
        while i < self.bytes.len()
            invariant
                i <= self.bytes@.len(),
                bytes@ == self.bytes@.subrange(0, i as int),
            decreases self.bytes@.len() - i,
        {
            proof {
                assert(bytes@.push(self.bytes@[i as int]) =~= self.bytes@.subrange(0, i + 1));
            }
            bytes.push(self.bytes[i]);
            i += 1;
        }
        proof {
            assert(bytes@ =~= self.bytes@);
        }
        PublicKey { bytes }
    }

    /// Reads a public key from the proof engine's limb representation: each
    /// coordinate as four 64-bit limbs, least significant first. Succeeds
    /// exactly when the coordinates denote a point of the curve.
    pub fn from_plonky2_public_key(x_limbs: &[u64; 4], y_limbs: &[u64; 4]) -> (r: Result<
        PublicKey,
        TypeConversionError,
    >)
        ensures
            match r {
                Ok(pk) => pk.wf() && pk.bytes_seq() == u64s_rev_be_bytes(x_limbs@)
                    + u64s_rev_be_bytes(y_limbs@),
                Err(e) => !valid_public_key_bytes(
                    u64s_rev_be_bytes(x_limbs@) + u64s_rev_be_bytes(y_limbs@),
                ) && (e matches TypeConversionError::InvalidLibSecp256K1TypeConversion(_)),
            },
    {
        let xs = vstd::array::array_as_slice(x_limbs);
        let ys = vstd::array::array_as_slice(y_limbs);
        let mut bytes = match convert_u64_le_to_u8_be::<32>(xs) {
            Ok(b) => b,
            Err(_) => {
                proof {
                    assert(false);
                }
                return Err(TypeConversionError::InvalidSliceLength(4, 32));
            },
        };
        let mut y_bytes = match convert_u64_le_to_u8_be::<32>(ys) {
            Ok(b) => b,
            Err(_) => {
                proof {
                    assert(false);
                }
                return Err(TypeConversionError::InvalidSliceLength(4, 32));
            },
        };
        bytes.append(&mut y_bytes);
        proof {
            assert(bytes@.subrange(0, 32) =~= u64s_rev_be_bytes(x_limbs@));
            assert(bytes@.subrange(32, 64) =~= u64s_rev_be_bytes(y_limbs@));
        }
        match public_key_check(&bytes) {
            Ok(_) => Ok(PublicKey { bytes }),
            Err(e) => Err(TypeConversionError::InvalidLibSecp256K1TypeConversion(e)),
        }
    }

    /// Writes the key in the proof engine's limb representation: the two
    /// coordinates, each as four 64-bit limbs, least significant first.
    pub fn into_plonky2_public_key(&self) -> (r: (Vec<u64>, Vec<u64>))
        requires
            self.wf(),
        ensures
            r.0@ == limbs_of_be_bytes(self.bytes_seq().subrange(0, 32)),
            r.1@ == limbs_of_be_bytes(self.bytes_seq().subrange(32, 64)),
    {
        proof {
            lemma_valid_public_key_len(self.bytes@);
        }
        let x_bytes = copy_byte_range(&self.bytes, 0, 32);
        let y_bytes = copy_byte_range(&self.bytes, 32, 64);
        let x_limbs = be_bytes32_to_u64_le_limbs(&x_bytes);
        let y_limbs = be_bytes32_to_u64_le_limbs(&y_bytes);
        (x_limbs, y_limbs)
    }
}

/// A 32-byte message to be signed, held as the bytes handed in.
pub struct Message {
    bytes: Vec<u8>,
}

impl Message {
    /// The message bytes.
    pub closed spec fn bytes_seq(&self) -> Seq<u8> {
        self.bytes@
    }

    /// The message holds exactly 32 bytes.
    pub open spec fn wf(&self) -> bool {
        self.bytes_seq().len() == 32
    }

    /// Wraps 32 message bytes.
    pub fn new_message(data: Vec<u8>) -> (r: Message)
        requires
            data@.len() == 32,
        ensures
            r.wf(),
            r.bytes_seq() == data@,
    {
        Message { bytes: data }
    }

    /// Reads a message from a slice; fails exactly when the slice does not
    /// hold 32 bytes.
    pub fn from_slice(slice: &[u8]) -> (r: Result<Message, TypeConversionError>)
        ensures
            match r {
                Ok(m) => slice@.len() == 32 && m.wf() && m.bytes_seq() == slice@,
                Err(e) => slice@.len() != 32 && (
                e matches TypeConversionError::InvalidLibSecp256K1TypeConversion(_)),
            },
    {
        if slice.len() != 32 {
            return Err(TypeConversionError::InvalidLibSecp256K1TypeConversion(
                invalid_input_length_error(),
            ));
        }
        let mut bytes: Vec<u8> = Vec::new();
        let mut i: usize = 0;
        while i < 32
            invariant
                i <= 32,
                slice@.len() == 32,
                bytes@ == slice@.subrange(0, i as int),
            decreases 32 - i,
        {
            bytes.push(slice[i]);
            i += 1;
        }
        proof {
            assert(bytes@ =~= slice@);
        }
        Ok(Message { bytes })
    }

    /// The bytes of the message's scalar, as the signing library re-serializes
    /// them; a message already below the group order comes back unchanged.
    pub fn into_bytes(&self) -> (r: Vec<u8>)
        requires
            self.wf(),
        ensures
            r@ == msg_reduced_of(self.bytes_seq()),
            r@.len() == 32,
            be_bytes_nat(self.bytes_seq()) < secp_group_order() ==> r@ == self.bytes_seq(),
    {
        message_reduce_bytes(&self.bytes)
    }

    /// The held message bytes.
    pub fn bytes_vec(&self) -> (r: &Vec<u8>)
        ensures
            r@ == self.bytes_seq(),
    {
        &self.bytes
    }

    /// Writes the message scalar in the proof engine's limb representation:
    /// four 64-bit limbs, least significant first.
    pub fn into_plonky2_message(&self) -> (r: Vec<u64>)
        requires
            self.wf(),
        ensures
            r@ == limbs_of_be_bytes(msg_reduced_of(self.bytes_seq())),
    {
        let reduced = self.into_bytes();
        be_bytes32_to_u64_le_limbs(&reduced)
    }
}

/// An ECDSA signature, held as the two scalars' big-endian bytes.
pub struct Signature {
    r: Vec<u8>,
    s: Vec<u8>,
}

impl Signature {
    /// The bytes of the signature's first scalar.
    pub closed spec fn r_seq(&self) -> Seq<u8> {
        self.r@
    }

    /// The bytes of the signature's second scalar.
    pub closed spec fn s_seq(&self) -> Seq<u8> {
        self.s@
    }

    /// Both scalars are nonzero and below the group order.
    pub open spec fn wf(&self) -> bool {
        valid_secret_key_bytes(self.r_seq()) && valid_secret_key_bytes(self.s_seq())
    }

    /// The first scalar's bytes.
    pub fn r_bytes_vec(&self) -> (r: &Vec<u8>)
        ensures
            r@ == self.r_seq(),
    {
        &self.r
    }

    /// The second scalar's bytes.
    pub fn s_bytes_vec(&self) -> (r: &Vec<u8>)
        ensures
            r@ == self.s_seq(),
    {
        &self.s
    }

    /// Writes the signature in the proof engine's limb representation: each
    /// scalar as four 64-bit limbs, least significant first.
    pub fn into_plonky2_signature(&self) -> (r: (Vec<u64>, Vec<u64>))
        requires
            self.wf(),
        ensures
            r.0@ == limbs_of_be_bytes(self.r_seq()),
            r.1@ == limbs_of_be_bytes(self.s_seq()),
    {
        proof {
            lemma_valid_secret_key_len(self.r@);
            lemma_valid_secret_key_len(self.s@);
        }
        (be_bytes32_to_u64_le_limbs(&self.r), be_bytes32_to_u64_le_limbs(&self.s))
    }
}

/// Relies on libsecp256k1::Error: an error value reporting an invalid input
/// length.
#[verifier::external_body]
fn invalid_input_length_error() -> libsecp256k1::Error {
    libsecp256k1::Error::InvalidInputLength
}

/// Checks an ECDSA signature over a message for a public key.
pub fn verify_signature(message: &Message, signature: &Signature, public_key: &PublicKey) -> (r:
    bool)
    requires
        message.wf(),
        signature.wf(),
        public_key.wf(),
    ensures
        r == ecdsa_verify_ok(
            message.bytes_seq(),
            signature.r_seq(),
            signature.s_seq(),
            public_key.bytes_seq(),
        ),
{
    proof {
        lemma_valid_secret_key_len(signature.r@);
        lemma_valid_secret_key_len(signature.s@);
    }
    ecdsa_verify_bytes(&message.bytes, &signature.r, &signature.s, &public_key.bytes)
}

/// Draws a fresh random 32-byte message.
pub fn generate_random_message() -> (r: Message)
    ensures
        r.wf(),
{
    Message { bytes: random_bytes_32() }
}

/// Copies the byte range `[from, to)` out of a vector.
fn copy_byte_range(b: &Vec<u8>, from: usize, to: usize) -> (r: Vec<u8>)
    requires
        from <= to <= b@.len(),
    ensures
        r@ == b@.subrange(from as int, to as int),
{
    let mut out: Vec<u8> = Vec::new();
    let mut i: usize = from;
    while i < to
        invariant
            from <= i <= to <= b@.len(),
            out@ == b@.subrange(from as int, i as int),
        decreases to - i,
    {
        proof {
            assert(out@.push(b@[i as int]) =~= b@.subrange(from as int, i + 1));
        }
        out.push(b[i]);
        i += 1;
    }
    out
}

/// Splits 32 big-endian bytes into four 64-bit limbs, least significant
/// first.
pub fn be_bytes32_to_u64_le_limbs(b: &Vec<u8>) -> (r: Vec<u64>)
    requires
        b@.len() == 32,
    ensures
        r@ == limbs_of_be_bytes(b@),
{
    let mut out: Vec<u64> = Vec::new();
    let mut j: usize = 0;
    while j < 4
        invariant
            j <= 4,
            b@.len() == 32,
            out@.len() == j,
            forall|t: int| 0 <= t < j ==> out@[t] == limbs_of_be_bytes(b@)[t],
        decreases 4 - j,
    {
        let limb = read_u64_be(b, 32 - 8 * (j + 1));
        proof {
            lemma_be_bytes_nat_bound(b@.subrange(32 - 8 * (j + 1), 32 - 8 * (j as int)));
            vstd::arithmetic::power2::lemma2_to64_rest();
        }
        out.push(limb);
        j += 1;
    }
    proof {
        assert(out@ =~= limbs_of_be_bytes(b@));
    }
    out
}

/// Reads eight big-endian bytes as one 64-bit word.
fn read_u64_be(b: &Vec<u8>, off: usize) -> (r: u64)
    requires
        off + 8 <= b@.len(),
    ensures
        r == be_bytes_nat(b@.subrange(off as int, off + 8)),
{
    let bn = b.len();
    let mut acc: u64 = 0;
    let mut k: usize = 0;
    proof {
        vstd::arithmetic::power2::lemma2_to64();
        assert(b@.subrange(off as int, off as int) =~= Seq::<u8>::empty());
    }
    while k < 8
        invariant
            k <= 8,
            off + 8 <= bn,
            bn == b@.len(),
            acc == be_bytes_nat(b@.subrange(off as int, off + k)),
            acc < vstd::arithmetic::power2::pow2(8 * k as nat),
        decreases 8 - k,
    {
        proof {
            lemma_be_bytes_nat_bound(b@.subrange(off as int, off + k));
            vstd::arithmetic::power2::lemma_pow2_adds(8 * k as nat, 8);
            vstd::arithmetic::power2::lemma2_to64();
            vstd::arithmetic::power2::lemma2_to64_rest();
        }
        let byte = b[off + k];
        proof {
            let s = b@.subrange(off as int, off + k + 1);
            assert(s.drop_last() =~= b@.subrange(off as int, off + k));
            assert(s.last() == b@[off + k]);
        }
        acc = 256 * acc + byte as u64;
        k += 1;
        proof {
            lemma_be_bytes_nat_bound(b@.subrange(off as int, off + k));
        }
    }
    acc
}

pub proof fn lemma_be_bytes_nat_bound(b: Seq<u8>)
    ensures
        be_bytes_nat(b) < vstd::arithmetic::power2::pow2(8 * b.len()),
    decreases b.len(),
{
    vstd::arithmetic::power2::lemma2_to64();
    if b.len() > 0 {
        lemma_be_bytes_nat_bound(b.drop_last());
        vstd::arithmetic::power2::lemma_pow2_adds(8 * (b.len() - 1) as nat, 8);
        assert(256 * be_bytes_nat(b.drop_last()) <= 256 * (vstd::arithmetic::power2::pow2(
            8 * (b.len() - 1) as nat,
        ) - 1)) by (nonlinear_arith)
            requires be_bytes_nat(b.drop_last()) <= vstd::arithmetic::power2::pow2(
                8 * (b.len() - 1) as nat,
            ) - 1;
    }
}

} // verus!
