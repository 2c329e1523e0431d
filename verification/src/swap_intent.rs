use vstd::prelude::*;
use vstd::string::StringExecFns;
use vstd::utf8::encode_utf8;
use crate::bignum::{BigNum, biguint_bytes};
use crate::hashing::{keccak_of, keccak_digest, structured_hash_of, StructuredHashInterface};

verus! {

/// The price of an intent: its quote amount divided by its base-amount bound.
pub type Price = BigNum;

/// The side of the book an intent trades on.
#[derive(Clone, Copy, Debug, Eq, PartialEq, Structural)]
pub enum SwapDirection {
    Buy,
    Sell,
}

impl SwapDirection {
    /// The one-byte tag this direction serializes to.
    pub open spec fn as_byte_spec(self) -> u8 {
        match self {
            SwapDirection::Buy => 0,
            SwapDirection::Sell => 1,
        }
    }

    /// The direction as one bit: `false` for a buy, `true` for a sell.
    pub fn as_bool(self) -> (r: bool)
        ensures
            r == (self is Sell),
    {
        match self {
            SwapDirection::Buy => false,
            SwapDirection::Sell => true,
        }
    }

    /// The direction as one byte: zero for a buy, one for a sell.
    pub fn as_byte(self) -> (r: u8)
        ensures
            r == self.as_byte_spec(),
    {
        match self {
            SwapDirection::Buy => 0,
            SwapDirection::Sell => 1,
        }
    }
}

/// Inputs for a swap.
#[derive(Clone, Debug)]
pub struct SwapInputs {
    /// address
    pub from: BigNum,
    /// quote token
    pub quote_token: BigNum,
    /// base token
    pub base_token: BigNum,
    /// quote amount
    pub quote_amount: BigNum,
    /// trade direction
    pub direction: SwapDirection,
}

impl SwapInputs {
    /// Every numeric field is well-formed.
    pub open spec fn wf(&self) -> bool {
        &&& self.from.wf()
        &&& self.quote_token.wf()
        &&& self.base_token.wf()
        &&& self.quote_amount.wf()
    }
}

impl StructuredHashInterface for SwapInputs {
    open spec fn type_encode_spec() -> Seq<char> {
        "SwapInputs(BigUint from,BigUint quote_token,BigUint base_token,BigUint quote_amount)"@
    }

    open spec fn data_encode_spec(&self) -> Seq<u8> {
        keccak_of(biguint_bytes(self.from.as_nat())) + keccak_of(
            biguint_bytes(self.quote_token.as_nat()),
        ) + keccak_of(biguint_bytes(self.base_token.as_nat())) + keccak_of(
            biguint_bytes(self.quote_amount.as_nat()),
        ) + keccak_of(seq![self.direction.as_byte_spec()])
    }

    fn type_encode() -> (r: String) {
        "SwapInputs(BigUint from,BigUint quote_token,BigUint base_token,BigUint quote_amount)".to_owned()
    }

    fn data_encode(&self) -> (r: Vec<u8>) {
        let mut out = keccak_digest(self.from.to_bytes_be().as_slice());
        let mut quote_token_hash = keccak_digest(self.quote_token.to_bytes_be().as_slice());
        let mut base_token_hash = keccak_digest(self.base_token.to_bytes_be().as_slice());
        let mut quote_amount_hash = keccak_digest(self.quote_amount.to_bytes_be().as_slice());
        let mut direction_tag: Vec<u8> = Vec::new();
        direction_tag.push(self.direction.as_byte());
        let mut direction_hash = keccak_digest(direction_tag.as_slice());
        proof {
            assert(direction_tag@ =~= seq![self.direction.as_byte_spec()]);
        }
        out.append(&mut quote_token_hash);
        out.append(&mut base_token_hash);
        out.append(&mut quote_amount_hash);
        out.append(&mut direction_hash);
        proof {
            assert(out@ =~= self.data_encode_spec());
        }
        out
    }
}

/// Constraints for a swap.
#[derive(Clone, Debug)]
pub struct SwapConstraints {
    /// max slippage amount
    pub min_base_token_amount: BigNum,
}

impl SwapConstraints {
    /// The slippage bound is well-formed.
    pub open spec fn wf(&self) -> bool {
        self.min_base_token_amount.wf()
    }
}

impl StructuredHashInterface for SwapConstraints {
    open spec fn type_encode_spec() -> Seq<char> {
        "SwapConstraints(BigUint min_base_token_amount)"@
    }

    open spec fn data_encode_spec(&self) -> Seq<u8> {
        keccak_of(biguint_bytes(self.min_base_token_amount.as_nat()))
    }

    fn type_encode() -> (r: String) {
        "SwapConstraints(BigUint min_base_token_amount)".to_owned()
    }

    fn data_encode(&self) -> (r: Vec<u8>) {
        keccak_digest(self.min_base_token_amount.to_bytes_be().as_slice())
    }
}

/// Intent to swap tokens.
#[derive(Clone, Debug)]
pub struct SwapIntent {
    pub inputs: SwapInputs,
    pub constraints: SwapConstraints,
}

impl StructuredHashInterface for SwapIntent {
    open spec fn type_encode_spec() -> Seq<char> {
        "SwapIntent(SwapInputs inputs,SwapConstraints constraints)"@
            + SwapConstraints::type_encode_spec() + SwapInputs::type_encode_spec()
    }

    open spec fn data_encode_spec(&self) -> Seq<u8> {
        structured_hash_of(
            encode_utf8(SwapInputs::type_encode_spec()),
            self.inputs.data_encode_spec(),
        ) + structured_hash_of(
            encode_utf8(SwapConstraints::type_encode_spec()),
            self.constraints.data_encode_spec(),
        )
    }

    fn type_encode() -> (r: String) {
        let mut out = "SwapIntent(SwapInputs inputs,SwapConstraints constraints)".to_owned();
        let constraints_type_encoding = SwapConstraints::type_encode();
        let input_type_encoding = SwapInputs::type_encode();
        out.append(constraints_type_encoding.as_str());
        out.append(input_type_encoding.as_str());
        out
    }

    fn data_encode(&self) -> (r: Vec<u8>) {
        let mut out = self.inputs.structured_hash();
        let mut constraints_data_encoding = self.constraints.structured_hash();
        out.append(&mut constraints_data_encoding);
        out
    }
}

impl SwapIntent {
    /// Every numeric field is well-formed.
    pub open spec fn wf(&self) -> bool {
        self.inputs.wf() && self.constraints.wf()
    }

    /// The sort key of the intent: its quote amount divided by its
    /// base-amount bound, as integers.
    pub open spec fn price_spec(&self) -> nat {
        self.inputs.quote_amount.as_nat() / self.constraints.min_base_token_amount.as_nat()
    }

    /// The bound used as the tie-break term in the ordering comparator.
    pub open spec fn amount_spec(&self) -> nat {
        self.constraints.min_base_token_amount.as_nat()
    }

    /// Computes the intent's price as an integer quotient.
    pub fn get_price(&self) -> (r: Price)
        requires
            self.constraints.min_base_token_amount.as_nat() != 0,
        ensures
            r.wf(),
            r.as_nat() == self.price_spec(),
    {
        self.inputs.quote_amount.div(&self.constraints.min_base_token_amount)
    }
}

} // verus!
