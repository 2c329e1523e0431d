use vstd::prelude::*;

verus! {

/// Errors raised while bridging values between the signing library's byte
/// representation and the limb representation used by the proof engine.
#[derive(Debug)]
pub enum TypeConversionError {
    /// The signing library rejected the bytes handed to it.
    InvalidLibSecp256K1TypeConversion(libsecp256k1::Error),
    /// A slice had the wrong length: the first field is the length found,
    /// the second the length that was required.
    InvalidSliceLength(usize, usize),
}

/// Errors raised by solution verification.
#[derive(Debug)]
pub enum SolinaError {
    FailedSolutionVerification(String),
}

/// Errors raised while assembling a state-transition circuit. Each variant
/// is a malformed input that is rejected before any constraint is emitted.
#[derive(Debug, PartialEq, Eq, Structural, Clone, Copy)]
pub enum CircuitError {
    /// There is no non-trivial ordering for an empty list of intents.
    EmptyIntentList,
    /// The intents do not share one direction, or an adjacent pair violates
    /// the price-time-priority rule.
    UnorderedIntentList,
    /// A non-matching transition was requested without an insertion index.
    MissingInsertionIndex,
    /// A supplied index does not fall inside the intent list.
    IndexOutOfRange,
}

/// The error type of the signing library, opaque to the proof engine; it is
/// carried through `TypeConversionError` unchanged.
#[verifier::external_type_specification]
#[verifier::external_body]
pub struct ExSecpError(libsecp256k1::Error);

} // verus!
