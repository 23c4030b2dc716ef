//! The failures of the engine, the statuses that cross the foreign boundary,
//! and the numeric code of each.

use vstd::prelude::*;

verus! {

/// Why an operation of the engine did not yield a value.
#[derive(Clone, Copy, Debug, PartialEq, Eq, Structural)]
pub enum EngineError {
    /// Bytes that spell no element: a scalar at or above the field order, or
    /// a point that is malformed, off the curve or outside the subgroup.
    InvalidEncoding,
    /// A batch operation on no elements.
    EmptyBatch,
    /// Inversion of, or division by, the additive identity.
    DivisionByZero,
    /// A big-integer exponent of more than 32 bytes.
    InputTooLarge,
    /// A display form of a target-group element that is not of the fixed width.
    OutputLength,
}

/// What the boundary reports in its single status slot when a call fails.
#[derive(Clone, Copy, Debug, PartialEq, Eq, Structural)]
pub enum GenericError {
    /// The foreign call itself failed.
    Jni,
    /// A slice could not be turned into a fixed-size array.
    TryFromSlice,
    /// A byte vector of this size could not be turned into the array asked for.
    TryInto(usize),
    /// Bytes of the expected length, this many, that spell no element.
    InputLength(usize),
    /// The engine produced an output of unexpected length.
    OutputLength,
}

/// The status code of success.
pub const STATUS_OK: i32 = 0;

impl GenericError {
    /// The code of each status, as a number.
    pub open spec fn code(self) -> int {
        match self {
            GenericError::Jni => 1,
            GenericError::TryFromSlice => 2,
            GenericError::TryInto(_) => 3,
            GenericError::InputLength(_) => 4,
            GenericError::OutputLength => 5,
        }
    }

    /// The code that is sent back in the status slot.
    pub fn get_error_code(&self) -> (code: i32)
        ensures
            code == self.code(),
            code != STATUS_OK,
    {
        match *self {
            GenericError::Jni => 1,
            GenericError::TryFromSlice => 2,
            GenericError::TryInto(_) => 3,
            GenericError::InputLength(_) => 4,
            GenericError::OutputLength => 5,
        }
    }
}

impl EngineError {
    /// The code under which the boundary reports each failure of the engine.
    /// An empty batch and a division by zero share the code of a failed
    /// foreign call; the two decoding failures share that of an input-length
    /// mismatch.
    pub open spec fn code(self) -> int {
        match self {
            EngineError::InvalidEncoding => 4,
            EngineError::EmptyBatch => 1,
            EngineError::DivisionByZero => 1,
            EngineError::InputTooLarge => 4,
            EngineError::OutputLength => 5,
        }
    }

    /// The code that is sent back in the status slot.
    pub fn get_error_code(&self) -> (code: i32)
        ensures
            code == self.code(),
            code != STATUS_OK,
    {
        match *self {
            EngineError::InvalidEncoding => 4,
            EngineError::EmptyBatch => 1,
            EngineError::DivisionByZero => 1,
            EngineError::InputTooLarge => 4,
            EngineError::OutputLength => 5,
        }
    }
}

/// Copies a byte string into an array of `N` bytes, which succeeds exactly
/// when the string has `N` bytes; the error holds the length found.
pub fn to_fixed<const N: usize>(bytes: &[u8]) -> (r: Result<[u8; N], GenericError>)
    ensures
        r is Ok <==> bytes@.len() == N,
        r matches Ok(array) ==> array@ == bytes@,
        r matches Err(e) ==> e == GenericError::TryInto(bytes.len()),
{
    if bytes.len() != N {
        return Err(GenericError::TryInto(bytes.len()));
    }
    let mut array: [u8; N] = [0u8; N];
    let mut i: usize = 0;
    while i < N
        invariant
            i <= N,
            bytes@.len() == N,
            forall|j: int| 0 <= j < i ==> array@[j] == bytes@[j],
        decreases N - i,
    {
        array[i] = bytes[i];
        i += 1;
    }
    assert(array@ =~= bytes@);
    Ok(array)
}

} // verus!
