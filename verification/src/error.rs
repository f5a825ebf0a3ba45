use vstd::prelude::*;

verus! {

/// Failure conditions of the ring and ciphertext operations. Each one is a
/// parameter or programmer error: the operation that raises it is aborted and
/// returns no partial result.
#[derive(Clone, Copy, Debug, PartialEq, Eq, Structural)]
pub enum Error {
    /// A modular inverse was requested for a value that shares a factor with
    /// the modulus.
    NotInvertible,
    /// A modular inverse was requested for zero.
    DivisionByZero,
    /// A modular inverse was requested for a value outside the centered band.
    OutOfRange,
    /// A homomorphic operation was given operands whose scales differ.
    ScaleMismatch,
    /// Encoding left a coefficient with a non-negligible imaginary residue.
    EncodingPrecisionError,
    /// A coefficient or modulus left the range of the backing integer width.
    ModulusOverflow,
}

} // verus!
