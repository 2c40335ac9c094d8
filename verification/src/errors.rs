use vstd::prelude::*;

verus! {

/// The ways a computation or a data refresh can fail.
///
/// Arithmetic guards (`DivideByZero`, `ArithmeticOverflow`) are always
/// checked before the operation that would trap, never discovered through a
/// runtime panic.
#[derive(Clone, Copy, Debug, PartialEq, Eq, Structural)]
pub enum Error {
    /// An external read failed.
    DataUnavailable,
    /// A price feed pull failed or returned no value.
    PriceUnavailable,
    /// A class or attribute name exceeds the fixed-width key encoding.
    MalformedKey,
    /// A liquidation ratio (or other divisor) resolved to zero.
    DivideByZero,
    /// A fixed-point operation exceeded its intermediate width.
    ArithmeticOverflow,
    /// An event or lookup references a class absent from configuration.
    UnknownCollateralClass,
}

} // verus!
