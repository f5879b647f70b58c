use vstd::prelude::*;

verus! {

/// The ways in which a computation of this library can fail.
#[derive(Clone, Copy, Debug, PartialEq, Eq, Structural)]
pub enum CoreError {
    /// A period is zero or exceeds the number of data points.
    InvalidPeriod,
    /// Fewer data points than a warm-up window needs.
    InsufficientData,
    /// Two series that should align have no usable overlap.
    MismatchedLength,
    /// A mean or variance over zero elements.
    EmptySeries,
    /// A ratio whose denominator is exactly zero.
    DivisionByZero,
    /// A decimal operation left the representable range.
    ArithmeticOverflow,
}

} // verus!
