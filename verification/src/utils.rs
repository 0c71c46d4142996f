//! Miscellaneous and utility items.

use vstd::prelude::*;

verus! {

/// An enumerated value in a pod.
#[derive(Debug, Copy, Clone, PartialEq, Eq, Structural)]
pub struct Id(pub u32);

/// A file descriptor in a pod.
#[derive(Debug, Copy, Clone, PartialEq, Eq, Structural)]
pub struct Fd(pub i64);

/// A rectangle carried in a pod: two packed 32-bit fields.
#[derive(Debug, Copy, Clone, PartialEq, Eq, Structural)]
pub struct Rectangle {
    /// Width of the rectangle.
    pub width: u32,
    /// Height of the rectangle.
    pub height: u32,
}

/// A fraction carried in a pod: two packed 32-bit fields.
#[derive(Debug, Copy, Clone, PartialEq, Eq, Structural)]
pub struct Fraction {
    /// Numerator of the fraction.
    pub num: u32,
    /// Denominator of the fraction.
    pub denom: u32,
}

/// The raw 32-bit pattern of the single-precision value carried in a `Float`
/// pod.
///
/// The pod body holds the pattern verbatim, so a caller converts between this
/// type and its numeric meaning with the standard `to_bits`/`from_bits` pair;
/// the conversion is exact in both directions.
#[derive(Debug, Copy, Clone, PartialEq, Eq, Structural)]
pub struct FloatBits(pub u32);

/// The raw 64-bit pattern of the double-precision value carried in a `Double`
/// pod.
///
/// The pod body holds the pattern verbatim, so a caller converts between this
/// type and its numeric meaning with the standard `to_bits`/`from_bits` pair;
/// the conversion is exact in both directions.
#[derive(Debug, Copy, Clone, PartialEq, Eq, Structural)]
pub struct DoubleBits(pub u64);

/// [`Choice`] flags carried in the choice body next to the choice kind.
///
/// No flag is defined by the wire format yet; the field is kept so that the
/// full 32 bits round-trip unchanged.
#[derive(Debug, Copy, Clone, PartialEq, Eq, Structural)]
pub struct ChoiceFlags {
    /// The raw flag bits.
    pub bits: u32,
}

impl ChoiceFlags {
    /// Flags with no bit set.
    pub fn empty() -> (r: Self)
        ensures
            r.bits == 0,
    {
        ChoiceFlags { bits: 0 }
    }

    /// Flags with exactly the given bits set.
    pub fn from_bits(bits: u32) -> (r: Self)
        ensures
            r.bits == bits,
    {
        ChoiceFlags { bits }
    }
}

/// The flags and the constraint of a choice pod.
#[derive(Debug, Clone, PartialEq)]
pub struct Choice<T>(pub ChoiceFlags, pub ChoiceEnum<T>);

/// The constraint that a choice pod places on its element type.
#[derive(Debug, Clone, PartialEq)]
pub enum ChoiceEnum<T> {
    /// No choice: the value is fixed.
    Fixed(T),
    /// Range.
    Range {
        /// Default value.
        default: T,
        /// Minimum value.
        min: T,
        /// Maximum value.
        max: T,
    },
    /// Range with step.
    Step {
        /// Default value.
        default: T,
        /// Minimum value.
        min: T,
        /// Maximum value.
        max: T,
        /// Step.
        step: T,
    },
    /// List.
    Enum {
        /// Default value.
        default: T,
        /// Alternative values.
        alternatives: Vec<T>,
    },
    /// Flags.
    Flags {
        /// Default value.
        default: T,
        /// Possible flags.
        flags: Vec<T>,
    },
}

} // verus!
