//! Encoding and decoding of SPA "pod" records: self-describing, type-tagged,
//! length-prefixed binary values exchanged between the processes of a
//! multimedia graph.
//!
//! The heart of the crate is the [`pod`] module: a cursor-based serializer
//! and a zero-copy deserializer for the pod wire format, a dynamically typed
//! value model able to represent any decoded pod, and the laws the codec
//! obeys, proved once for all inputs.  Around it stand the small value and
//! result types the format and its callers share: [`utils`] for the fixed
//! size scalars, [`result`] for SPA result codes, [`dict`] for dictionary
//! value parsing, and [`keygen`] for the generated key-constant table.

use vstd::prelude::*;

pub mod dict;
mod direction;
pub mod keygen;
pub mod pod;
pub mod result;
pub mod utils;

pub use direction::Direction;
pub use direction::{DIRECTION_INPUT, DIRECTION_OUTPUT};

verus! {

} // verus!
