//! The seal that keeps [`super::CanonicalFixedSizedPod`] implementable only
//! inside this crate, so that no invalid pod layout can be introduced from
//! outside.

use vstd::prelude::*;
use crate::utils::{DoubleBits, Fd, FloatBits, Fraction, Id, Rectangle};

verus! {

/// Supertrait of [`super::CanonicalFixedSizedPod`]; being unreachable from
/// outside the crate, it seals that trait.
pub trait CanonicalFixedSizedPodSeal {}

impl CanonicalFixedSizedPodSeal for () {}

impl CanonicalFixedSizedPodSeal for bool {}

impl CanonicalFixedSizedPodSeal for i32 {}

impl CanonicalFixedSizedPodSeal for i64 {}

impl CanonicalFixedSizedPodSeal for FloatBits {}

impl CanonicalFixedSizedPodSeal for DoubleBits {}

impl CanonicalFixedSizedPodSeal for Rectangle {}

impl CanonicalFixedSizedPodSeal for Fraction {}

impl CanonicalFixedSizedPodSeal for Id {}

impl CanonicalFixedSizedPodSeal for Fd {}

} // verus!
