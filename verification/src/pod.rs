//! SPA pods: self-describing, type-tagged binary values.
//!
//! This module provides ways to represent pods using idiomatic types and
//! serialize them into their raw representation, and the other way around.
//!
//! Everything concerning serializing raw pods from rust types is in the
//! [`serialize`] submodule, and everything about deserializing rust types from
//! raw pods is in the [`deserialize`] submodule.

use vstd::prelude::*;
use vstd::bytes::{
    spec_u32_to_le_bytes, spec_u32_from_le_bytes, spec_u64_to_le_bytes, spec_u64_from_le_bytes,
    lemma_auto_spec_u32_to_from_le_bytes, lemma_auto_spec_u64_to_from_le_bytes,
};

use crate::utils::{Choice, ChoiceEnum, ChoiceFlags, DoubleBits, Fd, FloatBits, Fraction, Id,
    Rectangle};
use crate::pod::wire::{enc_header, enc_pod, get_u32, get_u64, pad_len, put_u32, put_u64};

mod private;
pub mod deserialize;
pub mod laws;
pub mod serialize;
pub mod wire;

verus! {

/// Type tag of a `None` pod.
pub const TYPE_NONE: u32 = 1;

/// Type tag of a `Bool` pod.
pub const TYPE_BOOL: u32 = 2;

/// Type tag of an `Id` pod.
pub const TYPE_ID: u32 = 3;

/// Type tag of an `Int` pod.
pub const TYPE_INT: u32 = 4;

/// Type tag of a `Long` pod.
pub const TYPE_LONG: u32 = 5;

/// Type tag of a `Float` pod.
pub const TYPE_FLOAT: u32 = 6;

/// Type tag of a `Double` pod.
pub const TYPE_DOUBLE: u32 = 7;

/// Type tag of a `String` pod.
pub const TYPE_STRING: u32 = 8;

/// Type tag of a `Bytes` pod.
pub const TYPE_BYTES: u32 = 9;

/// Type tag of a `Rectangle` pod.
pub const TYPE_RECTANGLE: u32 = 10;

/// Type tag of a `Fraction` pod.
pub const TYPE_FRACTION: u32 = 11;

/// Type tag of an `Array` pod.
pub const TYPE_ARRAY: u32 = 13;

/// Type tag of a `Struct` pod.
pub const TYPE_STRUCT: u32 = 14;

/// Type tag of an `Object` pod.
pub const TYPE_OBJECT: u32 = 15;

/// Type tag of an `Fd` pod.
pub const TYPE_FD: u32 = 18;

/// Type tag of a `Choice` pod.
pub const TYPE_CHOICE: u32 = 19;

/// Implementors of this trait are the canonical representation of a specific
/// type of fixed sized SPA pod.
///
/// They can be used as an output type for [`FixedSizedPod`] implementors and
/// take care of the actual serialization/deserialization from/to the type of
/// raw SPA pod they represent.
///
/// The trait is sealed, so it can't be implemented outside of this crate.
/// This is to ensure that no invalid pod can be serialized.
///
/// If you want to have your type convert from and to a fixed sized pod,
/// implement [`FixedSizedPod`] instead and choose a fitting implementor of
/// this trait as the `CanonicalType` instead.
pub trait CanonicalFixedSizedPod: private::CanonicalFixedSizedPodSeal + Sized {
    /// The wire type tag of the pods this type serializes into.
    spec fn spec_type() -> u32;

    /// The fixed size of the pod body, in bytes.
    spec fn spec_size() -> u32;

    /// The exact body bytes that `self` serializes into.
    spec fn spec_body(&self) -> Seq<u8>;

    /// The value that a body `b` of `spec_size()` bytes deserializes into.
    spec fn spec_from_body(b: Seq<u8>) -> Self;

    /// The body of a value is always exactly `spec_size()` bytes long.
    proof fn lemma_body_len(&self)
        ensures
            self.spec_body().len() == Self::spec_size() as nat;

    /// The wire format's fixed-size table agrees with this type's tag.
    proof fn lemma_tag_size()
        ensures
            fixed_size_of(Self::spec_type()) == Self::spec_size(),
            Self::spec_size() <= 8;

    /// Deserializing the body a value serialized into gives the value back.
    proof fn lemma_body_round_trip(&self)
        ensures
            Self::spec_from_body(self.spec_body()) == *self;

    /// The wire type tag of the pods this type serializes into.
    fn wire_type() -> (t: u32)
        ensures
            t == Self::spec_type();

    /// The fixed size of the pod body, in bytes.
    fn wire_size() -> (s: u32)
        ensures
            s == Self::spec_size();

    /// Append the body bytes of `self` to `out`.
    fn serialize_body(&self, out: &mut Vec<u8>)
        ensures
            final(out)@ == old(out)@ + self.spec_body();

    /// Read one body from `input` at offset `at`.
    fn deserialize_body(input: &[u8], at: usize) -> (r: Self)
        requires
            at + Self::spec_size() as nat <= input@.len(),
        ensures
            r == Self::spec_from_body(
                input@.subrange(at as int, at + Self::spec_size() as nat),
            );
}

/// Serialize into a `None` type pod.
impl CanonicalFixedSizedPod for () {
    open spec fn spec_type() -> u32 {
        TYPE_NONE
    }

    open spec fn spec_size() -> u32 {
        0
    }

    open spec fn spec_body(&self) -> Seq<u8> {
        Seq::empty()
    }

    open spec fn spec_from_body(b: Seq<u8>) -> Self {
        ()
    }

    proof fn lemma_body_len(&self) {
    }

    proof fn lemma_tag_size() {
    }

    proof fn lemma_body_round_trip(&self) {
    }

    fn wire_type() -> u32 {
        TYPE_NONE
    }

    fn wire_size() -> u32 {
        0
    }

    fn serialize_body(&self, out: &mut Vec<u8>) {
        proof {
            assert(final(out)@ =~= old(out)@ + Seq::<u8>::empty());
        }
    }

    fn deserialize_body(input: &[u8], at: usize) -> Self {
    }
}

/// Serialize into a `Bool` type pod, whose body is a 4-byte 0/1 integer.
///
/// Deserialization accepts any body, reading every non-zero value as `true`.
impl CanonicalFixedSizedPod for bool {
    open spec fn spec_type() -> u32 {
        TYPE_BOOL
    }

    open spec fn spec_size() -> u32 {
        4
    }

    open spec fn spec_body(&self) -> Seq<u8> {
        spec_u32_to_le_bytes(if *self { 1u32 } else { 0u32 })
    }

    open spec fn spec_from_body(b: Seq<u8>) -> Self {
        spec_u32_from_le_bytes(b.subrange(0, 4)) != 0
    }

    proof fn lemma_body_len(&self) {
        lemma_auto_spec_u32_to_from_le_bytes();
    }

    proof fn lemma_tag_size() {
    }

    proof fn lemma_body_round_trip(&self) {
        lemma_auto_spec_u32_to_from_le_bytes();
        assert(self.spec_body().subrange(0, 4) =~= self.spec_body());
    }

    fn wire_type() -> u32 {
        TYPE_BOOL
    }

    fn wire_size() -> u32 {
        4
    }

    fn serialize_body(&self, out: &mut Vec<u8>) {
        put_u32(out, if *self { 1u32 } else { 0u32 });
    }

    fn deserialize_body(input: &[u8], at: usize) -> Self {
        let raw = get_u32(input, at);
        proof {
            let body = input@.subrange(at as int, at + 4);
            assert(body.subrange(0, 4) =~= input@.subrange(at as int, at + 4));
        }
        raw != 0
    }
}

/// Serialize into an `Int` type pod.
impl CanonicalFixedSizedPod for i32 {
    open spec fn spec_type() -> u32 {
        TYPE_INT
    }

    open spec fn spec_size() -> u32 {
        4
    }

    open spec fn spec_body(&self) -> Seq<u8> {
        spec_u32_to_le_bytes(*self as u32)
    }

    open spec fn spec_from_body(b: Seq<u8>) -> Self {
        spec_u32_from_le_bytes(b.subrange(0, 4)) as i32
    }

    proof fn lemma_body_len(&self) {
        lemma_auto_spec_u32_to_from_le_bytes();
    }

    proof fn lemma_tag_size() {
    }

    proof fn lemma_body_round_trip(&self) {
        lemma_auto_spec_u32_to_from_le_bytes();
        assert(self.spec_body().subrange(0, 4) =~= self.spec_body());
        let x = *self;
        assert((x as u32) as i32 == x) by (bit_vector);
    }

    fn wire_type() -> u32 {
        TYPE_INT
    }

    fn wire_size() -> u32 {
        4
    }

    fn serialize_body(&self, out: &mut Vec<u8>) {
        put_u32(out, *self as u32);
    }

    fn deserialize_body(input: &[u8], at: usize) -> Self {
        let raw = get_u32(input, at);
        proof {
            assert(input@.subrange(at as int, at + 4).subrange(0, 4)
                =~= input@.subrange(at as int, at + 4));
        }
        raw as i32
    }
}

/// Serialize into a `Long` type pod.
impl CanonicalFixedSizedPod for i64 {
    open spec fn spec_type() -> u32 {
        TYPE_LONG
    }

    open spec fn spec_size() -> u32 {
        8
    }

    open spec fn spec_body(&self) -> Seq<u8> {
        spec_u64_to_le_bytes(*self as u64)
    }

    open spec fn spec_from_body(b: Seq<u8>) -> Self {
        spec_u64_from_le_bytes(b.subrange(0, 8)) as i64
    }

    proof fn lemma_body_len(&self) {
        lemma_auto_spec_u64_to_from_le_bytes();
    }

    proof fn lemma_tag_size() {
    }

    proof fn lemma_body_round_trip(&self) {
        lemma_auto_spec_u64_to_from_le_bytes();
        assert(self.spec_body().subrange(0, 8) =~= self.spec_body());
        let x = *self;
        assert((x as u64) as i64 == x) by (bit_vector);
    }

    fn wire_type() -> u32 {
        TYPE_LONG
    }

    fn wire_size() -> u32 {
        8
    }

    fn serialize_body(&self, out: &mut Vec<u8>) {
        put_u64(out, *self as u64);
    }

    fn deserialize_body(input: &[u8], at: usize) -> Self {
        let raw = get_u64(input, at);
        proof {
            assert(input@.subrange(at as int, at + 8).subrange(0, 8)
                =~= input@.subrange(at as int, at + 8));
        }
        raw as i64
    }
}

/// Serialize into a `Float` type pod; the body is the raw 32-bit pattern.
impl CanonicalFixedSizedPod for FloatBits {
    open spec fn spec_type() -> u32 {
        TYPE_FLOAT
    }

    open spec fn spec_size() -> u32 {
        4
    }

    open spec fn spec_body(&self) -> Seq<u8> {
        spec_u32_to_le_bytes(self.0)
    }

    open spec fn spec_from_body(b: Seq<u8>) -> Self {
        FloatBits(spec_u32_from_le_bytes(b.subrange(0, 4)))
    }

    proof fn lemma_body_len(&self) {
        lemma_auto_spec_u32_to_from_le_bytes();
    }

    proof fn lemma_tag_size() {
    }

    proof fn lemma_body_round_trip(&self) {
        lemma_auto_spec_u32_to_from_le_bytes();
        assert(self.spec_body().subrange(0, 4) =~= self.spec_body());
    }

    fn wire_type() -> u32 {
        TYPE_FLOAT
    }

    fn wire_size() -> u32 {
        4
    }

    fn serialize_body(&self, out: &mut Vec<u8>) {
        put_u32(out, self.0);
    }

    fn deserialize_body(input: &[u8], at: usize) -> Self {
        let raw = get_u32(input, at);
        proof {
            assert(input@.subrange(at as int, at + 4).subrange(0, 4)
                =~= input@.subrange(at as int, at + 4));
        }
        FloatBits(raw)
    }
}

/// Serialize into a `Double` type pod; the body is the raw 64-bit pattern.
impl CanonicalFixedSizedPod for DoubleBits {
    open spec fn spec_type() -> u32 {
        TYPE_DOUBLE
    }

    open spec fn spec_size() -> u32 {
        8
    }

    open spec fn spec_body(&self) -> Seq<u8> {
        spec_u64_to_le_bytes(self.0)
    }

    open spec fn spec_from_body(b: Seq<u8>) -> Self {
        DoubleBits(spec_u64_from_le_bytes(b.subrange(0, 8)))
    }

    proof fn lemma_body_len(&self) {
        lemma_auto_spec_u64_to_from_le_bytes();
    }

    proof fn lemma_tag_size() {
    }

    proof fn lemma_body_round_trip(&self) {
        lemma_auto_spec_u64_to_from_le_bytes();
        assert(self.spec_body().subrange(0, 8) =~= self.spec_body());
    }

    fn wire_type() -> u32 {
        TYPE_DOUBLE
    }

    fn wire_size() -> u32 {
        8
    }

    fn serialize_body(&self, out: &mut Vec<u8>) {
        put_u64(out, self.0);
    }

    fn deserialize_body(input: &[u8], at: usize) -> Self {
        let raw = get_u64(input, at);
        proof {
            assert(input@.subrange(at as int, at + 8).subrange(0, 8)
                =~= input@.subrange(at as int, at + 8));
        }
        DoubleBits(raw)
    }
}

/// Serialize into a `Rectangle` type pod: width, then height.
impl CanonicalFixedSizedPod for Rectangle {
    open spec fn spec_type() -> u32 {
        TYPE_RECTANGLE
    }

    open spec fn spec_size() -> u32 {
        8
    }

    open spec fn spec_body(&self) -> Seq<u8> {
        spec_u32_to_le_bytes(self.width) + spec_u32_to_le_bytes(self.height)
    }

    open spec fn spec_from_body(b: Seq<u8>) -> Self {
        Rectangle {
            width: spec_u32_from_le_bytes(b.subrange(0, 4)),
            height: spec_u32_from_le_bytes(b.subrange(4, 8)),
        }
    }

    proof fn lemma_body_len(&self) {
        lemma_auto_spec_u32_to_from_le_bytes();
    }

    proof fn lemma_tag_size() {
    }

    proof fn lemma_body_round_trip(&self) {
        lemma_auto_spec_u32_to_from_le_bytes();
        assert(self.spec_body().subrange(0, 4) =~= spec_u32_to_le_bytes(self.width));
        assert(self.spec_body().subrange(4, 8) =~= spec_u32_to_le_bytes(self.height));
    }

    fn wire_type() -> u32 {
        TYPE_RECTANGLE
    }

    fn wire_size() -> u32 {
        8
    }

    fn serialize_body(&self, out: &mut Vec<u8>) {
        put_u32(out, self.width);
        put_u32(out, self.height);
    }

    fn deserialize_body(input: &[u8], at: usize) -> Self {
        // binding the length shows the verifier that the offsets fit a usize
        let n = input.len();
        let width = get_u32(input, at);
        let height = get_u32(input, at + 4);
        proof {
            let body = input@.subrange(at as int, at + 8);
            assert(body.subrange(0, 4) =~= input@.subrange(at as int, at + 4));
            assert(body.subrange(4, 8) =~= input@.subrange(at + 4, at + 8));
        }
        Rectangle { width, height }
    }
}

/// Serialize into a `Fraction` type pod: numerator, then denominator.
impl CanonicalFixedSizedPod for Fraction {
    open spec fn spec_type() -> u32 {
        TYPE_FRACTION
    }

    open spec fn spec_size() -> u32 {
        8
    }

    open spec fn spec_body(&self) -> Seq<u8> {
        spec_u32_to_le_bytes(self.num) + spec_u32_to_le_bytes(self.denom)
    }

    open spec fn spec_from_body(b: Seq<u8>) -> Self {
        Fraction {
            num: spec_u32_from_le_bytes(b.subrange(0, 4)),
            denom: spec_u32_from_le_bytes(b.subrange(4, 8)),
        }
    }

    proof fn lemma_body_len(&self) {
        lemma_auto_spec_u32_to_from_le_bytes();
    }

    proof fn lemma_tag_size() {
    }

    proof fn lemma_body_round_trip(&self) {
        lemma_auto_spec_u32_to_from_le_bytes();
        assert(self.spec_body().subrange(0, 4) =~= spec_u32_to_le_bytes(self.num));
        assert(self.spec_body().subrange(4, 8) =~= spec_u32_to_le_bytes(self.denom));
    }

    fn wire_type() -> u32 {
        TYPE_FRACTION
    }

    fn wire_size() -> u32 {
        8
    }

    fn serialize_body(&self, out: &mut Vec<u8>) {
        put_u32(out, self.num);
        put_u32(out, self.denom);
    }

    fn deserialize_body(input: &[u8], at: usize) -> Self {
        // binding the length shows the verifier that the offsets fit a usize
        let n = input.len();
        let num = get_u32(input, at);
        let denom = get_u32(input, at + 4);
        proof {
            let body = input@.subrange(at as int, at + 8);
            assert(body.subrange(0, 4) =~= input@.subrange(at as int, at + 4));
            assert(body.subrange(4, 8) =~= input@.subrange(at + 4, at + 8));
        }
        Fraction { num, denom }
    }
}

/// Serialize into an `Id` type pod.
impl CanonicalFixedSizedPod for Id {
    open spec fn spec_type() -> u32 {
        TYPE_ID
    }

    open spec fn spec_size() -> u32 {
        4
    }

    open spec fn spec_body(&self) -> Seq<u8> {
        spec_u32_to_le_bytes(self.0)
    }

    open spec fn spec_from_body(b: Seq<u8>) -> Self {
        Id(spec_u32_from_le_bytes(b.subrange(0, 4)))
    }

    proof fn lemma_body_len(&self) {
        lemma_auto_spec_u32_to_from_le_bytes();
    }

    proof fn lemma_tag_size() {
    }

    proof fn lemma_body_round_trip(&self) {
        lemma_auto_spec_u32_to_from_le_bytes();
        assert(self.spec_body().subrange(0, 4) =~= self.spec_body());
    }

    fn wire_type() -> u32 {
        TYPE_ID
    }

    fn wire_size() -> u32 {
        4
    }

    fn serialize_body(&self, out: &mut Vec<u8>) {
        put_u32(out, self.0);
    }

    fn deserialize_body(input: &[u8], at: usize) -> Self {
        let raw = get_u32(input, at);
        proof {
            assert(input@.subrange(at as int, at + 4).subrange(0, 4)
                =~= input@.subrange(at as int, at + 4));
        }
        Id(raw)
    }
}

/// Serialize into an `Fd` type pod.
impl CanonicalFixedSizedPod for Fd {
    open spec fn spec_type() -> u32 {
        TYPE_FD
    }

    open spec fn spec_size() -> u32 {
        8
    }

    open spec fn spec_body(&self) -> Seq<u8> {
        spec_u64_to_le_bytes(self.0 as u64)
    }

    open spec fn spec_from_body(b: Seq<u8>) -> Self {
        Fd(spec_u64_from_le_bytes(b.subrange(0, 8)) as i64)
    }

    proof fn lemma_body_len(&self) {
        lemma_auto_spec_u64_to_from_le_bytes();
    }

    proof fn lemma_tag_size() {
    }

    proof fn lemma_body_round_trip(&self) {
        lemma_auto_spec_u64_to_from_le_bytes();
        assert(self.spec_body().subrange(0, 8) =~= self.spec_body());
        let x = self.0;
        assert((x as u64) as i64 == x) by (bit_vector);
    }

    fn wire_type() -> u32 {
        TYPE_FD
    }

    fn wire_size() -> u32 {
        8
    }

    fn serialize_body(&self, out: &mut Vec<u8>) {
        put_u64(out, self.0 as u64);
    }

    fn deserialize_body(input: &[u8], at: usize) -> Self {
        let raw = get_u64(input, at);
        proof {
            assert(input@.subrange(at as int, at + 8).subrange(0, 8)
                =~= input@.subrange(at as int, at + 8));
        }
        Fd(raw as i64)
    }
}

/// Implementors of this trait can be serialized into pods that always have
/// the same size.  This lets them be used as elements in `Array` type pods.
///
/// (De)serialization is accomplished by having the type convert itself
/// into/from the canonical representation of this pod, e.g. `i32` for an
/// `Int` type pod.  That type then takes care of the actual
/// (de)serialization.
///
/// See the [`CanonicalFixedSizedPod`] trait for a list of possible target
/// types.
pub trait FixedSizedPod: Sized {
    /// The canonical representation of the type of pod that should be
    /// serialized to/deserialized from.
    type CanonicalType: CanonicalFixedSizedPod;

    /// The canonical value that `self` converts to.
    spec fn spec_as_canonical(&self) -> Self::CanonicalType;

    /// The value that a canonical value converts to.
    spec fn spec_from_canonical(c: Self::CanonicalType) -> Self;

    /// Convert `self` to the canonical type.
    fn as_canonical_type(&self) -> (c: Self::CanonicalType)
        ensures
            c == self.spec_as_canonical();

    /// Create a new `Self` instance from the canonical type.
    fn from_canonical_type(c: &Self::CanonicalType) -> (r: Self)
        ensures
            r == Self::spec_from_canonical(*c);
}

impl<T: CanonicalFixedSizedPod + Copy> FixedSizedPod for T {
    type CanonicalType = Self;

    open spec fn spec_as_canonical(&self) -> Self {
        *self
    }

    open spec fn spec_from_canonical(c: Self) -> Self {
        c
    }

    fn as_canonical_type(&self) -> Self {
        *self
    }

    fn from_canonical_type(c: &Self) -> Self {
        *c
    }
}

/// Choice kind of a choice pod whose value is fixed.
pub const CHOICE_NONE: u32 = 0;

/// Choice kind of a range choice: default, minimum, maximum.
pub const CHOICE_RANGE: u32 = 1;

/// Choice kind of a stepped range choice: default, minimum, maximum, step.
pub const CHOICE_STEP: u32 = 2;

/// Choice kind of an enumeration choice: default, then the alternatives.
pub const CHOICE_ENUM: u32 = 3;

/// Choice kind of a flags choice: default, then the possible flags.
pub const CHOICE_FLAGS: u32 = 4;

/// The property is read-only.
pub const PROPERTY_FLAG_READONLY: u32 = 0x1;

/// The property is some sort of hardware parameter.
pub const PROPERTY_FLAG_HARDWARE: u32 = 0x2;

/// The property carries a dictionary of hints.
pub const PROPERTY_FLAG_HINT_DICT: u32 = 0x4;

/// The property is mandatory.
pub const PROPERTY_FLAG_MANDATORY: u32 = 0x8;

/// The property should not be fixated when choices are resolved.
pub const PROPERTY_FLAG_DONT_FIXATE: u32 = 0x10;

/// Flags attached to a property of an object pod.
#[derive(Debug, Copy, Clone, PartialEq, Eq, Structural)]
pub struct PropertyFlags {
    /// The raw flag bits.
    pub bits: u32,
}

impl PropertyFlags {
    /// Flags with no bit set.
    pub fn empty() -> (r: Self)
        ensures
            r.bits == 0,
    {
        PropertyFlags { bits: 0 }
    }

    /// Flags with exactly the given bits set.
    pub fn from_bits(bits: u32) -> (r: Self)
        ensures
            r.bits == bits,
    {
        PropertyFlags { bits }
    }
}

/// A property of an object pod: a key, flags, and one child pod.
#[derive(Debug, PartialEq)]
pub struct Property {
    /// The key of the property.
    pub key: u32,
    /// The flags of the property.
    pub flags: PropertyFlags,
    /// The value of the property.
    pub value: Value,
}

/// The decoded form of an object pod: a type/subtype header and a sequence of
/// properties.
#[derive(Debug, PartialEq)]
pub struct Object {
    /// The object type.
    pub type_: u32,
    /// The object subtype.
    pub id: u32,
    /// The properties, in the order they stand on the wire.
    pub properties: Vec<Property>,
}

/// The elements of a decoded array pod: one variant for each canonical
/// fixed-size element type.
#[derive(Debug, Clone, PartialEq)]
pub enum ValueArray {
    /// An array of `None` pod bodies.
    Unit(Vec<()>),
    /// An array of `Bool` pod bodies.
    Bool(Vec<bool>),
    /// An array of `Id` pod bodies.
    Id(Vec<Id>),
    /// An array of `Int` pod bodies.
    Int(Vec<i32>),
    /// An array of `Long` pod bodies.
    Long(Vec<i64>),
    /// An array of `Float` pod bodies.
    Float(Vec<FloatBits>),
    /// An array of `Double` pod bodies.
    Double(Vec<DoubleBits>),
    /// An array of `Rectangle` pod bodies.
    Rectangle(Vec<Rectangle>),
    /// An array of `Fraction` pod bodies.
    Fraction(Vec<Fraction>),
    /// An array of `Fd` pod bodies.
    Fd(Vec<Fd>),
}

/// A decoded choice pod: one variant for each canonical fixed-size element
/// type.
#[derive(Debug, Clone, PartialEq)]
pub enum ChoiceValue {
    /// A choice over `Int` elements.
    Int(Choice<i32>),
    /// A choice over `Long` elements.
    Long(Choice<i64>),
    /// A choice over `Float` elements.
    Float(Choice<FloatBits>),
    /// A choice over `Double` elements.
    Double(Choice<DoubleBits>),
    /// A choice over `Id` elements.
    Id(Choice<Id>),
    /// A choice over `Rectangle` elements.
    Rectangle(Choice<Rectangle>),
    /// A choice over `Fraction` elements.
    Fraction(Choice<Fraction>),
    /// A choice over `Fd` elements.
    Fd(Choice<Fd>),
}

/// A dynamically typed pod value: a closed union able to represent any
/// decoded pod without prior knowledge of its shape.
///
/// A `Value` is built by decoding (or by hand, for encoding); it always owns
/// its contents, unlike the zero-copy string/bytes path of typed decoding.
#[derive(Debug, PartialEq)]
pub enum Value {
    /// A `None` pod, carrying no value.
    Unit,
    /// A `Bool` pod.
    Bool(bool),
    /// An `Id` pod.
    Id(Id),
    /// An `Int` pod.
    Int(i32),
    /// A `Long` pod.
    Long(i64),
    /// A `Float` pod, as its raw 32-bit pattern.
    Float(FloatBits),
    /// A `Double` pod, as its raw 64-bit pattern.
    Double(DoubleBits),
    /// A `String` pod.
    String(String),
    /// A `Bytes` pod.
    Bytes(Vec<u8>),
    /// A `Rectangle` pod.
    Rectangle(Rectangle),
    /// A `Fraction` pod.
    Fraction(Fraction),
    /// An `Fd` pod.
    Fd(Fd),
    /// An `Array` pod of one of the canonical element types.
    ValueArray(ValueArray),
    /// A `Struct` pod: a sequence of complete child pods.
    Struct(Vec<Value>),
    /// An `Object` pod.
    Object(Object),
    /// A `Choice` pod over one of the canonical element types.
    Choice(ChoiceValue),
}

/// The concatenated bodies of a sequence of fixed-size values, with no
/// padding between them, as they stand in an array or choice pod body.
pub open spec fn enc_bodies<T: CanonicalFixedSizedPod>(s: Seq<T>) -> Seq<u8>
    decreases s.len(),
{
    if s.len() == 0 {
        Seq::empty()
    } else {
        s[0].spec_body() + enc_bodies(s.drop_first())
    }
}

/// The wire choice kind of a [`ChoiceEnum`] variant.
pub open spec fn choice_kind_of<T>(ce: ChoiceEnum<T>) -> u32 {
    match ce {
        ChoiceEnum::Fixed(_) => CHOICE_NONE,
        ChoiceEnum::Range { .. } => CHOICE_RANGE,
        ChoiceEnum::Step { .. } => CHOICE_STEP,
        ChoiceEnum::Enum { .. } => CHOICE_ENUM,
        ChoiceEnum::Flags { .. } => CHOICE_FLAGS,
    }
}

/// The flattened element sequence of a [`ChoiceEnum`], in wire order.
pub open spec fn choice_entries<T>(ce: ChoiceEnum<T>) -> Seq<T> {
    match ce {
        ChoiceEnum::Fixed(v) => seq![v],
        ChoiceEnum::Range { default, min, max } => seq![default, min, max],
        ChoiceEnum::Step { default, min, max, step } => seq![default, min, max, step],
        ChoiceEnum::Enum { default, alternatives } => seq![default] + alternatives@,
        ChoiceEnum::Flags { default, flags } => seq![default] + flags@,
    }
}

/// The body of a choice pod: choice kind, flags, the element type header,
/// then the flattened elements.
pub open spec fn enc_choice_body<T: CanonicalFixedSizedPod>(c: Choice<T>) -> Seq<u8> {
    spec_u32_to_le_bytes(choice_kind_of(c.1)) + spec_u32_to_le_bytes(c.0.bits)
        + enc_header(T::spec_size() as nat, T::spec_type())
        + enc_bodies(choice_entries(c.1))
}

/// The body of an array pod: the element type header, then the contiguous
/// element bodies.
pub open spec fn enc_array_body(a: ValueArray) -> Seq<u8> {
    match a {
        ValueArray::Unit(v) => enc_header(0, TYPE_NONE) + enc_bodies(v@),
        ValueArray::Bool(v) => enc_header(4, TYPE_BOOL) + enc_bodies(v@),
        ValueArray::Id(v) => enc_header(4, TYPE_ID) + enc_bodies(v@),
        ValueArray::Int(v) => enc_header(4, TYPE_INT) + enc_bodies(v@),
        ValueArray::Long(v) => enc_header(8, TYPE_LONG) + enc_bodies(v@),
        ValueArray::Float(v) => enc_header(4, TYPE_FLOAT) + enc_bodies(v@),
        ValueArray::Double(v) => enc_header(8, TYPE_DOUBLE) + enc_bodies(v@),
        ValueArray::Rectangle(v) => enc_header(8, TYPE_RECTANGLE) + enc_bodies(v@),
        ValueArray::Fraction(v) => enc_header(8, TYPE_FRACTION) + enc_bodies(v@),
        ValueArray::Fd(v) => enc_header(8, TYPE_FD) + enc_bodies(v@),
    }
}

/// The body of a choice pod for each element type a [`ChoiceValue`] can hold.
pub open spec fn enc_choice_value_body(c: ChoiceValue) -> Seq<u8> {
    match c {
        ChoiceValue::Int(ch) => enc_choice_body(ch),
        ChoiceValue::Long(ch) => enc_choice_body(ch),
        ChoiceValue::Float(ch) => enc_choice_body(ch),
        ChoiceValue::Double(ch) => enc_choice_body(ch),
        ChoiceValue::Id(ch) => enc_choice_body(ch),
        ChoiceValue::Rectangle(ch) => enc_choice_body(ch),
        ChoiceValue::Fraction(ch) => enc_choice_body(ch),
        ChoiceValue::Fd(ch) => enc_choice_body(ch),
    }
}

/// The full on-wire encoding of a [`Value`]: header, body, padding, at every
/// nesting level.
pub open spec fn enc_value(v: Value) -> Seq<u8>
    decreases v,
{
    match v {
        Value::Unit => enc_pod(TYPE_NONE, Seq::empty()),
        Value::Bool(b) => enc_pod(TYPE_BOOL, b.spec_body()),
        Value::Id(id) => enc_pod(TYPE_ID, id.spec_body()),
        Value::Int(x) => enc_pod(TYPE_INT, x.spec_body()),
        Value::Long(x) => enc_pod(TYPE_LONG, x.spec_body()),
        Value::Float(x) => enc_pod(TYPE_FLOAT, x.spec_body()),
        Value::Double(x) => enc_pod(TYPE_DOUBLE, x.spec_body()),
        Value::String(s) => enc_pod(TYPE_STRING, vstd::utf8::encode_utf8(s@) + seq![0u8]),
        Value::Bytes(b) => enc_pod(TYPE_BYTES, b@),
        Value::Rectangle(r) => enc_pod(TYPE_RECTANGLE, r.spec_body()),
        Value::Fraction(f) => enc_pod(TYPE_FRACTION, f.spec_body()),
        Value::Fd(fd) => enc_pod(TYPE_FD, fd.spec_body()),
        Value::ValueArray(a) => enc_pod(TYPE_ARRAY, enc_array_body(a)),
        Value::Struct(fields) => enc_pod(TYPE_STRUCT, enc_fields(fields@)),
        Value::Object(o) => enc_pod(
            TYPE_OBJECT,
            spec_u32_to_le_bytes(o.type_) + spec_u32_to_le_bytes(o.id) + enc_props(o.properties@),
        ),
        Value::Choice(c) => enc_pod(TYPE_CHOICE, enc_choice_value_body(c)),
    }
}

/// Whether a value can be encoded at all: every body in it, at every nesting
/// level, must fit the 32-bit length field of the wire format.
///
/// Serialization succeeds exactly on the values this predicate holds of.
pub open spec fn body_ok(v: Value) -> bool
    decreases v,
{
    match v {
        Value::Unit => true,
        Value::Bool(_) => true,
        Value::Id(_) => true,
        Value::Int(_) => true,
        Value::Long(_) => true,
        Value::Float(_) => true,
        Value::Double(_) => true,
        Value::Rectangle(_) => true,
        Value::Fraction(_) => true,
        Value::Fd(_) => true,
        Value::String(s) => vstd::utf8::encode_utf8(s@).len() + 1 <= u32::MAX,
        Value::Bytes(b) => b@.len() <= u32::MAX,
        Value::ValueArray(a) => enc_array_body(a).len() <= u32::MAX,
        Value::Struct(fields) => fields_ok(fields@) && enc_fields(fields@).len() <= u32::MAX,
        Value::Object(o) => props_ok(o.properties@) && 8 + enc_props(o.properties@).len()
            <= u32::MAX,
        Value::Choice(c) => enc_choice_value_body(c).len() <= u32::MAX,
    }
}

/// [`body_ok`], over every field of a struct pod.
pub open spec fn fields_ok(fields: Seq<Value>) -> bool
    decreases fields,
{
    fields.len() == 0 || (body_ok(fields[0]) && fields_ok(fields.drop_first()))
}

/// [`body_ok`], over the value of every property of an object pod.
pub open spec fn props_ok(props: Seq<Property>) -> bool
    decreases props,
{
    props.len() == 0 || (body_ok(props[0].value) && props_ok(props.drop_first()))
}

/// The body of a struct pod: the concatenation of the complete, padded
/// encodings of its fields.
pub open spec fn enc_fields(fields: Seq<Value>) -> Seq<u8>
    decreases fields,
{
    if fields.len() == 0 {
        Seq::empty()
    } else {
        enc_value(fields[0]) + enc_fields(fields.drop_first())
    }
}

/// The property part of an object pod body: for each property its key, its
/// flags, and the complete encoding of its value.
pub open spec fn enc_props(props: Seq<Property>) -> Seq<u8>
    decreases props,
{
    if props.len() == 0 {
        Seq::empty()
    } else {
        spec_u32_to_le_bytes(props[0].key) + spec_u32_to_le_bytes(props[0].flags.bits)
            + enc_value(props[0].value) + enc_props(props.drop_first())
    }
}

/// The kinds of failure that decoding a buffer into a [`Value`] can report.
#[derive(Debug, Copy, Clone, PartialEq, Eq, Structural)]
pub enum DecodeErrorKind {
    /// A header claims a length or content inconsistent with the remaining
    /// bytes.
    Malformed,
    /// An unknown type tag, or an element type that cannot stand in an array
    /// or choice.
    InvalidType,
    /// An unknown choice kind.
    InvalidChoiceType,
    /// A choice body with fewer elements than its kind requires.
    MissingChoiceValues,
}

/// The 32-bit field at offset `at` of `b`.
pub open spec fn dec_u32(b: Seq<u8>, at: int) -> u32 {
    spec_u32_from_le_bytes(b.subrange(at, at + 4))
}

/// The fixed body size that a type tag prescribes, or -1 if the tag is not a
/// canonical fixed-size type.
pub open spec fn fixed_size_of(ty: u32) -> int {
    if ty == TYPE_NONE {
        0
    } else if ty == TYPE_BOOL || ty == TYPE_ID || ty == TYPE_INT || ty == TYPE_FLOAT {
        4
    } else if ty == TYPE_LONG || ty == TYPE_DOUBLE || ty == TYPE_FD || ty == TYPE_RECTANGLE
        || ty == TYPE_FRACTION {
        8
    } else {
        -1
    }
}

/// Whether generic decoding of the pod at offset `at` of `b` succeeds, and
/// either the exact number of bytes it consumes (header, body and padding) or
/// the exact failure it reports.
///
/// This is the specification that [`deserialize::decode_any`] is proved
/// against, failure for failure.  It accepts everything the wire format's
/// producers emit, including the documented permissive cases: a `Bool` body
/// holding any non-zero value, and array, choice and struct bodies with
/// trailing bytes that belong to no element.
pub open spec fn dec_shape(b: Seq<u8>, at: int) -> Result<int, DecodeErrorKind>
    decreases b.len() - at, 0int,
{
    if at < 0 || at + 8 > b.len() {
        Err(DecodeErrorKind::Malformed)
    } else {
        let size = dec_u32(b, at) as int;
        let ty = dec_u32(b, at + 4);
        if fixed_size_of(ty) >= 0 {
            let fs = fixed_size_of(ty);
            if size != fs {
                Err(DecodeErrorKind::Malformed)
            } else if at + 8 + fs + pad_len(fs as nat) > b.len() {
                Err(DecodeErrorKind::Malformed)
            } else {
                Ok(8 + fs + pad_len(fs as nat))
            }
        } else if ty == TYPE_STRING {
            if size < 1 {
                Err(DecodeErrorKind::Malformed)
            } else if at + 8 + size + pad_len(size as nat) > b.len() {
                Err(DecodeErrorKind::Malformed)
            } else if b[at + 8 + size - 1] != 0 {
                Err(DecodeErrorKind::Malformed)
            } else if !vstd::utf8::valid_utf8(b.subrange(at + 8, at + 8 + size - 1)) {
                Err(DecodeErrorKind::Malformed)
            } else {
                Ok(8 + size + pad_len(size as nat))
            }
        } else if ty == TYPE_BYTES {
            if at + 8 + size + pad_len(size as nat) > b.len() {
                Err(DecodeErrorKind::Malformed)
            } else {
                Ok(8 + size + pad_len(size as nat))
            }
        } else if ty == TYPE_ARRAY {
            if size < 8 || at + 16 > b.len() {
                Err(DecodeErrorKind::Malformed)
            } else {
                let esz = dec_u32(b, at + 8) as int;
                let ety = dec_u32(b, at + 12);
                if fixed_size_of(ety) < 0 {
                    Err(DecodeErrorKind::InvalidType)
                } else if esz != fixed_size_of(ety) {
                    Err(DecodeErrorKind::Malformed)
                } else {
                    let n = if esz == 0 { 0int } else { (size - 8) / esz };
                    if at + 16 + n * esz + pad_len((n * esz) as nat) > b.len() {
                        Err(DecodeErrorKind::Malformed)
                    } else {
                        Ok(16 + n * esz + pad_len((n * esz) as nat))
                    }
                }
            }
        } else if ty == TYPE_STRUCT {
            if at + 8 + size > b.len() {
                Err(DecodeErrorKind::Malformed)
            } else {
                match dec_fields_shape(b, at + 8, at + 8 + size) {
                    Ok(_) => Ok(8 + size),
                    Err(e) => Err(e),
                }
            }
        } else if ty == TYPE_OBJECT {
            if size < 8 {
                Err(DecodeErrorKind::Malformed)
            } else if at + 8 + size > b.len() {
                Err(DecodeErrorKind::Malformed)
            } else {
                match dec_props_shape(b, at + 16, at + 8 + size) {
                    Ok(_) => Ok(8 + size),
                    Err(e) => Err(e),
                }
            }
        } else if ty == TYPE_CHOICE {
            if size < 16 || at + 24 > b.len() {
                Err(DecodeErrorKind::Malformed)
            } else {
                let kind = dec_u32(b, at + 8);
                let esz = dec_u32(b, at + 16) as int;
                let ety = dec_u32(b, at + 20);
                if fixed_size_of(ety) <= 0 || ety == TYPE_BOOL {
                    Err(DecodeErrorKind::InvalidType)
                } else if esz != fixed_size_of(ety) {
                    Err(DecodeErrorKind::Malformed)
                } else if kind > CHOICE_FLAGS {
                    Err(DecodeErrorKind::InvalidChoiceType)
                } else {
                    let n = (size - 16) / esz;
                    let needed: int = if kind == CHOICE_RANGE {
                        3
                    } else if kind == CHOICE_STEP {
                        4
                    } else {
                        1
                    };
                    if n < needed {
                        Err(DecodeErrorKind::MissingChoiceValues)
                    } else if at + 24 + n * esz + pad_len((n * esz) as nat) > b.len() {
                        Err(DecodeErrorKind::Malformed)
                    } else {
                        Ok(24 + n * esz + pad_len((n * esz) as nat))
                    }
                }
            }
        } else {
            Err(DecodeErrorKind::InvalidType)
        }
    }
}

/// Whether decoding complete child pods from `pos` exhausts the struct body
/// at `end` exactly, as [`dec_shape`] requires of a struct.
pub open spec fn dec_fields_shape(b: Seq<u8>, pos: int, end: int) -> Result<(), DecodeErrorKind>
    decreases b.len() - pos, 1int,
{
    if pos < 0 || pos > end || end > b.len() {
        Err(DecodeErrorKind::Malformed)
    } else if pos == end {
        Ok(())
    } else {
        match dec_shape(b, pos) {
            Err(e) => Err(e),
            Ok(n) => if n <= 0 || pos + n > end {
                Err(DecodeErrorKind::Malformed)
            } else {
                dec_fields_shape(b, pos + n, end)
            },
        }
    }
}

/// Whether decoding key/flags/value triples from `pos` exhausts the object
/// body at `end` exactly, as [`dec_shape`] requires of an object.
pub open spec fn dec_props_shape(b: Seq<u8>, pos: int, end: int) -> Result<(), DecodeErrorKind>
    decreases b.len() - pos, 1int,
{
    if pos < 0 || pos > end || end > b.len() {
        Err(DecodeErrorKind::Malformed)
    } else if pos == end {
        Ok(())
    } else if pos + 8 > end {
        Err(DecodeErrorKind::Malformed)
    } else {
        match dec_shape(b, pos + 8) {
            Err(e) => Err(e),
            Ok(n) => if n <= 0 || pos + 8 + n > end {
                Err(DecodeErrorKind::Malformed)
            } else {
                dec_props_shape(b, pos + 8 + n, end)
            },
        }
    }
}

/// The values decoded from `n` contiguous bodies of the canonical type `C`
/// starting at offset `start`.
pub open spec fn dec_body_seq<C: CanonicalFixedSizedPod>(b: Seq<u8>, start: int, n: int) -> Seq<
    C,
> {
    Seq::new(
        n as nat,
        |i: int| C::spec_from_body(
            b.subrange(
                start + i * C::spec_size(),
                start + i * C::spec_size() + C::spec_size(),
            ),
        ),
    )
}

/// Whether `c` is the choice that a choice body of `n` elements of type `C`
/// at pod offset `at` decodes to: the flags carried over, and the elements
/// distributed as the choice kind prescribes, extra trailing elements being
/// ignored.
pub open spec fn dec_choice_rel<C: CanonicalFixedSizedPod>(
    b: Seq<u8>,
    at: int,
    kind: u32,
    flags: u32,
    n: int,
    c: Choice<C>,
) -> bool {
    let es = dec_body_seq::<C>(b, at + 24, n);
    c.0.bits == flags && if kind == CHOICE_NONE {
        c.1 matches ChoiceEnum::Fixed(x) && x == es[0]
    } else if kind == CHOICE_RANGE {
        c.1 matches ChoiceEnum::Range { default, min, max } && default == es[0] && min == es[1]
            && max == es[2]
    } else if kind == CHOICE_STEP {
        c.1 matches ChoiceEnum::Step { default, min, max, step } && default == es[0] && min
            == es[1] && max == es[2] && step == es[3]
    } else if kind == CHOICE_ENUM {
        c.1 matches ChoiceEnum::Enum { default, alternatives } && default == es[0]
            && alternatives@ == es.skip(1)
    } else {
        kind == CHOICE_FLAGS && (c.1 matches ChoiceEnum::Flags { default, flags: fl } && default
            == es[0] && fl@ == es.skip(1))
    }
}

/// Whether `v` is the value that the pod at offset `at` of `b` decodes to.
///
/// This relation pins the decoded value down completely: for every buffer on
/// which [`dec_shape`] succeeds, any two values related to it have equal
/// contents.  It is a relation rather than a function only because a decoded
/// string or byte vector is described by its view.
pub open spec fn dec_value_rel(b: Seq<u8>, at: int, v: Value) -> bool
    decreases v,
{
    let size = dec_u32(b, at) as int;
    let ty = dec_u32(b, at + 4);
    if ty == TYPE_NONE {
        v == Value::Unit
    } else if ty == TYPE_BOOL {
        v == Value::Bool(<bool as CanonicalFixedSizedPod>::spec_from_body(
            b.subrange(at + 8, at + 12),
        ))
    } else if ty == TYPE_ID {
        v == Value::Id(<Id as CanonicalFixedSizedPod>::spec_from_body(
            b.subrange(at + 8, at + 12),
        ))
    } else if ty == TYPE_INT {
        v == Value::Int(<i32 as CanonicalFixedSizedPod>::spec_from_body(
            b.subrange(at + 8, at + 12),
        ))
    } else if ty == TYPE_LONG {
        v == Value::Long(<i64 as CanonicalFixedSizedPod>::spec_from_body(
            b.subrange(at + 8, at + 16),
        ))
    } else if ty == TYPE_FLOAT {
        v == Value::Float(<FloatBits as CanonicalFixedSizedPod>::spec_from_body(
            b.subrange(at + 8, at + 12),
        ))
    } else if ty == TYPE_DOUBLE {
        v == Value::Double(<DoubleBits as CanonicalFixedSizedPod>::spec_from_body(
            b.subrange(at + 8, at + 16),
        ))
    } else if ty == TYPE_RECTANGLE {
        v == Value::Rectangle(<Rectangle as CanonicalFixedSizedPod>::spec_from_body(
            b.subrange(at + 8, at + 16),
        ))
    } else if ty == TYPE_FRACTION {
        v == Value::Fraction(<Fraction as CanonicalFixedSizedPod>::spec_from_body(
            b.subrange(at + 8, at + 16),
        ))
    } else if ty == TYPE_FD {
        v == Value::Fd(<Fd as CanonicalFixedSizedPod>::spec_from_body(
            b.subrange(at + 8, at + 16),
        ))
    } else if ty == TYPE_STRING {
        v matches Value::String(s) && s@ == vstd::utf8::decode_utf8(
            b.subrange(at + 8, at + 8 + size - 1),
        )
    } else if ty == TYPE_BYTES {
        v matches Value::Bytes(bytes) && bytes@ == b.subrange(at + 8, at + 8 + size)
    } else if ty == TYPE_ARRAY {
        let esz = dec_u32(b, at + 8) as int;
        let ety = dec_u32(b, at + 12);
        let n = if esz == 0 { 0int } else { (size - 8) / esz };
        if ety == TYPE_NONE {
            v matches Value::ValueArray(ValueArray::Unit(xs)) && xs@ == dec_body_seq::<()>(
                b, at + 16, n,
            )
        } else if ety == TYPE_BOOL {
            v matches Value::ValueArray(ValueArray::Bool(xs)) && xs@ == dec_body_seq::<bool>(
                b, at + 16, n,
            )
        } else if ety == TYPE_ID {
            v matches Value::ValueArray(ValueArray::Id(xs)) && xs@ == dec_body_seq::<Id>(
                b, at + 16, n,
            )
        } else if ety == TYPE_INT {
            v matches Value::ValueArray(ValueArray::Int(xs)) && xs@ == dec_body_seq::<i32>(
                b, at + 16, n,
            )
        } else if ety == TYPE_LONG {
            v matches Value::ValueArray(ValueArray::Long(xs)) && xs@ == dec_body_seq::<i64>(
                b, at + 16, n,
            )
        } else if ety == TYPE_FLOAT {
            v matches Value::ValueArray(ValueArray::Float(xs)) && xs@ == dec_body_seq::<FloatBits>(
                b, at + 16, n,
            )
        } else if ety == TYPE_DOUBLE {
            v matches Value::ValueArray(ValueArray::Double(xs)) && xs@ == dec_body_seq::<
                DoubleBits,
            >(b, at + 16, n)
        } else if ety == TYPE_RECTANGLE {
            v matches Value::ValueArray(ValueArray::Rectangle(xs)) && xs@ == dec_body_seq::<
                Rectangle,
            >(b, at + 16, n)
        } else if ety == TYPE_FRACTION {
            v matches Value::ValueArray(ValueArray::Fraction(xs)) && xs@ == dec_body_seq::<
                Fraction,
            >(b, at + 16, n)
        } else {
            ety == TYPE_FD && (v matches Value::ValueArray(ValueArray::Fd(xs)) && xs@
                == dec_body_seq::<Fd>(b, at + 16, n))
        }
    } else if ty == TYPE_STRUCT {
        v matches Value::Struct(fields) && dec_fields_rel(b, at + 8, at + 8 + size, fields@)
    } else if ty == TYPE_OBJECT {
        v matches Value::Object(o) && o.type_ == dec_u32(b, at + 8) && o.id == dec_u32(b, at + 12)
            && dec_props_rel(b, at + 16, at + 8 + size, o.properties@)
    } else if ty == TYPE_CHOICE {
        let kind = dec_u32(b, at + 8);
        let flags = dec_u32(b, at + 12);
        let esz = dec_u32(b, at + 16) as int;
        let ety = dec_u32(b, at + 20);
        let n = if esz == 0 { 0int } else { (size - 16) / esz };
        if ety == TYPE_INT {
            v matches Value::Choice(ChoiceValue::Int(c)) && dec_choice_rel::<i32>(
                b, at, kind, flags, n, c,
            )
        } else if ety == TYPE_LONG {
            v matches Value::Choice(ChoiceValue::Long(c)) && dec_choice_rel::<i64>(
                b, at, kind, flags, n, c,
            )
        } else if ety == TYPE_FLOAT {
            v matches Value::Choice(ChoiceValue::Float(c)) && dec_choice_rel::<FloatBits>(
                b, at, kind, flags, n, c,
            )
        } else if ety == TYPE_DOUBLE {
            v matches Value::Choice(ChoiceValue::Double(c)) && dec_choice_rel::<DoubleBits>(
                b, at, kind, flags, n, c,
            )
        } else if ety == TYPE_ID {
            v matches Value::Choice(ChoiceValue::Id(c)) && dec_choice_rel::<Id>(
                b, at, kind, flags, n, c,
            )
        } else if ety == TYPE_RECTANGLE {
            v matches Value::Choice(ChoiceValue::Rectangle(c)) && dec_choice_rel::<Rectangle>(
                b, at, kind, flags, n, c,
            )
        } else if ety == TYPE_FRACTION {
            v matches Value::Choice(ChoiceValue::Fraction(c)) && dec_choice_rel::<Fraction>(
                b, at, kind, flags, n, c,
            )
        } else {
            ety == TYPE_FD && (v matches Value::Choice(ChoiceValue::Fd(c)) && dec_choice_rel::<Fd>(
                b, at, kind, flags, n, c,
            ))
        }
    } else {
        false
    }
}

/// Whether `fields` are the values of the complete child pods that fill
/// `b[pos..end]` exactly, in order.
pub open spec fn dec_fields_rel(b: Seq<u8>, pos: int, end: int, fields: Seq<Value>) -> bool
    decreases fields,
{
    if fields.len() == 0 {
        pos == end
    } else {
        match dec_shape(b, pos) {
            Err(_) => false,
            Ok(n) => n > 0 && pos + n <= end && dec_value_rel(b, pos, fields[0])
                && dec_fields_rel(b, pos + n, end, fields.drop_first()),
        }
    }
}

/// Whether `props` are the key/flags/value triples that fill `b[pos..end]`
/// exactly, in order.
pub open spec fn dec_props_rel(b: Seq<u8>, pos: int, end: int, props: Seq<Property>) -> bool
    decreases props,
{
    if props.len() == 0 {
        pos == end
    } else {
        pos + 8 <= end && props[0].key == dec_u32(b, pos) && props[0].flags.bits == dec_u32(
            b, pos + 4,
        ) && match dec_shape(b, pos + 8) {
            Err(_) => false,
            Ok(n) => n > 0 && pos + 8 + n <= end && dec_value_rel(b, pos + 8, props[0].value)
                && dec_props_rel(b, pos + 8 + n, end, props.drop_first()),
        }
    }
}

} // verus!
