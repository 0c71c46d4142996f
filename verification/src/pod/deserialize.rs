//! This module deals with deserializing raw SPA pods into rust types.
//!
//! A raw pod can be deserialized into any implementor of the
//! [`PodDeserialize`] trait by using [`PodDeserializer::deserialize_from`],
//! or into the dynamically typed [`Value`] by using
//! [`PodDeserializer::deserialize_any_from`].
//!
//! The crate provides a number of implementors of the [`PodDeserialize`]
//! trait either directly, or through [`FixedSizedPod`].  You can also
//! implement it on another type yourself, driving a [`Visitor`] that builds
//! the type from the decoded shape.

use vstd::prelude::*;
use vstd::slice::{slice_subrange, slice_to_vec};
use vstd::string::StringSliceAdditionalSpecFns;

use crate::pod::wire::{get_u32, pad_len, pad_of};
use crate::pod::{
    dec_body_seq, dec_choice_rel, dec_fields_shape, dec_fields_rel, dec_props_shape,
    dec_props_rel, dec_shape, dec_u32, dec_value_rel, fixed_size_of, CanonicalFixedSizedPod,
    DecodeErrorKind, FixedSizedPod, Object, Property, PropertyFlags, Value, ValueArray,
    ChoiceValue, CHOICE_ENUM, CHOICE_FLAGS, CHOICE_NONE, CHOICE_RANGE, CHOICE_STEP, TYPE_ARRAY,
    TYPE_BOOL, TYPE_BYTES, TYPE_CHOICE, TYPE_DOUBLE, TYPE_FD, TYPE_FLOAT, TYPE_FRACTION, TYPE_ID,
    TYPE_INT, TYPE_LONG, TYPE_NONE, TYPE_OBJECT, TYPE_RECTANGLE, TYPE_STRING, TYPE_STRUCT,
};
use crate::utils::{Choice, ChoiceEnum, ChoiceFlags, DoubleBits, Fd, FloatBits, Fraction, Id,
    Rectangle};

verus! {

/// An error that may occur when deserializing a pod.
///
/// The type parameter carries the part of the input a malformed-input failure
/// was detected in.
#[derive(Debug, PartialEq)]
pub enum DeserializeError<I> {
    /// The input is malformed: a header claims a length or content
    /// inconsistent with the remaining bytes.
    Malformed(I),
    /// The pod is well-formed but the deserialization target does not handle
    /// pods of its type.
    UnsupportedType,
    /// The type tag is not a valid pod type where one is required.
    InvalidType,
    /// An object property was requested but the body is exhausted.
    PropertyMissing,
    /// An object property carries a different key than the expected one.
    PropertyWrongKey(u32),
    /// A choice body carries an unknown choice kind.
    InvalidChoiceType,
    /// A choice body holds fewer elements than its kind requires.
    MissingChoiceValues,
    /// The declared element count of an array was not respected: an element
    /// was requested beyond the count, or the array was closed before every
    /// element was read.
    ElementCountMismatch,
}

/// The [`DecodeErrorKind`] that an error reports, if it is one that generic
/// decoding can produce.
pub open spec fn err_kind_of<I>(e: DeserializeError<I>) -> Option<DecodeErrorKind> {
    match e {
        DeserializeError::Malformed(_) => Some(DecodeErrorKind::Malformed),
        DeserializeError::InvalidType => Some(DecodeErrorKind::InvalidType),
        DeserializeError::InvalidChoiceType => Some(DecodeErrorKind::InvalidChoiceType),
        DeserializeError::MissingChoiceValues => Some(DecodeErrorKind::MissingChoiceValues),
        _ => None,
    }
}

/// Whether a well-formed fixed-size pod of the canonical type `C` stands at
/// offset `at` of `b`: the type's tag, the type's fixed size in the length
/// field, and body plus padding within bounds.  Typed fixed-size decoding
/// succeeds exactly here.
pub open spec fn fixed_pod_ok<C: CanonicalFixedSizedPod>(b: Seq<u8>, at: int) -> bool {
    let sz = C::spec_size() as int;
    &&& at + 8 <= b.len()
    &&& dec_u32(b, at) == sz
    &&& dec_u32(b, at + 4) == C::spec_type()
    &&& at + 8 + sz + pad_len(sz as nat) <= b.len()
}

/// Whether a well-formed string pod stands at offset `at` of `b`: the tag, a
/// body of at least the terminating zero byte, body and padding within
/// bounds, the terminator in place, and valid UTF-8 before it.  String
/// decoding succeeds exactly here.
pub open spec fn string_pod_ok(b: Seq<u8>, at: int) -> bool {
    let size = dec_u32(b, at) as int;
    &&& at + 8 <= b.len()
    &&& dec_u32(b, at + 4) == TYPE_STRING
    &&& 1 <= size
    &&& at + 8 + size + pad_len(size as nat) <= b.len()
    &&& b[at + 8 + size - 1] == 0
    &&& vstd::utf8::valid_utf8(b.subrange(at + 8, at + 8 + size - 1))
}

/// Whether a well-formed bytes pod stands at offset `at` of `b`: the tag,
/// and body plus padding within bounds.  Bytes decoding succeeds exactly
/// here.
pub open spec fn bytes_pod_ok(b: Seq<u8>, at: int) -> bool {
    let size = dec_u32(b, at) as int;
    &&& at + 8 <= b.len()
    &&& dec_u32(b, at + 4) == TYPE_BYTES
    &&& at + 8 + size + pad_len(size as nat) <= b.len()
}

/// Whether a well-formed array pod over elements of the canonical type `C`
/// stands at offset `at` of `b`: the outer tag, an inner header equal to the
/// element type's (size, tag), and the derived elements plus padding within
/// bounds.  Typed array decoding succeeds exactly here.
pub open spec fn array_pod_ok<C: CanonicalFixedSizedPod>(b: Seq<u8>, at: int) -> bool {
    let size = dec_u32(b, at) as int;
    let esz = C::spec_size() as int;
    let n = if esz == 0 { 0int } else { (size - 8) / esz };
    &&& at + 8 <= b.len()
    &&& dec_u32(b, at + 4) == TYPE_ARRAY
    &&& size >= 8
    &&& at + 16 <= b.len()
    &&& dec_u32(b, at + 12) == C::spec_type()
    &&& dec_u32(b, at + 8) == esz
    &&& at + 16 + n * esz + pad_len((n * esz) as nat) <= b.len()
}

/// Whether a well-formed choice pod over elements of the canonical type `C`
/// stands at offset `at` of `b`: the outer tag, a known choice kind, an
/// element header equal to the type's (size, tag), at least as many elements
/// as the kind requires, and all elements plus padding within bounds.  Typed
/// choice decoding succeeds exactly here.
pub open spec fn choice_pod_ok<C: CanonicalFixedSizedPod>(b: Seq<u8>, at: int) -> bool {
    let size = dec_u32(b, at) as int;
    let kind = dec_u32(b, at + 8);
    let esz = C::spec_size() as int;
    let n = if esz == 0 { 0int } else { (size - 16) / esz };
    let needed: int = if kind == CHOICE_RANGE {
        3
    } else if kind == CHOICE_STEP {
        4
    } else {
        1
    };
    &&& at + 8 <= b.len()
    &&& dec_u32(b, at + 4) == TYPE_CHOICE
    &&& size >= 16
    &&& at + 24 <= b.len()
    &&& dec_u32(b, at + 20) == C::spec_type()
    &&& esz > 0
    &&& C::spec_type() != TYPE_BOOL
    &&& dec_u32(b, at + 16) == esz
    &&& kind <= CHOICE_FLAGS
    &&& n >= needed
    &&& at + 24 + n * esz + pad_len((n * esz) as nat) <= b.len()
}

/// A malformed-input error pointing at the input from `at` on.
fn malformed<'de>(input: &'de [u8], at: usize) -> (e: DeserializeError<&'de [u8]>)
    requires
        at <= input@.len(),
    ensures
        err_kind_of(e) == Some(DecodeErrorKind::Malformed),
{
    let len = input.len();
    DeserializeError::Malformed(slice_subrange(input, at, len))
}

/// Relies on `core::str::from_utf8`: it succeeds exactly on valid UTF-8, and
/// then returns the string slice over those same bytes.
#[verifier::external_body]
fn bytes_to_str(b: &[u8]) -> (r: Option<&str>)
    ensures
        match r {
            Some(s) => s.spec_bytes() == b@ && vstd::utf8::valid_utf8(b@),
            None => !vstd::utf8::valid_utf8(b@),
        },
{
    core::str::from_utf8(b).ok()
}

/// The fixed body size the tag prescribes, if the tag is a canonical
/// fixed-size type.
fn fixed_wire_size(ty: u32) -> (r: Option<u32>)
    ensures
        match r {
            Some(s) => fixed_size_of(ty) == s,
            None => fixed_size_of(ty) == -1,
        },
{
    if ty == TYPE_NONE {
        Some(0)
    } else if ty == TYPE_BOOL || ty == TYPE_ID || ty == TYPE_INT || ty == TYPE_FLOAT {
        Some(4)
    } else if ty == TYPE_LONG || ty == TYPE_DOUBLE || ty == TYPE_FD || ty == TYPE_RECTANGLE
        || ty == TYPE_FRACTION {
        Some(8)
    } else {
        None
    }
}

/// Read `n` contiguous bodies of the canonical type `C` starting at `start`.
fn read_body_seq<C: CanonicalFixedSizedPod>(input: &[u8], start: usize, n: usize) -> (r: Vec<C>)
    requires
        start + n * C::spec_size() <= input@.len(),
    ensures
        r@ == dec_body_seq::<C>(input@, start as int, n as int),
{
    let ilen = input.len();
    proof {
        assert(n as int * C::spec_size() >= 0) by (nonlinear_arith)
            requires n >= 0, C::spec_size() >= 0;
    }
    let size = C::wire_size() as usize;
    let mut out: Vec<C> = Vec::new();
    let mut i: usize = 0;
    while i < n
        invariant
            i <= n,
            size == C::spec_size(),
            ilen == input@.len(),
            start + n * C::spec_size() <= input@.len(),
            out@ == dec_body_seq::<C>(input@, start as int, i as int),
            out@.len() == i,
        decreases n - i,
    {
        proof {
            let sz = C::spec_size() as int;
            assert((i + 1) * sz <= n as int * sz) by (nonlinear_arith)
                requires i + 1 <= n as int, sz >= 0;
            assert(i as int * sz + sz == (i + 1) * sz) by (nonlinear_arith);
            assert(i as int * sz >= 0) by (nonlinear_arith)
                requires i >= 0, sz >= 0;
        }
        let v = C::deserialize_body(input, start + i * size);
        out.push(v);
        proof {
            assert(out@ =~= dec_body_seq::<C>(input@, start as int, i + 1));
        }
        i = i + 1;
    }
    out
}

/// Build the choice that `n` elements of the canonical type `C` at pod
/// offset `at` decode to, distributing them as the choice kind prescribes.
fn read_choice<C: CanonicalFixedSizedPod>(
    input: &[u8],
    at: usize,
    kind: u32,
    flags: u32,
    n: usize,
) -> (r: Choice<C>)
    requires
        kind <= CHOICE_FLAGS,
        n >= 1,
        kind == CHOICE_RANGE ==> n >= 3,
        kind == CHOICE_STEP ==> n >= 4,
        at + 24 + n * C::spec_size() <= input@.len(),
    ensures
        dec_choice_rel::<C>(input@, at as int, kind, flags, n as int, r),
{
    let ilen = input.len();
    let size = C::wire_size() as usize;
    proof {
        assert(n as int * C::spec_size() >= 0) by (nonlinear_arith)
            requires n >= 0, C::spec_size() >= 0;
    }
    let start = at + 24;
    let cf = ChoiceFlags { bits: flags };
    proof {
        let sz = C::spec_size() as int;
        let ni = n as int;
        assert(1 * sz <= ni * sz) by (nonlinear_arith)
            requires 1 <= ni, sz >= 0;
        if ni >= 3 {
            assert(3 * sz <= ni * sz) by (nonlinear_arith)
                requires 3 <= ni, sz >= 0;
        }
        if ni >= 4 {
            assert(4 * sz <= ni * sz) by (nonlinear_arith)
                requires 4 <= ni, sz >= 0;
        }
    }
    if kind == CHOICE_NONE {
        let v = C::deserialize_body(input, start);
        Choice(cf, ChoiceEnum::Fixed(v))
    } else if kind == CHOICE_RANGE {
        let default = C::deserialize_body(input, start);
        let min = C::deserialize_body(input, start + size);
        let max = C::deserialize_body(input, start + size + size);
        Choice(cf, ChoiceEnum::Range { default, min, max })
    } else if kind == CHOICE_STEP {
        let default = C::deserialize_body(input, start);
        let min = C::deserialize_body(input, start + size);
        let max = C::deserialize_body(input, start + size + size);
        let step = C::deserialize_body(input, start + size + size + size);
        Choice(cf, ChoiceEnum::Step { default, min, max, step })
    } else {
        let default = C::deserialize_body(input, start);
        proof {
            let sz = C::spec_size() as int;
            assert((n - 1) as int * sz + sz == n as int * sz) by (nonlinear_arith);
            assert((n - 1) as int * sz >= 0) by (nonlinear_arith)
                requires n >= 1, sz >= 0;
        }
        let rest = read_body_seq::<C>(input, start + size, n - 1);
        proof {
            let sz = C::spec_size() as int;
            let es = dec_body_seq::<C>(input@, start as int, n as int);
            assert forall|k: int| 0 <= k < n - 1 implies rest@[k] == es.skip(1)[k] by {
                assert(k * sz + sz == (k + 1) * sz) by (nonlinear_arith);
            }
            assert(rest@ =~= es.skip(1));
        }
        if kind == CHOICE_ENUM {
            Choice(cf, ChoiceEnum::Enum { default, alternatives: rest })
        } else {
            Choice(cf, ChoiceEnum::Flags { default, flags: rest })
        }
    }
}

/// A region of fields extends by one more complete pod.
proof fn lemma_dec_fields_rel_snoc(b: Seq<u8>, start: int, pos: int, m: int, fs: Seq<Value>, v: Value)
    requires
        dec_fields_rel(b, start, pos, fs),
        dec_shape(b, pos) == Ok::<int, DecodeErrorKind>(m),
        m > 0,
        dec_value_rel(b, pos, v),
    ensures
        dec_fields_rel(b, start, pos + m, fs.push(v)),
    decreases fs.len(),
{
    if fs.len() == 0 {
        assert(start == pos);
        assert(fs.push(v)[0] == v);
        assert(fs.push(v).drop_first() =~= Seq::<Value>::empty());
        assert(dec_fields_rel(b, pos + m, pos + m, Seq::<Value>::empty()));
    } else {
        match dec_shape(b, start) {
            Ok(n0) => {
                lemma_dec_fields_rel_snoc(b, start + n0, pos, m, fs.drop_first(), v);
                assert(fs.push(v)[0] == fs[0]);
                assert(fs.push(v).drop_first() =~= fs.drop_first().push(v));
            },
            Err(_) => {
                assert(false);
            },
        }
    }
}

/// A region of properties extends by one more key/flags/value triple.
proof fn lemma_dec_props_rel_snoc(
    b: Seq<u8>,
    start: int,
    pos: int,
    m: int,
    ps: Seq<Property>,
    p: Property,
)
    requires
        dec_props_rel(b, start, pos, ps),
        p.key == dec_u32(b, pos),
        p.flags.bits == dec_u32(b, pos + 4),
        dec_shape(b, pos + 8) == Ok::<int, DecodeErrorKind>(m),
        m > 0,
        dec_value_rel(b, pos + 8, p.value),
    ensures
        dec_props_rel(b, start, pos + 8 + m, ps.push(p)),
    decreases ps.len(),
{
    if ps.len() == 0 {
        assert(start == pos);
        assert(ps.push(p)[0] == p);
        assert(ps.push(p).drop_first() =~= Seq::<Property>::empty());
        assert(dec_props_rel(b, pos + 8 + m, pos + 8 + m, Seq::<Property>::empty()));
    } else {
        match dec_shape(b, start + 8) {
            Ok(n0) => {
                lemma_dec_props_rel_snoc(b, start + 8 + n0, pos, m, ps.drop_first(), p);
                assert(ps.push(p)[0] == ps[0]);
                assert(ps.push(p).drop_first() =~= ps.drop_first().push(p));
            },
            Err(_) => {
                assert(false);
            },
        }
    }
}

/// Decode one fixed-size pod whose header has been read.
fn decode_fixed_at<'de>(input: &'de [u8], at: usize, size: usize, ty: u32) -> (r: Result<
    (Value, usize),
    DeserializeError<&'de [u8]>,
>)
    requires
        at + 8 <= input@.len(),
        size == dec_u32(input@, at as int),
        ty == dec_u32(input@, at as int + 4),
        fixed_size_of(ty) >= 0,
    ensures
        match dec_shape(input@, at as int) {
            Ok(n) => r matches Ok((v, m)) && m == n && 8 <= m && at + m <= input@.len()
                && dec_value_rel(input@, at as int, v),
            Err(k) => r matches Err(e) && err_kind_of(e) == Some(k),
        },
{
    let len = input.len();
    let fs32 = match fixed_wire_size(ty) {
        Some(f) => f,
        None => {
            return Err(DeserializeError::InvalidType);
        },
    };
    let fs = fs32 as usize;
    if size != fs {
        return Err(malformed(input, at));
    }
    let p = pad_of(fs);
    if len - (at + 8) < fs + p {
        return Err(malformed(input, at));
    }
    let consumed = 8 + fs + p;
    let v = if ty == TYPE_NONE {
        Value::Unit
    } else if ty == TYPE_BOOL {
        Value::Bool(<bool as CanonicalFixedSizedPod>::deserialize_body(input, at + 8))
    } else if ty == TYPE_ID {
        Value::Id(<Id as CanonicalFixedSizedPod>::deserialize_body(input, at + 8))
    } else if ty == TYPE_INT {
        Value::Int(<i32 as CanonicalFixedSizedPod>::deserialize_body(input, at + 8))
    } else if ty == TYPE_LONG {
        Value::Long(<i64 as CanonicalFixedSizedPod>::deserialize_body(input, at + 8))
    } else if ty == TYPE_FLOAT {
        Value::Float(<FloatBits as CanonicalFixedSizedPod>::deserialize_body(input, at + 8))
    } else if ty == TYPE_DOUBLE {
        Value::Double(<DoubleBits as CanonicalFixedSizedPod>::deserialize_body(input, at + 8))
    } else if ty == TYPE_RECTANGLE {
        Value::Rectangle(<Rectangle as CanonicalFixedSizedPod>::deserialize_body(input, at + 8))
    } else if ty == TYPE_FRACTION {
        Value::Fraction(<Fraction as CanonicalFixedSizedPod>::deserialize_body(input, at + 8))
    } else {
        Value::Fd(<Fd as CanonicalFixedSizedPod>::deserialize_body(input, at + 8))
    };
    Ok((v, consumed))
}

/// Decode one string pod whose header has been read.
fn decode_string_at<'de>(input: &'de [u8], at: usize, size: usize) -> (r: Result<
    (Value, usize),
    DeserializeError<&'de [u8]>,
>)
    requires
        at + 8 <= input@.len(),
        size == dec_u32(input@, at as int),
        dec_u32(input@, at as int + 4) == TYPE_STRING,
    ensures
        match dec_shape(input@, at as int) {
            Ok(n) => r matches Ok((v, m)) && m == n && 8 <= m && at + m <= input@.len()
                && dec_value_rel(input@, at as int, v),
            Err(k) => r matches Err(e) && err_kind_of(e) == Some(k),
        },
{
    let len = input.len();
    if size < 1 {
        return Err(malformed(input, at));
    }
    let p = pad_of(size);
    if len - (at + 8) < size || len - (at + 8) - size < p {
        return Err(malformed(input, at));
    }
    let last = *vstd::slice::slice_index_get(input, at + 8 + size - 1);
    if last != 0 {
        return Err(malformed(input, at));
    }
    let body = slice_subrange(input, at + 8, at + 8 + size - 1);
    match bytes_to_str(body) {
        None => Err(malformed(input, at)),
        Some(st) => {
            proof {
                vstd::utf8::encode_utf8_decode_utf8(st@);
            }
            let owned: String = st.to_owned();
            Ok((Value::String(owned), 8 + size + p))
        },
    }
}

/// Decode one bytes pod whose header has been read.
fn decode_bytes_at<'de>(input: &'de [u8], at: usize, size: usize) -> (r: Result<
    (Value, usize),
    DeserializeError<&'de [u8]>,
>)
    requires
        at + 8 <= input@.len(),
        size == dec_u32(input@, at as int),
        dec_u32(input@, at as int + 4) == TYPE_BYTES,
    ensures
        match dec_shape(input@, at as int) {
            Ok(n) => r matches Ok((v, m)) && m == n && 8 <= m && at + m <= input@.len()
                && dec_value_rel(input@, at as int, v),
            Err(k) => r matches Err(e) && err_kind_of(e) == Some(k),
        },
{
    let len = input.len();
    let p = pad_of(size);
    if len - (at + 8) < size || len - (at + 8) - size < p {
        return Err(malformed(input, at));
    }
    let body = slice_to_vec(slice_subrange(input, at + 8, at + 8 + size));
    Ok((Value::Bytes(body), 8 + size + p))
}

/// Decode one array pod whose header has been read: the element count is
/// derived from the body length and the element size, never stored.
#[verifier::rlimit(60)]
fn decode_array_at<'de>(input: &'de [u8], at: usize, size: usize) -> (r: Result<
    (Value, usize),
    DeserializeError<&'de [u8]>,
>)
    requires
        at + 8 <= input@.len(),
        size == dec_u32(input@, at as int),
        dec_u32(input@, at as int + 4) == TYPE_ARRAY,
    ensures
        match dec_shape(input@, at as int) {
            Ok(n) => r matches Ok((v, m)) && m == n && 8 <= m && at + m <= input@.len()
                && dec_value_rel(input@, at as int, v),
            Err(k) => r matches Err(e) && err_kind_of(e) == Some(k),
        },
{
    let len = input.len();
    if size < 8 || len - at < 16 {
        return Err(malformed(input, at));
    }
    let esz32 = get_u32(input, at + 8);
    let ety = get_u32(input, at + 12);
    let expect = match fixed_wire_size(ety) {
        None => {
            return Err(DeserializeError::InvalidType);
        },
        Some(e) => e,
    };
    if esz32 != expect {
        return Err(malformed(input, at));
    }
    let esz = esz32 as usize;
    let n: usize = if esz == 0 {
        0
    } else {
        (size - 8) / esz
    };
    proof {
        if esz > 0 {
            vstd::arithmetic::div_mod::lemma_fundamental_div_mod(size - 8, esz as int);
            vstd::arithmetic::div_mod::lemma_mod_bound(size - 8, esz as int);
            assert(esz as int * ((size - 8) as int / esz as int) == ((size - 8) as int
                / esz as int) * esz as int) by (nonlinear_arith);
        } else {
            assert(n as int * esz as int == 0) by (nonlinear_arith)
                requires esz == 0;
        }
    }
    let need = n * esz;
    let p = pad_of(need);
    if len - (at + 16) < need || len - (at + 16) - need < p {
        return Err(malformed(input, at));
    }
    let v = if ety == TYPE_NONE {
        Value::ValueArray(ValueArray::Unit(read_body_seq::<()>(input, at + 16, n)))
    } else if ety == TYPE_BOOL {
        Value::ValueArray(ValueArray::Bool(read_body_seq::<bool>(input, at + 16, n)))
    } else if ety == TYPE_ID {
        Value::ValueArray(ValueArray::Id(read_body_seq::<Id>(input, at + 16, n)))
    } else if ety == TYPE_INT {
        Value::ValueArray(ValueArray::Int(read_body_seq::<i32>(input, at + 16, n)))
    } else if ety == TYPE_LONG {
        Value::ValueArray(ValueArray::Long(read_body_seq::<i64>(input, at + 16, n)))
    } else if ety == TYPE_FLOAT {
        Value::ValueArray(ValueArray::Float(read_body_seq::<FloatBits>(input, at + 16, n)))
    } else if ety == TYPE_DOUBLE {
        Value::ValueArray(ValueArray::Double(read_body_seq::<DoubleBits>(input, at + 16, n)))
    } else if ety == TYPE_RECTANGLE {
        Value::ValueArray(ValueArray::Rectangle(read_body_seq::<Rectangle>(input, at + 16, n)))
    } else if ety == TYPE_FRACTION {
        Value::ValueArray(ValueArray::Fraction(read_body_seq::<Fraction>(input, at + 16, n)))
    } else {
        Value::ValueArray(ValueArray::Fd(read_body_seq::<Fd>(input, at + 16, n)))
    };
    Ok((v, 16 + need + p))
}

/// Decode one choice pod whose header has been read.  Elements beyond the
/// number the choice kind requires are read and ignored, not an error.
#[verifier::rlimit(60)]
fn decode_choice_at<'de>(input: &'de [u8], at: usize, size: usize) -> (r: Result<
    (Value, usize),
    DeserializeError<&'de [u8]>,
>)
    requires
        at + 8 <= input@.len(),
        size == dec_u32(input@, at as int),
        dec_u32(input@, at as int + 4) == TYPE_CHOICE,
    ensures
        match dec_shape(input@, at as int) {
            Ok(n) => r matches Ok((v, m)) && m == n && 8 <= m && at + m <= input@.len()
                && dec_value_rel(input@, at as int, v),
            Err(k) => r matches Err(e) && err_kind_of(e) == Some(k),
        },
{
    let len = input.len();
    if size < 16 || len - at < 24 {
        return Err(malformed(input, at));
    }
    let kind = get_u32(input, at + 8);
    let choice_flags = get_u32(input, at + 12);
    let esz32 = get_u32(input, at + 16);
    let ety = get_u32(input, at + 20);
    let expect = match fixed_wire_size(ety) {
        None => {
            return Err(DeserializeError::InvalidType);
        },
        Some(e) => e,
    };
    if expect == 0 || ety == TYPE_BOOL {
        return Err(DeserializeError::InvalidType);
    }
    if esz32 != expect {
        return Err(malformed(input, at));
    }
    if kind > CHOICE_FLAGS {
        return Err(DeserializeError::InvalidChoiceType);
    }
    let esz = esz32 as usize;
    let n: usize = (size - 16) / esz;
    let needed: usize = if kind == CHOICE_RANGE {
        3
    } else if kind == CHOICE_STEP {
        4
    } else {
        1
    };
    if n < needed {
        return Err(DeserializeError::MissingChoiceValues);
    }
    proof {
        vstd::arithmetic::div_mod::lemma_fundamental_div_mod(size - 16, esz as int);
        vstd::arithmetic::div_mod::lemma_mod_bound(size - 16, esz as int);
        assert(esz as int * ((size - 16) as int / esz as int) == ((size - 16) as int
            / esz as int) * esz as int) by (nonlinear_arith);
    }
    let need = n * esz;
    let p = pad_of(need);
    if len - (at + 24) < need || len - (at + 24) - need < p {
        return Err(malformed(input, at));
    }
    let v = if ety == TYPE_INT {
        Value::Choice(ChoiceValue::Int(read_choice::<i32>(input, at, kind, choice_flags, n)))
    } else if ety == TYPE_LONG {
        Value::Choice(ChoiceValue::Long(read_choice::<i64>(input, at, kind, choice_flags, n)))
    } else if ety == TYPE_FLOAT {
        Value::Choice(ChoiceValue::Float(read_choice::<FloatBits>(
            input, at, kind, choice_flags, n,
        )))
    } else if ety == TYPE_DOUBLE {
        Value::Choice(ChoiceValue::Double(read_choice::<DoubleBits>(
            input, at, kind, choice_flags, n,
        )))
    } else if ety == TYPE_ID {
        Value::Choice(ChoiceValue::Id(read_choice::<Id>(input, at, kind, choice_flags, n)))
    } else if ety == TYPE_RECTANGLE {
        Value::Choice(ChoiceValue::Rectangle(read_choice::<Rectangle>(
            input, at, kind, choice_flags, n,
        )))
    } else if ety == TYPE_FRACTION {
        Value::Choice(ChoiceValue::Fraction(read_choice::<Fraction>(
            input, at, kind, choice_flags, n,
        )))
    } else {
        Value::Choice(ChoiceValue::Fd(read_choice::<Fd>(input, at, kind, choice_flags, n)))
    };
    Ok((v, 24 + need + p))
}

/// Decode the complete pod at offset `at` of `input` into an owned
/// [`Value`], returning it together with the number of bytes the pod
/// occupies: header, body and trailing padding.
///
/// This function is the generic decoding core: it succeeds exactly when
/// [`dec_shape`] does, consumes exactly the bytes [`dec_shape`] counts,
/// returns exactly the value [`dec_value_rel`] describes, and reports
/// exactly the failure [`dec_shape`] names.
#[verifier::loop_isolation(false)]
#[verifier::rlimit(100)]
pub fn decode_at<'de>(input: &'de [u8], at: usize) -> (r: Result<
    (Value, usize),
    DeserializeError<&'de [u8]>,
>)
    ensures
        match dec_shape(input@, at as int) {
            Ok(n) => r matches Ok((v, m)) && m == n && 8 <= m && at + m <= input@.len()
                && dec_value_rel(input@, at as int, v),
            Err(k) => r matches Err(e) && err_kind_of(e) == Some(k),
        },
    decreases input@.len() - at, 1int,
{
    let ghost b = input@;
    let ghost ai = at as int;
    let len = input.len();
    if at > len || len - at < 8 {
        return Err(malformed(input, if at > len { len } else { at }));
    }
    let size32 = get_u32(input, at);
    let ty = get_u32(input, at + 4);
    let size = size32 as usize;
    if ty == TYPE_NONE || ty == TYPE_BOOL || ty == TYPE_ID || ty == TYPE_INT || ty == TYPE_FLOAT
        || ty == TYPE_LONG || ty == TYPE_DOUBLE || ty == TYPE_FD || ty == TYPE_RECTANGLE
        || ty == TYPE_FRACTION {
        decode_fixed_at(input, at, size, ty)
    } else if ty == TYPE_STRING {
        decode_string_at(input, at, size)
    } else if ty == TYPE_BYTES {
        decode_bytes_at(input, at, size)
    } else if ty == TYPE_ARRAY {
        decode_array_at(input, at, size)
    } else if ty == TYPE_CHOICE {
        decode_choice_at(input, at, size)
    } else if ty == TYPE_STRUCT {
        if len - (at + 8) < size {
            return Err(malformed(input, at));
        }
        let end = at + 8 + size;
        let mut pos = at + 8;
        let mut fields: Vec<Value> = Vec::new();
        while pos < end
            invariant
                at + 8 <= pos <= end,
                dec_fields_shape(b, ai + 8, end as int) == dec_fields_shape(
                    b,
                    pos as int,
                    end as int,
                ),
                dec_fields_rel(b, ai + 8, pos as int, fields@),
            decreases end - pos,
        {
            match decode_at(input, pos) {
                Err(e) => {
                    return Err(e);
                },
                Ok((v, m)) => {
                    if m > end - pos {
                        return Err(malformed(input, pos));
                    }
                    proof {
                        lemma_dec_fields_rel_snoc(b, ai + 8, pos as int, m as int, fields@, v);
                    }
                    fields.push(v);
                    pos = pos + m;
                },
            }
        }
        Ok((Value::Struct(fields), 8 + size))
    } else if ty == TYPE_OBJECT {
        if size < 8 {
            return Err(malformed(input, at));
        }
        if len - (at + 8) < size {
            return Err(malformed(input, at));
        }
        let obj_type = get_u32(input, at + 8);
        let obj_id = get_u32(input, at + 12);
        let end = at + 8 + size;
        let mut pos = at + 16;
        let mut properties: Vec<Property> = Vec::new();
        while pos < end
            invariant
                at + 16 <= pos <= end,
                dec_props_shape(b, ai + 16, end as int) == dec_props_shape(
                    b,
                    pos as int,
                    end as int,
                ),
                dec_props_rel(b, ai + 16, pos as int, properties@),
            decreases end - pos,
        {
            if end - pos < 8 {
                return Err(malformed(input, pos));
            }
            let key = get_u32(input, pos);
            let flag_bits = get_u32(input, pos + 4);
            match decode_at(input, pos + 8) {
                Err(e) => {
                    return Err(e);
                },
                Ok((v, m)) => {
                    if m > end - (pos + 8) {
                        return Err(malformed(input, pos));
                    }
                    let prop = Property {
                        key,
                        flags: PropertyFlags { bits: flag_bits },
                        value: v,
                    };
                    proof {
                        lemma_dec_props_rel_snoc(
                            b,
                            ai + 16,
                            pos as int,
                            m as int,
                            properties@,
                            prop,
                        );
                    }
                    properties.push(prop);
                    pos = pos + 8 + m;
                },
            }
        }
        Ok((
            Value::Object(Object { type_: obj_type, id: obj_id, properties }),
            8 + size,
        ))
    } else {
        Err(DeserializeError::InvalidType)
    }
}

/// This struct is returned by [`PodDeserialize`] implementors on
/// deserialization success.
///
/// Because this can only be constructed by the [`PodDeserializer`],
/// [`PodDeserialize`] implementors are forced to finish deserialization of
/// their pod instead of stopping after deserializing only part of a pod.
pub struct DeserializeSuccess<'de>(PodDeserializer<'de>);

impl<'de> DeserializeSuccess<'de> {
    /// The input buffer the deserialization ran over.
    pub closed spec fn spec_input(&self) -> Seq<u8> {
        self.0.input@
    }

    /// The cursor position after the deserialized pod.
    pub closed spec fn spec_pos(&self) -> int {
        self.0.pos as int
    }
}

/// This struct is responsible for deserializing a raw pod into a
/// [`PodDeserialize`] implementor.
///
/// It reads its input zero-copy: a cursor into a borrowed buffer, handing out
/// string and bytes slices that borrow from that same buffer.
pub struct PodDeserializer<'de> {
    input: &'de [u8],
    pos: usize,
}

/// Implementors of this trait can be deserialized from the raw pod format
/// using a [`PodDeserializer`].
///
/// Their [`deserialize`](PodDeserialize::deserialize) method should invoke
/// exactly one of the `deserialize_*()` methods of the provided
/// [`PodDeserializer`] that fits the type that should be deserialized.
///
/// If you want to deserialize from a pod that always has the same size,
/// implement [`FixedSizedPod`] instead and this trait will be implemented for
/// you automatically.
pub trait PodDeserialize<'de>: Sized {
    /// The pods this type's decode accepts: with one standing at offset `at`
    /// of `b`, decoding is guaranteed to succeed.
    ///
    /// Every implementor in this crate makes this exact (decoding succeeds
    /// if and only if the expected shape stands there, well formed); the
    /// default accepts nothing, so that implementors outside the crate owe
    /// no success they cannot prove.
    open spec fn accepts(b: Seq<u8>, at: int) -> bool {
        false
    }

    /// What a successfully decoded value of this type says about the buffer
    /// `b` and the offset `at` of the pod it was read from.
    ///
    /// Every implementor in this crate pins its value down exactly through
    /// this relation; the default claims nothing, so that implementors
    /// outside the crate owe nothing they cannot prove.
    open spec fn decoded_from(&self, b: Seq<u8>, at: int) -> bool {
        true
    }

    /// Deserialize the type by using the provided [`PodDeserializer`].
    ///
    /// On success, one complete pod was consumed: it decodes generically too
    /// ([`dec_shape`] accepts it, with exactly the consumed size), and the
    /// value is related to its bytes by
    /// [`decoded_from`](PodDeserialize::decoded_from).
    fn deserialize(deserializer: PodDeserializer<'de>) -> (r: Result<
        (Self, DeserializeSuccess<'de>),
        DeserializeError<&'de [u8]>,
    >)
        requires
            deserializer.wf(),
        ensures
            Self::accepts(deserializer.spec_input(), deserializer.spec_pos()) ==> r is Ok,
            r matches Ok((v, s)) ==> s.spec_input() == deserializer.spec_input()
                && deserializer.spec_pos() <= s.spec_pos() <= s.spec_input().len()
                && dec_shape(deserializer.spec_input(), deserializer.spec_pos())
                    == Ok::<int, DecodeErrorKind>(s.spec_pos() - deserializer.spec_pos())
                && v.decoded_from(deserializer.spec_input(), deserializer.spec_pos());
}

impl<'de> PodDeserializer<'de> {
    /// The input buffer this deserializer reads.
    pub closed spec fn spec_input(&self) -> Seq<u8> {
        self.input@
    }

    /// The current cursor position.
    pub closed spec fn spec_pos(&self) -> int {
        self.pos as int
    }

    /// The cursor lies within the input.
    pub closed spec fn wf(&self) -> bool {
        self.pos <= self.input@.len()
    }

    /// Deserialize a [`PodDeserialize`] implementor from a raw pod at the
    /// start of `input`.
    ///
    /// Deserialization succeeds whenever the pod at the start of the input
    /// is one the implementor [`accepts`](PodDeserialize::accepts); on
    /// success exactly one complete pod was consumed (header, body and
    /// padding, as [`dec_shape`] counts them), the rest is the suffix after
    /// it, and the value is related to the pod's bytes by
    /// [`decoded_from`](PodDeserialize::decoded_from).
    pub fn deserialize_from<P: PodDeserialize<'de>>(input: &'de [u8]) -> (r: Result<
        (&'de [u8], P),
        DeserializeError<&'de [u8]>,
    >)
        ensures
            P::accepts(input@, 0) ==> r is Ok,
            r matches Ok((rest, v)) ==> ({
                let consumed = input@.len() - rest@.len();
                &&& dec_shape(input@, 0) == Ok::<int, DecodeErrorKind>(consumed)
                &&& rest@ == input@.subrange(consumed, input@.len() as int)
                &&& v.decoded_from(input@, 0)
            }),
    {
        let deserializer = PodDeserializer { input, pos: 0 };
        match P::deserialize(deserializer) {
            Err(e) => Err(e),
            Ok((v, s)) => {
                let len = input.len();
                let rest = slice_subrange(input, s.0.pos, len);
                proof {
                    assert(rest@ == input@.subrange(s.spec_pos(), input@.len() as int));
                }
                Ok((rest, v))
            },
        }
    }

    /// Deserialize the pod at the start of `input` into a dynamically typed
    /// [`Value`], inspecting the type tag to decide its shape.
    ///
    /// Returns the remaining input after the pod and the decoded value.  The
    /// decode succeeds exactly when [`dec_shape`] accepts the input, consumes
    /// exactly the bytes it counts, and returns exactly the value
    /// [`dec_value_rel`] describes.
    pub fn deserialize_any_from(input: &'de [u8]) -> (r: Result<
        (&'de [u8], Value),
        DeserializeError<&'de [u8]>,
    >)
        ensures
            match dec_shape(input@, 0) {
                Ok(n) => r matches Ok((rest, v)) && dec_value_rel(input@, 0, v) && rest@
                    == input@.subrange(n, input@.len() as int),
                Err(k) => r matches Err(e) && err_kind_of(e) == Some(k),
            },
    {
        match decode_at(input, 0) {
            Err(e) => Err(e),
            Ok((v, consumed)) => {
                let len = input.len();
                let rest = slice_subrange(input, consumed, len);
                Ok((rest, v))
            },
        }
    }

    /// Deserialize any fixed size pod.
    ///
    /// Deserialization will only succeed if the
    /// [`FixedSizedPod::CanonicalType`] of the requested type matches the
    /// type of the pod, the header carries that type's fixed size, and the
    /// body and its padding lie within the input.
    pub fn deserialize_fixed_sized_pod<P: FixedSizedPod>(self) -> (r: Result<
        (P, DeserializeSuccess<'de>),
        DeserializeError<&'de [u8]>,
    >)
        requires
            self.wf(),
        ensures
            ({
                let b = self.spec_input();
                let at = self.spec_pos();
                let sz = <P::CanonicalType as CanonicalFixedSizedPod>::spec_size() as int;
                let ok = fixed_pod_ok::<P::CanonicalType>(b, at);
                match r {
                    Ok((v, s)) => ok && v == P::spec_from_canonical(
                        <P::CanonicalType as CanonicalFixedSizedPod>::spec_from_body(
                            b.subrange(at + 8, at + 8 + sz),
                        ),
                    ) && s.spec_input() == b && s.spec_pos() == at + 8 + sz + pad_len(sz as nat),
                    Err(_) => !ok,
                }
            }),
    {
        let len = self.input.len();
        let at = self.pos;
        if len - at < 8 || at > len {
            return Err(malformed(self.input, if at > len { len } else { at }));
        }
        let size32 = get_u32(self.input, at);
        let ty = get_u32(self.input, at + 4);
        if ty != <P::CanonicalType as CanonicalFixedSizedPod>::wire_type() {
            return Err(DeserializeError::InvalidType);
        }
        let expect = <P::CanonicalType as CanonicalFixedSizedPod>::wire_size();
        if size32 != expect {
            return Err(malformed(self.input, at));
        }
        let size = expect as usize;
        let p = pad_of(size);
        if len - (at + 8) < size || len - (at + 8) - size < p {
            return Err(malformed(self.input, at));
        }
        let c = <P::CanonicalType as CanonicalFixedSizedPod>::deserialize_body(self.input, at + 8);
        let v = P::from_canonical_type(&c);
        let next = PodDeserializer { input: self.input, pos: at + 8 + size + p };
        Ok((v, DeserializeSuccess(next)))
    }

    /// Deserialize a `String` pod, returning the string zero-copy: a slice of
    /// the input, without the terminating zero byte.
    ///
    /// Succeeds exactly on a `String` pod whose body, at least one byte long,
    /// ends in a zero byte and holds valid UTF-8 before it, with body and
    /// padding within the input.
    pub fn deserialize_str(self) -> (r: Result<
        (&'de str, DeserializeSuccess<'de>),
        DeserializeError<&'de [u8]>,
    >)
        requires
            self.wf(),
        ensures
            ({
                let b = self.spec_input();
                let at = self.spec_pos();
                let size = dec_u32(b, at) as int;
                match r {
                    Ok((s, su)) => string_pod_ok(b, at) && s.spec_bytes() == b.subrange(
                        at + 8,
                        at + 8 + size - 1,
                    ) && su.spec_input() == b && su.spec_pos() == at + 8 + size + pad_len(
                        size as nat,
                    ),
                    Err(_) => !string_pod_ok(b, at),
                }
            }),
    {
        let len = self.input.len();
        let at = self.pos;
        if len - at < 8 {
            return Err(malformed(self.input, at));
        }
        let size32 = get_u32(self.input, at);
        let ty = get_u32(self.input, at + 4);
        if ty != TYPE_STRING {
            return Err(DeserializeError::InvalidType);
        }
        let size = size32 as usize;
        if size < 1 {
            return Err(malformed(self.input, at));
        }
        let p = pad_of(size);
        if len - (at + 8) < size || len - (at + 8) - size < p {
            return Err(malformed(self.input, at));
        }
        let last = *vstd::slice::slice_index_get(self.input, at + 8 + size - 1);
        if last != 0 {
            return Err(malformed(self.input, at));
        }
        let body = slice_subrange(self.input, at + 8, at + 8 + size - 1);
        match bytes_to_str(body) {
            None => Err(malformed(self.input, at)),
            Some(s) => {
                let next = PodDeserializer { input: self.input, pos: at + 8 + size + p };
                Ok((s, DeserializeSuccess(next)))
            },
        }
    }

    /// Deserialize a `Bytes` pod, returning the bytes zero-copy: a slice of
    /// the input.
    ///
    /// Succeeds exactly on a `Bytes` pod whose body and padding lie within
    /// the input.
    pub fn deserialize_bytes(self) -> (r: Result<
        (&'de [u8], DeserializeSuccess<'de>),
        DeserializeError<&'de [u8]>,
    >)
        requires
            self.wf(),
        ensures
            ({
                let b = self.spec_input();
                let at = self.spec_pos();
                let size = dec_u32(b, at) as int;
                let ok = bytes_pod_ok(b, at);
                match r {
                    Ok((bytes, su)) => ok && bytes@ == b.subrange(at + 8, at + 8 + size)
                        && su.spec_input() == b && su.spec_pos() == at + 8 + size + pad_len(
                        size as nat,
                    ),
                    Err(_) => !ok,
                }
            }),
    {
        let len = self.input.len();
        let at = self.pos;
        if len - at < 8 {
            return Err(malformed(self.input, at));
        }
        let size32 = get_u32(self.input, at);
        let ty = get_u32(self.input, at + 4);
        if ty != TYPE_BYTES {
            return Err(DeserializeError::InvalidType);
        }
        let size = size32 as usize;
        let p = pad_of(size);
        if len - (at + 8) < size || len - (at + 8) - size < p {
            return Err(malformed(self.input, at));
        }
        let bytes = slice_subrange(self.input, at + 8, at + 8 + size);
        let next = PodDeserializer { input: self.input, pos: at + 8 + size + p };
        Ok((bytes, DeserializeSuccess(next)))
    }

    /// Start parsing an array pod containing elements of type `E`.
    ///
    /// Returns the array deserializer and the number of elements in the
    /// array, derived from the body length and the element size.  The exact
    /// number of elements that was returned must be deserialized with
    /// [`ArrayPodDeserializer::deserialize_element`], followed by a call to
    /// [`ArrayPodDeserializer::end`].
    pub fn deserialize_array<E: FixedSizedPod>(self) -> (r: Result<
        (ArrayPodDeserializer<'de, E>, u32),
        DeserializeError<&'de [u8]>,
    >)
        requires
            self.wf(),
        ensures
            ({
                let b = self.spec_input();
                let at = self.spec_pos();
                let size = dec_u32(b, at) as int;
                let esz = <E::CanonicalType as CanonicalFixedSizedPod>::spec_size() as int;
                let n = if esz == 0 { 0int } else { (size - 8) / esz };
                let ok = array_pod_ok::<E::CanonicalType>(b, at);
                match r {
                    Ok((a, count)) => ok && count == n && a.wf() && a.spec_input() == b
                        && a.spec_pos() == at + 16 && a.spec_total() == n && a.spec_remaining()
                        == n,
                    Err(_) => !ok,
                }
            }),
    {
        let len = self.input.len();
        let at = self.pos;
        if len - at < 8 {
            return Err(malformed(self.input, at));
        }
        let size32 = get_u32(self.input, at);
        let ty = get_u32(self.input, at + 4);
        if ty != TYPE_ARRAY {
            return Err(DeserializeError::InvalidType);
        }
        let size = size32 as usize;
        if size < 8 || len - at < 16 {
            return Err(malformed(self.input, at));
        }
        let esz32 = get_u32(self.input, at + 8);
        let ety = get_u32(self.input, at + 12);
        let expect = <E::CanonicalType as CanonicalFixedSizedPod>::wire_size();
        if ety != <E::CanonicalType as CanonicalFixedSizedPod>::wire_type() {
            return Err(DeserializeError::InvalidType);
        }
        if esz32 != expect {
            return Err(malformed(self.input, at));
        }
        let esz = expect as usize;
        let n: usize = if esz == 0 {
            0
        } else {
            (size - 8) / esz
        };
        proof {
            if esz > 0 {
                vstd::arithmetic::div_mod::lemma_fundamental_div_mod(size - 8, esz as int);
                vstd::arithmetic::div_mod::lemma_mod_bound(size - 8, esz as int);
                assert(esz as int * ((size - 8) as int / esz as int) == ((size - 8) as int
                    / esz as int) * esz as int) by (nonlinear_arith);
            } else {
                assert(n as int * esz as int == 0) by (nonlinear_arith)
                    requires esz == 0;
            }
        }
        let need = n * esz;
        let p = pad_of(need);
        if len - (at + 16) < need || len - (at + 16) - need < p {
            return Err(malformed(self.input, at));
        }
        let arr = ArrayPodDeserializer {
            input: self.input,
            pos: at + 16,
            total: n as u32,
            remaining: n as u32,
            _phantom: core::marker::PhantomData,
        };
        Ok((arr, n as u32))
    }
}

/// This struct handles deserializing arrays.
///
/// It can be obtained by calling [`PodDeserializer::deserialize_array`].
///
/// The exact number of elements that was returned from that call must be
/// deserialized using the [`deserialize_element`] function, followed by
/// calling its [`end`] function to finish deserialization of the array.
///
/// [`deserialize_element`]: ArrayPodDeserializer::deserialize_element
/// [`end`]: ArrayPodDeserializer::end
pub struct ArrayPodDeserializer<'de, E: FixedSizedPod> {
    input: &'de [u8],
    pos: usize,
    /// The total number of elements the array declares.
    total: u32,
    /// The number of elements that remain to be deserialized.
    remaining: u32,
    /// The struct has the type parameter `E` to ensure all deserialized
    /// elements are the same type, but doesn't own any `E`.
    _phantom: core::marker::PhantomData<E>,
}

impl<'de, E: FixedSizedPod> ArrayPodDeserializer<'de, E> {
    /// The input buffer this deserializer reads.
    pub closed spec fn spec_input(&self) -> Seq<u8> {
        self.input@
    }

    /// The current cursor position.
    pub closed spec fn spec_pos(&self) -> int {
        self.pos as int
    }

    /// The number of elements that remain to be deserialized.
    pub closed spec fn spec_remaining(&self) -> int {
        self.remaining as int
    }

    /// The total number of elements the array declares.
    pub closed spec fn spec_total(&self) -> int {
        self.total as int
    }

    /// All remaining element bodies and the closing padding lie within the
    /// input.
    pub closed spec fn wf(&self) -> bool {
        let sz = <E::CanonicalType as CanonicalFixedSizedPod>::spec_size() as int;
        &&& self.remaining <= self.total
        &&& self.total * sz <= u32::MAX
        &&& self.pos + self.remaining * sz + pad_len((self.total * sz) as nat)
            <= self.input@.len()
    }

    /// Deserialize a single element.
    ///
    /// Returns an error if there is no element left to deserialize; the
    /// declared element count must not be exceeded.
    pub fn deserialize_element(&mut self) -> (r: Result<E, DeserializeError<&'de [u8]>>)
        requires
            old(self).wf(),
        ensures
            final(self).wf(),
            final(self).spec_input() == old(self).spec_input(),
            final(self).spec_total() == old(self).spec_total(),
            r matches Ok(e) ==> old(self).spec_remaining() > 0 && e == E::spec_from_canonical(
                <E::CanonicalType as CanonicalFixedSizedPod>::spec_from_body(
                    old(self).spec_input().subrange(
                        old(self).spec_pos(),
                        old(self).spec_pos() + <E::CanonicalType as
                            CanonicalFixedSizedPod>::spec_size(),
                    ),
                ),
            ) && final(self).spec_pos() == old(self).spec_pos() + <E::CanonicalType as
                CanonicalFixedSizedPod>::spec_size() && final(self).spec_remaining() == old(
                self,
            ).spec_remaining() - 1,
            r is Err <==> old(self).spec_remaining() == 0,
            r is Err ==> *final(self) == *old(self),
    {
        if self.remaining == 0 {
            return Err(DeserializeError::ElementCountMismatch);
        }
        let ilen = self.input.len();
        proof {
            let sz = <E::CanonicalType as CanonicalFixedSizedPod>::spec_size() as int;
            let rem = self.remaining as int;
            assert(sz <= rem * sz) by (nonlinear_arith)
                requires 1 <= rem, sz >= 0;
            assert((rem - 1) * sz == rem * sz - sz) by (nonlinear_arith);
            assert(rem * sz >= 0) by (nonlinear_arith)
                requires rem >= 0, sz >= 0;
        }
        let c = <E::CanonicalType as CanonicalFixedSizedPod>::deserialize_body(
            self.input,
            self.pos,
        );
        let e = E::from_canonical_type(&c);
        let size = <E::CanonicalType as CanonicalFixedSizedPod>::wire_size() as usize;
        self.pos = self.pos + size;
        self.remaining = self.remaining - 1;
        Ok(e)
    }

    /// Finish deserializing the array, consuming its padding.
    ///
    /// Returns an error if elements are left over: all elements of the array
    /// must have been deserialized first.
    pub fn end(self) -> (r: Result<DeserializeSuccess<'de>, DeserializeError<&'de [u8]>>)
        requires
            self.wf(),
        ensures
            r is Ok <==> self.spec_remaining() == 0,
            r matches Ok(s) ==> s.spec_input() == self.spec_input() && s.spec_pos()
                == self.spec_pos() + pad_len(
                (self.spec_total() * <E::CanonicalType as
                    CanonicalFixedSizedPod>::spec_size()) as nat,
            ) <= self.spec_input().len(),
    {
        if self.remaining != 0 {
            return Err(DeserializeError::ElementCountMismatch);
        }
        let ilen = self.input.len();
        let size = <E::CanonicalType as CanonicalFixedSizedPod>::wire_size() as usize;
        proof {
            let sz = <E::CanonicalType as CanonicalFixedSizedPod>::spec_size() as int;
            assert(self.remaining as int * sz == 0) by (nonlinear_arith)
                requires self.remaining == 0;
            assert(self.total as int * sz >= 0) by (nonlinear_arith)
                requires self.total >= 0, sz >= 0;
        }
        let bytes_read = (self.total as usize) * size;
        let p = pad_of(bytes_read);
        let next = PodDeserializer { input: self.input, pos: self.pos + p };
        Ok(DeserializeSuccess(next))
    }
}


/// This struct handles deserializing structs.
///
/// It can be obtained by calling [`PodDeserializer::deserialize_struct`],
/// which hands it to the visitor's
/// [`visit_struct`](Visitor::visit_struct) callback.
///
/// Fields of the struct must be deserialized using
/// [`deserialize_field`](Self::deserialize_field) until it returns `None`,
/// which means the struct body is exhausted.
pub struct StructPodDeserializer<'de> {
    input: &'de [u8],
    pos: usize,
    end: usize,
}

impl<'de> StructPodDeserializer<'de> {
    /// The input buffer this deserializer reads.
    pub closed spec fn spec_input(&self) -> Seq<u8> {
        self.input@
    }

    /// The current cursor position.
    pub closed spec fn spec_pos(&self) -> int {
        self.pos as int
    }

    /// The position just after the struct body.
    pub closed spec fn spec_end(&self) -> int {
        self.end as int
    }

    /// The cursor lies within the struct body, which lies within the input.
    pub closed spec fn wf(&self) -> bool {
        self.pos <= self.end <= self.input@.len()
    }

    /// Deserialize a single field of the struct.
    ///
    /// Returns `Some` when a field was successfully deserialized and `None`
    /// when all fields have been read: the decoder consumes fields until the
    /// declared body length is exhausted, the field count is never stored.
    ///
    /// Fails if a field claims to extend past the end of the struct body.
    pub fn deserialize_field<P: PodDeserialize<'de>>(&mut self) -> (r: Result<
        Option<P>,
        DeserializeError<&'de [u8]>,
    >)
        requires
            old(self).wf(),
        ensures
            final(self).wf(),
            final(self).spec_input() == old(self).spec_input(),
            final(self).spec_end() == old(self).spec_end(),
            old(self).spec_pos() <= final(self).spec_pos() <= old(self).spec_end(),
            old(self).spec_pos() == old(self).spec_end() ==> (r matches Ok(f) && f is None
                && *final(self) == *old(self)),
            r matches Ok(f) ==> (f is None <==> old(self).spec_pos() == old(self).spec_end()),
            r matches Ok(Some(v)) ==> dec_shape(
                old(self).spec_input(),
                old(self).spec_pos(),
            ) == Ok::<int, DecodeErrorKind>(final(self).spec_pos() - old(self).spec_pos())
                && v.decoded_from(old(self).spec_input(), old(self).spec_pos()),
    {
        if self.pos == self.end {
            return Ok(None);
        }
        let d = PodDeserializer { input: self.input, pos: self.pos };
        match P::deserialize(d) {
            Err(e) => Err(e),
            Ok((v, su)) => {
                if su.0.pos > self.end {
                    return Err(malformed(self.input, self.pos));
                }
                self.pos = su.0.pos;
                Ok(Some(v))
            },
        }
    }

    /// Finish deserialization of the struct.
    ///
    /// Fails if not all fields of the pod have been deserialized: leftover
    /// bytes indicate that producer and consumer disagree on the shape.
    pub fn end(self) -> (r: Result<DeserializeSuccess<'de>, DeserializeError<&'de [u8]>>)
        requires
            self.wf(),
        ensures
            r is Ok <==> self.spec_pos() == self.spec_end(),
            r matches Ok(s) ==> s.spec_input() == self.spec_input() && s.spec_pos()
                == self.spec_end(),
    {
        if self.pos != self.end {
            return Err(malformed(self.input, self.pos));
        }
        Ok(DeserializeSuccess(PodDeserializer { input: self.input, pos: self.pos }))
    }
}

/// This struct handles deserializing objects.
///
/// It can be obtained by calling [`PodDeserializer::deserialize_object`],
/// which hands it to the visitor's
/// [`visit_object`](Visitor::visit_object) callback.
///
/// Properties are deserialized in the exact order they were encoded, either
/// by expected key with
/// [`deserialize_property_key`](Self::deserialize_property_key), or
/// generically with [`deserialize_property`](Self::deserialize_property)
/// until it returns `None`.
pub struct ObjectPodDeserializer<'de> {
    input: &'de [u8],
    pos: usize,
    end: usize,
    object_type: u32,
    object_id: u32,
}

impl<'de> ObjectPodDeserializer<'de> {
    /// The input buffer this deserializer reads.
    pub closed spec fn spec_input(&self) -> Seq<u8> {
        self.input@
    }

    /// The current cursor position.
    pub closed spec fn spec_pos(&self) -> int {
        self.pos as int
    }

    /// The position just after the object body.
    pub closed spec fn spec_end(&self) -> int {
        self.end as int
    }

    /// The cursor lies within the object body, which lies within the input.
    pub closed spec fn wf(&self) -> bool {
        self.pos <= self.end <= self.input@.len()
    }

    /// The object type carried in the body header.
    pub closed spec fn spec_object_type(&self) -> u32 {
        self.object_type
    }

    /// The object subtype carried in the body header.
    pub closed spec fn spec_object_id(&self) -> u32 {
        self.object_id
    }

    /// The object type carried in the body header.
    pub fn object_type(&self) -> (t: u32)
        ensures
            t == self.spec_object_type(),
    {
        self.object_type
    }

    /// The object subtype carried in the body header.
    pub fn object_id(&self) -> (t: u32)
        ensures
            t == self.spec_object_id(),
    {
        self.object_id
    }

    /// Deserialize one key/flags/value property triple generically.
    ///
    /// Returns `None` once the object body is exhausted.
    pub fn deserialize_property<P: PodDeserialize<'de>>(&mut self) -> (r: Result<
        Option<(P, u32, PropertyFlags)>,
        DeserializeError<&'de [u8]>,
    >)
        requires
            old(self).wf(),
        ensures
            final(self).wf(),
            final(self).spec_input() == old(self).spec_input(),
            final(self).spec_end() == old(self).spec_end(),
            final(self).spec_object_type() == old(self).spec_object_type(),
            final(self).spec_object_id() == old(self).spec_object_id(),
            old(self).spec_pos() <= final(self).spec_pos() <= old(self).spec_end(),
            old(self).spec_pos() == old(self).spec_end() ==> (r matches Ok(f) && f is None
                && *final(self) == *old(self)),
            r matches Ok(f) ==> (f is None <==> old(self).spec_pos() == old(self).spec_end()),
            r matches Ok(Some((v, key, flags))) ==> key == dec_u32(
                old(self).spec_input(),
                old(self).spec_pos(),
            ) && flags.bits == dec_u32(old(self).spec_input(), old(self).spec_pos() + 4)
                && dec_shape(old(self).spec_input(), old(self).spec_pos() + 8)
                == Ok::<int, DecodeErrorKind>(
                final(self).spec_pos() - old(self).spec_pos() - 8,
            ) && v.decoded_from(old(self).spec_input(), old(self).spec_pos() + 8),
    {
        if self.pos == self.end {
            return Ok(None);
        }
        if self.end - self.pos < 8 {
            return Err(malformed(self.input, self.pos));
        }
        let key = get_u32(self.input, self.pos);
        let flag_bits = get_u32(self.input, self.pos + 4);
        let d = PodDeserializer { input: self.input, pos: self.pos + 8 };
        match P::deserialize(d) {
            Err(e) => Err(e),
            Ok((v, su)) => {
                if su.0.pos > self.end {
                    return Err(malformed(self.input, self.pos));
                }
                self.pos = su.0.pos;
                Ok(Some((v, key, PropertyFlags { bits: flag_bits })))
            },
        }
    }

    /// Deserialize one property and require it to carry the expected key.
    ///
    /// Property decode is order-sensitive: the next property on the wire must
    /// carry `key`, or the decode fails with the key actually found; earlier
    /// or later properties are never searched.
    pub fn deserialize_property_key<P: PodDeserialize<'de>>(&mut self, key: u32) -> (r: Result<
        (P, PropertyFlags),
        DeserializeError<&'de [u8]>,
    >)
        requires
            old(self).wf(),
        ensures
            final(self).wf(),
            final(self).spec_input() == old(self).spec_input(),
            final(self).spec_end() == old(self).spec_end(),
            final(self).spec_object_type() == old(self).spec_object_type(),
            final(self).spec_object_id() == old(self).spec_object_id(),
            old(self).spec_pos() <= final(self).spec_pos() <= old(self).spec_end(),
            old(self).spec_pos() == old(self).spec_end() ==> (r matches Err(e) && e
                == DeserializeError::<&'de [u8]>::PropertyMissing),
            old(self).spec_pos() + 8 <= old(self).spec_end() && dec_u32(
                old(self).spec_input(),
                old(self).spec_pos(),
            ) != key ==> (r matches Err(e) && e
                == DeserializeError::<&'de [u8]>::PropertyWrongKey(
                dec_u32(old(self).spec_input(), old(self).spec_pos()),
            )),
            r matches Ok((v, flags)) ==> old(self).spec_pos() + 8 <= old(self).spec_end()
                && dec_u32(old(self).spec_input(), old(self).spec_pos()) == key && flags.bits
                == dec_u32(old(self).spec_input(), old(self).spec_pos() + 4) && dec_shape(
                old(self).spec_input(),
                old(self).spec_pos() + 8,
            ) == Ok::<int, DecodeErrorKind>(final(self).spec_pos() - old(self).spec_pos() - 8)
                && v.decoded_from(old(self).spec_input(), old(self).spec_pos() + 8),
    {
        if self.pos == self.end {
            return Err(DeserializeError::PropertyMissing);
        }
        if self.end - self.pos < 8 {
            return Err(malformed(self.input, self.pos));
        }
        let found = get_u32(self.input, self.pos);
        if found != key {
            return Err(DeserializeError::PropertyWrongKey(found));
        }
        let flag_bits = get_u32(self.input, self.pos + 4);
        let d = PodDeserializer { input: self.input, pos: self.pos + 8 };
        match P::deserialize(d) {
            Err(e) => Err(e),
            Ok((v, su)) => {
                if su.0.pos > self.end {
                    return Err(malformed(self.input, self.pos));
                }
                self.pos = su.0.pos;
                Ok((v, PropertyFlags { bits: flag_bits }))
            },
        }
    }
}

/// A value-producing callback set driving generic decode into a
/// caller-chosen type: one method per decodable shape.
///
/// Every method defaults to failing with
/// [`DeserializeError::UnsupportedType`], so a visitor only implements the
/// shapes its target type can be built from.
pub trait Visitor<'de>: Sized {
    /// The type this visitor produces.
    type Value;

    /// The element type used when visiting an array or a choice.
    type ArrayElem;

    /// The input holds a `None` pod.
    fn visit_none(&self) -> (r: Result<Self::Value, DeserializeError<&'de [u8]>>) {
        Err(DeserializeError::UnsupportedType)
    }

    /// The input holds a `Bool` pod.
    fn visit_bool(&self, v: bool) -> (r: Result<Self::Value, DeserializeError<&'de [u8]>>) {
        Err(DeserializeError::UnsupportedType)
    }

    /// The input holds an `Int` pod.
    fn visit_int(&self, v: i32) -> (r: Result<Self::Value, DeserializeError<&'de [u8]>>) {
        Err(DeserializeError::UnsupportedType)
    }

    /// The input holds a `Long` pod.
    fn visit_long(&self, v: i64) -> (r: Result<Self::Value, DeserializeError<&'de [u8]>>) {
        Err(DeserializeError::UnsupportedType)
    }

    /// The input holds a `Float` pod.
    fn visit_float(&self, v: FloatBits) -> (r: Result<Self::Value, DeserializeError<&'de [u8]>>) {
        Err(DeserializeError::UnsupportedType)
    }

    /// The input holds a `Double` pod.
    fn visit_double(&self, v: DoubleBits) -> (r: Result<
        Self::Value,
        DeserializeError<&'de [u8]>,
    >) {
        Err(DeserializeError::UnsupportedType)
    }

    /// The input holds a `String` pod; the slice borrows from the input.
    fn visit_string(&self, v: &'de str) -> (r: Result<
        Self::Value,
        DeserializeError<&'de [u8]>,
    >) {
        Err(DeserializeError::UnsupportedType)
    }

    /// The input holds a `Bytes` pod; the slice borrows from the input.
    fn visit_bytes(&self, v: &'de [u8]) -> (r: Result<
        Self::Value,
        DeserializeError<&'de [u8]>,
    >) {
        Err(DeserializeError::UnsupportedType)
    }

    /// The input holds a `Rectangle` pod.
    fn visit_rectangle(&self, v: Rectangle) -> (r: Result<
        Self::Value,
        DeserializeError<&'de [u8]>,
    >) {
        Err(DeserializeError::UnsupportedType)
    }

    /// The input holds a `Fraction` pod.
    fn visit_fraction(&self, v: Fraction) -> (r: Result<
        Self::Value,
        DeserializeError<&'de [u8]>,
    >) {
        Err(DeserializeError::UnsupportedType)
    }

    /// The input holds an `Id` pod.
    fn visit_id(&self, v: Id) -> (r: Result<Self::Value, DeserializeError<&'de [u8]>>) {
        Err(DeserializeError::UnsupportedType)
    }

    /// The input holds an `Fd` pod.
    fn visit_fd(&self, v: Fd) -> (r: Result<Self::Value, DeserializeError<&'de [u8]>>) {
        Err(DeserializeError::UnsupportedType)
    }

    /// The input holds a `Struct` pod; the reader yields its fields in order.
    fn visit_struct(&self, struct_deserializer: &mut StructPodDeserializer<'de>) -> (r: Result<
        Self::Value,
        DeserializeError<&'de [u8]>,
    >)
        requires
            old(struct_deserializer).wf(),
        ensures
            final(struct_deserializer).wf(),
            final(struct_deserializer).spec_input() == old(struct_deserializer).spec_input(),
            final(struct_deserializer).spec_end() == old(struct_deserializer).spec_end(),
            old(struct_deserializer).spec_pos() <= final(struct_deserializer).spec_pos(),
    {
        Err(DeserializeError::UnsupportedType)
    }

    /// The input holds an `Array` pod; `elements` are its decoded elements.
    fn visit_array(&self, elements: Vec<Self::ArrayElem>) -> (r: Result<
        Self::Value,
        DeserializeError<&'de [u8]>,
    >) {
        Err(DeserializeError::UnsupportedType)
    }

    /// The input holds an `Object` pod; the reader yields its properties in
    /// order.
    fn visit_object(&self, object_deserializer: &mut ObjectPodDeserializer<'de>) -> (r: Result<
        Self::Value,
        DeserializeError<&'de [u8]>,
    >)
        requires
            old(object_deserializer).wf(),
        ensures
            final(object_deserializer).wf(),
            final(object_deserializer).spec_input() == old(object_deserializer).spec_input(),
            final(object_deserializer).spec_end() == old(object_deserializer).spec_end(),
            final(object_deserializer).spec_object_type() == old(
                object_deserializer,
            ).spec_object_type(),
            final(object_deserializer).spec_object_id() == old(
                object_deserializer,
            ).spec_object_id(),
            old(object_deserializer).spec_pos() <= final(object_deserializer).spec_pos(),
    {
        Err(DeserializeError::UnsupportedType)
    }

    /// The input holds a `Choice` pod over the visitor's element type.
    fn visit_choice(&self, choice: Choice<Self::ArrayElem>) -> (r: Result<
        Self::Value,
        DeserializeError<&'de [u8]>,
    >) {
        Err(DeserializeError::UnsupportedType)
    }
}

impl<'de> PodDeserializer<'de> {
    /// Start parsing a struct pod, handing its reader to the visitor's
    /// [`visit_struct`](Visitor::visit_struct).
    ///
    /// After the visitor returns, the struct body must be exactly exhausted:
    /// leftover bytes fail the decode rather than being skipped.
    pub fn deserialize_struct<V: Visitor<'de>>(self, visitor: V) -> (r: Result<
        (V::Value, DeserializeSuccess<'de>),
        DeserializeError<&'de [u8]>,
    >)
        requires
            self.wf(),
        ensures
            ({
                let b = self.spec_input();
                let at = self.spec_pos();
                let size = dec_u32(b, at) as int;
                let hdr_ok = at + 8 <= b.len() && dec_u32(b, at + 4) == TYPE_STRUCT && at + 8
                    + size <= b.len();
                &&& (r matches Ok((_, s)) ==> hdr_ok && s.spec_input() == b && s.spec_pos()
                    == at + 8 + size)
                &&& (at + 8 > b.len() ==> (r matches Err(e) && err_kind_of(e) == Some(
                    DecodeErrorKind::Malformed,
                )))
                &&& (at + 8 <= b.len() && dec_u32(b, at + 4) != TYPE_STRUCT ==> (r matches Err(e)
                    && e == DeserializeError::<&'de [u8]>::InvalidType))
                &&& (at + 8 <= b.len() && dec_u32(b, at + 4) == TYPE_STRUCT && at + 8 + size
                    > b.len() ==> (r matches Err(e) && err_kind_of(e) == Some(
                    DecodeErrorKind::Malformed,
                )))
            }),
    {
        let len = self.input.len();
        let at = self.pos;
        if len - at < 8 {
            return Err(malformed(self.input, at));
        }
        let size32 = get_u32(self.input, at);
        let ty = get_u32(self.input, at + 4);
        if ty != TYPE_STRUCT {
            return Err(DeserializeError::InvalidType);
        }
        let size = size32 as usize;
        if len - (at + 8) < size {
            return Err(malformed(self.input, at));
        }
        let mut sd = StructPodDeserializer { input: self.input, pos: at + 8, end: at + 8 + size };
        let v = match visitor.visit_struct(&mut sd) {
            Err(e) => {
                return Err(e);
            },
            Ok(v) => v,
        };
        if sd.pos != sd.end {
            return Err(malformed(self.input, sd.pos));
        }
        Ok((v, DeserializeSuccess(PodDeserializer { input: self.input, pos: sd.end })))
    }

    /// Start parsing an object pod, handing its reader to the visitor's
    /// [`visit_object`](Visitor::visit_object).
    ///
    /// After the visitor returns, the object body must be exactly exhausted.
    pub fn deserialize_object<V: Visitor<'de>>(self, visitor: V) -> (r: Result<
        (V::Value, DeserializeSuccess<'de>),
        DeserializeError<&'de [u8]>,
    >)
        requires
            self.wf(),
        ensures
            ({
                let b = self.spec_input();
                let at = self.spec_pos();
                let size = dec_u32(b, at) as int;
                let hdr_ok = at + 8 <= b.len() && dec_u32(b, at + 4) == TYPE_OBJECT && size >= 8
                    && at + 8 + size <= b.len();
                &&& (r matches Ok((_, s)) ==> hdr_ok && s.spec_input() == b && s.spec_pos()
                    == at + 8 + size)
                &&& (at + 8 > b.len() ==> (r matches Err(e) && err_kind_of(e) == Some(
                    DecodeErrorKind::Malformed,
                )))
                &&& (at + 8 <= b.len() && dec_u32(b, at + 4) != TYPE_OBJECT ==> (r matches Err(e)
                    && e == DeserializeError::<&'de [u8]>::InvalidType))
                &&& (at + 8 <= b.len() && dec_u32(b, at + 4) == TYPE_OBJECT && (size < 8 || at + 8
                    + size > b.len()) ==> (r matches Err(e) && err_kind_of(e) == Some(
                    DecodeErrorKind::Malformed,
                )))
            }),
    {
        let len = self.input.len();
        let at = self.pos;
        if len - at < 8 {
            return Err(malformed(self.input, at));
        }
        let size32 = get_u32(self.input, at);
        let ty = get_u32(self.input, at + 4);
        if ty != TYPE_OBJECT {
            return Err(DeserializeError::InvalidType);
        }
        let size = size32 as usize;
        if size < 8 {
            return Err(malformed(self.input, at));
        }
        if len - (at + 8) < size {
            return Err(malformed(self.input, at));
        }
        let object_type = get_u32(self.input, at + 8);
        let object_id = get_u32(self.input, at + 12);
        let mut od = ObjectPodDeserializer {
            input: self.input,
            pos: at + 16,
            end: at + 8 + size,
            object_type,
            object_id,
        };
        let v = match visitor.visit_object(&mut od) {
            Err(e) => {
                return Err(e);
            },
            Ok(v) => v,
        };
        if od.pos != od.end {
            return Err(malformed(self.input, od.pos));
        }
        Ok((v, DeserializeSuccess(PodDeserializer { input: self.input, pos: od.end })))
    }

    /// Deserialize a choice pod over elements of the canonical type `T`.
    ///
    /// Elements beyond the number the choice kind requires are read and
    /// ignored, not an error.
    pub fn deserialize_choice<T: CanonicalFixedSizedPod>(self) -> (r: Result<
        (Choice<T>, DeserializeSuccess<'de>),
        DeserializeError<&'de [u8]>,
    >)
        requires
            self.wf(),
        ensures
            ({
                let b = self.spec_input();
                let at = self.spec_pos();
                let size = dec_u32(b, at) as int;
                let kind = dec_u32(b, at + 8);
                let esz = T::spec_size() as int;
                let n = if esz == 0 { 0int } else { (size - 16) / esz };
                let ok = choice_pod_ok::<T>(b, at);
                match r {
                    Ok((c, s)) => ok && dec_choice_rel::<T>(
                        b,
                        at,
                        kind,
                        dec_u32(b, at + 12),
                        n,
                        c,
                    ) && s.spec_input() == b && s.spec_pos() == at + 24 + n * esz + pad_len(
                        (n * esz) as nat,
                    ),
                    Err(_) => !ok,
                }
            }),
    {
        let len = self.input.len();
        let at = self.pos;
        if len - at < 8 {
            return Err(malformed(self.input, at));
        }
        let size32 = get_u32(self.input, at);
        let ty = get_u32(self.input, at + 4);
        if ty != TYPE_CHOICE {
            return Err(DeserializeError::InvalidType);
        }
        let size = size32 as usize;
        if size < 16 || len - at < 24 {
            return Err(malformed(self.input, at));
        }
        let kind = get_u32(self.input, at + 8);
        let choice_flags = get_u32(self.input, at + 12);
        let esz32 = get_u32(self.input, at + 16);
        let ety = get_u32(self.input, at + 20);
        if ety != T::wire_type() {
            return Err(DeserializeError::InvalidType);
        }
        let expect = T::wire_size();
        if expect == 0 || T::wire_type() == TYPE_BOOL {
            return Err(DeserializeError::InvalidType);
        }
        if esz32 != expect {
            return Err(malformed(self.input, at));
        }
        if kind > CHOICE_FLAGS {
            return Err(DeserializeError::InvalidChoiceType);
        }
        let esz = expect as usize;
        let n: usize = (size - 16) / esz;
        let needed: usize = if kind == CHOICE_RANGE {
            3
        } else if kind == CHOICE_STEP {
            4
        } else {
            1
        };
        if n < needed {
            return Err(DeserializeError::MissingChoiceValues);
        }
        proof {
            vstd::arithmetic::div_mod::lemma_fundamental_div_mod(size - 16, esz as int);
            vstd::arithmetic::div_mod::lemma_mod_bound(size - 16, esz as int);
            assert(esz as int * ((size - 16) as int / esz as int) == ((size - 16) as int
                / esz as int) * esz as int) by (nonlinear_arith);
        }
        let need = n * esz;
        let p = pad_of(need);
        if len - (at + 24) < need || len - (at + 24) - need < p {
            return Err(malformed(self.input, at));
        }
        let c = read_choice::<T>(self.input, at, kind, choice_flags, n);
        proof {
            let q = (size - 16) as int / esz as int;
            assert(esz as int * q >= esz as int * 1) by (nonlinear_arith)
                requires q >= 1, esz as int >= 0;
        }
        let next = PodDeserializer { input: self.input, pos: at + 24 + need + p };
        Ok((c, DeserializeSuccess(next)))
    }
}

// Deserialize any fixed sized pod through its canonical representation.
impl<'de, P: FixedSizedPod> PodDeserialize<'de> for P {
    open spec fn accepts(b: Seq<u8>, at: int) -> bool {
        fixed_pod_ok::<P::CanonicalType>(b, at)
    }

    open spec fn decoded_from(&self, b: Seq<u8>, at: int) -> bool {
        *self == P::spec_from_canonical(
            <P::CanonicalType as CanonicalFixedSizedPod>::spec_from_body(
                b.subrange(
                    at + 8,
                    at + 8 + <P::CanonicalType as CanonicalFixedSizedPod>::spec_size(),
                ),
            ),
        )
    }

    fn deserialize(deserializer: PodDeserializer<'de>) -> (r: Result<
        (Self, DeserializeSuccess<'de>),
        DeserializeError<&'de [u8]>,
    >)
        ensures
            r is Ok <==> Self::accepts(deserializer.spec_input(), deserializer.spec_pos()),
    {
        let r = deserializer.deserialize_fixed_sized_pod::<Self>();
        proof {
            if r is Ok {
                <P::CanonicalType as CanonicalFixedSizedPod>::lemma_tag_size();
            }
        }
        r
    }
}

// Deserialize a `String` pod.  The returned `&str` is zero-copy: a slice of
// the input.
impl<'de> PodDeserialize<'de> for &'de str {
    open spec fn accepts(b: Seq<u8>, at: int) -> bool {
        string_pod_ok(b, at)
    }

    open spec fn decoded_from(&self, b: Seq<u8>, at: int) -> bool {
        self.spec_bytes() == b.subrange(at + 8, at + 8 + dec_u32(b, at) - 1)
    }

    fn deserialize(deserializer: PodDeserializer<'de>) -> (r: Result<
        (Self, DeserializeSuccess<'de>),
        DeserializeError<&'de [u8]>,
    >)
        ensures
            r is Ok <==> Self::accepts(deserializer.spec_input(), deserializer.spec_pos()),
    {
        let r = deserializer.deserialize_str();
        proof {
            match r {
                Ok((v, _)) => {
                    vstd::utf8::encode_utf8_valid_utf8(v@);
                },
                Err(_) => {
                },
            }
        }
        r
    }
}

// Deserialize a `String` pod.  The returned string is an owned copy.
impl<'de> PodDeserialize<'de> for String {
    open spec fn accepts(b: Seq<u8>, at: int) -> bool {
        string_pod_ok(b, at)
    }

    open spec fn decoded_from(&self, b: Seq<u8>, at: int) -> bool {
        vstd::utf8::encode_utf8(self@) == b.subrange(at + 8, at + 8 + dec_u32(b, at) - 1)
    }

    fn deserialize(deserializer: PodDeserializer<'de>) -> (r: Result<
        (Self, DeserializeSuccess<'de>),
        DeserializeError<&'de [u8]>,
    >)
        ensures
            r is Ok <==> Self::accepts(deserializer.spec_input(), deserializer.spec_pos()),
    {
        match deserializer.deserialize_str() {
            Err(e) => Err(e),
            Ok((s, success)) => {
                proof {
                    vstd::utf8::encode_utf8_valid_utf8(s@);
                }
                Ok((s.to_owned(), success))
            },
        }
    }
}

// Deserialize a `Bytes` pod.  The returned `&[u8]` is zero-copy: a slice of
// the input.
impl<'de> PodDeserialize<'de> for &'de [u8] {
    open spec fn accepts(b: Seq<u8>, at: int) -> bool {
        bytes_pod_ok(b, at)
    }

    open spec fn decoded_from(&self, b: Seq<u8>, at: int) -> bool {
        self@ == b.subrange(at + 8, at + 8 + dec_u32(b, at))
    }

    fn deserialize(deserializer: PodDeserializer<'de>) -> (r: Result<
        (Self, DeserializeSuccess<'de>),
        DeserializeError<&'de [u8]>,
    >)
        ensures
            r is Ok <==> Self::accepts(deserializer.spec_input(), deserializer.spec_pos()),
    {
        deserializer.deserialize_bytes()
    }
}

// Deserialize a `Bytes` pod.  The returned byte vector is an owned copy.
impl<'de> PodDeserialize<'de> for Vec<u8> {
    open spec fn accepts(b: Seq<u8>, at: int) -> bool {
        bytes_pod_ok(b, at)
    }

    open spec fn decoded_from(&self, b: Seq<u8>, at: int) -> bool {
        self@ == b.subrange(at + 8, at + 8 + dec_u32(b, at))
    }

    fn deserialize(deserializer: PodDeserializer<'de>) -> (r: Result<
        (Self, DeserializeSuccess<'de>),
        DeserializeError<&'de [u8]>,
    >)
        ensures
            r is Ok <==> Self::accepts(deserializer.spec_input(), deserializer.spec_pos()),
    {
        match deserializer.deserialize_bytes() {
            Err(e) => Err(e),
            Ok((b, success)) => Ok((slice_to_vec(b), success)),
        }
    }
}

// Deserialize an `Array` type pod into a vector of its elements.
impl<'de, P: FixedSizedPod> PodDeserialize<'de> for Vec<P> {
    open spec fn accepts(b: Seq<u8>, at: int) -> bool {
        array_pod_ok::<P::CanonicalType>(b, at)
    }

    open spec fn decoded_from(&self, b: Seq<u8>, at: int) -> bool {
        let size = dec_u32(b, at) as int;
        let esz = <P::CanonicalType as CanonicalFixedSizedPod>::spec_size() as int;
        let n = if esz == 0 { 0int } else { (size - 8) / esz };
        self@ == dec_body_seq::<P::CanonicalType>(b, at + 16, n).map_values(
            |c: P::CanonicalType| P::spec_from_canonical(c),
        )
    }

    fn deserialize(deserializer: PodDeserializer<'de>) -> (r: Result<
        (Self, DeserializeSuccess<'de>),
        DeserializeError<&'de [u8]>,
    >)
        ensures
            r is Ok <==> Self::accepts(deserializer.spec_input(), deserializer.spec_pos()),
    {
        let ghost b = deserializer.spec_input();
        let ghost at = deserializer.spec_pos();
        let ghost esz = <P::CanonicalType as CanonicalFixedSizedPod>::spec_size() as int;
        let (mut arr_deserializer, num_elems) = match deserializer.deserialize_array::<P>() {
            Err(e) => {
                return Err(e);
            },
            Ok(a) => a,
        };
        let ghost n = num_elems as int;
        let mut result: Vec<P> = Vec::new();
        let mut i: u32 = 0;
        proof {
            assert(n * esz >= 0) by (nonlinear_arith)
                requires n >= 0, esz >= 0;
        }
        while i < num_elems
            invariant
                arr_deserializer.wf(),
                arr_deserializer.spec_input() == b,
                arr_deserializer.spec_total() == n,
                arr_deserializer.spec_pos() == at + 16 + i * esz,
                arr_deserializer.spec_remaining() == n - i,
                i <= num_elems,
                n == num_elems as int,
                esz == <P::CanonicalType as CanonicalFixedSizedPod>::spec_size() as int,
                result@.len() == i,
                forall|k: int| 0 <= k < i ==> result@[k] == P::spec_from_canonical(
                    #[trigger] dec_body_seq::<P::CanonicalType>(b, at + 16, n)[k],
                ),
            decreases num_elems - i,
        {
            match arr_deserializer.deserialize_element() {
                Err(e) => {
                    return Err(e);
                },
                Ok(v) => {
                    proof {
                        assert((at + 16 + i * esz) + esz == at + 16 + (i + 1) * esz)
                            by (nonlinear_arith);
                        assert(0 <= i * esz <= n * esz && (i + 1) * esz <= n * esz)
                            by (nonlinear_arith)
                            requires 0 <= i, i + 1 <= n, esz >= 0;
                        assert(dec_body_seq::<P::CanonicalType>(b, at + 16, n)[i as int]
                            == <P::CanonicalType as CanonicalFixedSizedPod>::spec_from_body(
                            b.subrange(at + 16 + i * esz, at + 16 + i * esz + esz),
                        ));
                    }
                    result.push(v);
                },
            }
            i = i + 1;
        }
        match arr_deserializer.end() {
            Err(e) => Err(e),
            Ok(success) => {
                proof {
                    <P::CanonicalType as CanonicalFixedSizedPod>::lemma_tag_size();
                    assert(fixed_size_of(TYPE_ARRAY) == -1);
                    assert(n * esz >= 0) by (nonlinear_arith)
                        requires n >= 0, esz >= 0;
                    assert(dec_shape(b, at) == Ok::<int, DecodeErrorKind>(
                        16 + n * esz + pad_len((n * esz) as nat),
                    ));
                    assert(result@ =~= dec_body_seq::<P::CanonicalType>(b, at + 16, n).map_values(
                        |c: P::CanonicalType| P::spec_from_canonical(c),
                    ));
                }
                Ok((result, success))
            },
        }
    }
}

// Deserialize a `Choice` pod over a canonical element type.
impl<'de, T: CanonicalFixedSizedPod> PodDeserialize<'de> for Choice<T> {
    open spec fn accepts(b: Seq<u8>, at: int) -> bool {
        choice_pod_ok::<T>(b, at)
    }

    open spec fn decoded_from(&self, b: Seq<u8>, at: int) -> bool {
        let size = dec_u32(b, at) as int;
        let esz = T::spec_size() as int;
        esz > 0 && dec_choice_rel::<T>(
            b,
            at,
            dec_u32(b, at + 8),
            dec_u32(b, at + 12),
            (size - 16) / esz,
            *self,
        )
    }

    fn deserialize(deserializer: PodDeserializer<'de>) -> (r: Result<
        (Self, DeserializeSuccess<'de>),
        DeserializeError<&'de [u8]>,
    >)
        ensures
            r is Ok <==> Self::accepts(deserializer.spec_input(), deserializer.spec_pos()),
    {
        let r = deserializer.deserialize_choice::<T>();
        proof {
            if r is Ok {
                T::lemma_tag_size();
            }
        }
        r
    }
}

// Deserialize any pod into the dynamically typed value model.
impl<'de> PodDeserialize<'de> for Value {
    open spec fn accepts(b: Seq<u8>, at: int) -> bool {
        dec_shape(b, at) is Ok
    }

    open spec fn decoded_from(&self, b: Seq<u8>, at: int) -> bool {
        dec_value_rel(b, at, *self)
    }

    fn deserialize(deserializer: PodDeserializer<'de>) -> (r: Result<
        (Self, DeserializeSuccess<'de>),
        DeserializeError<&'de [u8]>,
    >)
        ensures
            r is Ok <==> Self::accepts(deserializer.spec_input(), deserializer.spec_pos()),
    {
        let ghost b = deserializer.spec_input();
        let ilen = deserializer.input.len();
        match decode_at(deserializer.input, deserializer.pos) {
            Err(e) => Err(e),
            Ok((v, consumed)) => {
                let next = PodDeserializer {
                    input: deserializer.input,
                    pos: deserializer.pos + consumed,
                };
                Ok((v, DeserializeSuccess(next)))
            },
        }
    }
}

} // verus!

