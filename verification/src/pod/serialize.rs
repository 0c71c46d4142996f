//! This module deals with serializing rust types into raw SPA pods.
//!
//! A rust type can be serialized into a raw pod by using
//! [`PodSerializer::serialize`] with any implementor of the [`PodSerialize`]
//! trait.
//!
//! The crate provides a number of implementors of this trait either directly,
//! or through [`FixedSizedPod`].
//!
//! You can also implement the [`PodSerialize`] trait on another type
//! yourself.  See the traits documentation for more information on how to do
//! that.

use vstd::prelude::*;
use vstd::bytes::spec_u32_to_le_bytes;
use vstd::string::StringSliceAdditionalSpecFns;

use crate::pod::wire::{enc_header, enc_pod, pad_len, pad_of, patch_u32, put_u32, put_zeros,
    zeros};
use crate::pod::{
    body_ok, enc_array_body, enc_bodies, enc_choice_body, enc_choice_value_body, enc_fields,
    enc_props, enc_value, choice_entries, fields_ok, props_ok,
    CanonicalFixedSizedPod, FixedSizedPod, Object, Property, PropertyFlags, Value, ValueArray,
    ChoiceValue,
    TYPE_ARRAY, TYPE_BYTES, TYPE_CHOICE, TYPE_OBJECT, TYPE_STRING, TYPE_STRUCT,
};
use crate::utils::{Choice, ChoiceEnum};

verus! {

/// An error that may occur when serializing a pod.
#[derive(Debug, Copy, Clone, PartialEq, Eq, Structural)]
pub enum SerializeError {
    /// A body was larger than the 32-bit length field of the wire format can
    /// describe.
    TooLarge,
}

/// The bodies of a sequence of values, split at any point, concatenate.
pub proof fn lemma_enc_bodies_concat<T: CanonicalFixedSizedPod>(a: Seq<T>, b: Seq<T>)
    ensures
        enc_bodies(a + b) == enc_bodies(a) + enc_bodies(b),
    decreases a.len(),
{
    if a.len() == 0 {
        assert(a + b =~= b);
        assert(enc_bodies(a) + enc_bodies(b) =~= enc_bodies(b));
    } else {
        lemma_enc_bodies_concat(a.drop_first(), b);
        assert((a + b).drop_first() =~= a.drop_first() + b);
        assert(enc_bodies(a + b) =~= enc_bodies(a) + enc_bodies(b));
    }
}

/// Each value contributes exactly one body of `spec_size()` bytes.
pub proof fn lemma_enc_bodies_len<T: CanonicalFixedSizedPod>(s: Seq<T>)
    ensures
        enc_bodies(s).len() == s.len() * T::spec_size(),
    decreases s.len(),
{
    if s.len() == 0 {
    } else {
        lemma_enc_bodies_len::<T>(s.drop_first());
        s[0].lemma_body_len();
        let n = s.len() as int;
        let sz = T::spec_size() as int;
        assert(sz + (n - 1) * sz == n * sz) by (nonlinear_arith);
    }
}

/// Appending one more value appends exactly its body.
pub proof fn lemma_enc_bodies_step<T: CanonicalFixedSizedPod>(s: Seq<T>, i: int)
    requires
        0 <= i < s.len(),
    ensures
        enc_bodies(s.take(i + 1)) == enc_bodies(s.take(i)) + s[i].spec_body(),
{
    lemma_enc_bodies_concat(s.take(i), seq![s[i]]);
    assert(s.take(i + 1) =~= s.take(i) + seq![s[i]]);
    assert(seq![s[i]].drop_first() =~= Seq::<T>::empty());
    assert(enc_bodies(Seq::<T>::empty()) == Seq::<u8>::empty());
    assert(enc_bodies(seq![s[i]]) =~= s[i].spec_body());
}

/// Append the bodies of all elements of `items` to `out`.
fn write_bodies<T: CanonicalFixedSizedPod>(items: &Vec<T>, out: &mut Vec<u8>)
    ensures
        final(out)@ == old(out)@ + enc_bodies(items@),
{
    let n = items.len();
    let mut i: usize = 0;
    while i < n
        invariant
            i <= n,
            n == items@.len(),
            out@ == old(out)@ + enc_bodies(items@.take(i as int)),
        decreases n - i,
    {
        items[i].serialize_body(out);
        proof {
            lemma_enc_bodies_step(items@, i as int);
            assert(out@ =~= old(out)@ + enc_bodies(items@.take(i + 1)));
        }
        i = i + 1;
    }
    proof {
        assert(items@.take(n as int) =~= items@);
    }
}

/// Write one complete fixed-size pod: header, body, padding.
fn write_fixed_pod<T: CanonicalFixedSizedPod>(val: &T, out: &mut Vec<u8>)
    ensures
        final(out)@ == old(out)@ + enc_pod(T::spec_type(), val.spec_body()),
{
    let size = T::wire_size();
    put_u32(out, size);
    put_u32(out, T::wire_type());
    val.serialize_body(out);
    let p = pad_of(size as usize);
    put_zeros(out, p);
    proof {
        val.lemma_body_len();
        assert(out@ =~= old(out)@ + enc_pod(T::spec_type(), val.spec_body()));
    }
}

/// Check that `n` bodies of `size` bytes each, after `extra` leading body
/// bytes, fit the 32-bit length field; return the total body size.
fn checked_body_size(n: usize, size: u32, extra: u32) -> (r: Option<u64>)
    ensures
        match r {
            Some(total) => {
                &&& extra + n * size <= u32::MAX
                &&& total == extra + n * size
            },
            None => extra + n * size > u32::MAX,
        },
{
    if size == 0 {
        proof {
            assert(n as int * 0 == 0) by (nonlinear_arith);
        }
        return Some(extra as u64);
    }
    if n > u32::MAX as usize {
        proof {
            let ni = n as int;
            let sz = size as int;
            assert(ni * sz >= ni * 1) by (nonlinear_arith)
                requires sz >= 1, ni >= 0;
        }
        return None;
    }
    proof {
        let ni = n as int;
        let sz = size as int;
        assert(ni * sz <= 0xffff_ffff * 0xffff_ffff) by (nonlinear_arith)
            requires 0 <= ni <= 0xffff_ffff, 0 <= sz <= 0xffff_ffff;
    }
    let prod: u64 = (n as u64) * (size as u64);
    if prod > (u32::MAX as u64) - (extra as u64) {
        None
    } else {
        Some((extra as u64) + prod)
    }
}

/// Write one complete array pod over elements of the canonical type `T`.
///
/// Fails, leaving `out` unchanged, exactly when the body would not fit the
/// 32-bit length field.
fn write_array_pod<T: CanonicalFixedSizedPod>(items: &Vec<T>, out: &mut Vec<u8>) -> (r: Result<
    (),
    SerializeError,
>)
    ensures
        r is Ok <==> 8 + enc_bodies(items@).len() <= u32::MAX,
        r is Ok ==> final(out)@ == old(out)@ + enc_pod(
            TYPE_ARRAY,
            enc_header(T::spec_size() as nat, T::spec_type()) + enc_bodies(items@),
        ),
        r is Err ==> final(out)@ == old(out)@,
{
    proof {
        lemma_enc_bodies_len::<T>(items@);
    }
    let size = T::wire_size();
    let n = items.len();
    let body_size = match checked_body_size(n, size, 8) {
        Some(total) => total,
        None => {
            return Err(SerializeError::TooLarge);
        },
    };
    put_u32(out, body_size as u32);
    put_u32(out, TYPE_ARRAY);
    put_u32(out, size);
    put_u32(out, T::wire_type());
    write_bodies(items, out);
    let p = pad_of((body_size % 8) as usize);
    put_zeros(out, p);
    proof {
        let body = enc_header(T::spec_size() as nat, T::spec_type()) + enc_bodies(items@);
        vstd::bytes::lemma_auto_spec_u32_to_from_le_bytes();
        assert(body.len() == body_size);
        assert(pad_len(body.len()) == pad_len((body_size as u64 % 8) as nat));
        assert(out@ =~= old(out)@ + enc_pod(TYPE_ARRAY, body));
    }
    Ok(())
}

/// A body plus its padding is always a multiple of 8 bytes.
pub proof fn lemma_pad_align(n: nat)
    ensures
        (n + pad_len(n)) % 8 == 0,
{
}

/// Every encoded pod occupies a multiple of 8 bytes on the wire.
pub proof fn lemma_enc_pod_aligned(ty: u32, body: Seq<u8>)
    ensures
        enc_pod(ty, body).len() % 8 == 0,
        enc_pod(ty, body).len() == 8 + body.len() + pad_len(body.len()),
{
    vstd::bytes::lemma_auto_spec_u32_to_from_le_bytes();
    lemma_pad_align(body.len());
}

/// Every encoded value occupies a multiple of 8 bytes on the wire, and at
/// least the 8 bytes of its header.
pub proof fn lemma_enc_value_aligned(v: Value)
    ensures
        enc_value(v).len() % 8 == 0,
        enc_value(v).len() >= 8,
{
    match v {
        Value::Unit => lemma_enc_pod_aligned(super::TYPE_NONE, Seq::empty()),
        Value::Bool(b) => lemma_enc_pod_aligned(super::TYPE_BOOL, b.spec_body()),
        Value::Id(id) => lemma_enc_pod_aligned(super::TYPE_ID, id.spec_body()),
        Value::Int(x) => lemma_enc_pod_aligned(super::TYPE_INT, x.spec_body()),
        Value::Long(x) => lemma_enc_pod_aligned(super::TYPE_LONG, x.spec_body()),
        Value::Float(x) => lemma_enc_pod_aligned(super::TYPE_FLOAT, x.spec_body()),
        Value::Double(x) => lemma_enc_pod_aligned(super::TYPE_DOUBLE, x.spec_body()),
        Value::String(s) => lemma_enc_pod_aligned(
            TYPE_STRING,
            vstd::utf8::encode_utf8(s@) + seq![0u8],
        ),
        Value::Bytes(b) => lemma_enc_pod_aligned(TYPE_BYTES, b@),
        Value::Rectangle(r) => lemma_enc_pod_aligned(super::TYPE_RECTANGLE, r.spec_body()),
        Value::Fraction(f) => lemma_enc_pod_aligned(super::TYPE_FRACTION, f.spec_body()),
        Value::Fd(fd) => lemma_enc_pod_aligned(super::TYPE_FD, fd.spec_body()),
        Value::ValueArray(a) => lemma_enc_pod_aligned(TYPE_ARRAY, enc_array_body(a)),
        Value::Struct(fields) => lemma_enc_pod_aligned(TYPE_STRUCT, enc_fields(fields@)),
        Value::Object(o) => lemma_enc_pod_aligned(
            TYPE_OBJECT,
            spec_u32_to_le_bytes(o.type_) + spec_u32_to_le_bytes(o.id) + enc_props(o.properties@),
        ),
        Value::Choice(c) => lemma_enc_pod_aligned(TYPE_CHOICE, enc_choice_value_body(c)),
    }
}

/// The encodings of struct fields, split at any point, concatenate.
pub proof fn lemma_enc_fields_concat(a: Seq<Value>, b: Seq<Value>)
    ensures
        enc_fields(a + b) == enc_fields(a) + enc_fields(b),
    decreases a.len(),
{
    if a.len() == 0 {
        assert(a + b =~= b);
        assert(enc_fields(a) + enc_fields(b) =~= enc_fields(b));
    } else {
        lemma_enc_fields_concat(a.drop_first(), b);
        assert((a + b).drop_first() =~= a.drop_first() + b);
        assert(enc_fields(a + b) =~= enc_fields(a) + enc_fields(b));
    }
}

/// Appending one more field appends exactly its encoding.
pub proof fn lemma_enc_fields_step(s: Seq<Value>, i: int)
    requires
        0 <= i < s.len(),
    ensures
        enc_fields(s.take(i + 1)) == enc_fields(s.take(i)) + enc_value(s[i]),
        fields_ok(s.take(i + 1)) <==> fields_ok(s.take(i)) && body_ok(s[i]),
{
    lemma_enc_fields_concat(s.take(i), seq![s[i]]);
    assert(s.take(i + 1) =~= s.take(i) + seq![s[i]]);
    assert(seq![s[i]].drop_first() =~= Seq::<Value>::empty());
    assert(enc_fields(Seq::<Value>::empty()) == Seq::<u8>::empty());
    assert(fields_ok(Seq::<Value>::empty()));
    assert(enc_fields(seq![s[i]]) =~= enc_value(s[i]));
    assert(fields_ok(seq![s[i]]) == body_ok(s[i]));
    lemma_fields_ok_concat(s.take(i), seq![s[i]]);
}

/// A sequence of fields is `fields_ok` exactly when both halves are.
pub proof fn lemma_fields_ok_concat(a: Seq<Value>, b: Seq<Value>)
    ensures
        fields_ok(a + b) <==> fields_ok(a) && fields_ok(b),
    decreases a.len(),
{
    if a.len() == 0 {
        assert(a + b =~= b);
    } else {
        lemma_fields_ok_concat(a.drop_first(), b);
        assert((a + b).drop_first() =~= a.drop_first() + b);
    }
}

/// Every field of a `fields_ok` sequence is itself `body_ok`.
pub proof fn lemma_fields_ok_index(s: Seq<Value>, i: int)
    requires
        fields_ok(s),
        0 <= i < s.len(),
    ensures
        body_ok(s[i]),
    decreases s.len(),
{
    if i > 0 {
        lemma_fields_ok_index(s.drop_first(), i - 1);
    }
}

/// Struct bodies are always a multiple of 8 bytes: each field is a complete,
/// padded pod.
#[verifier::rlimit(100)]
pub proof fn lemma_enc_fields_aligned(s: Seq<Value>)
    ensures
        enc_fields(s).len() % 8 == 0,
    decreases s.len(),
{
    if s.len() > 0 {
        lemma_enc_value_aligned(s[0]);
        lemma_enc_fields_aligned(s.drop_first());
    }
}

/// The encodings of object properties, split at any point, concatenate.
pub proof fn lemma_enc_props_concat(a: Seq<Property>, b: Seq<Property>)
    ensures
        enc_props(a + b) == enc_props(a) + enc_props(b),
    decreases a.len(),
{
    if a.len() == 0 {
        assert(a + b =~= b);
        assert(enc_props(a) + enc_props(b) =~= enc_props(b));
    } else {
        lemma_enc_props_concat(a.drop_first(), b);
        assert((a + b).drop_first() =~= a.drop_first() + b);
        assert(enc_props(a + b) =~= enc_props(a) + enc_props(b));
    }
}

/// Appending one more property appends exactly its encoding.
pub proof fn lemma_enc_props_step(s: Seq<Property>, i: int)
    requires
        0 <= i < s.len(),
    ensures
        enc_props(s.take(i + 1)) == enc_props(s.take(i)) + spec_u32_to_le_bytes(s[i].key)
            + spec_u32_to_le_bytes(s[i].flags.bits) + enc_value(s[i].value),
        props_ok(s.take(i + 1)) <==> props_ok(s.take(i)) && body_ok(s[i].value),
{
    lemma_enc_props_concat(s.take(i), seq![s[i]]);
    assert(s.take(i + 1) =~= s.take(i) + seq![s[i]]);
    assert(seq![s[i]].drop_first() =~= Seq::<Property>::empty());
    assert(enc_props(Seq::<Property>::empty()) == Seq::<u8>::empty());
    assert(props_ok(Seq::<Property>::empty()));
    assert(enc_props(seq![s[i]]) =~= spec_u32_to_le_bytes(s[i].key)
        + spec_u32_to_le_bytes(s[i].flags.bits) + enc_value(s[i].value));
    assert(props_ok(seq![s[i]]) == body_ok(s[i].value));
    lemma_props_ok_concat(s.take(i), seq![s[i]]);
}

/// A sequence of properties is `props_ok` exactly when both halves are.
pub proof fn lemma_props_ok_concat(a: Seq<Property>, b: Seq<Property>)
    ensures
        props_ok(a + b) <==> props_ok(a) && props_ok(b),
    decreases a.len(),
{
    if a.len() == 0 {
        assert(a + b =~= b);
    } else {
        lemma_props_ok_concat(a.drop_first(), b);
        assert((a + b).drop_first() =~= a.drop_first() + b);
    }
}

/// The value of every property of a `props_ok` sequence is `body_ok`.
pub proof fn lemma_props_ok_index(s: Seq<Property>, i: int)
    requires
        props_ok(s),
        0 <= i < s.len(),
    ensures
        body_ok(s[i].value),
    decreases s.len(),
{
    if i > 0 {
        lemma_props_ok_index(s.drop_first(), i - 1);
    }
}

/// A 32-bit field occupies 4 bytes.
pub proof fn lemma_le32_len(x: u32)
    ensures
        spec_u32_to_le_bytes(x).len() == 4,
{
    vstd::bytes::lemma_auto_spec_u32_to_from_le_bytes();
}

/// Property sequences occupy a multiple of 8 bytes: 8 bytes of key and flags,
/// then a complete padded pod, for each property.
pub proof fn lemma_enc_props_aligned(s: Seq<Property>)
    ensures
        enc_props(s).len() % 8 == 0,
    decreases s.len(),
{
    if s.len() > 0 {
        lemma_le32_len(s[0].key);
        lemma_le32_len(s[0].flags.bits);
        lemma_enc_value_aligned(s[0].value);
        lemma_enc_props_aligned(s.drop_first());
    }
}

/// Write one complete string pod: the body is the UTF-8 bytes of `s` plus
/// one terminating zero byte, so it is never empty.
fn write_str_pod(s: &str, out: &mut Vec<u8>) -> (r: Result<(), SerializeError>)
    ensures
        r is Ok <==> s.spec_bytes().len() + 1 <= u32::MAX,
        r is Ok ==> final(out)@ == old(out)@ + enc_pod(TYPE_STRING, s.spec_bytes() + seq![0u8]),
        r is Err ==> final(out)@ == old(out)@,
{
    let str_bytes = s.as_bytes();
    let len = str_bytes.len();
    if len >= u32::MAX as usize {
        return Err(SerializeError::TooLarge);
    }
    let body_size = (len + 1) as u32;
    put_u32(out, body_size);
    put_u32(out, TYPE_STRING);
    out.extend_from_slice(str_bytes);
    out.push(0u8);
    let p = pad_of(body_size as usize);
    put_zeros(out, p);
    proof {
        let body = s.spec_bytes() + seq![0u8];
        assert(body.len() == body_size);
        assert(out@ =~= old(out)@ + enc_pod(TYPE_STRING, body));
    }
    Ok(())
}

/// Write one complete bytes pod: the body is the bytes themselves, with no
/// terminator.
fn write_bytes_pod(bytes: &[u8], out: &mut Vec<u8>) -> (r: Result<(), SerializeError>)
    ensures
        r is Ok <==> bytes@.len() <= u32::MAX,
        r is Ok ==> final(out)@ == old(out)@ + enc_pod(TYPE_BYTES, bytes@),
        r is Err ==> final(out)@ == old(out)@,
{
    let len = bytes.len();
    if len > u32::MAX as usize {
        return Err(SerializeError::TooLarge);
    }
    put_u32(out, len as u32);
    put_u32(out, TYPE_BYTES);
    out.extend_from_slice(bytes);
    let p = pad_of(len);
    put_zeros(out, p);
    proof {
        assert(out@ =~= old(out)@ + enc_pod(TYPE_BYTES, bytes@));
    }
    Ok(())
}

/// Write one complete choice pod over elements of the canonical type `T`.
#[verifier::rlimit(60)]
fn write_choice_pod<T: CanonicalFixedSizedPod>(c: &Choice<T>, out: &mut Vec<u8>) -> (r: Result<
    (),
    SerializeError,
>)
    ensures
        r is Ok <==> enc_choice_body(*c).len() <= u32::MAX,
        r is Ok ==> final(out)@ == old(out)@ + enc_pod(TYPE_CHOICE, enc_choice_body(*c)),
        r is Err ==> final(out)@ == old(out)@,
{
    proof {
        vstd::bytes::lemma_auto_spec_u32_to_from_le_bytes();
        lemma_enc_bodies_len::<T>(choice_entries(c.1));
    }
    let size = T::wire_size();
    let kind: u32 = match &c.1 {
        ChoiceEnum::Fixed(_) => super::CHOICE_NONE,
        ChoiceEnum::Range { .. } => super::CHOICE_RANGE,
        ChoiceEnum::Step { .. } => super::CHOICE_STEP,
        ChoiceEnum::Enum { .. } => super::CHOICE_ENUM,
        ChoiceEnum::Flags { .. } => super::CHOICE_FLAGS,
    };
    let checked = match &c.1 {
        ChoiceEnum::Fixed(_) => checked_body_size(1, size, 16),
        ChoiceEnum::Range { .. } => checked_body_size(3, size, 16),
        ChoiceEnum::Step { .. } => checked_body_size(4, size, 16),
        ChoiceEnum::Enum { default: _, alternatives } => {
            if alternatives.len() >= u32::MAX as usize {
                proof {
                    let cnt = choice_entries(c.1).len() as int;
                    let sz = T::spec_size() as int;
                    if sz > 0 {
                        assert(cnt * sz >= cnt * 1) by (nonlinear_arith)
                            requires sz >= 1, cnt >= 0;
                    } else {
                        assert(cnt * sz == 0) by (nonlinear_arith)
                            requires sz == 0;
                    }
                }
                if size == 0 {
                    Some(16u64)
                } else {
                    None
                }
            } else {
                checked_body_size(alternatives.len() + 1, size, 16)
            }
        },
        ChoiceEnum::Flags { default: _, flags } => {
            if flags.len() >= u32::MAX as usize {
                proof {
                    let cnt = choice_entries(c.1).len() as int;
                    let sz = T::spec_size() as int;
                    if sz > 0 {
                        assert(cnt * sz >= cnt * 1) by (nonlinear_arith)
                            requires sz >= 1, cnt >= 0;
                    } else {
                        assert(cnt * sz == 0) by (nonlinear_arith)
                            requires sz == 0;
                    }
                }
                if size == 0 {
                    Some(16u64)
                } else {
                    None
                }
            } else {
                checked_body_size(flags.len() + 1, size, 16)
            }
        },
    };
    let body_size = match checked {
        Some(total) => total,
        None => {
            return Err(SerializeError::TooLarge);
        },
    };
    put_u32(out, body_size as u32);
    put_u32(out, TYPE_CHOICE);
    put_u32(out, kind);
    put_u32(out, c.0.bits);
    put_u32(out, size);
    put_u32(out, T::wire_type());
    match &c.1 {
        ChoiceEnum::Fixed(v) => {
            v.serialize_body(out);
            proof {
                assert(seq![*v].drop_first() =~= Seq::<T>::empty());
                assert(enc_bodies(Seq::<T>::empty()) == Seq::<u8>::empty());
                assert(enc_bodies(choice_entries(c.1)) =~= v.spec_body());
            }
        },
        ChoiceEnum::Range { default, min, max } => {
            default.serialize_body(out);
            min.serialize_body(out);
            max.serialize_body(out);
            proof {
                assert(seq![*default, *min, *max].drop_first() =~= seq![*min, *max]);
                assert(seq![*min, *max].drop_first() =~= seq![*max]);
                assert(seq![*max].drop_first() =~= Seq::<T>::empty());
                assert(enc_bodies(Seq::<T>::empty()) == Seq::<u8>::empty());
                assert(enc_bodies(seq![*max]) =~= max.spec_body());
                assert(enc_bodies(seq![*min, *max]) =~= min.spec_body() + max.spec_body());
                assert(enc_bodies(choice_entries(c.1)) =~= default.spec_body() + min.spec_body()
                    + max.spec_body());
            }
        },
        ChoiceEnum::Step { default, min, max, step } => {
            default.serialize_body(out);
            min.serialize_body(out);
            max.serialize_body(out);
            step.serialize_body(out);
            proof {
                assert(seq![*default, *min, *max, *step].drop_first()
                    =~= seq![*min, *max, *step]);
                assert(seq![*min, *max, *step].drop_first() =~= seq![*max, *step]);
                assert(seq![*max, *step].drop_first() =~= seq![*step]);
                assert(seq![*step].drop_first() =~= Seq::<T>::empty());
                assert(enc_bodies(Seq::<T>::empty()) == Seq::<u8>::empty());
                assert(enc_bodies(seq![*step]) =~= step.spec_body());
                assert(enc_bodies(seq![*max, *step]) =~= max.spec_body() + step.spec_body());
                assert(enc_bodies(seq![*min, *max, *step]) =~= min.spec_body()
                    + max.spec_body() + step.spec_body());
                assert(enc_bodies(choice_entries(c.1)) =~= default.spec_body() + min.spec_body()
                    + max.spec_body() + step.spec_body());
            }
        },
        ChoiceEnum::Enum { default, alternatives } => {
            default.serialize_body(out);
            write_bodies(alternatives, out);
            proof {
                lemma_enc_bodies_concat(seq![*default], alternatives@);
                assert(seq![*default].drop_first() =~= Seq::<T>::empty());
                assert(enc_bodies(Seq::<T>::empty()) == Seq::<u8>::empty());
                assert(enc_bodies(seq![*default]) =~= default.spec_body());
                assert(enc_bodies(choice_entries(c.1)) =~= default.spec_body()
                    + enc_bodies(alternatives@));
            }
        },
        ChoiceEnum::Flags { default, flags } => {
            default.serialize_body(out);
            write_bodies(flags, out);
            proof {
                lemma_enc_bodies_concat(seq![*default], flags@);
                assert(seq![*default].drop_first() =~= Seq::<T>::empty());
                assert(enc_bodies(Seq::<T>::empty()) == Seq::<u8>::empty());
                assert(enc_bodies(seq![*default]) =~= default.spec_body());
                assert(enc_bodies(choice_entries(c.1)) =~= default.spec_body()
                    + enc_bodies(flags@));
            }
        },
    }
    let p = pad_of((body_size % 8) as usize);
    put_zeros(out, p);
    proof {
        let body = enc_choice_body(*c);
        assert(body.len() == body_size);
        assert(pad_len(body.len()) == pad_len((body_size as u64 % 8) as nat));
        assert(out@ =~= old(out)@ + enc_pod(TYPE_CHOICE, body));
    }
    Ok(())
}

/// Serialize one value as a complete pod, appending it to `out`.
///
/// Succeeds exactly when every body inside `value` fits the 32-bit length
/// field; on failure `out` is left unchanged.
#[verifier::loop_isolation(false)]
pub fn write_value(value: &Value, out: &mut Vec<u8>) -> (r: Result<(), SerializeError>)
    ensures
        r is Ok <==> body_ok(*value),
        r is Ok ==> final(out)@ == old(out)@ + enc_value(*value),
        r is Err ==> final(out)@ == old(out)@,
    decreases *value,
{
    proof {
        vstd::bytes::lemma_auto_spec_u32_to_from_le_bytes();
    }
    match value {
        Value::Unit => {
            write_fixed_pod(&(), out);
            proof {
                assert(().spec_body() =~= Seq::<u8>::empty());
            }
            Ok(())
        },
        Value::Bool(b) => {
            write_fixed_pod(b, out);
            Ok(())
        },
        Value::Id(id) => {
            write_fixed_pod(id, out);
            Ok(())
        },
        Value::Int(x) => {
            write_fixed_pod(x, out);
            Ok(())
        },
        Value::Long(x) => {
            write_fixed_pod(x, out);
            Ok(())
        },
        Value::Float(x) => {
            write_fixed_pod(x, out);
            Ok(())
        },
        Value::Double(x) => {
            write_fixed_pod(x, out);
            Ok(())
        },
        Value::Rectangle(rect) => {
            write_fixed_pod(rect, out);
            Ok(())
        },
        Value::Fraction(frac) => {
            write_fixed_pod(frac, out);
            Ok(())
        },
        Value::Fd(fd) => {
            write_fixed_pod(fd, out);
            Ok(())
        },
        Value::String(s) => write_str_pod(s.as_str(), out),
        Value::Bytes(b) => write_bytes_pod(b.as_slice(), out),
        Value::ValueArray(a) => match a {
            ValueArray::Unit(v) => write_array_pod(v, out),
            ValueArray::Bool(v) => write_array_pod(v, out),
            ValueArray::Id(v) => write_array_pod(v, out),
            ValueArray::Int(v) => write_array_pod(v, out),
            ValueArray::Long(v) => write_array_pod(v, out),
            ValueArray::Float(v) => write_array_pod(v, out),
            ValueArray::Double(v) => write_array_pod(v, out),
            ValueArray::Rectangle(v) => write_array_pod(v, out),
            ValueArray::Fraction(v) => write_array_pod(v, out),
            ValueArray::Fd(v) => write_array_pod(v, out),
        },
        Value::Choice(c) => match c {
            ChoiceValue::Int(ch) => write_choice_pod(ch, out),
            ChoiceValue::Long(ch) => write_choice_pod(ch, out),
            ChoiceValue::Float(ch) => write_choice_pod(ch, out),
            ChoiceValue::Double(ch) => write_choice_pod(ch, out),
            ChoiceValue::Id(ch) => write_choice_pod(ch, out),
            ChoiceValue::Rectangle(ch) => write_choice_pod(ch, out),
            ChoiceValue::Fraction(ch) => write_choice_pod(ch, out),
            ChoiceValue::Fd(ch) => write_choice_pod(ch, out),
        },
        Value::Struct(fields) => {
            let base = out.len();
            put_u32(out, 0);
            put_u32(out, TYPE_STRUCT);
            let n = fields.len();
            let mut i: usize = 0;
            proof {
                vstd::bytes::lemma_auto_spec_u32_to_from_le_bytes();
            }
            while i < n
                invariant
                    i <= n,
                    n == fields@.len(),
                    base == old(out)@.len(),
                    out@ == old(out)@ + spec_u32_to_le_bytes(0) + spec_u32_to_le_bytes(
                        TYPE_STRUCT,
                    ) + enc_fields(fields@.take(i as int)),
                    fields_ok(fields@.take(i as int)),
                decreases n - i,
            {
                proof {
                    assert(*fields == value->Struct_0);
                    assert(decreases_to!(*value => value->Struct_0));
                    assert(decreases_to!(value->Struct_0 => value->Struct_0@));
                    assert(decreases_to!(value->Struct_0@ => value->Struct_0@[i as int]));
                }
                let r = write_value(&fields[i], out);
                proof {
                    lemma_enc_fields_step(fields@, i as int);
                }
                match r {
                    Ok(()) => {},
                    Err(e) => {
                        proof {
                            lemma_fields_ok_not(fields@, i as int);
                        }
                        out.truncate(base);
                        proof {
                            assert(out@ =~= old(out)@);
                        }
                        return Err(e);
                    },
                }
                proof {
                    assert(out@ =~= old(out)@ + spec_u32_to_le_bytes(0) + spec_u32_to_le_bytes(
                        TYPE_STRUCT,
                    ) + enc_fields(fields@.take(i + 1)));
                }
                i = i + 1;
            }
            proof {
                assert(fields@.take(n as int) =~= fields@);
            }
            let body_len = out.len() - (base + 8);
            if body_len > u32::MAX as usize {
                out.truncate(base);
                proof {
                    assert(out@ =~= old(out)@);
                }
                return Err(SerializeError::TooLarge);
            }
            patch_u32(out, base, body_len as u32);
            proof {
                lemma_enc_fields_aligned(fields@);
                assert(pad_len(enc_fields(fields@).len()) == 0);
                assert(zeros(0) =~= Seq::<u8>::empty());
                assert(out@ =~= old(out)@ + enc_pod(TYPE_STRUCT, enc_fields(fields@)));
            }
            Ok(())
        },
        Value::Object(o) => {
            let base = out.len();
            put_u32(out, 0);
            put_u32(out, TYPE_OBJECT);
            put_u32(out, o.type_);
            put_u32(out, o.id);
            let n = o.properties.len();
            let mut i: usize = 0;
            proof {
                vstd::bytes::lemma_auto_spec_u32_to_from_le_bytes();
            }
            while i < n
                invariant
                    i <= n,
                    n == o.properties@.len(),
                    base == old(out)@.len(),
                    out@ == old(out)@ + spec_u32_to_le_bytes(0) + spec_u32_to_le_bytes(
                        TYPE_OBJECT,
                    ) + spec_u32_to_le_bytes(o.type_) + spec_u32_to_le_bytes(o.id) + enc_props(
                        o.properties@.take(i as int),
                    ),
                    props_ok(o.properties@.take(i as int)),
                decreases n - i,
            {
                let prop = &o.properties[i];
                put_u32(out, prop.key);
                put_u32(out, prop.flags.bits);
                proof {
                    assert(*o == value->Object_0);
                    assert(decreases_to!(*value => value->Object_0));
                    assert(decreases_to!(value->Object_0 => value->Object_0.properties));
                    assert(decreases_to!(value->Object_0.properties
                        => value->Object_0.properties@));
                    assert(decreases_to!(value->Object_0.properties@
                        => value->Object_0.properties@[i as int]));
                    assert(decreases_to!(value->Object_0.properties@[i as int]
                        => value->Object_0.properties@[i as int].value));
                }
                let r = write_value(&prop.value, out);
                proof {
                    lemma_enc_props_step(o.properties@, i as int);
                }
                match r {
                    Ok(()) => {},
                    Err(e) => {
                        proof {
                            lemma_props_ok_not(o.properties@, i as int);
                        }
                        out.truncate(base);
                        proof {
                            assert(out@ =~= old(out)@);
                        }
                        return Err(e);
                    },
                }
                proof {
                    assert(out@ =~= old(out)@ + spec_u32_to_le_bytes(0) + spec_u32_to_le_bytes(
                        TYPE_OBJECT,
                    ) + spec_u32_to_le_bytes(o.type_) + spec_u32_to_le_bytes(o.id) + enc_props(
                        o.properties@.take(i + 1),
                    ));
                }
                i = i + 1;
            }
            proof {
                assert(o.properties@.take(n as int) =~= o.properties@);
            }
            let body_len = out.len() - (base + 8);
            if body_len > u32::MAX as usize {
                out.truncate(base);
                proof {
                    assert(out@ =~= old(out)@);
                }
                return Err(SerializeError::TooLarge);
            }
            patch_u32(out, base, body_len as u32);
            proof {
                let body = spec_u32_to_le_bytes(o.type_) + spec_u32_to_le_bytes(o.id) + enc_props(
                    o.properties@,
                );
                lemma_enc_props_aligned(o.properties@);
                assert(pad_len(body.len()) == 0);
                assert(zeros(0) =~= Seq::<u8>::empty());
                assert(out@ =~= old(out)@ + enc_pod(TYPE_OBJECT, body));
            }
            Ok(())
        },
    }
}

/// If one field is not `body_ok`, the whole sequence is not `fields_ok`.
pub proof fn lemma_fields_ok_not(s: Seq<Value>, i: int)
    requires
        0 <= i < s.len(),
        !body_ok(s[i]),
    ensures
        !fields_ok(s),
{
    if fields_ok(s) {
        lemma_fields_ok_index(s, i);
    }
}

/// If one property's value is not `body_ok`, the sequence is not `props_ok`.
pub proof fn lemma_props_ok_not(s: Seq<Property>, i: int)
    requires
        0 <= i < s.len(),
        !body_ok(s[i].value),
    ensures
        !props_ok(s),
{
    if props_ok(s) {
        lemma_props_ok_index(s, i);
    }
}

/// Serialize a [`Value`] into its complete on-wire pod.
///
/// This is the producer-facing boundary of the codec: it succeeds exactly
/// when every body inside `value` fits the 32-bit length field of the wire
/// format, and then returns exactly the bytes [`enc_value`] describes.
pub fn encode(value: &Value) -> (r: Result<Vec<u8>, SerializeError>)
    ensures
        r is Ok <==> body_ok(*value),
        r matches Ok(buf) ==> buf@ == enc_value(*value),
{
    let mut out: Vec<u8> = Vec::new();
    match write_value(value, &mut out) {
        Ok(()) => Ok(out),
        Err(e) => Err(e),
    }
}


/// A cursor-based writer that emits complete pods into a growing buffer.
///
/// The exact-contract entry point for dynamically typed values is [`encode`];
/// this type carries the typed path, where user types drive the writer
/// through the [`PodSerialize`] trait.
pub struct PodSerializer {
    out: Vec<u8>,
}

/// This struct is returned by [`PodSerialize`] implementors on serialization
/// success.
///
/// Because this can only be constructed by the [`PodSerializer`],
/// [`PodSerialize`] implementors are forced to finish serialization of their
/// pod instead of stopping after serializing only part of a pod.
pub struct SerializeSuccess {
    serializer: PodSerializer,
}

impl PodSerializer {
    /// The bytes written so far.
    pub closed spec fn spec_bytes(&self) -> Seq<u8> {
        self.out@
    }
}

impl SerializeSuccess {
    /// The bytes written when serialization finished.
    pub closed spec fn spec_bytes(&self) -> Seq<u8> {
        self.serializer.out@
    }
}

/// Implementors of this trait can be serialized into raw pods using a
/// [`PodSerializer`].
///
/// Their [`serialize`](PodSerialize::serialize) method should invoke exactly
/// one of the `serialize_*()` methods of the provided serializer that fits
/// the pod the type serializes into.
///
/// If your type is serialized into a pod that always has the same size,
/// implement [`FixedSizedPod`] instead and this trait will be implemented for
/// you automatically.
pub trait PodSerialize {
    /// The values whose serialization is guaranteed to succeed.
    ///
    /// Every implementor in this crate makes this exact (serialization
    /// succeeds if and only if every body fits the 32-bit length field); the
    /// default promises nothing, so that implementors outside the crate owe
    /// no success they cannot prove.
    open spec fn serializable(&self) -> bool {
        false
    }

    /// What holds of the bytes `w` that serializing `self` appends to the
    /// buffer.
    ///
    /// Every implementor in this crate pins its bytes down exactly through
    /// this relation; the default claims nothing, so that implementors
    /// outside the crate owe nothing they cannot prove.
    open spec fn serialized_as(&self, w: Seq<u8>) -> bool {
        true
    }

    /// Serialize `self` by using the provided [`PodSerializer`].
    ///
    /// On success the buffer grew by exactly one complete pod, related to
    /// `self` by [`serialized_as`](PodSerialize::serialized_as).
    fn serialize(&self, serializer: PodSerializer) -> (r: Result<
        SerializeSuccess,
        SerializeError,
    >)
        ensures
            self.serializable() ==> r is Ok,
            r matches Ok(s) ==> exists|w: Seq<u8>|
                s.spec_bytes() == serializer.spec_bytes() + w && #[trigger] self.serialized_as(
                    w,
                );
}

impl PodSerializer {
    /// Serialize `value` into its complete on-wire pod.
    ///
    /// The value drives the serializer through its [`PodSerialize`]
    /// implementation, starting from an empty buffer: the returned bytes are
    /// exactly what that implementation's
    /// [`serialized_as`](PodSerialize::serialized_as) relation describes.
    pub fn serialize<P: PodSerialize + ?Sized>(value: &P) -> (r: Result<Vec<u8>, SerializeError>)
        ensures
            value.serializable() ==> r is Ok,
            r matches Ok(buf) ==> value.serialized_as(buf@),
    {
        let serializer = PodSerializer { out: Vec::new() };
        match value.serialize(serializer) {
            Err(e) => Err(e),
            Ok(success) => {
                proof {
                    let w = choose|w: Seq<u8>|
                        success.spec_bytes() == Seq::<u8>::empty() + w
                            && #[trigger] value.serialized_as(w);
                    assert(success.spec_bytes() =~= w);
                }
                Ok(success.serializer.out)
            },
        }
    }

    /// Write one complete fixed-size pod for the canonical representation of
    /// `pod`.
    pub fn serialized_fixed_sized_pod<P: FixedSizedPod>(self, pod: &P) -> (r: Result<
        SerializeSuccess,
        SerializeError,
    >)
        ensures
            r is Ok,
            r matches Ok(s) ==> s.spec_bytes() == self.spec_bytes() + enc_pod(
                <P::CanonicalType as CanonicalFixedSizedPod>::spec_type(),
                pod.spec_as_canonical().spec_body(),
            ),
    {
        let mut ser = self;
        let c = pod.as_canonical_type();
        write_fixed_pod(&c, &mut ser.out);
        Ok(SerializeSuccess { serializer: ser })
    }

    /// Write one complete string pod: tag, length including the terminating
    /// zero byte, the bytes themselves, the zero byte, then padding.
    pub fn serialize_str(self, string: &str) -> (r: Result<SerializeSuccess, SerializeError>)
        ensures
            r is Ok <==> string.spec_bytes().len() + 1 <= u32::MAX,
            r matches Ok(s) ==> s.spec_bytes() == self.spec_bytes() + enc_pod(
                TYPE_STRING,
                string.spec_bytes() + seq![0u8],
            ),
    {
        let mut ser = self;
        match write_str_pod(string, &mut ser.out) {
            Err(e) => Err(e),
            Ok(()) => Ok(SerializeSuccess { serializer: ser }),
        }
    }

    /// Write one complete bytes pod: tag, length, the bytes themselves, then
    /// padding; no terminator is added.
    pub fn serialize_bytes(self, bytes: &[u8]) -> (r: Result<SerializeSuccess, SerializeError>)
        ensures
            r is Ok <==> bytes@.len() <= u32::MAX,
            r matches Ok(s) ==> s.spec_bytes() == self.spec_bytes() + enc_pod(TYPE_BYTES, bytes@),
    {
        let mut ser = self;
        match write_bytes_pod(bytes, &mut ser.out) {
            Err(e) => Err(e),
            Ok(()) => Ok(SerializeSuccess { serializer: ser }),
        }
    }

    /// Write one complete choice pod over elements of the canonical type `T`.
    pub fn serialize_choice<T: CanonicalFixedSizedPod>(self, choice: &Choice<T>) -> (r: Result<
        SerializeSuccess,
        SerializeError,
    >)
        ensures
            r is Ok <==> enc_choice_body(*choice).len() <= u32::MAX,
            r matches Ok(s) ==> s.spec_bytes() == self.spec_bytes() + enc_pod(
                TYPE_CHOICE,
                enc_choice_body(*choice),
            ),
    {
        let mut ser = self;
        match write_choice_pod(choice, &mut ser.out) {
            Err(e) => Err(e),
            Ok(()) => Ok(SerializeSuccess { serializer: ser }),
        }
    }

    /// Open a struct pod: the length field is reserved and back-patched when
    /// the returned sub-serializer is closed with
    /// [`StructPodSerializer::end`].
    pub fn serialize_struct(self) -> (r: Result<StructPodSerializer, SerializeError>)
        ensures
            r is Ok,
            r matches Ok(ss) ==> ss.wf() && ss.spec_bytes() == self.spec_bytes()
                + spec_u32_to_le_bytes(0) + spec_u32_to_le_bytes(TYPE_STRUCT)
                && ss.spec_header_pos() == self.spec_bytes().len(),
    {
        let mut ser = self;
        proof {
            vstd::bytes::lemma_auto_spec_u32_to_from_le_bytes();
        }
        let header_pos = ser.out.len();
        put_u32(&mut ser.out, 0);
        put_u32(&mut ser.out, TYPE_STRUCT);
        Ok(StructPodSerializer { serializer: Some(ser), header_pos })
    }

    /// Open an object pod with the given object type and subtype: the length
    /// field is reserved and back-patched when the returned sub-serializer is
    /// closed with [`ObjectPodSerializer::end`].
    pub fn serialize_object(self, object_type: u32, object_id: u32) -> (r: Result<
        ObjectPodSerializer,
        SerializeError,
    >)
        ensures
            r matches Ok(os) ==> os.wf() && os.spec_bytes() == self.spec_bytes()
                + spec_u32_to_le_bytes(0) + spec_u32_to_le_bytes(TYPE_OBJECT)
                + spec_u32_to_le_bytes(object_type) + spec_u32_to_le_bytes(object_id)
                && os.spec_header_pos() == self.spec_bytes().len(),
    {
        let mut ser = self;
        proof {
            vstd::bytes::lemma_auto_spec_u32_to_from_le_bytes();
        }
        let header_pos = ser.out.len();
        put_u32(&mut ser.out, 0);
        put_u32(&mut ser.out, TYPE_OBJECT);
        put_u32(&mut ser.out, object_type);
        put_u32(&mut ser.out, object_id);
        Ok(ObjectPodSerializer { serializer: Some(ser), header_pos })
    }

    /// Open an array pod over elements of type `E`: the outer length field is
    /// reserved, the element type header written, and the length
    /// back-patched when the returned sub-serializer is closed with
    /// [`ArrayPodSerializer::end`].
    pub fn serialize_array<E: FixedSizedPod>(self) -> (r: Result<
        ArrayPodSerializer<E>,
        SerializeError,
    >)
        ensures
            r is Ok,
            r matches Ok(ars) ==> ars.wf() && ars.spec_bytes() == self.spec_bytes()
                + spec_u32_to_le_bytes(0) + spec_u32_to_le_bytes(TYPE_ARRAY) + enc_header(
                <E::CanonicalType as CanonicalFixedSizedPod>::spec_size() as nat,
                <E::CanonicalType as CanonicalFixedSizedPod>::spec_type(),
            ) && ars.spec_header_pos() == self.spec_bytes().len(),
    {
        let mut ser = self;
        proof {
            vstd::bytes::lemma_auto_spec_u32_to_from_le_bytes();
        }
        let header_pos = ser.out.len();
        put_u32(&mut ser.out, 0);
        put_u32(&mut ser.out, TYPE_ARRAY);
        put_u32(&mut ser.out, <E::CanonicalType as CanonicalFixedSizedPod>::wire_size());
        put_u32(&mut ser.out, <E::CanonicalType as CanonicalFixedSizedPod>::wire_type());
        Ok(ArrayPodSerializer { serializer: Some(ser), header_pos, _phantom: core::marker::PhantomData })
    }
}

/// This struct handles serializing structs.
///
/// It can be obtained by calling [`PodSerializer::serialize_struct`].
///
/// The fields are written with
/// [`serialize_field`](Self::serialize_field); the struct must then be closed
/// with [`end`](Self::end), which back-patches the reserved length field.
pub struct StructPodSerializer {
    serializer: Option<PodSerializer>,
    header_pos: usize,
}

impl StructPodSerializer {
    /// The bytes written so far.
    pub closed spec fn spec_bytes(&self) -> Seq<u8> {
        self.serializer->Some_0.out@
    }

    /// Where the reserved length field stands in the buffer.
    pub closed spec fn spec_header_pos(&self) -> int {
        self.header_pos as int
    }

    /// The serializer is live and the reserved header lies in the buffer.
    pub closed spec fn wf(&self) -> bool {
        self.serializer is Some && self.header_pos + 8 <= self.spec_bytes().len()
    }

    /// Serialize a single field of the struct: any serializable value.
    pub fn serialize_field<P: PodSerialize + ?Sized>(&mut self, value: &P) -> (r: Result<
        (),
        SerializeError,
    >)
        requires
            old(self).wf(),
        ensures
            r is Ok ==> final(self).wf() && final(self).spec_header_pos() == old(
                self,
            ).spec_header_pos() && exists|w: Seq<u8>|
                final(self).spec_bytes() == old(self).spec_bytes() + w
                    && #[trigger] value.serialized_as(w),
    {
        let mut taken: Option<PodSerializer> = None;
        core::mem::swap(&mut self.serializer, &mut taken);
        match taken {
            None => Err(SerializeError::TooLarge),
            Some(ser) => {
                match value.serialize(ser) {
                    Err(e) => Err(e),
                    Ok(success) => {
                        self.serializer = Some(success.serializer);
                        Ok(())
                    },
                }
            },
        }
    }

    /// Finish serialization of the struct, back-patching its body length.
    ///
    /// No padding is added: each field is already a complete padded pod.
    pub fn end(self) -> (r: Result<SerializeSuccess, SerializeError>)
        requires
            self.wf(),
        ensures
            ({
                let body_len = self.spec_bytes().len() - self.spec_header_pos() - 8;
                r is Ok <==> body_len <= u32::MAX
            }),
            r matches Ok(s) ==> ({
                let hp = self.spec_header_pos();
                let body_len = self.spec_bytes().len() - hp - 8;
                s.spec_bytes() == self.spec_bytes().subrange(0, hp) + spec_u32_to_le_bytes(
                    body_len as u32,
                ) + self.spec_bytes().subrange(hp + 4, self.spec_bytes().len() as int)
            }),
    {
        match self.serializer {
            None => Err(SerializeError::TooLarge),
            Some(mut ser) => {
                let total = ser.out.len();
                let body_len = total - (self.header_pos + 8);
                if body_len > u32::MAX as usize {
                    return Err(SerializeError::TooLarge);
                }
                patch_u32(&mut ser.out, self.header_pos, body_len as u32);
                Ok(SerializeSuccess { serializer: ser })
            },
        }
    }
}

/// This struct handles serializing objects.
///
/// It can be obtained by calling [`PodSerializer::serialize_object`].
///
/// The properties are written in order with
/// [`serialize_property`](Self::serialize_property); the object must then be
/// closed with [`end`](Self::end), which back-patches the reserved length
/// field.
pub struct ObjectPodSerializer {
    serializer: Option<PodSerializer>,
    header_pos: usize,
}

impl ObjectPodSerializer {
    /// The bytes written so far.
    pub closed spec fn spec_bytes(&self) -> Seq<u8> {
        self.serializer->Some_0.out@
    }

    /// Where the reserved length field stands in the buffer.
    pub closed spec fn spec_header_pos(&self) -> int {
        self.header_pos as int
    }

    /// The serializer is live and the reserved header lies in the buffer.
    pub closed spec fn wf(&self) -> bool {
        self.serializer is Some && self.header_pos + 8 <= self.spec_bytes().len()
    }

    /// Serialize one property: its key, its flags, then its value as a
    /// complete pod.
    pub fn serialize_property<P: PodSerialize + ?Sized>(
        &mut self,
        key: u32,
        value: &P,
        flags: PropertyFlags,
    ) -> (r: Result<(), SerializeError>)
        requires
            old(self).wf(),
        ensures
            r is Ok ==> final(self).wf() && final(self).spec_header_pos() == old(
                self,
            ).spec_header_pos() && exists|w: Seq<u8>|
                final(self).spec_bytes() == old(self).spec_bytes() + spec_u32_to_le_bytes(key)
                    + spec_u32_to_le_bytes(flags.bits) + w && #[trigger] value.serialized_as(w),
    {
        let mut taken: Option<PodSerializer> = None;
        core::mem::swap(&mut self.serializer, &mut taken);
        match taken {
            None => Err(SerializeError::TooLarge),
            Some(mut ser) => {
                put_u32(&mut ser.out, key);
                put_u32(&mut ser.out, flags.bits);
                match value.serialize(ser) {
                    Err(e) => Err(e),
                    Ok(success) => {
                        self.serializer = Some(success.serializer);
                        proof {
                            vstd::bytes::lemma_auto_spec_u32_to_from_le_bytes();
                        }
                        Ok(())
                    },
                }
            },
        }
    }

    /// Finish serialization of the object, back-patching its body length.
    pub fn end(self) -> (r: Result<SerializeSuccess, SerializeError>)
        requires
            self.wf(),
        ensures
            ({
                let body_len = self.spec_bytes().len() - self.spec_header_pos() - 8;
                r is Ok <==> body_len <= u32::MAX
            }),
            r matches Ok(s) ==> ({
                let hp = self.spec_header_pos();
                let body_len = self.spec_bytes().len() - hp - 8;
                s.spec_bytes() == self.spec_bytes().subrange(0, hp) + spec_u32_to_le_bytes(
                    body_len as u32,
                ) + self.spec_bytes().subrange(hp + 4, self.spec_bytes().len() as int)
            }),
    {
        match self.serializer {
            None => Err(SerializeError::TooLarge),
            Some(mut ser) => {
                let total = ser.out.len();
                let body_len = total - (self.header_pos + 8);
                if body_len > u32::MAX as usize {
                    return Err(SerializeError::TooLarge);
                }
                patch_u32(&mut ser.out, self.header_pos, body_len as u32);
                Ok(SerializeSuccess { serializer: ser })
            },
        }
    }
}

/// This struct handles serializing arrays.
///
/// It can be obtained by calling [`PodSerializer::serialize_array`].
///
/// The elements are written with
/// [`serialize_element`](Self::serialize_element), which enforces that all
/// elements share the declared element type; the array must then be closed
/// with [`end`](Self::end), which back-patches the reserved length field and
/// emits the alignment padding.
pub struct ArrayPodSerializer<E: FixedSizedPod> {
    serializer: Option<PodSerializer>,
    header_pos: usize,
    /// The sub-serializer only accepts elements of type `E`, but owns none.
    _phantom: core::marker::PhantomData<E>,
}

impl<E: FixedSizedPod> ArrayPodSerializer<E> {
    /// The bytes written so far.
    pub closed spec fn spec_bytes(&self) -> Seq<u8> {
        self.serializer->Some_0.out@
    }

    /// Where the reserved length field stands in the buffer.
    pub closed spec fn spec_header_pos(&self) -> int {
        self.header_pos as int
    }

    /// The serializer is live and the reserved header lies in the buffer.
    pub closed spec fn wf(&self) -> bool {
        self.serializer is Some && self.header_pos + 8 <= self.spec_bytes().len()
    }

    /// Serialize one element: its body only, with no per-element padding.
    pub fn serialize_element(&mut self, element: &E) -> (r: Result<(), SerializeError>)
        requires
            old(self).wf(),
        ensures
            r is Ok,
            final(self).wf(),
            final(self).spec_bytes() == old(self).spec_bytes()
                + element.spec_as_canonical().spec_body(),
            final(self).spec_header_pos() == old(self).spec_header_pos(),
    {
        let mut taken: Option<PodSerializer> = None;
        core::mem::swap(&mut self.serializer, &mut taken);
        match taken {
            None => {
                proof {
                    assert(false);
                }
                Err(SerializeError::TooLarge)
            },
            Some(mut ser) => {
                let c = element.as_canonical_type();
                c.serialize_body(&mut ser.out);
                proof {
                    c.lemma_body_len();
                }
                self.serializer = Some(ser);
                Ok(())
            },
        }
    }

    /// Finish serialization of the array, back-patching its body length and
    /// emitting the alignment padding.
    pub fn end(self) -> (r: Result<SerializeSuccess, SerializeError>)
        requires
            self.wf(),
        ensures
            ({
                let body_len = self.spec_bytes().len() - self.spec_header_pos() - 8;
                r is Ok <==> body_len <= u32::MAX
            }),
            r matches Ok(s) ==> ({
                let hp = self.spec_header_pos();
                let body_len = self.spec_bytes().len() - hp - 8;
                s.spec_bytes() == self.spec_bytes().subrange(0, hp) + spec_u32_to_le_bytes(
                    body_len as u32,
                ) + self.spec_bytes().subrange(hp + 4, self.spec_bytes().len() as int) + zeros(
                    pad_len(body_len as nat),
                )
            }),
    {
        match self.serializer {
            None => Err(SerializeError::TooLarge),
            Some(mut ser) => {
                let total = ser.out.len();
                let body_len = total - (self.header_pos + 8);
                if body_len > u32::MAX as usize {
                    return Err(SerializeError::TooLarge);
                }
                patch_u32(&mut ser.out, self.header_pos, body_len as u32);
                let p = pad_of(body_len % 8);
                put_zeros(&mut ser.out, p);
                Ok(SerializeSuccess { serializer: ser })
            },
        }
    }
}

impl<T: FixedSizedPod> PodSerialize for T {
    open spec fn serializable(&self) -> bool {
        true
    }

    open spec fn serialized_as(&self, w: Seq<u8>) -> bool {
        w == enc_pod(
            <T::CanonicalType as CanonicalFixedSizedPod>::spec_type(),
            self.spec_as_canonical().spec_body(),
        )
    }

    fn serialize(&self, serializer: PodSerializer) -> (r: Result<SerializeSuccess, SerializeError>)
        ensures
            r is Ok <==> self.serializable(),
    {
        let r = serializer.serialized_fixed_sized_pod(self);
        proof {
            if r is Ok {
                assert(self.serialized_as(enc_pod(
                    <T::CanonicalType as CanonicalFixedSizedPod>::spec_type(),
                    self.spec_as_canonical().spec_body(),
                )));
            }
        }
        r
    }
}

// Serialize into a `String` type pod.
impl PodSerialize for str {
    open spec fn serializable(&self) -> bool {
        self.spec_bytes().len() + 1 <= u32::MAX
    }

    open spec fn serialized_as(&self, w: Seq<u8>) -> bool {
        w == enc_pod(TYPE_STRING, self.spec_bytes() + seq![0u8])
    }

    fn serialize(&self, serializer: PodSerializer) -> (r: Result<SerializeSuccess, SerializeError>)
        ensures
            r is Ok <==> self.serializable(),
    {
        let r = serializer.serialize_str(self);
        proof {
            if r is Ok {
                assert(self.serialized_as(enc_pod(TYPE_STRING, self.spec_bytes() + seq![0u8])));
            }
        }
        r
    }
}

// Serialize into a `Bytes` type pod.
impl PodSerialize for [u8] {
    open spec fn serializable(&self) -> bool {
        self@.len() <= u32::MAX
    }

    open spec fn serialized_as(&self, w: Seq<u8>) -> bool {
        w == enc_pod(TYPE_BYTES, self@)
    }

    fn serialize(&self, serializer: PodSerializer) -> (r: Result<SerializeSuccess, SerializeError>)
        ensures
            r is Ok <==> self.serializable(),
    {
        let r = serializer.serialize_bytes(self);
        proof {
            if r is Ok {
                assert(self.serialized_as(enc_pod(TYPE_BYTES, self@)));
            }
        }
        r
    }
}

// Serialize a slice of fixed-size values into an `Array` type pod.
impl<P: FixedSizedPod> PodSerialize for [P] {
    open spec fn serializable(&self) -> bool {
        8 + enc_bodies(self@.map_values(|p: P| p.spec_as_canonical())).len() <= u32::MAX
    }

    open spec fn serialized_as(&self, w: Seq<u8>) -> bool {
        w == enc_pod(
            TYPE_ARRAY,
            enc_header(
                <P::CanonicalType as CanonicalFixedSizedPod>::spec_size() as nat,
                <P::CanonicalType as CanonicalFixedSizedPod>::spec_type(),
            ) + enc_bodies(self@.map_values(|p: P| p.spec_as_canonical())),
        )
    }

    fn serialize(&self, serializer: PodSerializer) -> (r: Result<SerializeSuccess, SerializeError>)
        ensures
            r is Ok <==> self.serializable(),
    {
        let ghost before = serializer.spec_bytes();
        let ghost canon = self@.map_values(|p: P| p.spec_as_canonical());
        let ghost opener = spec_u32_to_le_bytes(0) + spec_u32_to_le_bytes(TYPE_ARRAY)
            + enc_header(
            <P::CanonicalType as CanonicalFixedSizedPod>::spec_size() as nat,
            <P::CanonicalType as CanonicalFixedSizedPod>::spec_type(),
        );
        let mut arr = match serializer.serialize_array::<P>() {
            Err(e) => {
                return Err(e);
            },
            Ok(a) => a,
        };
        let n = self.len();
        let mut i: usize = 0;
        proof {
            assert(canon.take(0) =~= Seq::<P::CanonicalType>::empty());
            assert(arr.spec_bytes() =~= before + opener + enc_bodies(canon.take(0)));
        }
        while i < n
            invariant
                i <= n,
                n == self@.len(),
                canon == self@.map_values(|p: P| p.spec_as_canonical()),
                arr.wf(),
                arr.spec_header_pos() == before.len(),
                arr.spec_bytes() == before + opener + enc_bodies(canon.take(i as int)),
            decreases n - i,
        {
            match arr.serialize_element(vstd::slice::slice_index_get(self, i)) {
                Err(e) => {
                    return Err(e);
                },
                Ok(()) => {},
            }
            proof {
                lemma_enc_bodies_step(canon, i as int);
                assert(canon[i as int] == self@[i as int].spec_as_canonical());
                assert(arr.spec_bytes() =~= before + opener + enc_bodies(canon.take(i + 1)));
            }
            i = i + 1;
        }
        proof {
            assert(canon.take(n as int) =~= canon);
        }
        let ghost closing = arr.spec_bytes();
        let r = arr.end();
        proof {
            vstd::bytes::lemma_auto_spec_u32_to_from_le_bytes();
            assert(closing.len() - before.len() - 8 == 8 + enc_bodies(canon).len());
            if r is Ok {
                let body = enc_header(
                    <P::CanonicalType as CanonicalFixedSizedPod>::spec_size() as nat,
                    <P::CanonicalType as CanonicalFixedSizedPod>::spec_type(),
                ) + enc_bodies(canon);
                let out = r->Ok_0.spec_bytes();
                let hp = before.len() as int;
                let body_len = closing.len() - hp - 8;
                assert(body.len() == body_len);
                assert(closing.subrange(0, hp) =~= before);
                assert(closing.subrange(hp + 4, closing.len() as int) =~= spec_u32_to_le_bytes(
                    TYPE_ARRAY,
                ) + body);
                assert(out =~= before + enc_pod(TYPE_ARRAY, body));
                assert(self.serialized_as(enc_pod(TYPE_ARRAY, body)));
            }
        }
        r
    }
}

// Serialize into a `Choice` type pod.
impl<T: CanonicalFixedSizedPod> PodSerialize for Choice<T> {
    open spec fn serializable(&self) -> bool {
        enc_choice_body(*self).len() <= u32::MAX
    }

    open spec fn serialized_as(&self, w: Seq<u8>) -> bool {
        w == enc_pod(TYPE_CHOICE, enc_choice_body(*self))
    }

    fn serialize(&self, serializer: PodSerializer) -> (r: Result<SerializeSuccess, SerializeError>)
        ensures
            r is Ok <==> self.serializable(),
    {
        let r = serializer.serialize_choice(self);
        proof {
            if r is Ok {
                assert(self.serialized_as(enc_pod(TYPE_CHOICE, enc_choice_body(*self))));
            }
        }
        r
    }
}

// Serialize the dynamically typed value model into whatever pod it holds.
impl PodSerialize for Value {
    open spec fn serializable(&self) -> bool {
        body_ok(*self)
    }

    open spec fn serialized_as(&self, w: Seq<u8>) -> bool {
        w == enc_value(*self)
    }

    fn serialize(&self, serializer: PodSerializer) -> (r: Result<SerializeSuccess, SerializeError>)
        ensures
            r is Ok <==> self.serializable(),
    {
        let mut ser = serializer;
        match write_value(self, &mut ser.out) {
            Err(e) => Err(e),
            Ok(()) => {
                proof {
                    assert(self.serialized_as(enc_value(*self)));
                }
                Ok(SerializeSuccess { serializer: ser })
            },
        }
    }
}

} // verus!

