//! Laws the codec obeys, stated and proved once for all inputs.

use vstd::prelude::*;
use vstd::bytes::{spec_u32_to_le_bytes, lemma_auto_spec_u32_to_from_le_bytes,
    lemma_auto_spec_u64_to_from_le_bytes};

use crate::pod::wire::{enc_header, enc_pod, pad_len};
use crate::pod::{
    body_ok, choice_entries, choice_kind_of, dec_body_seq, dec_choice_rel, dec_fields_rel,
    dec_fields_shape, dec_props_rel, dec_props_shape, dec_shape, dec_u32, dec_value_rel,
    enc_bodies, enc_choice_body, enc_fields, enc_props, enc_value, fields_ok, fixed_size_of,
    props_ok, CanonicalFixedSizedPod, DecodeErrorKind, Property, Value, ValueArray, ChoiceValue,
    CHOICE_NONE, TYPE_STRUCT,
};
use crate::pod::deserialize::{
    array_pod_ok, bytes_pod_ok, choice_pod_ok, fixed_pod_ok, string_pod_ok,
};
use crate::pod::serialize::{
    lemma_enc_bodies_len, lemma_enc_fields_aligned, lemma_enc_pod_aligned,
    lemma_enc_props_aligned, lemma_enc_value_aligned, lemma_pad_align,
};
use crate::utils::{Choice, ChoiceEnum};

verus! {

/// A window of `b` equal to `e` agrees with `e` on every sub-window.
proof fn lemma_sub_sub(b: Seq<u8>, at: int, e: Seq<u8>, x: int, y: int)
    requires
        0 <= at,
        at + e.len() <= b.len(),
        b.subrange(at, at + e.len() as int) == e,
        0 <= x <= y <= e.len(),
    ensures
        b.subrange(at + x, at + y) == e.subrange(x, y),
{
    assert forall|i: int| 0 <= i < y - x implies b.subrange(at + x, at + y)[i] == e.subrange(
        x,
        y,
    )[i] by {
        assert(b.subrange(at, at + e.len() as int)[x + i] == e[x + i]);
    }
    assert(b.subrange(at + x, at + y) =~= e.subrange(x, y));
}

/// An encoded pod, embedded at offset `at`, starts with its body length and
/// type tag and carries its body at offset `at + 8`.
proof fn lemma_enc_pod_parts_at(b: Seq<u8>, at: int, ty: u32, body: Seq<u8>)
    requires
        0 <= at,
        at + enc_pod(ty, body).len() <= b.len(),
        b.subrange(at, at + enc_pod(ty, body).len() as int) == enc_pod(ty, body),
        body.len() <= u32::MAX,
    ensures
        enc_pod(ty, body).len() == 8 + body.len() + pad_len(body.len()),
        dec_u32(b, at) == body.len(),
        dec_u32(b, at + 4) == ty,
        b.subrange(at + 8, at + 8 + body.len() as int) == body,
{
    lemma_auto_spec_u32_to_from_le_bytes();
    let e = enc_pod(ty, body);
    assert(e.subrange(0, 4) =~= spec_u32_to_le_bytes(body.len() as u32));
    assert(e.subrange(4, 8) =~= spec_u32_to_le_bytes(ty));
    assert(e.subrange(8, 8 + body.len() as int) =~= body);
    lemma_sub_sub(b, at, e, 0, 4);
    lemma_sub_sub(b, at, e, 4, 8);
    lemma_sub_sub(b, at, e, 8, 8 + body.len() as int);
}

/// Contiguous bodies embedded at offset `start` decode back to the values
/// they were encoded from.
proof fn lemma_dec_body_seq_at<T: CanonicalFixedSizedPod>(s: Seq<T>, b: Seq<u8>, start: int)
    requires
        0 <= start,
        start + enc_bodies(s).len() <= b.len(),
        b.subrange(start, start + enc_bodies(s).len() as int) == enc_bodies(s),
    ensures
        dec_body_seq::<T>(b, start, s.len() as int) == s,
    decreases s.len(),
{
    let sz = T::spec_size() as int;
    let n = s.len() as int;
    lemma_enc_bodies_len::<T>(s);
    if s.len() == 0 {
        assert(dec_body_seq::<T>(b, start, 0) =~= s);
    } else {
        s[0].lemma_body_len();
        lemma_enc_bodies_len::<T>(s.drop_first());
        assert((n - 1) * sz + sz == n * sz) by (nonlinear_arith);
        assert((n - 1) * sz >= 0) by (nonlinear_arith)
            requires n >= 1, sz >= 0;
        assert(enc_bodies(s).subrange(0, sz) =~= s[0].spec_body());
        lemma_sub_sub(b, start, enc_bodies(s), 0, sz);
        s[0].lemma_body_round_trip();
        assert(enc_bodies(s).subrange(sz, n * sz) =~= enc_bodies(s.drop_first()));
        lemma_sub_sub(b, start, enc_bodies(s), sz, n * sz);
        lemma_dec_body_seq_at::<T>(s.drop_first(), b, start + sz);
        let d = dec_body_seq::<T>(b, start, n);
        assert forall|i: int| 0 <= i < n implies d[i] == s[i] by {
            if i == 0 {
                assert(b.subrange(start, start + sz) =~= b.subrange(start + 0 * sz, start + 0
                    * sz + sz));
            } else {
                assert(i * sz == sz + (i - 1) * sz) by (nonlinear_arith);
                assert(dec_body_seq::<T>(b, start + sz, n - 1)[i - 1] == s.drop_first()[i - 1]);
            }
        }
        assert(d =~= s);
    }
}

/// Whether every element count in `v` can be derived again from the body
/// lengths on the wire.  This excludes exactly one degenerate family: a
/// non-empty array of `None` pods, whose elements occupy zero bytes and
/// whose count is therefore not recoverable.
pub open spec fn counts_derivable(v: Value) -> bool
    decreases v,
{
    match v {
        Value::ValueArray(a) => match a {
            ValueArray::Unit(xs) => xs@.len() == 0,
            _ => true,
        },
        Value::Struct(fields) => fields_counts_derivable(fields@),
        Value::Object(o) => props_counts_derivable(o.properties@),
        _ => true,
    }
}

/// [`counts_derivable`], over every field of a struct pod.
pub open spec fn fields_counts_derivable(fields: Seq<Value>) -> bool
    decreases fields,
{
    fields.len() == 0 || (counts_derivable(fields[0]) && fields_counts_derivable(
        fields.drop_first(),
    ))
}

/// [`counts_derivable`], over the value of every property of an object pod.
pub open spec fn props_counts_derivable(props: Seq<Property>) -> bool
    decreases props,
{
    props.len() == 0 || (counts_derivable(props[0].value) && props_counts_derivable(
        props.drop_first(),
    ))
}

/// An embedded array pod over elements of the canonical type `T` decodes
/// back to its elements, their count derived from the body length.
proof fn lemma_array_round_trip_at<T: CanonicalFixedSizedPod>(s: Seq<T>, b: Seq<u8>, at: int)
    requires
        fixed_size_of(T::spec_type()) == T::spec_size(),
        T::spec_size() > 0 || s.len() == 0,
        8 + enc_bodies(s).len() <= u32::MAX,
        0 <= at,
        at + enc_pod(
            crate::pod::TYPE_ARRAY,
            enc_header(T::spec_size() as nat, T::spec_type()) + enc_bodies(s),
        ).len() <= b.len(),
        b.subrange(
            at,
            at + enc_pod(
                crate::pod::TYPE_ARRAY,
                enc_header(T::spec_size() as nat, T::spec_type()) + enc_bodies(s),
            ).len() as int,
        ) == enc_pod(
            crate::pod::TYPE_ARRAY,
            enc_header(T::spec_size() as nat, T::spec_type()) + enc_bodies(s),
        ),
    ensures
        ({
            let e = enc_pod(
                crate::pod::TYPE_ARRAY,
                enc_header(T::spec_size() as nat, T::spec_type()) + enc_bodies(s),
            );
            let esz = T::spec_size() as int;
            let size = dec_u32(b, at) as int;
            let n = if esz == 0 { 0int } else { (size - 8) / esz };
            &&& dec_shape(b, at) == Ok::<int, DecodeErrorKind>(e.len() as int)
            &&& dec_u32(b, at + 4) == crate::pod::TYPE_ARRAY
            &&& dec_u32(b, at + 8) == T::spec_size()
            &&& dec_u32(b, at + 12) == T::spec_type()
            &&& n == s.len()
            &&& dec_body_seq::<T>(b, at + 16, n) == s
        }),
{
    lemma_auto_spec_u32_to_from_le_bytes();
    let esz = T::spec_size() as int;
    let body = enc_header(T::spec_size() as nat, T::spec_type()) + enc_bodies(s);
    let e = enc_pod(crate::pod::TYPE_ARRAY, body);
    lemma_enc_bodies_len::<T>(s);
    lemma_enc_pod_parts_at(b, at, crate::pod::TYPE_ARRAY, body);
    assert(body.subrange(0, 4) =~= spec_u32_to_le_bytes(T::spec_size()));
    assert(body.subrange(4, 8) =~= spec_u32_to_le_bytes(T::spec_type()));
    lemma_sub_sub(b, at + 8, body, 0, 4);
    lemma_sub_sub(b, at + 8, body, 4, 8);
    let size = dec_u32(b, at) as int;
    assert(size == 8 + s.len() * esz);
    if esz > 0 {
        vstd::arithmetic::div_mod::lemma_div_by_multiple(s.len() as int, esz);
    }
    let n = if esz == 0 { 0int } else { (size - 8) / esz };
    assert(n == s.len());
    assert(body.subrange(8, body.len() as int) =~= enc_bodies(s));
    lemma_sub_sub(b, at + 8, body, 8, body.len() as int);
    lemma_dec_body_seq_at::<T>(s, b, at + 16);
    lemma_pad_align(body.len());
}

/// An embedded choice pod over elements of the canonical type `T` decodes
/// back to the choice it was encoded from.
proof fn lemma_choice_round_trip_at<T: CanonicalFixedSizedPod>(c: Choice<T>, b: Seq<u8>, at: int)
    requires
        fixed_size_of(T::spec_type()) == T::spec_size(),
        T::spec_size() > 0,
        T::spec_type() != crate::pod::TYPE_BOOL,
        enc_choice_body(c).len() <= u32::MAX,
        0 <= at,
        at + enc_pod(crate::pod::TYPE_CHOICE, enc_choice_body(c)).len() <= b.len(),
        b.subrange(
            at,
            at + enc_pod(crate::pod::TYPE_CHOICE, enc_choice_body(c)).len() as int,
        ) == enc_pod(crate::pod::TYPE_CHOICE, enc_choice_body(c)),
    ensures
        ({
            let e = enc_pod(crate::pod::TYPE_CHOICE, enc_choice_body(c));
            let esz = T::spec_size() as int;
            let size = dec_u32(b, at) as int;
            let n = (size - 16) / esz;
            &&& dec_shape(b, at) == Ok::<int, DecodeErrorKind>(e.len() as int)
            &&& dec_u32(b, at + 4) == crate::pod::TYPE_CHOICE
            &&& dec_u32(b, at + 16) == T::spec_size()
            &&& dec_u32(b, at + 20) == T::spec_type()
            &&& dec_choice_rel::<T>(b, at, dec_u32(b, at + 8), dec_u32(b, at + 12), n, c)
        }),
{
    lemma_auto_spec_u32_to_from_le_bytes();
    let esz = T::spec_size() as int;
    let entries = choice_entries(c.1);
    let body = enc_choice_body(c);
    let e = enc_pod(crate::pod::TYPE_CHOICE, body);
    lemma_enc_bodies_len::<T>(entries);
    lemma_enc_pod_parts_at(b, at, crate::pod::TYPE_CHOICE, body);
    assert(body.subrange(0, 4) =~= spec_u32_to_le_bytes(choice_kind_of(c.1)));
    assert(body.subrange(4, 8) =~= spec_u32_to_le_bytes(c.0.bits));
    assert(body.subrange(8, 12) =~= spec_u32_to_le_bytes(T::spec_size()));
    assert(body.subrange(12, 16) =~= spec_u32_to_le_bytes(T::spec_type()));
    lemma_sub_sub(b, at + 8, body, 0, 4);
    lemma_sub_sub(b, at + 8, body, 4, 8);
    lemma_sub_sub(b, at + 8, body, 8, 12);
    lemma_sub_sub(b, at + 8, body, 12, 16);
    let size = dec_u32(b, at) as int;
    assert(size == 16 + entries.len() * esz);
    vstd::arithmetic::div_mod::lemma_div_by_multiple(entries.len() as int, esz);
    let n = (size - 16) / esz;
    assert(n == entries.len());
    assert(body.subrange(16, body.len() as int) =~= enc_bodies(entries));
    lemma_sub_sub(b, at + 8, body, 16, body.len() as int);
    lemma_dec_body_seq_at::<T>(entries, b, at + 24);
    let es = dec_body_seq::<T>(b, at + 24, n);
    assert(es == entries);
    lemma_pad_align(body.len());
    match c.1 {
        ChoiceEnum::Fixed(x) => {
            assert(entries[0] == x);
        },
        ChoiceEnum::Range { default, min, max } => {
            assert(entries[0] == default && entries[1] == min && entries[2] == max);
        },
        ChoiceEnum::Step { default, min, max, step } => {
            assert(entries[0] == default && entries[1] == min && entries[2] == max && entries[3]
                == step);
        },
        ChoiceEnum::Enum { default, alternatives } => {
            assert(entries[0] == default);
            assert(entries.skip(1) =~= alternatives@);
        },
        ChoiceEnum::Flags { default, flags } => {
            assert(entries[0] == default);
            assert(entries.skip(1) =~= flags@);
        },
    }
}

/// Whether a value is one of the canonical scalars, a string, or a byte
/// blob: the shapes whose pods carry no nested pod.
pub open spec fn is_leaf_value(v: Value) -> bool {
    match v {
        Value::Unit => true,
        Value::Bool(_) => true,
        Value::Id(_) => true,
        Value::Int(_) => true,
        Value::Long(_) => true,
        Value::Float(_) => true,
        Value::Double(_) => true,
        Value::Rectangle(_) => true,
        Value::Fraction(_) => true,
        Value::Fd(_) => true,
        Value::String(_) => true,
        Value::Bytes(_) => true,
        _ => false,
    }
}

/// Round-trip for the leaf shapes: canonical scalars, strings, byte blobs.
proof fn lemma_leaf_round_trip_at(v: Value, b: Seq<u8>, at: int)
    requires
        is_leaf_value(v),
        body_ok(v),
        0 <= at,
        at + enc_value(v).len() <= b.len(),
        b.subrange(at, at + enc_value(v).len() as int) == enc_value(v),
    ensures
        dec_shape(b, at) == Ok::<int, DecodeErrorKind>(enc_value(v).len() as int),
        dec_value_rel(b, at, v),
{
    lemma_auto_spec_u32_to_from_le_bytes();
    lemma_auto_spec_u64_to_from_le_bytes();
    match v {
        Value::Unit => {
            lemma_enc_pod_parts_at(b, at, crate::pod::TYPE_NONE, ().spec_body());
            ().lemma_body_round_trip();
            ().lemma_body_len();
        },
        Value::Bool(x) => {
            lemma_enc_pod_parts_at(b, at, crate::pod::TYPE_BOOL, x.spec_body());
            x.lemma_body_round_trip();
            x.lemma_body_len();
        },
        Value::Id(x) => {
            lemma_enc_pod_parts_at(b, at, crate::pod::TYPE_ID, x.spec_body());
            x.lemma_body_round_trip();
            x.lemma_body_len();
        },
        Value::Int(x) => {
            lemma_enc_pod_parts_at(b, at, crate::pod::TYPE_INT, x.spec_body());
            x.lemma_body_round_trip();
            x.lemma_body_len();
        },
        Value::Long(x) => {
            lemma_enc_pod_parts_at(b, at, crate::pod::TYPE_LONG, x.spec_body());
            x.lemma_body_round_trip();
            x.lemma_body_len();
        },
        Value::Float(x) => {
            lemma_enc_pod_parts_at(b, at, crate::pod::TYPE_FLOAT, x.spec_body());
            x.lemma_body_round_trip();
            x.lemma_body_len();
        },
        Value::Double(x) => {
            lemma_enc_pod_parts_at(b, at, crate::pod::TYPE_DOUBLE, x.spec_body());
            x.lemma_body_round_trip();
            x.lemma_body_len();
        },
        Value::Rectangle(x) => {
            lemma_enc_pod_parts_at(b, at, crate::pod::TYPE_RECTANGLE, x.spec_body());
            x.lemma_body_round_trip();
            x.lemma_body_len();
        },
        Value::Fraction(x) => {
            lemma_enc_pod_parts_at(b, at, crate::pod::TYPE_FRACTION, x.spec_body());
            x.lemma_body_round_trip();
            x.lemma_body_len();
        },
        Value::Fd(x) => {
            lemma_enc_pod_parts_at(b, at, crate::pod::TYPE_FD, x.spec_body());
            x.lemma_body_round_trip();
            x.lemma_body_len();
        },
        Value::String(s) => {
            let bytes = vstd::utf8::encode_utf8(s@);
            let body = bytes + seq![0u8];
            lemma_enc_pod_parts_at(b, at, crate::pod::TYPE_STRING, body);
            let size = body.len() as int;
            assert(b.subrange(at + 8, at + 8 + size)[size - 1] == 0);
            assert(b[at + 8 + size - 1] == 0);
            assert(body.subrange(0, size - 1) =~= bytes);
            lemma_sub_sub(b, at + 8, body, 0, size - 1);
            vstd::utf8::encode_utf8_valid_utf8(s@);
            vstd::utf8::encode_utf8_decode_utf8(s@);
        },
        Value::Bytes(bs) => {
            lemma_enc_pod_parts_at(b, at, crate::pod::TYPE_BYTES, bs@);
        },
        _ => {
        },
    }
}

/// Round-trip: decoding an encoded value, embedded anywhere in a buffer,
/// succeeds, consumes exactly the encoding, and relates back to the value.
#[verifier::rlimit(100)]
pub proof fn lemma_value_round_trip_at(v: Value, b: Seq<u8>, at: int)
    requires
        body_ok(v),
        counts_derivable(v),
        0 <= at,
        at + enc_value(v).len() <= b.len(),
        b.subrange(at, at + enc_value(v).len() as int) == enc_value(v),
    ensures
        dec_shape(b, at) == Ok::<int, DecodeErrorKind>(enc_value(v).len() as int),
        dec_value_rel(b, at, v),
    decreases v,
{
    lemma_auto_spec_u32_to_from_le_bytes();
    match v {
        Value::ValueArray(a) => {
            match a {
                ValueArray::Unit(xs) => {
                    assert(xs@.len() == 0);
                    assert(enc_bodies(xs@) =~= Seq::<u8>::empty());
                    lemma_array_round_trip_at::<()>(xs@, b, at);
                    assert(dec_body_seq::<()>(b, at + 16, 0) =~= xs@);
                },
                ValueArray::Bool(xs) => {
                    lemma_array_round_trip_at::<bool>(xs@, b, at);
                },
                ValueArray::Id(xs) => {
                    lemma_array_round_trip_at::<crate::utils::Id>(xs@, b, at);
                },
                ValueArray::Int(xs) => {
                    lemma_array_round_trip_at::<i32>(xs@, b, at);
                },
                ValueArray::Long(xs) => {
                    lemma_array_round_trip_at::<i64>(xs@, b, at);
                },
                ValueArray::Float(xs) => {
                    lemma_array_round_trip_at::<crate::utils::FloatBits>(xs@, b, at);
                },
                ValueArray::Double(xs) => {
                    lemma_array_round_trip_at::<crate::utils::DoubleBits>(xs@, b, at);
                },
                ValueArray::Rectangle(xs) => {
                    lemma_array_round_trip_at::<crate::utils::Rectangle>(xs@, b, at);
                },
                ValueArray::Fraction(xs) => {
                    lemma_array_round_trip_at::<crate::utils::Fraction>(xs@, b, at);
                },
                ValueArray::Fd(xs) => {
                    lemma_array_round_trip_at::<crate::utils::Fd>(xs@, b, at);
                },
            }
        },
        Value::Choice(cv) => {
            match cv {
                ChoiceValue::Int(c) => {
                    lemma_choice_round_trip_at::<i32>(c, b, at);
                },
                ChoiceValue::Long(c) => {
                    lemma_choice_round_trip_at::<i64>(c, b, at);
                },
                ChoiceValue::Float(c) => {
                    lemma_choice_round_trip_at::<crate::utils::FloatBits>(c, b, at);
                },
                ChoiceValue::Double(c) => {
                    lemma_choice_round_trip_at::<crate::utils::DoubleBits>(c, b, at);
                },
                ChoiceValue::Id(c) => {
                    lemma_choice_round_trip_at::<crate::utils::Id>(c, b, at);
                },
                ChoiceValue::Rectangle(c) => {
                    lemma_choice_round_trip_at::<crate::utils::Rectangle>(c, b, at);
                },
                ChoiceValue::Fraction(c) => {
                    lemma_choice_round_trip_at::<crate::utils::Fraction>(c, b, at);
                },
                ChoiceValue::Fd(c) => {
                    lemma_choice_round_trip_at::<crate::utils::Fd>(c, b, at);
                },
            }
        },
        Value::Struct(fields) => {
            let body = enc_fields(fields@);
            lemma_enc_pod_parts_at(b, at, TYPE_STRUCT, body);
            lemma_enc_fields_aligned(fields@);
            assert(pad_len(body.len()) == 0);
            lemma_fields_round_trip_at(fields@, b, at + 8, at + 8 + body.len() as int);
        },
        Value::Object(o) => {
            let body = spec_u32_to_le_bytes(o.type_) + spec_u32_to_le_bytes(o.id) + enc_props(
                o.properties@,
            );
            lemma_enc_pod_parts_at(b, at, crate::pod::TYPE_OBJECT, body);
            assert(body.subrange(0, 4) =~= spec_u32_to_le_bytes(o.type_));
            assert(body.subrange(4, 8) =~= spec_u32_to_le_bytes(o.id));
            lemma_sub_sub(b, at + 8, body, 0, 4);
            lemma_sub_sub(b, at + 8, body, 4, 8);
            lemma_enc_props_aligned(o.properties@);
            assert(pad_len(body.len()) == 0);
            assert(body.subrange(8, body.len() as int) =~= enc_props(o.properties@));
            lemma_sub_sub(b, at + 8, body, 8, body.len() as int);
            lemma_props_round_trip_at(o.properties@, b, at + 16, at + 8 + body.len() as int);
        },
        _ => {
            lemma_leaf_round_trip_at(v, b, at);
        },
    }
}

/// Encoded fields, embedded as a struct body, decode back to the fields.
proof fn lemma_fields_round_trip_at(fields: Seq<Value>, b: Seq<u8>, pos: int, end: int)
    requires
        fields_ok(fields),
        fields_counts_derivable(fields),
        0 <= pos,
        pos + enc_fields(fields).len() == end,
        end <= b.len(),
        b.subrange(pos, end) == enc_fields(fields),
    ensures
        dec_fields_shape(b, pos, end) == Ok::<(), DecodeErrorKind>(()),
        dec_fields_rel(b, pos, end, fields),
    decreases fields,
{
    if fields.len() == 0 {
    } else {
        let e0 = enc_value(fields[0]);
        lemma_enc_value_aligned(fields[0]);
        assert(enc_fields(fields).subrange(0, e0.len() as int) =~= e0);
        lemma_sub_sub(b, pos, enc_fields(fields), 0, e0.len() as int);
        lemma_value_round_trip_at(fields[0], b, pos);
        assert(enc_fields(fields).subrange(e0.len() as int, enc_fields(fields).len() as int)
            =~= enc_fields(fields.drop_first()));
        lemma_sub_sub(b, pos, enc_fields(fields), e0.len() as int, enc_fields(
            fields,
        ).len() as int);
        lemma_fields_round_trip_at(fields.drop_first(), b, pos + e0.len() as int, end);
    }
}

/// Encoded properties, embedded as the property part of an object body,
/// decode back to the properties, in order.
proof fn lemma_props_round_trip_at(props: Seq<Property>, b: Seq<u8>, pos: int, end: int)
    requires
        props_ok(props),
        props_counts_derivable(props),
        0 <= pos,
        pos + enc_props(props).len() == end,
        end <= b.len(),
        b.subrange(pos, end) == enc_props(props),
    ensures
        dec_props_shape(b, pos, end) == Ok::<(), DecodeErrorKind>(()),
        dec_props_rel(b, pos, end, props),
    decreases props,
{
    lemma_auto_spec_u32_to_from_le_bytes();
    if props.len() == 0 {
    } else {
        let ep = enc_props(props);
        let e0 = enc_value(props[0].value);
        lemma_enc_value_aligned(props[0].value);
        assert(ep.subrange(0, 4) =~= spec_u32_to_le_bytes(props[0].key));
        assert(ep.subrange(4, 8) =~= spec_u32_to_le_bytes(props[0].flags.bits));
        assert(ep.subrange(8, 8 + e0.len() as int) =~= e0);
        lemma_sub_sub(b, pos, ep, 0, 4);
        lemma_sub_sub(b, pos, ep, 4, 8);
        lemma_sub_sub(b, pos, ep, 8, 8 + e0.len() as int);
        lemma_value_round_trip_at(props[0].value, b, pos + 8);
        assert(ep.subrange(8 + e0.len() as int, ep.len() as int) =~= enc_props(
            props.drop_first(),
        ));
        lemma_sub_sub(b, pos, ep, 8 + e0.len() as int, ep.len() as int);
        lemma_props_round_trip_at(props.drop_first(), b, pos + 8 + e0.len() as int, end);
    }
}

/// Round-trip at the boundary: for every value whose element counts the wire
/// can carry, decoding the encoding succeeds, consumes it entirely, and
/// yields the value back.
///
/// Together with the contracts of [`crate::pod::serialize::encode`] and
/// [`crate::pod::deserialize::PodDeserializer::deserialize_any_from`], this
/// says that `deserialize_any_from(encode(v))` returns `Ok` with an empty
/// rest and a value whose contents equal `v`.
pub proof fn lemma_value_round_trip(v: Value)
    requires
        body_ok(v),
        counts_derivable(v),
    ensures
        dec_shape(enc_value(v), 0) == Ok::<int, DecodeErrorKind>(enc_value(v).len() as int),
        dec_value_rel(enc_value(v), 0, v),
{
    let b = enc_value(v);
    assert(b.subrange(0, b.len() as int) =~= b);
    lemma_value_round_trip_at(v, b, 0);
}

/// Round-trip on the typed path: the pod a canonical scalar value serializes
/// into (the `serialized_as` bytes of its fixed-size `PodSerialize`
/// implementation) is accepted by the typed decode, wholly consumed, and its
/// body reads back as the same value, which is what `decoded_from` of the
/// fixed-size `PodDeserialize` implementation states of the result.
pub proof fn lemma_typed_scalar_round_trip<T: CanonicalFixedSizedPod>(x: T)
    ensures
        ({
            let w = enc_pod(T::spec_type(), x.spec_body());
            &&& dec_shape(w, 0) == Ok::<int, DecodeErrorKind>(w.len() as int)
            &&& fixed_pod_ok::<T>(w, 0)
            &&& T::spec_from_body(w.subrange(8, 8 + T::spec_size())) == x
        }),
{
    lemma_auto_spec_u32_to_from_le_bytes();
    T::lemma_tag_size();
    x.lemma_body_len();
    x.lemma_body_round_trip();
    let w = enc_pod(T::spec_type(), x.spec_body());
    assert(w.subrange(0, w.len() as int) =~= w);
    lemma_enc_pod_parts_at(w, 0, T::spec_type(), x.spec_body());
}

/// Round-trip on the typed path for strings: the pod a string serializes
/// into is accepted by the typed string decode, and the slice handed back is
/// over exactly the original UTF-8 bytes.
pub proof fn lemma_typed_string_round_trip(chars: Seq<char>)
    requires
        vstd::utf8::encode_utf8(chars).len() + 1 <= u32::MAX,
    ensures
        ({
            let body = vstd::utf8::encode_utf8(chars) + seq![0u8];
            let w = enc_pod(crate::pod::TYPE_STRING, body);
            &&& string_pod_ok(w, 0)
            &&& dec_shape(w, 0) == Ok::<int, DecodeErrorKind>(w.len() as int)
            &&& w.subrange(8, 8 + body.len() - 1) == vstd::utf8::encode_utf8(chars)
        }),
{
    lemma_auto_spec_u32_to_from_le_bytes();
    let bytes = vstd::utf8::encode_utf8(chars);
    let body = bytes + seq![0u8];
    let w = enc_pod(crate::pod::TYPE_STRING, body);
    assert(w.subrange(0, w.len() as int) =~= w);
    lemma_enc_pod_parts_at(w, 0, crate::pod::TYPE_STRING, body);
    let size = body.len() as int;
    assert(w.subrange(8, 8 + size)[size - 1] == 0);
    assert(w[8 + size - 1] == 0);
    assert(body.subrange(0, size - 1) =~= bytes);
    lemma_sub_sub(w, 8, body, 0, size - 1);
    vstd::utf8::encode_utf8_valid_utf8(chars);
}

/// Round-trip on the typed path for byte blobs: the pod a blob serializes
/// into is accepted by the typed bytes decode, and the slice handed back is
/// over exactly the original bytes.
pub proof fn lemma_typed_bytes_round_trip(bytes: Seq<u8>)
    requires
        bytes.len() <= u32::MAX,
    ensures
        ({
            let w = enc_pod(crate::pod::TYPE_BYTES, bytes);
            &&& bytes_pod_ok(w, 0)
            &&& dec_shape(w, 0) == Ok::<int, DecodeErrorKind>(w.len() as int)
            &&& w.subrange(8, 8 + bytes.len() as int) == bytes
        }),
{
    lemma_auto_spec_u32_to_from_le_bytes();
    let w = enc_pod(crate::pod::TYPE_BYTES, bytes);
    assert(w.subrange(0, w.len() as int) =~= w);
    lemma_enc_pod_parts_at(w, 0, crate::pod::TYPE_BYTES, bytes);
}

/// Round-trip on the typed path for arrays: the pod a sequence of canonical
/// scalars serializes into is accepted by the typed array decode, the count
/// is derived back, and the elements read back equal the originals.
pub proof fn lemma_typed_array_round_trip<T: CanonicalFixedSizedPod>(s: Seq<T>)
    requires
        T::spec_size() > 0 || s.len() == 0,
        8 + enc_bodies(s).len() <= u32::MAX,
    ensures
        ({
            let w = enc_pod(
                crate::pod::TYPE_ARRAY,
                enc_header(T::spec_size() as nat, T::spec_type()) + enc_bodies(s),
            );
            let esz = T::spec_size() as int;
            let n = if esz == 0 { 0int } else { (dec_u32(w, 0) - 8) / esz };
            &&& array_pod_ok::<T>(w, 0)
            &&& dec_shape(w, 0) == Ok::<int, DecodeErrorKind>(w.len() as int)
            &&& n == s.len()
            &&& dec_body_seq::<T>(w, 16, n) == s
        }),
{
    T::lemma_tag_size();
    let w = enc_pod(
        crate::pod::TYPE_ARRAY,
        enc_header(T::spec_size() as nat, T::spec_type()) + enc_bodies(s),
    );
    assert(w.subrange(0, w.len() as int) =~= w);
    lemma_array_round_trip_at::<T>(s, w, 0);
    lemma_enc_pod_aligned(
        crate::pod::TYPE_ARRAY,
        enc_header(T::spec_size() as nat, T::spec_type()) + enc_bodies(s),
    );
}

/// Round-trip on the typed path for choices: the pod a choice serializes
/// into is accepted by the typed choice decode, and the decoded choice
/// relation gives the original back.
pub proof fn lemma_typed_choice_round_trip<T: CanonicalFixedSizedPod>(c: Choice<T>)
    requires
        T::spec_size() > 0,
        T::spec_type() != crate::pod::TYPE_BOOL,
        enc_choice_body(c).len() <= u32::MAX,
    ensures
        ({
            let w = enc_pod(crate::pod::TYPE_CHOICE, enc_choice_body(c));
            let n = (dec_u32(w, 0) - 16) / T::spec_size() as int;
            &&& choice_pod_ok::<T>(w, 0)
            &&& dec_shape(w, 0) == Ok::<int, DecodeErrorKind>(w.len() as int)
            &&& dec_choice_rel::<T>(w, 0, dec_u32(w, 8), dec_u32(w, 12), n, c)
        }),
{
    T::lemma_tag_size();
    let w = enc_pod(crate::pod::TYPE_CHOICE, enc_choice_body(c));
    assert(w.subrange(0, w.len() as int) =~= w);
    lemma_choice_round_trip_at::<T>(c, w, 0);
    lemma_enc_pod_aligned(crate::pod::TYPE_CHOICE, enc_choice_body(c));
    let esz = T::spec_size() as int;
    let entries = choice_entries(c.1);
    lemma_enc_bodies_len::<T>(entries);
    vstd::arithmetic::div_mod::lemma_div_by_multiple(entries.len() as int, esz);
}

/// Struct exhaustion: whenever a struct pod decodes at all, its fields fill
/// its declared body length exactly; leftover bytes or a field crossing the
/// boundary are a decode failure, never skipped.
pub proof fn lemma_struct_decode_exhausts(b: Seq<u8>, at: int)
    requires
        dec_shape(b, at) is Ok,
        at + 8 <= b.len(),
        dec_u32(b, at + 4) == TYPE_STRUCT,
    ensures
        dec_fields_shape(b, at + 8, at + 8 + dec_u32(b, at)) == Ok::<(), DecodeErrorKind>(()),
{
    let size = dec_u32(b, at) as int;
    assert(crate::pod::fixed_size_of(TYPE_STRUCT) < 0);
    match dec_fields_shape(b, at + 8, at + 8 + size) {
        Ok(u) => {
            assert(u == ());
        },
        Err(e) => {
            assert(dec_shape(b, at) == Err::<int, DecodeErrorKind>(e));
        },
    }
}

/// Choice tolerance: the value a fixed-kind (`CHOICE_NONE`) choice body
/// decodes to depends only on its first element; however many extra elements
/// are physically present, they are consumed and ignored, and the decoded
/// choice is the same.
pub proof fn lemma_choice_fixed_ignores_extras<C: CanonicalFixedSizedPod>(
    b: Seq<u8>,
    at: int,
    flags: u32,
    n1: int,
    n2: int,
    c: Choice<C>,
)
    requires
        n1 >= 1,
        n2 >= 1,
        dec_choice_rel::<C>(b, at, CHOICE_NONE, flags, n1, c),
    ensures
        dec_choice_rel::<C>(b, at, CHOICE_NONE, flags, n2, c),
{
    let es1 = dec_body_seq::<C>(b, at + 24, n1);
    let es2 = dec_body_seq::<C>(b, at + 24, n2);
    assert(es1[0] == es2[0]);
}

} // verus!
