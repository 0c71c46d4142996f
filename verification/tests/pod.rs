use libspa::pod::deserialize::{
    DeserializeError, DeserializeSuccess, ObjectPodDeserializer, PodDeserialize, PodDeserializer,
    StructPodDeserializer, Visitor,
};
use libspa::pod::serialize::{PodSerialize, PodSerializer, SerializeError, SerializeSuccess};
use libspa::pod::{
    ChoiceValue, Object, Property, PropertyFlags, Value, ValueArray, CHOICE_ENUM, CHOICE_FLAGS,
    CHOICE_NONE, CHOICE_RANGE, CHOICE_STEP, TYPE_ARRAY, TYPE_BOOL, TYPE_BYTES, TYPE_CHOICE,
    TYPE_DOUBLE, TYPE_FD, TYPE_FLOAT, TYPE_FRACTION, TYPE_ID, TYPE_INT, TYPE_LONG, TYPE_NONE,
    TYPE_OBJECT, TYPE_RECTANGLE, TYPE_STRING, TYPE_STRUCT,
};
use libspa::utils::{Choice, ChoiceEnum, ChoiceFlags, DoubleBits, Fd, FloatBits, Fraction, Id, Rectangle};

// The object type, parameter id and property keys used by the object test,
// as the wire protocol defines them.
const OBJECT_TYPE_PROPS: u32 = 0x40002;
const PARAM_PROPS: u32 = 2;
const PROP_DEVICE: u32 = 0x101;
const PROP_FREQUENCY: u32 = 0x10002;

fn put32(out: &mut Vec<u8>, x: u32) {
    out.extend_from_slice(&x.to_ne_bytes());
}

fn empty() -> &'static [u8] {
    &[]
}

#[test]
fn none() {
    let vec_rs: Vec<u8> = PodSerializer::serialize(&()).unwrap();
    let vec_rs_val: Vec<u8> = PodSerializer::serialize(&Value::Unit).unwrap();
    let mut vec_c: Vec<u8> = Vec::new();
    put32(&mut vec_c, 0);
    put32(&mut vec_c, TYPE_NONE);
    assert_eq!(vec_rs, vec_c);
    assert_eq!(vec_rs_val, vec_c);

    assert_eq!(PodDeserializer::deserialize_from(&vec_rs), Ok((empty(), ())));

    assert_eq!(
        PodDeserializer::deserialize_any_from(&vec_rs),
        Ok((empty(), Value::Unit))
    );
}

#[test]
fn bool_true() {
    let vec_rs: Vec<u8> = PodSerializer::serialize(&true).unwrap();
    let vec_rs_val: Vec<u8> = PodSerializer::serialize(&Value::Bool(true)).unwrap();
    let mut vec_c: Vec<u8> = Vec::new();
    put32(&mut vec_c, 4);
    put32(&mut vec_c, TYPE_BOOL);
    put32(&mut vec_c, 1);
    vec_c.extend_from_slice(&[0u8; 4]);
    assert_eq!(vec_rs, vec_c);
    assert_eq!(vec_rs_val, vec_c);

    assert_eq!(PodDeserializer::deserialize_from(&vec_rs), Ok((empty(), true)));

    assert_eq!(
        PodDeserializer::deserialize_any_from(&vec_rs),
        Ok((empty(), Value::Bool(true)))
    );
}

#[test]
fn bool_false() {
    let vec_rs: Vec<u8> = PodSerializer::serialize(&false).unwrap();
    let vec_rs_val: Vec<u8> = PodSerializer::serialize(&Value::Bool(false)).unwrap();
    let mut vec_c: Vec<u8> = Vec::new();
    put32(&mut vec_c, 4);
    put32(&mut vec_c, TYPE_BOOL);
    put32(&mut vec_c, 0);
    vec_c.extend_from_slice(&[0u8; 4]);
    assert_eq!(vec_rs, vec_c);
    assert_eq!(vec_rs_val, vec_c);

    assert_eq!(PodDeserializer::deserialize_from(&vec_rs), Ok((empty(), false)));

    assert_eq!(
        PodDeserializer::deserialize_any_from(&vec_rs),
        Ok((empty(), Value::Bool(false)))
    );
}

#[test]
fn int_() {
    let val: i32 = 765;

    let vec_rs: Vec<u8> = PodSerializer::serialize(&val).unwrap();
    let vec_rs_val: Vec<u8> = PodSerializer::serialize(&Value::Int(val)).unwrap();
    let mut vec_c: Vec<u8> = Vec::new();
    put32(&mut vec_c, 4);
    put32(&mut vec_c, TYPE_INT);
    vec_c.extend_from_slice(&val.to_ne_bytes());
    vec_c.extend_from_slice(&[0u8; 4]);
    assert_eq!(vec_rs, vec_c);
    assert_eq!(vec_rs_val, vec_c);

    assert_eq!(PodDeserializer::deserialize_from(&vec_rs), Ok((empty(), val)));

    assert_eq!(
        PodDeserializer::deserialize_any_from(&vec_rs),
        Ok((empty(), Value::Int(val)))
    );
}

#[test]
fn long() {
    let long: i64 = 0x1234_5678_9876_5432;

    let vec_rs: Vec<u8> = PodSerializer::serialize(&long).unwrap();
    let vec_rs_val: Vec<u8> = PodSerializer::serialize(&Value::Long(long)).unwrap();
    let mut vec_c: Vec<u8> = Vec::new();
    put32(&mut vec_c, 8);
    put32(&mut vec_c, TYPE_LONG);
    vec_c.extend_from_slice(&long.to_ne_bytes());
    assert_eq!(vec_rs, vec_c);
    assert_eq!(vec_rs_val, vec_c);

    assert_eq!(PodDeserializer::deserialize_from(&vec_rs), Ok((empty(), long)));

    assert_eq!(
        PodDeserializer::deserialize_any_from(&vec_rs),
        Ok((empty(), Value::Long(long)))
    );
}

#[test]
fn float() {
    let float = FloatBits(std::f32::consts::PI.to_bits());

    let vec_rs: Vec<u8> = PodSerializer::serialize(&float).unwrap();
    let vec_rs_val: Vec<u8> = PodSerializer::serialize(&Value::Float(float)).unwrap();
    let mut vec_c: Vec<u8> = Vec::new();
    put32(&mut vec_c, 4);
    put32(&mut vec_c, TYPE_FLOAT);
    vec_c.extend_from_slice(&std::f32::consts::PI.to_ne_bytes());
    vec_c.extend_from_slice(&[0u8; 4]);
    assert_eq!(vec_rs, vec_c);
    assert_eq!(vec_rs_val, vec_c);

    assert_eq!(PodDeserializer::deserialize_from(&vec_rs), Ok((empty(), float)));

    assert_eq!(
        PodDeserializer::deserialize_any_from(&vec_rs),
        Ok((empty(), Value::Float(float)))
    );

    assert_eq!(f32::from_bits(float.0), std::f32::consts::PI);
}

#[test]
fn double() {
    let double = DoubleBits(std::f64::consts::PI.to_bits());

    let vec_rs: Vec<u8> = PodSerializer::serialize(&double).unwrap();
    let vec_rs_val: Vec<u8> = PodSerializer::serialize(&Value::Double(double)).unwrap();
    let mut vec_c: Vec<u8> = Vec::new();
    put32(&mut vec_c, 8);
    put32(&mut vec_c, TYPE_DOUBLE);
    vec_c.extend_from_slice(&std::f64::consts::PI.to_ne_bytes());
    assert_eq!(vec_rs, vec_c);
    assert_eq!(vec_rs_val, vec_c);

    assert_eq!(PodDeserializer::deserialize_from(&vec_rs), Ok((empty(), double)));

    assert_eq!(
        PodDeserializer::deserialize_any_from(&vec_rs),
        Ok((empty(), Value::Double(double)))
    );

    assert_eq!(f64::from_bits(double.0), std::f64::consts::PI);
}

#[test]
fn string() {
    let string = "foo";

    let vec_rs: Vec<u8> = PodSerializer::serialize(string).unwrap();
    let vec_rs_val: Vec<u8> = PodSerializer::serialize(&Value::String(string.to_owned())).unwrap();
    let mut vec_c: Vec<u8> = Vec::new();
    put32(&mut vec_c, 3 + 1);
    put32(&mut vec_c, TYPE_STRING);
    vec_c.extend_from_slice(b"foo\0");
    vec_c.extend_from_slice(&[0u8; 4]);
    assert_eq!(vec_rs, vec_c);
    assert_eq!(vec_rs_val, vec_c);

    // Zero-copy deserializing.
    assert_eq!(
        PodDeserializer::deserialize_from(&vec_rs),
        Ok((empty(), string))
    );

    // Deserializing by copying.
    assert_eq!(
        PodDeserializer::deserialize_from(&vec_rs),
        Ok((empty(), String::from(string)))
    );

    assert_eq!(
        PodDeserializer::deserialize_any_from(&vec_rs),
        Ok((empty(), Value::String(string.to_string())))
    );
}

#[test]
fn string_no_padding() {
    let string = "1234567";

    let vec_rs: Vec<u8> = PodSerializer::serialize(string).unwrap();
    let vec_rs_val: Vec<u8> = PodSerializer::serialize(&Value::String(string.to_owned())).unwrap();
    let mut vec_c: Vec<u8> = Vec::new();
    put32(&mut vec_c, 7 + 1);
    put32(&mut vec_c, TYPE_STRING);
    vec_c.extend_from_slice(b"1234567\0");
    assert_eq!(vec_rs, vec_c);
    assert_eq!(vec_rs_val, vec_c);

    // Zero-copy deserializing.
    assert_eq!(
        PodDeserializer::deserialize_from(&vec_rs),
        Ok((empty(), string))
    );

    // Deserializing by copying.
    assert_eq!(
        PodDeserializer::deserialize_from(&vec_rs),
        Ok((empty(), String::from(string)))
    );

    assert_eq!(
        PodDeserializer::deserialize_any_from(&vec_rs),
        Ok((empty(), Value::String(string.to_string())))
    );
}

#[test]
fn string_empty() {
    let string = "";

    let vec_rs: Vec<u8> = PodSerializer::serialize(string).unwrap();
    let vec_rs_val: Vec<u8> = PodSerializer::serialize(&Value::String(string.to_owned())).unwrap();
    let mut vec_c: Vec<u8> = Vec::new();
    put32(&mut vec_c, 0 + 1);
    put32(&mut vec_c, TYPE_STRING);
    vec_c.extend_from_slice(b"\0");
    vec_c.extend_from_slice(&[0u8; 7]);
    assert_eq!(vec_rs, vec_c);
    assert_eq!(vec_rs_val, vec_c);

    // Zero-copy deserializing.
    assert_eq!(
        PodDeserializer::deserialize_from(&vec_rs),
        Ok((empty(), string))
    );

    // Deserializing by copying.
    assert_eq!(
        PodDeserializer::deserialize_from(&vec_rs),
        Ok((empty(), String::from(string)))
    );

    assert_eq!(
        PodDeserializer::deserialize_any_from(&vec_rs),
        Ok((empty(), Value::String(string.to_string())))
    );
}

#[test]
fn bytes() {
    let bytes = b"foo";

    let vec_rs: Vec<u8> = PodSerializer::serialize(bytes as &[u8]).unwrap();
    let vec_rs_val: Vec<u8> = PodSerializer::serialize(&Value::Bytes(bytes.to_vec())).unwrap();
    let mut vec_c: Vec<u8> = Vec::new();
    put32(&mut vec_c, 3);
    put32(&mut vec_c, TYPE_BYTES);
    vec_c.extend_from_slice(bytes);
    vec_c.extend_from_slice(&[0u8; 5]);
    assert_eq!(vec_rs, vec_c);
    assert_eq!(vec_rs_val, vec_c);

    // Zero-copy deserializing.
    assert_eq!(
        PodDeserializer::deserialize_from(&vec_rs),
        Ok((empty(), bytes as &[u8]))
    );

    // Deserializing by copying.
    assert_eq!(
        PodDeserializer::deserialize_from(&vec_rs),
        Ok((empty(), Vec::from(bytes as &[u8])))
    );

    assert_eq!(
        PodDeserializer::deserialize_any_from(&vec_rs),
        Ok((empty(), Value::Bytes(Vec::from(bytes as &[u8]))))
    );
}

#[test]
fn bytes_no_padding() {
    let bytes = b"12345678";

    let vec_rs: Vec<u8> = PodSerializer::serialize(bytes as &[u8]).unwrap();
    let vec_rs_val: Vec<u8> = PodSerializer::serialize(&Value::Bytes(bytes.to_vec())).unwrap();
    let mut vec_c: Vec<u8> = Vec::new();
    put32(&mut vec_c, 8);
    put32(&mut vec_c, TYPE_BYTES);
    vec_c.extend_from_slice(bytes);
    assert_eq!(vec_rs, vec_c);
    assert_eq!(vec_rs_val, vec_c);

    // Zero-copy deserializing.
    assert_eq!(
        PodDeserializer::deserialize_from(&vec_rs),
        Ok((empty(), bytes as &[u8]))
    );

    // Deserializing by copying.
    assert_eq!(
        PodDeserializer::deserialize_from(&vec_rs),
        Ok((empty(), Vec::from(bytes as &[u8])))
    );

    assert_eq!(
        PodDeserializer::deserialize_any_from(&vec_rs),
        Ok((empty(), Value::Bytes(Vec::from(bytes as &[u8]))))
    );
}

#[test]
fn bytes_empty() {
    let bytes = b"";

    let vec_rs: Vec<u8> = PodSerializer::serialize(bytes as &[u8]).unwrap();
    let vec_rs_val: Vec<u8> = PodSerializer::serialize(&Value::Bytes(bytes.to_vec())).unwrap();
    let mut vec_c: Vec<u8> = Vec::new();
    put32(&mut vec_c, 0);
    put32(&mut vec_c, TYPE_BYTES);
    vec_c.extend_from_slice(bytes);
    assert_eq!(vec_rs, vec_c);
    assert_eq!(vec_rs_val, vec_c);

    // Zero-copy deserializing.
    assert_eq!(
        PodDeserializer::deserialize_from(&vec_rs),
        Ok((empty(), bytes as &[u8]))
    );

    // Deserializing by copying.
    assert_eq!(
        PodDeserializer::deserialize_from(&vec_rs),
        Ok((empty(), Vec::from(bytes as &[u8])))
    );

    assert_eq!(
        PodDeserializer::deserialize_any_from(&vec_rs),
        Ok((empty(), Value::Bytes(Vec::from(bytes as &[u8]))))
    );
}

#[test]
fn rectangle() {
    let rect = Rectangle {
        width: 640,
        height: 480,
    };

    let vec_rs = PodSerializer::serialize(&rect).unwrap();
    let vec_rs_val = PodSerializer::serialize(&Value::Rectangle(rect)).unwrap();
    let mut vec_c: Vec<u8> = Vec::new();
    put32(&mut vec_c, 8);
    put32(&mut vec_c, TYPE_RECTANGLE);
    put32(&mut vec_c, rect.width);
    put32(&mut vec_c, rect.height);
    assert_eq!(vec_rs, vec_c);
    assert_eq!(vec_rs_val, vec_c);

    assert_eq!(PodDeserializer::deserialize_from(&vec_rs), Ok((empty(), rect)));

    assert_eq!(
        PodDeserializer::deserialize_any_from(&vec_rs),
        Ok((empty(), Value::Rectangle(rect)))
    );
}

#[test]
fn fraction() {
    let fraction = Fraction { num: 16, denom: 9 };

    let vec_rs = PodSerializer::serialize(&fraction).unwrap();
    let vec_rs_val = PodSerializer::serialize(&Value::Fraction(fraction)).unwrap();
    let mut vec_c: Vec<u8> = Vec::new();
    put32(&mut vec_c, 8);
    put32(&mut vec_c, TYPE_FRACTION);
    put32(&mut vec_c, fraction.num);
    put32(&mut vec_c, fraction.denom);
    assert_eq!(vec_rs, vec_c);
    assert_eq!(vec_rs_val, vec_c);

    assert_eq!(
        PodDeserializer::deserialize_from(&vec_rs),
        Ok((empty(), fraction))
    );

    assert_eq!(
        PodDeserializer::deserialize_any_from(&vec_rs),
        Ok((empty(), Value::Fraction(fraction)))
    );
}

#[test]
fn id() {
    const ID: Id = Id(7);

    let vec_rs: Vec<u8> = PodSerializer::serialize(&ID).unwrap();
    let vec_rs_val: Vec<u8> = PodSerializer::serialize(&Value::Id(ID)).unwrap();
    let mut vec_c: Vec<u8> = Vec::new();
    put32(&mut vec_c, 4);
    put32(&mut vec_c, TYPE_ID);
    put32(&mut vec_c, ID.0);
    vec_c.extend_from_slice(&[0u8; 4]);
    assert_eq!(vec_rs, vec_c);
    assert_eq!(vec_rs_val, vec_c);

    assert_eq!(PodDeserializer::deserialize_from(&vec_rs), Ok((empty(), ID)));

    assert_eq!(
        PodDeserializer::deserialize_any_from(&vec_rs),
        Ok((empty(), Value::Id(ID)))
    );
}

#[test]
fn fd() {
    const FD: Fd = Fd(7);

    let vec_rs: Vec<u8> = PodSerializer::serialize(&FD).unwrap();
    let vec_rs_val: Vec<u8> = PodSerializer::serialize(&Value::Fd(FD)).unwrap();
    let mut vec_c: Vec<u8> = Vec::new();
    put32(&mut vec_c, 8);
    put32(&mut vec_c, TYPE_FD);
    vec_c.extend_from_slice(&FD.0.to_ne_bytes());
    assert_eq!(vec_rs, vec_c);
    assert_eq!(vec_rs_val, vec_c);

    assert_eq!(PodDeserializer::deserialize_from(&vec_rs), Ok((empty(), FD)));

    assert_eq!(
        PodDeserializer::deserialize_any_from(&vec_rs),
        Ok((empty(), Value::Fd(FD)))
    );
}

#[test]
fn array_i32() {
    // 3 elements, so the resulting array has 4 bytes padding.
    let array: Vec<i32> = vec![10, 15, 19];

    let vec_rs: Vec<u8> = PodSerializer::serialize(array.as_slice()).unwrap();
    let vec_rs_val: Vec<u8> =
        PodSerializer::serialize(&Value::ValueArray(ValueArray::Int(array.clone()))).unwrap();
    let mut vec_c: Vec<u8> = Vec::new();
    put32(&mut vec_c, 8 + 3 * 4);
    put32(&mut vec_c, TYPE_ARRAY);
    put32(&mut vec_c, 4);
    put32(&mut vec_c, TYPE_INT);
    for v in &array {
        vec_c.extend_from_slice(&v.to_ne_bytes());
    }
    vec_c.extend_from_slice(&[0u8; 4]);
    assert_eq!(vec_rs, vec_c);
    assert_eq!(vec_rs_val, vec_c);

    assert_eq!(
        PodDeserializer::deserialize_from(&vec_rs),
        Ok((empty(), array.clone()))
    );

    assert_eq!(
        PodDeserializer::deserialize_any_from(&vec_rs),
        Ok((empty(), Value::ValueArray(ValueArray::Int(array))))
    );
}

#[test]
fn array_bool() {
    let array = vec![false, true];

    let vec_rs: Vec<u8> = PodSerializer::serialize(array.as_slice()).unwrap();
    let vec_rs_val: Vec<u8> =
        PodSerializer::serialize(&Value::ValueArray(ValueArray::Bool(array.clone()))).unwrap();
    let mut vec_c: Vec<u8> = Vec::new();
    put32(&mut vec_c, 8 + 2 * 4);
    put32(&mut vec_c, TYPE_ARRAY);
    put32(&mut vec_c, 4);
    put32(&mut vec_c, TYPE_BOOL);
    for v in &array {
        put32(&mut vec_c, if *v { 1 } else { 0 });
    }
    assert_eq!(vec_rs, vec_c);
    assert_eq!(vec_rs_val, vec_c);

    assert_eq!(
        PodDeserializer::deserialize_from(&vec_rs),
        Ok((empty(), array.clone()))
    );

    assert_eq!(
        PodDeserializer::deserialize_any_from(&vec_rs),
        Ok((empty(), Value::ValueArray(ValueArray::Bool(array))))
    );
}

#[test]
fn array_empty() {
    let array: Vec<()> = Vec::new();

    let vec_rs: Vec<u8> = PodSerializer::serialize(array.as_slice()).unwrap();
    let vec_rs_val: Vec<u8> =
        PodSerializer::serialize(&Value::ValueArray(ValueArray::Unit(array.clone()))).unwrap();
    let mut vec_c: Vec<u8> = Vec::new();
    put32(&mut vec_c, 8 + 0 * 0);
    put32(&mut vec_c, TYPE_ARRAY);
    put32(&mut vec_c, 0);
    put32(&mut vec_c, TYPE_NONE);
    assert_eq!(vec_rs, vec_c);
    assert_eq!(vec_rs_val, vec_c);

    assert_eq!(
        PodDeserializer::deserialize_from(&vec_rs),
        Ok((empty(), array.clone()))
    );

    assert_eq!(
        PodDeserializer::deserialize_any_from(&vec_rs),
        Ok((empty(), Value::ValueArray(ValueArray::Unit(array))))
    );
}

#[test]
fn array_id() {
    let array = vec![Id(1), Id(2)];

    let vec_rs: Vec<u8> = PodSerializer::serialize(array.as_slice()).unwrap();
    let vec_rs_val: Vec<u8> =
        PodSerializer::serialize(&Value::ValueArray(ValueArray::Id(array.clone()))).unwrap();
    let mut vec_c: Vec<u8> = Vec::new();
    put32(&mut vec_c, 8 + 2 * 4);
    put32(&mut vec_c, TYPE_ARRAY);
    put32(&mut vec_c, 4);
    put32(&mut vec_c, TYPE_ID);
    for v in &array {
        put32(&mut vec_c, v.0);
    }
    assert_eq!(vec_rs, vec_c);
    assert_eq!(vec_rs_val, vec_c);

    assert_eq!(
        PodDeserializer::deserialize_from(&vec_rs),
        Ok((empty(), array.clone()))
    );

    assert_eq!(
        PodDeserializer::deserialize_any_from(&vec_rs),
        Ok((empty(), Value::ValueArray(ValueArray::Id(array))))
    );
}

#[test]
fn array_long() {
    let array: Vec<i64> = vec![1, 2, 3];

    let vec_rs: Vec<u8> = PodSerializer::serialize(array.as_slice()).unwrap();
    let vec_rs_val: Vec<u8> =
        PodSerializer::serialize(&Value::ValueArray(ValueArray::Long(array.clone()))).unwrap();
    let mut vec_c: Vec<u8> = Vec::new();
    put32(&mut vec_c, 8 + 3 * 8);
    put32(&mut vec_c, TYPE_ARRAY);
    put32(&mut vec_c, 8);
    put32(&mut vec_c, TYPE_LONG);
    for v in &array {
        vec_c.extend_from_slice(&v.to_ne_bytes());
    }
    assert_eq!(vec_rs, vec_c);
    assert_eq!(vec_rs_val, vec_c);

    assert_eq!(
        PodDeserializer::deserialize_from(&vec_rs),
        Ok((empty(), array.clone()))
    );

    assert_eq!(
        PodDeserializer::deserialize_any_from(&vec_rs),
        Ok((empty(), Value::ValueArray(ValueArray::Long(array))))
    );
}

#[test]
fn array_float() {
    let array: Vec<FloatBits> = vec![FloatBits(1.0f32.to_bits()), FloatBits(2.2f32.to_bits())];

    let vec_rs: Vec<u8> = PodSerializer::serialize(array.as_slice()).unwrap();
    let vec_rs_val: Vec<u8> =
        PodSerializer::serialize(&Value::ValueArray(ValueArray::Float(array.clone()))).unwrap();
    let mut vec_c: Vec<u8> = Vec::new();
    put32(&mut vec_c, 8 + 2 * 4);
    put32(&mut vec_c, TYPE_ARRAY);
    put32(&mut vec_c, 4);
    put32(&mut vec_c, TYPE_FLOAT);
    for v in &array {
        put32(&mut vec_c, v.0);
    }
    assert_eq!(vec_rs, vec_c);
    assert_eq!(vec_rs_val, vec_c);

    assert_eq!(
        PodDeserializer::deserialize_from(&vec_rs),
        Ok((empty(), array.clone()))
    );

    assert_eq!(
        PodDeserializer::deserialize_any_from(&vec_rs),
        Ok((empty(), Value::ValueArray(ValueArray::Float(array))))
    );
}

#[test]
fn array_double() {
    let array: Vec<DoubleBits> = vec![DoubleBits(1.0f64.to_bits()), DoubleBits(2.2f64.to_bits())];

    let vec_rs: Vec<u8> = PodSerializer::serialize(array.as_slice()).unwrap();
    let vec_rs_val: Vec<u8> =
        PodSerializer::serialize(&Value::ValueArray(ValueArray::Double(array.clone()))).unwrap();
    let mut vec_c: Vec<u8> = Vec::new();
    put32(&mut vec_c, 8 + 2 * 8);
    put32(&mut vec_c, TYPE_ARRAY);
    put32(&mut vec_c, 8);
    put32(&mut vec_c, TYPE_DOUBLE);
    for v in &array {
        vec_c.extend_from_slice(&v.0.to_ne_bytes());
    }
    assert_eq!(vec_rs, vec_c);
    assert_eq!(vec_rs_val, vec_c);

    assert_eq!(
        PodDeserializer::deserialize_from(&vec_rs),
        Ok((empty(), array.clone()))
    );

    assert_eq!(
        PodDeserializer::deserialize_any_from(&vec_rs),
        Ok((empty(), Value::ValueArray(ValueArray::Double(array))))
    );
}

#[test]
fn array_rectangle() {
    let array = vec![
        Rectangle {
            width: 800,
            height: 600,
        },
        Rectangle {
            width: 1920,
            height: 1080,
        },
    ];

    let vec_rs: Vec<u8> = PodSerializer::serialize(array.as_slice()).unwrap();
    let vec_rs_val: Vec<u8> =
        PodSerializer::serialize(&Value::ValueArray(ValueArray::Rectangle(array.clone()))).unwrap();
    let mut vec_c: Vec<u8> = Vec::new();
    put32(&mut vec_c, 8 + 2 * 8);
    put32(&mut vec_c, TYPE_ARRAY);
    put32(&mut vec_c, 8);
    put32(&mut vec_c, TYPE_RECTANGLE);
    for v in &array {
        put32(&mut vec_c, v.width);
        put32(&mut vec_c, v.height);
    }
    assert_eq!(vec_rs, vec_c);
    assert_eq!(vec_rs_val, vec_c);

    assert_eq!(
        PodDeserializer::deserialize_from(&vec_rs),
        Ok((empty(), array.clone()))
    );

    assert_eq!(
        PodDeserializer::deserialize_any_from(&vec_rs),
        Ok((empty(), Value::ValueArray(ValueArray::Rectangle(array))))
    );
}

#[test]
fn array_fraction() {
    let array = vec![Fraction { num: 1, denom: 2 }, Fraction { num: 2, denom: 3 }];

    let vec_rs: Vec<u8> = PodSerializer::serialize(array.as_slice()).unwrap();
    let vec_rs_val: Vec<u8> =
        PodSerializer::serialize(&Value::ValueArray(ValueArray::Fraction(array.clone()))).unwrap();
    let mut vec_c: Vec<u8> = Vec::new();
    put32(&mut vec_c, 8 + 2 * 8);
    put32(&mut vec_c, TYPE_ARRAY);
    put32(&mut vec_c, 8);
    put32(&mut vec_c, TYPE_FRACTION);
    for v in &array {
        put32(&mut vec_c, v.num);
        put32(&mut vec_c, v.denom);
    }
    assert_eq!(vec_rs, vec_c);
    assert_eq!(vec_rs_val, vec_c);

    assert_eq!(
        PodDeserializer::deserialize_from(&vec_rs),
        Ok((empty(), array.clone()))
    );

    assert_eq!(
        PodDeserializer::deserialize_any_from(&vec_rs),
        Ok((empty(), Value::ValueArray(ValueArray::Fraction(array))))
    );
}

#[test]
fn array_fd() {
    let array = vec![Fd(10), Fd(20)];

    let vec_rs: Vec<u8> = PodSerializer::serialize(array.as_slice()).unwrap();
    let vec_rs_val: Vec<u8> =
        PodSerializer::serialize(&Value::ValueArray(ValueArray::Fd(array.clone()))).unwrap();
    let mut vec_c: Vec<u8> = Vec::new();
    put32(&mut vec_c, 8 + 2 * 8);
    put32(&mut vec_c, TYPE_ARRAY);
    put32(&mut vec_c, 8);
    put32(&mut vec_c, TYPE_FD);
    for v in &array {
        vec_c.extend_from_slice(&v.0.to_ne_bytes());
    }
    assert_eq!(vec_rs, vec_c);
    assert_eq!(vec_rs_val, vec_c);

    assert_eq!(
        PodDeserializer::deserialize_from(&vec_rs),
        Ok((empty(), array.clone()))
    );

    assert_eq!(
        PodDeserializer::deserialize_any_from(&vec_rs),
        Ok((empty(), Value::ValueArray(ValueArray::Fd(array))))
    );
}

#[derive(PartialEq, Eq, Debug, Clone)]
struct TestStruct<'s> {
    // Fixed sized pod with padding.
    number: i32,
    // Dynamically sized pod.
    string: &'s str,
    // Another nested struct.
    nested: NestedStruct,
}

#[derive(PartialEq, Eq, Debug, Clone)]
struct NestedStruct {
    rect: Rectangle,
}

impl<'s> PodSerialize for TestStruct<'s> {
    fn serialize(&self, serializer: PodSerializer) -> Result<SerializeSuccess, SerializeError> {
        let mut struct_serializer = serializer.serialize_struct()?;

        struct_serializer.serialize_field(&self.number)?;
        struct_serializer.serialize_field(self.string)?;
        struct_serializer.serialize_field(&self.nested)?;

        struct_serializer.end()
    }
}

impl PodSerialize for NestedStruct {
    fn serialize(&self, serializer: PodSerializer) -> Result<SerializeSuccess, SerializeError> {
        let mut struct_serializer = serializer.serialize_struct()?;

        struct_serializer.serialize_field(&self.rect)?;

        struct_serializer.end()
    }
}

struct TestVisitor;

impl<'de> Visitor<'de> for TestVisitor {
    type Value = TestStruct<'de>;
    type ArrayElem = std::convert::Infallible;

    fn visit_struct(
        &self,
        struct_deserializer: &mut StructPodDeserializer<'de>,
    ) -> Result<Self::Value, DeserializeError<&'de [u8]>> {
        Ok(TestStruct {
            number: struct_deserializer
                .deserialize_field()?
                .expect("Input has too few fields"),
            string: struct_deserializer
                .deserialize_field()?
                .expect("Input has too few fields"),
            nested: struct_deserializer
                .deserialize_field()?
                .expect("Input has too few fields"),
        })
    }
}

impl<'de> PodDeserialize<'de> for TestStruct<'de> {
    fn deserialize(
        deserializer: PodDeserializer<'de>,
    ) -> Result<(Self, DeserializeSuccess<'de>), DeserializeError<&'de [u8]>>
    where
        Self: Sized,
    {
        deserializer.deserialize_struct(TestVisitor)
    }
}

struct NestedVisitor;

impl<'de> Visitor<'de> for NestedVisitor {
    type Value = NestedStruct;
    type ArrayElem = std::convert::Infallible;

    fn visit_struct(
        &self,
        struct_deserializer: &mut StructPodDeserializer<'de>,
    ) -> Result<Self::Value, DeserializeError<&'de [u8]>> {
        Ok(NestedStruct {
            rect: struct_deserializer
                .deserialize_field()?
                .expect("Input has too few fields"),
        })
    }
}

impl<'de> PodDeserialize<'de> for NestedStruct {
    fn deserialize(
        deserializer: PodDeserializer<'de>,
    ) -> Result<(Self, DeserializeSuccess<'de>), DeserializeError<&'de [u8]>>
    where
        Self: Sized,
    {
        deserializer.deserialize_struct(NestedVisitor)
    }
}

#[test]
fn struct_() {
    const INT: i32 = 313;
    const STR: &str = "foo";
    const RECT: Rectangle = Rectangle {
        width: 31,
        height: 14,
    };

    let struct_ = TestStruct {
        number: INT,
        string: STR,
        nested: NestedStruct { rect: RECT },
    };

    let struct_val = Value::Struct(vec![
        Value::Int(INT),
        Value::String(STR.to_owned()),
        Value::Struct(vec![Value::Rectangle(RECT)]),
    ]);

    let vec_rs: Vec<u8> = PodSerializer::serialize(&struct_).unwrap();
    let vec_rs_val: Vec<u8> = PodSerializer::serialize(&struct_val).unwrap();
    let mut vec_c: Vec<u8> = Vec::new();
    put32(&mut vec_c, 56);
    put32(&mut vec_c, TYPE_STRUCT);
    // First field: the int, padded.
    put32(&mut vec_c, 4);
    put32(&mut vec_c, TYPE_INT);
    vec_c.extend_from_slice(&INT.to_ne_bytes());
    vec_c.extend_from_slice(&[0u8; 4]);
    // Second field: the string with its terminator, padded.
    put32(&mut vec_c, 4);
    put32(&mut vec_c, TYPE_STRING);
    vec_c.extend_from_slice(b"foo\0");
    vec_c.extend_from_slice(&[0u8; 4]);
    // Third field: the nested struct holding one rectangle.
    put32(&mut vec_c, 16);
    put32(&mut vec_c, TYPE_STRUCT);
    put32(&mut vec_c, 8);
    put32(&mut vec_c, TYPE_RECTANGLE);
    put32(&mut vec_c, RECT.width);
    put32(&mut vec_c, RECT.height);
    assert_eq!(vec_rs, vec_c);
    assert_eq!(vec_rs_val, vec_c);

    assert_eq!(
        PodDeserializer::deserialize_from(&vec_rs),
        Ok((empty(), struct_.clone()))
    );

    assert_eq!(
        PodDeserializer::deserialize_any_from(&vec_rs),
        Ok((empty(), struct_val))
    );
}

#[derive(Debug, PartialEq)]
struct MyProps {
    device: String,
    frequency: FloatBits,
}

struct PropsVisitor;

impl<'de> Visitor<'de> for PropsVisitor {
    type Value = MyProps;
    type ArrayElem = std::convert::Infallible;

    fn visit_object(
        &self,
        object_deserializer: &mut ObjectPodDeserializer<'de>,
    ) -> Result<Self::Value, DeserializeError<&'de [u8]>> {
        let (device, _flags) = object_deserializer.deserialize_property_key::<String>(PROP_DEVICE)?;

        let (frequency, _flags) =
            object_deserializer.deserialize_property_key::<FloatBits>(PROP_FREQUENCY)?;

        Ok(MyProps { device, frequency })
    }
}

impl<'de> PodDeserialize<'de> for MyProps {
    fn deserialize(
        deserializer: PodDeserializer<'de>,
    ) -> Result<(Self, DeserializeSuccess<'de>), DeserializeError<&'de [u8]>>
    where
        Self: Sized,
    {
        deserializer.deserialize_object(PropsVisitor)
    }
}

impl PodSerialize for MyProps {
    fn serialize(&self, serializer: PodSerializer) -> Result<SerializeSuccess, SerializeError> {
        let mut obj_serializer = serializer.serialize_object(OBJECT_TYPE_PROPS, PARAM_PROPS)?;

        obj_serializer.serialize_property(PROP_DEVICE, self.device.as_str(), PropertyFlags::empty())?;
        obj_serializer.serialize_property(PROP_FREQUENCY, &self.frequency, PropertyFlags::empty())?;

        obj_serializer.end()
    }
}

#[test]
fn object() {
    let mut vec_c: Vec<u8> = Vec::new();
    put32(&mut vec_c, 56);
    put32(&mut vec_c, TYPE_OBJECT);
    put32(&mut vec_c, OBJECT_TYPE_PROPS);
    put32(&mut vec_c, PARAM_PROPS);
    // First property: the device name.
    put32(&mut vec_c, PROP_DEVICE);
    put32(&mut vec_c, 0);
    put32(&mut vec_c, 5);
    put32(&mut vec_c, TYPE_STRING);
    vec_c.extend_from_slice(b"hw:0\0");
    vec_c.extend_from_slice(&[0u8; 3]);
    // Second property: the frequency.
    put32(&mut vec_c, PROP_FREQUENCY);
    put32(&mut vec_c, 0);
    put32(&mut vec_c, 4);
    put32(&mut vec_c, TYPE_FLOAT);
    vec_c.extend_from_slice(&440.0f32.to_ne_bytes());
    vec_c.extend_from_slice(&[0u8; 4]);

    let (_, props) = PodDeserializer::deserialize_from::<MyProps>(&vec_c).unwrap();
    assert_eq!(props.device, "hw:0");
    assert_eq!(f32::from_bits(props.frequency.0), 440.0);

    assert_eq!(
        PodDeserializer::deserialize_any_from(&vec_c),
        Ok((
            empty(),
            Value::Object(Object {
                type_: OBJECT_TYPE_PROPS,
                id: PARAM_PROPS,
                properties: vec![
                    Property {
                        key: PROP_DEVICE,
                        flags: PropertyFlags::empty(),
                        value: Value::String("hw:0".into()),
                    },
                    Property {
                        key: PROP_FREQUENCY,
                        flags: PropertyFlags::empty(),
                        value: Value::Float(FloatBits(440.0f32.to_bits()))
                    }
                ]
            })
        ))
    );

    // serialization
    let vec_rs: Vec<u8> = PodSerializer::serialize(&props).unwrap();

    assert_eq!(vec_rs, vec_c);
}

#[test]
fn choice_range_f32() {
    let choice = Choice(
        ChoiceFlags::empty(),
        ChoiceEnum::Range {
            default: FloatBits(440.0f32.to_bits()),
            min: FloatBits(110.0f32.to_bits()),
            max: FloatBits(880.0f32.to_bits()),
        },
    );

    let vec_rs: Vec<u8> = PodSerializer::serialize(&choice).unwrap();
    let vec_rs_val: Vec<u8> =
        PodSerializer::serialize(&Value::Choice(ChoiceValue::Float(choice.clone()))).unwrap();

    let mut vec_c: Vec<u8> = Vec::new();
    put32(&mut vec_c, 16 + 3 * 4);
    put32(&mut vec_c, TYPE_CHOICE);
    put32(&mut vec_c, CHOICE_RANGE);
    put32(&mut vec_c, 0);
    put32(&mut vec_c, 4);
    put32(&mut vec_c, TYPE_FLOAT);
    for v in [440.0f32, 110.0, 880.0] {
        vec_c.extend_from_slice(&v.to_ne_bytes());
    }
    vec_c.extend_from_slice(&[0u8; 4]);
    assert_eq!(vec_rs, vec_c);
    assert_eq!(vec_rs, vec_rs_val);

    assert_eq!(
        PodDeserializer::deserialize_from(&vec_c),
        Ok((empty(), choice.clone()))
    );

    assert_eq!(
        PodDeserializer::deserialize_any_from(&vec_c),
        Ok((empty(), Value::Choice(ChoiceValue::Float(choice))))
    );
}

#[test]
fn choice_range_i32() {
    let choice = Choice(
        ChoiceFlags::empty(),
        ChoiceEnum::Range {
            default: 5,
            min: 2,
            max: 10,
        },
    );

    let vec_rs: Vec<u8> = PodSerializer::serialize(&choice).unwrap();
    let vec_rs_val: Vec<u8> =
        PodSerializer::serialize(&Value::Choice(ChoiceValue::Int(choice.clone()))).unwrap();

    let mut vec_c: Vec<u8> = Vec::new();
    put32(&mut vec_c, 16 + 3 * 4);
    put32(&mut vec_c, TYPE_CHOICE);
    put32(&mut vec_c, CHOICE_RANGE);
    put32(&mut vec_c, 0);
    put32(&mut vec_c, 4);
    put32(&mut vec_c, TYPE_INT);
    for v in [5i32, 2, 10] {
        vec_c.extend_from_slice(&v.to_ne_bytes());
    }
    vec_c.extend_from_slice(&[0u8; 4]);
    assert_eq!(vec_rs, vec_c);
    assert_eq!(vec_rs, vec_rs_val);

    assert_eq!(
        PodDeserializer::deserialize_from(&vec_c),
        Ok((empty(), choice.clone()))
    );

    assert_eq!(
        PodDeserializer::deserialize_any_from(&vec_c),
        Ok((empty(), Value::Choice(ChoiceValue::Int(choice))))
    );
}

#[test]
fn choice_none_i32() {
    let choice = Choice(ChoiceFlags::empty(), ChoiceEnum::Fixed(5));

    let vec_rs: Vec<u8> = PodSerializer::serialize(&choice).unwrap();
    let vec_rs_val: Vec<u8> =
        PodSerializer::serialize(&Value::Choice(ChoiceValue::Int(choice.clone()))).unwrap();

    let mut vec_c: Vec<u8> = Vec::new();
    put32(&mut vec_c, 16 + 1 * 4);
    put32(&mut vec_c, TYPE_CHOICE);
    put32(&mut vec_c, CHOICE_NONE);
    put32(&mut vec_c, 0);
    put32(&mut vec_c, 4);
    put32(&mut vec_c, TYPE_INT);
    vec_c.extend_from_slice(&5i32.to_ne_bytes());
    vec_c.extend_from_slice(&[0u8; 4]);
    assert_eq!(vec_rs, vec_c);
    assert_eq!(vec_rs, vec_rs_val);

    assert_eq!(
        PodDeserializer::deserialize_from(&vec_c),
        Ok((empty(), choice.clone()))
    );

    assert_eq!(
        PodDeserializer::deserialize_any_from(&vec_c),
        Ok((empty(), Value::Choice(ChoiceValue::Int(choice))))
    );
}

#[test]
fn choice_step_i32() {
    let choice = Choice(
        ChoiceFlags::empty(),
        ChoiceEnum::Step {
            default: 5,
            min: 2,
            max: 10,
            step: 1,
        },
    );

    let vec_rs: Vec<u8> = PodSerializer::serialize(&choice).unwrap();
    let vec_rs_val: Vec<u8> =
        PodSerializer::serialize(&Value::Choice(ChoiceValue::Int(choice.clone()))).unwrap();

    let mut vec_c: Vec<u8> = Vec::new();
    put32(&mut vec_c, 16 + 4 * 4);
    put32(&mut vec_c, TYPE_CHOICE);
    put32(&mut vec_c, CHOICE_STEP);
    put32(&mut vec_c, 0);
    put32(&mut vec_c, 4);
    put32(&mut vec_c, TYPE_INT);
    for v in [5i32, 2, 10, 1] {
        vec_c.extend_from_slice(&v.to_ne_bytes());
    }
    assert_eq!(vec_rs, vec_c);
    assert_eq!(vec_rs, vec_rs_val);

    assert_eq!(
        PodDeserializer::deserialize_from(&vec_c),
        Ok((empty(), choice.clone()))
    );

    assert_eq!(
        PodDeserializer::deserialize_any_from(&vec_c),
        Ok((empty(), Value::Choice(ChoiceValue::Int(choice))))
    );
}

#[test]
fn choice_enum_i32() {
    let choice = Choice(
        ChoiceFlags::empty(),
        ChoiceEnum::Enum {
            default: 5,
            alternatives: vec![2, 10, 1],
        },
    );

    let vec_rs: Vec<u8> = PodSerializer::serialize(&choice).unwrap();
    let vec_rs_val: Vec<u8> =
        PodSerializer::serialize(&Value::Choice(ChoiceValue::Int(choice.clone()))).unwrap();

    let mut vec_c: Vec<u8> = Vec::new();
    put32(&mut vec_c, 16 + 4 * 4);
    put32(&mut vec_c, TYPE_CHOICE);
    put32(&mut vec_c, CHOICE_ENUM);
    put32(&mut vec_c, 0);
    put32(&mut vec_c, 4);
    put32(&mut vec_c, TYPE_INT);
    for v in [5i32, 2, 10, 1] {
        vec_c.extend_from_slice(&v.to_ne_bytes());
    }
    assert_eq!(vec_rs, vec_c);
    assert_eq!(vec_rs, vec_rs_val);

    assert_eq!(
        PodDeserializer::deserialize_from(&vec_c),
        Ok((empty(), choice.clone()))
    );

    assert_eq!(
        PodDeserializer::deserialize_any_from(&vec_c),
        Ok((empty(), Value::Choice(ChoiceValue::Int(choice))))
    );
}

#[test]
fn choice_flags_i32() {
    let choice = Choice(
        ChoiceFlags::empty(),
        ChoiceEnum::Flags {
            default: 5,
            flags: vec![2, 10, 1],
        },
    );

    let vec_rs: Vec<u8> = PodSerializer::serialize(&choice).unwrap();
    let vec_rs_val: Vec<u8> =
        PodSerializer::serialize(&Value::Choice(ChoiceValue::Int(choice.clone()))).unwrap();

    let mut vec_c: Vec<u8> = Vec::new();
    put32(&mut vec_c, 16 + 4 * 4);
    put32(&mut vec_c, TYPE_CHOICE);
    put32(&mut vec_c, CHOICE_FLAGS);
    put32(&mut vec_c, 0);
    put32(&mut vec_c, 4);
    put32(&mut vec_c, TYPE_INT);
    for v in [5i32, 2, 10, 1] {
        vec_c.extend_from_slice(&v.to_ne_bytes());
    }
    assert_eq!(vec_rs, vec_c);
    assert_eq!(vec_rs, vec_rs_val);

    assert_eq!(
        PodDeserializer::deserialize_from(&vec_c),
        Ok((empty(), choice.clone()))
    );

    assert_eq!(
        PodDeserializer::deserialize_any_from(&vec_c),
        Ok((empty(), Value::Choice(ChoiceValue::Int(choice))))
    );
}

#[test]
fn choice_range_i64() {
    let choice = Choice(
        ChoiceFlags::empty(),
        ChoiceEnum::Range {
            default: 440_i64,
            min: 110,
            max: 880,
        },
    );

    let vec_rs: Vec<u8> = PodSerializer::serialize(&choice).unwrap();
    let vec_rs_val: Vec<u8> =
        PodSerializer::serialize(&Value::Choice(ChoiceValue::Long(choice.clone()))).unwrap();

    let mut vec_c: Vec<u8> = Vec::new();
    put32(&mut vec_c, 16 + 3 * 8);
    put32(&mut vec_c, TYPE_CHOICE);
    put32(&mut vec_c, CHOICE_RANGE);
    put32(&mut vec_c, 0);
    put32(&mut vec_c, 8);
    put32(&mut vec_c, TYPE_LONG);
    for v in [440i64, 110, 880] {
        vec_c.extend_from_slice(&v.to_ne_bytes());
    }
    assert_eq!(vec_rs, vec_c);
    assert_eq!(vec_rs, vec_rs_val);

    assert_eq!(
        PodDeserializer::deserialize_from(&vec_c),
        Ok((empty(), choice.clone()))
    );

    assert_eq!(
        PodDeserializer::deserialize_any_from(&vec_c),
        Ok((empty(), Value::Choice(ChoiceValue::Long(choice))))
    );
}

#[test]
fn choice_range_f64() {
    let choice = Choice(
        ChoiceFlags::empty(),
        ChoiceEnum::Range {
            default: DoubleBits(440.0f64.to_bits()),
            min: DoubleBits(110.0f64.to_bits()),
            max: DoubleBits(880.0f64.to_bits()),
        },
    );

    let vec_rs: Vec<u8> = PodSerializer::serialize(&choice).unwrap();
    let vec_rs_val: Vec<u8> =
        PodSerializer::serialize(&Value::Choice(ChoiceValue::Double(choice.clone()))).unwrap();

    let mut vec_c: Vec<u8> = Vec::new();
    put32(&mut vec_c, 16 + 3 * 8);
    put32(&mut vec_c, TYPE_CHOICE);
    put32(&mut vec_c, CHOICE_RANGE);
    put32(&mut vec_c, 0);
    put32(&mut vec_c, 8);
    put32(&mut vec_c, TYPE_DOUBLE);
    for v in [440.0f64, 110.0, 880.0] {
        vec_c.extend_from_slice(&v.to_ne_bytes());
    }
    assert_eq!(vec_rs, vec_c);
    assert_eq!(vec_rs, vec_rs_val);

    assert_eq!(
        PodDeserializer::deserialize_from(&vec_c),
        Ok((empty(), choice.clone()))
    );

    assert_eq!(
        PodDeserializer::deserialize_any_from(&vec_c),
        Ok((empty(), Value::Choice(ChoiceValue::Double(choice))))
    );
}

#[test]
fn choice_enum_id() {
    let choice = Choice(
        ChoiceFlags::empty(),
        ChoiceEnum::Enum {
            default: Id(5),
            alternatives: vec![Id(2), Id(10), Id(1)],
        },
    );

    let vec_rs: Vec<u8> = PodSerializer::serialize(&choice).unwrap();
    let vec_rs_val: Vec<u8> =
        PodSerializer::serialize(&Value::Choice(ChoiceValue::Id(choice.clone()))).unwrap();

    let mut vec_c: Vec<u8> = Vec::new();
    put32(&mut vec_c, 16 + 4 * 4);
    put32(&mut vec_c, TYPE_CHOICE);
    put32(&mut vec_c, CHOICE_ENUM);
    put32(&mut vec_c, 0);
    put32(&mut vec_c, 4);
    put32(&mut vec_c, TYPE_ID);
    for v in [5u32, 2, 10, 1] {
        put32(&mut vec_c, v);
    }
    assert_eq!(vec_rs, vec_c);
    assert_eq!(vec_rs, vec_rs_val);

    assert_eq!(
        PodDeserializer::deserialize_from(&vec_c),
        Ok((empty(), choice.clone()))
    );

    assert_eq!(
        PodDeserializer::deserialize_any_from(&vec_c),
        Ok((empty(), Value::Choice(ChoiceValue::Id(choice))))
    );
}

#[test]
fn choice_enum_rectangle() {
    let choice = Choice(
        ChoiceFlags::empty(),
        ChoiceEnum::Enum {
            default: Rectangle {
                width: 800,
                height: 600,
            },
            alternatives: vec![
                Rectangle {
                    width: 1920,
                    height: 1080,
                },
                Rectangle {
                    width: 300,
                    height: 200,
                },
            ],
        },
    );

    let vec_rs: Vec<u8> = PodSerializer::serialize(&choice).unwrap();
    let vec_rs_val: Vec<u8> =
        PodSerializer::serialize(&Value::Choice(ChoiceValue::Rectangle(choice.clone()))).unwrap();

    let mut vec_c: Vec<u8> = Vec::new();
    put32(&mut vec_c, 16 + 3 * 8);
    put32(&mut vec_c, TYPE_CHOICE);
    put32(&mut vec_c, CHOICE_ENUM);
    put32(&mut vec_c, 0);
    put32(&mut vec_c, 8);
    put32(&mut vec_c, TYPE_RECTANGLE);
    for v in [800u32, 600, 1920, 1080, 300, 200] {
        put32(&mut vec_c, v);
    }
    assert_eq!(vec_rs, vec_c);
    assert_eq!(vec_rs, vec_rs_val);

    assert_eq!(
        PodDeserializer::deserialize_from(&vec_c),
        Ok((empty(), choice.clone()))
    );

    assert_eq!(
        PodDeserializer::deserialize_any_from(&vec_c),
        Ok((empty(), Value::Choice(ChoiceValue::Rectangle(choice))))
    );
}

#[test]
fn choice_enum_fraction() {
    let choice = Choice(
        ChoiceFlags::empty(),
        ChoiceEnum::Enum {
            default: Fraction { num: 1, denom: 2 },
            alternatives: vec![Fraction { num: 2, denom: 3 }, Fraction { num: 1, denom: 3 }],
        },
    );

    let vec_rs: Vec<u8> = PodSerializer::serialize(&choice).unwrap();
    let vec_rs_val: Vec<u8> =
        PodSerializer::serialize(&Value::Choice(ChoiceValue::Fraction(choice.clone()))).unwrap();

    let mut vec_c: Vec<u8> = Vec::new();
    put32(&mut vec_c, 16 + 3 * 8);
    put32(&mut vec_c, TYPE_CHOICE);
    put32(&mut vec_c, CHOICE_ENUM);
    put32(&mut vec_c, 0);
    put32(&mut vec_c, 8);
    put32(&mut vec_c, TYPE_FRACTION);
    for v in [1u32, 2, 2, 3, 1, 3] {
        put32(&mut vec_c, v);
    }
    assert_eq!(vec_rs, vec_c);
    assert_eq!(vec_rs, vec_rs_val);

    assert_eq!(
        PodDeserializer::deserialize_from(&vec_c),
        Ok((empty(), choice.clone()))
    );

    assert_eq!(
        PodDeserializer::deserialize_any_from(&vec_c),
        Ok((empty(), Value::Choice(ChoiceValue::Fraction(choice))))
    );
}

#[test]
fn choice_enum_fd() {
    let choice = Choice(
        ChoiceFlags::empty(),
        ChoiceEnum::Enum {
            default: Fd(5),
            alternatives: vec![Fd(2), Fd(10), Fd(1)],
        },
    );

    let vec_rs: Vec<u8> = PodSerializer::serialize(&choice).unwrap();
    let vec_rs_val: Vec<u8> =
        PodSerializer::serialize(&Value::Choice(ChoiceValue::Fd(choice.clone()))).unwrap();

    let mut vec_c: Vec<u8> = Vec::new();
    put32(&mut vec_c, 16 + 4 * 8);
    put32(&mut vec_c, TYPE_CHOICE);
    put32(&mut vec_c, CHOICE_ENUM);
    put32(&mut vec_c, 0);
    put32(&mut vec_c, 8);
    put32(&mut vec_c, TYPE_FD);
    for v in [5i64, 2, 10, 1] {
        vec_c.extend_from_slice(&v.to_ne_bytes());
    }
    assert_eq!(vec_rs, vec_c);
    assert_eq!(vec_rs, vec_rs_val);

    assert_eq!(
        PodDeserializer::deserialize_from(&vec_c),
        Ok((empty(), choice.clone()))
    );

    assert_eq!(
        PodDeserializer::deserialize_any_from(&vec_c),
        Ok((empty(), Value::Choice(ChoiceValue::Fd(choice))))
    );
}

#[test]
fn choice_extra_values() {
    // deserialize a fixed-kind choice having more than one value; the extra
    // values are consumed and ignored.
    let choice = Choice(ChoiceFlags::empty(), ChoiceEnum::Fixed(5));

    let mut vec_c: Vec<u8> = Vec::new();
    put32(&mut vec_c, 32);
    put32(&mut vec_c, TYPE_CHOICE);
    put32(&mut vec_c, CHOICE_NONE);
    put32(&mut vec_c, 0);
    put32(&mut vec_c, 4);
    put32(&mut vec_c, TYPE_INT);
    for v in [5i32, 6, 7, 8] {
        vec_c.extend_from_slice(&v.to_ne_bytes());
    }

    assert_eq!(
        PodDeserializer::deserialize_from(&vec_c),
        Ok((empty(), choice))
    );
}
