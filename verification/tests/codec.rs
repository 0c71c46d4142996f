use libspa::pod::deserialize::{
    DeserializeError, DeserializeSuccess, ObjectPodDeserializer, PodDeserialize, PodDeserializer,
    Visitor,
};
use libspa::pod::serialize::{encode, PodSerializer, SerializeError};
use libspa::pod::{
    Object, Property, PropertyFlags, Value, CHOICE_NONE, TYPE_BOOL, TYPE_CHOICE, TYPE_INT,
    TYPE_STRING, TYPE_STRUCT,
};
use libspa::utils::{Choice, ChoiceEnum, ChoiceFlags, Fd, FloatBits, Fraction, Id, Rectangle};

fn put32(out: &mut Vec<u8>, x: u32) {
    out.extend_from_slice(&x.to_ne_bytes());
}

fn empty() -> &'static [u8] {
    &[]
}

fn round_trips(v: Value) -> bool {
    let bytes = encode(&v).unwrap();
    PodDeserializer::deserialize_any_from(&bytes) == Ok((empty(), v))
}

#[test]
fn round_trip_boundary_values() {
    assert!(round_trips(Value::Unit));
    assert!(round_trips(Value::Bool(false)));
    assert!(round_trips(Value::Bool(true)));
    assert!(round_trips(Value::Int(0)));
    assert!(round_trips(Value::Int(i32::MIN)));
    assert!(round_trips(Value::Int(i32::MAX)));
    assert!(round_trips(Value::Long(0)));
    assert!(round_trips(Value::Long(i64::MIN)));
    assert!(round_trips(Value::Long(i64::MAX)));
    assert!(round_trips(Value::Float(FloatBits(0))));
    assert!(round_trips(Value::Float(FloatBits(u32::MAX))));
    assert!(round_trips(Value::Double(libspa::utils::DoubleBits(u64::MAX))));
    assert!(round_trips(Value::Id(Id(u32::MAX))));
    assert!(round_trips(Value::Fd(Fd(i64::MIN))));
    assert!(round_trips(Value::Rectangle(Rectangle { width: 0, height: u32::MAX })));
    assert!(round_trips(Value::Fraction(Fraction { num: u32::MAX, denom: 0 })));
    assert!(round_trips(Value::String(String::new())));
    assert!(round_trips(Value::String("snowman \u{2603} and friends".to_owned())));
    assert!(round_trips(Value::Bytes(Vec::new())));
}

#[test]
fn round_trip_nested() {
    let v = Value::Struct(vec![
        Value::Struct(vec![]),
        Value::Object(Object {
            type_: 9,
            id: 3,
            properties: vec![Property {
                key: 77,
                flags: PropertyFlags::from_bits(5),
                value: Value::Bytes(vec![1, 2, 3]),
            }],
        }),
        Value::Choice(libspa::pod::ChoiceValue::Int(Choice(
            ChoiceFlags::empty(),
            ChoiceEnum::Range { default: 1, min: 0, max: 9 },
        ))),
    ]);
    assert!(round_trips(v));
}

#[test]
fn encode_bool_exact_bytes() {
    // A boolean pod is 16 bytes: an 8-byte header, a 4-byte 0/1 body, and 4
    // bytes of padding.
    let bytes = encode(&Value::Bool(true)).unwrap();
    let mut expected: Vec<u8> = Vec::new();
    expected.extend_from_slice(&4u32.to_ne_bytes());
    expected.extend_from_slice(&TYPE_BOOL.to_ne_bytes());
    expected.extend_from_slice(&1u32.to_ne_bytes());
    expected.extend_from_slice(&[0u8; 4]);
    assert_eq!(bytes, expected);
    assert_eq!(bytes.len(), 16);
}

#[test]
fn bool_nonzero_body_decodes_true() {
    let mut buf: Vec<u8> = Vec::new();
    put32(&mut buf, 4);
    put32(&mut buf, TYPE_BOOL);
    put32(&mut buf, 2);
    buf.extend_from_slice(&[0u8; 4]);
    assert_eq!(
        PodDeserializer::deserialize_any_from(&buf),
        Ok((empty(), Value::Bool(true)))
    );
}

#[test]
fn struct_truncated_mid_field_fails() {
    let v = Value::Struct(vec![Value::Int(313), Value::Long(14)]);
    let bytes = encode(&v).unwrap();
    // Cut the struct in the middle of its second field; the header still
    // claims the full length, so the decode must fail, not return a partial
    // struct.
    let truncated = &bytes[..bytes.len() - 8];
    assert!(matches!(
        PodDeserializer::deserialize_any_from(truncated),
        Err(DeserializeError::Malformed(_))
    ));
}

#[test]
fn struct_leftover_bytes_fail() {
    // A struct whose declared body length is larger than its single field:
    // the field decode leaves bytes over, which is a framing error.
    let mut buf: Vec<u8> = Vec::new();
    put32(&mut buf, 20);
    put32(&mut buf, TYPE_STRUCT);
    put32(&mut buf, 4);
    put32(&mut buf, TYPE_INT);
    put32(&mut buf, 7);
    buf.extend_from_slice(&[0u8; 8]);
    assert!(matches!(
        PodDeserializer::deserialize_any_from(&buf),
        Err(DeserializeError::Malformed(_))
    ));
}

struct FrequencyFirstVisitor;

impl<'de> Visitor<'de> for FrequencyFirstVisitor {
    type Value = i32;
    type ArrayElem = std::convert::Infallible;

    fn visit_object(
        &self,
        object_deserializer: &mut ObjectPodDeserializer<'de>,
    ) -> Result<Self::Value, DeserializeError<&'de [u8]>> {
        // Ask for the second property first: property decode is
        // order-sensitive and must fail, not search ahead.
        let (value, _flags) = object_deserializer.deserialize_property_key::<i32>(2)?;
        Ok(value)
    }
}

struct InOrderVisitor;

impl<'de> Visitor<'de> for InOrderVisitor {
    type Value = (i32, i32);
    type ArrayElem = std::convert::Infallible;

    fn visit_object(
        &self,
        object_deserializer: &mut ObjectPodDeserializer<'de>,
    ) -> Result<Self::Value, DeserializeError<&'de [u8]>> {
        assert_eq!(object_deserializer.object_type(), 1);
        assert_eq!(object_deserializer.object_id(), 1);
        let (a, _) = object_deserializer.deserialize_property_key::<i32>(1)?;
        let (b, _) = object_deserializer.deserialize_property_key::<i32>(2)?;
        Ok((a, b))
    }
}

#[test]
fn object_key_order_is_enforced() {
    let v = Value::Object(Object {
        type_: 1,
        id: 1,
        properties: vec![
            Property {
                key: 1,
                flags: PropertyFlags::empty(),
                value: Value::Int(10),
            },
            Property {
                key: 2,
                flags: PropertyFlags::empty(),
                value: Value::Int(20),
            },
        ],
    });
    let bytes = encode(&v).unwrap();

    // Reading the keys in wire order succeeds.
    let d = PodDeserializer::deserialize_from::<ValuePair>(&bytes);
    assert_eq!(d, Ok((empty(), ValuePair(10, 20))));

    // Asking for key 2 while key 1 stands first fails with the key found.
    let r = PodDeserializer::deserialize_from::<FrequencyFirst>(&bytes);
    assert_eq!(r, Err(DeserializeError::PropertyWrongKey(1)));
}

#[derive(Debug, PartialEq)]
struct ValuePair(i32, i32);

impl<'de> PodDeserialize<'de> for ValuePair {
    fn deserialize(
        deserializer: PodDeserializer<'de>,
    ) -> Result<(Self, DeserializeSuccess<'de>), DeserializeError<&'de [u8]>> {
        deserializer
            .deserialize_object(InOrderVisitor)
            .map(|((a, b), s)| (ValuePair(a, b), s))
    }
}

#[derive(Debug, PartialEq)]
struct FrequencyFirst(i32);

impl<'de> PodDeserialize<'de> for FrequencyFirst {
    fn deserialize(
        deserializer: PodDeserializer<'de>,
    ) -> Result<(Self, DeserializeSuccess<'de>), DeserializeError<&'de [u8]>> {
        deserializer
            .deserialize_object(FrequencyFirstVisitor)
            .map(|(v, s)| (FrequencyFirst(v), s))
    }
}

#[test]
fn unknown_tag_is_invalid_type() {
    let mut buf: Vec<u8> = Vec::new();
    put32(&mut buf, 0);
    put32(&mut buf, 999);
    assert_eq!(
        PodDeserializer::deserialize_any_from(&buf),
        Err(DeserializeError::InvalidType)
    );
}

#[test]
fn unknown_choice_kind_is_invalid() {
    let mut buf: Vec<u8> = Vec::new();
    put32(&mut buf, 20);
    put32(&mut buf, TYPE_CHOICE);
    put32(&mut buf, 9);
    put32(&mut buf, 0);
    put32(&mut buf, 4);
    put32(&mut buf, TYPE_INT);
    put32(&mut buf, 5);
    buf.extend_from_slice(&[0u8; 4]);
    assert_eq!(
        PodDeserializer::deserialize_any_from(&buf),
        Err(DeserializeError::InvalidChoiceType)
    );
}

#[test]
fn choice_with_too_few_values_fails() {
    // A range choice needs three values; give it one.
    let mut buf: Vec<u8> = Vec::new();
    put32(&mut buf, 20);
    put32(&mut buf, TYPE_CHOICE);
    put32(&mut buf, 1);
    put32(&mut buf, 0);
    put32(&mut buf, 4);
    put32(&mut buf, TYPE_INT);
    put32(&mut buf, 5);
    buf.extend_from_slice(&[0u8; 4]);
    assert_eq!(
        PodDeserializer::deserialize_any_from(&buf),
        Err(DeserializeError::MissingChoiceValues)
    );
}

#[test]
fn truncated_header_is_malformed() {
    let buf: Vec<u8> = vec![4, 0, 0];
    assert!(matches!(
        PodDeserializer::deserialize_any_from(&buf),
        Err(DeserializeError::Malformed(_))
    ));
}

#[test]
fn invalid_utf8_string_is_malformed() {
    let mut buf: Vec<u8> = Vec::new();
    put32(&mut buf, 3);
    put32(&mut buf, TYPE_STRING);
    buf.extend_from_slice(&[0xff, 0xfe, 0x00]);
    buf.extend_from_slice(&[0u8; 5]);
    assert!(matches!(
        PodDeserializer::deserialize_any_from(&buf),
        Err(DeserializeError::Malformed(_))
    ));
}

#[test]
fn array_end_with_elements_left_fails() {
    let array: Vec<i32> = vec![10, 15, 19];
    let bytes = PodSerializer::serialize(array.as_slice()).unwrap();
    let deserializer_result = PodDeserializer::deserialize_from::<ShortArray>(&bytes);
    assert_eq!(
        deserializer_result,
        Err(DeserializeError::ElementCountMismatch)
    );
}

#[derive(Debug, PartialEq)]
struct ShortArray(Vec<i32>);

impl<'de> PodDeserialize<'de> for ShortArray {
    fn deserialize(
        deserializer: PodDeserializer<'de>,
    ) -> Result<(Self, DeserializeSuccess<'de>), DeserializeError<&'de [u8]>> {
        let (mut arr, _n) = deserializer.deserialize_array::<i32>()?;
        // Read only one element of three, then close: the reader must refuse.
        let first = arr.deserialize_element()?;
        let success = arr.end()?;
        Ok((ShortArray(vec![first]), success))
    }
}

#[test]
fn fixed_pod_tag_mismatch_fails() {
    // An Int pod does not decode as a Long: no implicit numeric coercion.
    let bytes = encode(&Value::Int(5)).unwrap();
    assert_eq!(
        PodDeserializer::deserialize_from::<i64>(&bytes),
        Err(DeserializeError::InvalidType)
    );
}

#[test]
fn encode_rejects_oversized_bytes_only() {
    // Well within the 32-bit length field: encoding succeeds.
    let v = Value::Bytes(vec![7u8; 1024]);
    assert!(encode(&v).is_ok());
}

#[test]
fn choice_extra_values_any_path() {
    // Four elements physically present in a fixed-kind choice: the decode
    // reports the first value and ignores the rest.
    let mut buf: Vec<u8> = Vec::new();
    put32(&mut buf, 32);
    put32(&mut buf, TYPE_CHOICE);
    put32(&mut buf, CHOICE_NONE);
    put32(&mut buf, 0);
    put32(&mut buf, 4);
    put32(&mut buf, TYPE_INT);
    for v in [5i32, 6, 7, 8] {
        buf.extend_from_slice(&v.to_ne_bytes());
    }
    assert_eq!(
        PodDeserializer::deserialize_any_from(&buf),
        Ok((
            empty(),
            Value::Choice(libspa::pod::ChoiceValue::Int(Choice(
                ChoiceFlags::empty(),
                ChoiceEnum::Fixed(5)
            )))
        ))
    );
}
