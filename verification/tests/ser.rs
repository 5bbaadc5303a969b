use std::collections::HashMap;

use serde_redis::decode::Deserializer;
use serde_redis::encode::Serializer;
use serde_redis::host::{Host, Shape};
use serde_redis::text::IntKind;
use serde_redis::value::WireValue;

fn data(text: &str) -> WireValue {
    WireValue::Data(text.as_bytes().to_vec())
}

fn text(s: &str) -> Host {
    Host::Str(s.to_owned())
}

fn fruit_of(name: &str) -> Host {
    Host::Newtype(Box::new(text(name)))
}

fn simple_of(a: Host, b: Host) -> Host {
    Host::Struct(vec![("a", a), ("b", b)])
}

#[test]
fn serialize_unit_struct_string() {
    let v = Host::Newtype(Box::new(text("hello")));

    let actual = v.serialize(Serializer).unwrap();
    let expected = data("hello");

    assert_eq!(expected, actual);
}

#[test]
fn serialize_unit_struct_u8_redis_int() {
    let v = Host::Newtype(Box::new(Host::U8(5u8)));

    let actual = v.serialize(Serializer).unwrap();
    let expected = data("5");

    assert_eq!(expected, actual);
}

#[test]
fn serialize_bool() {
    let v = Host::Newtype(Box::new(Host::Tuple(vec![
        Host::Bool(true),
        Host::Bool(false),
    ])));

    let actual = v.serialize(Serializer).unwrap();
    let expected = WireValue::Bulk(vec![data("1"), data("0")]);

    assert_eq!(expected, actual);
}

#[test]
fn serialize_tuple() {
    let inner = Host::Tuple(vec![Host::I32(5), text("hello")]);
    let v = Host::Newtype(Box::new(Host::Tuple(vec![Host::I32(5), text("hello")])));

    let actual = v.serialize(Serializer).unwrap();
    let expected = WireValue::Bulk(vec![data("5"), data("hello")]);

    assert_eq!(expected, actual);

    // Test decoder
    let de = Deserializer::new(&expected);
    let decoded = Shape::Tuple(vec![Shape::Int(IntKind::I32), Shape::Str])
        .deserialize(de)
        .unwrap();
    assert_eq!(decoded, inner);
}

#[test]
fn serialize_hash_map_strings() {
    let mut v = HashMap::new();
    v.insert("a".to_string(), "apple".to_string());
    v.insert("b".to_string(), "banana".to_string());

    let host = Host::Mapping(v.iter().map(|(k, v)| (text(k), text(v))).collect());
    let actual = host.serialize(Serializer).unwrap();

    // HashMap is not sorted
    if let WireValue::Bulk(values) = actual {
        assert!(values.contains(&data("a")));
        assert!(values.contains(&data("apple")));
        assert!(values.contains(&data("b")));
        assert!(values.contains(&data("banana")));
    }
}

#[test]
fn serialize_float() {
    let v = "3.14159".parse::<f32>().unwrap();

    let actual = Serializer.serialize_str(&v.to_string()).unwrap();
    let expected = data("3.14159");

    assert_eq!(actual, expected);
}

#[test]
fn serialize_hash_map_string_u8() {
    let mut v = HashMap::new();
    v.insert("a".to_string(), 1);
    v.insert("b".to_string(), 2);

    let host = Host::Mapping(v.iter().map(|(k, v)| (text(k), Host::I32(*v))).collect());
    let actual = host.serialize(Serializer).unwrap();
    // HashMap is not sorted
    if let WireValue::Bulk(values) = actual {
        assert!(values.contains(&data("a")));
        assert!(values.contains(&data("1")));
        assert!(values.contains(&data("b")));
        assert!(values.contains(&data("2")));
    }
}

#[test]
fn serialize_enum() {
    let v = Host::Tuple(vec![Host::UnitVariant("Orange"), Host::UnitVariant("Apple")]);

    let actual = v.serialize(Serializer).unwrap();
    let expected = WireValue::Bulk(vec![data("Orange"), data("Apple")]);

    assert_eq!(expected, actual);
}

#[test]
fn serialize_option() {
    let v = Host::Absent;

    let actual = v.serialize(Serializer).unwrap();

    assert_eq!(WireValue::Nil, actual);
}

#[test]
fn serialize_vec_of_strings() {
    let v = Host::Sequence(vec![text("first"), text("second"), text("third")]);

    let actual = v.serialize(Serializer).unwrap();
    let expected = WireValue::Bulk(vec![data("first"), data("second"), data("third")]);

    assert_eq!(expected, actual);
}

#[test]
fn serialize_vec_of_newtype() {
    let v = Host::Sequence(vec![
        fruit_of("first"),
        fruit_of("second"),
        fruit_of("third"),
    ]);

    let actual = v.serialize(Serializer).unwrap();

    let expected = WireValue::Bulk(vec![data("first"), data("second"), data("third")]);

    assert_eq!(expected, actual);
}

#[test]
fn serialize_pipelined_hmap() {
    let v = Host::Sequence(vec![
        simple_of(text("apple"), text("banana")),
        simple_of(text("art"), text("bold")),
    ]);

    let actual = v.serialize(Serializer).unwrap();
    let expected = WireValue::Bulk(vec![
        WireValue::Bulk(vec![data("a"), data("apple"), data("b"), data("banana")]),
        WireValue::Bulk(vec![data("a"), data("art"), data("b"), data("bold")]),
    ]);

    assert_eq!(expected, actual);
}

#[test]
fn serialize_pipelined_single_hmap() {
    let v = Host::Sequence(vec![simple_of(text("apple"), text("banana"))]);

    let actual = v.serialize(Serializer).unwrap();

    let expected = WireValue::Bulk(vec![WireValue::Bulk(vec![
        data("a"),
        data("apple"),
        data("b"),
        data("banana"),
    ])]);

    assert_eq!(expected, actual);
}

#[test]
fn serialize_struct_with_newtype_field() {
    let v = simple_of(fruit_of("apple"), fruit_of("banana"));

    let actual = v.serialize(Serializer).unwrap();

    let expected = WireValue::Bulk(vec![data("a"), data("apple"), data("b"), data("banana")]);

    assert_eq!(expected, actual);
}

#[test]
fn ser_serialize_byte_buf() {
    let v = b"0123";
    let host = Host::Tuple(v.iter().map(|b| Host::U8(*b)).collect());
    let actual = host.serialize(Serializer).unwrap();

    let expected = WireValue::Bulk(vec![data("48"), data("49"), data("50"), data("51")]);
    assert_eq!(expected, actual);
}

#[test]
fn serialize_pipelined_single_hmap_newtype_fields() {
    let v = Host::Sequence(vec![simple_of(fruit_of("apple"), fruit_of("banana"))]);

    let actual = v.serialize(Serializer).unwrap();

    let expected = WireValue::Bulk(vec![WireValue::Bulk(vec![
        data("a"),
        data("apple"),
        data("b"),
        data("banana"),
    ])]);

    assert_eq!(expected, actual);
}

#[test]
fn serialize_nested_map_map_list() {
    let details = Host::Struct(vec![
        ("time", Host::I64(1473359995)),
        ("count", Host::U32(4)),
        (
            "ids",
            Host::Sequence(vec![
                text("00000000-0000-0000-0000-000000000000"),
                text("00000000-0000-0000-0000-000000000001"),
                text("00000000-0000-0000-0000-000000000002"),
            ]),
        ),
    ]);
    let v = Host::Mapping(vec![(text("key"), details)]);

    let actual = v.serialize(Serializer).unwrap();

    let expected = WireValue::Bulk(vec![
        data("key"),
        WireValue::Bulk(vec![
            data("time"),
            data("1473359995"),
            data("count"),
            data("4"),
            data("ids"),
            WireValue::Bulk(vec![
                data("00000000-0000-0000-0000-000000000000"),
                data("00000000-0000-0000-0000-000000000001"),
                data("00000000-0000-0000-0000-000000000002"),
            ]),
        ]),
    ]);

    assert_eq!(expected, actual);
}

#[test]
fn serialize_nested_item() {
    let v = Host::Sequence(vec![Host::Sequence(vec![Host::Sequence(vec![text("hi")])])]);

    let actual = v.serialize(Serializer).unwrap();

    let expected = WireValue::Bulk(vec![WireValue::Bulk(vec![WireValue::Bulk(vec![data(
        "hi",
    )])])]);
    assert_eq!(expected, actual);
}
