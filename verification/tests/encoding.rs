use serde_redis::encode::{Error, Serializer};
use serde_redis::host::{Field, Host, Payload, Shape, Variant};
use serde_redis::text::IntKind;
use serde_redis::value::WireValue;
use serde_redis::{from_redis_value, RedisDeserialize};

fn data(text: &str) -> WireValue {
    WireValue::Data(text.as_bytes().to_vec())
}

fn text(s: &str) -> Host {
    Host::Str(s.to_owned())
}

#[test]
fn a_struct_is_written_in_the_order_of_its_declaration() {
    let v = Host::Struct(vec![("a", text("x")), ("b", text("y"))]);
    assert_eq!(
        v.serialize(Serializer),
        Ok(WireValue::Bulk(vec![data("a"), data("x"), data("b"), data("y")]))
    );
    let v = Host::Struct(vec![("b", text("y")), ("a", text("x"))]);
    assert_eq!(
        v.serialize(Serializer),
        Ok(WireValue::Bulk(vec![data("b"), data("y"), data("a"), data("x")]))
    );
    assert_eq!(Host::Struct(vec![]).serialize(Serializer), Ok(WireValue::Bulk(vec![])));
}

#[test]
fn numbers_are_written_as_text() {
    assert_eq!(Serializer.serialize_u8(0), Ok(data("0")));
    assert_eq!(Serializer.serialize_u8(255), Ok(data("255")));
    assert_eq!(Serializer.serialize_u16(65535), Ok(data("65535")));
    assert_eq!(Serializer.serialize_u32(u32::MAX), Ok(data("4294967295")));
    assert_eq!(Serializer.serialize_u64(u64::MAX), Ok(data("18446744073709551615")));
    assert_eq!(Serializer.serialize_i8(-128), Ok(data("-128")));
    assert_eq!(Serializer.serialize_i16(-1), Ok(data("-1")));
    assert_eq!(Serializer.serialize_i32(i32::MIN), Ok(data("-2147483648")));
    assert_eq!(Serializer.serialize_i64(i64::MIN), Ok(data("-9223372036854775808")));
}

#[test]
fn scalars_are_written_as_byte_strings() {
    assert_eq!(Serializer.serialize_bool(true), Ok(data("1")));
    assert_eq!(Serializer.serialize_bool(false), Ok(data("0")));
    assert_eq!(Serializer.serialize_char('x'), Ok(data("x")));
    assert_eq!(Serializer.serialize_char('é'), Ok(WireValue::Data(vec![0xc3, 0xa9])));
    assert_eq!(Serializer.serialize_str("grüße"), Ok(data("grüße")));
    assert_eq!(Serializer.serialize_str(""), Ok(data("")));
    assert_eq!(
        Serializer.serialize_bytes(&[0, 255, 7]),
        Ok(WireValue::Data(vec![0, 255, 7]))
    );
    assert_eq!(
        Serializer.serialize_unit_variant("Fruit", 1, "Apple"),
        Ok(data("Apple"))
    );
}

#[test]
fn nothing_is_written_as_a_nil() {
    assert_eq!(Serializer.serialize_none(), Ok(WireValue::Nil));
    assert_eq!(Serializer.serialize_unit(), Ok(WireValue::Nil));
    assert_eq!(Serializer.serialize_unit_struct("Marker"), Ok(WireValue::Nil));
    assert_eq!(Host::Unit.serialize(Serializer), Ok(WireValue::Nil));
    assert_eq!(Host::Absent.serialize(Serializer), Ok(WireValue::Nil));
}

#[test]
fn wrappers_are_written_as_what_they_wrap() {
    assert_eq!(Serializer.serialize_some(&Host::U8(3)), Ok(data("3")));
    assert_eq!(
        Serializer.serialize_newtype_struct("Wrapper", &text("in")),
        Ok(data("in"))
    );
    assert_eq!(
        Host::Present(Box::new(Host::Newtype(Box::new(Host::Bool(true))))).serialize(Serializer),
        Ok(data("1"))
    );
}

#[test]
fn a_list_is_written_item_by_item() {
    let mut list = Serializer.serialize_seq(Some(2)).unwrap();
    list.serialize_element(&Host::U8(1)).unwrap();
    list.serialize_element(&text("two")).unwrap();
    assert_eq!(list.end(), Ok(WireValue::Bulk(vec![data("1"), data("two")])));

    let list = Serializer.serialize_seq(None).unwrap();
    assert_eq!(list.end(), Ok(WireValue::Bulk(vec![])));

    let mut list = Serializer.serialize_tuple(1).unwrap();
    list.serialize_element(&Host::Absent).unwrap();
    assert_eq!(list.end(), Ok(WireValue::Bulk(vec![WireValue::Nil])));

    let mut list = Serializer.serialize_tuple_struct("Pair", 2).unwrap();
    list.serialize_tuple_field(&Host::I8(-1)).unwrap();
    list.serialize_tuple_field(&Host::I8(1)).unwrap();
    assert_eq!(list.end(), Ok(WireValue::Bulk(vec![data("-1"), data("1")])));
}

#[test]
fn a_map_is_written_as_keys_and_values_in_turn() {
    let mut list = Serializer.serialize_map(Some(1)).unwrap();
    list.serialize_key(&text("k")).unwrap();
    list.serialize_value(&Host::U8(9)).unwrap();
    assert_eq!(list.end(), Ok(WireValue::Bulk(vec![data("k"), data("9")])));

    let list = Serializer.serialize_map(None).unwrap();
    assert_eq!(list.end(), Ok(WireValue::Bulk(vec![])));

    let v = Host::Mapping(vec![
        (Host::U8(2), text("two")),
        (Host::U8(1), text("one")),
    ]);
    assert_eq!(
        v.serialize(Serializer),
        Ok(WireValue::Bulk(vec![data("2"), data("two"), data("1"), data("one")]))
    );
}

#[test]
fn a_field_is_written_as_its_name_and_its_value() {
    let mut list = Serializer.serialize_struct("Named", 2).unwrap();
    list.serialize_field("first", &Host::Bool(false)).unwrap();
    list.serialize_field("second", &Host::Sequence(vec![])).unwrap();
    assert_eq!(
        list.end(),
        Ok(WireValue::Bulk(vec![
            data("first"),
            data("0"),
            data("second"),
            WireValue::Bulk(vec![]),
        ]))
    );
}

#[test]
fn a_variant_with_a_payload_cannot_be_written() {
    let newtype = Error::Custom("newtype variants are not supported".to_string());
    let tuple = Error::Custom("tuple variants are not supported".to_string());
    let named = Error::Custom("struct variants are not supported".to_string());
    assert_eq!(
        Serializer.serialize_newtype_variant("E", 0, "V", &Host::Unit),
        Err(newtype)
    );
    assert_eq!(
        Serializer.serialize_tuple_variant("E", 0, "V", 2).err(),
        Some(tuple)
    );
    assert_eq!(
        Serializer.serialize_struct_variant("E", 0, "V", 2).err(),
        Some(named)
    );
    assert_eq!(
        Host::NewtypeVariant("V", Box::new(Host::Unit)).serialize(Serializer),
        Err(Error::Custom("newtype variants are not supported".to_string()))
    );
    assert_eq!(
        Host::TupleVariant("V", vec![Host::Unit]).serialize(Serializer),
        Err(Error::Custom("tuple variants are not supported".to_string()))
    );
    assert_eq!(
        Host::StructVariant("V", vec![("x", Host::Unit)]).serialize(Serializer),
        Err(Error::Custom("struct variants are not supported".to_string()))
    );
}

#[test]
fn what_cannot_be_written_fails_the_whole_value() {
    let bad = || Host::TupleVariant("V", vec![]);
    let expected = Err(Error::Custom("tuple variants are not supported".to_string()));
    assert_eq!(Host::Sequence(vec![Host::U8(1), bad()]).serialize(Serializer), expected);
    assert_eq!(Host::Tuple(vec![bad(), Host::U8(1)]).serialize(Serializer), expected);
    assert_eq!(
        Host::Mapping(vec![(text("k"), bad())]).serialize(Serializer),
        expected
    );
    assert_eq!(
        Host::Mapping(vec![(bad(), text("v"))]).serialize(Serializer),
        expected
    );
    assert_eq!(
        Host::Struct(vec![("a", Host::U8(1)), ("b", bad())]).serialize(Serializer),
        expected
    );
    assert_eq!(Host::Present(Box::new(bad())).serialize(Serializer), expected);

    let mut list = Serializer.serialize_seq(None).unwrap();
    list.serialize_element(&Host::U8(1)).unwrap();
    assert!(list.serialize_element(&bad()).is_err());
    assert!(list.serialize_field("name", &bad()).is_err());
    assert!(list.serialize_key(&bad()).is_err());
    assert!(list.serialize_value(&bad()).is_err());
    assert!(list.serialize_tuple_field(&bad()).is_err());
    assert_eq!(list.end(), Ok(WireValue::Bulk(vec![data("1")])));
}

#[test]
fn the_message_of_an_error_names_it() {
    assert_eq!(
        Error::Custom("reason".to_string()).to_string(),
        "CustomError(reason)"
    );
}

#[test]
fn every_scalar_comes_back() {
    let scalars = vec![
        (Host::Bool(true), Shape::Bool),
        (Host::Bool(false), Shape::Bool),
        (Host::U8(0), Shape::Int(IntKind::U8)),
        (Host::U8(u8::MAX), Shape::Int(IntKind::U8)),
        (Host::U16(u16::MAX), Shape::Int(IntKind::U16)),
        (Host::U32(u32::MAX), Shape::Int(IntKind::U32)),
        (Host::U64(u64::MAX), Shape::Int(IntKind::U64)),
        (Host::I8(i8::MIN), Shape::Int(IntKind::I8)),
        (Host::I8(i8::MAX), Shape::Int(IntKind::I8)),
        (Host::I16(i16::MIN), Shape::Int(IntKind::I16)),
        (Host::I32(i32::MIN), Shape::Int(IntKind::I32)),
        (Host::I64(i64::MIN), Shape::Int(IntKind::I64)),
        (Host::I64(i64::MAX), Shape::Int(IntKind::I64)),
        (Host::I64(0), Shape::Int(IntKind::I64)),
        (Host::Char('a'), Shape::Char),
        (Host::Char('\u{10ffff}'), Shape::Char),
        (Host::Char('"'), Shape::Char),
        (text(""), Shape::Str),
        (text("true"), Shape::Str),
        (text("grüße, 世界"), Shape::Str),
        (Host::Bytes(vec![]), Shape::Bytes),
        (Host::Bytes(vec![0, 255, 128]), Shape::Bytes),
    ];
    for (host, shape) in &scalars {
        let reply = host.serialize(Serializer).unwrap();
        assert!(matches!(reply, WireValue::Data(_)), "{:?}", host);
        assert_eq!(&reply.deserialize(shape).unwrap(), host);
        assert_eq!(&from_redis_value(reply, shape).unwrap(), host);
    }
}

#[test]
fn a_value_that_fits_its_type_comes_back() {
    let shape = Shape::Struct(vec![
        Field { name: "id", shape: Shape::Newtype(Box::new(Shape::Int(IntKind::U64))) },
        Field { name: "tags", shape: Shape::Sequence(Box::new(Shape::Str)) },
        Field {
            name: "scores",
            shape: Shape::Mapping(Box::new(Shape::Str), Box::new(Shape::Int(IntKind::I16))),
        },
        Field { name: "nick", shape: Shape::Optional(Box::new(Shape::Str)) },
        Field { name: "age", shape: Shape::Optional(Box::new(Shape::Int(IntKind::U8))) },
        Field {
            name: "place",
            shape: Shape::Tuple(vec![Shape::Int(IntKind::I32), Shape::Char, Shape::Bool]),
        },
        Field {
            name: "kind",
            shape: Shape::Enum(vec![
                Variant { name: "Plain", payload: Payload::Unit },
                Variant { name: "Fancy", payload: Payload::Unit },
            ]),
        },
        Field { name: "raw", shape: Shape::Bytes },
        Field {
            name: "rows",
            shape: Shape::Sequence(Box::new(Shape::Struct(vec![
                Field { name: "a", shape: Shape::Str },
                Field { name: "b", shape: Shape::Str },
            ]))),
        },
    ]);
    let value = || {
        Host::Struct(vec![
            ("id", Host::Newtype(Box::new(Host::U64(u64::MAX)))),
            ("tags", Host::Sequence(vec![text("x"), text(""), text("ü")])),
            (
                "scores",
                Host::Mapping(vec![
                    (text("low"), Host::I16(i16::MIN)),
                    (text("high"), Host::I16(i16::MAX)),
                ]),
            ),
            ("nick", Host::Absent),
            ("age", Host::Present(Box::new(Host::U8(33)))),
            (
                "place",
                Host::Tuple(vec![Host::I32(-5), Host::Char('é'), Host::Bool(false)]),
            ),
            ("kind", Host::UnitVariant("Fancy")),
            ("raw", Host::Bytes(vec![0xff, 0x00])),
            (
                "rows",
                Host::Sequence(vec![
                    Host::Struct(vec![("a", text("x")), ("b", text("y"))]),
                    Host::Struct(vec![("a", text("p")), ("b", text("q"))]),
                ]),
            ),
        ])
    };
    let reply = value().serialize(Serializer).unwrap();
    assert_eq!(reply.deserialize(&shape), Ok(value()));
    assert_eq!(from_redis_value(reply, &shape), Ok(value()));
}

#[test]
fn a_value_whose_encoding_blurs_it_does_not_come_back() {
    // A value that is present and written as a nil reads as absent.
    let shape = Shape::Optional(Box::new(Shape::Optional(Box::new(Shape::Str))));
    let reply = Host::Present(Box::new(Host::Absent)).serialize(Serializer).unwrap();
    assert_eq!(reply.deserialize(&shape), Ok(Host::Absent));
    // A value that is present and written as a list is refused.
    let shape = Shape::Optional(Box::new(Shape::Sequence(Box::new(Shape::Str))));
    let reply = Host::Present(Box::new(Host::Sequence(vec![]))).serialize(Serializer).unwrap();
    assert!(reply.deserialize(&shape).is_err());
    // A unit is written as a nil, which is no unit.
    let reply = Host::Unit.serialize(Serializer).unwrap();
    assert!(reply.deserialize(&Shape::Unit).is_err());
}
