use std::borrow::Cow;

use serde_redis::decode::{Deserializer, Error, FloatSource};
use std::num::IntErrorKind;
use serde_redis::value::WireValue;

fn data(text: &str) -> WireValue {
    WireValue::Data(text.as_bytes().to_vec())
}

fn empty<'a>() -> Deserializer<'a> {
    Deserializer::new(Vec::<Cow<'a, WireValue>>::new())
}

fn wrong(message: &str) -> Error {
    Error::WrongValue(message.to_string())
}

#[test]
fn a_truth_value_is_one_of_six_words() {
    for word in ["1", "true", "True"] {
        assert_eq!(Deserializer::new(data(word)).deserialize_bool(), Ok(true));
        assert_eq!(Deserializer::new(&data(word)).deserialize_bool(), Ok(true));
    }
    for word in ["0", "false", "False"] {
        assert_eq!(Deserializer::new(data(word)).deserialize_bool(), Ok(false));
        assert_eq!(Deserializer::new(&data(word)).deserialize_bool(), Ok(false));
    }
}

#[test]
fn any_other_bytes_are_no_truth_value() {
    for word in ["", "2", "TRUE", "FALSE", "yes", "no", "tru", "truee", " true", "01", "t", "f"] {
        assert_eq!(
            Deserializer::new(data(word)).deserialize_bool(),
            Err(wrong(&format!("Expected 1/0/true/false/True/False, got {}", word))),
            "{:?}",
            word
        );
    }
    assert_eq!(
        Deserializer::new(WireValue::Data(vec![0xff])).deserialize_bool(),
        Err(wrong("Expected 1/0/true/false/True/False, got binary-data([255])"))
    );
}

#[test]
fn a_truth_value_is_no_other_reply() {
    assert_eq!(
        Deserializer::new(WireValue::Int(1)).deserialize_bool(),
        Err(wrong("Expected Data, got int(1)"))
    );
    assert_eq!(
        Deserializer::new(WireValue::Nil).deserialize_bool(),
        Err(wrong("Expected Data, got nil"))
    );
    assert_eq!(empty().deserialize_bool(), Err(Error::EndOfStream));
}

#[test]
fn an_integer_is_read_from_decimal_text() {
    assert_eq!(Deserializer::new(data("255")).deserialize_u8(), Ok(255));
    assert_eq!(Deserializer::new(data("65535")).deserialize_u16(), Ok(65535));
    assert_eq!(Deserializer::new(data("4294967295")).deserialize_u32(), Ok(u32::MAX));
    assert_eq!(
        Deserializer::new(data("18446744073709551615")).deserialize_u64(),
        Ok(u64::MAX)
    );
    assert_eq!(Deserializer::new(data("-128")).deserialize_i8(), Ok(-128));
    assert_eq!(Deserializer::new(data("-32768")).deserialize_i16(), Ok(i16::MIN));
    assert_eq!(Deserializer::new(data("-2147483648")).deserialize_i32(), Ok(i32::MIN));
    assert_eq!(
        Deserializer::new(&data("-9223372036854775808")).deserialize_i64(),
        Ok(i64::MIN)
    );
    assert_eq!(Deserializer::new(&data("+7")).deserialize_i64(), Ok(7));
}

fn parse_kind<T: std::fmt::Debug>(r: Result<T, Error>) -> IntErrorKind {
    match r {
        Err(Error::ParseInt(e)) => e.kind().clone(),
        other => panic!("no parse error: {:?}", other),
    }
}

#[test]
fn malformed_text_is_a_parse_error() {
    assert_eq!(
        parse_kind(Deserializer::new(data("")).deserialize_u8()),
        IntErrorKind::Empty
    );
    assert_eq!(
        parse_kind(Deserializer::new(data("12x")).deserialize_u16()),
        IntErrorKind::InvalidDigit
    );
    assert_eq!(
        parse_kind(Deserializer::new(data("3.5")).deserialize_i32()),
        IntErrorKind::InvalidDigit
    );
    assert_eq!(
        parse_kind(Deserializer::new(data("256")).deserialize_u8()),
        IntErrorKind::PosOverflow
    );
    assert_eq!(
        parse_kind(Deserializer::new(&data("-129")).deserialize_i8()),
        IntErrorKind::NegOverflow
    );
    assert_eq!(
        parse_kind(Deserializer::new(&data("-1")).deserialize_u64()),
        IntErrorKind::InvalidDigit
    );
}

#[test]
fn text_that_is_not_utf8_is_no_number() {
    let v = WireValue::Data(vec![b'1', 0xff]);
    assert!(matches!(
        Deserializer::new(&v).deserialize_u8(),
        Err(Error::StrFromUtf8(_))
    ));
    assert!(matches!(
        Deserializer::new(v).deserialize_u8(),
        Err(Error::StringFromUtf8(_))
    ));
}

#[test]
fn a_native_integer_is_cast_to_the_requested_type() {
    assert_eq!(Deserializer::new(WireValue::Int(5)).deserialize_u8(), Ok(5));
    assert_eq!(Deserializer::new(WireValue::Int(300)).deserialize_u8(), Ok(300i64 as u8));
    assert_eq!(Deserializer::new(WireValue::Int(300)).deserialize_u8(), Ok(44));
    assert_eq!(Deserializer::new(WireValue::Int(-1)).deserialize_u8(), Ok(255));
    assert_eq!(Deserializer::new(WireValue::Int(-1)).deserialize_u16(), Ok(u16::MAX));
    assert_eq!(Deserializer::new(WireValue::Int(-1)).deserialize_u32(), Ok(u32::MAX));
    assert_eq!(Deserializer::new(WireValue::Int(-1)).deserialize_u64(), Ok(u64::MAX));
    assert_eq!(Deserializer::new(WireValue::Int(128)).deserialize_i8(), Ok(-128));
    assert_eq!(Deserializer::new(WireValue::Int(65535)).deserialize_i16(), Ok(-1));
    assert_eq!(
        Deserializer::new(&WireValue::Int(4294967296 + 17)).deserialize_i32(),
        Ok(17)
    );
    assert_eq!(
        Deserializer::new(&WireValue::Int(i64::MIN)).deserialize_i64(),
        Ok(i64::MIN)
    );
    assert_eq!(
        Deserializer::new(&WireValue::Int(i64::MIN)).deserialize_u64(),
        Ok(i64::MIN as u64)
    );
}

#[test]
fn a_number_is_no_other_reply() {
    assert_eq!(
        Deserializer::new(WireValue::Nil).deserialize_u8(),
        Err(wrong("Expected Data or Int, got nil"))
    );
    assert_eq!(
        Deserializer::new(&WireValue::Bulk(vec![])).deserialize_i64(),
        Err(wrong("Expected Data or Int, got bulk()"))
    );
    assert_eq!(empty().deserialize_u32(), Err(Error::EndOfStream));
}

#[test]
fn a_float_is_read_from_text_or_from_an_integer() {
    use_float(Deserializer::new(data("2.5")).deserialize_f64(), 2.5);
    use_float(Deserializer::new(&data("-1e3")).deserialize_f64(), -1000.0);
    use_float(Deserializer::new(WireValue::Int(-4)).deserialize_f64(), -4.0);
    use_float(Deserializer::new(&WireValue::Int(7)).deserialize_f32(), 7.0);
    assert_eq!(
        Deserializer::new(&data("x")).deserialize_f32(),
        Ok(FloatSource::Text(Cow::Borrowed("x")))
    );
    assert!(matches!(
        Deserializer::new(data("x")).deserialize_f32(),
        Ok(FloatSource::Text(Cow::Owned(_)))
    ));
    assert!(matches!(
        Deserializer::new(&WireValue::Data(vec![0xff])).deserialize_f64(),
        Err(Error::StrFromUtf8(_))
    ));
    assert!(matches!(
        Deserializer::new(WireValue::Data(vec![0xff])).deserialize_f64(),
        Err(Error::StringFromUtf8(_))
    ));
    assert_eq!(
        Deserializer::new(WireValue::Nil).deserialize_f64(),
        Err(wrong("Expected Data or Int, got nil"))
    );
    assert_eq!(empty().deserialize_f32(), Err(Error::EndOfStream));
}

fn use_float(source: Result<FloatSource<'_>, Error>, expected: f64) {
    let actual = match source.unwrap() {
        FloatSource::Text(text) => text.parse::<f64>().unwrap(),
        FloatSource::Int(i) => i as f64,
    };
    assert_eq!(actual, expected);
}

#[test]
fn text_requests_read_the_text() {
    let v = data("héllo");
    assert_eq!(&*Deserializer::new(&v).deserialize_str().unwrap(), "héllo");
    assert_eq!(&*Deserializer::new(&v).deserialize_string().unwrap(), "héllo");
    assert_eq!(&*Deserializer::new(&v).deserialize_char().unwrap(), "héllo");
    assert_eq!(&*Deserializer::new(&v).deserialize_unit().unwrap(), "héllo");
    assert_eq!(
        &*Deserializer::new(&v).deserialize_unit_struct("Marker").unwrap(),
        "héllo"
    );
    assert_eq!(&*Deserializer::new(&v).deserialize_identifier().unwrap(), "héllo");
    assert_eq!(
        Deserializer::new(WireValue::Int(1)).deserialize_identifier(),
        Err(wrong("Expected Data, got int(1)"))
    );
    assert_eq!(empty().deserialize_str(), Err(Error::EndOfStream));
}

#[test]
fn byte_requests_read_the_bytes() {
    let v = WireValue::Data(vec![0, 159, 146, 150]);
    assert_eq!(&Deserializer::new(&v).deserialize_any().unwrap()[..], &[0, 159, 146, 150]);
    assert_eq!(&Deserializer::new(&v).deserialize_bytes().unwrap()[..], &[0, 159, 146, 150]);
    assert_eq!(
        &Deserializer::new(&v).deserialize_byte_buf().unwrap()[..],
        &[0, 159, 146, 150]
    );
    assert_eq!(
        Deserializer::new(WireValue::Nil).deserialize_any(),
        Err(wrong("Expected bytes, but got nil"))
    );
    assert_eq!(empty().deserialize_bytes(), Err(Error::EndOfStream));
}

#[test]
fn a_value_without_use_is_taken_whatever_it_is() {
    assert_eq!(Deserializer::new(data("x")).deserialize_ignored_any(), Ok(()));
    assert_eq!(Deserializer::new(WireValue::Int(1)).deserialize_ignored_any(), Ok(()));
    assert_eq!(Deserializer::new(WireValue::Nil).deserialize_ignored_any(), Ok(()));
    assert_eq!(
        Deserializer::new(WireValue::Bulk(vec![data("x")])).deserialize_ignored_any(),
        Ok(())
    );
    assert_eq!(empty().deserialize_ignored_any(), Err(Error::EndOfStream));
}

#[test]
fn an_optional_value_is_decided_by_a_look() {
    assert!(Deserializer::new(WireValue::Nil).deserialize_option().unwrap().is_none());
    assert!(empty().deserialize_option().unwrap().is_none());

    let mut rest = Deserializer::new(data("x")).deserialize_option().unwrap().unwrap();
    assert_eq!(rest.peek(), Some(&data("x")));
    let mut rest = Deserializer::new(WireValue::Int(3)).deserialize_option().unwrap().unwrap();
    assert_eq!(&*rest.next().unwrap(), &WireValue::Int(3));

    for other in [
        WireValue::Bulk(vec![]),
        WireValue::Okay,
        WireValue::Status("x".to_string()),
    ] {
        assert_eq!(
            Deserializer::new(other).deserialize_option().unwrap_err(),
            wrong("Expected Data, Int, or Nil")
        );
    }
}

#[test]
fn a_newtype_struct_reads_from_the_same_cursor() {
    let mut de = Deserializer::new(data("x")).deserialize_newtype_struct("Wrapper");
    assert_eq!(&*de.next().unwrap(), &data("x"));
}

#[test]
fn a_sequence_hands_out_a_cursor_for_each_item() {
    let v = WireValue::Bulk(vec![data("a"), WireValue::Int(2)]);
    let mut seq = Deserializer::new(&v).deserialize_seq().unwrap();
    assert_eq!(seq.size_hint(), None);
    let mut first = seq.next_element().unwrap();
    assert_eq!(&*first.next().unwrap(), &data("a"));
    assert_eq!(first.next(), Err(Error::EndOfStream));
    let second = seq.next_element().unwrap();
    assert_eq!(second.deserialize_u8(), Ok(2));
    assert!(seq.next_element().is_none());
    assert!(seq.next_element().is_none());

    let mut seq = Deserializer::new(v.clone()).deserialize_tuple(2).unwrap();
    assert_eq!(&*seq.next_element().unwrap().deserialize_str().unwrap(), "a");
    let mut seq = Deserializer::new(v).deserialize_tuple_struct("Pair", 2).unwrap();
    assert_eq!(&*seq.next_element().unwrap().deserialize_str().unwrap(), "a");

    assert_eq!(
        Deserializer::new(data("a")).deserialize_seq().err(),
        Some(wrong("expected bulk but got string-data('\"a\"')"))
    );
    assert_eq!(empty().deserialize_tuple(1).err(), Some(Error::EndOfStream));
}

#[test]
fn a_map_hands_out_keys_and_values_in_turn() {
    let v = WireValue::Bulk(vec![data("k"), WireValue::Int(1), data("lonely")]);
    let mut map = Deserializer::new(&v).deserialize_map().unwrap();
    assert_eq!(&*map.next_key().unwrap().deserialize_str().unwrap(), "k");
    assert_eq!(map.next_value().unwrap().deserialize_i8(), Ok(1));
    assert_eq!(&*map.next_key().unwrap().deserialize_str().unwrap(), "lonely");
    assert_eq!(map.next_value().err(), Some(Error::EndOfStream));
    assert!(map.next_key().is_none());

    let mut map = Deserializer::new(v).deserialize_struct("Named", &["k"]).unwrap();
    assert_eq!(&*map.next_key().unwrap().deserialize_identifier().unwrap(), "k");

    assert_eq!(
        Deserializer::new(WireValue::Nil).deserialize_map().err(),
        Some(wrong("expected bulk but got nil"))
    );
    assert_eq!(empty().deserialize_struct("Named", &[]).err(), Some(Error::EndOfStream));
}

#[test]
fn an_enum_is_its_name_and_a_nil_for_a_payload() {
    let visitor = Deserializer::new(data("Orange"))
        .deserialize_enum("Fruit", &["Orange", "Apple"])
        .unwrap();
    let (name, payload) = visitor.variant_seed();
    assert_eq!(&*name.deserialize_identifier().unwrap(), "Orange");
    assert_eq!(payload.unit_variant(), Ok(()));

    let (_, payload) = Deserializer::new(data("Orange"))
        .deserialize_enum("Fruit", &["Orange", "Apple"])
        .unwrap()
        .variant_seed();
    let mut inner = payload.newtype_variant();
    assert_eq!(&*inner.next().unwrap(), &WireValue::Nil);
    assert_eq!(inner.next(), Err(Error::EndOfStream));

    let (_, payload) = Deserializer::new(data("Orange"))
        .deserialize_enum("Fruit", &["Orange", "Apple"])
        .unwrap()
        .variant_seed();
    assert_eq!(
        payload.tuple_variant(2),
        Err(wrong("Expected bytes, but got nil"))
    );

    let (_, payload) = Deserializer::new(data("Orange"))
        .deserialize_enum("Fruit", &["Orange", "Apple"])
        .unwrap()
        .variant_seed();
    assert_eq!(
        payload.struct_variant(&["x"]),
        Err(wrong("Expected bytes, but got nil"))
    );

    assert_eq!(
        empty().deserialize_enum("Fruit", &["Orange"]).err(),
        Some(Error::EndOfStream)
    );
}
