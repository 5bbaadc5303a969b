use std::num::IntErrorKind;

use serde_redis::decode::{Deserializer, Error};
use serde_redis::text::{format_signed, format_unsigned};
use serde_redis::value::WireValue;

fn data(text: &str) -> WireValue {
    WireValue::Data(text.as_bytes().to_vec())
}

fn kind_of<T: std::fmt::Debug>(r: Result<T, Error>) -> IntErrorKind {
    match r {
        Err(Error::ParseInt(e)) => e.kind().clone(),
        other => panic!("no parse error: {:?}", other),
    }
}

const TEXTS: [&str; 40] = [
    "",
    "0",
    "1",
    "9",
    "10",
    "007",
    "+",
    "-",
    "+0",
    "-0",
    "+5",
    "-5",
    "++5",
    "+-5",
    "--5",
    " 5",
    "5 ",
    "5x",
    "x5",
    "12a4",
    "127",
    "128",
    "-128",
    "-129",
    "255",
    "256",
    "2567x",
    "-1297x",
    "32767",
    "32768",
    "65535",
    "65536",
    "2147483647",
    "2147483648",
    "-2147483649",
    "4294967296",
    "9223372036854775807",
    "9223372036854775808",
    "-9223372036854775809",
    "18446744073709551616",
];

#[test]
fn parse_u8_agrees_with_the_standard_library() {
    for text in TEXTS {
        let expected = text.parse::<u8>().map_err(Error::ParseInt);
        assert_eq!(Deserializer::new(data(text)).deserialize_u8(), expected, "{:?}", text);
        assert_eq!(Deserializer::new(&data(text)).deserialize_u8(), expected, "{:?}", text);
    }
}

#[test]
fn parse_u16_agrees_with_the_standard_library() {
    for text in TEXTS {
        let expected = text.parse::<u16>().map_err(Error::ParseInt);
        assert_eq!(Deserializer::new(data(text)).deserialize_u16(), expected, "{:?}", text);
        assert_eq!(Deserializer::new(&data(text)).deserialize_u16(), expected, "{:?}", text);
    }
}

#[test]
fn parse_u32_agrees_with_the_standard_library() {
    for text in TEXTS {
        let expected = text.parse::<u32>().map_err(Error::ParseInt);
        assert_eq!(Deserializer::new(data(text)).deserialize_u32(), expected, "{:?}", text);
        assert_eq!(Deserializer::new(&data(text)).deserialize_u32(), expected, "{:?}", text);
    }
}

#[test]
fn parse_u64_agrees_with_the_standard_library() {
    for text in TEXTS {
        let expected = text.parse::<u64>().map_err(Error::ParseInt);
        assert_eq!(Deserializer::new(data(text)).deserialize_u64(), expected, "{:?}", text);
        assert_eq!(Deserializer::new(&data(text)).deserialize_u64(), expected, "{:?}", text);
    }
}

#[test]
fn parse_i8_agrees_with_the_standard_library() {
    for text in TEXTS {
        let expected = text.parse::<i8>().map_err(Error::ParseInt);
        assert_eq!(Deserializer::new(data(text)).deserialize_i8(), expected, "{:?}", text);
        assert_eq!(Deserializer::new(&data(text)).deserialize_i8(), expected, "{:?}", text);
    }
}

#[test]
fn parse_i16_agrees_with_the_standard_library() {
    for text in TEXTS {
        let expected = text.parse::<i16>().map_err(Error::ParseInt);
        assert_eq!(Deserializer::new(data(text)).deserialize_i16(), expected, "{:?}", text);
        assert_eq!(Deserializer::new(&data(text)).deserialize_i16(), expected, "{:?}", text);
    }
}

#[test]
fn parse_i32_agrees_with_the_standard_library() {
    for text in TEXTS {
        let expected = text.parse::<i32>().map_err(Error::ParseInt);
        assert_eq!(Deserializer::new(data(text)).deserialize_i32(), expected, "{:?}", text);
        assert_eq!(Deserializer::new(&data(text)).deserialize_i32(), expected, "{:?}", text);
    }
}

#[test]
fn parse_i64_agrees_with_the_standard_library() {
    for text in TEXTS {
        let expected = text.parse::<i64>().map_err(Error::ParseInt);
        assert_eq!(Deserializer::new(data(text)).deserialize_i64(), expected, "{:?}", text);
        assert_eq!(Deserializer::new(&data(text)).deserialize_i64(), expected, "{:?}", text);
    }
}

#[test]
fn parse_reads_exact_values() {
    assert_eq!(Deserializer::new(data("0")).deserialize_u8(), Ok(0));
    assert_eq!(Deserializer::new(data("255")).deserialize_u8(), Ok(255));
    assert_eq!(Deserializer::new(data("+42")).deserialize_u8(), Ok(42));
    assert_eq!(Deserializer::new(data("-128")).deserialize_i8(), Ok(-128));
    assert_eq!(Deserializer::new(data("-0")).deserialize_i8(), Ok(0));
    assert_eq!(Deserializer::new(data("+0")).deserialize_i8(), Ok(0));
    assert_eq!(Deserializer::new(data("000123")).deserialize_u8(), Ok(123));
    assert_eq!(
        Deserializer::new(data("18446744073709551615")).deserialize_u64(),
        Ok(18446744073709551615)
    );
    assert_eq!(
        Deserializer::new(data("-9223372036854775808")).deserialize_i64(),
        Ok(-9223372036854775808)
    );
}

#[test]
fn parse_refuses_what_is_no_number_in_range() {
    assert_eq!(kind_of(Deserializer::new(data("")).deserialize_u8()), IntErrorKind::Empty);
    for text in ["-", "+", "-5", "1.5", " 5", "5 ", "1_000", "0x10", "٣", "+-5"] {
        assert_eq!(
            kind_of(Deserializer::new(data(text)).deserialize_u8()),
            IntErrorKind::InvalidDigit,
            "{:?}",
            text
        );
    }
    for text in ["-", "+", "--5", "5-", "-+5"] {
        assert_eq!(
            kind_of(Deserializer::new(data(text)).deserialize_i64()),
            IntErrorKind::InvalidDigit,
            "{:?}",
            text
        );
    }
    assert_eq!(
        kind_of(Deserializer::new(data("256")).deserialize_u8()),
        IntErrorKind::PosOverflow
    );
    assert_eq!(
        kind_of(Deserializer::new(data("128")).deserialize_i8()),
        IntErrorKind::PosOverflow
    );
    assert_eq!(
        kind_of(Deserializer::new(data("-129")).deserialize_i8()),
        IntErrorKind::NegOverflow
    );
}

#[test]
fn format_agrees_with_the_standard_library() {
    for v in [0u64, 1, 9, 10, 99, 100, 255, 65535, 4294967295, u64::MAX] {
        assert_eq!(format_unsigned(v), v.to_string().into_bytes());
    }
    for v in [
        0i64,
        1,
        -1,
        9,
        -9,
        10,
        -10,
        127,
        -128,
        32767,
        -32768,
        2147483647,
        -2147483648,
        i64::MAX,
        i64::MIN,
    ] {
        assert_eq!(format_signed(v), v.to_string().into_bytes());
    }
}

#[test]
fn format_writes_exact_text() {
    assert_eq!(format_unsigned(0), b"0".to_vec());
    assert_eq!(format_unsigned(1473359995), b"1473359995".to_vec());
    assert_eq!(format_signed(-42), b"-42".to_vec());
    assert_eq!(format_signed(i64::MIN), b"-9223372036854775808".to_vec());
}

#[test]
fn parse_reads_back_what_format_writes() {
    for v in [0u64, 7, 255, 256, 65535, 4294967295, u64::MAX] {
        assert_eq!(
            Deserializer::new(WireValue::Data(format_unsigned(v))).deserialize_u64(),
            Ok(v)
        );
    }
    for v in [i64::MIN, -129, -128, -1, 0, 1, 127, 128, i64::MAX] {
        assert_eq!(
            Deserializer::new(WireValue::Data(format_signed(v))).deserialize_i64(),
            Ok(v)
        );
    }
}
