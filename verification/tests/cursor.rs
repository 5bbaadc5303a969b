use std::borrow::Cow;

use serde_redis::cow_iter::{reversed, CowIter};
use serde_redis::decode::{AsValueVec, Deserializer, Error};
use serde_redis::into_cow::IntoCow;
use serde_redis::value::WireValue;

fn data(text: &str) -> WireValue {
    WireValue::Data(text.as_bytes().to_vec())
}

fn is_borrowed<T: ?Sized + ToOwned>(c: &Cow<'_, T>) -> bool {
    matches!(c, Cow::Borrowed(_))
}

#[test]
fn reversed_turns_a_list_around() {
    assert_eq!(reversed(vec![1, 2, 3]), vec![3, 2, 1]);
    assert_eq!(reversed(Vec::<u8>::new()), Vec::<u8>::new());
    assert_eq!(reversed(vec!["only"]), vec!["only"]);
}

#[test]
fn a_pass_over_a_borrowed_list_hands_out_references_in_order() {
    let list = vec![data("a"), WireValue::Int(2), WireValue::Nil];
    let mut iter = CowIter::new(Cow::Borrowed(&list));
    for expected in &list {
        let item = iter.next().unwrap();
        assert!(is_borrowed(&item));
        assert_eq!(&*item, expected);
    }
    assert!(iter.next().is_none());
    assert!(iter.next().is_none());
}

#[test]
fn a_pass_over_an_owned_list_hands_out_values_in_order() {
    let list = vec![data("a"), WireValue::Int(2), WireValue::Nil];
    let mut iter = CowIter::new(Cow::Owned(list.clone()));
    for expected in &list {
        let item = iter.next().unwrap();
        assert!(!is_borrowed(&item));
        assert_eq!(&*item, expected);
    }
    assert!(iter.next().is_none());
}

#[test]
fn into_cow_keeps_how_the_reply_is_held() {
    let v = data("x");
    assert!(is_borrowed(&(&v).into_cow()));
    assert!(!is_borrowed(&v.clone().into_cow()));
    assert_eq!(&*(&v).into_cow(), &v);
}

#[test]
fn as_value_vec_lists_one_reply_or_many() {
    let v = data("x");
    let one = (&v).as_value_vec();
    assert_eq!(one.len(), 1);
    assert!(is_borrowed(&one[0]));

    let one = v.clone().as_value_vec();
    assert_eq!(one.len(), 1);
    assert!(!is_borrowed(&one[0]));

    let one = Cow::Borrowed(&v).as_value_vec();
    assert_eq!(one.len(), 1);
    assert!(is_borrowed(&one[0]));

    let many = vec![Cow::Borrowed(&v), Cow::Owned(WireValue::Nil)].as_value_vec();
    assert_eq!(many.len(), 2);
    assert_eq!(&*many[1], &WireValue::Nil);
}

#[test]
fn a_cursor_over_a_list_goes_from_the_first_to_the_last() {
    let a = data("a");
    let mut de = Deserializer::new(vec![
        Cow::Borrowed(&a),
        Cow::Owned(WireValue::Int(7)),
        Cow::Owned(WireValue::Nil),
    ]);
    assert_eq!(de.peek(), Some(&a));
    assert_eq!(de.peek(), Some(&a));
    let first = de.next().unwrap();
    assert!(is_borrowed(&first));
    assert_eq!(&*first, &a);
    assert_eq!(de.peek(), Some(&WireValue::Int(7)));
    let second = de.next().unwrap();
    assert!(!is_borrowed(&second));
    assert_eq!(&*second, &WireValue::Int(7));
    assert_eq!(&*de.next().unwrap(), &WireValue::Nil);
    assert_eq!(de.peek(), None);
    assert_eq!(de.next(), Err(Error::EndOfStream));
    assert_eq!(de.next(), Err(Error::EndOfStream));
}

#[test]
fn next_bytes_hands_out_the_payload_as_the_reply_is_held() {
    let v = data("hello");
    let bytes = Deserializer::new(&v).next_bytes().unwrap();
    assert!(is_borrowed(&bytes));
    assert_eq!(&bytes[..], b"hello");

    let bytes = Deserializer::new(v).next_bytes().unwrap();
    assert!(!is_borrowed(&bytes));
    assert_eq!(&bytes[..], b"hello");
}

#[test]
fn next_bytes_names_the_offending_reply() {
    let v = WireValue::Bulk(vec![WireValue::Int(5), WireValue::Nil]);
    let err = Deserializer::new(&v).next_bytes().unwrap_err();
    assert_eq!(
        err,
        Error::WrongValue("Expected bytes, but got bulk(int(5), nil)".to_string())
    );
    let err = Deserializer::new(Vec::<Cow<WireValue>>::new())
        .next_bytes()
        .unwrap_err();
    assert_eq!(err, Error::EndOfStream);
}

#[test]
fn next_bulk_hands_out_the_items_as_the_reply_is_held() {
    let v = WireValue::Bulk(vec![data("a"), WireValue::Int(1)]);
    let items = Deserializer::new(&v).next_bulk().unwrap();
    assert!(is_borrowed(&items));
    assert_eq!(&items[..], &[data("a"), WireValue::Int(1)]);

    let items = Deserializer::new(v).next_bulk().unwrap();
    assert!(!is_borrowed(&items));
    assert_eq!(&items[..], &[data("a"), WireValue::Int(1)]);
}

#[test]
fn next_bulk_hands_out_an_empty_list_as_the_reply_is_held() {
    let v = WireValue::Bulk(vec![]);
    let items = Deserializer::new(&v).next_bulk().unwrap();
    assert!(is_borrowed(&items));
    assert!(items.is_empty());

    let items = Deserializer::new(v).next_bulk().unwrap();
    assert!(!is_borrowed(&items));
    assert!(items.is_empty());
}

#[test]
fn next_bulk_names_the_offending_reply() {
    let err = Deserializer::new(data("hi")).next_bulk().unwrap_err();
    assert_eq!(
        err,
        Error::WrongValue("expected bulk but got string-data('\"hi\"')".to_string())
    );
    let err = Deserializer::new(WireValue::Data(vec![0xff, 0x00]))
        .next_bulk()
        .unwrap_err();
    assert_eq!(
        err,
        Error::WrongValue("expected bulk but got binary-data([255, 0])".to_string())
    );
    let err = Deserializer::new(WireValue::Okay).next_bulk().unwrap_err();
    assert_eq!(err, Error::WrongValue("expected bulk but got ok".to_string()));
    let err = Deserializer::new(WireValue::Status("PONG".to_string()))
        .next_bulk()
        .unwrap_err();
    assert_eq!(
        err,
        Error::WrongValue("expected bulk but got status(\"PONG\")".to_string())
    );
    let err = Deserializer::new(Vec::<Cow<WireValue>>::new())
        .next_bulk()
        .unwrap_err();
    assert_eq!(err, Error::EndOfStream);
}

#[test]
fn read_string_hands_out_the_text_as_the_reply_is_held() {
    let v = data("grüße");
    let s = Deserializer::new(&v).read_string().unwrap();
    assert!(is_borrowed(&s));
    assert_eq!(&*s, "grüße");

    let s = Deserializer::new(v).read_string().unwrap();
    assert!(!is_borrowed(&s));
    assert_eq!(&*s, "grüße");
}

#[test]
fn read_string_tells_bad_bytes_by_how_the_reply_is_held() {
    let v = WireValue::Data(vec![b'a', 0xff, b'b']);
    match Deserializer::new(&v).read_string().unwrap_err() {
        Error::StrFromUtf8(e) => assert_eq!(e.valid_up_to(), 1),
        other => panic!("{:?}", other),
    }
    match Deserializer::new(v).read_string().unwrap_err() {
        Error::StringFromUtf8(e) => {
            assert_eq!(e.utf8_error().valid_up_to(), 1);
            assert_eq!(e.into_bytes(), vec![b'a', 0xff, b'b']);
        }
        other => panic!("{:?}", other),
    }
}

#[test]
fn read_string_names_the_offending_reply() {
    let err = Deserializer::new(WireValue::Int(-3)).read_string().unwrap_err();
    assert_eq!(err, Error::WrongValue("Expected Data, got int(-3)".to_string()));
    let err = Deserializer::new(&WireValue::Nil).read_string().unwrap_err();
    assert_eq!(err, Error::WrongValue("Expected Data, got nil".to_string()));
    let err = Deserializer::new(Vec::<Cow<WireValue>>::new())
        .read_string()
        .unwrap_err();
    assert_eq!(err, Error::EndOfStream);
}

#[test]
fn a_clone_of_a_reply_is_equal_to_it() {
    let v = WireValue::Bulk(vec![
        WireValue::Nil,
        WireValue::Int(i64::MIN),
        data("text"),
        WireValue::Status("OK then".to_string()),
        WireValue::Okay,
        WireValue::Bulk(vec![WireValue::Bulk(vec![]), data("")]),
    ]);
    assert_eq!(v.clone(), v);
}

#[test]
fn wrong_value_wraps_the_message() {
    assert_eq!(
        Error::wrong_value("no good".to_string()),
        Error::WrongValue("no good".to_string())
    );
}
