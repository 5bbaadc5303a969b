//! The cursor over replies, and what each kind of request reads from it.

use crate::cow_iter::{list_slots, reversed, CowIter};
use crate::into_cow::{slot_of, slots_of, Slot};
use crate::text::{
    parse_error_text, parse_i16, parse_i32, parse_i64, parse_i8, parse_int, parse_u16, parse_u32,
    parse_u64, parse_u8, IntKind,
};
use crate::utf8::{
    debug_names, debug_str, from_utf8_error_text, lemma_text_of_bytes, names_debug, str_debug,
    texts, utf8_error_text,
};
use crate::value::{debug_value, value_debug, Wire, WireValue};
use std::borrow::Cow;
use vstd::prelude::*;
use vstd::string::*;
use vstd::utf8::*;

verus! {

/// Error that can be produced during deserialization
#[derive(Debug, PartialEq, Eq)]
pub enum Error {
    /// A message from the host side of a request.
    Custom(String),
    /// The cursor was through while a reply was still expected.
    EndOfStream,
    /// A name that is none of the variants of the requested enum, and those variants.
    UnknownVariant(String, Vec<&'static str>),
    /// A name that is none of the fields of a struct that admits no others, and
    /// those fields.
    UnknownField(String, Vec<&'static str>),
    /// A field of the requested struct that no key of the reply names.
    MissingField(&'static str),
    /// A field of the requested struct that two keys of the reply name.
    DuplicateField(&'static str),
    /// The request is of a kind that the decoder does not serve.
    DeserializeNotSupported,
    /// The reply is not of a variant that the request accepts.
    WrongValue(String),
    /// A borrowed byte string that a text was requested from is not UTF-8.
    StrFromUtf8(core::str::Utf8Error),
    /// An owned byte string that a text was requested from is not UTF-8.
    StringFromUtf8(std::string::FromUtf8Error),
    /// A text that a number was requested from is not the decimal text of one in
    /// range.
    ParseInt(core::num::ParseIntError),
}

/// The mathematical content of an [`Error`]: its variant, and the texts it
/// carries. Of the errors of the standard library, the two encoding errors and
/// the parse error, it keeps the variant only.
pub enum Fault {
    Custom(Seq<char>),
    EndOfStream,
    UnknownVariant(Seq<char>, Seq<Seq<char>>),
    UnknownField(Seq<char>, Seq<Seq<char>>),
    MissingField(Seq<char>),
    DuplicateField(Seq<char>),
    DeserializeNotSupported,
    WrongValue(Seq<char>),
    StrFromUtf8,
    StringFromUtf8,
    ParseInt,
}

impl View for Error {
    type V = Fault;

    open spec fn view(&self) -> Fault {
        match self {
            Error::Custom(msg) => Fault::Custom(msg@),
            Error::EndOfStream => Fault::EndOfStream,
            Error::UnknownVariant(name, expected) => Fault::UnknownVariant(name@, texts(expected@)),
            Error::UnknownField(name, expected) => Fault::UnknownField(name@, texts(expected@)),
            Error::MissingField(name) => Fault::MissingField(name@),
            Error::DuplicateField(name) => Fault::DuplicateField(name@),
            Error::DeserializeNotSupported => Fault::DeserializeNotSupported,
            Error::WrongValue(msg) => Fault::WrongValue(msg@),
            Error::StrFromUtf8(_) => Fault::StrFromUtf8,
            Error::StringFromUtf8(_) => Fault::StringFromUtf8,
            Error::ParseInt(_) => Fault::ParseInt,
        }
    }
}

/// The message of a fault, where the fault decides it. The message of an
/// encoding fault or of a parse fault is worded by the standard library's error,
/// which also says where the bytes stop being UTF-8 or what is wrong with the
/// number: that is no part of the fault.
pub open spec fn message(fault: Fault) -> Option<Seq<char>> {
    match fault {
        Fault::Custom(reason) => Some("CustomError("@ + reason + ")"@),
        Fault::EndOfStream => Some("Reached end of stream"@),
        Fault::UnknownVariant(variant, expected) => Some(
            "unexpected variant \""@ + variant + "\"; expected "@ + names_debug(expected),
        ),
        Fault::UnknownField(field, expected) => Some(
            "unexpected field \""@ + field + "\"; expected "@ + names_debug(expected),
        ),
        Fault::MissingField(field) => Some("missing field "@ + str_debug(field)),
        Fault::DuplicateField(field) => Some("duplicate field "@ + str_debug(field)),
        Fault::DeserializeNotSupported => Some("Deserialization option not supported"@),
        Fault::WrongValue(value_type) => Some("Got unexpected value: "@ + value_type),
        Fault::ParseInt => None,
        Fault::StrFromUtf8 => None,
        Fault::StringFromUtf8 => None,
    }
}

impl Error {
    /// The error of a reply that is not of a variant that the request accepts.
    pub fn wrong_value(msg: String) -> (r: Error)
        ensures
            r == Error::WrongValue(msg),
    {
        Error::WrongValue(msg)
    }

    /// The message of the error.
    pub fn to_string(&self) -> (r: String)
        ensures
            message(self@) matches Some(text) ==> r@ == text,
    {
        match self {
            Error::Custom(reason) => String::from_str("CustomError(").concat(
                reason.as_str(),
            ).concat(")"),
            Error::EndOfStream => String::from_str("Reached end of stream"),
            Error::UnknownVariant(variant, expected) => String::from_str(
                "unexpected variant \"",
            ).concat(variant.as_str()).concat("\"; expected ").concat(
                debug_names(expected).as_str(),
            ),
            Error::UnknownField(field, expected) => String::from_str("unexpected field \"").concat(
                field.as_str(),
            ).concat("\"; expected ").concat(debug_names(expected).as_str()),
            Error::MissingField(field) => String::from_str("missing field ").concat(
                debug_str(field).as_str(),
            ),
            Error::DuplicateField(field) => String::from_str("duplicate field ").concat(
                debug_str(field).as_str(),
            ),
            Error::DeserializeNotSupported => String::from_str(
                "Deserialization option not supported",
            ),
            Error::WrongValue(value_type) => String::from_str("Got unexpected value: ").concat(
                value_type.as_str(),
            ),
            Error::StrFromUtf8(e) => utf8_error_text(e),
            Error::StringFromUtf8(e) => from_utf8_error_text(e),
            Error::ParseInt(e) => parse_error_text(e),
        }
    }
}

/// The fault of a reply of the wrong variant: what was expected, and the reply
/// as the `redis` crate's `Debug` writes it.
pub open spec fn wrong_value_fault(expected: Seq<char>, got: Wire) -> Fault {
    Fault::WrongValue(expected + value_debug(got))
}

/// The fault of a byte string that is not UTF-8, which depends on how the reply
/// is held.
pub open spec fn encoding_fault(owned: bool) -> Fault {
    if owned {
        Fault::StringFromUtf8
    } else {
        Fault::StrFromUtf8
    }
}

/// The reply behind a reference-or-value.
fn as_value<'b>(c: &'b Cow<'_, WireValue>) -> (r: &'b WireValue)
    ensures
        r@ == slot_of(*c).wire,
{
    match c {
        Cow::Borrowed(v) => v,
        Cow::Owned(v) => v,
    }
}

/// The error of a reply of the wrong variant.
fn unexpected(expected: &str, got: &Cow<'_, WireValue>) -> (r: Error)
    ensures
        r@ == wrong_value_fault(expected@, slot_of(*got).wire),
{
    let described = debug_value(as_value(got));
    Error::wrong_value(String::from_str(expected).concat(described.as_str()))
}

/// Replies that a cursor can be made of: one reply, by reference or by value, or
/// a list of them.
pub trait AsValueVec<'a>: Sized {
    /// What the cursor will see, the first reply first.
    spec fn slots(self) -> Seq<Slot>;

    /// The replies as a list, each held as it was handed over.
    fn as_value_vec(self) -> (r: Vec<Cow<'a, WireValue>>)
        ensures
            slots_of(r@) == self.slots(),
    ;
}

impl<'a> AsValueVec<'a> for &'a WireValue {
    open spec fn slots(self) -> Seq<Slot> {
        seq![Slot { wire: self@, owned: false }]
    }

    #[inline]
    fn as_value_vec(self) -> (r: Vec<Cow<'a, WireValue>>) {
        let r = vec![Cow::Borrowed(self)];
        proof {
            assert(slots_of(r@) =~= self.slots());
        }
        r
    }
}

impl<'a> AsValueVec<'a> for Cow<'a, WireValue> {
    open spec fn slots(self) -> Seq<Slot> {
        seq![slot_of(self)]
    }

    #[inline]
    fn as_value_vec(self) -> (r: Vec<Cow<'a, WireValue>>) {
        let r = vec![self];
        proof {
            assert(slots_of(r@) =~= self.slots());
        }
        r
    }
}

impl AsValueVec<'static> for WireValue {
    open spec fn slots(self) -> Seq<Slot> {
        seq![Slot { wire: self@, owned: true }]
    }

    #[inline]
    fn as_value_vec(self) -> (r: Vec<Cow<'static, WireValue>>) {
        let r = vec![Cow::Owned(self)];
        proof {
            assert(slots_of(r@) =~= self.slots());
        }
        r
    }
}

impl<'a> AsValueVec<'a> for Vec<Cow<'a, WireValue>> {
    open spec fn slots(self) -> Seq<Slot> {
        slots_of(self@)
    }

    #[inline]
    fn as_value_vec(self) -> (r: Vec<Cow<'a, WireValue>>) {
        self
    }
}

/// What is left of a cursor once its next reply has been taken.
pub open spec fn rest_of(cursor: Seq<Slot>) -> Seq<Slot> {
    if cursor.len() == 0 {
        cursor
    } else {
        cursor.skip(1)
    }
}

/// The text of a reply where a text is requested.
pub open spec fn text_of(slot: Slot) -> Result<Seq<char>, Fault> {
    match slot.wire {
        Wire::Data(bytes) => if valid_utf8(bytes) {
            Ok(decode_utf8(bytes))
        } else {
            Err(encoding_fault(slot.owned))
        },
        other => Err(wrong_value_fault("Expected Data, got "@, other)),
    }
}

/// The bytes of a reply where bytes are requested.
pub open spec fn bytes_of(slot: Slot) -> Result<Seq<u8>, Fault> {
    match slot.wire {
        Wire::Data(bytes) => Ok(bytes),
        other => Err(wrong_value_fault("Expected bytes, but got "@, other)),
    }
}

/// The items of a reply where a list is requested, each held as the reply is.
pub open spec fn items_of(slot: Slot) -> Result<Seq<Slot>, Fault> {
    match slot.wire {
        Wire::Bulk(items) => Ok(Seq::new(items.len(), |i: int| Slot { wire: items[i], owned: slot.owned })),
        other => Err(wrong_value_fault("expected bulk but got "@, other)),
    }
}

/// Whether `bytes` spell one of the words for true: `1`, `true`, `True`.
pub open spec fn is_true_word(bytes: Seq<u8>) -> bool {
    ||| bytes == seq!['1' as u8]
    ||| bytes == seq!['t' as u8, 'r' as u8, 'u' as u8, 'e' as u8]
    ||| bytes == seq!['T' as u8, 'r' as u8, 'u' as u8, 'e' as u8]
}

/// Whether `bytes` spell one of the words for false: `0`, `false`, `False`.
pub open spec fn is_false_word(bytes: Seq<u8>) -> bool {
    ||| bytes == seq!['0' as u8]
    ||| bytes == seq!['f' as u8, 'a' as u8, 'l' as u8, 's' as u8, 'e' as u8]
    ||| bytes == seq!['F' as u8, 'a' as u8, 'l' as u8, 's' as u8, 'e' as u8]
}

/// The truth value of a reply where one is requested: a byte string that is
/// exactly one of the six words; every other byte string is a wrong value, and is
/// named in the message as text where it is text.
pub open spec fn bool_of(slot: Slot) -> Result<bool, Fault> {
    match slot.wire {
        Wire::Data(bytes) => if is_true_word(bytes) {
            Ok(true)
        } else if is_false_word(bytes) {
            Ok(false)
        } else if valid_utf8(bytes) {
            Err(Fault::WrongValue("Expected 1/0/true/false/True/False, got "@ + decode_utf8(bytes)))
        } else {
            Err(wrong_value_fault("Expected 1/0/true/false/True/False, got "@, slot.wire))
        },
        other => Err(wrong_value_fault("Expected Data, got "@, other)),
    }
}

/// The number of a reply where an integer of `kind` is requested: the decimal
/// text of a byte string, or a native integer cast to the kind.
pub open spec fn int_of(slot: Slot, kind: IntKind) -> Result<int, Fault> {
    match slot.wire {
        Wire::Data(bytes) => if !valid_utf8(bytes) {
            Err(encoding_fault(slot.owned))
        } else {
            match parse_int(bytes, kind.lo(), kind.hi()) {
                Some(v) => Ok(v),
                None => Err(Fault::ParseInt),
            }
        },
        Wire::Int(i) => Ok(kind.wrap(i)),
        other => Err(wrong_value_fault("Expected Data or Int, got "@, other)),
    }
}

/// What a floating-point number is read from. The number itself is left to the
/// caller, who parses the text or casts the integer.
#[derive(Debug, PartialEq, Eq)]
pub enum FloatSource<'a> {
    /// The text of a byte string.
    Text(Cow<'a, str>),
    /// A native integer.
    Int(i64),
}

/// The mathematical content of a [`FloatSource`].
pub enum FloatView {
    Text(Seq<char>),
    Int(i64),
}

impl<'a> View for FloatSource<'a> {
    type V = FloatView;

    open spec fn view(&self) -> FloatView {
        match self {
            FloatSource::Text(text) => FloatView::Text(text@),
            FloatSource::Int(i) => FloatView::Int(*i),
        }
    }
}

/// What a floating-point number is read from where one is requested: the text
/// of a byte string, or a native integer.
pub open spec fn float_of(slot: Slot) -> Result<FloatView, Fault> {
    match slot.wire {
        Wire::Data(bytes) => if valid_utf8(bytes) {
            Ok(FloatView::Text(decode_utf8(bytes)))
        } else {
            Err(encoding_fault(slot.owned))
        },
        Wire::Int(i) => Ok(FloatView::Int(i)),
        other => Err(wrong_value_fault("Expected Data or Int, got "@, other)),
    }
}

/// Whether a value is present where an optional one is requested, seen from the
/// reply that is next, if any: absent at the end of the cursor and before a nil,
/// present before a byte string or an integer.
pub open spec fn presence_of(cursor: Seq<Slot>) -> Result<bool, Fault> {
    if cursor.len() == 0 {
        Ok(false)
    } else {
        match cursor[0].wire {
            Wire::Data(_) => Ok(true),
            Wire::Int(_) => Ok(true),
            Wire::Nil => Ok(false),
            _ => Err(Fault::WrongValue("Expected Data, Int, or Nil"@)),
        }
    }
}

/// A number of a reply lies within its kind.
pub proof fn lemma_int_of_bounds(slot: Slot, kind: IntKind)
    ensures
        int_of(slot, kind) matches Ok(v) ==> kind.lo() <= v <= kind.hi(),
{
}

/// A cursor over replies.
///
/// It goes over a list of replies once, from the first to the last. Where a
/// reply is a list, another cursor is made for its items: the nesting that can be
/// followed is bounded by the stack only.
///
/// A cursor is made of one reply or, by hand, of a list of them.
#[derive(Debug)]
pub struct Deserializer<'a> {
    /// The replies still to come, the next one last.
    values: Vec<Cow<'a, WireValue>>,
}

impl<'a> View for Deserializer<'a> {
    type V = Seq<Slot>;

    /// The replies still to come, the next one first.
    closed spec fn view(&self) -> Seq<Slot> {
        slots_of(self.values@.reverse())
    }
}

impl<'a> Deserializer<'a> {
    /// A cursor over `values`.
    pub fn new<V>(values: V) -> (r: Self) where V: AsValueVec<'a>
        ensures
            r@ == values.slots(),
    {
        let listed = values.as_value_vec();
        let r = Deserializer { values: reversed(listed) };
        proof {
            assert(listed@.reverse().reverse() =~= listed@);
        }
        r
    }

    /// Returns a reference to the next value
    #[inline]
    pub fn peek(&mut self) -> (r: Option<&WireValue>)
        ensures
            final(self)@ == old(self)@,
            old(self)@.len() == 0 ==> r is None,
            old(self)@.len() > 0 ==> r is Some && r.unwrap()@ == old(self)@[0].wire,
    {
        let n = self.values.len();
        if n == 0 {
            None
        } else {
            Some(as_value(&self.values[n - 1]))
        }
    }

    /// Return the next value
    #[inline]
    pub fn next(&mut self) -> (r: Result<Cow<'a, WireValue>, Error>)
        ensures
            final(self)@ == rest_of(old(self)@),
            old(self)@.len() == 0 ==> r == Err::<Cow<'a, WireValue>, Error>(Error::EndOfStream),
            old(self)@.len() > 0 ==> r is Ok && slot_of(r.unwrap()) == old(self)@[0],
    {
        match self.values.pop() {
            Some(value) => {
                proof {
                    assert(final(self)@ =~= old(self)@.skip(1));
                }
                Ok(value)
            },
            None => Err(Error::EndOfStream),
        }
    }

    /// Takes the next reply, which has to be a list, and returns its items.
    pub fn next_bulk(&mut self) -> (r: Result<Cow<'a, Vec<WireValue>>, Error>)
        ensures
            final(self)@ == rest_of(old(self)@),
            old(self)@.len() == 0 ==> (r matches Err(e) && e@ == Fault::EndOfStream),
            old(self)@.len() > 0 ==> match items_of(old(self)@[0]) {
                Ok(items) => r matches Ok(list) && list_slots(list) == items && (list is Owned
                    <==> old(self)@[0].owned),
                Err(fault) => r matches Err(e) && e@ == fault,
            },
    {
        let ghost before = self@;
        let taken = self.next();
        match taken {
            Err(e) => Err(e),
            Ok(Cow::Owned(WireValue::Bulk(values))) => {
                proof {
                    crate::value::lemma_wires(values@);
                    assert(list_slots(Cow::Owned(values)) =~= items_of(before[0])->Ok_0);
                }
                Ok(Cow::Owned(values))
            },
            Ok(Cow::Borrowed(WireValue::Bulk(values))) => {
                proof {
                    crate::value::lemma_wires(values@);
                    assert(list_slots(Cow::Borrowed(values)) =~= items_of(before[0])->Ok_0);
                }
                Ok(Cow::Borrowed(values))
            },
            Ok(v) => Err(unexpected("expected bulk but got ", &v)),
        }
    }

    /// Takes the next reply, which has to be a byte string, and returns its bytes.
    pub fn next_bytes(&mut self) -> (r: Result<Cow<'a, Vec<u8>>, Error>)
        ensures
            final(self)@ == rest_of(old(self)@),
            old(self)@.len() == 0 ==> (r matches Err(e) && e@ == Fault::EndOfStream),
            old(self)@.len() > 0 ==> match bytes_of(old(self)@[0]) {
                Ok(bytes) => r matches Ok(buf) && buf@ == bytes && (buf is Owned <==> old(self)@[0].owned),
                Err(fault) => r matches Err(e) && e@ == fault,
            },
    {
        let taken = self.next();
        match taken {
            Err(e) => Err(e),
            Ok(Cow::Owned(WireValue::Data(bytes))) => Ok(Cow::Owned(bytes)),
            Ok(Cow::Borrowed(WireValue::Data(bytes))) => Ok(Cow::Borrowed(bytes)),
            Ok(v) => {
                let e = unexpected("Expected bytes, but got ", &v);
                Err(e)
            },
        }
    }

    /// Takes the next reply, which has to be a byte string of UTF-8, and returns
    /// its text.
    pub fn read_string(&mut self) -> (r: Result<Cow<'a, str>, Error>)
        ensures
            final(self)@ == rest_of(old(self)@),
            old(self)@.len() == 0 ==> (r matches Err(e) && e@ == Fault::EndOfStream),
            old(self)@.len() > 0 ==> match text_of(old(self)@[0]) {
                Ok(text) => r matches Ok(s) && s@ == text && (s is Owned <==> old(self)@[0].owned),
                Err(fault) => r matches Err(e) && e@ == fault,
            },
    {
        let taken = self.next();
        match taken {
            Err(e) => Err(e),
            Ok(Cow::Owned(WireValue::Data(bytes))) => {
                let ghost raw = bytes@;
                match String::from_utf8(bytes) {
                    Ok(s) => {
                        proof {
                            lemma_text_of_bytes(raw, s@);
                        }
                        Ok(Cow::Owned(s))
                    },
                    Err(e) => Err(Error::StringFromUtf8(e)),
                }
            },
            Ok(Cow::Borrowed(WireValue::Data(bytes))) => {
                match core::str::from_utf8(bytes.as_slice()) {
                    Ok(s) => {
                        proof {
                            lemma_text_of_bytes(bytes@, s@);
                        }
                        Ok(Cow::Borrowed(s))
                    },
                    Err(e) => Err(Error::StrFromUtf8(e)),
                }
            },
            Ok(v) => Err(unexpected("Expected Data, got ", &v)),
        }
    }
}

/// Whether `bytes` are one of the words for true.
fn reads_true(bytes: &[u8]) -> (r: bool)
    ensures
        r == is_true_word(bytes@),
{
    let n = bytes.len();
    let r = (n == 1 && bytes[0] == '1' as u8) || (n == 4 && (bytes[0] == 't' as u8 || bytes[0]
        == 'T' as u8) && bytes[1] == 'r' as u8 && bytes[2] == 'u' as u8 && bytes[3] == 'e' as u8);
    proof {
        if r {
            if n == 1 {
                assert(bytes@ =~= seq!['1' as u8]);
            } else if bytes[0] == 't' as u8 {
                assert(bytes@ =~= seq!['t' as u8, 'r' as u8, 'u' as u8, 'e' as u8]);
            } else {
                assert(bytes@ =~= seq!['T' as u8, 'r' as u8, 'u' as u8, 'e' as u8]);
            }
        }
    }
    r
}

/// Whether `bytes` are one of the words for false.
fn reads_false(bytes: &[u8]) -> (r: bool)
    ensures
        r == is_false_word(bytes@),
{
    let n = bytes.len();
    let r = (n == 1 && bytes[0] == '0' as u8) || (n == 5 && (bytes[0] == 'f' as u8 || bytes[0]
        == 'F' as u8) && bytes[1] == 'a' as u8 && bytes[2] == 'l' as u8 && bytes[3] == 's' as u8
        && bytes[4] == 'e' as u8);
    proof {
        if r {
            if n == 1 {
                assert(bytes@ =~= seq!['0' as u8]);
            } else if bytes[0] == 'f' as u8 {
                assert(bytes@ =~= seq!['f' as u8, 'a' as u8, 'l' as u8, 's' as u8, 'e' as u8]);
            } else {
                assert(bytes@ =~= seq!['F' as u8, 'a' as u8, 'l' as u8, 's' as u8, 'e' as u8]);
            }
        }
    }
    r
}

/// A native integer cast to `kind`.
fn cast(i: i64, kind: IntKind) -> (r: i128)
    ensures
        r == kind.wrap(i),
{
    match kind {
        IntKind::U8 => (#[verifier::truncate] (i as u8)) as i128,
        IntKind::U16 => (#[verifier::truncate] (i as u16)) as i128,
        IntKind::U32 => (#[verifier::truncate] (i as u32)) as i128,
        IntKind::U64 => (#[verifier::truncate] (i as u64)) as i128,
        IntKind::I8 => (#[verifier::truncate] (i as i8)) as i128,
        IntKind::I16 => (#[verifier::truncate] (i as i16)) as i128,
        IntKind::I32 => (#[verifier::truncate] (i as i32)) as i128,
        IntKind::I64 => i as i128,
    }
}

/// The decimal number that `text` spells, of `kind`.
fn number(text: &str, kind: IntKind) -> (r: Result<i128, Error>)
    ensures
        match parse_int(text.spec_bytes(), kind.lo(), kind.hi()) {
            Some(v) => r matches Ok(x) && x == v,
            None => r matches Err(e) && e@ == Fault::ParseInt,
        },
{
    match kind {
        IntKind::U8 => match parse_u8(text) {
            Ok(v) => Ok(v as i128),
            Err(e) => Err(Error::ParseInt(e)),
        },
        IntKind::U16 => match parse_u16(text) {
            Ok(v) => Ok(v as i128),
            Err(e) => Err(Error::ParseInt(e)),
        },
        IntKind::U32 => match parse_u32(text) {
            Ok(v) => Ok(v as i128),
            Err(e) => Err(Error::ParseInt(e)),
        },
        IntKind::U64 => match parse_u64(text) {
            Ok(v) => Ok(v as i128),
            Err(e) => Err(Error::ParseInt(e)),
        },
        IntKind::I8 => match parse_i8(text) {
            Ok(v) => Ok(v as i128),
            Err(e) => Err(Error::ParseInt(e)),
        },
        IntKind::I16 => match parse_i16(text) {
            Ok(v) => Ok(v as i128),
            Err(e) => Err(Error::ParseInt(e)),
        },
        IntKind::I32 => match parse_i32(text) {
            Ok(v) => Ok(v as i128),
            Err(e) => Err(Error::ParseInt(e)),
        },
        IntKind::I64 => match parse_i64(text) {
            Ok(v) => Ok(v as i128),
            Err(e) => Err(Error::ParseInt(e)),
        },
    }
}

impl<'a> Deserializer<'a> {
    /// Takes the next reply and reads an integer of `kind` from it.
    fn integer(self, kind: IntKind) -> (r: Result<i128, Error>)
        ensures
            self@.len() == 0 ==> (r matches Err(e) && e@ == Fault::EndOfStream),
            self@.len() > 0 ==> match int_of(self@[0], kind) {
                Ok(v) => r matches Ok(x) && x == v,
                Err(fault) => r matches Err(e) && e@ == fault,
            },
    {
        let mut this = self;
        match this.next() {
            Err(e) => Err(e),
            Ok(Cow::Borrowed(WireValue::Data(bytes))) => {
                match core::str::from_utf8(bytes.as_slice()) {
                    Ok(s) => number(s, kind),
                    Err(e) => Err(Error::StrFromUtf8(e)),
                }
            },
            Ok(Cow::Owned(WireValue::Data(bytes))) => {
                match String::from_utf8(bytes) {
                    Ok(s) => number(s.as_str(), kind),
                    Err(e) => Err(Error::StringFromUtf8(e)),
                }
            },
            Ok(Cow::Borrowed(WireValue::Int(i))) => Ok(cast(*i, kind)),
            Ok(Cow::Owned(WireValue::Int(i))) => Ok(cast(i, kind)),
            Ok(v) => Err(unexpected("Expected Data or Int, got ", &v)),
        }
    }

    /// Any request that names no kind reads the bytes of a byte string.
    #[inline]
    pub fn deserialize_any(self) -> (r: Result<Cow<'a, Vec<u8>>, Error>)
        ensures
            self@.len() == 0 ==> (r matches Err(e) && e@ == Fault::EndOfStream),
            self@.len() > 0 ==> match bytes_of(self@[0]) {
                Ok(bytes) => r matches Ok(buf) && buf@ == bytes && (buf is Owned <==> self@[0].owned),
                Err(fault) => r matches Err(e) && e@ == fault,
            },
    {
        let mut this = self;
        this.next_bytes()
    }

    /// A string is the text of a byte string of UTF-8.
    #[inline]
    pub fn deserialize_string(self) -> (r: Result<Cow<'a, str>, Error>)
        ensures
            self@.len() == 0 ==> (r matches Err(e) && e@ == Fault::EndOfStream),
            self@.len() > 0 ==> match text_of(self@[0]) {
                Ok(text) => r matches Ok(s) && s@ == text && (s is Owned <==> self@[0].owned),
                Err(fault) => r matches Err(e) && e@ == fault,
            },
    {
        let mut this = self;
        this.read_string()
    }

    /// A string slice is the text of a byte string of UTF-8.
    #[inline]
    pub fn deserialize_str(self) -> (r: Result<Cow<'a, str>, Error>)
        ensures
            self@.len() == 0 ==> (r matches Err(e) && e@ == Fault::EndOfStream),
            self@.len() > 0 ==> match text_of(self@[0]) {
                Ok(text) => r matches Ok(s) && s@ == text && (s is Owned <==> self@[0].owned),
                Err(fault) => r matches Err(e) && e@ == fault,
            },
    {
        let mut this = self;
        this.read_string()
    }

    /// Reads an unsigned integer of 8 bits: the decimal text of a byte string, or a native integer
    /// cast to the type.
    #[inline]
    pub fn deserialize_u8(self) -> (r: Result<u8, Error>)
        ensures
            self@.len() == 0 ==> (r matches Err(e) && e@ == Fault::EndOfStream),
            self@.len() > 0 ==> match int_of(self@[0], IntKind::U8) {
                Ok(v) => r matches Ok(x) && x == v,
                Err(fault) => r matches Err(e) && e@ == fault,
            },
    {
        proof {
            if self@.len() > 0 {
                lemma_int_of_bounds(self@[0], IntKind::U8);
            }
        }
        match self.integer(IntKind::U8) {
            Ok(v) => Ok(v as u8),
            Err(e) => Err(e),
        }
    }

    /// Reads an unsigned integer of 16 bits: the decimal text of a byte string, or a native integer
    /// cast to the type.
    #[inline]
    pub fn deserialize_u16(self) -> (r: Result<u16, Error>)
        ensures
            self@.len() == 0 ==> (r matches Err(e) && e@ == Fault::EndOfStream),
            self@.len() > 0 ==> match int_of(self@[0], IntKind::U16) {
                Ok(v) => r matches Ok(x) && x == v,
                Err(fault) => r matches Err(e) && e@ == fault,
            },
    {
        proof {
            if self@.len() > 0 {
                lemma_int_of_bounds(self@[0], IntKind::U16);
            }
        }
        match self.integer(IntKind::U16) {
            Ok(v) => Ok(v as u16),
            Err(e) => Err(e),
        }
    }

    /// Reads an unsigned integer of 32 bits: the decimal text of a byte string, or a native integer
    /// cast to the type.
    #[inline]
    pub fn deserialize_u32(self) -> (r: Result<u32, Error>)
        ensures
            self@.len() == 0 ==> (r matches Err(e) && e@ == Fault::EndOfStream),
            self@.len() > 0 ==> match int_of(self@[0], IntKind::U32) {
                Ok(v) => r matches Ok(x) && x == v,
                Err(fault) => r matches Err(e) && e@ == fault,
            },
    {
        proof {
            if self@.len() > 0 {
                lemma_int_of_bounds(self@[0], IntKind::U32);
            }
        }
        match self.integer(IntKind::U32) {
            Ok(v) => Ok(v as u32),
            Err(e) => Err(e),
        }
    }

    /// Reads an unsigned integer of 64 bits: the decimal text of a byte string, or a native integer
    /// cast to the type.
    #[inline]
    pub fn deserialize_u64(self) -> (r: Result<u64, Error>)
        ensures
            self@.len() == 0 ==> (r matches Err(e) && e@ == Fault::EndOfStream),
            self@.len() > 0 ==> match int_of(self@[0], IntKind::U64) {
                Ok(v) => r matches Ok(x) && x == v,
                Err(fault) => r matches Err(e) && e@ == fault,
            },
    {
        proof {
            if self@.len() > 0 {
                lemma_int_of_bounds(self@[0], IntKind::U64);
            }
        }
        match self.integer(IntKind::U64) {
            Ok(v) => Ok(v as u64),
            Err(e) => Err(e),
        }
    }

    /// Reads a signed integer of 8 bits: the decimal text of a byte string, or a native integer
    /// cast to the type.
    #[inline]
    pub fn deserialize_i8(self) -> (r: Result<i8, Error>)
        ensures
            self@.len() == 0 ==> (r matches Err(e) && e@ == Fault::EndOfStream),
            self@.len() > 0 ==> match int_of(self@[0], IntKind::I8) {
                Ok(v) => r matches Ok(x) && x == v,
                Err(fault) => r matches Err(e) && e@ == fault,
            },
    {
        proof {
            if self@.len() > 0 {
                lemma_int_of_bounds(self@[0], IntKind::I8);
            }
        }
        match self.integer(IntKind::I8) {
            Ok(v) => Ok(v as i8),
            Err(e) => Err(e),
        }
    }

    /// Reads a signed integer of 16 bits: the decimal text of a byte string, or a native integer
    /// cast to the type.
    #[inline]
    pub fn deserialize_i16(self) -> (r: Result<i16, Error>)
        ensures
            self@.len() == 0 ==> (r matches Err(e) && e@ == Fault::EndOfStream),
            self@.len() > 0 ==> match int_of(self@[0], IntKind::I16) {
                Ok(v) => r matches Ok(x) && x == v,
                Err(fault) => r matches Err(e) && e@ == fault,
            },
    {
        proof {
            if self@.len() > 0 {
                lemma_int_of_bounds(self@[0], IntKind::I16);
            }
        }
        match self.integer(IntKind::I16) {
            Ok(v) => Ok(v as i16),
            Err(e) => Err(e),
        }
    }

    /// Reads a signed integer of 32 bits: the decimal text of a byte string, or a native integer
    /// cast to the type.
    #[inline]
    pub fn deserialize_i32(self) -> (r: Result<i32, Error>)
        ensures
            self@.len() == 0 ==> (r matches Err(e) && e@ == Fault::EndOfStream),
            self@.len() > 0 ==> match int_of(self@[0], IntKind::I32) {
                Ok(v) => r matches Ok(x) && x == v,
                Err(fault) => r matches Err(e) && e@ == fault,
            },
    {
        proof {
            if self@.len() > 0 {
                lemma_int_of_bounds(self@[0], IntKind::I32);
            }
        }
        match self.integer(IntKind::I32) {
            Ok(v) => Ok(v as i32),
            Err(e) => Err(e),
        }
    }

    /// Reads a signed integer of 64 bits: the decimal text of a byte string, or a native integer
    /// cast to the type.
    #[inline]
    pub fn deserialize_i64(self) -> (r: Result<i64, Error>)
        ensures
            self@.len() == 0 ==> (r matches Err(e) && e@ == Fault::EndOfStream),
            self@.len() > 0 ==> match int_of(self@[0], IntKind::I64) {
                Ok(v) => r matches Ok(x) && x == v,
                Err(fault) => r matches Err(e) && e@ == fault,
            },
    {
        proof {
            if self@.len() > 0 {
                lemma_int_of_bounds(self@[0], IntKind::I64);
            }
        }
        match self.integer(IntKind::I64) {
            Ok(v) => Ok(v as i64),
            Err(e) => Err(e),
        }
    }

    /// Takes the next reply and hands out what a floating-point number is read
    /// from.
    fn float(self) -> (r: Result<FloatSource<'a>, Error>)
        ensures
            self@.len() == 0 ==> (r matches Err(e) && e@ == Fault::EndOfStream),
            self@.len() > 0 ==> match float_of(self@[0]) {
                Ok(source) => r matches Ok(x) && x@ == source && (x matches FloatSource::Text(s)
                    ==> (s is Owned <==> self@[0].owned)),
                Err(fault) => r matches Err(e) && e@ == fault,
            },
    {
        let mut this = self;
        match this.next() {
            Err(e) => Err(e),
            Ok(Cow::Borrowed(WireValue::Data(bytes))) => {
                match core::str::from_utf8(bytes.as_slice()) {
                    Ok(s) => {
                        proof {
                            lemma_text_of_bytes(bytes@, s@);
                        }
                        Ok(FloatSource::Text(Cow::Borrowed(s)))
                    },
                    Err(e) => Err(Error::StrFromUtf8(e)),
                }
            },
            Ok(Cow::Owned(WireValue::Data(bytes))) => {
                let ghost raw = bytes@;
                match String::from_utf8(bytes) {
                    Ok(s) => {
                        proof {
                            lemma_text_of_bytes(raw, s@);
                        }
                        Ok(FloatSource::Text(Cow::Owned(s)))
                    },
                    Err(e) => Err(Error::StringFromUtf8(e)),
                }
            },
            Ok(Cow::Borrowed(WireValue::Int(i))) => Ok(FloatSource::Int(*i)),
            Ok(Cow::Owned(WireValue::Int(i))) => Ok(FloatSource::Int(i)),
            Ok(v) => Err(unexpected("Expected Data or Int, got ", &v)),
        }
    }

    /// A floating-point number of 32 bits is read from the text of a byte string
    /// or from a native integer, which is handed out for the caller to parse or to
    /// cast.
    #[inline]
    pub fn deserialize_f32(self) -> (r: Result<FloatSource<'a>, Error>)
        ensures
            self@.len() == 0 ==> (r matches Err(e) && e@ == Fault::EndOfStream),
            self@.len() > 0 ==> match float_of(self@[0]) {
                Ok(source) => r matches Ok(x) && x@ == source && (x matches FloatSource::Text(s)
                    ==> (s is Owned <==> self@[0].owned)),
                Err(fault) => r matches Err(e) && e@ == fault,
            },
    {
        self.float()
    }

    /// A floating-point number of 64 bits is read from the text of a byte string
    /// or from a native integer, which is handed out for the caller to parse or to
    /// cast.
    #[inline]
    pub fn deserialize_f64(self) -> (r: Result<FloatSource<'a>, Error>)
        ensures
            self@.len() == 0 ==> (r matches Err(e) && e@ == Fault::EndOfStream),
            self@.len() > 0 ==> match float_of(self@[0]) {
                Ok(source) => r matches Ok(x) && x@ == source && (x matches FloatSource::Text(s)
                    ==> (s is Owned <==> self@[0].owned)),
                Err(fault) => r matches Err(e) && e@ == fault,
            },
    {
        self.float()
    }

    /// A character is requested as a text; the host takes the character from it.
    #[inline]
    pub fn deserialize_char(self) -> (r: Result<Cow<'a, str>, Error>)
        ensures
            self@.len() == 0 ==> (r matches Err(e) && e@ == Fault::EndOfStream),
            self@.len() > 0 ==> match text_of(self@[0]) {
                Ok(text) => r matches Ok(s) && s@ == text && (s is Owned <==> self@[0].owned),
                Err(fault) => r matches Err(e) && e@ == fault,
            },
    {
        self.deserialize_str()
    }

    /// A unit is requested as a text; no reply stands for a unit, so the host has
    /// no use for what comes back.
    #[inline]
    pub fn deserialize_unit(self) -> (r: Result<Cow<'a, str>, Error>)
        ensures
            self@.len() == 0 ==> (r matches Err(e) && e@ == Fault::EndOfStream),
            self@.len() > 0 ==> match text_of(self@[0]) {
                Ok(text) => r matches Ok(s) && s@ == text && (s is Owned <==> self@[0].owned),
                Err(fault) => r matches Err(e) && e@ == fault,
            },
    {
        self.deserialize_str()
    }

    /// A truth value is a byte string that is exactly one of `1`, `true`, `True`,
    /// `0`, `false`, `False`.
    #[inline]
    pub fn deserialize_bool(self) -> (r: Result<bool, Error>)
        ensures
            self@.len() == 0 ==> (r matches Err(e) && e@ == Fault::EndOfStream),
            self@.len() > 0 ==> match bool_of(self@[0]) {
                Ok(b) => r matches Ok(x) && x == b,
                Err(fault) => r matches Err(e) && e@ == fault,
            },
    {
        let mut this = self;
        let taken = this.next();
        match taken {
            Err(e) => Err(e),
            Ok(v) => {
                match as_value(&v) {
                    WireValue::Data(bytes) => {
                        if reads_true(bytes.as_slice()) {
                            Ok(true)
                        } else if reads_false(bytes.as_slice()) {
                            Ok(false)
                        } else {
                            match core::str::from_utf8(bytes.as_slice()) {
                                Ok(s) => {
                                    proof {
                                        lemma_text_of_bytes(bytes@, s@);
                                    }
                                    Err(
                                        Error::WrongValue(
                                            String::from_str(
                                                "Expected 1/0/true/false/True/False, got ",
                                            ).concat(s),
                                        ),
                                    )
                                },
                                Err(_) => Err(
                                    unexpected("Expected 1/0/true/false/True/False, got ", &v),
                                ),
                            }
                        }
                    },
                    _ => Err(unexpected("Expected Data, got ", &v)),
                }
            },
        }
    }

    /// Borrowed bytes are the bytes of a byte string.
    #[inline]
    pub fn deserialize_bytes(self) -> (r: Result<Cow<'a, Vec<u8>>, Error>)
        ensures
            self@.len() == 0 ==> (r matches Err(e) && e@ == Fault::EndOfStream),
            self@.len() > 0 ==> match bytes_of(self@[0]) {
                Ok(bytes) => r matches Ok(buf) && buf@ == bytes && (buf is Owned <==> self@[0].owned),
                Err(fault) => r matches Err(e) && e@ == fault,
            },
    {
        self.deserialize_byte_buf()
    }

    /// A byte buffer is the bytes of a byte string.
    #[inline]
    pub fn deserialize_byte_buf(self) -> (r: Result<Cow<'a, Vec<u8>>, Error>)
        ensures
            self@.len() == 0 ==> (r matches Err(e) && e@ == Fault::EndOfStream),
            self@.len() > 0 ==> match bytes_of(self@[0]) {
                Ok(bytes) => r matches Ok(buf) && buf@ == bytes && (buf is Owned <==> self@[0].owned),
                Err(fault) => r matches Err(e) && e@ == fault,
            },
    {
        let mut this = self;
        this.next_bytes()
    }

    /// A tuple struct is read as a tuple.
    #[inline]
    pub fn deserialize_tuple_struct(self, _name: &'static str, len: usize) -> (r: Result<
        SeqVisitor<'a>,
        Error,
    >)
        ensures
            self@.len() == 0 ==> (r matches Err(e) && e@ == Fault::EndOfStream),
            self@.len() > 0 ==> match items_of(self@[0]) {
                Ok(items) => r matches Ok(seq) && seq@ == items,
                Err(fault) => r matches Err(e) && e@ == fault,
            },
    {
        self.deserialize_tuple(len)
    }

    /// A tuple is read as a sequence.
    #[inline]
    pub fn deserialize_tuple(self, _len: usize) -> (r: Result<SeqVisitor<'a>, Error>)
        ensures
            self@.len() == 0 ==> (r matches Err(e) && e@ == Fault::EndOfStream),
            self@.len() > 0 ==> match items_of(self@[0]) {
                Ok(items) => r matches Ok(seq) && seq@ == items,
                Err(fault) => r matches Err(e) && e@ == fault,
            },
    {
        self.deserialize_seq()
    }

    /// A sequence is a list reply; what comes back hands out a cursor for each of
    /// its items.
    #[inline]
    pub fn deserialize_seq(self) -> (r: Result<SeqVisitor<'a>, Error>)
        ensures
            self@.len() == 0 ==> (r matches Err(e) && e@ == Fault::EndOfStream),
            self@.len() > 0 ==> match items_of(self@[0]) {
                Ok(items) => r matches Ok(seq) && seq@ == items,
                Err(fault) => r matches Err(e) && e@ == fault,
            },
    {
        let mut this = self;
        match this.next_bulk() {
            Ok(values) => Ok(SeqVisitor { iter: CowIter::new(values) }),
            Err(e) => Err(e),
        }
    }

    /// A map is a list reply of keys and values in turn; what comes back hands
    /// out a cursor for each.
    #[inline]
    pub fn deserialize_map(self) -> (r: Result<MapVisitor<'a>, Error>)
        ensures
            self@.len() == 0 ==> (r matches Err(e) && e@ == Fault::EndOfStream),
            self@.len() > 0 ==> match items_of(self@[0]) {
                Ok(items) => r matches Ok(map) && map@ == items,
                Err(fault) => r matches Err(e) && e@ == fault,
            },
    {
        let mut this = self;
        match this.next_bulk() {
            Ok(values) => Ok(MapVisitor { iter: CowIter::new(values) }),
            Err(e) => Err(e),
        }
    }

    /// A unit struct is read as a unit.
    #[inline]
    pub fn deserialize_unit_struct(self, _name: &'static str) -> (r: Result<Cow<'a, str>, Error>)
        ensures
            self@.len() == 0 ==> (r matches Err(e) && e@ == Fault::EndOfStream),
            self@.len() > 0 ==> match text_of(self@[0]) {
                Ok(text) => r matches Ok(s) && s@ == text && (s is Owned <==> self@[0].owned),
                Err(fault) => r matches Err(e) && e@ == fault,
            },
    {
        self.deserialize_unit()
    }

    /// A struct is read as a map from the names of its fields.
    #[inline]
    pub fn deserialize_struct(self, _name: &'static str, _fields: &[&'static str]) -> (r: Result<
        MapVisitor<'a>,
        Error,
    >)
        ensures
            self@.len() == 0 ==> (r matches Err(e) && e@ == Fault::EndOfStream),
            self@.len() > 0 ==> match items_of(self@[0]) {
                Ok(items) => r matches Ok(map) && map@ == items,
                Err(fault) => r matches Err(e) && e@ == fault,
            },
    {
        self.deserialize_map()
    }

    /// A value that the host has no use for is taken from the cursor, whatever it
    /// is, and dropped.
    #[inline]
    pub fn deserialize_ignored_any(self) -> (r: Result<(), Error>)
        ensures
            self@.len() == 0 ==> (r matches Err(e) && e@ == Fault::EndOfStream),
            self@.len() > 0 ==> r is Ok,
    {
        let mut this = self;
        match this.next() {
            Ok(_) => Ok(()),
            Err(e) => Err(e),
        }
    }

    /// An enum is one reply, which names the variant; the place of the variant's
    /// payload is taken by a nil.
    #[inline]
    pub fn deserialize_enum(
        self,
        _enum: &'static str,
        _variants: &[&'static str],
    ) -> (r: Result<EnumVisitor<'a>, Error>)
        ensures
            self@.len() == 0 ==> (r matches Err(e) && e@ == Fault::EndOfStream),
            self@.len() > 0 ==> (r matches Ok(visitor) && visitor.name() == self@[0]
                && visitor.payload() == Slot { wire: Wire::Nil, owned: true }),
    {
        let mut this = self;
        match this.next() {
            Ok(variant) => Ok(EnumVisitor { variant, content: Cow::Owned(WireValue::Nil) }),
            Err(e) => Err(e),
        }
    }

    /// An optional value is decided by a look at the next reply, which stays in
    /// the cursor: the cursor comes back where a value is present, for the host
    /// to read the value from it.
    #[inline]
    pub fn deserialize_option(self) -> (r: Result<Option<Deserializer<'a>>, Error>)
        ensures
            match presence_of(self@) {
                Ok(present) => r matches Ok(rest) && (rest is Some <==> present) && (present
                    ==> rest.unwrap()@ == self@),
                Err(fault) => r matches Err(e) && e@ == fault,
            },
    {
        let mut this = self;
        let maybe = match this.peek() {
            Some(v) => match v {
                WireValue::Data(_) => true,
                WireValue::Int(_) => true,
                WireValue::Nil => false,
                _ => {
                    return Err(Error::wrong_value(String::from_str("Expected Data, Int, or Nil")));
                },
            },
            None => false,
        };
        if maybe {
            Ok(Some(this))
        } else {
            Ok(None)
        }
    }

    /// A newtype struct is read as what it wraps, from the same cursor.
    #[inline]
    pub fn deserialize_newtype_struct(self, _name: &'static str) -> (r: Deserializer<'a>)
        ensures
            r@ == self@,
    {
        self
    }

    /// The name of a field or of a variant is read as a string slice.
    #[inline]
    pub fn deserialize_identifier(self) -> (r: Result<Cow<'a, str>, Error>)
        ensures
            self@.len() == 0 ==> (r matches Err(e) && e@ == Fault::EndOfStream),
            self@.len() > 0 ==> match text_of(self@[0]) {
                Ok(text) => r matches Ok(s) && s@ == text && (s is Owned <==> self@[0].owned),
                Err(fault) => r matches Err(e) && e@ == fault,
            },
    {
        self.deserialize_str()
    }
}

/// The items of a list reply where a sequence or a tuple was requested.
pub struct SeqVisitor<'a> {
    iter: CowIter<'a>,
}

impl<'a> View for SeqVisitor<'a> {
    type V = Seq<Slot>;

    /// The items still to come, the next one first.
    closed spec fn view(&self) -> Seq<Slot> {
        self.iter.remaining()
    }
}

impl<'a> SeqVisitor<'a> {
    /// A cursor over the next item alone, or `None` once the list is through.
    pub fn next_element(&mut self) -> (r: Option<Deserializer<'a>>)
        ensures
            final(self)@ == rest_of(old(self)@),
            old(self)@.len() == 0 ==> r is None,
            old(self)@.len() > 0 ==> r is Some && r.unwrap()@ == seq![old(self)@[0]],
    {
        match self.iter.next() {
            Some(v) => Some(Deserializer::new(v)),
            None => None,
        }
    }

    /// How many items are still to come, where that is known beforehand: it never
    /// is.
    pub fn size_hint(&self) -> (r: Option<usize>)
        ensures
            r is None,
    {
        None
    }
}

/// The items of a list reply where a map or a struct was requested: keys and
/// values in turn.
pub struct MapVisitor<'a> {
    iter: CowIter<'a>,
}

impl<'a> View for MapVisitor<'a> {
    type V = Seq<Slot>;

    /// The keys and values still to come, the next one first.
    closed spec fn view(&self) -> Seq<Slot> {
        self.iter.remaining()
    }
}

impl<'a> MapVisitor<'a> {
    /// A cursor over the next key alone, or `None` once the list is through.
    pub fn next_key(&mut self) -> (r: Option<Deserializer<'a>>)
        ensures
            final(self)@ == rest_of(old(self)@),
            old(self)@.len() == 0 ==> r is None,
            old(self)@.len() > 0 ==> r is Some && r.unwrap()@ == seq![old(self)@[0]],
    {
        match self.iter.next() {
            Some(v) => Some(Deserializer::new(v)),
            None => None,
        }
    }

    /// A cursor over the value of the key that was read last. A list that ends
    /// with a key has no value for it.
    #[inline]
    pub fn next_value(&mut self) -> (r: Result<Deserializer<'a>, Error>)
        ensures
            final(self)@ == rest_of(old(self)@),
            old(self)@.len() == 0 ==> (r matches Err(e) && e@ == Fault::EndOfStream),
            old(self)@.len() > 0 ==> r is Ok && r.unwrap()@ == seq![old(self)@[0]],
    {
        match self.iter.next() {
            Some(v) => Ok(Deserializer::new(v)),
            None => Err(Error::EndOfStream),
        }
    }
}

/// The place of a variant's payload, which a nil always takes.
pub struct VariantVisitor<'a> {
    value: Cow<'a, WireValue>,
}

impl<'a> VariantVisitor<'a> {
    /// What stands in the place of the payload.
    pub closed spec fn payload(&self) -> Slot {
        slot_of(self.value)
    }

    /// A variant without a payload asks for nothing more.
    pub fn unit_variant(self) -> (r: Result<(), Error>)
        ensures
            r is Ok,
    {
        Ok(())
    }

    /// A variant that wraps one value is read from a cursor over what stands in
    /// the place of the payload.
    pub fn newtype_variant(self) -> (r: Deserializer<'a>)
        ensures
            r@ == seq![self.payload()],
    {
        Deserializer::new(self.value)
    }

    /// A variant of several values is read as bytes from what stands in the place
    /// of the payload.
    pub fn tuple_variant(self, _len: usize) -> (r: Result<Cow<'a, Vec<u8>>, Error>)
        ensures
            match bytes_of(self.payload()) {
                Ok(bytes) => r matches Ok(buf) && buf@ == bytes && (buf is Owned
                    <==> self.payload().owned),
                Err(fault) => r matches Err(e) && e@ == fault,
            },
    {
        let deserializer = Deserializer::new(self.value);
        deserializer.deserialize_any()
    }

    /// A variant of named fields is read as bytes from what stands in the place
    /// of the payload.
    pub fn struct_variant(self, _fields: &[&'static str]) -> (r: Result<Cow<'a, Vec<u8>>, Error>)
        ensures
            match bytes_of(self.payload()) {
                Ok(bytes) => r matches Ok(buf) && buf@ == bytes && (buf is Owned
                    <==> self.payload().owned),
                Err(fault) => r matches Err(e) && e@ == fault,
            },
    {
        let deserializer = Deserializer::new(self.value);
        deserializer.deserialize_any()
    }
}

/// The reply that names a variant, and what stands in the place of the payload.
pub struct EnumVisitor<'a> {
    variant: Cow<'a, WireValue>,
    content: Cow<'a, WireValue>,
}

impl<'a> EnumVisitor<'a> {
    /// The reply that names the variant.
    pub closed spec fn name(&self) -> Slot {
        slot_of(self.variant)
    }

    /// What stands in the place of the payload.
    pub closed spec fn payload(&self) -> Slot {
        slot_of(self.content)
    }

    /// A cursor over the reply that names the variant, and the place of the
    /// payload.
    pub fn variant_seed(self) -> (r: (Deserializer<'a>, VariantVisitor<'a>))
        ensures
            r.0@ == seq![self.name()],
            r.1.payload() == self.payload(),
    {
        (Deserializer::new(self.variant), VariantVisitor { value: self.content })
    }
}

} // verus!
