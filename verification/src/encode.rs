//! Encoding a host value into a reply.

use crate::host::{Host, HostView};
use crate::text::{decimal, format_signed, format_unsigned};
use crate::utf8::char_text;
use crate::value::{lemma_wires, wires, Wire, WireValue};
use vstd::prelude::*;
use vstd::slice::slice_to_vec;
use vstd::string::*;
use vstd::utf8::*;

verus! {

/// The encoder. It keeps nothing between two calls.
pub struct Serializer;

/// Error that can be produced during serialization
#[derive(Debug, PartialEq, Eq)]
pub enum Error {
    /// A message that says what could not be encoded.
    Custom(String),
}

impl View for Error {
    type V = Seq<char>;

    /// The message.
    open spec fn view(&self) -> Seq<char> {
        match self {
            Error::Custom(msg) => msg@,
        }
    }
}

impl Error {
    /// The message of the error.
    pub fn to_string(&self) -> (r: String)
        ensures
            r@ == "CustomError("@ + self@ + ")"@,
    {
        match self {
            Error::Custom(reason) => String::from_str("CustomError(").concat(
                reason.as_str(),
            ).concat(")"),
        }
    }
}

/// The message for a variant that carries one value.
pub open spec fn no_newtype_variant() -> Seq<char> {
    "newtype variants are not supported"@
}

/// The message for a variant that carries several values.
pub open spec fn no_tuple_variant() -> Seq<char> {
    "tuple variants are not supported"@
}

/// The message for a variant that carries named fields.
pub open spec fn no_struct_variant() -> Seq<char> {
    "struct variants are not supported"@
}

/// The reply that a host value is encoded into, or the message of the first part
/// of it that cannot be encoded.
///
/// Numbers are written as decimal text and truth values as `1` and `0`, never as
/// native integers. A sequence or a tuple is the list of its items, a map the
/// list of its keys and values in turn, a struct the list of the names of its
/// fields and their values in turn, each in the order of the host value. Of an
/// enum only a variant that carries nothing can be encoded: it is its name.
pub open spec fn encoded(h: HostView) -> Result<Wire, Seq<char>>
    decreases h, 1nat, 0nat,
{
    match h {
        HostView::Bool(b) => Ok(
            Wire::Data(
                if b {
                    seq!['1' as u8]
                } else {
                    seq!['0' as u8]
                },
            ),
        ),
        HostView::Int(_, v) => Ok(Wire::Data(decimal(v))),
        HostView::Char(c) => Ok(Wire::Data(encode_utf8(seq![c]))),
        HostView::Str(text) => Ok(Wire::Data(encode_utf8(text))),
        HostView::Bytes(bytes) => Ok(Wire::Data(bytes)),
        HostView::Unit => Ok(Wire::Nil),
        HostView::Absent => Ok(Wire::Nil),
        HostView::Present(inner) => encoded(*inner),
        HostView::Newtype(inner) => encoded(*inner),
        HostView::Sequence(items) => match encoded_items(items, items.len()) {
            Ok(ws) => Ok(Wire::Bulk(ws)),
            Err(msg) => Err(msg),
        },
        HostView::Tuple(items) => match encoded_items(items, items.len()) {
            Ok(ws) => Ok(Wire::Bulk(ws)),
            Err(msg) => Err(msg),
        },
        HostView::Mapping(entries) => match encoded_entries(entries, entries.len()) {
            Ok(ws) => Ok(Wire::Bulk(ws)),
            Err(msg) => Err(msg),
        },
        HostView::Struct(fields) => match encoded_fields(fields, fields.len()) {
            Ok(ws) => Ok(Wire::Bulk(ws)),
            Err(msg) => Err(msg),
        },
        HostView::UnitVariant(name) => Ok(Wire::Data(encode_utf8(name))),
        HostView::NewtypeVariant(_, _) => Err(no_newtype_variant()),
        HostView::TupleVariant(_, _) => Err(no_tuple_variant()),
        HostView::StructVariant(_, _) => Err(no_struct_variant()),
    }
}

/// The replies that the first `n` items are encoded into, in order.
pub open spec fn encoded_items(items: Seq<HostView>, n: nat) -> Result<Seq<Wire>, Seq<char>>
    decreases items, 0nat, n,
{
    if n == 0 || n > items.len() {
        Ok(Seq::empty())
    } else {
        match encoded_items(items, (n - 1) as nat) {
            Err(msg) => Err(msg),
            Ok(ws) => match encoded(items[n - 1]) {
                Ok(w) => Ok(ws.push(w)),
                Err(msg) => Err(msg),
            },
        }
    }
}

/// The replies that the first `n` entries of a map are encoded into: of each
/// entry the key and then the value.
pub open spec fn encoded_entries(entries: Seq<(HostView, HostView)>, n: nat) -> Result<
    Seq<Wire>,
    Seq<char>,
>
    decreases entries, 0nat, n,
{
    if n == 0 || n > entries.len() {
        Ok(Seq::empty())
    } else {
        match encoded_entries(entries, (n - 1) as nat) {
            Err(msg) => Err(msg),
            Ok(ws) => match encoded(entries[n - 1].0) {
                Err(msg) => Err(msg),
                Ok(key) => match encoded(entries[n - 1].1) {
                    Ok(value) => Ok(ws.push(key).push(value)),
                    Err(msg) => Err(msg),
                },
            },
        }
    }
}

/// The replies that the first `n` fields of a struct are encoded into: of each
/// field the name as a byte string and then the value.
pub open spec fn encoded_fields(fields: Seq<(Seq<char>, HostView)>, n: nat) -> Result<
    Seq<Wire>,
    Seq<char>,
>
    decreases fields, 0nat, n,
{
    if n == 0 || n > fields.len() {
        Ok(Seq::empty())
    } else {
        match encoded_fields(fields, (n - 1) as nat) {
            Err(msg) => Err(msg),
            Ok(ws) => match encoded(fields[n - 1].1) {
                Ok(value) => Ok(ws.push(Wire::Data(encode_utf8(fields[n - 1].0))).push(value)),
                Err(msg) => Err(msg),
            },
        }
    }
}

/// What an encoding returned, as the content of its reply or of its error.
pub open spec fn outcome(r: Result<WireValue, Error>) -> Result<Wire, Seq<char>> {
    match r {
        Ok(v) => Ok(v@),
        Err(e) => Err(e@),
    }
}


impl Serializer {
    /// Writes an unsigned integer of 8 bits as decimal text.
    #[inline]
    pub fn serialize_u8(self, v: u8) -> (r: Result<WireValue, Error>)
        ensures
            outcome(r) == Ok::<Wire, Seq<char>>(Wire::Data(decimal(v as int))),
    {
        Ok(WireValue::Data(format_unsigned(v as u64)))
    }

    /// Writes an unsigned integer of 16 bits as decimal text.
    #[inline]
    pub fn serialize_u16(self, v: u16) -> (r: Result<WireValue, Error>)
        ensures
            outcome(r) == Ok::<Wire, Seq<char>>(Wire::Data(decimal(v as int))),
    {
        Ok(WireValue::Data(format_unsigned(v as u64)))
    }

    /// Writes an unsigned integer of 32 bits as decimal text.
    #[inline]
    pub fn serialize_u32(self, v: u32) -> (r: Result<WireValue, Error>)
        ensures
            outcome(r) == Ok::<Wire, Seq<char>>(Wire::Data(decimal(v as int))),
    {
        Ok(WireValue::Data(format_unsigned(v as u64)))
    }

    /// Writes an unsigned integer of 64 bits as decimal text.
    #[inline]
    pub fn serialize_u64(self, v: u64) -> (r: Result<WireValue, Error>)
        ensures
            outcome(r) == Ok::<Wire, Seq<char>>(Wire::Data(decimal(v as int))),
    {
        Ok(WireValue::Data(format_unsigned(v)))
    }

    /// Writes a signed integer of 8 bits as decimal text.
    #[inline]
    pub fn serialize_i8(self, v: i8) -> (r: Result<WireValue, Error>)
        ensures
            outcome(r) == Ok::<Wire, Seq<char>>(Wire::Data(decimal(v as int))),
    {
        Ok(WireValue::Data(format_signed(v as i64)))
    }

    /// Writes a signed integer of 16 bits as decimal text.
    #[inline]
    pub fn serialize_i16(self, v: i16) -> (r: Result<WireValue, Error>)
        ensures
            outcome(r) == Ok::<Wire, Seq<char>>(Wire::Data(decimal(v as int))),
    {
        Ok(WireValue::Data(format_signed(v as i64)))
    }

    /// Writes a signed integer of 32 bits as decimal text.
    #[inline]
    pub fn serialize_i32(self, v: i32) -> (r: Result<WireValue, Error>)
        ensures
            outcome(r) == Ok::<Wire, Seq<char>>(Wire::Data(decimal(v as int))),
    {
        Ok(WireValue::Data(format_signed(v as i64)))
    }

    /// Writes a signed integer of 64 bits as decimal text.
    #[inline]
    pub fn serialize_i64(self, v: i64) -> (r: Result<WireValue, Error>)
        ensures
            outcome(r) == Ok::<Wire, Seq<char>>(Wire::Data(decimal(v as int))),
    {
        Ok(WireValue::Data(format_signed(v)))
    }

    /// A truth value is written as the number one or zero.
    pub fn serialize_bool(self, v: bool) -> (r: Result<WireValue, Error>)
        ensures
            outcome(r) == encoded(HostView::Bool(v)),
    {
        proof {
            assert(decimal(1) =~= seq!['1' as u8]);
            assert(decimal(0) =~= seq!['0' as u8]);
        }
        match v {
            true => self.serialize_i32(1),
            false => self.serialize_i32(0),
        }
    }

    /// A character is written as the text of that one character.
    pub fn serialize_char(self, v: char) -> (r: Result<WireValue, Error>)
        ensures
            outcome(r) == encoded(HostView::Char(v)),
    {
        self.serialize_str(char_text(v).as_str())
    }

    /// A text is written as its bytes.
    pub fn serialize_str(self, v: &str) -> (r: Result<WireValue, Error>)
        ensures
            outcome(r) == encoded(HostView::Str(v@)),
    {
        Ok(WireValue::Data(slice_to_vec(v.as_bytes())))
    }

    /// Bytes are written as they are.
    pub fn serialize_bytes(self, v: &[u8]) -> (r: Result<WireValue, Error>)
        ensures
            outcome(r) == encoded(HostView::Bytes(v@)),
    {
        Ok(WireValue::Data(slice_to_vec(v)))
    }

    /// An absent value is written as a nil.
    pub fn serialize_none(self) -> (r: Result<WireValue, Error>)
        ensures
            outcome(r) == encoded(HostView::Absent),
    {
        Ok(WireValue::Nil)
    }

    /// A value that is present is written as the value.
    pub fn serialize_some(self, v: &Host) -> (r: Result<WireValue, Error>)
        ensures
            outcome(r) == encoded(v@),
        decreases v, 2nat,
    {
        v.serialize(self)
    }

    /// A unit is written as a nil.
    pub fn serialize_unit(self) -> (r: Result<WireValue, Error>)
        ensures
            outcome(r) == encoded(HostView::Unit),
    {
        Ok(WireValue::Nil)
    }

    /// A unit struct is written as a unit.
    pub fn serialize_unit_struct(self, _name: &'static str) -> (r: Result<WireValue, Error>)
        ensures
            outcome(r) == encoded(HostView::Unit),
    {
        self.serialize_unit()
    }

    /// A variant that carries nothing is written as its name.
    pub fn serialize_unit_variant(
        self,
        _name: &'static str,
        _variant_index: u32,
        variant: &'static str,
    ) -> (r: Result<WireValue, Error>)
        ensures
            outcome(r) == encoded(HostView::UnitVariant(variant@)),
    {
        self.serialize_str(variant)
    }

    /// A struct that wraps one value is written as the value.
    pub fn serialize_newtype_struct(self, _name: &'static str, value: &Host) -> (r: Result<
        WireValue,
        Error,
    >)
        ensures
            outcome(r) == encoded(value@),
        decreases value, 2nat,
    {
        value.serialize(self)
    }

    /// A variant that carries one value cannot be written.
    pub fn serialize_newtype_variant(
        self,
        _name: &'static str,
        _variant_index: u32,
        _variant: &'static str,
        _value: &Host,
    ) -> (r: Result<WireValue, Error>)
        ensures
            outcome(r) == Err::<Wire, Seq<char>>(no_newtype_variant()),
    {
        Err(Error::Custom(String::from_str("newtype variants are not supported")))
    }

    /// Starts the list of a sequence.
    pub fn serialize_seq(self, len: Option<usize>) -> (r: Result<SerializeVec, Error>)
        ensures
            r matches Ok(list) && list@ == Seq::<Wire>::empty(),
    {
        Ok(
            SerializeVec {
                vec: Vec::with_capacity(
                    match len {
                        Some(n) => n,
                        None => 0,
                    },
                ),
            },
        )
    }

    /// Starts the list of a tuple.
    pub fn serialize_tuple(self, len: usize) -> (r: Result<SerializeVec, Error>)
        ensures
            r matches Ok(list) && list@ == Seq::<Wire>::empty(),
    {
        Ok(SerializeVec { vec: Vec::with_capacity(len) })
    }

    /// Starts the list of a tuple struct.
    pub fn serialize_tuple_struct(self, _name: &'static str, len: usize) -> (r: Result<
        SerializeVec,
        Error,
    >)
        ensures
            r matches Ok(list) && list@ == Seq::<Wire>::empty(),
    {
        Ok(SerializeVec { vec: Vec::with_capacity(len) })
    }

    /// A variant that carries several values cannot be written.
    pub fn serialize_tuple_variant(
        self,
        _name: &'static str,
        _variant_index: u32,
        _variant: &'static str,
        _len: usize,
    ) -> (r: Result<SerializeVec, Error>)
        ensures
            r matches Err(e) && e@ == no_tuple_variant(),
    {
        Err(Error::Custom(String::from_str("tuple variants are not supported")))
    }

    /// Starts the list of a map.
    pub fn serialize_map(self, len: Option<usize>) -> (r: Result<SerializeVec, Error>)
        ensures
            r matches Ok(list) && list@ == Seq::<Wire>::empty(),
    {
        Ok(
            SerializeVec {
                vec: Vec::with_capacity(
                    match len {
                        Some(n) => n,
                        None => 0,
                    },
                ),
            },
        )
    }

    /// Starts the list of a struct.
    pub fn serialize_struct(self, _name: &'static str, len: usize) -> (r: Result<
        SerializeVec,
        Error,
    >)
        ensures
            r matches Ok(list) && list@ == Seq::<Wire>::empty(),
    {
        Ok(SerializeVec { vec: Vec::with_capacity(len) })
    }

    /// A variant that carries named fields cannot be written.
    pub fn serialize_struct_variant(
        self,
        _name: &'static str,
        _variant_index: u32,
        _variant: &'static str,
        _len: usize,
    ) -> (r: Result<SerializeVec, Error>)
        ensures
            r matches Err(e) && e@ == no_struct_variant(),
    {
        Err(Error::Custom(String::from_str("struct variants are not supported")))
    }
}

/// The list of a sequence, a tuple, a map or a struct while it is written: the
/// replies of what was written so far, in order.
pub struct SerializeVec {
    vec: Vec<WireValue>,
}

impl View for SerializeVec {
    type V = Seq<Wire>;

    /// The contents of the replies written so far.
    closed spec fn view(&self) -> Seq<Wire> {
        wires(self.vec@)
    }
}

impl SerializeVec {
    /// The list reply of what was written so far.
    fn to_value(&self) -> (r: WireValue)
        ensures
            r@ == Wire::Bulk(self@),
    {
        let mut buffer: Vec<WireValue> = Vec::with_capacity(self.vec.len());
        let mut i: usize = 0;
        while i < self.vec.len()
            invariant
                i <= self.vec.len(),
                buffer.len() == i,
                forall|k: int| 0 <= k < i ==> buffer[k]@ == self.vec[k]@,
            decreases self.vec.len() - i,
        {
            buffer.push(self.vec[i].clone());
            i += 1;
        }
        proof {
            lemma_wires(buffer@);
            lemma_wires(self.vec@);
            assert(wires(buffer@) =~= wires(self.vec@));
        }
        WireValue::Bulk(buffer)
    }

    /// Adds a reply to the list.
    fn put(&mut self, v: WireValue)
        ensures
            final(self)@ == old(self)@.push(v@),
    {
        let ghost before = self.vec@;
        self.vec.push(v);
        proof {
            assert(self.vec@.drop_last() =~= before);
        }
    }

    /// Writes the next item of a sequence or of a tuple.
    pub fn serialize_element(&mut self, value: &Host) -> (r: Result<(), Error>)
        ensures
            match encoded(value@) {
                Ok(w) => r is Ok && final(self)@ == old(self)@.push(w),
                Err(msg) => (r matches Err(e) && e@ == msg) && final(self)@ == old(self)@,
            },
        decreases value, 2nat,
    {
        match value.serialize(Serializer) {
            Ok(v) => {
                self.put(v);
                Ok(())
            },
            Err(e) => Err(e),
        }
    }

    /// Writes the next value of a tuple struct.
    pub fn serialize_tuple_field(&mut self, value: &Host) -> (r: Result<(), Error>)
        ensures
            match encoded(value@) {
                Ok(w) => r is Ok && final(self)@ == old(self)@.push(w),
                Err(msg) => (r matches Err(e) && e@ == msg) && final(self)@ == old(self)@,
            },
        decreases value, 2nat,
    {
        match value.serialize(Serializer) {
            Ok(v) => {
                self.put(v);
                Ok(())
            },
            Err(e) => Err(e),
        }
    }

    /// Writes the next key of a map.
    pub fn serialize_key(&mut self, key: &Host) -> (r: Result<(), Error>)
        ensures
            match encoded(key@) {
                Ok(w) => r is Ok && final(self)@ == old(self)@.push(w),
                Err(msg) => (r matches Err(e) && e@ == msg) && final(self)@ == old(self)@,
            },
        decreases key, 2nat,
    {
        match key.serialize(Serializer) {
            Ok(v) => {
                self.put(v);
                Ok(())
            },
            Err(e) => Err(e),
        }
    }

    /// Writes the value of the key that was written last.
    pub fn serialize_value(&mut self, value: &Host) -> (r: Result<(), Error>)
        ensures
            match encoded(value@) {
                Ok(w) => r is Ok && final(self)@ == old(self)@.push(w),
                Err(msg) => (r matches Err(e) && e@ == msg) && final(self)@ == old(self)@,
            },
        decreases value, 2nat,
    {
        match value.serialize(Serializer) {
            Ok(v) => {
                self.put(v);
                Ok(())
            },
            Err(e) => Err(e),
        }
    }

    /// Writes the next field of a struct: its name as a byte string, then its
    /// value.
    pub fn serialize_field(&mut self, key: &'static str, value: &Host) -> (r: Result<(), Error>)
        ensures
            match encoded(value@) {
                Ok(w) => r is Ok && final(self)@ == old(self)@.push(
                    Wire::Data(encode_utf8(key@)),
                ).push(w),
                Err(msg) => (r matches Err(e) && e@ == msg) && final(self)@ == old(self)@,
            },
        decreases value, 2nat,
    {
        let k = WireValue::Data(slice_to_vec(key.as_bytes()));
        match value.serialize(Serializer) {
            Ok(v) => {
                self.put(k);
                self.put(v);
                Ok(())
            },
            Err(e) => Err(e),
        }
    }

    /// Closes the list: the list reply of what was written.
    pub fn end(self) -> (r: Result<WireValue, Error>)
        ensures
            outcome(r) == Ok::<Wire, Seq<char>>(Wire::Bulk(self@)),
    {
        Ok(self.to_value())
    }
}

impl Host {
    /// Encodes the value.
    pub fn serialize(&self, serializer: Serializer) -> (r: Result<WireValue, Error>)
        ensures
            outcome(r) == encoded(self@),
        decreases self, 1nat,
    {
        match self {
            Host::Bool(v) => serializer.serialize_bool(*v),
            Host::U8(v) => serializer.serialize_u8(*v),
            Host::U16(v) => serializer.serialize_u16(*v),
            Host::U32(v) => serializer.serialize_u32(*v),
            Host::U64(v) => serializer.serialize_u64(*v),
            Host::I8(v) => serializer.serialize_i8(*v),
            Host::I16(v) => serializer.serialize_i16(*v),
            Host::I32(v) => serializer.serialize_i32(*v),
            Host::I64(v) => serializer.serialize_i64(*v),
            Host::Char(c) => serializer.serialize_char(*c),
            Host::Str(s) => serializer.serialize_str(s.as_str()),
            Host::Bytes(b) => serializer.serialize_bytes(b.as_slice()),
            Host::Unit => serializer.serialize_unit(),
            Host::Absent => serializer.serialize_none(),
            Host::Present(inner) => serializer.serialize_some(inner),
            Host::Newtype(inner) => serializer.serialize_newtype_struct("", inner),
            Host::Sequence(items) => {
                let mut list = match serializer.serialize_seq(Some(items.len())) {
                    Ok(list) => list,
                    Err(e) => {
                        return Err(e);
                    },
                };
                let mut i: usize = 0;
                while i < items.len()
                    invariant
                        self is Sequence,
                        self->Sequence_0 == *items,
                        i <= items.len(),
                        encoded_items(crate::host::host_views(items@), i as nat) == Ok::<
                            Seq<Wire>,
                            Seq<char>,
                        >(list@),
                    decreases items.len() - i,
                {
                    proof {
                        crate::host::lemma_host_views(items@);
                    }
                    match list.serialize_element(&items[i]) {
                        Ok(_) => {},
                        Err(e) => {
                            proof {
                                lemma_items_message_stays(
                                    crate::host::host_views(items@),
                                    (i + 1) as nat,
                                    items.len() as nat,
                                );
                            }
                            return Err(e);
                        },
                    }
                    i += 1;
                }
                proof {
                    crate::host::lemma_host_views(items@);
                }
                list.end()
            },
            Host::Tuple(items) => {
                let mut list = match serializer.serialize_tuple(items.len()) {
                    Ok(list) => list,
                    Err(e) => {
                        return Err(e);
                    },
                };
                let mut i: usize = 0;
                while i < items.len()
                    invariant
                        self is Tuple,
                        self->Tuple_0 == *items,
                        i <= items.len(),
                        encoded_items(crate::host::host_views(items@), i as nat) == Ok::<
                            Seq<Wire>,
                            Seq<char>,
                        >(list@),
                    decreases items.len() - i,
                {
                    proof {
                        crate::host::lemma_host_views(items@);
                    }
                    match list.serialize_element(&items[i]) {
                        Ok(_) => {},
                        Err(e) => {
                            proof {
                                lemma_items_message_stays(
                                    crate::host::host_views(items@),
                                    (i + 1) as nat,
                                    items.len() as nat,
                                );
                            }
                            return Err(e);
                        },
                    }
                    i += 1;
                }
                proof {
                    crate::host::lemma_host_views(items@);
                }
                list.end()
            },
            Host::Mapping(entries) => {
                let mut list = match serializer.serialize_map(Some(entries.len())) {
                    Ok(list) => list,
                    Err(e) => {
                        return Err(e);
                    },
                };
                let mut i: usize = 0;
                while i < entries.len()
                    invariant
                        self is Mapping,
                        self->Mapping_0 == *entries,
                        i <= entries.len(),
                        encoded_entries(crate::host::entry_views(entries@), i as nat) == Ok::<
                            Seq<Wire>,
                            Seq<char>,
                        >(list@),
                    decreases entries.len() - i,
                {
                    proof {
                        crate::host::lemma_entry_views(entries@);
                    }
                    let entry = &entries[i];
                    match list.serialize_key(&entry.0) {
                        Ok(_) => {},
                        Err(e) => {
                            proof {
                                lemma_entries_message_stays(
                                    crate::host::entry_views(entries@),
                                    (i + 1) as nat,
                                    entries.len() as nat,
                                );
                            }
                            return Err(e);
                        },
                    }
                    match list.serialize_value(&entry.1) {
                        Ok(_) => {},
                        Err(e) => {
                            proof {
                                lemma_entries_message_stays(
                                    crate::host::entry_views(entries@),
                                    (i + 1) as nat,
                                    entries.len() as nat,
                                );
                            }
                            return Err(e);
                        },
                    }
                    i += 1;
                }
                proof {
                    crate::host::lemma_entry_views(entries@);
                }
                list.end()
            },
            Host::Struct(fields) => {
                let mut list = match serializer.serialize_struct("", fields.len()) {
                    Ok(list) => list,
                    Err(e) => {
                        return Err(e);
                    },
                };
                let mut i: usize = 0;
                while i < fields.len()
                    invariant
                        self is Struct,
                        self->Struct_0 == *fields,
                        i <= fields.len(),
                        encoded_fields(crate::host::field_views(fields@), i as nat) == Ok::<
                            Seq<Wire>,
                            Seq<char>,
                        >(list@),
                    decreases fields.len() - i,
                {
                    proof {
                        crate::host::lemma_field_views(fields@);
                    }
                    let field = &fields[i];
                    match list.serialize_field(field.0, &field.1) {
                        Ok(_) => {},
                        Err(e) => {
                            proof {
                                lemma_fields_message_stays(
                                    crate::host::field_views(fields@),
                                    (i + 1) as nat,
                                    fields.len() as nat,
                                );
                            }
                            return Err(e);
                        },
                    }
                    i += 1;
                }
                proof {
                    crate::host::lemma_field_views(fields@);
                }
                list.end()
            },
            Host::UnitVariant(name) => serializer.serialize_unit_variant("", 0, name),
            Host::NewtypeVariant(name, inner) => serializer.serialize_newtype_variant(
                "",
                0,
                name,
                inner,
            ),
            Host::TupleVariant(name, items) => match serializer.serialize_tuple_variant(
                "",
                0,
                name,
                items.len(),
            ) {
                Ok(list) => list.end(),
                Err(e) => Err(e),
            },
            Host::StructVariant(name, fields) => match serializer.serialize_struct_variant(
                "",
                0,
                name,
                fields.len(),
            ) {
                Ok(list) => list.end(),
                Err(e) => Err(e),
            },
        }
    }
}

/// Once an item cannot be encoded, the list cannot, with the same message.
pub proof fn lemma_items_message_stays(items: Seq<HostView>, m: nat, n: nat)
    requires
        m <= n <= items.len(),
        encoded_items(items, m) is Err,
    ensures
        encoded_items(items, n) == encoded_items(items, m),
    decreases n - m,
{
    if m < n {
        lemma_items_message_stays(items, m, (n - 1) as nat);
    }
}

/// Once an entry cannot be encoded, the map cannot, with the same message.
pub proof fn lemma_entries_message_stays(entries: Seq<(HostView, HostView)>, m: nat, n: nat)
    requires
        m <= n <= entries.len(),
        encoded_entries(entries, m) is Err,
    ensures
        encoded_entries(entries, n) == encoded_entries(entries, m),
    decreases n - m,
{
    if m < n {
        lemma_entries_message_stays(entries, m, (n - 1) as nat);
    }
}

/// Once a field cannot be encoded, the struct cannot, with the same message.
pub proof fn lemma_fields_message_stays(fields: Seq<(Seq<char>, HostView)>, m: nat, n: nat)
    requires
        m <= n <= fields.len(),
        encoded_fields(fields, m) is Err,
    ensures
        encoded_fields(fields, n) == encoded_fields(fields, m),
    decreases n - m,
{
    if m < n {
        lemma_fields_message_stays(fields, m, (n - 1) as nat);
    }
}

} // verus!
