//! Decoding by description: what a cursor decodes to for a requested type, and
//! the decoder that computes it.

use crate::cow_iter::reversed;
use crate::decode::{
    bool_of, bytes_of, int_of, items_of, presence_of, text_of, wrong_value_fault,
    Deserializer, Error, Fault, MapVisitor, SeqVisitor,
};
use crate::host::{
    entry_views, field_views, host_views, lemma_entry_views, Field, Host, HostView, Payload,
    Shape, Variant,
};
use crate::into_cow::Slot;
use crate::text::{decimal, format_unsigned, lemma_digits_of, IntKind};
use crate::utf8::{
    ascii_chars, ascii_string, debug_str, is_ascii_bytes, same_text, str_debug, texts,
};
use crate::value::Wire;
use std::borrow::Cow;
use vstd::prelude::*;
use vstd::string::*;

verus! {

/// The message of the host where a text that a character was requested from is
/// not one character long.
pub open spec fn not_a_char(text: Seq<char>) -> Seq<char> {
    "invalid value: string "@ + str_debug(text) + ", expected a character"@
}

/// The message of the host where a unit was requested: a text came, and no text
/// is a unit.
pub open spec fn not_a_unit(text: Seq<char>) -> Seq<char> {
    "invalid type: string "@ + str_debug(text) + ", expected unit"@
}

/// The message of the host where a list ends before the last value of a tuple
/// of `size`: `had` values were there.
pub open spec fn too_short(had: int, size: int) -> Seq<char> {
    "invalid length "@ + ascii_chars(decimal(had)) + ", expected a tuple of size "@ + ascii_chars(
        decimal(size),
    )
}

/// The first of the first `n` fields that is called `name`, if any.
pub open spec fn field_index(fields: Seq<Field>, name: Seq<char>, n: nat) -> Option<int>
    decreases n,
{
    if n == 0 {
        None
    } else {
        match field_index(fields, name, (n - 1) as nat) {
            Some(j) => Some(j),
            None => if fields[n - 1].name@ == name {
                Some(n - 1)
            } else {
                None
            },
        }
    }
}

/// The first of the first `n` variants that is called `name`, if any.
pub open spec fn variant_index(variants: Seq<Variant>, name: Seq<char>, n: nat) -> Option<int>
    decreases n,
{
    if n == 0 {
        None
    } else {
        match variant_index(variants, name, (n - 1) as nat) {
            Some(j) => Some(j),
            None => if variants[n - 1].name@ == name {
                Some(n - 1)
            } else {
                None
            },
        }
    }
}

/// The names of the variants, in order.
pub open spec fn variant_names(variants: Seq<Variant>) -> Seq<Seq<char>> {
    Seq::new(variants.len(), |i: int| variants[i].name@)
}

/// What stands in the place of the payload of every variant: a nil, held by
/// value.
pub open spec fn no_payload() -> Slot {
    Slot { wire: Wire::Nil, owned: true }
}

/// The values of a flat list, two by two.
pub open spec fn paired(flat: Seq<HostView>) -> Seq<(HostView, HostView)> {
    Seq::new(flat.len() / 2, |i: int| (flat[2 * i], flat[2 * i + 1]))
}

/// What a cursor decodes to where a value of `shape` is requested.
///
/// Every request but an optional one and a newtype struct takes the next reply
/// and fails at the end of the cursor. Each item of a list is decoded by a cursor
/// of its own over that item alone, so a list of lists decodes to a sequence of
/// structs, one for each inner list.
pub open spec fn decoded(cursor: Seq<Slot>, shape: Shape) -> Result<HostView, Fault>
    decreases shape, 1nat, 0nat,
{
    match shape {
        Shape::Optional(inner) => match presence_of(cursor) {
            Err(fault) => Err(fault),
            Ok(false) => Ok(HostView::Absent),
            Ok(true) => match decoded(cursor, *inner) {
                Ok(h) => Ok(HostView::Present(Box::new(h))),
                Err(fault) => Err(fault),
            },
        },
        Shape::Newtype(inner) => match decoded(cursor, *inner) {
            Ok(h) => Ok(HostView::Newtype(Box::new(h))),
            Err(fault) => Err(fault),
        },
        _ => if cursor.len() == 0 {
            Err(Fault::EndOfStream)
        } else {
            let slot = cursor[0];
            match shape {
                Shape::Bool => match bool_of(slot) {
                    Ok(b) => Ok(HostView::Bool(b)),
                    Err(fault) => Err(fault),
                },
                Shape::Int(kind) => match int_of(slot, kind) {
                    Ok(v) => Ok(HostView::Int(kind, v)),
                    Err(fault) => Err(fault),
                },
                Shape::Char => match text_of(slot) {
                    Ok(text) => if text.len() == 1 {
                        Ok(HostView::Char(text[0]))
                    } else {
                        Err(Fault::Custom(not_a_char(text)))
                    },
                    Err(fault) => Err(fault),
                },
                Shape::Str => match text_of(slot) {
                    Ok(text) => Ok(HostView::Str(text)),
                    Err(fault) => Err(fault),
                },
                Shape::Bytes | Shape::Any => match bytes_of(slot) {
                    Ok(bytes) => Ok(HostView::Bytes(bytes)),
                    Err(fault) => Err(fault),
                },
                Shape::Unit => match text_of(slot) {
                    Ok(text) => Err(Fault::Custom(not_a_unit(text))),
                    Err(fault) => Err(fault),
                },
                Shape::Sequence(_) => match items_of(slot) {
                    Ok(items) => match decoded_items(items, shape, items.len()) {
                        Ok(hs) => Ok(HostView::Sequence(hs)),
                        Err(fault) => Err(fault),
                    },
                    Err(fault) => Err(fault),
                },
                Shape::Tuple(shapes) => match items_of(slot) {
                    Ok(items) => match decoded_items(items, shape, shapes.len() as nat) {
                        Ok(hs) => Ok(HostView::Tuple(hs)),
                        Err(fault) => Err(fault),
                    },
                    Err(fault) => Err(fault),
                },
                Shape::Mapping(_, _) => match items_of(slot) {
                    Ok(items) => match decoded_items(items, shape, items.len()) {
                        Ok(flat) => if items.len() % 2 == 1 {
                            Err(Fault::EndOfStream)
                        } else {
                            Ok(HostView::Mapping(paired(flat)))
                        },
                        Err(fault) => Err(fault),
                    },
                    Err(fault) => Err(fault),
                },
                Shape::Struct(fields) => match items_of(slot) {
                    Ok(items) => match filled(items, shape, ((items.len() + 1) / 2) as nat) {
                        Ok(found) => match gathered(found, fields@, fields.len() as nat) {
                            Ok(entries) => Ok(HostView::Struct(entries)),
                            Err(fault) => Err(fault),
                        },
                        Err(fault) => Err(fault),
                    },
                    Err(fault) => Err(fault),
                },
                Shape::Enum(variants) => match text_of(slot) {
                    Ok(name) => match variant_index(variants@, name, variants.len() as nat) {
                        None => Err(Fault::UnknownVariant(name, variant_names(variants@))),
                        // The variant that is found is always one of the variants.
                        Some(j) => if !(0 <= j < variants.len()) {
                            Err(Fault::DeserializeNotSupported)
                        } else {
                            match variants[j].payload {
                                Payload::Unit => Ok(HostView::UnitVariant(variants[j].name@)),
                                Payload::Newtype(inner) => match decoded(
                                    seq![no_payload()],
                                    inner,
                                ) {
                                    Ok(h) => Ok(
                                        HostView::NewtypeVariant(variants[j].name@, Box::new(h)),
                                    ),
                                    Err(fault) => Err(fault),
                                },
                                Payload::Tuple | Payload::Struct => Err(
                                    wrong_value_fault("Expected bytes, but got "@, Wire::Nil),
                                ),
                            }
                        },
                    },
                    Err(fault) => Err(fault),
                },
                // The two other requests are answered above.
                _ => Err(Fault::DeserializeNotSupported),
            }
        },
    }
}

/// The type that the item at `i` of a list is decoded by, where the list was
/// requested as `shape`: the one type of a sequence, the type at `i` of a tuple,
/// the key type of a map at an even place and its value type at an odd one.
pub open spec fn item_shape(shape: Shape, i: int) -> Shape {
    match shape {
        Shape::Sequence(elem) => *elem,
        Shape::Tuple(shapes) => shapes[i],
        Shape::Mapping(key, value) => if i % 2 == 0 {
            *key
        } else {
            *value
        },
        _ => Shape::Any,
    }
}

/// What the first `n` items of a list decode to, where the list was requested
/// as `shape`, a sequence, a tuple or a map: the values in order, or the fault of
/// the first item that has one. A tuple that asks for more items than there are
/// fails at the first that is missing.
pub open spec fn decoded_items(items: Seq<Slot>, shape: Shape, n: nat) -> Result<
    Seq<HostView>,
    Fault,
>
    decreases shape, 0nat, n,
{
    if n == 0 {
        Ok(Seq::empty())
    } else {
        match decoded_items(items, shape, (n - 1) as nat) {
            Err(fault) => Err(fault),
            Ok(hs) => if n - 1 >= items.len() {
                Err(Fault::Custom(too_short(n - 1, shape->Tuple_0.len() as int)))
            } else if shape is Sequence || (shape is Tuple && n - 1 < shape->Tuple_0.len())
                || shape is Mapping {
                match decoded(seq![items[n - 1]], item_shape(shape, n - 1)) {
                    Ok(h) => Ok(hs.push(h)),
                    Err(fault) => Err(fault),
                }
            } else {
                // No other request reads a list item by item.
                Err(Fault::DeserializeNotSupported)
            },
        }
    }
}

/// What the first `n` pairs of a list of keys and values find for the fields of
/// the struct `shape`: for each field the value that a pair gave it, if any.
///
/// A key has to be a text. A key that names no field is passed over together
/// with its value, whatever the value is. A key that names a field which has its
/// value already makes the field a duplicate. A key at the end of the list has no
/// value. The first pair that fails decides the fault.
pub open spec fn filled(items: Seq<Slot>, shape: Shape, n: nat) -> Result<
    Seq<Option<HostView>>,
    Fault,
>
    decreases shape, 0nat, n,
{
    let fields = shape->Struct_0@;
    if n == 0 {
        Ok(Seq::new(fields.len(), |j: int| None))
    } else {
        match filled(items, shape, (n - 1) as nat) {
            Err(fault) => Err(fault),
            Ok(found) => if 2 * (n - 1) >= items.len() || !(shape is Struct) {
                Err(Fault::EndOfStream)
            } else {
                match text_of(items[2 * (n - 1)]) {
                    Err(fault) => Err(fault),
                    Ok(name) => match field_index(fields, name, fields.len()) {
                        None => if 2 * (n - 1) + 1 < items.len() {
                            Ok(found)
                        } else {
                            Err(Fault::EndOfStream)
                        },
                        // The field that is found is always one of the fields.
                        Some(j) => if !(0 <= j < fields.len()) {
                            Err(Fault::DeserializeNotSupported)
                        } else if found[j] is Some {
                            Err(Fault::DuplicateField(fields[j].name@))
                        } else if 2 * (n - 1) + 1 >= items.len() {
                            Err(Fault::EndOfStream)
                        } else {
                            match decoded(seq![items[2 * (n - 1) + 1]], fields[j].shape) {
                                Ok(h) => Ok(found.update(j, Some(h))),
                                Err(fault) => Err(fault),
                            }
                        },
                    },
                }
            },
        }
    }
}

/// The entries of a struct from what was found for its first `n` fields: each
/// field with its value, an optional field without one as absent; the first
/// other field without a value is missing.
pub open spec fn gathered(found: Seq<Option<HostView>>, fields: Seq<Field>, n: nat) -> Result<
    Seq<(Seq<char>, HostView)>,
    Fault,
>
    decreases n,
{
    if n == 0 {
        Ok(Seq::empty())
    } else {
        match gathered(found, fields, (n - 1) as nat) {
            Err(fault) => Err(fault),
            Ok(entries) => match found[n - 1] {
                Some(h) => Ok(entries.push((fields[n - 1].name@, h))),
                None => if fields[n - 1].shape is Optional {
                    Ok(entries.push((fields[n - 1].name@, HostView::Absent)))
                } else {
                    Err(Fault::MissingField(fields[n - 1].name@))
                },
            },
        }
    }
}

/// Once an item has a fault, the list has it however many more items are asked
/// for.
pub proof fn lemma_items_fault_stays(items: Seq<Slot>, shape: Shape, m: nat, n: nat)
    requires
        m <= n,
        decoded_items(items, shape, m) is Err,
    ensures
        decoded_items(items, shape, n) == decoded_items(items, shape, m),
    decreases n - m,
{
    if m < n {
        lemma_items_fault_stays(items, shape, m, (n - 1) as nat);
    }
}

/// Once a pair has a fault, the struct has it however many more pairs are read.
pub proof fn lemma_filled_fault_stays(items: Seq<Slot>, shape: Shape, m: nat, n: nat)
    requires
        m <= n,
        filled(items, shape, m) is Err,
    ensures
        filled(items, shape, n) == filled(items, shape, m),
    decreases n - m,
{
    if m < n {
        lemma_filled_fault_stays(items, shape, m, (n - 1) as nat);
    }
}

/// Once a field is missing, the struct is missing it however many more fields
/// are gathered.
pub proof fn lemma_gathered_fault_stays(
    found: Seq<Option<HostView>>,
    fields: Seq<Field>,
    m: nat,
    n: nat,
)
    requires
        m <= n,
        gathered(found, fields, m) is Err,
    ensures
        gathered(found, fields, n) == gathered(found, fields, m),
    decreases n - m,
{
    if m < n {
        lemma_gathered_fault_stays(found, fields, m, (n - 1) as nat);
    }
}

/// The decimal text of a number is ASCII.
pub proof fn lemma_decimal_ascii(v: int)
    ensures
        is_ascii_bytes(decimal(v)),
{
    if v < 0 {
        lemma_digits_of((-v) as nat);
        let body = crate::text::digits_of((-v) as nat);
        assert forall|i: int| 0 <= i < decimal(v).len() implies #[trigger] decimal(v)[i] < 128 by {
            if i > 0 {
                assert(decimal(v)[i] == body[i - 1]);
                assert(crate::text::is_digit(body[i - 1]));
            }
        }
    } else {
        lemma_digits_of(v as nat);
        assert forall|i: int| 0 <= i < decimal(v).len() implies #[trigger] decimal(v)[i] < 128 by {
            assert(crate::text::is_digit(crate::text::digits_of(v as nat)[i]));
        }
    }
}

/// The text behind a reference-or-value.
fn as_text<'b>(c: &'b Cow<'_, str>) -> (r: &'b str)
    ensures
        r@ == c@,
{
    match c {
        Cow::Borrowed(s) => s,
        Cow::Owned(s) => s.as_str(),
    }
}

/// The text as a string of its own.
fn into_string(c: Cow<'_, str>) -> (r: String)
    ensures
        r@ == c@,
{
    match c {
        Cow::Borrowed(s) => s.to_owned(),
        Cow::Owned(s) => s,
    }
}

/// The bytes as a buffer of its own.
fn into_bytes(c: Cow<'_, Vec<u8>>) -> (r: Vec<u8>)
    ensures
        r@ == c@,
{
    match c {
        Cow::Borrowed(b) => b.clone(),
        Cow::Owned(b) => b,
    }
}

/// A number as decimal text.
fn count_text(n: usize) -> (r: String)
    ensures
        r@ == ascii_chars(decimal(n as int)),
{
    proof {
        lemma_decimal_ascii(n as int);
    }
    ascii_string(format_unsigned(n as u64))
}

/// The place of the first field called `name`, if any.
fn find_field(fields: &Vec<Field>, name: &str) -> (r: Option<usize>)
    ensures
        match field_index(fields@, name@, fields.len() as nat) {
            Some(j) => r == Some(j as usize) && 0 <= j < fields.len(),
            None => r is None,
        },
{
    let mut i: usize = 0;
    while i < fields.len()
        invariant
            i <= fields.len(),
            field_index(fields@, name@, i as nat) is None,
        decreases fields.len() - i,
    {
        if same_text(fields[i].name, name) {
            proof {
                lemma_field_index_stays(fields@, name@, (i + 1) as nat, fields.len() as nat);
            }
            return Some(i);
        }
        i += 1;
    }
    None
}

/// A field that was found among the first fields is the one found among more.
pub proof fn lemma_field_index_stays(fields: Seq<Field>, name: Seq<char>, m: nat, n: nat)
    requires
        m <= n,
        field_index(fields, name, m) is Some,
    ensures
        field_index(fields, name, n) == field_index(fields, name, m),
    decreases n - m,
{
    if m < n {
        lemma_field_index_stays(fields, name, m, (n - 1) as nat);
    }
}

/// The place of the first variant called `name`, if any.
fn find_variant(variants: &Vec<Variant>, name: &str) -> (r: Option<usize>)
    ensures
        match variant_index(variants@, name@, variants.len() as nat) {
            Some(j) => r == Some(j as usize) && 0 <= j < variants.len(),
            None => r is None,
        },
{
    let mut i: usize = 0;
    while i < variants.len()
        invariant
            i <= variants.len(),
            variant_index(variants@, name@, i as nat) is None,
        decreases variants.len() - i,
    {
        if same_text(variants[i].name, name) {
            proof {
                lemma_variant_index_stays(variants@, name@, (i + 1) as nat, variants.len() as nat);
            }
            return Some(i);
        }
        i += 1;
    }
    None
}

/// A variant that was found among the first variants is the one found among
/// more.
pub proof fn lemma_variant_index_stays(variants: Seq<Variant>, name: Seq<char>, m: nat, n: nat)
    requires
        m <= n,
        variant_index(variants, name, m) is Some,
    ensures
        variant_index(variants, name, n) == variant_index(variants, name, m),
    decreases n - m,
{
    if m < n {
        lemma_variant_index_stays(variants, name, m, (n - 1) as nat);
    }
}

/// The names of the variants, in order.
fn names_of(variants: &Vec<Variant>) -> (r: Vec<&'static str>)
    ensures
        texts(r@) == variant_names(variants@),
{
    let mut out: Vec<&'static str> = Vec::new();
    let mut i: usize = 0;
    while i < variants.len()
        invariant
            i <= variants.len(),
            out.len() == i,
            forall|k: int| 0 <= k < i ==> out[k]@ == variants[k].name@,
        decreases variants.len() - i,
    {
        out.push(variants[i].name);
        i += 1;
    }
    proof {
        assert(texts(out@) =~= variant_names(variants@));
    }
    out
}

/// Decodes an integer of the requested kind.
fn read_int<'a>(kind: IntKind, de: Deserializer<'a>) -> (r: Result<Host, Error>)
    ensures
        outcome(r) == decoded(de@, Shape::Int(kind)),
{
    match kind {
        IntKind::U8 => match de.deserialize_u8() {
            Ok(v) => Ok(Host::U8(v)),
            Err(e) => Err(e),
        },
        IntKind::U16 => match de.deserialize_u16() {
            Ok(v) => Ok(Host::U16(v)),
            Err(e) => Err(e),
        },
        IntKind::U32 => match de.deserialize_u32() {
            Ok(v) => Ok(Host::U32(v)),
            Err(e) => Err(e),
        },
        IntKind::U64 => match de.deserialize_u64() {
            Ok(v) => Ok(Host::U64(v)),
            Err(e) => Err(e),
        },
        IntKind::I8 => match de.deserialize_i8() {
            Ok(v) => Ok(Host::I8(v)),
            Err(e) => Err(e),
        },
        IntKind::I16 => match de.deserialize_i16() {
            Ok(v) => Ok(Host::I16(v)),
            Err(e) => Err(e),
        },
        IntKind::I32 => match de.deserialize_i32() {
            Ok(v) => Ok(Host::I32(v)),
            Err(e) => Err(e),
        },
        IntKind::I64 => match de.deserialize_i64() {
            Ok(v) => Ok(Host::I64(v)),
            Err(e) => Err(e),
        },
    }
}

/// What a decoding returned, as the content of its value or of its error.
pub open spec fn outcome(r: Result<Host, Error>) -> Result<HostView, Fault> {
    match r {
        Ok(h) => Ok(h@),
        Err(e) => Err(e@),
    }
}

impl Shape {
    /// Decodes a value of this type from the cursor.
    pub fn deserialize<'a>(&self, de: Deserializer<'a>) -> (r: Result<Host, Error>)
        ensures
            outcome(r) == decoded(de@, *self),
        decreases self, 1nat,
    {
        match self {
            Shape::Optional(inner) => match de.deserialize_option() {
                Err(e) => Err(e),
                Ok(None) => Ok(Host::Absent),
                Ok(Some(rest)) => match inner.deserialize(rest) {
                    Ok(h) => Ok(Host::Present(Box::new(h))),
                    Err(e) => Err(e),
                },
            },
            Shape::Newtype(inner) => match inner.deserialize(de.deserialize_newtype_struct("")) {
                Ok(h) => Ok(Host::Newtype(Box::new(h))),
                Err(e) => Err(e),
            },
            Shape::Bool => match de.deserialize_bool() {
                Ok(b) => Ok(Host::Bool(b)),
                Err(e) => Err(e),
            },
            Shape::Int(kind) => read_int(*kind, de),
            Shape::Char => match de.deserialize_char() {
                Ok(text) => {
                    let s = as_text(&text);
                    if s.unicode_len() == 1 {
                        Ok(Host::Char(s.get_char(0)))
                    } else {
                        Err(
                            Error::Custom(
                                String::from_str("invalid value: string ").concat(
                                    debug_str(s).as_str(),
                                ).concat(", expected a character"),
                            ),
                        )
                    }
                },
                Err(e) => Err(e),
            },
            Shape::Str => match de.deserialize_string() {
                Ok(text) => Ok(Host::Str(into_string(text))),
                Err(e) => Err(e),
            },
            Shape::Bytes => match de.deserialize_byte_buf() {
                Ok(bytes) => Ok(Host::Bytes(into_bytes(bytes))),
                Err(e) => Err(e),
            },
            Shape::Any => match de.deserialize_any() {
                Ok(bytes) => Ok(Host::Bytes(into_bytes(bytes))),
                Err(e) => Err(e),
            },
            Shape::Unit => match de.deserialize_unit() {
                Ok(text) => Err(
                    Error::Custom(
                        String::from_str("invalid type: string ").concat(
                            debug_str(as_text(&text)).as_str(),
                        ).concat(", expected unit"),
                    ),
                ),
                Err(e) => Err(e),
            },
            Shape::Sequence(elem) => match de.deserialize_seq() {
                Ok(visitor) => self.read_sequence(elem, visitor),
                Err(e) => Err(e),
            },
            Shape::Tuple(shapes) => match de.deserialize_tuple(shapes.len()) {
                Ok(visitor) => self.read_tuple(shapes, visitor),
                Err(e) => Err(e),
            },
            Shape::Mapping(key, value) => match de.deserialize_map() {
                Ok(visitor) => self.read_mapping(key, value, visitor),
                Err(e) => Err(e),
            },
            Shape::Struct(fields) => match de.deserialize_struct("", &[]) {
                Ok(visitor) => self.read_struct(fields, visitor),
                Err(e) => Err(e),
            },
            Shape::Enum(variants) => self.read_enum(variants, de),
        }
    }

    /// Decodes the items of a list, all by the one type of the sequence.
    fn read_sequence<'a>(&self, elem: &Shape, visitor: SeqVisitor<'a>) -> (r: Result<Host, Error>)
        requires
            self is Sequence,
            *self->Sequence_0 == *elem,
        ensures
            outcome(r) == match decoded_items(visitor@, *self, visitor@.len()) {
                Ok(hs) => Ok::<HostView, Fault>(HostView::Sequence(hs)),
                Err(fault) => Err(fault),
            },
        decreases self, 0nat,
    {
        let mut walk = visitor;
        let ghost items = walk@;
        let mut out: Vec<Host> = Vec::new();
        loop
            invariant
                self is Sequence,
                *self->Sequence_0 == *elem,
                items == visitor@,
                out.len() <= items.len(),
                walk@ == items.skip(out.len() as int),
                decoded_items(items, *self, out.len() as nat) == Ok::<Seq<HostView>, Fault>(
                    host_views(out@),
                ),
            decreases items.len() - out.len(),
        {
            let ghost k = out.len() as int;
            match walk.next_element() {
                None => {
                    return Ok(Host::Sequence(out));
                },
                Some(item) => {
                    proof {
                        assert(items.skip(k).skip(1) =~= items.skip(k + 1));
                    }
                    proof {
                        assert(item_shape(*self, k) == *elem);
                        assert(item@ =~= seq![items[k]]);
                    }
                    let ghost before = out@;
                    match elem.deserialize(item) {
                        Ok(h) => {
                            out.push(h);
                            proof {
                                assert(out@.drop_last() =~= before);
                            }
                        },
                        Err(e) => {
                            proof {
                                lemma_items_fault_stays(
                                    items,
                                    *self,
                                    (k + 1) as nat,
                                    items.len(),
                                );
                            }
                            return Err(e);
                        },
                    }
                },
            }
        }
    }
}

/// What was found for the fields of a struct, as contents.
pub open spec fn found_views(found: Seq<Option<Host>>) -> Seq<Option<HostView>> {
    Seq::new(
        found.len(),
        |j: int|
            match found[j] {
                Some(h) => Some(h@),
                None => None,
            },
    )
}

/// Puts the fields of a struct together from what was found for them.
fn gather(fields: &Vec<Field>, found: Vec<Option<Host>>) -> (r: Result<Host, Error>)
    requires
        found.len() == fields.len(),
    ensures
        outcome(r) == match gathered(found_views(found@), fields@, fields.len() as nat) {
            Ok(entries) => Ok::<HostView, Fault>(HostView::Struct(entries)),
            Err(fault) => Err(fault),
        },
{
    let ghost views = found_views(found@);
    let ghost whole = found@;
    let mut rest = reversed(found);
    let mut entries: Vec<(&'static str, Host)> = Vec::new();
    while entries.len() < fields.len()
        invariant
            whole == found@,
            views == found_views(whole),
            whole.len() == fields.len(),
            entries.len() <= fields.len(),
            rest.len() == fields.len() - entries.len(),
            forall|k: int| 0 <= k < rest.len() ==> rest[k] == whole[whole.len() - 1 - k],
            gathered(views, fields@, entries.len() as nat) == Ok::<
                Seq<(Seq<char>, HostView)>,
                Fault,
            >(field_views(entries@)),
        decreases fields.len() - entries.len(),
    {
        let j = entries.len();
        let ghost before = entries@;
        let slot = rest.pop();
        let field = &fields[j];
        proof {
            assert(slot == Some(whole[j as int]));
            assert(views[j as int] == match whole[j as int] {
                Some(h) => Some(h@),
                None => None,
            });
        }
        match slot {
            Some(Some(h)) => {
                entries.push((field.name, h));
            },
            _ => {
                if matches!(field.shape, Shape::Optional(_)) {
                    entries.push((field.name, Host::Absent));
                } else {
                    proof {
                        lemma_gathered_fault_stays(
                            views,
                            fields@,
                            (j + 1) as nat,
                            fields.len() as nat,
                        );
                    }
                    return Err(Error::MissingField(field.name));
                }
            },
        }
        proof {
            assert(entries@.drop_last() =~= before);
            assert(field_views(entries@) == field_views(before).push(
                (entries@.last().0@, entries@.last().1@),
            ));
        }
    }
    Ok(Host::Struct(entries))
}

impl Shape {
    /// Decodes the items of a list, each by its own type of the tuple.
    fn read_tuple<'a>(&self, shapes: &Vec<Shape>, visitor: SeqVisitor<'a>) -> (r: Result<
        Host,
        Error,
    >)
        requires
            self is Tuple,
            self->Tuple_0 == *shapes,
        ensures
            outcome(r) == match decoded_items(visitor@, *self, self->Tuple_0.len() as nat) {
                Ok(hs) => Ok::<HostView, Fault>(HostView::Tuple(hs)),
                Err(fault) => Err(fault),
            },
        decreases self, 0nat,
    {
        let mut walk = visitor;
        let ghost items = walk@;
        let mut out: Vec<Host> = Vec::new();
        while out.len() < shapes.len()
            invariant
                self is Tuple,
                items == visitor@,
                self->Tuple_0 == *shapes,
                out.len() <= shapes.len(),
                out.len() <= items.len(),
                walk@ == items.skip(out.len() as int),
                decoded_items(items, *self, out.len() as nat) == Ok::<Seq<HostView>, Fault>(
                    host_views(out@),
                ),
            decreases shapes.len() - out.len(),
        {
            let ghost k = out.len() as int;
            match walk.next_element() {
                None => {
                    proof {
                        lemma_items_fault_stays(items, *self, (k + 1) as nat, shapes.len() as nat);
                    }
                    return Err(
                        Error::Custom(
                            String::from_str("invalid length ").concat(
                                count_text(out.len()).as_str(),
                            ).concat(", expected a tuple of size ").concat(
                                count_text(shapes.len()).as_str(),
                            ),
                        ),
                    );
                },
                Some(item) => {
                    proof {
                        assert(items.skip(k).skip(1) =~= items.skip(k + 1));
                    }
                    proof {
                        assert(item_shape(*self, k) == shapes[k]);
                        assert(item@ =~= seq![items[k]]);
                    }
                    let ghost before = out@;
                    match shapes[out.len()].deserialize(item) {
                        Ok(h) => {
                            out.push(h);
                            proof {
                                assert(out@.drop_last() =~= before);
                            }
                        },
                        Err(e) => {
                            proof {
                                lemma_items_fault_stays(
                                    items,
                                    *self,
                                    (k + 1) as nat,
                                    shapes.len() as nat,
                                );
                            }
                            return Err(e);
                        },
                    }
                },
            }
        }
        Ok(Host::Tuple(out))
    }

    /// Decodes the items of a list as keys and values in turn.
    fn read_mapping<'a>(&self, key_shape: &Shape, value_shape: &Shape, visitor: MapVisitor<'a>) -> (r:
        Result<Host, Error>)
        requires
            self is Mapping,
            *self->Mapping_0 == *key_shape,
            *self->Mapping_1 == *value_shape,
        ensures
            outcome(r) == match decoded_items(visitor@, *self, visitor@.len()) {
                Ok(flat) => if visitor@.len() % 2 == 1 {
                    Err::<HostView, Fault>(Fault::EndOfStream)
                } else {
                    Ok(HostView::Mapping(paired(flat)))
                },
                Err(fault) => Err(fault),
            },
        decreases self, 0nat,
    {
        let mut walk = visitor;
        let ghost items = walk@;
        let mut out: Vec<(Host, Host)> = Vec::new();
        let ghost mut flat: Seq<HostView> = Seq::empty();
        proof {
            assert(paired(flat) =~= entry_views(out@));
        }
        loop
            invariant
                self is Mapping,
                *self->Mapping_0 == *key_shape,
                *self->Mapping_1 == *value_shape,
                items == visitor@,
                2 * out.len() <= items.len(),
                walk@ == items.skip(2 * out.len()),
                flat.len() == 2 * out.len(),
                decoded_items(items, *self, (2 * out.len()) as nat) == Ok::<Seq<HostView>, Fault>(
                    flat,
                ),
                paired(flat) == entry_views(out@),
            decreases items.len() - 2 * out.len(),
        {
            let ghost k = 2 * out.len() as int;
            match walk.next_key() {
                None => {
                    return Ok(Host::Mapping(out));
                },
                Some(key_cursor) => {
                    proof {
                        assert(items.skip(k).skip(1) =~= items.skip(k + 1));
                    }
                    let key = match key_shape.deserialize(key_cursor) {
                        Ok(h) => h,
                        Err(e) => {
                            proof {
                                lemma_items_fault_stays(
                                    items,
                                    *self,
                                    (k + 1) as nat,
                                    items.len(),
                                );
                            }
                            return Err(e);
                        },
                    };
                    let value_cursor = match walk.next_value() {
                        Ok(cursor) => cursor,
                        Err(e) => {
                            return Err(e);
                        },
                    };
                    proof {
                        assert(items.skip(k + 1).skip(1) =~= items.skip(k + 2));
                    }
                    let value = match value_shape.deserialize(value_cursor) {
                        Ok(h) => h,
                        Err(e) => {
                            proof {
                                lemma_items_fault_stays(
                                    items,
                                    *self,
                                    (k + 2) as nat,
                                    items.len(),
                                );
                            }
                            return Err(e);
                        },
                    };
                    proof {
                        let longer = flat.push(key@).push(value@);
                        lemma_entry_views(out@);
                        lemma_entry_views(out@.push((key, value)));
                        assert(paired(longer) =~= entry_views(out@.push((key, value)))) by {
                            assert forall|i: int| 0 <= i < paired(longer).len() implies paired(
                                longer,
                            )[i] == entry_views(out@.push((key, value)))[i] by {
                                if i < out.len() {
                                    assert(paired(flat)[i] == entry_views(out@)[i]);
                                }
                            }
                        }
                        flat = longer;
                    }
                    out.push((key, value));
                },
            }
        }
    }

    /// Decodes the items of a list as the names of fields and their values in
    /// turn.
    fn read_struct<'a>(&self, fields: &Vec<Field>, visitor: MapVisitor<'a>) -> (r: Result<
        Host,
        Error,
    >)
        requires
            self is Struct,
            self->Struct_0 == *fields,
        ensures
            outcome(r) == match filled(visitor@, *self, ((visitor@.len() + 1) / 2) as nat) {
                Ok(found) => match gathered(
                    found,
                    self->Struct_0@,
                    self->Struct_0.len() as nat,
                ) {
                    Ok(entries) => Ok::<HostView, Fault>(HostView::Struct(entries)),
                    Err(fault) => Err(fault),
                },
                Err(fault) => Err(fault),
            },
        decreases self, 0nat,
    {
        let mut walk = visitor;
        let ghost items = walk@;
        let ghost pairs = ((items.len() + 1) / 2) as nat;
        let mut found: Vec<Option<Host>> = Vec::new();
        while found.len() < fields.len()
            invariant
                found.len() <= fields.len(),
                forall|j: int| 0 <= j < found.len() ==> found[j] is None,
            decreases fields.len() - found.len(),
        {
            found.push(None);
        }
        let ghost mut done: nat = 0;
        proof {
            assert(found_views(found@) =~= Seq::new(fields@.len(), |j: int| None::<HostView>));
        }
        loop
            invariant
                self is Struct,
                items == visitor@,
                self->Struct_0 == *fields,
                pairs == ((items.len() + 1) / 2) as nat,
                found.len() == fields.len(),
                2 * done <= items.len(),
                walk@ == items.skip(2 * done as int),
                filled(items, *self, done) == Ok::<Seq<Option<HostView>>, Fault>(
                    found_views(found@),
                ),
            decreases items.len() - 2 * done,
        {
            let ghost k = 2 * done as int;
            match walk.next_key() {
                None => {
                    return gather(fields, found);
                },
                Some(key_cursor) => {
                    proof {
                        assert(items.skip(k).skip(1) =~= items.skip(k + 1));
                    }
                    let name = match key_cursor.deserialize_identifier() {
                        Ok(name) => name,
                        Err(e) => {
                            proof {
                                lemma_filled_fault_stays(items, *self, done + 1, pairs);
                            }
                            return Err(e);
                        },
                    };
                    match find_field(fields, as_text(&name)) {
                        None => {
                            match walk.next_value() {
                                Ok(cursor) => {
                                    proof {
                                        assert(items.skip(k + 1).skip(1) =~= items.skip(k + 2));
                                    }
                                    let _ = cursor.deserialize_ignored_any();
                                },
                                Err(e) => {
                                    proof {
                                        lemma_filled_fault_stays(
                                            items,
                                            *self,
                                            done + 1,
                                            pairs,
                                        );
                                    }
                                    return Err(e);
                                },
                            }
                        },
                        Some(j) => {
                            if found[j].is_some() {
                                proof {
                                    lemma_filled_fault_stays(
                                        items,
                                        *self,
                                        done + 1,
                                        pairs,
                                    );
                                }
                                return Err(Error::DuplicateField(fields[j].name));
                            }
                            let cursor = match walk.next_value() {
                                Ok(cursor) => cursor,
                                Err(e) => {
                                    proof {
                                        lemma_filled_fault_stays(
                                            items,
                                            *self,
                                            done + 1,
                                            pairs,
                                        );
                                    }
                                    return Err(e);
                                },
                            };
                            proof {
                                assert(items.skip(k + 1).skip(1) =~= items.skip(k + 2));
                            }
                            match fields[j].shape.deserialize(cursor) {
                                Ok(h) => {
                                    let ghost before = found@;
                                    found.set(j, Some(h));
                                    proof {
                                        assert(found_views(found@) =~= found_views(before).update(
                                            j as int,
                                            Some(h@),
                                        ));
                                    }
                                },
                                Err(e) => {
                                    proof {
                                        lemma_filled_fault_stays(
                                            items,
                                            *self,
                                            done + 1,
                                            pairs,
                                        );
                                    }
                                    return Err(e);
                                },
                            }
                        },
                    }
                    proof {
                        done = done + 1;
                    }
                },
            }
        }
    }

    /// Decodes the name of a variant, and what the variant carries from the nil
    /// that stands in its place.
    fn read_enum<'a>(&self, variants: &Vec<Variant>, de: Deserializer<'a>) -> (r: Result<
        Host,
        Error,
    >)
        requires
            self is Enum,
            self->Enum_0 == *variants,
        ensures
            outcome(r) == decoded(de@, *self),
        decreases self, 0nat,
    {
        let visitor = match de.deserialize_enum("", &[]) {
            Ok(visitor) => visitor,
            Err(e) => {
                return Err(e);
            },
        };
        let (name_cursor, payload) = visitor.variant_seed();
        let name = match name_cursor.deserialize_identifier() {
            Ok(name) => name,
            Err(e) => {
                return Err(e);
            },
        };
        match find_variant(variants, as_text(&name)) {
            None => Err(Error::UnknownVariant(into_string(name), names_of(variants))),
            Some(j) => {
                let variant = &variants[j];
                match &variant.payload {
                    Payload::Unit => match payload.unit_variant() {
                        Ok(_) => Ok(Host::UnitVariant(variant.name)),
                        Err(e) => Err(e),
                    },
                    Payload::Newtype(inner) => match inner.deserialize(payload.newtype_variant()) {
                        Ok(h) => Ok(Host::NewtypeVariant(variant.name, Box::new(h))),
                        Err(e) => Err(e),
                    },
                    Payload::Tuple => match payload.tuple_variant(0) {
                        Ok(bytes) => Ok(Host::Bytes(into_bytes(bytes))),
                        Err(e) => Err(e),
                    },
                    Payload::Struct => match payload.struct_variant(&[]) {
                        Ok(bytes) => Ok(Host::Bytes(into_bytes(bytes))),
                        Err(e) => Err(e),
                    },
                }
            },
        }
    }
}

} // verus!
