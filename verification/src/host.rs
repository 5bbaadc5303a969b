//! Host values and the requests for them: what a reply is decoded into, what is
//! encoded into a reply, and the description of a type that drives the decoder.

use crate::text::IntKind;
use vstd::prelude::*;

verus! {

/// The description of a host type: the request that the decoder answers.
#[derive(Debug, PartialEq, Eq)]
pub enum Shape {
    /// A truth value.
    Bool,
    /// An integer of the given width and signedness.
    Int(IntKind),
    /// One character.
    Char,
    /// A text.
    Str,
    /// Raw bytes.
    Bytes,
    /// The unit type, which no reply stands for.
    Unit,
    /// A value of no named kind, taken as raw bytes.
    Any,
    /// A value that may be absent.
    Optional(Box<Shape>),
    /// A struct that wraps one value and is written as that value.
    Newtype(Box<Shape>),
    /// Any number of values of one type.
    Sequence(Box<Shape>),
    /// A fixed number of values, each of its own type.
    Tuple(Vec<Shape>),
    /// Keys of one type with values of another.
    Mapping(Box<Shape>, Box<Shape>),
    /// Named fields, in the order of their declaration.
    Struct(Vec<Field>),
    /// Named variants, in the order of their declaration.
    Enum(Vec<Variant>),
}

/// A field of a struct: its name and the type of its value.
#[derive(Debug, PartialEq, Eq)]
pub struct Field {
    pub name: &'static str,
    pub shape: Shape,
}

/// A variant of an enum: its name and what it carries.
#[derive(Debug, PartialEq, Eq)]
pub struct Variant {
    pub name: &'static str,
    pub payload: Payload,
}

/// What a variant of an enum carries.
#[derive(Debug, PartialEq, Eq)]
pub enum Payload {
    /// Nothing: the variant is its name.
    Unit,
    /// One value.
    Newtype(Shape),
    /// Several values.
    Tuple,
    /// Named fields.
    Struct,
}

/// A host value.
#[derive(Debug, PartialEq, Eq)]
pub enum Host {
    Bool(bool),
    U8(u8),
    U16(u16),
    U32(u32),
    U64(u64),
    I8(i8),
    I16(i16),
    I32(i32),
    I64(i64),
    Char(char),
    Str(String),
    Bytes(Vec<u8>),
    Unit,
    /// An optional value that is not there.
    Absent,
    /// An optional value that is there.
    Present(Box<Host>),
    /// A struct that wraps one value.
    Newtype(Box<Host>),
    Sequence(Vec<Host>),
    Tuple(Vec<Host>),
    /// The entries of a map, in the order in which they are walked or were read.
    Mapping(Vec<(Host, Host)>),
    /// The fields of a struct with their names, in the order of their declaration.
    Struct(Vec<(&'static str, Host)>),
    /// A variant that carries nothing.
    UnitVariant(&'static str),
    /// A variant that carries one value.
    NewtypeVariant(&'static str, Box<Host>),
    /// A variant that carries several values.
    TupleVariant(&'static str, Vec<Host>),
    /// A variant that carries named fields.
    StructVariant(&'static str, Vec<(&'static str, Host)>),
}

/// The mathematical content of a host value.
pub enum HostView {
    Bool(bool),
    Int(IntKind, int),
    Char(char),
    Str(Seq<char>),
    Bytes(Seq<u8>),
    Unit,
    Absent,
    Present(Box<HostView>),
    Newtype(Box<HostView>),
    Sequence(Seq<HostView>),
    Tuple(Seq<HostView>),
    Mapping(Seq<(HostView, HostView)>),
    Struct(Seq<(Seq<char>, HostView)>),
    UnitVariant(Seq<char>),
    NewtypeVariant(Seq<char>, Box<HostView>),
    TupleVariant(Seq<char>, Seq<HostView>),
    StructVariant(Seq<char>, Seq<(Seq<char>, HostView)>),
}

/// The content of a host value.
pub open spec fn host_view(h: Host) -> HostView
    decreases h, 0nat,
{
    match h {
        Host::Bool(b) => HostView::Bool(b),
        Host::U8(v) => HostView::Int(IntKind::U8, v as int),
        Host::U16(v) => HostView::Int(IntKind::U16, v as int),
        Host::U32(v) => HostView::Int(IntKind::U32, v as int),
        Host::U64(v) => HostView::Int(IntKind::U64, v as int),
        Host::I8(v) => HostView::Int(IntKind::I8, v as int),
        Host::I16(v) => HostView::Int(IntKind::I16, v as int),
        Host::I32(v) => HostView::Int(IntKind::I32, v as int),
        Host::I64(v) => HostView::Int(IntKind::I64, v as int),
        Host::Char(c) => HostView::Char(c),
        Host::Str(s) => HostView::Str(s@),
        Host::Bytes(b) => HostView::Bytes(b@),
        Host::Unit => HostView::Unit,
        Host::Absent => HostView::Absent,
        Host::Present(inner) => HostView::Present(Box::new(host_view(*inner))),
        Host::Newtype(inner) => HostView::Newtype(Box::new(host_view(*inner))),
        Host::Sequence(items) => HostView::Sequence(host_views(items@)),
        Host::Tuple(items) => HostView::Tuple(host_views(items@)),
        Host::Mapping(entries) => HostView::Mapping(entry_views(entries@)),
        Host::Struct(fields) => HostView::Struct(field_views(fields@)),
        Host::UnitVariant(name) => HostView::UnitVariant(name@),
        Host::NewtypeVariant(name, inner) => HostView::NewtypeVariant(
            name@,
            Box::new(host_view(*inner)),
        ),
        Host::TupleVariant(name, items) => HostView::TupleVariant(name@, host_views(items@)),
        Host::StructVariant(name, fields) => HostView::StructVariant(name@, field_views(fields@)),
    }
}

/// The contents of a list of host values, in order.
pub open spec fn host_views(items: Seq<Host>) -> Seq<HostView>
    decreases items, 1nat,
{
    if items.len() == 0 {
        Seq::empty()
    } else {
        host_views(items.drop_last()).push(host_view(items.last()))
    }
}

/// The contents of the entries of a map, in order.
pub open spec fn entry_views(entries: Seq<(Host, Host)>) -> Seq<(HostView, HostView)>
    decreases entries, 1nat,
{
    if entries.len() == 0 {
        Seq::empty()
    } else {
        entry_views(entries.drop_last()).push(
            (host_view(entries.last().0), host_view(entries.last().1)),
        )
    }
}

/// The names and contents of the fields of a struct, in order.
pub open spec fn field_views(fields: Seq<(&'static str, Host)>) -> Seq<(Seq<char>, HostView)>
    decreases fields, 1nat,
{
    if fields.len() == 0 {
        Seq::empty()
    } else {
        field_views(fields.drop_last()).push((fields.last().0@, host_view(fields.last().1)))
    }
}

impl View for Host {
    type V = HostView;

    open spec fn view(&self) -> HostView {
        host_view(*self)
    }
}

/// The contents of a list of host values are as many as the values, and each is
/// the content of the value in its place.
pub proof fn lemma_host_views(items: Seq<Host>)
    ensures
        host_views(items).len() == items.len(),
        forall|i: int| 0 <= i < items.len() ==> #[trigger] host_views(items)[i] == items[i]@,
    decreases items.len(),
{
    if items.len() > 0 {
        lemma_host_views(items.drop_last());
    }
}

/// The contents of the entries of a map are as many as the entries, and each
/// holds the contents of the key and of the value in its place.
pub proof fn lemma_entry_views(entries: Seq<(Host, Host)>)
    ensures
        entry_views(entries).len() == entries.len(),
        forall|i: int|
            0 <= i < entries.len() ==> #[trigger] entry_views(entries)[i] == (
                entries[i].0@,
                entries[i].1@,
            ),
    decreases entries.len(),
{
    if entries.len() > 0 {
        lemma_entry_views(entries.drop_last());
    }
}

/// The contents of the fields of a struct are as many as the fields, and each
/// holds the name and the content of the field in its place.
pub proof fn lemma_field_views(fields: Seq<(&'static str, Host)>)
    ensures
        field_views(fields).len() == fields.len(),
        forall|i: int|
            0 <= i < fields.len() ==> #[trigger] field_views(fields)[i] == (
                fields[i].0@,
                fields[i].1@,
            ),
    decreases fields.len(),
{
    if fields.len() > 0 {
        lemma_field_views(fields.drop_last());
    }
}

} // verus!
