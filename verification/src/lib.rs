//! A codec between the replies of a key-value store and typed host values.
//!
//! A reply is a small tree: a nil, a native integer, a byte string, or a list of
//! replies. The decoder answers a request for a host type from such a tree, by
//! reference or by value; the encoder writes a host value as such a tree. What
//! each does is stated as a function of the tree's content, and proved.
//!
//! The requests are those of serde's data model: truth values, integers, texts,
//! bytes, optional values, sequences, tuples, maps, structs and enums. The cursor
//! in [`decode`] answers each of them by itself, for a front end that hands the
//! answer on to a visitor; [`host::Shape`] describes a whole type, and
//! [`host::Host`] is a value of it, for callers that decode and encode without
//! one.

pub mod cow_iter;
pub mod decode;
pub mod encode;
pub mod host;
pub mod into_cow;
pub mod laws;
pub mod mode_laws;
pub mod reader;
pub mod round_trip;
pub mod struct_laws;
pub mod text;
pub mod utf8;
pub mod value;

pub use crate::decode::Deserializer;
pub use crate::encode::Serializer;
pub use crate::into_cow::IntoCow;

use crate::host::{Host, Shape};
use crate::into_cow::Slot;
use crate::reader::{decoded, outcome};
use crate::value::{Wire, WireValue};
use vstd::prelude::*;

verus! {

/// Decodes a host value of the described type from a reply, which is handed over
/// by reference or by value.
pub fn from_redis_value<'a, RV>(rv: RV, shape: &Shape) -> (r: Result<Host, decode::Error>) where
    RV: IntoCow<'a>,

    ensures
        outcome(r) == decoded(seq![rv.slot()], *shape),
{
    let value = rv.into_cow();
    shape.deserialize(Deserializer::new(value))
}

/// A reply that decodes itself, by reference.
pub trait RedisDeserialize {
    /// The content of the reply.
    spec fn wire(&self) -> Wire;

    /// Decodes a host value of the described type from this reply.
    fn deserialize(&self, shape: &Shape) -> (r: Result<Host, decode::Error>)
        ensures
            outcome(r) == decoded(seq![Slot { wire: self.wire(), owned: false }], *shape),
    ;
}

impl RedisDeserialize for WireValue {
    open spec fn wire(&self) -> Wire {
        self@
    }

    fn deserialize(&self, shape: &Shape) -> (r: Result<Host, decode::Error>) {
        shape.deserialize(Deserializer::new(self))
    }
}

} // verus!
