//! The reply tree of the store, and its mathematical content.

use vstd::prelude::*;

verus! {

/// The mathematical content of a reply: what a [`WireValue`] holds, with sequences in
/// place of vectors and strings.
pub enum Wire {
    Nil,
    Int(i64),
    Data(Seq<u8>),
    Bulk(Seq<Wire>),
    Status(Seq<char>),
    Okay,
}

/// A reply of the store, as the protocol layer hands it over.
#[derive(Debug, PartialEq, Eq)]
pub enum WireValue {
    /// The absence of a value.
    Nil,
    /// A native integer.
    Int(i64),
    /// A byte string: text, a number as text, raw bytes, a name.
    Data(Vec<u8>),
    /// An ordered list of replies.
    Bulk(Vec<WireValue>),
    /// A status line.
    Status(String),
    /// The status line `OK`.
    Okay,
}

/// The content of a reply.
pub open spec fn wire_of(v: WireValue) -> Wire
    decreases v, 0nat,
{
    match v {
        WireValue::Nil => Wire::Nil,
        WireValue::Int(i) => Wire::Int(i),
        WireValue::Data(bytes) => Wire::Data(bytes@),
        WireValue::Bulk(items) => Wire::Bulk(wires(items@)),
        WireValue::Status(text) => Wire::Status(text@),
        WireValue::Okay => Wire::Okay,
    }
}

/// The contents of a list of replies, in order.
pub open spec fn wires(items: Seq<WireValue>) -> Seq<Wire>
    decreases items, 1nat,
{
    if items.len() == 0 {
        Seq::empty()
    } else {
        wires(items.drop_last()).push(wire_of(items.last()))
    }
}

impl View for WireValue {
    type V = Wire;

    open spec fn view(&self) -> Wire {
        wire_of(*self)
    }
}

/// The contents of a list of replies are as many as the replies, and each is the
/// content of the reply in its place.
pub proof fn lemma_wires(items: Seq<WireValue>)
    ensures
        wires(items).len() == items.len(),
        forall|i: int| 0 <= i < items.len() ==> #[trigger] wires(items)[i] == items[i]@,
    decreases items.len(),
{
    if items.len() > 0 {
        lemma_wires(items.drop_last());
    }
}

impl Clone for WireValue {
    fn clone(&self) -> (r: Self)
        ensures
            r@ == self@,
        decreases self,
    {
        match self {
            WireValue::Nil => WireValue::Nil,
            WireValue::Int(i) => WireValue::Int(*i),
            WireValue::Data(bytes) => WireValue::Data(bytes.clone()),
            WireValue::Bulk(items) => {
                let mut copy: Vec<WireValue> = Vec::new();
                let mut i: usize = 0;
                while i < items.len()
                    invariant
                        i <= items.len(),
                        copy.len() == i,
                        self is Bulk,
                        self->Bulk_0 == *items,
                        forall|k: int| 0 <= k < i ==> copy[k]@ == items[k]@,
                    decreases items.len() - i,
                {
                    let item = &items[i];
                    copy.push(item.clone());
                    i += 1;
                }
                proof {
                    lemma_wires(copy@);
                    lemma_wires(items@);
                    assert(wires(copy@) =~= wires(items@));
                }
                WireValue::Bulk(copy)
            },
            WireValue::Status(text) => WireValue::Status(text.clone()),
            WireValue::Okay => WireValue::Okay,
        }
    }
}

/// The reply type of the `redis` crate, carried through as it comes.
#[verifier::external_type_specification]
#[verifier::external_body]
pub struct ExRedisValue(redis::Value);

/// The text that the `redis` crate's `Debug` writes for a reply with this content.
pub uninterp spec fn value_debug(w: Wire) -> Seq<char>;

/// Writes `v` in the reply type of the `redis` crate, variant for variant.
#[verifier::external_body]
fn to_redis(v: &WireValue) -> (r: redis::Value) {
    match v {
        WireValue::Nil => redis::Value::Nil,
        WireValue::Int(i) => redis::Value::Int(*i),
        WireValue::Data(bytes) => redis::Value::Data(bytes.clone()),
        WireValue::Bulk(items) => redis::Value::Bulk(items.iter().map(to_redis).collect()),
        WireValue::Status(text) => redis::Value::Status(text.clone()),
        WireValue::Okay => redis::Value::Okay,
    }
}

/// Formats a reply with the `Debug` impl of `redis::Value`; the text is a function
/// of the reply's content alone.
#[verifier::external_body]
pub(crate) fn debug_value(v: &WireValue) -> (r: String)
    ensures
        r@ == value_debug(v@),
{
    format!("{:?}", to_redis(v))
}

} // verus!
