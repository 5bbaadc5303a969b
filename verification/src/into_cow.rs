//! Handing a reply to the decoder by reference or by value.

use crate::value::{Wire, WireValue};
use std::borrow::Cow;
use vstd::prelude::*;

verus! {

/// What the decoder sees of one reply it was given: the reply's content, and
/// whether the reply is held by value or by reference.
pub struct Slot {
    pub wire: Wire,
    pub owned: bool,
}

/// What the decoder sees of a reply that is held by value or by reference.
pub open spec fn slot_of(c: Cow<'_, WireValue>) -> Slot {
    match c {
        Cow::Borrowed(v) => Slot { wire: v@, owned: false },
        Cow::Owned(v) => Slot { wire: v@, owned: true },
    }
}

/// What the decoder sees of each of a list of replies.
pub open spec fn slots_of(items: Seq<Cow<'_, WireValue>>) -> Seq<Slot> {
    Seq::new(items.len(), |i: int| slot_of(items[i]))
}

/// A reply that can be handed to the decoder: a reference, which the decoder
/// reads without copying, or a value, which the decoder takes apart.
pub trait IntoCow<'a>: Sized {
    /// What the decoder will see of the reply.
    spec fn slot(self) -> Slot;

    /// The reply, held as it was handed over.
    fn into_cow(self) -> (r: Cow<'a, WireValue>)
        ensures
            slot_of(r) == self.slot(),
    ;
}

impl<'a> IntoCow<'a> for &'a WireValue {
    open spec fn slot(self) -> Slot {
        Slot { wire: self@, owned: false }
    }

    fn into_cow(self) -> (r: Cow<'a, WireValue>) {
        Cow::Borrowed(self)
    }
}

impl IntoCow<'static> for WireValue {
    open spec fn slot(self) -> Slot {
        Slot { wire: self@, owned: true }
    }

    fn into_cow(self) -> (r: Cow<'static, WireValue>) {
        Cow::Owned(self)
    }
}

} // verus!
