//! One forward pass over the items of a list reply, by reference or by value.

use crate::into_cow::Slot;
use crate::value::WireValue;
use std::borrow::Cow;
use vstd::prelude::*;
use vstd::slice::slice_subrange;

verus! {

/// A pass over the replies of a list that is held by reference or by value. It
/// hands each reply out as the list is held: by reference out of a borrowed list,
/// by value out of an owned one, from the first to the last.
pub enum CowIter<'a> {
    /// The replies still to come, of a borrowed list.
    Borrowed(&'a [WireValue]),
    /// The replies still to come, of an owned list, the next one last.
    Owned(Vec<WireValue>),
}

/// What a pass over a list will hand out: each reply's content in order, all
/// held as the list is.
pub open spec fn list_slots(values: Cow<'_, Vec<WireValue>>) -> Seq<Slot> {
    match values {
        Cow::Borrowed(list) => Seq::new(list.len() as nat, |i: int| Slot { wire: list[i]@, owned: false }),
        Cow::Owned(list) => Seq::new(list.len() as nat, |i: int| Slot { wire: list[i]@, owned: true }),
    }
}

/// The items of `v` in the opposite order.
pub fn reversed<T>(v: Vec<T>) -> (r: Vec<T>)
    ensures
        r@ == v@.reverse(),
{
    let mut source = v;
    let mut out: Vec<T> = Vec::new();
    let ghost whole = source@;
    while source.len() > 0
        invariant
            source@.len() + out@.len() == whole.len(),
            source@ == whole.take(source@.len() as int),
            forall|k: int| 0 <= k < out@.len() ==> out@[k] == whole[whole.len() - 1 - k],
        decreases source.len(),
    {
        let item = source.pop();
        match item {
            Some(x) => {
                out.push(x);
            },
            None => {},
        }
        proof {
            assert(source@ =~= whole.take(source@.len() as int));
        }
    }
    proof {
        assert(out@ =~= whole.reverse());
    }
    out
}

impl<'a> CowIter<'a> {
    /// The replies that the pass has still to hand out, the next one first.
    pub open spec fn remaining(&self) -> Seq<Slot> {
        match self {
            CowIter::Borrowed(rest) => Seq::new(
                rest.len() as nat,
                |i: int| Slot { wire: rest[i]@, owned: false },
            ),
            CowIter::Owned(rest) => Seq::new(
                rest.len() as nat,
                |i: int| Slot { wire: rest[rest.len() - 1 - i]@, owned: true },
            ),
        }
    }

    /// Starts a pass over `values`.
    pub fn new(values: Cow<'a, Vec<WireValue>>) -> (r: Self)
        ensures
            r.remaining() == list_slots(values),
            r is Owned <==> values is Owned,
    {
        match values {
            Cow::Borrowed(list) => {
                let r = CowIter::Borrowed(list.as_slice());
                proof {
                    assert(r.remaining() =~= list_slots(values));
                }
                r
            },
            Cow::Owned(list) => {
                let r = CowIter::Owned(reversed(list));
                proof {
                    assert(r.remaining() =~= list_slots(values));
                }
                r
            },
        }
    }

    /// Hands out the next reply, or `None` once the list is through.
    pub fn next(&mut self) -> (r: Option<Cow<'a, WireValue>>)
        ensures
            *final(self) is Owned <==> *old(self) is Owned,
            old(self).remaining().len() == 0 ==> r is None && final(self).remaining() == old(self).remaining(),
            old(self).remaining().len() > 0 ==> r is Some && crate::into_cow::slot_of(r.unwrap())
                == old(self).remaining()[0] && final(self).remaining() == old(self).remaining().skip(1),
    {
        match self {
            CowIter::Borrowed(rest) => {
                let all: &'a [WireValue] = *rest;
                if all.len() == 0 {
                    None
                } else {
                    let head = &all[0];
                    let tail = slice_subrange(all, 1, all.len());
                    *rest = tail;
                    proof {
                        assert(final(self).remaining() =~= old(self).remaining().skip(1));
                    }
                    Some(Cow::Borrowed(head))
                }
            },
            CowIter::Owned(rest) => {
                let item = rest.pop();
                match item {
                    Some(v) => {
                        proof {
                            assert(final(self).remaining() =~= old(self).remaining().skip(1));
                        }
                        Some(Cow::Owned(v))
                    },
                    None => None,
                }
            },
        }
    }
}

} // verus!
