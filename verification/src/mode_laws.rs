//! What holds of decoding by reference and by value: the same reply gives the
//! same value, and the same fault but for the name of an encoding fault.

use crate::decode::{items_of, text_of, Fault};
use crate::host::{Field, HostView, Payload, Shape};
use crate::into_cow::Slot;
use crate::reader::{
    decoded, decoded_items, filled, gathered, item_shape, no_payload, variant_index,
};
use crate::value::Wire;
use vstd::prelude::*;

verus! {

/// The replies of a cursor, all held by value or all by reference.
pub open spec fn held(cursor: Seq<Slot>, owned: bool) -> Seq<Slot> {
    Seq::new(cursor.len(), |i: int| Slot { wire: cursor[i].wire, owned })
}

/// The result by value that belongs to a result by reference: the same, but
/// that bytes which are not UTF-8 are the fault of an owned byte string.
pub open spec fn by_value<T>(r: Result<T, Fault>) -> Result<T, Fault> {
    match r {
        Err(Fault::StrFromUtf8) => Err(Fault::StringFromUtf8),
        other => other,
    }
}

/// What stands in the place of a payload never has the fault of a borrowed byte
/// string.
proof fn lemma_no_payload(shape: Shape)
    ensures
        by_value(decoded(seq![no_payload()], shape)) == decoded(seq![no_payload()], shape),
    decreases shape,
{
    assert(seq![no_payload()][0] == no_payload());
    match shape {
        Shape::Newtype(inner) => {
            lemma_no_payload(*inner);
        },
        _ => {},
    }
}

/// A cursor decodes by value to what it decodes to by reference, and fails by
/// value where it fails by reference, with the same fault but for the name of an
/// encoding fault.
pub proof fn law_held_either_way(cursor: Seq<Slot>, shape: Shape)
    ensures
        decoded(held(cursor, true), shape) == by_value(decoded(held(cursor, false), shape)),
    decreases shape, 1nat, 0nat,
{
    let a = held(cursor, false);
    let b = held(cursor, true);
    match shape {
        Shape::Optional(inner) => {
            law_held_either_way(cursor, *inner);
        },
        Shape::Newtype(inner) => {
            law_held_either_way(cursor, *inner);
        },
        _ => {
            if cursor.len() > 0 {
                let listed = match cursor[0].wire {
                    Wire::Bulk(items) => Seq::new(
                        items.len(),
                        |i: int| Slot { wire: items[i], owned: false },
                    ),
                    _ => Seq::empty(),
                };
                if items_of(a[0]) is Ok {
                    assert(items_of(a[0])->Ok_0 =~= held(listed, false));
                    assert(items_of(b[0])->Ok_0 =~= held(listed, true));
                }
                match shape {
                    Shape::Sequence(_) => {
                        lemma_items_either_way(listed, shape, listed.len());
                                },
                    Shape::Tuple(shapes) => {
                        lemma_items_either_way(listed, shape, shapes.len() as nat);
                                },
                    Shape::Mapping(_, _) => {
                        lemma_items_either_way(listed, shape, listed.len());
                                },
                    Shape::Struct(fields) => {
                        let pairs = ((listed.len() + 1) / 2) as nat;
                        lemma_filled_either_way(listed, shape, pairs);
                        if filled(held(listed, false), shape, pairs) is Ok {
                            lemma_gathered_fault(
                                filled(held(listed, false), shape, pairs)->Ok_0,
                                fields@,
                                fields.len() as nat,
                            );
                        }
                                },
                    Shape::Enum(variants) => {
                        match text_of(a[0]) {
                            Ok(name) => match variant_index(
                                variants@,
                                name,
                                variants.len() as nat,
                            ) {
                                Some(j) => {
                                    if 0 <= j < variants.len() {
                                        match variants[j].payload {
                                            Payload::Newtype(inner) => {
                                                lemma_no_payload(inner);
                                            },
                                            _ => {},
                                        }
                                    }
                                },
                                None => {},
                            },
                            Err(_) => {},
                        }
                                },
                    _ => {
                                },
                }
            } else {
                }
        },
    }
}

/// Gathering the fields of a struct fails only for a missing field.
proof fn lemma_gathered_fault(found: Seq<Option<HostView>>, fields: Seq<Field>, n: nat)
    ensures
        gathered(found, fields, n) matches Err(fault) ==> fault is MissingField,
    decreases n,
{
    if n > 0 {
        lemma_gathered_fault(found, fields, (n - 1) as nat);
    }
}

/// The first `n` items of a list decode by value as they decode by reference.
proof fn lemma_items_either_way(items: Seq<Slot>, shape: Shape, n: nat)
    ensures
        decoded_items(held(items, true), shape, n) == by_value(
            decoded_items(held(items, false), shape, n),
        ),
    decreases shape, 0nat, n,
{
    if n > 0 {
        let m = (n - 1) as nat;
        lemma_items_either_way(items, shape, m);
        if m < items.len() && (shape is Sequence || (shape is Tuple && m < shape->Tuple_0.len())
            || shape is Mapping) {
            let one = seq![items[m as int]];
            law_held_either_way(one, item_shape(shape, m as int));
            assert(held(one, false) =~= seq![held(items, false)[m as int]]);
            assert(held(one, true) =~= seq![held(items, true)[m as int]]);
        }
    }
}

/// The first `n` pairs of a list are read by value as they are read by
/// reference.
proof fn lemma_filled_either_way(items: Seq<Slot>, shape: Shape, n: nat)
    ensures
        filled(held(items, true), shape, n) == by_value(filled(held(items, false), shape, n)),
    decreases shape, 0nat, n,
{
    if n > 0 {
        let m = (n - 1) as nat;
        lemma_filled_either_way(items, shape, m);
        let at = 2 * (m as int);
        if shape is Struct && at + 1 < items.len() {
            let fields = shape->Struct_0@;
            let one = seq![items[at + 1]];
            assert(held(one, false) =~= seq![held(items, false)[at + 1]]);
            assert(held(one, true) =~= seq![held(items, true)[at + 1]]);
            assert forall|j: int| 0 <= j < fields.len() implies decoded(
                held(one, true),
                #[trigger] fields[j].shape,
            ) == by_value(decoded(held(one, false), fields[j].shape)) by {
                law_held_either_way(one, fields[j].shape);
            }
        }
    }
}

} // verus!
