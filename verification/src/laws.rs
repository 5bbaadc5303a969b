//! What holds of decoding and encoding together, for every input.

use crate::decode::{is_false_word, is_true_word, items_of, Fault};
use crate::encode::{encoded, encoded_fields};
use crate::host::{HostView, Shape};
use crate::into_cow::Slot;
use crate::reader::{decoded, decoded_items, item_shape};
use crate::text::{decimal, lemma_parse_decimal};
use crate::utf8::{lemma_ascii_utf8, lemma_text_of_bytes};
use crate::value::Wire;
use vstd::prelude::*;
use vstd::utf8::*;

verus! {

/// A cursor over one reply.
pub open spec fn single(wire: Wire, owned: bool) -> Seq<Slot> {
    seq![Slot { wire, owned }]
}

/// Whether a host value is a scalar: a truth value, an integer within its kind,
/// a character, a text, or raw bytes.
pub open spec fn is_scalar(h: HostView) -> bool {
    match h {
        HostView::Bool(_) => true,
        HostView::Int(kind, v) => kind.lo() <= v <= kind.hi(),
        HostView::Char(_) => true,
        HostView::Str(_) => true,
        HostView::Bytes(_) => true,
        _ => false,
    }
}

/// The type of a scalar.
pub open spec fn scalar_shape(h: HostView) -> Shape {
    match h {
        HostView::Bool(_) => Shape::Bool,
        HostView::Int(kind, _) => Shape::Int(kind),
        HostView::Char(_) => Shape::Char,
        HostView::Str(_) => Shape::Str,
        _ => Shape::Bytes,
    }
}

/// Whether a type is that of a scalar.
pub open spec fn is_scalar_shape(shape: Shape) -> bool {
    shape is Bool || shape is Int || shape is Char || shape is Str || shape is Bytes
}

/// Every scalar can be encoded, and the reply decodes to the scalar again,
/// whether the decoder holds the reply by reference or by value.
pub proof fn law_scalar_round_trip(h: HostView, owned: bool)
    requires
        is_scalar(h),
    ensures
        encoded(h) is Ok,
        decoded(single(encoded(h)->Ok_0, owned), scalar_shape(h)) == Ok::<HostView, Fault>(h),
{
    let slot = Slot { wire: encoded(h)->Ok_0, owned };
    assert(single(encoded(h)->Ok_0, owned)[0] == slot);
    match h {
        HostView::Bool(b) => {
            if !b {
                let zero = seq!['0' as u8];
                assert(!is_true_word(zero)) by {
                    assert(zero[0] != seq!['1' as u8][0]);
                    assert(zero.len() != seq!['t' as u8, 'r' as u8, 'u' as u8, 'e' as u8].len());
                    assert(zero.len() != seq!['T' as u8, 'r' as u8, 'u' as u8, 'e' as u8].len());
                }
            }
        },
        HostView::Int(kind, v) => {
            crate::reader::lemma_decimal_ascii(v);
            lemma_ascii_utf8(decimal(v));
            lemma_parse_decimal(v, kind.lo(), kind.hi());
        },
        HostView::Char(c) => {
            lemma_text_of_bytes(encode_utf8(seq![c]), seq![c]);
        },
        HostView::Str(text) => {
            lemma_text_of_bytes(encode_utf8(text), text);
        },
        _ => {},
    }
}

/// A byte string decodes to true where it is one of the words for true, to
/// false where it is one of the words for false, and is a wrong value where it is
/// anything else.
pub proof fn law_bool_words(bytes: Seq<u8>, owned: bool)
    ensures
        is_true_word(bytes) ==> decoded(single(Wire::Data(bytes), owned), Shape::Bool) == Ok::<
            HostView,
            Fault,
        >(HostView::Bool(true)),
        is_false_word(bytes) ==> decoded(single(Wire::Data(bytes), owned), Shape::Bool) == Ok::<
            HostView,
            Fault,
        >(HostView::Bool(false)),
        !is_true_word(bytes) && !is_false_word(bytes) ==> (decoded(
            single(Wire::Data(bytes), owned),
            Shape::Bool,
        ) matches Err(fault) && fault is WrongValue),
{
    let slot = Slot { wire: Wire::Data(bytes), owned };
    assert(single(Wire::Data(bytes), owned)[0] == slot);
    if is_true_word(bytes) && is_false_word(bytes) {
        assert(bytes.len() == 1 && bytes[0] == '1' as u8 && bytes[0] == '0' as u8);
    }
}

/// A nil decodes to an absent value where an optional value of any type is
/// requested, and is a wrong value where a scalar is requested.
pub proof fn law_nil(shape: Shape, owned: bool)
    ensures
        shape is Optional ==> decoded(single(Wire::Nil, owned), shape) == Ok::<HostView, Fault>(
            HostView::Absent,
        ),
        is_scalar_shape(shape) ==> (decoded(single(Wire::Nil, owned), shape) matches Err(fault)
            && fault is WrongValue),
{
    let slot = Slot { wire: Wire::Nil, owned };
    assert(single(Wire::Nil, owned)[0] == slot);
}

/// The items of a list as the decoder sees them: each held as the list is.
pub open spec fn slots(items: Seq<Wire>, owned: bool) -> Seq<Slot> {
    Seq::new(items.len(), |i: int| Slot { wire: items[i], owned })
}

/// The first `n` items of a list decode well exactly where each of them does,
/// and then to the values of the items, in the order of the list.
pub proof fn lemma_decoded_items(items: Seq<Slot>, shape: Shape, n: nat)
    requires
        n <= items.len(),
        shape is Sequence || shape is Mapping || (shape is Tuple && n <= shape->Tuple_0.len()),
    ensures
        decoded_items(items, shape, n) is Ok <==> forall|i: int|
            0 <= i < n ==> (#[trigger] decoded(seq![items[i]], item_shape(shape, i))) is Ok,
        decoded_items(items, shape, n) matches Ok(hs) ==> hs.len() == n && forall|i: int|
            0 <= i < n ==> decoded(seq![items[i]], item_shape(shape, i)) == Ok::<HostView, Fault>(
                #[trigger] hs[i],
            ),
    decreases n,
{
    if n > 0 {
        lemma_decoded_items(items, shape, (n - 1) as nat);
        let last = decoded(seq![items[n - 1]], item_shape(shape, n - 1));
        if decoded_items(items, shape, n) is Ok {
            assert forall|i: int| 0 <= i < n implies (#[trigger] decoded(
                seq![items[i]],
                item_shape(shape, i),
            )) is Ok by {
                if i == n - 1 {
                    assert(last is Ok);
                }
            }
        }
        if forall|i: int|
            0 <= i < n ==> (#[trigger] decoded(seq![items[i]], item_shape(shape, i))) is Ok {
            assert(last is Ok);
        }
    }
}

/// A list of lists decodes to a sequence of structs, or of values of any other
/// type, exactly where each item decodes to such a value by itself; the sequence
/// then has one value for each item, in the order of the list.
pub proof fn law_sequence_item_by_item(items: Seq<Wire>, owned: bool, elem: Shape)
    ensures
        decoded(single(Wire::Bulk(items), owned), Shape::Sequence(Box::new(elem))) is Ok
            <==> forall|i: int|
            0 <= i < items.len() ==> (#[trigger] decoded(single(items[i], owned), elem)) is Ok,
        decoded(
            single(Wire::Bulk(items), owned),
            Shape::Sequence(Box::new(elem)),
        ) matches Ok(h) ==> (h matches HostView::Sequence(hs) && hs.len() == items.len()
            && forall|i: int|
            0 <= i < items.len() ==> decoded(single(items[i], owned), elem) == Ok::<
                HostView,
                Fault,
            >(#[trigger] hs[i])),
{
    let shape = Shape::Sequence(Box::new(elem));
    let slot = Slot { wire: Wire::Bulk(items), owned };
    assert(single(Wire::Bulk(items), owned)[0] == slot);
    let listed = items_of(slot)->Ok_0;
    assert(listed =~= slots(items, owned));
    lemma_decoded_items(listed, shape, listed.len());
    assert forall|i: int| 0 <= i < items.len() implies seq![listed[i]] == single(
        items[i],
        owned,
    ) && item_shape(shape, i) == elem by {}
    if decoded(single(Wire::Bulk(items), owned), shape) is Ok {
        assert forall|i: int| 0 <= i < items.len() implies (#[trigger] decoded(
            single(items[i], owned),
            elem,
        )) is Ok by {
            assert(decoded(seq![listed[i]], item_shape(shape, i)) is Ok);
        }
    }
    if forall|i: int|
        0 <= i < items.len() ==> (#[trigger] decoded(single(items[i], owned), elem)) is Ok {
        assert forall|i: int| 0 <= i < listed.len() implies (#[trigger] decoded(
            seq![listed[i]],
            item_shape(shape, i),
        )) is Ok by {
            assert(decoded(single(items[i], owned), elem) is Ok);
        }
    }
}

/// The first `n` fields of a struct are encoded exactly where the value of each
/// is, and then into twice as many replies: for each field its name as a byte
/// string and then its value, in the order of the fields.
pub proof fn lemma_encoded_fields(fields: Seq<(Seq<char>, HostView)>, n: nat)
    requires
        n <= fields.len(),
    ensures
        encoded_fields(fields, n) is Ok <==> forall|i: int|
            0 <= i < n ==> (#[trigger] encoded(fields[i].1)) is Ok,
        encoded_fields(fields, n) matches Ok(ws) ==> ws.len() == 2 * n && forall|i: int|
            0 <= i < n ==> #[trigger] ws[2 * i] == Wire::Data(encode_utf8(fields[i].0)) && encoded(
                fields[i].1,
            ) == Ok::<Wire, Seq<char>>(ws[2 * i + 1]),
    decreases n,
{
    if n > 0 {
        lemma_encoded_fields(fields, (n - 1) as nat);
        let last = encoded(fields[n - 1].1);
        if encoded_fields(fields, n) is Ok {
            assert forall|i: int| 0 <= i < n implies (#[trigger] encoded(fields[i].1)) is Ok by {
                if i == n - 1 {
                    assert(last is Ok);
                }
            }
        }
        if forall|i: int| 0 <= i < n ==> (#[trigger] encoded(fields[i].1)) is Ok {
            assert(last is Ok);
        }
    }
}

/// A struct is encoded as a list of twice as many replies as it has fields: for
/// each field its name as a byte string and then its value, in the order of the
/// declaration. It can be encoded exactly where the value of each field can.
pub proof fn law_struct_in_declaration_order(fields: Seq<(Seq<char>, HostView)>)
    ensures
        encoded(HostView::Struct(fields)) is Ok <==> forall|i: int|
            0 <= i < fields.len() ==> (#[trigger] encoded(fields[i].1)) is Ok,
        encoded(HostView::Struct(fields)) matches Ok(w) ==> (w matches Wire::Bulk(ws) && ws.len()
            == 2 * fields.len() && forall|i: int|
            0 <= i < fields.len() ==> #[trigger] ws[2 * i] == Wire::Data(
                encode_utf8(fields[i].0),
            ) && encoded(fields[i].1) == Ok::<Wire, Seq<char>>(ws[2 * i + 1])),
{
    lemma_encoded_fields(fields, fields.len());
}

} // verus!
