//! What is written is read back: the host values that decode from their own
//! encoding to themselves.

use crate::decode::{items_of, Fault};
use crate::encode::{encoded, encoded_entries, encoded_fields, encoded_items};
use crate::host::{Field, HostView, Shape, Variant};
use crate::into_cow::Slot;
use crate::laws::{law_scalar_round_trip, lemma_encoded_fields, single, slots};
use crate::reader::{
    decoded, decoded_items, field_index, filled, gathered, item_shape, paired, variant_index,
};
use crate::struct_laws::{
    lemma_field_index, lemma_filled, lemma_filled_ok, names_field, no_field_twice, pair_count,
    pair_reads,
};
use crate::utf8::lemma_text_of_bytes;
use crate::value::Wire;
use vstd::prelude::*;
use vstd::utf8::*;

verus! {

/// Whether no two fields have the same name.
pub open spec fn distinct_names(fields: Seq<Field>) -> bool {
    forall|i: int, j: int|
        0 <= i < j < fields.len() ==> (#[trigger] fields[i]).name@ != (#[trigger] fields[j]).name@
}

/// Whether a host value is of the described type, in a form that its encoding
/// does not blur.
///
/// A value that is present has to be written as a byte string, or it could not
/// be told from one that is absent. The fields of a struct stand in the order of
/// their declaration under names that differ. A unit is of no type here, as no
/// reply is read as a unit, and of the variants of an enum only one that carries
/// nothing is.
pub open spec fn fits(h: HostView, shape: Shape) -> bool
    decreases h, 1nat, 0nat,
{
    match (h, shape) {
        (HostView::Bool(_), Shape::Bool) => true,
        (HostView::Int(kind, v), Shape::Int(asked)) => kind == asked && kind.lo() <= v <= kind.hi(),
        (HostView::Char(_), Shape::Char) => true,
        (HostView::Str(_), Shape::Str) => true,
        (HostView::Bytes(_), Shape::Bytes) => true,
        (HostView::Bytes(_), Shape::Any) => true,
        (HostView::Absent, Shape::Optional(_)) => true,
        (HostView::Present(inner), Shape::Optional(asked)) => fits(*inner, *asked) && encoded(
            *inner,
        ) matches Ok(Wire::Data(_)),
        (HostView::Newtype(inner), Shape::Newtype(asked)) => fits(*inner, *asked),
        (HostView::Sequence(items), Shape::Sequence(_)) => all_fit(items, shape, items.len()),
        (HostView::Tuple(items), Shape::Tuple(asked)) => items.len() == asked.len() && all_fit(
            items,
            shape,
            items.len(),
        ),
        (HostView::Mapping(entries), Shape::Mapping(key, value)) => entries_fit(
            entries,
            *key,
            *value,
            entries.len(),
        ),
        (HostView::Struct(fields), Shape::Struct(asked)) => fields.len() == asked.len()
            && distinct_names(asked@) && fields_fit(fields, asked@, fields.len()),
        (HostView::UnitVariant(name), Shape::Enum(variants)) => variant_index(
            variants@,
            name,
            variants.len() as nat,
        ) matches Some(j) && 0 <= j < variants.len() && variants[j].payload is Unit,
        _ => false,
    }
}

/// Whether each of the first `n` items is of the type that `shape`, a sequence
/// or a tuple, has for its place.
pub open spec fn all_fit(items: Seq<HostView>, shape: Shape, n: nat) -> bool
    decreases items, 0nat, n,
{
    if n == 0 || n > items.len() {
        true
    } else {
        all_fit(items, shape, (n - 1) as nat) && fits(items[n - 1], item_shape(shape, n - 1))
    }
}

/// Whether each of the first `n` entries has a key and a value of the types of
/// the map.
pub open spec fn entries_fit(
    entries: Seq<(HostView, HostView)>,
    key: Shape,
    value: Shape,
    n: nat,
) -> bool
    decreases entries, 0nat, n,
{
    if n == 0 || n > entries.len() {
        true
    } else {
        entries_fit(entries, key, value, (n - 1) as nat) && fits(entries[n - 1].0, key) && fits(
            entries[n - 1].1,
            value,
        )
    }
}

/// Whether each of the first `n` fields has the name and a value of the type of
/// the field declared in its place.
pub open spec fn fields_fit(fields: Seq<(Seq<char>, HostView)>, asked: Seq<Field>, n: nat) -> bool
    decreases fields, 0nat, n,
{
    if n == 0 || n > fields.len() || n > asked.len() {
        true
    } else {
        fields_fit(fields, asked, (n - 1) as nat) && fields[n - 1].0 == asked[n - 1].name@ && fits(
            fields[n - 1].1,
            asked[n - 1].shape,
        )
    }
}

/// A host value that is of the described type, in a form that its encoding does
/// not blur, can be encoded, and the reply decodes to the value again, whether
/// the decoder holds the reply by reference or by value.
pub proof fn law_round_trip(h: HostView, shape: Shape, owned: bool)
    requires
        fits(h, shape),
    ensures
        encoded(h) is Ok,
        decoded(single(encoded(h)->Ok_0, owned), shape) == Ok::<HostView, Fault>(h),
    decreases h, 1nat, 0nat,
{
    let slot = Slot { wire: encoded(h)->Ok_0, owned };
    assert(single(encoded(h)->Ok_0, owned)[0] == slot);
    match (h, shape) {
        (HostView::Present(inner), Shape::Optional(asked)) => {
            law_round_trip(*inner, *asked, owned);
        },
        (HostView::Newtype(inner), Shape::Newtype(asked)) => {
            law_round_trip(*inner, *asked, owned);
        },
        (HostView::Sequence(items), Shape::Sequence(_)) => {
            lemma_items_round_trip(items, shape, owned, items.len());
            let ws = encoded_items(items, items.len())->Ok_0;
            assert(items_of(slot)->Ok_0 =~= slots(ws, owned));
            assert(decoded_items(slots(ws, owned), shape, ws.len())->Ok_0 =~= items);
        },
        (HostView::Tuple(items), Shape::Tuple(_)) => {
            lemma_items_round_trip(items, shape, owned, items.len());
            let ws = encoded_items(items, items.len())->Ok_0;
            assert(items_of(slot)->Ok_0 =~= slots(ws, owned));
            assert(decoded_items(slots(ws, owned), shape, ws.len())->Ok_0 =~= items);
        },
        (HostView::Mapping(entries), Shape::Mapping(_, _)) => {
            lemma_entries_round_trip(entries, shape, owned, entries.len());
            let ws = encoded_entries(entries, entries.len())->Ok_0;
            assert(items_of(slot)->Ok_0 =~= slots(ws, owned));
            let flat = decoded_items(slots(ws, owned), shape, ws.len())->Ok_0;
            assert(paired(flat) =~= entries);
        },
        (HostView::Struct(fields), Shape::Struct(asked)) => {
            lemma_fields_round_trip(fields, shape, owned);
            let ws = encoded_fields(fields, fields.len())->Ok_0;
            assert(items_of(slot)->Ok_0 =~= slots(ws, owned));
        },
        (HostView::UnitVariant(name), Shape::Enum(variants)) => {
            lemma_text_of_bytes(encode_utf8(name), name);
            lemma_variant_index(variants@, name, variants.len() as nat);
        },
        (HostView::Absent, _) => {},
        _ => {
            law_scalar_round_trip(h, owned);
        },
    }
}

/// The variant that is found for a name is called so.
pub proof fn lemma_variant_index(variants: Seq<Variant>, name: Seq<char>, n: nat)
    requires
        n <= variants.len(),
    ensures
        variant_index(variants, name, n) matches Some(j) ==> 0 <= j < n && variants[j].name@
            == name,
    decreases n,
{
    if n > 0 {
        lemma_variant_index(variants, name, (n - 1) as nat);
    }
}

/// The first `n` items of a sequence or of a tuple that are of its types can be
/// encoded, and the replies decode to the items again.
proof fn lemma_items_round_trip(items: Seq<HostView>, shape: Shape, owned: bool, n: nat)
    requires
        n <= items.len(),
        shape is Sequence || (shape is Tuple && shape->Tuple_0.len() == items.len()),
        all_fit(items, shape, n),
    ensures
        encoded_items(items, n) matches Ok(ws) && ws.len() == n && decoded_items(
            slots(ws, owned),
            shape,
            n,
        ) == Ok::<Seq<HostView>, Fault>(items.take(n as int)),
    decreases items, 0nat, n,
{
    if n == 0 {
        assert(items.take(0) =~= Seq::<HostView>::empty());
    } else {
        let m = (n - 1) as nat;
        lemma_items_round_trip(items, shape, owned, m);
        law_round_trip(items[m as int], item_shape(shape, m as int), owned);
        let before = encoded_items(items, m)->Ok_0;
        let ws = encoded_items(items, n)->Ok_0;
        assert(ws == before.push(encoded(items[m as int])->Ok_0));
        lemma_same_prefix(slots(before, owned), slots(ws, owned), shape, m);
        assert(seq![slots(ws, owned)[m as int]] == single(ws[m as int], owned));
        assert(items.take(n as int) =~= items.take(m as int).push(items[m as int]));
    }
}

/// Two lists that begin with the same `n` items decode alike as far as those
/// items go.
proof fn lemma_same_prefix(a: Seq<Slot>, b: Seq<Slot>, shape: Shape, n: nat)
    requires
        n <= a.len(),
        n <= b.len(),
        forall|i: int| 0 <= i < n ==> a[i] == b[i],
    ensures
        decoded_items(a, shape, n) == decoded_items(b, shape, n),
    decreases n,
{
    if n > 0 {
        lemma_same_prefix(a, b, shape, (n - 1) as nat);
    }
}

/// The first `n` entries of a map that are of its types can be encoded, and the
/// replies decode to the keys and values again, in turn.
proof fn lemma_entries_round_trip(
    entries: Seq<(HostView, HostView)>,
    shape: Shape,
    owned: bool,
    n: nat,
)
    requires
        n <= entries.len(),
        shape is Mapping,
        entries_fit(entries, *shape->Mapping_0, *shape->Mapping_1, n),
    ensures
        encoded_entries(entries, n) matches Ok(ws) && ws.len() == 2 * n && (decoded_items(
            slots(ws, owned),
            shape,
            2 * n,
        ) matches Ok(flat) && flat.len() == 2 * n && forall|i: int|
            0 <= i < n ==> flat[2 * i] == entries[i].0 && flat[2 * i + 1] == entries[i].1),
    decreases entries, 0nat, n,
{
    if n > 0 {
        let m = (n - 1) as nat;
        lemma_entries_round_trip(entries, shape, owned, m);
        law_round_trip(entries[m as int].0, *shape->Mapping_0, owned);
        law_round_trip(entries[m as int].1, *shape->Mapping_1, owned);
        let before = encoded_entries(entries, m)->Ok_0;
        let ws = encoded_entries(entries, n)->Ok_0;
        let key = encoded(entries[m as int].0)->Ok_0;
        let value = encoded(entries[m as int].1)->Ok_0;
        assert(ws == before.push(key).push(value));
        lemma_same_prefix(slots(before, owned), slots(ws, owned), shape, 2 * m);
        let at = 2 * (m as int);
        assert(seq![slots(ws, owned)[at]] == single(key, owned));
        assert(seq![slots(ws, owned)[at + 1]] == single(value, owned));
        assert(item_shape(shape, at) == *shape->Mapping_0);
        assert(item_shape(shape, at + 1) == *shape->Mapping_1);
        assert(decoded_items(slots(ws, owned), shape, (2 * m + 1) as nat) is Ok);
    }
}

/// The field that stands at `q` under a name that no field before it has is the
/// one found for the name.
proof fn lemma_field_found(fields: Seq<Field>, q: int, n: nat)
    requires
        0 <= q < n <= fields.len(),
        forall|i: int| 0 <= i < q ==> (#[trigger] fields[i]).name@ != fields[q].name@,
    ensures
        field_index(fields, fields[q].name@, n) == Some(q),
    decreases n,
{
    if n - 1 > q {
        lemma_field_found(fields, q, (n - 1) as nat);
    } else {
        lemma_field_index(fields, fields[q].name@, q as nat);
    }
}

/// The fields of a struct that fit their declaration can be encoded, and the
/// reply decodes to the fields again.
proof fn lemma_fields_round_trip(fields: Seq<(Seq<char>, HostView)>, shape: Shape, owned: bool)
    requires
        shape is Struct,
        fields.len() == shape->Struct_0@.len(),
        distinct_names(shape->Struct_0@),
        fields_fit(fields, shape->Struct_0@, fields.len()),
    ensures
        encoded_fields(fields, fields.len()) matches Ok(ws) && (filled(
            slots(ws, owned),
            shape,
            pair_count(slots(ws, owned)),
        ) matches Ok(found) && gathered(found, shape->Struct_0@, fields.len()) == Ok::<
            Seq<(Seq<char>, HostView)>,
            Fault,
        >(fields)),
    decreases fields, 0nat, fields.len() + 1,
{
    let asked = shape->Struct_0@;
    let n = fields.len();
    lemma_fields_fit(fields, asked, n);
    assert forall|i: int| 0 <= i < n implies (#[trigger] encoded(fields[i].1)) is Ok by {
        law_round_trip(fields[i].1, asked[i].shape, owned);
    }
    lemma_encoded_fields(fields, n);
    let ws = encoded_fields(fields, n)->Ok_0;
    let items = slots(ws, owned);
    assert(pair_count(items) == n);
    assert forall|q: int, j: int| 0 <= q < n implies (names_field(items, asked, q, j) <==> j
        == q) by {
        assert(ws[2 * q] == Wire::Data(encode_utf8(fields[q].0)));
        lemma_text_of_bytes(encode_utf8(fields[q].0), fields[q].0);
        lemma_field_found(asked, q, n);
    }
    assert forall|q: int| 0 <= q < n implies #[trigger] pair_reads(items, asked, q) by {
        assert(names_field(items, asked, q, q));
        law_round_trip(fields[q].1, asked[q].shape, owned);
        assert(seq![items[2 * q + 1]] == single(ws[2 * q + 1], owned));
        assert forall|j: int|
            0 <= j < asked.len() && names_field(items, asked, q, j) implies (#[trigger] decoded(
            seq![items[2 * q + 1]],
            asked[j].shape,
        )) is Ok by {
            assert(j == q);
        }
    }
    assert(no_field_twice(items, asked, n)) by {
        assert forall|p: int, q: int, j: int|
            0 <= p < q < n && #[trigger] names_field(
                items,
                asked,
                p,
                j,
            ) implies !#[trigger] names_field(items, asked, q, j) by {
            assert(j == p);
        }
    }
    lemma_filled_ok(items, shape, n);
    lemma_filled(items, shape, n);
    let found = filled(items, shape, n)->Ok_0;
    assert forall|q: int| 0 <= q < n implies found[q] == Some(fields[q].1) by {
        assert(names_field(items, asked, q, q));
        law_round_trip(fields[q].1, asked[q].shape, owned);
        assert(seq![items[2 * q + 1]] == single(ws[2 * q + 1], owned));
    }
    lemma_gathered(found, asked, fields, n);
    assert(fields.take(n as int) =~= fields);
}

/// Fields of which the first `n` fit their declaration have its names and values
/// of its types, one by one.
proof fn lemma_fields_fit(fields: Seq<(Seq<char>, HostView)>, asked: Seq<Field>, n: nat)
    requires
        n <= fields.len(),
        n <= asked.len(),
        fields_fit(fields, asked, n),
    ensures
        forall|i: int|
            0 <= i < n ==> (#[trigger] fields[i]).0 == asked[i].name@ && fits(
                fields[i].1,
                asked[i].shape,
            ),
    decreases n,
{
    if n > 0 {
        lemma_fields_fit(fields, asked, (n - 1) as nat);
    }
}

/// Where a value was found for each of the first `n` fields, the struct has
/// those fields with those values.
proof fn lemma_gathered(
    found: Seq<Option<HostView>>,
    asked: Seq<Field>,
    fields: Seq<(Seq<char>, HostView)>,
    n: nat,
)
    requires
        n <= fields.len(),
        n <= asked.len(),
        n <= found.len(),
        forall|i: int|
            0 <= i < n ==> (#[trigger] found[i]) == Some(fields[i].1) && fields[i].0
                == asked[i].name@,
    ensures
        gathered(found, asked, n) == Ok::<Seq<(Seq<char>, HostView)>, Fault>(fields.take(n as int)),
    decreases n,
{
    if n == 0 {
        assert(fields.take(0) =~= Seq::<(Seq<char>, HostView)>::empty());
    } else {
        let m = (n - 1) as nat;
        lemma_gathered(found, asked, fields, m);
        assert(found[m as int] == Some(fields[m as int].1));
        assert(fields.take(n as int) =~= fields.take(m as int).push(fields[m as int]));
    }
}

} // verus!
