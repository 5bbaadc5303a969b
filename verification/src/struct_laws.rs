//! What holds of decoding a struct: which pairs of a reply give a field its
//! value, and what follows for replies whose pairs are rearranged or padded.

use crate::decode::{items_of, text_of, Fault};
use crate::host::{Field, HostView, Shape};
use crate::into_cow::Slot;
use crate::laws::{single, slots};
use crate::reader::{decoded, field_index, filled, gathered};
use crate::value::Wire;
use vstd::prelude::*;

verus! {

/// The number of pairs in a list of keys and values in turn. A key at the end,
/// without a value, counts as a pair.
pub open spec fn pair_count(items: Seq<Slot>) -> nat {
    ((items.len() + 1) / 2) as nat
}

/// Whether the key of pair `q` names field `j`: it is a text, and `j` is the
/// first field of that name.
pub open spec fn names_field(items: Seq<Slot>, fields: Seq<Field>, q: int, j: int) -> bool {
    &&& 0 <= 2 * q < items.len()
    &&& text_of(items[2 * q]) matches Ok(name) && field_index(fields, name, fields.len())
        == Some(j)
}

/// Whether pair `q` can be read by itself: its key is a text and it has a value,
/// which decodes as the type of the field that the key names, if it names one.
pub open spec fn pair_reads(items: Seq<Slot>, fields: Seq<Field>, q: int) -> bool {
    &&& 0 <= 2 * q + 1 < items.len()
    &&& text_of(items[2 * q]) is Ok
    &&& forall|j: int|
        0 <= j < fields.len() && names_field(items, fields, q, j) ==> (#[trigger] decoded(
            seq![items[2 * q + 1]],
            fields[j].shape,
        )) is Ok
}

/// Whether no two of the first `n` pairs name the same field.
pub open spec fn no_field_twice(items: Seq<Slot>, fields: Seq<Field>, n: nat) -> bool {
    forall|p: int, q: int, j: int|
        0 <= p < q < n && #[trigger] names_field(items, fields, p, j) ==> !#[trigger] names_field(
            items,
            fields,
            q,
            j,
        )
}

/// The field that is found for a name is one of the fields, and is called so.
pub proof fn lemma_field_index(fields: Seq<Field>, name: Seq<char>, n: nat)
    requires
        n <= fields.len(),
    ensures
        field_index(fields, name, n) matches Some(j) ==> 0 <= j < n && fields[j].name@ == name,
        field_index(fields, name, n) is None ==> forall|j: int|
            0 <= j < n ==> (#[trigger] fields[j]).name@ != name,
    decreases n,
{
    if n > 0 {
        lemma_field_index(fields, name, (n - 1) as nat);
    }
}

/// Where the first `n` pairs are read without a fault, each of them can be read
/// by itself, no two name the same field, and what is found for a field is the
/// value of the pair that names it.
pub proof fn lemma_filled(items: Seq<Slot>, shape: Shape, n: nat)
    requires
        shape is Struct,
        n <= pair_count(items),
    ensures
        filled(items, shape, n) matches Ok(found) ==> {
            let fields = shape->Struct_0@;
            &&& found.len() == fields.len()
            &&& forall|q: int| 0 <= q < n ==> #[trigger] pair_reads(items, fields, q)
            &&& no_field_twice(items, fields, n)
            &&& forall|q: int, j: int|
                0 <= q < n && #[trigger] names_field(items, fields, q, j) ==> 0 <= j < fields.len()
                    && decoded(seq![items[2 * q + 1]], fields[j].shape) == Ok::<HostView, Fault>(
                    found[j]->Some_0,
                ) && found[j] is Some
            &&& forall|j: int|
                0 <= j < fields.len() && (#[trigger] found[j]) is Some ==> exists|q: int|
                    0 <= q < n && names_field(items, fields, q, j)
        },
    decreases n,
{
    let fields = shape->Struct_0@;
    if n > 0 {
        let m = (n - 1) as nat;
        lemma_filled(items, shape, m);
        if filled(items, shape, n) is Ok {
            let before = filled(items, shape, m)->Ok_0;
            let found = filled(items, shape, n)->Ok_0;
            let name = text_of(items[2 * (m as int)])->Ok_0;
            lemma_field_index(fields, name, fields.len());
            let hit = field_index(fields, name, fields.len());
            assert(pair_reads(items, fields, m as int));
            assert forall|q: int| 0 <= q < n implies #[trigger] pair_reads(items, fields, q) by {
                if q < m {
                    assert(pair_reads(items, fields, q));
                }
            }
            assert forall|p: int, q: int, j: int|
                0 <= p < q < n && #[trigger] names_field(
                    items,
                    fields,
                    p,
                    j,
                ) implies !#[trigger] names_field(items, fields, q, j) by {
                if q == m && names_field(items, fields, q, j) {
                    assert(before[j] is Some);
                }
            }
            assert forall|q: int, j: int|
                0 <= q < n && #[trigger] names_field(items, fields, q, j) implies 0 <= j
                < fields.len() && decoded(seq![items[2 * q + 1]], fields[j].shape) == Ok::<
                HostView,
                Fault,
            >(found[j]->Some_0) && found[j] is Some by {
                if q < m {
                    assert(before[j] is Some);
                }
            }
            assert forall|j: int| 0 <= j < fields.len() && (#[trigger] found[j]) is Some implies exists|
                q: int,
            |
                0 <= q < n && names_field(items, fields, q, j) by {
                if hit == Some(j) {
                    assert(names_field(items, fields, m as int, j));
                } else {
                    assert(before[j] is Some);
                    let q = choose|q: int| 0 <= q < m && names_field(items, fields, q, j);
                    assert(0 <= q < n && names_field(items, fields, q, j));
                }
            }
        }
    } else {
        assert(no_field_twice(items, fields, n));
    }
}

/// Where each of the first `n` pairs can be read by itself and no two name the
/// same field, the pairs are read without a fault.
pub proof fn lemma_filled_ok(items: Seq<Slot>, shape: Shape, n: nat)
    requires
        shape is Struct,
        n <= pair_count(items),
        forall|q: int| 0 <= q < n ==> #[trigger] pair_reads(items, shape->Struct_0@, q),
        no_field_twice(items, shape->Struct_0@, n),
    ensures
        filled(items, shape, n) is Ok,
    decreases n,
{
    let fields = shape->Struct_0@;
    if n > 0 {
        let m = (n - 1) as nat;
        assert(no_field_twice(items, fields, m));
        lemma_filled_ok(items, shape, m);
        lemma_filled(items, shape, m);
        let before = filled(items, shape, m)->Ok_0;
        assert(pair_reads(items, fields, m as int));
        let name = text_of(items[2 * (m as int)])->Ok_0;
        lemma_field_index(fields, name, fields.len());
        match field_index(fields, name, fields.len()) {
            None => {},
            Some(j) => {
                assert(names_field(items, fields, m as int, j));
                if before[j] is Some {
                    let q = choose|q: int| 0 <= q < m && names_field(items, fields, q, j);
                    assert(names_field(items, fields, q, j));
                    assert(false);
                }
                assert(decoded(seq![items[2 * (m as int) + 1]], fields[j].shape) is Ok);
            },
        }
    }
}

/// Whether `b` holds the pairs of `a` in another order: both are lists of pairs,
/// pair `q` of `b` is pair `to[q]` of `a`, and `back` leads from each pair of `a`
/// to its place in `b`.
pub open spec fn rearranged(a: Seq<Wire>, b: Seq<Wire>, to: Seq<int>, back: Seq<int>) -> bool {
    &&& a.len() == b.len()
    &&& a.len() % 2 == 0
    &&& to.len() == a.len() / 2
    &&& back.len() == a.len() / 2
    &&& forall|q: int|
        0 <= q < to.len() ==> 0 <= #[trigger] to[q] < to.len() && back[to[q]] == q && b[2 * q]
            == a[2 * to[q]] && b[2 * q + 1] == a[2 * to[q] + 1]
    &&& forall|p: int|
        0 <= p < back.len() ==> 0 <= #[trigger] back[p] < back.len() && to[back[p]] == p
}

/// Decoding a struct does not depend on the order of the pairs: where a list of
/// keys and values decodes to a struct, the same pairs in any other order decode
/// to the same struct.
pub proof fn law_struct_order(
    a: Seq<Wire>,
    b: Seq<Wire>,
    to: Seq<int>,
    back: Seq<int>,
    fields: Vec<Field>,
    owned: bool,
)
    requires
        rearranged(a, b, to, back),
        decoded(single(Wire::Bulk(a), owned), Shape::Struct(fields)) is Ok,
    ensures
        decoded(single(Wire::Bulk(b), owned), Shape::Struct(fields)) == decoded(
            single(Wire::Bulk(a), owned),
            Shape::Struct(fields),
        ),
{
    let shape = Shape::Struct(fields);
    let names = fields@;
    let first = Slot { wire: Wire::Bulk(a), owned };
    let second = Slot { wire: Wire::Bulk(b), owned };
    assert(single(Wire::Bulk(a), owned)[0] == first);
    assert(single(Wire::Bulk(b), owned)[0] == second);
    let xs = items_of(first)->Ok_0;
    let ys = items_of(second)->Ok_0;
    assert(xs =~= slots(a, owned));
    assert(ys =~= slots(b, owned));
    let n = pair_count(xs);
    assert(n == pair_count(ys));
    assert(n == to.len());
    lemma_filled(xs, shape, n);
    let found = filled(xs, shape, n)->Ok_0;
    assert forall|q: int, j: int| 0 <= q < n implies (names_field(ys, names, q, j)
        == names_field(xs, names, to[q], j)) by {
        assert(ys[2 * q] == xs[2 * to[q]]);
    }
    assert forall|q: int| 0 <= q < n implies #[trigger] pair_reads(ys, names, q) by {
        let p = to[q];
        assert(pair_reads(xs, names, p));
        assert(ys[2 * q] == xs[2 * p]);
        assert(ys[2 * q + 1] == xs[2 * p + 1]);
        assert forall|j: int|
            0 <= j < names.len() && names_field(ys, names, q, j) implies (#[trigger] decoded(
            seq![ys[2 * q + 1]],
            names[j].shape,
        )) is Ok by {
            assert(names_field(xs, names, p, j));
        }
    }
    assert forall|p: int, q: int, j: int|
        0 <= p < q < n && #[trigger] names_field(ys, names, p, j) implies !#[trigger] names_field(
        ys,
        names,
        q,
        j,
    ) by {
        if names_field(ys, names, q, j) {
            assert(names_field(xs, names, to[p], j));
            assert(names_field(xs, names, to[q], j));
            assert(back[to[p]] == p && back[to[q]] == q);
            if to[p] < to[q] {
                assert(!names_field(xs, names, to[q], j));
            } else {
                assert(!names_field(xs, names, to[p], j));
            }
        }
    }
    lemma_filled_ok(ys, shape, n);
    lemma_filled(ys, shape, n);
    let other = filled(ys, shape, n)->Ok_0;
    assert forall|j: int| 0 <= j < names.len() implies found[j] == other[j] by {
        if found[j] is Some {
            let p = choose|p: int| 0 <= p < n && names_field(xs, names, p, j);
            let q = back[p];
            assert(to[q] == p);
            assert(names_field(ys, names, q, j));
            assert(ys[2 * q + 1] == xs[2 * p + 1]);
        } else if other[j] is Some {
            let q = choose|q: int| 0 <= q < n && names_field(ys, names, q, j);
            assert(names_field(xs, names, to[q], j));
        }
    }
    assert(found =~= other);
}

/// A list with one more pair put in before pair `at`.
pub open spec fn with_pair(items: Seq<Wire>, at: int, key: Wire, value: Wire) -> Seq<Wire> {
    items.take(2 * at) + seq![key, value] + items.skip(2 * at)
}

/// Past a pair whose key names no field, the pairs are read as if the pair were
/// not there.
proof fn lemma_filled_past_unknown(
    items: Seq<Slot>,
    longer: Seq<Slot>,
    at: int,
    shape: Shape,
    n: nat,
)
    requires
        shape is Struct,
        0 <= at,
        2 * at <= items.len(),
        longer.len() == items.len() + 2,
        forall|i: int| 0 <= i < 2 * at ==> longer[i] == items[i],
        forall|i: int| 2 * at <= i < items.len() ==> longer[i + 2] == items[i],
        text_of(longer[2 * at]) matches Ok(name) && field_index(
            shape->Struct_0@,
            name,
            shape->Struct_0@.len(),
        ) is None,
        n <= pair_count(items),
    ensures
        n <= at ==> filled(longer, shape, n) == filled(items, shape, n),
        n >= at ==> filled(longer, shape, n + 1) == filled(items, shape, n),
    decreases n,
{
    if n > 0 {
        let m = (n - 1) as nat;
        lemma_filled_past_unknown(items, longer, at, shape, m);
        if n <= at {
            assert(longer[2 * (m as int)] == items[2 * (m as int)]);
            if 2 * (m as int) + 1 < items.len() {
                assert(longer[2 * (m as int) + 1] == items[2 * (m as int) + 1]);
            }
        }
        if n > at {
            assert(longer[2 * (m as int) + 2] == items[2 * (m as int)]);
            if 2 * (m as int) + 1 < items.len() {
                assert(longer[2 * (m as int) + 1 + 2] == items[2 * (m as int) + 1]);
            }
            assert(filled(longer, shape, m + 1) == filled(items, shape, m));
        }
    }
    if n == at {
        assert(filled(longer, shape, n) == filled(items, shape, n));
    }
}

/// Decoding a struct passes over a pair whose key names no field, whatever its
/// value is: a list of keys and values decodes, with such a pair put in anywhere
/// between its pairs, to what it decodes to without.
pub proof fn law_struct_skips_unknown(
    items: Seq<Wire>,
    at: int,
    key: Wire,
    value: Wire,
    fields: Vec<Field>,
    owned: bool,
)
    requires
        0 <= at,
        2 * at <= items.len(),
        text_of(Slot { wire: key, owned }) matches Ok(name) && field_index(
            fields@,
            name,
            fields@.len(),
        ) is None,
    ensures
        decoded(
            single(Wire::Bulk(with_pair(items, at, key, value)), owned),
            Shape::Struct(fields),
        ) == decoded(single(Wire::Bulk(items), owned), Shape::Struct(fields)),
{
    let shape = Shape::Struct(fields);
    let padded = with_pair(items, at, key, value);
    let first = Slot { wire: Wire::Bulk(items), owned };
    let second = Slot { wire: Wire::Bulk(padded), owned };
    assert(single(Wire::Bulk(items), owned)[0] == first);
    assert(single(Wire::Bulk(padded), owned)[0] == second);
    let xs = items_of(first)->Ok_0;
    let ys = items_of(second)->Ok_0;
    assert(xs =~= slots(items, owned));
    assert(ys =~= slots(padded, owned));
    assert(ys[2 * at] == Slot { wire: key, owned });
    assert(pair_count(ys) == pair_count(xs) + 1);
    lemma_filled_past_unknown(xs, ys, at, shape, pair_count(xs));
}

/// Where decoding a struct fails for a missing field, either the struct has a
/// field of that name that is not optional and that no key of the reply names, or
/// the fault comes from inside the value of one of the fields.
pub proof fn law_missing_field(items: Seq<Wire>, fields: Vec<Field>, owned: bool, name: Seq<char>)
    requires
        decoded(single(Wire::Bulk(items), owned), Shape::Struct(fields)) == Err::<
            HostView,
            Fault,
        >(Fault::MissingField(name)),
    ensures
        ({
            let pairs = slots(items, owned);
            ||| exists|j: int|
                0 <= j < fields@.len() && #[trigger] fields@[j].name@ == name
                    && !(fields@[j].shape is Optional) && forall|q: int|
                    0 <= q < pair_count(pairs) ==> !names_field(pairs, fields@, q, j)
            ||| exists|q: int, j: int|
                0 <= j < fields@.len() && #[trigger] names_field(pairs, fields@, q, j) && 2 * q
                    + 1 < pairs.len() && decoded(seq![pairs[2 * q + 1]], fields@[j].shape)
                    == Err::<HostView, Fault>(Fault::MissingField(name))
        }),
{
    let shape = Shape::Struct(fields);
    let first = Slot { wire: Wire::Bulk(items), owned };
    assert(single(Wire::Bulk(items), owned)[0] == first);
    let pairs = items_of(first)->Ok_0;
    assert(pairs =~= slots(items, owned));
    let n = pair_count(pairs);
    match filled(pairs, shape, n) {
        Err(fault) => {
            lemma_fault_of_pairs(pairs, shape, n, name);
        },
        Ok(found) => {
            lemma_filled(pairs, shape, n);
            lemma_missing(found, fields@, fields@.len(), name);
            let j = choose|j: int|
                0 <= j < fields@.len() && found[j] is None && fields@[j].name@ == name
                    && !(fields@[j].shape is Optional);
            assert forall|q: int| 0 <= q < n implies !names_field(pairs, fields@, q, j) by {
                if names_field(pairs, fields@, q, j) {
                    assert(found[j] is Some);
                }
            }
            assert(fields@[j].name@ == name);
        },
    }
}

/// A field that is missing among the first `n` has no value, is not optional,
/// and is called as the fault says.
proof fn lemma_missing(found: Seq<Option<HostView>>, fields: Seq<Field>, n: nat, name: Seq<char>)
    requires
        n <= fields.len(),
        gathered(found, fields, n) == Err::<Seq<(Seq<char>, HostView)>, Fault>(
            Fault::MissingField(name),
        ),
    ensures
        exists|j: int|
            0 <= j < n && found[j] is None && fields[j].name@ == name && !(fields[j].shape
                is Optional),
    decreases n,
{
    if n > 0 {
        let m = (n - 1) as nat;
        if gathered(found, fields, m) is Err {
            lemma_missing(found, fields, m, name);
            let j = choose|j: int|
                0 <= j < m && found[j] is None && fields[j].name@ == name && !(fields[j].shape
                    is Optional);
            assert(0 <= j < n && found[j] is None && fields[j].name@ == name && !(fields[j].shape
                is Optional));
        } else {
            let j = m as int;
            assert(0 <= j < n && found[j] is None && fields[j].name@ == name && !(fields[j].shape
                is Optional));
        }
    }
}

/// Where reading the first `n` pairs fails for a missing field, the fault comes
/// from inside the value of a pair that names a field.
proof fn lemma_fault_of_pairs(items: Seq<Slot>, shape: Shape, n: nat, name: Seq<char>)
    requires
        shape is Struct,
        n <= pair_count(items),
        filled(items, shape, n) == Err::<Seq<Option<HostView>>, Fault>(Fault::MissingField(name)),
    ensures
        exists|q: int, j: int|
            0 <= j < shape->Struct_0@.len() && #[trigger] names_field(
                items,
                shape->Struct_0@,
                q,
                j,
            ) && 2 * q + 1 < items.len() && decoded(
                seq![items[2 * q + 1]],
                shape->Struct_0@[j].shape,
            ) == Err::<HostView, Fault>(Fault::MissingField(name)),
    decreases n,
{
    let fields = shape->Struct_0@;
    if n > 0 {
        let m = (n - 1) as nat;
        if filled(items, shape, m) is Err {
            lemma_fault_of_pairs(items, shape, m, name);
        } else {
            let q = m as int;
            let key = text_of(items[2 * q]);
            assert(key is Ok) by {
                if key is Err {
                    assert(!(key->Err_0 is MissingField));
                }
            }
            lemma_field_index(fields, key->Ok_0, fields.len());
            let j = field_index(fields, key->Ok_0, fields.len())->Some_0;
            assert(names_field(items, fields, q, j));
        }
    }
}

/// Whether field `j` gets a value from the first `n` pairs or needs none: a key
/// names it, or it is optional.
pub open spec fn has_value(items: Seq<Slot>, fields: Seq<Field>, n: nat, j: int) -> bool {
    fields[j].shape is Optional || exists|q: int| 0 <= q < n && names_field(items, fields, q, j)
}

/// The fields are gathered exactly where each of the first `n` has a value or is
/// optional; where one does not, the first such field is missing.
proof fn lemma_gathered_exactly(found: Seq<Option<HostView>>, fields: Seq<Field>, n: nat)
    requires
        n <= fields.len(),
        n <= found.len(),
    ensures
        gathered(found, fields, n) is Ok <==> forall|j: int|
            0 <= j < n ==> (#[trigger] found[j]) is Some || fields[j].shape is Optional,
        forall|j: int|
            0 <= j < n && (#[trigger] found[j]) is None && !(fields[j].shape is Optional) && (forall|
                i: int,
            |
                0 <= i < j ==> (#[trigger] found[i]) is Some || fields[i].shape is Optional)
                ==> gathered(found, fields, n) == Err::<Seq<(Seq<char>, HostView)>, Fault>(
                Fault::MissingField(fields[j].name@),
            ),
    decreases n,
{
    if n > 0 {
        let m = (n - 1) as nat;
        lemma_gathered_exactly(found, fields, m);
        if gathered(found, fields, n) is Ok {
            assert forall|j: int| 0 <= j < n implies (#[trigger] found[j]) is Some
                || fields[j].shape is Optional by {
                if j == m {
                    assert(gathered(found, fields, m) is Ok);
                }
            }
        }
        assert forall|j: int|
            0 <= j < n && (#[trigger] found[j]) is None && !(fields[j].shape is Optional) && (forall|
                i: int,
            |
                0 <= i < j ==> (#[trigger] found[i]) is Some || fields[i].shape
                    is Optional) implies gathered(found, fields, n) == Err::<
            Seq<(Seq<char>, HostView)>,
            Fault,
        >(Fault::MissingField(fields[j].name@)) by {
            if j == m {
                assert(gathered(found, fields, m) is Ok);
            }
        }
    }
}

/// Where each pair of a reply can be read by itself and no two pairs name the
/// same field, the reply decodes to a struct exactly where every field has a
/// value or is optional; where one does not, decoding fails for the first such
/// field, which is missing.
pub proof fn law_missing_field_exactly(items: Seq<Wire>, fields: Vec<Field>, owned: bool)
    requires
        forall|q: int|
            0 <= q < pair_count(slots(items, owned)) ==> #[trigger] pair_reads(
                slots(items, owned),
                fields@,
                q,
            ),
        no_field_twice(slots(items, owned), fields@, pair_count(slots(items, owned))),
    ensures
        ({
            let pairs = slots(items, owned);
            let n = pair_count(pairs);
            let result = decoded(single(Wire::Bulk(items), owned), Shape::Struct(fields));
            &&& result is Ok <==> forall|j: int|
                0 <= j < fields@.len() ==> #[trigger] has_value(pairs, fields@, n, j)
            &&& forall|j: int|
                0 <= j < fields@.len() && !#[trigger] has_value(pairs, fields@, n, j) && (forall|
                    i: int,
                |
                    0 <= i < j ==> #[trigger] has_value(pairs, fields@, n, i)) ==> result == Err::<
                    HostView,
                    Fault,
                >(Fault::MissingField(fields@[j].name@))
        }),
{
    let shape = Shape::Struct(fields);
    let first = Slot { wire: Wire::Bulk(items), owned };
    assert(single(Wire::Bulk(items), owned)[0] == first);
    let pairs = items_of(first)->Ok_0;
    assert(pairs =~= slots(items, owned));
    let n = pair_count(pairs);
    lemma_filled_ok(pairs, shape, n);
    lemma_filled(pairs, shape, n);
    let found = filled(pairs, shape, n)->Ok_0;
    lemma_gathered_exactly(found, fields@, fields@.len());
    assert forall|j: int| 0 <= j < fields@.len() implies (has_value(pairs, fields@, n, j) <==> (
    found[j] is Some || fields@[j].shape is Optional)) by {
        if found[j] is Some {
            let q = choose|q: int| 0 <= q < n && names_field(pairs, fields@, q, j);
            assert(names_field(pairs, fields@, q, j));
        }
        if exists|q: int| 0 <= q < n && names_field(pairs, fields@, q, j) {
            let q = choose|q: int| 0 <= q < n && names_field(pairs, fields@, q, j);
            assert(found[j] is Some);
        }
    }
    let result = decoded(single(Wire::Bulk(items), owned), shape);
    if result is Ok {
        assert forall|j: int| 0 <= j < fields@.len() implies #[trigger] has_value(
            pairs,
            fields@,
            n,
            j,
        ) by {
            assert(found[j] is Some || fields@[j].shape is Optional);
        }
    }
    if forall|j: int| 0 <= j < fields@.len() ==> #[trigger] has_value(pairs, fields@, n, j) {
        assert forall|j: int| 0 <= j < fields@.len() implies (#[trigger] found[j]) is Some
            || fields@[j].shape is Optional by {
            assert(has_value(pairs, fields@, n, j));
        }
    }
    assert forall|j: int|
        0 <= j < fields@.len() && !#[trigger] has_value(pairs, fields@, n, j) && (forall|i: int|
            0 <= i < j ==> #[trigger] has_value(pairs, fields@, n, i)) implies result == Err::<
        HostView,
        Fault,
    >(Fault::MissingField(fields@[j].name@)) by {
        assert(found[j] is None && !(fields@[j].shape is Optional));
        assert forall|i: int| 0 <= i < j implies (#[trigger] found[i]) is Some
            || fields@[i].shape is Optional by {
            assert(has_value(pairs, fields@, n, i));
        }
    }
}

} // verus!
