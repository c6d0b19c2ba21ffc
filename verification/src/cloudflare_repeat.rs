//! Merges of Cloudflare credentials that are made again.

use vstd::prelude::*;
use vstd::string::*;

use crate::cloudflare_item;
use crate::cloudflare_item::ItemShape;
use crate::json;
use crate::text;

verus! {

broadcast use crate::seqs::group_seqs;

/// What filling a field writes under a key, where it writes anything there.
pub open spec fn written(
    shape: ItemShape,
    id: Seq<char>,
    section: Seq<char>,
    field: cloudflare_item::DestinationView,
    key: Seq<char>,
) -> Option<json::JsonView> {
    if key == "value"@ {
        Some(json::JsonView::Text(field.value))
    } else {
        match shape {
            ItemShape::Cli => if key == "label"@ {
                Some(json::JsonView::Text(field.label))
            } else if key == "type"@ {
                Some(json::JsonView::Text("CONCEALED"@))
            } else if key == "section"@ {
                Some(json::JsonView::object().with("id"@, json::JsonView::Text(section)))
            } else if key == "id"@ {
                Some(json::JsonView::Text(id))
            } else {
                None
            },
            ItemShape::Sdk => if key == "fieldType"@ {
                Some(json::JsonView::Text("Concealed"@))
            } else if key == "sectionId"@ {
                Some(json::JsonView::Text(section))
            } else if key == "title"@ {
                Some(json::JsonView::Text(field.label))
            } else if key == "id"@ {
                Some(json::JsonView::Text(id))
            } else {
                None
            },
        }
    }
}

/// A filled field holds what was written, and under every other key what its ground held.
proof fn lemma_filled_key(
    shape: ItemShape,
    base: json::JsonView,
    id: Seq<char>,
    section: Seq<char>,
    field: cloudflare_item::DestinationView,
    key: Seq<char>,
)
    requires
        base is Object,
        json::well_ordered(base),
    ensures
        shape.filled(base, id, section, field) is Object,
        json::well_ordered(shape.filled(base, id, section, field)),
        json::field(shape.filled(base, id, section, field), key) == (match written(
            shape,
            id,
            section,
            field,
            key,
        ) {
            Some(v) => Some(v),
            None => json::field(base, key),
        }),
{
    let value = json::JsonView::Text(field.value);
    let a = base.with("id"@, json::JsonView::Text(id));
    json::lemma_with(base, "id"@, json::JsonView::Text(id), key);
    match shape {
        ItemShape::Cli => {
            let linked = json::JsonView::object().with("id"@, json::JsonView::Text(section));
            let kind = json::JsonView::Text("CONCEALED"@);
            let label = json::JsonView::Text(field.label);
            let b = a.with("section"@, linked);
            json::lemma_with(a, "section"@, linked, key);
            let c = b.with("type"@, kind);
            json::lemma_with(b, "type"@, kind, key);
            let d = c.with("label"@, label);
            json::lemma_with(c, "label"@, label, key);
            json::lemma_with(d, "value"@, value, key);
        },
        ItemShape::Sdk => {
            let kind = json::JsonView::Text("Concealed"@);
            let label = json::JsonView::Text(field.label);
            let link = json::JsonView::Text(section);
            let b = a.with("title"@, label);
            json::lemma_with(a, "title"@, label, key);
            let c = b.with("sectionId"@, link);
            json::lemma_with(b, "sectionId"@, link, key);
            let d = c.with("fieldType"@, kind);
            json::lemma_with(c, "fieldType"@, kind, key);
            json::lemma_with(d, "value"@, value, key);
        },
    }
}

/// Filling a field writes the same keys each time.
proof fn lemma_written_keys(
    shape: ItemShape,
    id: Seq<char>,
    section: Seq<char>,
    x: cloudflare_item::DestinationView,
    y: cloudflare_item::DestinationView,
    key: Seq<char>,
)
    ensures
        written(shape, id, section, x, key) is Some == written(shape, id, section, y, key) is Some,
{
}

/// Filling a field again leaves what filling it once with the later content leaves.
proof fn lemma_refilled(
    shape: ItemShape,
    base: json::JsonView,
    id: Seq<char>,
    section: Seq<char>,
    x: cloudflare_item::DestinationView,
    y: cloudflare_item::DestinationView,
)
    requires
        base is Object,
        json::well_ordered(base),
    ensures
        shape.filled(shape.filled(base, id, section, x), id, section, y) == shape.filled(
            base,
            id,
            section,
            y,
        ),
{
    let once = shape.filled(base, id, section, x);
    let twice = shape.filled(once, id, section, y);
    let straight = shape.filled(base, id, section, y);
    lemma_filled_key(shape, base, id, section, x, "id"@);
    lemma_filled_key(shape, once, id, section, y, "id"@);
    lemma_filled_key(shape, base, id, section, y, "id"@);
    assert forall|k: Seq<char>| #[trigger] json::field(twice, k) == json::field(straight, k) by {
        lemma_filled_key(shape, base, id, section, x, k);
        lemma_filled_key(shape, once, id, section, y, k);
        lemma_filled_key(shape, base, id, section, y, k);
        lemma_written_keys(shape, id, section, x, y, k);
    }
    json::lemma_same_object(twice, straight);
}

/// The first destination is where `destination_index` finds it.
proof fn lemma_index_is(
    shape: ItemShape,
    fields: Seq<json::JsonView>,
    label: Seq<char>,
    section: Seq<char>,
    from: int,
    p: int,
)
    requires
        0 <= from <= p < fields.len(),
        cloudflare_item::is_destination(shape, fields[p], label, section),
        forall|q: int|
            from <= q < p ==> !cloudflare_item::is_destination(
                shape,
                #[trigger] fields[q],
                label,
                section,
            ),
    ensures
        cloudflare_item::destination_index(shape, fields, label, section, from) == Some(p),
    decreases p - from,
{
    if from < p {
        lemma_index_is(shape, fields, label, section, from + 1, p);
    }
}

/// What `destination_index` finds is the first destination, and it finds none only where there is
/// none.
proof fn lemma_index_first(
    shape: ItemShape,
    fields: Seq<json::JsonView>,
    label: Seq<char>,
    section: Seq<char>,
    from: int,
)
    requires
        0 <= from,
    ensures
        match cloudflare_item::destination_index(shape, fields, label, section, from) {
            Some(p) => from <= p < fields.len() && cloudflare_item::is_destination(
                shape,
                fields[p],
                label,
                section,
            ) && forall|q: int|
                from <= q < p ==> !cloudflare_item::is_destination(
                    shape,
                    #[trigger] fields[q],
                    label,
                    section,
                ),
            None => forall|q: int|
                from <= q < fields.len() ==> !cloudflare_item::is_destination(
                    shape,
                    #[trigger] fields[q],
                    label,
                    section,
                ),
        },
    decreases fields.len() - from,
{
    if from < fields.len() && !cloudflare_item::is_destination(shape, fields[from], label, section) {
        lemma_index_first(shape, fields, label, section, from + 1);
    }
}

/// Whether two lists of fields take the same labels at the same positions of the section, as far
/// as the first goes.
spec fn same_places(
    shape: ItemShape,
    a: Seq<json::JsonView>,
    b: Seq<json::JsonView>,
    section: Seq<char>,
) -> bool {
    &&& a.len() <= b.len()
    &&& forall|i: int, label: Seq<char>|
        0 <= i < a.len() ==> #[trigger] cloudflare_item::is_destination(shape, b[i], label, section)
            == cloudflare_item::is_destination(shape, a[i], label, section)
}

/// A destination stays where it was found.
proof fn lemma_place_kept(
    shape: ItemShape,
    a: Seq<json::JsonView>,
    b: Seq<json::JsonView>,
    section: Seq<char>,
    label: Seq<char>,
)
    requires
        same_places(shape, a, b, section),
        cloudflare_item::destination_index(shape, a, label, section, 0) is Some,
    ensures
        cloudflare_item::destination_index(shape, b, label, section, 0)
            == cloudflare_item::destination_index(shape, a, label, section, 0),
{
    lemma_index_first(shape, a, label, section, 0);
    let p = cloudflare_item::destination_index(shape, a, label, section, 0)->0;
    assert forall|q: int| 0 <= q < p implies !cloudflare_item::is_destination(
        shape,
        #[trigger] b[q],
        label,
        section,
    ) by {
        assert(!cloudflare_item::is_destination(shape, a[q], label, section));
    }
    lemma_index_is(shape, b, label, section, 0, p);
}

/// Labels that differ at most in case have the same destination.
proof fn lemma_place_case(
    shape: ItemShape,
    fields: Seq<json::JsonView>,
    section: Seq<char>,
    a: Seq<char>,
    b: Seq<char>,
    from: int,
)
    requires
        text::lowered(a) == text::lowered(b),
        0 <= from,
    ensures
        cloudflare_item::destination_index(shape, fields, a, section, from)
            == cloudflare_item::destination_index(shape, fields, b, section, from),
    decreases fields.len() - from,
{
    if from < fields.len() {
        lemma_place_case(shape, fields, section, a, b, from + 1);
    }
}

/// Where a field is stored: its position, what lies there, and that the places stay.
proof fn lemma_stored(
    shape: ItemShape,
    fields: Seq<json::JsonView>,
    section: Seq<char>,
    field: cloudflare_item::DestinationView,
)
    requires
        forall|i: int| 0 <= i < fields.len() ==> json::well_ordered(#[trigger] fields[i]),
    ensures
        ({
            let (now, id) = cloudflare_item::merged_field(shape, fields, section, field);
            let place = cloudflare_item::destination_index(shape, now, field.label, section, 0);
            &&& same_places(shape, fields, now, section)
            &&& place is Some
            &&& 0 <= place->0 < now.len()
            &&& cloudflare_item::is_destination(shape, now[place->0], field.label, section)
            &&& json::text_field(now[place->0], "id"@) == Some(id)
            &&& now[place->0] == shape.filled(now[place->0], id, section, field)
            &&& forall|i: int|
                0 <= i < fields.len() && i != place->0 ==> #[trigger] now[i] == fields[i]
            &&& place->0 < fields.len() ==> {
                &&& now == fields.update(
                    place->0,
                    shape.filled(fields[place->0], id, section, field),
                )
                &&& cloudflare_item::is_destination(shape, fields[place->0], field.label, section)
                &&& json::text_field(fields[place->0], "id"@) matches Some(own) ==> own == id
            }
        }),
{
    json::lemma_object_ordered();
    let (now, id) = cloudflare_item::merged_field(shape, fields, section, field);
    lemma_index_first(shape, fields, field.label, section, 0);
    let found = cloudflare_item::destination_index(shape, fields, field.label, section, 0);
    let p = match found {
        Some(p) => p,
        None => fields.len() as int,
    };
    let base = match found {
        Some(p) => fields[p],
        None => json::JsonView::object(),
    };
    assert(base is Object);
    cloudflare_item::lemma_filled(shape, base, id, section, field);
    lemma_refilled(shape, base, id, section, field, field);
    assert(now[p] == shape.filled(base, id, section, field));
    assert forall|i: int, label: Seq<char>| 0 <= i < fields.len() implies (
    #[trigger] cloudflare_item::is_destination(shape, now[i], label, section))
        == cloudflare_item::is_destination(shape, fields[i], label, section) by {
        if i != p {
            assert(now[i] == fields[i]);
        }
    }
    assert forall|q: int| 0 <= q < p implies !cloudflare_item::is_destination(
        shape,
        #[trigger] now[q],
        field.label,
        section,
    ) by {
        assert(!cloudflare_item::is_destination(shape, fields[q], field.label, section));
    }
    lemma_index_is(shape, now, field.label, section, 0, p);
}

/// Whether every one of the fields has its place among `now`, under the identifier that `found`
/// gives it, and holds what was stored last there.
#[verifier::opaque]
spec fn all_placed(
    shape: ItemShape,
    now: Seq<json::JsonView>,
    section: Seq<char>,
    added: Seq<cloudflare_item::DestinationView>,
    found: Seq<Seq<char>>,
) -> bool {
    &&& found.len() == added.len()
    &&& forall|i: int| 0 <= i < now.len() ==> json::well_ordered(#[trigger] now[i])
    &&& forall|k: int|
        0 <= k < added.len() ==> placed(shape, now, section, #[trigger] added[k], found[k])
    &&& forall|k: int|
        0 <= k < added.len() && (forall|j: int|
            k < j < added.len() ==> text::lowered((#[trigger] added[j]).label) != text::lowered(
                added[k].label,
            )) ==> holds(shape, now, section, #[trigger] added[k], found[k])
}

/// Whether a field has its place, under the identifier.
spec fn placed(
    shape: ItemShape,
    now: Seq<json::JsonView>,
    section: Seq<char>,
    field: cloudflare_item::DestinationView,
    id: Seq<char>,
) -> bool {
    let place = cloudflare_item::destination_index(shape, now, field.label, section, 0);
    &&& place is Some
    &&& json::text_field(now[place->0], "id"@) == Some(id)
}

/// Whether what lies at a field's place is what filling it leaves.
spec fn holds(
    shape: ItemShape,
    now: Seq<json::JsonView>,
    section: Seq<char>,
    field: cloudflare_item::DestinationView,
    id: Seq<char>,
) -> bool {
    let place = cloudflare_item::destination_index(shape, now, field.label, section, 0)->0;
    now[place] == shape.filled(now[place], id, section, field)
}

/// After a merge every field has its place.
proof fn lemma_all_placed(
    shape: ItemShape,
    fields: Seq<json::JsonView>,
    section: Seq<char>,
    added: Seq<cloudflare_item::DestinationView>,
)
    requires
        forall|i: int| 0 <= i < fields.len() ==> json::well_ordered(#[trigger] fields[i]),
    ensures
        ({
            let (now, found) = cloudflare_item::merged_fields(shape, fields, section, added);
            all_placed(shape, now, section, added, found)
        }),
    decreases added.len(),
{
    reveal(all_placed);
    if added.len() > 0 {
        let front = added.drop_last();
        let last = added.last();
        let n = front.len() as int;
        lemma_all_placed(shape, fields, section, front);
        cloudflare_item::law_merge_keeps_other_fields(shape, fields, section, added);
        let (kept, before) = cloudflare_item::merged_fields(shape, fields, section, front);
        let (now, id) = cloudflare_item::merged_field(shape, kept, section, last);
        let found = before.push(id);
        lemma_stored(shape, kept, section, last);
        let q = cloudflare_item::destination_index(shape, now, last.label, section, 0)->0;
        assert forall|k: int| 0 <= k < added.len() implies placed(
            shape,
            now,
            section,
            #[trigger] added[k],
            found[k],
        ) by {
            if k < n {
                assert(front[k] == added[k]);
                assert(placed(shape, kept, section, front[k], before[k]));
                lemma_place_kept(shape, kept, now, section, added[k].label);
                lemma_index_first(shape, kept, added[k].label, section, 0);
            }
        }
        assert forall|k: int|
            0 <= k < added.len() && (forall|j: int|
                k < j < added.len() ==> text::lowered((#[trigger] added[j]).label) != text::lowered(
                    added[k].label,
                )) implies holds(shape, now, section, #[trigger] added[k], found[k]) by {
            if k < n {
                assert(front[k] == added[k]);
                assert forall|j: int| k < j < front.len() implies text::lowered(
                    (#[trigger] front[j]).label,
                ) != text::lowered(front[k].label) by {
                    assert(front[j] == added[j]);
                }
                assert(holds(shape, kept, section, front[k], before[k]));
                assert(placed(shape, kept, section, front[k], before[k]));
                lemma_place_kept(shape, kept, now, section, added[k].label);
                lemma_index_first(shape, kept, added[k].label, section, 0);
                assert(added[n] == last);
            }
        }
    }
}

/// What lies at a position after the fields were stored again: what lay there, filled with the
/// last of them that belongs there.
spec fn stored_again(
    shape: ItemShape,
    fields: Seq<json::JsonView>,
    section: Seq<char>,
    added: Seq<cloudflare_item::DestinationView>,
    found: Seq<Seq<char>>,
    p: int,
) -> json::JsonView
    decreases added.len(),
{
    if added.len() == 0 {
        fields[p]
    } else if cloudflare_item::destination_index(shape, fields, added.last().label, section, 0)
        == Some(p) {
        shape.filled(fields[p], found[added.len() - 1], section, added.last())
    } else {
        stored_again(shape, fields, section, added.drop_last(), found, p)
    }
}

/// What was stored again at a position keeps the labels that it takes and its identifier, and
/// filling it leaves what filling the field that lay there leaves.
proof fn lemma_stored_again(
    shape: ItemShape,
    fields: Seq<json::JsonView>,
    section: Seq<char>,
    added: Seq<cloudflare_item::DestinationView>,
    found: Seq<Seq<char>>,
    p: int,
    label: Seq<char>,
    id: Seq<char>,
    field: cloudflare_item::DestinationView,
)
    requires
        added.len() <= found.len(),
        0 <= p < fields.len(),
        json::well_ordered(fields[p]),
        forall|k: int|
            0 <= k < added.len() ==> placed(shape, fields, section, #[trigger] added[k], found[k]),
    ensures
        ({
            let now = stored_again(shape, fields, section, added, found, p);
            &&& json::well_ordered(now)
            &&& cloudflare_item::is_destination(shape, now, label, section)
                == cloudflare_item::is_destination(shape, fields[p], label, section)
            &&& json::text_field(fields[p], "id"@) == Some(id) ==> {
                &&& json::text_field(now, "id"@) == Some(id)
                &&& shape.filled(now, id, section, field) == shape.filled(
                    fields[p],
                    id,
                    section,
                    field,
                )
            }
        }),
    decreases added.len(),
{
    if added.len() > 0 {
        let front = added.drop_last();
        let last = added.last();
        let own = found[added.len() - 1];
        if cloudflare_item::destination_index(shape, fields, last.label, section, 0) == Some(p) {
            assert(placed(shape, fields, section, added[added.len() - 1], own));
            lemma_index_first(shape, fields, last.label, section, 0);
            assert(fields[p] is Object);
            cloudflare_item::lemma_filled(shape, fields[p], own, section, last);
            lemma_filled_key(shape, fields[p], own, section, last, "id"@);
            lemma_refilled(shape, fields[p], own, section, last, field);
        } else {
            assert forall|k: int| 0 <= k < front.len() implies placed(
                shape,
                fields,
                section,
                #[trigger] front[k],
                found[k],
            ) by {
                assert(front[k] == added[k]);
            }
            lemma_stored_again(shape, fields, section, front, found, p, label, id, field);
        }
    }
}

/// Storing fields again that all have their places.
proof fn lemma_again(
    shape: ItemShape,
    fields: Seq<json::JsonView>,
    section: Seq<char>,
    added: Seq<cloudflare_item::DestinationView>,
    found: Seq<Seq<char>>,
)
    requires
        found.len() >= added.len(),
        forall|i: int| 0 <= i < fields.len() ==> json::well_ordered(#[trigger] fields[i]),
        forall|k: int|
            0 <= k < added.len() ==> placed(shape, fields, section, #[trigger] added[k], found[k]),
    ensures
        ({
            let (now, again) = cloudflare_item::merged_fields(shape, fields, section, added);
            &&& again == found.take(added.len() as int)
            &&& now.len() == fields.len()
            &&& forall|p: int|
                0 <= p < now.len() ==> #[trigger] now[p] == stored_again(
                    shape,
                    fields,
                    section,
                    added,
                    found,
                    p,
                )
        }),
    decreases added.len(),
{
    if added.len() > 0 {
        let front = added.drop_last();
        let last = added.last();
        let n = front.len() as int;
        assert forall|k: int| 0 <= k < front.len() implies placed(
            shape,
            fields,
            section,
            #[trigger] front[k],
            found[k],
        ) by {
            assert(front[k] == added[k]);
        }
        lemma_again(shape, fields, section, front, found);
        let (kept, before) = cloudflare_item::merged_fields(shape, fields, section, front);
        assert forall|i: int, label: Seq<char>| 0 <= i < fields.len() implies (
        #[trigger] cloudflare_item::is_destination(shape, kept[i], label, section))
            == cloudflare_item::is_destination(shape, fields[i], label, section) by {
            assert(kept[i] == stored_again(shape, fields, section, front, found, i));
            lemma_stored_again(shape, fields, section, front, found, i, label, found[n], last);
        }
        assert(placed(shape, fields, section, added[n], found[n]));
        lemma_place_kept(shape, fields, kept, section, last.label);
        lemma_index_first(shape, fields, last.label, section, 0);
        let q = cloudflare_item::destination_index(shape, fields, last.label, section, 0)->0;
        lemma_stored_again(shape, fields, section, front, found, q, last.label, found[n], last);
        assert(kept[q] == stored_again(shape, fields, section, front, found, q));
        let (now, id) = cloudflare_item::merged_field(shape, kept, section, last);
        assert(id == found[n]);
        assert(before.push(id) =~= found.take(added.len() as int));
        assert forall|p: int| 0 <= p < now.len() implies #[trigger] now[p] == stored_again(
            shape,
            fields,
            section,
            added,
            found,
            p,
        ) by {
            if p != q {
                assert(now[p] == kept[p]);
            }
        }
    } else {
        assert(found.take(0) =~= Seq::<Seq<char>>::empty());
    }
}

/// A field that no later one with its label follows is what its place holds.
proof fn lemma_holds(
    shape: ItemShape,
    now: Seq<json::JsonView>,
    section: Seq<char>,
    added: Seq<cloudflare_item::DestinationView>,
    found: Seq<Seq<char>>,
    k: int,
)
    requires
        all_placed(shape, now, section, added, found),
        0 <= k < added.len(),
        forall|j: int|
            k < j < added.len() ==> text::lowered((#[trigger] added[j]).label) != text::lowered(
                added[k].label,
            ),
    ensures
        holds(shape, now, section, added[k], found[k]),
{
    reveal(all_placed);
}

/// Where no later field belongs to a position, storing the earlier ones again changes nothing
/// there.
proof fn lemma_stays(
    shape: ItemShape,
    now: Seq<json::JsonView>,
    section: Seq<char>,
    added: Seq<cloudflare_item::DestinationView>,
    found: Seq<Seq<char>>,
    m: int,
    p: int,
)
    requires
        all_placed(shape, now, section, added, found),
        0 <= m <= added.len(),
        forall|j: int|
            m <= j < added.len() ==> cloudflare_item::destination_index(
                shape,
                now,
                (#[trigger] added[j]).label,
                section,
                0,
            ) != Some(p),
    ensures
        stored_again(shape, now, section, added.take(m), found, p) == now[p],
    decreases m,
{
    if m > 0 {
        let k = m - 1;
        assert(added.take(m).last() == added[k]);
        assert(added.take(m).drop_last() =~= added.take(k));
        if cloudflare_item::destination_index(shape, now, added[k].label, section, 0) == Some(p) {
            assert forall|j: int| k < j < added.len() implies text::lowered(
                (#[trigger] added[j]).label,
            ) != text::lowered(added[k].label) by {
                if text::lowered(added[j].label) == text::lowered(added[k].label) {
                    lemma_place_case(shape, now, section, added[j].label, added[k].label, 0);
                }
            }
            lemma_holds(shape, now, section, added, found, k);
        } else {
            lemma_stays(shape, now, section, added, found, k, p);
        }
    }
}

/// Fields that were merged stay as they are when they are merged again, under the same
/// identifiers.
pub proof fn law_merge_fields_twice(
    shape: ItemShape,
    fields: Seq<json::JsonView>,
    section: Seq<char>,
    added: Seq<cloudflare_item::DestinationView>,
)
    requires
        forall|i: int| 0 <= i < fields.len() ==> json::well_ordered(#[trigger] fields[i]),
    ensures
        ({
            let once = cloudflare_item::merged_fields(shape, fields, section, added);
            cloudflare_item::merged_fields(shape, once.0, section, added) == once
        }),
{
    let (now, found) = cloudflare_item::merged_fields(shape, fields, section, added);
    lemma_all_placed(shape, fields, section, added);
    reveal(all_placed);
    lemma_again(shape, now, section, added, found);
    let (again, ids) = cloudflare_item::merged_fields(shape, now, section, added);
    assert(added.take(added.len() as int) =~= added);
    assert forall|p: int| 0 <= p < now.len() implies #[trigger] again[p] == now[p] by {
        lemma_stays(shape, now, section, added, found, added.len() as int, p);
    }
    assert(again =~= now);
    assert(found.take(added.len() as int) =~= found);
}

/// A section that was added is the one that is chosen afterwards.
proof fn lemma_section_chosen(
    shape: ItemShape,
    sections: Seq<json::JsonView>,
    label: Seq<char>,
    added: json::JsonView,
)
    requires
        cloudflare_item::section_choice(shape, sections, label) is None,
    ensures
        cloudflare_item::section_choice(shape, sections.push(added), label)
            == cloudflare_item::named_section(shape, added, label),
    decreases sections.len(),
{
    let now = sections.push(added);
    if sections.len() == 0 {
        let rest = now.drop_first();
        assert(rest =~= Seq::<json::JsonView>::empty());
        assert(cloudflare_item::section_choice(shape, rest, label) is None);
        assert(now[0] == added);
    } else {
        assert(now[0] == sections[0]);
        assert(now.drop_first() =~= sections.drop_first().push(added));
        lemma_section_chosen(shape, sections.drop_first(), label, added);
    }
}

/// Sections that were merged stay as they are when they are merged again.
pub proof fn law_merge_sections_twice(
    shape: ItemShape,
    sections: Seq<json::JsonView>,
    label: Seq<char>,
)
    ensures
        ({
            let once = cloudflare_item::merged_sections(shape, sections, label);
            cloudflare_item::merged_sections(shape, once.0, label) == once
        }),
{
    let (now, id) = cloudflare_item::merged_sections(shape, sections, label);
    if cloudflare_item::section_choice(shape, sections, label) is None {
        let blank = json::JsonView::object();
        let own = json::JsonView::Text(id);
        let named = json::JsonView::Text(label);
        cloudflare_item::lemma_keys_differ();
        json::lemma_object_ordered();
        json::lemma_with(blank, "id"@, own, "id"@);
        json::lemma_with(blank.with("id"@, own), shape.label(), named, "id"@);
        lemma_section_chosen(shape, sections, label, shape.section(id, label));
    }
}

/// A merge that is made again with the same fields leaves the item as it is, and reports the same
/// identifiers: no section and no field is added twice.
pub proof fn law_merge_twice(
    shape: ItemShape,
    item: json::JsonView,
    prepared: cloudflare_item::PreparedView,
)
    requires
        json::ordered_throughout(item),
        cloudflare_item::merged(shape, item, prepared).1 is Ok,
    ensures
        ({
            let once = cloudflare_item::merged(shape, item, prepared);
            cloudflare_item::merged(shape, once.0, prepared) == once
        }),
{
    reveal_strlit("sections");
    reveal_strlit("fields");
    assert("sections"@.len() != "fields"@.len());
    let none = json::JsonView::Array(Seq::empty());
    let first = cloudflare_item::with_list(item, "sections"@);
    json::lemma_with(item, "sections"@, none, "fields"@);
    let sections = json::items_field(first, "sections"@)->0;
    let (now, section) = cloudflare_item::merged_sections(shape, sections, prepared.section_label);
    let listed = json::JsonView::Array(now);
    let placed = first.with("sections"@, listed);
    json::lemma_with(first, "sections"@, listed, "fields"@);
    let second = cloudflare_item::with_list(placed, "fields"@);
    json::lemma_with(placed, "fields"@, none, "sections"@);
    let fields = json::items_field(second, "fields"@)->0;
    json::lemma_field_ordered(item, "fields"@);
    assert forall|i: int| 0 <= i < fields.len() implies json::well_ordered(#[trigger] fields[i]) by {
        if json::field(item, "fields"@) is Some {
            assert(json::ordered_throughout(json::field(item, "fields"@)->0));
            assert(json::ordered_throughout(fields[i]));
        }
    }
    let (stored, found) = cloudflare_item::merged_fields(shape, fields, section, prepared.fields);
    let kept = json::JsonView::Array(stored);
    let last = second.with("fields"@, kept);
    json::lemma_with(second, "fields"@, kept, "sections"@);
    law_merge_sections_twice(shape, sections, prepared.section_label);
    law_merge_fields_twice(shape, fields, section, prepared.fields);
    json::lemma_with_same(last, "sections"@, listed);
    json::lemma_with_same(last, "fields"@, kept);
}

} // verus!
