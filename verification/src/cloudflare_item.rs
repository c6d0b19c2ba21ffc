//! 1Password items that hold Cloudflare credentials: templates for new items, and the merge of
//! prepared fields into an existing item.

use vstd::prelude::*;
use vstd::string::*;

use crate::failure::Failure;
use crate::ids;
use crate::json;
use crate::json::{Json, JsonView};
use crate::text;

verus! {

broadcast use crate::seqs::group_seqs;

/// One field to store: its label and its secret value.
#[derive(Debug)]
pub struct DestinationField {
    pub label: String,
    pub value: String,
}

/// A credential that is ready to be stored: the section that takes it and its fields.
#[derive(Debug)]
pub struct PreparedCredential {
    pub section_label: String,
    pub fields: Vec<DestinationField>,
}

/// The content of a `DestinationField`.
pub struct DestinationView {
    pub label: Seq<char>,
    pub value: Seq<char>,
}

/// The content of a `PreparedCredential`.
pub struct PreparedView {
    pub section_label: Seq<char>,
    pub fields: Seq<DestinationView>,
}

impl View for DestinationField {
    type V = DestinationView;

    open spec fn view(&self) -> DestinationView {
        DestinationView { label: self.label@, value: self.value@ }
    }
}

/// The contents of a list of fields.
pub open spec fn destinations(fields: Seq<DestinationField>) -> Seq<DestinationView> {
    Seq::new(fields.len(), |i: int| fields[i]@)
}

impl View for PreparedCredential {
    type V = PreparedView;

    open spec fn view(&self) -> PreparedView {
        PreparedView {
            section_label: self.section_label@,
            fields: destinations(self.fields@),
        }
    }
}

/// The two notations for an item: that of the `op` command line tool and that of the SDK.
#[derive(Clone, Copy, PartialEq, Eq, Structural)]
pub enum ItemShape {
    Cli,
    Sdk,
}

impl ItemShape {
    /// The key under which a section or a field holds its label.
    pub open spec fn label(self) -> Seq<char> {
        match self {
            ItemShape::Cli => "label"@,
            ItemShape::Sdk => "title"@,
        }
    }

    /// The key under which a section or a field holds its label.
    fn label_key(self) -> (r: &'static str)
        ensures
            r@ == self.label(),
    {
        match self {
            ItemShape::Cli => "label",
            ItemShape::Sdk => "title",
        }
    }

    /// The section that a field belongs to.
    pub open spec fn section_of(self, field: JsonView) -> Option<Seq<char>> {
        match self {
            ItemShape::Cli => match json::field(field, "section"@) {
                Some(section) => json::text_field(section, "id"@),
                None => None,
            },
            ItemShape::Sdk => json::text_field(field, "sectionId"@),
        }
    }

    /// Whether a field is concealed.
    pub open spec fn is_concealed(self, field: JsonView) -> bool {
        match self {
            ItemShape::Cli => json::text_field(field, "type"@) == Some("CONCEALED"@),
            ItemShape::Sdk => json::text_field(field, "fieldType"@) == Some("Concealed"@),
        }
    }

    /// A section.
    pub open spec fn section(self, id: Seq<char>, label: Seq<char>) -> JsonView {
        JsonView::object().with("id"@, JsonView::Text(id)).with(self.label(), JsonView::Text(label))
    }

    /// A field, on the ground of what stands in `base`, with the given identifier, section, label
    /// and concealed value.
    pub open spec fn filled(
        self,
        base: JsonView,
        id: Seq<char>,
        section: Seq<char>,
        field: DestinationView,
    ) -> JsonView {
        match self {
            ItemShape::Cli => base.with("id"@, JsonView::Text(id)).with(
                "section"@,
                JsonView::object().with("id"@, JsonView::Text(section)),
            ).with("type"@, JsonView::Text("CONCEALED"@)).with(
                "label"@,
                JsonView::Text(field.label),
            ).with("value"@, JsonView::Text(field.value)),
            ItemShape::Sdk => base.with("id"@, JsonView::Text(id)).with(
                "title"@,
                JsonView::Text(field.label),
            ).with("sectionId"@, JsonView::Text(section)).with(
                "fieldType"@,
                JsonView::Text("Concealed"@),
            ).with("value"@, JsonView::Text(field.value)),
        }
    }

    /// Why a value is not an item, or its sections or fields are not lists.
    pub open spec fn complaint(self, part: int) -> Seq<char> {
        match self {
            ItemShape::Cli => if part == 0 {
                "op item JSON was not an object"@
            } else if part == 1 {
                "op item sections were not an array"@
            } else {
                "op item fields were not an array"@
            },
            ItemShape::Sdk => if part == 0 {
                "Desktop SDK item was not an object"@
            } else if part == 1 {
                "Desktop SDK item sections were not an array"@
            } else {
                "Desktop SDK item fields were not an array"@
            },
        }
    }

    /// The failure for a value that is not an item, or whose sections or fields are not lists.
    fn complain(self, part: u8) -> (r: Failure)
        ensures
            r@ == seq![self.complaint(part as int)],
    {
        let message = match self {
            ItemShape::Cli => if part == 0 {
                "op item JSON was not an object"
            } else if part == 1 {
                "op item sections were not an array"
            } else {
                "op item fields were not an array"
            },
            ItemShape::Sdk => if part == 0 {
                "Desktop SDK item was not an object"
            } else if part == 1 {
                "Desktop SDK item sections were not an array"
            } else {
                "Desktop SDK item fields were not an array"
            },
        };
        Failure::new(message.to_owned())
    }
}

/// The identifier of `section`, where it has one and carries the label, up to ASCII case.
pub open spec fn named_section(shape: ItemShape, section: JsonView, label: Seq<char>) -> Option<
    Seq<char>,
> {
    match json::text_field(section, shape.label()) {
        Some(own) => if text::lowered(own) == text::lowered(label) {
            json::text_field(section, "id"@)
        } else {
            None
        },
        None => None,
    }
}

/// The identifier of the first section with the label.
pub open spec fn section_choice(shape: ItemShape, sections: Seq<JsonView>, label: Seq<char>) -> Option<
    Seq<char>,
>
    decreases sections.len(),
{
    if sections.len() == 0 {
        None
    } else {
        match named_section(shape, sections[0], label) {
            Some(id) => Some(id),
            None => section_choice(shape, sections.drop_first(), label),
        }
    }
}

/// The identifiers that the values carry.
pub open spec fn ids_of(values: Seq<JsonView>) -> Seq<Option<Seq<char>>> {
    Seq::new(values.len(), |i: int| json::text_field(values[i], "id"@))
}

/// The sections with one for the label among them, and the identifier of that one: the first
/// that carries the label, or a new one behind the others.
pub open spec fn merged_sections(
    shape: ItemShape,
    sections: Seq<JsonView>,
    label: Seq<char>,
) -> (Seq<JsonView>, Seq<char>) {
    match section_choice(shape, sections, label) {
        Some(id) => (sections, id),
        None => {
            let id = ids::fresh_id(ids_of(sections), ids::label_id(label, "cloudflare"@));
            (sections.push(shape.section(id, label)), id)
        },
    }
}

/// Whether `field` carries the label, up to ASCII case, and belongs to the section.
pub open spec fn is_destination(
    shape: ItemShape,
    field: JsonView,
    label: Seq<char>,
    section: Seq<char>,
) -> bool {
    &&& json::text_field(field, shape.label()) matches Some(own) && text::lowered(own)
        == text::lowered(label)
    &&& shape.section_of(field) == Some(section)
}

/// The position of the first field at or after `from` with that label in that section.
pub open spec fn destination_index(
    shape: ItemShape,
    fields: Seq<JsonView>,
    label: Seq<char>,
    section: Seq<char>,
    from: int,
) -> Option<int>
    decreases fields.len() - from,
{
    if from < 0 || from >= fields.len() {
        None
    } else if is_destination(shape, fields[from], label, section) {
        Some(from)
    } else {
        destination_index(shape, fields, label, section, from + 1)
    }
}

/// The fields with `field` stored among them, and its identifier: in the first field with its
/// label in the section, which keeps whatever else it holds, or in a new field behind the others.
pub open spec fn merged_field(
    shape: ItemShape,
    fields: Seq<JsonView>,
    section: Seq<char>,
    field: DestinationView,
) -> (Seq<JsonView>, Seq<char>) {
    let base = ids::label_id(field.label, "field"@);
    match destination_index(shape, fields, field.label, section, 0) {
        Some(i) => {
            let id = match json::text_field(fields[i], "id"@) {
                Some(own) => own,
                None => base,
            };
            (fields.update(i, shape.filled(fields[i], id, section, field)), id)
        },
        None => {
            let id = ids::fresh_id(ids_of(fields), base);
            (fields.push(shape.filled(JsonView::object(), id, section, field)), id)
        },
    }
}

/// The fields with each of `added` stored among them, in order, and their identifiers.
pub open spec fn merged_fields(
    shape: ItemShape,
    fields: Seq<JsonView>,
    section: Seq<char>,
    added: Seq<DestinationView>,
) -> (Seq<JsonView>, Seq<Seq<char>>)
    decreases added.len(),
{
    if added.len() == 0 {
        (fields, Seq::empty())
    } else {
        let (kept, found) = merged_fields(shape, fields, section, added.drop_last());
        let (now, id) = merged_field(shape, kept, section, added.last());
        (now, found.push(id))
    }
}

/// The list under `key`, with an empty one put there first where nothing is.
pub open spec fn with_list(item: JsonView, key: Seq<char>) -> JsonView {
    if json::field(item, key) is Some {
        item
    } else {
        item.with(key, JsonView::Array(Seq::empty()))
    }
}

/// What a merge leaves of the item, and what it reports: the identifiers of the section and of
/// the fields, or why the item could not take them.
pub open spec fn merged(shape: ItemShape, item: JsonView, prepared: PreparedView) -> (
    JsonView,
    Result<(Seq<char>, Seq<Seq<char>>), Seq<char>>,
) {
    if !(item is Object) {
        (item, Err(shape.complaint(0)))
    } else {
        let first = with_list(item, "sections"@);
        match json::items_field(first, "sections"@) {
            None => (first, Err(shape.complaint(1))),
            Some(sections) => {
                let (now, section) = merged_sections(shape, sections, prepared.section_label);
                let second = with_list(first.with("sections"@, JsonView::Array(now)), "fields"@);
                match json::items_field(second, "fields"@) {
                    None => (second, Err(shape.complaint(2))),
                    Some(fields) => {
                        let (stored, found) = merged_fields(shape, fields, section, prepared.fields);
                        (second.with("fields"@, JsonView::Array(stored)), Ok((section, found)))
                    },
                }
            },
        }
    }
}

/// Whether a merge reported what it should.
pub open spec fn reported(
    r: Result<(String, Vec<String>), Failure>,
    expected: Result<(Seq<char>, Seq<Seq<char>>), Seq<char>>,
) -> bool {
    match (r, expected) {
        (Ok((section, found)), Ok((id, all))) => section@ == id && crate::seqs::texts(found@) == all,
        (Err(e), Err(message)) => e@ == seq![message],
        _ => false,
    }
}

/// The identifier of `section`, where it has one and carries the label.
fn find_section_id(shape: ItemShape, section: &Json, label: &str) -> (r: Option<String>)
    ensures
        r.deep_view() == named_section(shape, section@, label@),
{
    match section.get_str(shape.label_key()) {
        Some(own) => if text::same_ignoring_case(own, label) {
            match section.get_str("id") {
                Some(id) => Some(id.to_owned()),
                None => None,
            }
        } else {
            None
        },
        None => None,
    }
}

/// The identifiers that the values carry.
fn collect_ids(values: &[Json]) -> (r: Vec<Option<String>>)
    ensures
        ids::used_ids(r@) == ids_of(json::jsons(values@)),
{
    let mut r: Vec<Option<String>> = Vec::new();
    let mut i: usize = 0;
    while i < values.len()
        invariant
            i <= values@.len(),
            r@.len() == i,
            forall|j: int|
                0 <= j < i ==> #[trigger] r@[j].deep_view() == json::text_field(values@[j]@, "id"@),
        decreases values@.len() - i,
    {
        let id = match values[i].get_str("id") {
            Some(id) => Some(id.to_owned()),
            None => None,
        };
        r.push(id);
        i += 1;
    }
    assert(ids::used_ids(r@) =~= ids_of(json::jsons(values@)));
    r
}

/// A text as a JSON string.
fn text_json(s: &str) -> (r: Json)
    ensures
        r@ == JsonView::Text(s@),
{
    Json::text(s)
}

/// A section.
fn build_section(shape: ItemShape, id: &str, label: &str) -> (r: Json)
    ensures
        r@ == shape.section(id@, label@),
{
    Json::object().with("id", text_json(id)).with(shape.label_key(), text_json(label))
}

/// A field on the ground of `base`.
fn fill_field(shape: ItemShape, base: Json, id: &str, section: &str, field: &DestinationField) -> (r:
    Json)
    ensures
        r@ == shape.filled(base@, id@, section@, field@),
{
    match shape {
        ItemShape::Cli => base.with("id", text_json(id)).with(
            "section",
            Json::object().with("id", text_json(section)),
        ).with("type", text_json("CONCEALED")).with("label", text_json(&field.label)).with(
            "value",
            text_json(&field.value),
        ),
        ItemShape::Sdk => base.with("id", text_json(id)).with(
            "title",
            text_json(&field.label),
        ).with("sectionId", text_json(section)).with("fieldType", text_json("Concealed")).with(
            "value",
            text_json(&field.value),
        ),
    }
}

/// Puts a section for the label among `sections`, where none carries it yet.
fn merge_section(shape: ItemShape, sections: &mut Vec<Json>, label: &str) -> (r: String)
    ensures
        (json::jsons(final(sections)@), r@) == merged_sections(
            shape,
            json::jsons(old(sections)@),
            label@,
        ),
{
    let ghost all = json::jsons(sections@);
    let mut i: usize = 0;
    while i < sections.len()
        invariant
            i <= sections@.len(),
            json::jsons(sections@) == all,
            section_choice(shape, all, label@) == section_choice(
                shape,
                all.subrange(i as int, all.len() as int),
                label@,
            ),
        decreases sections@.len() - i,
    {
        proof {
            let rest = all.subrange(i as int, all.len() as int);
            assert(rest[0] == sections@[i as int]@);
            assert(rest.drop_first() == all.subrange(i + 1, all.len() as int));
        }
        if let Some(id) = find_section_id(shape, &sections[i], label) {
            return id;
        }
        i += 1;
    }
    let used = collect_ids(sections);
    let id = ids::free_id(&used, &ids::stable_id(label, "cloudflare"));
    let section = build_section(shape, &id, label);
    let ghost added = section@;
    sections.push(section);
    assert(json::jsons(sections@) =~= all.push(added));
    id
}

/// Whether `field` carries the label and belongs to the section.
fn is_destination_field(shape: ItemShape, field: &Json, label: &str, section: &str) -> (r: bool)
    ensures
        r == is_destination(shape, field@, label@, section@),
{
    let label_matches = match field.get_str(shape.label_key()) {
        Some(own) => text::same_ignoring_case(own, label),
        None => false,
    };
    let own_section = match shape {
        ItemShape::Cli => match field.get("section") {
            Some(part) => part.get_str("id"),
            None => None,
        },
        ItemShape::Sdk => field.get_str("sectionId"),
    };
    let section_matches = match own_section {
        Some(id) => text::same(id, section),
        None => false,
    };
    label_matches && section_matches
}

/// Stores one field among `fields` and gives its identifier.
fn merge_field(shape: ItemShape, fields: &mut Vec<Json>, section: &str, field: &DestinationField) -> (r:
    String)
    ensures
        (json::jsons(final(fields)@), r@) == merged_field(
            shape,
            json::jsons(old(fields)@),
            section@,
            field@,
        ),
{
    let ghost all = json::jsons(fields@);
    let mut i: usize = 0;
    while i < fields.len()
        invariant
            i <= fields@.len(),
            json::jsons(fields@) == all,
            json::jsons(old(fields)@) == all,
            destination_index(shape, all, field.label@, section@, 0) == destination_index(
                shape,
                all,
                field.label@,
                section@,
                i as int,
            ),
        decreases fields@.len() - i,
    {
        assert(all[i as int] == fields@[i as int]@);
        if is_destination_field(shape, &fields[i], &field.label, section) {
            let id = match fields[i].get_str("id") {
                Some(own) => own.to_owned(),
                None => ids::stable_id(&field.label, "field"),
            };
            let base = fields[i].clone();
            let stored = fill_field(shape, base, &id, section, field);
            let ghost now = stored@;
            fields.set(i, stored);
            assert(json::jsons(fields@) =~= all.update(i as int, now));
            return id;
        }
        i += 1;
    }
    let used = collect_ids(fields);
    let id = ids::free_id(&used, &ids::stable_id(&field.label, "field"));
    let stored = fill_field(shape, Json::object(), &id, section, field);
    let ghost now = stored@;
    fields.push(stored);
    assert(json::jsons(fields@) =~= all.push(now));
    id
}

/// Merges the prepared fields into an item.
fn merge_into(shape: ItemShape, item: &mut Json, prepared: &PreparedCredential) -> (r: Result<
    (String, Vec<String>),
    Failure,
>)
    ensures
        final(item)@ == merged(shape, old(item)@, prepared@).0,
        reported(r, merged(shape, old(item)@, prepared@).1),
{
    broadcast use json::lemma_json_view;

    let ghost before = item@;
    let mut whole = Json::Null;
    std::mem::swap(item, &mut whole);
    let is_object = match &whole {
        Json::Object(_) => true,
        _ => false,
    };
    if !is_object {
        *item = whole;
        return Err(shape.complain(0));
    }
    if whole.get("sections").is_none() {
        let none: Vec<Json> = Vec::new();
        assert(json::jsons(none@) =~= Seq::empty());
        whole = whole.with("sections", Json::Array(none));
    }
    let ghost first = whole@;
    assert(first == with_list(before, "sections"@));
    let mut sections = match whole.get_array("sections") {
        Some(sections) => json::clone_items(sections),
        None => {
            *item = whole;
            return Err(shape.complain(1));
        },
    };
    let section = merge_section(shape, &mut sections, &prepared.section_label);
    whole = whole.with("sections", Json::Array(sections));
    if whole.get("fields").is_none() {
        let none: Vec<Json> = Vec::new();
        assert(json::jsons(none@) =~= Seq::empty());
        whole = whole.with("fields", Json::Array(none));
    }
    let ghost second = whole@;
    let mut fields = match whole.get_array("fields") {
        Some(fields) => json::clone_items(fields),
        None => {
            *item = whole;
            return Err(shape.complain(2));
        },
    };
    let ghost start = json::jsons(fields@);
    let ghost added = prepared@.fields;
    let mut found: Vec<String> = Vec::new();
    let mut i: usize = 0;
    assert(crate::seqs::texts(found@) =~= Seq::empty());
    while i < prepared.fields.len()
        invariant
            i <= prepared.fields@.len(),
            added == destinations(prepared.fields@),
            (json::jsons(fields@), crate::seqs::texts(found@)) == merged_fields(
                shape,
                start,
                section@,
                added.take(i as int),
            ),
        decreases prepared.fields@.len() - i,
    {
        proof {
            assert(added.take(i + 1).drop_last() == added.take(i as int));
            assert(added.take(i + 1).last() == prepared.fields@[i as int]@);
        }
        let ghost so_far = crate::seqs::texts(found@);
        let id = merge_field(shape, &mut fields, &section, &prepared.fields[i]);
        let ghost own = id@;
        found.push(id);
        assert(crate::seqs::texts(found@) =~= so_far.push(own));
        i += 1;
    }
    whole = whole.with("fields", Json::Array(fields));
    *item = whole;
    Ok((section, found))
}

/// Merges the prepared fields into an item as the `op` command line tool writes it.
pub fn merge_prepared_fields(item: &mut Json, prepared: &PreparedCredential) -> (r: Result<
    (String, Vec<String>),
    Failure,
>)
    ensures
        final(item)@ == merged(ItemShape::Cli, old(item)@, prepared@).0,
        reported(r, merged(ItemShape::Cli, old(item)@, prepared@).1),
{
    merge_into(ItemShape::Cli, item, prepared)
}

/// Merges the prepared fields into an item as the SDK writes it.
pub fn merge_prepared_sdk_fields(item: &mut Json, prepared: &PreparedCredential) -> (r: Result<
    (String, Vec<String>),
    Failure,
>)
    ensures
        final(item)@ == merged(ItemShape::Sdk, old(item)@, prepared@).0,
        reported(r, merged(ItemShape::Sdk, old(item)@, prepared@).1),
{
    merge_into(ItemShape::Sdk, item, prepared)
}

/// Whether `stored` is the field for `field` in the section: it carries its label, its section,
/// the identifier and the value, and is concealed.
pub open spec fn stores(
    shape: ItemShape,
    stored: JsonView,
    section: Seq<char>,
    field: DestinationView,
    id: Seq<char>,
) -> bool {
    &&& json::text_field(stored, shape.label()) == Some(field.label)
    &&& shape.section_of(stored) == Some(section)
    &&& json::text_field(stored, "id"@) == Some(id)
    &&& json::text_field(stored, "value"@) == Some(field.value)
    &&& shape.is_concealed(stored)
}

/// The keys of a field are different.
pub(crate) proof fn lemma_keys_differ()
    ensures
        "id"@ != "section"@,
        "id"@ != "type"@,
        "id"@ != "label"@,
        "id"@ != "value"@,
        "id"@ != "title"@,
        "id"@ != "sectionId"@,
        "id"@ != "fieldType"@,
        "section"@ != "type"@,
        "section"@ != "label"@,
        "section"@ != "value"@,
        "label"@ != "value"@,
        "title"@ != "sectionId"@,
        "title"@ != "fieldType"@,
        "title"@ != "value"@,
        "sectionId"@ != "fieldType"@,
        "sectionId"@ != "value"@,
        "type"@ != "label"@,
        "type"@ != "value"@,
        "fieldType"@ != "value"@,
{
    reveal_strlit("id");
    reveal_strlit("section");
    reveal_strlit("type");
    reveal_strlit("label");
    reveal_strlit("value");
    reveal_strlit("title");
    reveal_strlit("sectionId");
    reveal_strlit("fieldType");
    assert("id"@.len() == 2 && "section"@.len() == 7 && "type"@.len() == 4 && "label"@.len() == 5);
    assert("value"@.len() == 5 && "title"@.len() == 5 && "sectionId"@.len() == 9);
    assert("fieldType"@.len() == 9);
    assert("label"@[0] != "value"@[0] && "title"@[0] != "value"@[0]);
    assert("sectionId"@[0] != "fieldType"@[0]);
}

/// A filled field stores what it was filled with.
#[verifier::rlimit(40)]
pub(crate) proof fn lemma_filled(
    shape: ItemShape,
    base: JsonView,
    id: Seq<char>,
    section: Seq<char>,
    field: DestinationView,
)
    requires
        base is Object,
        json::well_ordered(base),
    ensures
        stores(shape, shape.filled(base, id, section, field), section, field, id),
{
    lemma_keys_differ();
    let own = JsonView::object();
    json::lemma_object_ordered();
    json::lemma_with(own, "id"@, JsonView::Text(section), "id"@);
    let linked = own.with("id"@, JsonView::Text(section));
    let a = base.with("id"@, JsonView::Text(id));
    json::lemma_with(base, "id"@, JsonView::Text(id), "id"@);
    match shape {
        ItemShape::Cli => {
            let b = a.with("section"@, linked);
            json::lemma_with(a, "section"@, linked, "id"@);
            let c = b.with("type"@, JsonView::Text("CONCEALED"@));
            json::lemma_with(b, "type"@, JsonView::Text("CONCEALED"@), "id"@);
            json::lemma_with(b, "type"@, JsonView::Text("CONCEALED"@), "section"@);
            let d = c.with("label"@, JsonView::Text(field.label));
            json::lemma_with(c, "label"@, JsonView::Text(field.label), "id"@);
            json::lemma_with(c, "label"@, JsonView::Text(field.label), "section"@);
            json::lemma_with(c, "label"@, JsonView::Text(field.label), "type"@);
            json::lemma_with(d, "value"@, JsonView::Text(field.value), "type"@);
            json::lemma_with(d, "value"@, JsonView::Text(field.value), "id"@);
            json::lemma_with(d, "value"@, JsonView::Text(field.value), "section"@);
            json::lemma_with(d, "value"@, JsonView::Text(field.value), "label"@);
        },
        ItemShape::Sdk => {
            let b = a.with("title"@, JsonView::Text(field.label));
            json::lemma_with(a, "title"@, JsonView::Text(field.label), "id"@);
            let c = b.with("sectionId"@, JsonView::Text(section));
            json::lemma_with(b, "sectionId"@, JsonView::Text(section), "id"@);
            json::lemma_with(b, "sectionId"@, JsonView::Text(section), "title"@);
            let d = c.with("fieldType"@, JsonView::Text("Concealed"@));
            json::lemma_with(c, "fieldType"@, JsonView::Text("Concealed"@), "id"@);
            json::lemma_with(c, "fieldType"@, JsonView::Text("Concealed"@), "title"@);
            json::lemma_with(c, "fieldType"@, JsonView::Text("Concealed"@), "sectionId"@);
            json::lemma_with(d, "value"@, JsonView::Text(field.value), "id"@);
            json::lemma_with(d, "value"@, JsonView::Text(field.value), "title"@);
            json::lemma_with(d, "value"@, JsonView::Text(field.value), "sectionId"@);
            json::lemma_with(d, "value"@, JsonView::Text(field.value), "fieldType"@);
        },
    }
}

/// Objects stay ordered when entries are put in.
proof fn lemma_with_ordered(j: JsonView, key: Seq<char>, v: JsonView)
    requires
        json::well_ordered(j),
    ensures
        json::well_ordered(j.with(key, v)),
{
    reveal(JsonView::with);
    if j is Object {
        json::lemma_with(j, key, v, key);
    }
}

/// A filled field is ordered.
proof fn lemma_filled_ordered(
    shape: ItemShape,
    base: JsonView,
    id: Seq<char>,
    section: Seq<char>,
    field: DestinationView,
)
    requires
        json::well_ordered(base),
    ensures
        json::well_ordered(shape.filled(base, id, section, field)),
{
    let linked = JsonView::object().with("id"@, JsonView::Text(section));
    let a = base.with("id"@, JsonView::Text(id));
    lemma_with_ordered(base, "id"@, JsonView::Text(id));
    match shape {
        ItemShape::Cli => {
            let b = a.with("section"@, linked);
            lemma_with_ordered(a, "section"@, linked);
            let c = b.with("type"@, JsonView::Text("CONCEALED"@));
            lemma_with_ordered(b, "type"@, JsonView::Text("CONCEALED"@));
            let d = c.with("label"@, JsonView::Text(field.label));
            lemma_with_ordered(c, "label"@, JsonView::Text(field.label));
            lemma_with_ordered(d, "value"@, JsonView::Text(field.value));
        },
        ItemShape::Sdk => {
            let b = a.with("title"@, JsonView::Text(field.label));
            lemma_with_ordered(a, "title"@, JsonView::Text(field.label));
            let c = b.with("sectionId"@, JsonView::Text(section));
            lemma_with_ordered(b, "sectionId"@, JsonView::Text(section));
            let d = c.with("fieldType"@, JsonView::Text("Concealed"@));
            lemma_with_ordered(c, "fieldType"@, JsonView::Text("Concealed"@));
            lemma_with_ordered(d, "value"@, JsonView::Text(field.value));
        },
    }
}

/// `destination_index` finds a destination.
proof fn lemma_destination_index(
    shape: ItemShape,
    fields: Seq<JsonView>,
    label: Seq<char>,
    section: Seq<char>,
    from: int,
)
    requires
        0 <= from,
    ensures
        destination_index(shape, fields, label, section, from) matches Some(i) ==> from <= i
            < fields.len() && is_destination(shape, fields[i], label, section),
    decreases fields.len() - from,
{
    if from < fields.len() && !is_destination(shape, fields[from], label, section) {
        lemma_destination_index(shape, fields, label, section, from + 1);
    }
}

/// Storing one field keeps every field that is not its destination.
proof fn lemma_merged_field(
    shape: ItemShape,
    fields: Seq<JsonView>,
    section: Seq<char>,
    field: DestinationView,
)
    requires
        forall|i: int| 0 <= i < fields.len() ==> json::well_ordered(#[trigger] fields[i]),
    ensures
        ({
            let (now, id) = merged_field(shape, fields, section, field);
            &&& now.len() >= fields.len()
            &&& forall|i: int| 0 <= i < now.len() ==> json::well_ordered(#[trigger] now[i])
            &&& forall|i: int|
                0 <= i < fields.len() && !is_destination(shape, fields[i], field.label, section)
                    ==> #[trigger] now[i] == fields[i]
            &&& exists|i: int| 0 <= i < now.len() && stores(shape, #[trigger] now[i], section, field, id)
        }),
{
    json::lemma_object_ordered();
    let (now, id) = merged_field(shape, fields, section, field);
    lemma_destination_index(shape, fields, field.label, section, 0);
    match destination_index(shape, fields, field.label, section, 0) {
        Some(i) => {
            lemma_filled(shape, fields[i], id, section, field);
            lemma_filled_ordered(shape, fields[i], id, section, field);
            assert(stores(shape, now[i], section, field, id));
        },
        None => {
            lemma_filled(shape, JsonView::object(), id, section, field);
            lemma_filled_ordered(shape, JsonView::object(), id, section, field);
            assert(stores(shape, now[fields.len() as int], section, field, id));
        },
    }
}

/// A merge keeps every field that is no destination of it, in its place.
pub proof fn law_merge_keeps_other_fields(
    shape: ItemShape,
    fields: Seq<JsonView>,
    section: Seq<char>,
    added: Seq<DestinationView>,
)
    requires
        forall|i: int| 0 <= i < fields.len() ==> json::well_ordered(#[trigger] fields[i]),
    ensures
        ({
            let (now, found) = merged_fields(shape, fields, section, added);
            &&& found.len() == added.len()
            &&& now.len() >= fields.len()
            &&& forall|i: int| 0 <= i < now.len() ==> json::well_ordered(#[trigger] now[i])
            &&& forall|i: int|
                0 <= i < fields.len() && (forall|k: int|
                    0 <= k < added.len() ==> !is_destination(
                        shape,
                        fields[i],
                        (#[trigger] added[k]).label,
                        section,
                    )) ==> #[trigger] now[i] == fields[i]
        }),
    decreases added.len(),
{
    if added.len() > 0 {
        let front = added.drop_last();
        law_merge_keeps_other_fields(shape, fields, section, front);
        let (kept, found) = merged_fields(shape, fields, section, front);
        lemma_merged_field(shape, kept, section, added.last());
        let (now, id) = merged_field(shape, kept, section, added.last());
        assert forall|i: int|
            0 <= i < fields.len() && (forall|k: int|
                0 <= k < added.len() ==> !is_destination(
                    shape,
                    fields[i],
                    (#[trigger] added[k]).label,
                    section,
                )) implies #[trigger] now[i] == fields[i] by {
            assert forall|k: int| 0 <= k < front.len() implies !is_destination(
                shape,
                fields[i],
                (#[trigger] front[k]).label,
                section,
            ) by {
                assert(front[k] == added[k]);
            }
            assert(kept[i] == fields[i]);
            assert(added.last() == added[added.len() - 1]);
        }
    }
}

/// After a merge each added field is stored, concealed, in its section under the identifier that
/// the merge reports, unless a later one with the same label, up to ASCII case, took its place.
pub proof fn law_merge_stores(
    shape: ItemShape,
    fields: Seq<JsonView>,
    section: Seq<char>,
    added: Seq<DestinationView>,
    k: int,
)
    requires
        forall|i: int| 0 <= i < fields.len() ==> json::well_ordered(#[trigger] fields[i]),
        0 <= k < added.len(),
        forall|j: int|
            k < j < added.len() ==> text::lowered((#[trigger] added[j]).label) != text::lowered(
                added[k].label,
            ),
    ensures
        ({
            let (now, found) = merged_fields(shape, fields, section, added);
            &&& found.len() == added.len()
            &&& exists|i: int|
                0 <= i < now.len() && stores(shape, #[trigger] now[i], section, added[k], found[k])
        }),
    decreases added.len(),
{
    let front = added.drop_last();
    law_merge_keeps_other_fields(shape, fields, section, added);
    law_merge_keeps_other_fields(shape, fields, section, front);
    let (kept, found) = merged_fields(shape, fields, section, front);
    let (now, id) = merged_field(shape, kept, section, added.last());
    lemma_merged_field(shape, kept, section, added.last());
    if k == added.len() - 1 {
        let i = choose|i: int|
            0 <= i < now.len() && stores(shape, #[trigger] now[i], section, added.last(), id);
        assert(stores(shape, now[i], section, added[k], found.push(id)[k]));
    } else {
        assert forall|j: int| k < j < front.len() implies text::lowered((#[trigger] front[j]).label)
            != text::lowered(front[k].label) by {
            assert(front[j] == added[j]);
        }
        law_merge_stores(shape, fields, section, front, k);
        let i = choose|i: int|
            0 <= i < kept.len() && stores(shape, #[trigger] kept[i], section, front[k], found[k]);
        assert(added[added.len() - 1] == added.last());
        assert(!is_destination(shape, kept[i], added.last().label, section));
        assert(now[i] == kept[i]);
        assert(found.push(id)[k] == found[k]);
        assert(stores(shape, now[i], section, added[k], found.push(id)[k]));
    }
}

/// A merge changes nothing of an item but its sections and its fields.
pub proof fn law_merge_keeps_other_keys(
    shape: ItemShape,
    item: JsonView,
    prepared: PreparedView,
    key: Seq<char>,
)
    requires
        json::well_ordered(item),
        key != "sections"@,
        key != "fields"@,
    ensures
        json::field(merged(shape, item, prepared).0, key) == json::field(item, key),
{
    if item is Object {
        let none = JsonView::Array(Seq::empty());
        let first = with_list(item, "sections"@);
        json::lemma_with(item, "sections"@, none, key);
        if let Some(sections) = json::items_field(first, "sections"@) {
            let (now, section) = merged_sections(shape, sections, prepared.section_label);
            let placed = first.with("sections"@, JsonView::Array(now));
            json::lemma_with(first, "sections"@, JsonView::Array(now), key);
            json::lemma_with(placed, "fields"@, none, key);
            let second = with_list(placed, "fields"@);
            if let Some(fields) = json::items_field(second, "fields"@) {
                let (stored, found) = merged_fields(shape, fields, section, prepared.fields);
                json::lemma_with(second, "fields"@, JsonView::Array(stored), key);
            }
        }
    }
}

/// Identifiers for new fields: for each the first candidate that no earlier field has.
pub open spec fn new_ids(fields: Seq<DestinationView>) -> Seq<Seq<char>>
    decreases fields.len(),
{
    if fields.len() == 0 {
        Seq::empty()
    } else {
        let found = new_ids(fields.drop_last());
        found.push(ids::fresh_id(taken_ids(found), ids::label_id(fields.last().label, "field"@)))
    }
}

/// Identifiers as ones that are in use.
pub open spec fn taken_ids(found: Seq<Seq<char>>) -> Seq<Option<Seq<char>>> {
    Seq::new(found.len(), |i: int| Some(found[i]))
}

/// The identifiers for new fields are all different.
pub proof fn law_new_ids_differ(fields: Seq<DestinationView>)
    ensures
        new_ids(fields).len() == fields.len(),
        new_ids(fields).no_duplicates(),
    decreases fields.len(),
{
    if fields.len() > 0 {
        let found = new_ids(fields.drop_last());
        law_new_ids_differ(fields.drop_last());
        let base = ids::label_id(fields.last().label, "field"@);
        ids::law_fresh_id_is_free(taken_ids(found), base);
        let id = ids::fresh_id(taken_ids(found), base);
        assert forall|i: int| 0 <= i < found.len() implies found[i] != id by {
            assert(taken_ids(found)[i] == Some(found[i]));
        }
    }
}

/// Identifiers for new fields.
pub fn unique_field_ids(fields: &[DestinationField]) -> (r: Vec<String>)
    ensures
        crate::seqs::texts(r@) == new_ids(destinations(fields@)),
{
    let ghost all = destinations(fields@);
    let mut used: Vec<Option<String>> = Vec::new();
    let mut r: Vec<String> = Vec::new();
    let mut i: usize = 0;
    assert(crate::seqs::texts(r@) =~= new_ids(all.take(0)));
    while i < fields.len()
        invariant
            i <= fields@.len(),
            all == destinations(fields@),
            crate::seqs::texts(r@) == new_ids(all.take(i as int)),
            ids::used_ids(used@) == taken_ids(crate::seqs::texts(r@)),
        decreases fields@.len() - i,
    {
        let ghost before = crate::seqs::texts(r@);
        let ghost taken = ids::used_ids(used@);
        proof {
            assert(all.take(i + 1).drop_last() == all.take(i as int));
        }
        let id = ids::free_id(&used, &ids::stable_id(&fields[i].label, "field"));
        let ghost own = id@;
        let copy = id.clone();
        used.push(Some(copy));
        r.push(id);
        assert(crate::seqs::texts(r@) =~= before.push(own));
        assert(used@.last().deep_view() == Some(own));
        assert(ids::used_ids(used@) =~= taken.push(Some(own)));
        assert(ids::used_ids(used@) =~= taken_ids(before.push(own)));
        i += 1;
    }
    r
}

/// The fields of a new item, filled from nothing.
pub open spec fn new_fields(
    shape: ItemShape,
    section: Seq<char>,
    fields: Seq<DestinationView>,
    found: Seq<Seq<char>>,
) -> Seq<JsonView> {
    Seq::new(fields.len(), |i: int| shape.filled(JsonView::object(), found[i], section, fields[i]))
}

/// The fields of a new item.
fn build_fields(shape: ItemShape, section: &str, fields: &[DestinationField], found: &[String]) -> (r:
    Vec<Json>)
    requires
        fields@.len() == found@.len(),
    ensures
        json::jsons(r@) == new_fields(
            shape,
            section@,
            destinations(fields@),
            crate::seqs::texts(found@),
        ),
{
    let ghost all = destinations(fields@);
    let ghost own = crate::seqs::texts(found@);
    let mut r: Vec<Json> = Vec::new();
    let mut i: usize = 0;
    while i < fields.len()
        invariant
            i <= fields@.len() == found@.len(),
            all == destinations(fields@),
            own == crate::seqs::texts(found@),
            r@.len() == i,
            forall|j: int|
                0 <= j < i ==> #[trigger] r@[j]@ == shape.filled(
                    JsonView::object(),
                    own[j],
                    section@,
                    all[j],
                ),
        decreases fields@.len() - i,
    {
        let field = fill_field(shape, Json::object(), &found[i], section, &fields[i]);
        r.push(field);
        i += 1;
    }
    assert(json::jsons(r@) =~= new_fields(shape, section@, all, own));
    r
}

/// A list with one value.
fn single(value: Json) -> (r: Json)
    ensures
        r@ == JsonView::Array(seq![value@]),
{
    broadcast use json::lemma_json_view;

    let mut list: Vec<Json> = Vec::new();
    list.push(value);
    assert(json::jsons(list@) =~= seq![value@]);
    Json::Array(list)
}

/// The template of a new item as the `op` command line tool takes it.
pub open spec fn create_template(title: Seq<char>, prepared: PreparedView) -> JsonView {
    let section = ids::label_id(prepared.section_label, "cloudflare"@);
    JsonView::object().with("title"@, JsonView::Text(title)).with(
        "category"@,
        JsonView::Text("API_CREDENTIAL"@),
    ).with(
        "sections"@,
        JsonView::Array(seq![ItemShape::Cli.section(section, prepared.section_label)]),
    ).with(
        "fields"@,
        JsonView::Array(
            new_fields(ItemShape::Cli, section, prepared.fields, new_ids(prepared.fields)),
        ),
    )
}

/// The template of a new item as the `op` command line tool takes it, with the identifiers of its
/// section and of its fields.
pub fn build_create_template(item_title: &str, prepared: &PreparedCredential) -> (r: (
    Json,
    String,
    Vec<String>,
))
    ensures
        r.0@ == create_template(item_title@, prepared@),
        r.1@ == ids::label_id(prepared.section_label@, "cloudflare"@),
        crate::seqs::texts(r.2@) == new_ids(prepared@.fields),
{
    broadcast use json::lemma_json_view;

    let section = ids::stable_id(&prepared.section_label, "cloudflare");
    let found = unique_field_ids(&prepared.fields);
    proof {
        law_new_ids_differ(prepared@.fields);
        assert(crate::seqs::texts(found@).len() == found@.len());
    }
    let fields = build_fields(ItemShape::Cli, &section, &prepared.fields, &found);
    let sections = single(build_section(ItemShape::Cli, &section, &prepared.section_label));
    let template = Json::object().with("title", text_json(item_title)).with(
        "category",
        text_json("API_CREDENTIAL"),
    ).with("sections", sections).with("fields", Json::Array(fields));
    (template, section, found)
}

/// The parameters of a new item as the SDK takes them.
pub open spec fn create_params(title: Seq<char>, prepared: PreparedView, vault: Seq<char>) -> JsonView {
    let section = ids::label_id(prepared.section_label, "cloudflare"@);
    JsonView::object().with("category"@, JsonView::Text("ApiCredentials"@)).with(
        "vaultId"@,
        JsonView::Text(vault),
    ).with("title"@, JsonView::Text(title)).with(
        "sections"@,
        JsonView::Array(seq![ItemShape::Sdk.section(section, prepared.section_label)]),
    ).with(
        "fields"@,
        JsonView::Array(
            new_fields(ItemShape::Sdk, section, prepared.fields, new_ids(prepared.fields)),
        ),
    )
}

/// The parameters of a new item as the SDK takes them, with the identifiers of its section and of
/// its fields.
pub fn build_cloudflare_sdk_create_params(
    item_title: &str,
    prepared: &PreparedCredential,
    vault_id: &str,
) -> (r: (Json, String, Vec<String>))
    ensures
        r.0@ == create_params(item_title@, prepared@, vault_id@),
        r.1@ == ids::label_id(prepared.section_label@, "cloudflare"@),
        crate::seqs::texts(r.2@) == new_ids(prepared@.fields),
{
    broadcast use json::lemma_json_view;

    let section = ids::stable_id(&prepared.section_label, "cloudflare");
    let found = unique_field_ids(&prepared.fields);
    proof {
        law_new_ids_differ(prepared@.fields);
        assert(crate::seqs::texts(found@).len() == found@.len());
    }
    let fields = build_fields(ItemShape::Sdk, &section, &prepared.fields, &found);
    let sections = single(build_section(ItemShape::Sdk, &section, &prepared.section_label));
    let params = Json::object().with("category", text_json("ApiCredentials")).with(
        "vaultId",
        text_json(vault_id),
    ).with("title", text_json(item_title)).with("sections", sections).with(
        "fields",
        Json::Array(fields),
    );
    (params, section, found)
}

/// Whether an item of the `op` command line tool may be edited: it names no category, or the one
/// for API credentials.
pub fn validate_cloudflare_item_category(item: &Json) -> (r: Result<(), Failure>)
    ensures
        match json::text_field(item@, "category"@) {
            Some(category) => if category == "API_CREDENTIAL"@ {
                r is Ok
            } else {
                crate::failure::failed(
                    r,
                    "Refusing to edit 1Password item category "@ + text::debugged(category)
                        + "; cloudflare-credential only updates API_CREDENTIAL items."@,
                )
            },
            None => r is Ok,
        },
{
    if let Some(category) = item.get_str("category") {
        if !text::same(category, "API_CREDENTIAL") {
            return Err(
                Failure::new(
                    "Refusing to edit 1Password item category ".to_owned().concat(
                        &text::debug_text(category),
                    ).concat("; cloudflare-credential only updates API_CREDENTIAL items."),
                ),
            );
        }
    }
    Ok(())
}

/// Whether an item of the SDK may be edited: it names the category for API credentials.
pub fn validate_cloudflare_sdk_item_category(item: &Json) -> (r: Result<(), Failure>)
    ensures
        if json::text_field(item@, "category"@) == Some("ApiCredentials"@) {
            r is Ok
        } else {
            crate::failure::failed(
                r,
                "Refusing to edit non-ApiCredentials item through the Desktop SDK"@,
            )
        },
{
    if let Some(category) = item.get_str("category") {
        if text::same(category, "ApiCredentials") {
            return Ok(());
        }
    }
    Err(
        Failure::new("Refusing to edit non-ApiCredentials item through the Desktop SDK".to_owned()),
    )
}

/// Where a stored credential can be read.
#[derive(Debug)]
pub struct StoredCredential {
    pub references: Vec<String>,
}

/// The reference to a field of an item.
pub open spec fn reference(
    vault: Seq<char>,
    item: Seq<char>,
    section: Seq<char>,
    field: Seq<char>,
) -> Seq<char> {
    "op://"@ + vault + "/"@ + item + "/"@ + section + "/"@ + field
}

/// The references to fields of one section of an item.
pub open spec fn references(
    vault: Seq<char>,
    item: Seq<char>,
    section: Seq<char>,
    fields: Seq<Seq<char>>,
) -> Seq<Seq<char>> {
    Seq::new(fields.len(), |i: int| reference(vault, item, section, fields[i]))
}

/// The reference to a field of an item.
pub fn build_reference(vault: &str, item: &str, section: &str, field: &str) -> (r: String)
    ensures
        r@ == reference(vault@, item@, section@, field@),
{
    "op://".to_owned().concat(vault).concat("/").concat(item).concat("/").concat(section).concat(
        "/",
    ).concat(field)
}

/// The references to fields of one section of an item.
fn build_references(vault: &str, item: &str, section: &str, fields: &[String]) -> (r: Vec<String>)
    ensures
        crate::seqs::texts(r@) == references(vault@, item@, section@, crate::seqs::texts(fields@)),
{
    let ghost all = crate::seqs::texts(fields@);
    let mut r: Vec<String> = Vec::new();
    let mut i: usize = 0;
    while i < fields.len()
        invariant
            i <= fields@.len(),
            all == crate::seqs::texts(fields@),
            r@.len() == i,
            forall|j: int|
                0 <= j < i ==> #[trigger] r@[j]@ == reference(vault@, item@, section@, all[j]),
        decreases fields@.len() - i,
    {
        let own = build_reference(vault, item, section, &fields[i]);
        r.push(own);
        i += 1;
    }
    assert(crate::seqs::texts(r@) =~= references(vault@, item@, section@, all));
    r
}

/// The references to what the SDK stored.
pub fn build_sdk_stored_credential(
    item: &Json,
    vault_id: &str,
    section_id: &str,
    field_ids: &[String],
) -> (r: Result<StoredCredential, Failure>)
    ensures
        match json::text_field(item@, "id"@) {
            Some(id) => r matches Ok(stored) && crate::seqs::texts(stored.references@)
                == references(vault_id@, id, section_id@, crate::seqs::texts(field_ids@)),
            None => crate::failure::failed(r, "Desktop SDK item response did not include id"@),
        },
{
    match item.get_str("id") {
        Some(id) => Ok(
            StoredCredential { references: build_references(vault_id, id, section_id, field_ids) },
        ),
        None => Err(Failure::new("Desktop SDK item response did not include id".to_owned())),
    }
}

/// The identifier of the vault that holds an item.
pub open spec fn vault_id_of(item: JsonView) -> Option<Seq<char>> {
    match json::field(item, "vault"@) {
        Some(vault) => json::text_field(vault, "id"@),
        None => None,
    }
}

/// The references to what the `op` command line tool stored.
pub fn build_stored_credential(item: &Json, section_id: &str, field_ids: &[String]) -> (r: Result<
    StoredCredential,
    Failure,
>)
    ensures
        match (vault_id_of(item@), json::text_field(item@, "id"@)) {
            (Some(vault), Some(id)) => r matches Ok(stored) && crate::seqs::texts(stored.references@)
                == references(vault, id, section_id@, crate::seqs::texts(field_ids@)),
            (None, _) => crate::failure::failed(r, "op item output did not include vault.id"@),
            (Some(_), None) => crate::failure::failed(r, "op item output did not include id"@),
        },
{
    let vault_id = match item.get("vault") {
        Some(vault) => vault.get_str("id"),
        None => None,
    };
    let vault_id = match vault_id {
        Some(id) => id,
        None => return Err(Failure::new("op item output did not include vault.id".to_owned())),
    };
    match item.get_str("id") {
        Some(id) => Ok(
            StoredCredential { references: build_references(vault_id, id, section_id, field_ids) },
        ),
        None => Err(Failure::new("op item output did not include id".to_owned())),
    }
}

/// A section or field label as it stands in a reference.
pub fn secret_reference_component(value: &str) -> (r: String)
    ensures
        r@ == ids::label_id(value@, "field"@),
{
    ids::stable_id(value, "field")
}

/// The references that the labels of a credential give.
pub open spec fn label_references(vault: Seq<char>, item: Seq<char>, prepared: PreparedView) -> Seq<
    Seq<char>,
> {
    Seq::new(
        prepared.fields.len(),
        |i: int|
            reference(
                vault,
                item,
                ids::label_id(prepared.section_label, "field"@),
                ids::label_id(prepared.fields[i].label, "field"@),
            ),
    )
}

/// The references that the labels of a credential give.
pub fn build_label_references(vault: &str, item: &str, prepared: &PreparedCredential) -> (r: Vec<
    String,
>)
    ensures
        crate::seqs::texts(r@) == label_references(vault@, item@, prepared@),
{
    let section = secret_reference_component(&prepared.section_label);
    let ghost all = prepared@.fields;
    let mut r: Vec<String> = Vec::new();
    let mut i: usize = 0;
    while i < prepared.fields.len()
        invariant
            i <= prepared.fields@.len(),
            all == destinations(prepared.fields@),
            section@ == ids::label_id(prepared.section_label@, "field"@),
            r@.len() == i,
            forall|j: int|
                0 <= j < i ==> #[trigger] r@[j]@ == reference(
                    vault@,
                    item@,
                    section@,
                    ids::label_id(all[j].label, "field"@),
                ),
        decreases prepared.fields@.len() - i,
    {
        let own = build_reference(
            vault,
            item,
            &section,
            &secret_reference_component(&prepared.fields[i].label),
        );
        r.push(own);
        i += 1;
    }
    assert(crate::seqs::texts(r@) =~= label_references(vault@, item@, prepared@));
    r
}

/// The references to an edited item: those that its output gave, or, where it gave none, those
/// that the labels give.
pub fn stored_or_label_references(
    stored: StoredCredential,
    vault_id: &str,
    item_id: &str,
    prepared: &PreparedCredential,
) -> (r: StoredCredential)
    ensures
        if stored.references@.len() == 0 {
            crate::seqs::texts(r.references@) == label_references(vault_id@, item_id@, prepared@)
        } else {
            r == stored
        },
{
    if stored.references.len() == 0 {
        StoredCredential { references: build_label_references(vault_id, item_id, prepared) }
    } else {
        stored
    }
}

} // verus!
