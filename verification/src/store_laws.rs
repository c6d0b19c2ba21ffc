//! What holds of credentials as they are prepared and stored, of their identifiers and references,
//! and of the names that patterns accept.

use vstd::prelude::*;
use vstd::string::*;

use crate::cloudflare;
use crate::cloudflare::{CloudflareCredentialMode, CloudflareCredentialPreset};
use crate::cloudflare_item;
use crate::cloudflare_item::{DestinationView, ItemShape, PreparedView};
use crate::cloudflare_store;
use crate::ids;
use crate::json;
use crate::json::JsonView;
use crate::pattern;
use crate::seqs;
use crate::text;

verus! {

broadcast use crate::seqs::group_seqs;

/// An item that is there is never made anew and one that is not is never changed: `create` wants
/// that there is none, `update` that there is one, and `upsert` takes either.
pub proof fn law_item_action(mode: CloudflareCredentialMode, exists: bool)
    ensures
        cloudflare::item_action(mode, exists) is Ok <==> (mode is Create ==> !exists) && (mode
            is Update ==> exists),
        cloudflare::item_action(mode, exists) matches Ok(action) ==> (action is Update <==> exists)
            && (action is Create <==> !exists),
{
}

/// The fields for secrets pass where every label has something but blanks and no value is empty.
pub proof fn law_fields_pass(fields: Seq<DestinationView>)
    ensures
        cloudflare::fields_flaw(fields) is Ok <==> forall|i: int|
            0 <= i < fields.len() ==> text::trimmed((#[trigger] fields[i]).label).len() > 0
                && fields[i].value.len() > 0,
    decreases fields.len(),
{
    if fields.len() > 0 {
        let front = fields.drop_last();
        let n = front.len() as int;
        law_fields_pass(front);
        assert(fields[n] == fields.last());
        assert forall|i: int| 0 <= i < n implies #[trigger] front[i] == fields[i] by {}
        if cloudflare::fields_flaw(fields) is Ok {
            assert forall|i: int| 0 <= i < fields.len() implies text::trimmed(
                (#[trigger] fields[i]).label,
            ).len() > 0 && fields[i].value.len() > 0 by {
                if i < n {
                    assert(front[i] == fields[i]);
                }
            }
        }
    }
}

/// An API token becomes one field with the secret, where that is not empty: in the section and
/// under the label that are asked for, or else in `Cloudflare` under `CLOUDFLARE_API_TOKEN`.
pub proof fn law_token_prepared(
    section: Option<Seq<char>>,
    field: Option<Seq<char>>,
    raw: bool,
    value: Result<JsonView, Seq<char>>,
    input: Seq<u8>,
    secret: Seq<char>,
)
    requires
        cloudflare::single_secret(value, input, field) == Ok::<Seq<char>, Seq<Seq<char>>>(secret),
    ensures
        ({
            let prepared = cloudflare::prepared_credential(
                CloudflareCredentialPreset::ApiToken,
                section,
                field,
                raw,
                value,
                input,
            );
            &&& prepared is Ok <==> secret.len() > 0
            &&& prepared matches Ok(p) ==> p.fields.len() == 1 && p.fields[0].value == secret
                && (section matches Some(s) ==> p.section_label == s) && (section is None
                ==> p.section_label == "Cloudflare"@) && (field matches Some(f)
                ==> p.fields[0].label == f) && (field is None ==> p.fields[0].label
                == "CLOUDFLARE_API_TOKEN"@)
        }),
{
}

/// Worker secrets become the fields that the input has, where there are any and all pass, in the
/// section that is asked for or else in `Worker Secrets`.
pub proof fn law_worker_secrets_prepared(
    section: Option<Seq<char>>,
    field: Option<Seq<char>>,
    raw: bool,
    value: Result<JsonView, Seq<char>>,
    input: Seq<u8>,
    fields: Seq<DestinationView>,
)
    requires
        cloudflare::worker_fields(value, input, field) == Ok::<
            Seq<DestinationView>,
            Seq<Seq<char>>,
        >(fields),
    ensures
        ({
            let prepared = cloudflare::prepared_credential(
                CloudflareCredentialPreset::WorkerSecret,
                section,
                field,
                raw,
                value,
                input,
            );
            &&& prepared is Ok <==> fields.len() > 0 && (forall|i: int|
                0 <= i < fields.len() ==> text::trimmed((#[trigger] fields[i]).label).len() > 0
                    && fields[i].value.len() > 0)
            &&& prepared matches Ok(p) ==> p.fields == fields && (section matches Some(s)
                ==> p.section_label == s) && (section is None ==> p.section_label
                == "Worker Secrets"@)
        }),
{
    law_fields_pass(fields);
}

/// An API response must be JSON, and becomes one field: as it stands where that is asked for, and
/// else with what is secret in it hidden.
pub proof fn law_response_prepared(
    section: Option<Seq<char>>,
    field: Option<Seq<char>>,
    raw: bool,
    value: Result<JsonView, Seq<char>>,
    input: Seq<u8>,
)
    ensures
        ({
            let prepared = cloudflare::prepared_credential(
                CloudflareCredentialPreset::ApiResponse,
                section,
                field,
                raw,
                value,
                input,
            );
            &&& prepared is Ok <==> value is Ok
            &&& prepared matches Ok(p) ==> p.fields.len() == 1 && p.section_label == (match section {
                Some(s) => s,
                None => "API Responses"@,
            }) && p.fields[0].label == (match field {
                Some(f) => f,
                None => "response"@,
            }) && (raw ==> p.fields[0].value == json::printed_pretty(value->Ok_0)) && (!raw
                ==> exists|shown: JsonView| #[trigger]
                cloudflare::is_clean(shown) && p.fields[0].value == json::printed_pretty(shown))
        }),
{
    if let Ok(j) = value {
        cloudflare::law_redacted_is_clean(j);
        assert(cloudflare::is_clean(cloudflare::redacted(j)));
    }
}

/// Labels may be stored where neither the one of the section nor one of a field is blank.
pub proof fn law_labels_pass(prepared: PreparedView)
    ensures
        cloudflare_store::labels_check(prepared) is Ok <==> text::trimmed(
            prepared.section_label,
        ).len() > 0 && forall|i: int|
            0 <= i < prepared.fields.len() ==> text::trimmed(
                (#[trigger] prepared.fields[i]).label,
            ).len() > 0,
{
    let check = cloudflare_store::label_check();
    seqs::law_each(prepared.fields, check);
    assert forall|i: int| 0 <= i < prepared.fields.len() implies (check(
        #[trigger] prepared.fields[i],
    ) is Ok <==> text::trimmed(prepared.fields[i].label).len() > 0) by {}
}

/// An item may be changed where it is an API credential; the command line tool may leave the
/// category out, the SDK may not.
pub proof fn law_category(item: JsonView)
    ensures
        cloudflare_store::category_check(ItemShape::Cli, item) is Ok <==> (json::text_field(
            item,
            "category"@,
        ) is None || json::text_field(item, "category"@) == Some("API_CREDENTIAL"@)),
        cloudflare_store::category_check(ItemShape::Sdk, item) is Ok <==> json::text_field(
            item,
            "category"@,
        ) == Some("ApiCredentials"@),
{
}

/// A reference names the vault, the item, the section and the field, in this order; there is one
/// for each field, in theirs.
pub proof fn law_references(
    vault: Seq<char>,
    item: Seq<char>,
    section: Seq<char>,
    fields: Seq<Seq<char>>,
    i: int,
)
    requires
        0 <= i < fields.len(),
    ensures
        cloudflare_item::references(vault, item, section, fields).len() == fields.len(),
        cloudflare_item::references(vault, item, section, fields)[i] == seq![
            'o',
            'p',
            ':',
            '/',
            '/',
        ] + vault + seq!['/'] + item + seq!['/'] + section + seq!['/'] + fields[i],
{
    reveal_strlit("op://");
    reveal_strlit("/");
    assert("op://"@ =~= seq!['o', 'p', ':', '/', '/']);
    assert("/"@ =~= seq!['/']);
}

/// A rehearsal says first what would be done, with the title, the number of fields and the
/// section, and then gives one reference for each field.
pub proof fn law_rehearsal(
    update: bool,
    vault: Option<Seq<char>>,
    item: Seq<char>,
    prepared: PreparedView,
    i: int,
)
    ensures
        ({
            let said = cloudflare_store::rehearsal(update, vault, item, prepared);
            let count = text::decimal(prepared.fields.len());
            let verb = if update { "update"@ } else { "create"@ };
            let place = match vault {
                Some(own) => own,
                None => "<vault>"@,
            };
            &&& said.len() == prepared.fields.len() + 1
            &&& said[0] == "Would "@ + verb + " 1Password item "@ + text::debugged(item) + " with "@
                + count + " concealed field(s) in section "@ + text::debugged(
                prepared.section_label,
            )
            &&& 0 <= i < prepared.fields.len() ==> said[i + 1] == "op://"@ + place + "/"@ + item
                + "/"@ + ids::label_id(prepared.section_label, "field"@) + "/"@ + ids::label_id(
                prepared.fields[i].label,
                "field"@,
            )
        }),
{
}

/// The section of a label is the first that carries it, in whatever case, and the sections then
/// stay as they are.
pub proof fn law_section_found(
    shape: ItemShape,
    before: Seq<JsonView>,
    section: JsonView,
    behind: Seq<JsonView>,
    label: Seq<char>,
    own: Seq<char>,
    id: Seq<char>,
)
    requires
        json::text_field(section, if shape is Cli { "label"@ } else { "title"@ }) == Some(own),
        text::lowered(own) == text::lowered(label),
        json::text_field(section, "id"@) == Some(id),
        forall|i: int|
            0 <= i < before.len() ==> (json::text_field(
                #[trigger] before[i],
                if shape is Cli { "label"@ } else { "title"@ },
            ) matches Some(other) ==> text::lowered(other) != text::lowered(label)),
    ensures
        cloudflare_item::merged_sections(shape, before + seq![section] + behind, label) == (
            before + seq![section] + behind,
            id,
        ),
{
    lemma_section_found(shape, before, section, behind, label, id);
}

/// The first section with the label is found.
proof fn lemma_section_found(
    shape: ItemShape,
    before: Seq<JsonView>,
    section: JsonView,
    behind: Seq<JsonView>,
    label: Seq<char>,
    id: Seq<char>,
)
    requires
        cloudflare_item::named_section(shape, section, label) == Some(id),
        forall|i: int|
            0 <= i < before.len() ==> cloudflare_item::named_section(
                shape,
                #[trigger] before[i],
                label,
            ) is None,
    ensures
        cloudflare_item::section_choice(shape, before + seq![section] + behind, label) == Some(id),
    decreases before.len(),
{
    let all = before + seq![section] + behind;
    if before.len() == 0 {
        assert(all[0] == section);
    } else {
        let rest = before.drop_first();
        assert(all[0] == before[0]);
        assert forall|i: int| 0 <= i < rest.len() implies cloudflare_item::named_section(
            shape,
            #[trigger] rest[i],
            label,
        ) is None by {
            assert(rest[i] == before[i + 1]);
        }
        lemma_section_found(shape, rest, section, behind, label, id);
        assert(all.drop_first() =~= rest + seq![section] + behind);
    }
}

/// Without a section of that label none is chosen.
proof fn lemma_no_section(shape: ItemShape, sections: Seq<JsonView>, label: Seq<char>)
    requires
        forall|i: int|
            0 <= i < sections.len() ==> cloudflare_item::named_section(
                shape,
                #[trigger] sections[i],
                label,
            ) is None,
    ensures
        cloudflare_item::section_choice(shape, sections, label) is None,
    decreases sections.len(),
{
    if sections.len() > 0 {
        let rest = sections.drop_first();
        assert(cloudflare_item::named_section(shape, sections[0], label) is None);
        assert forall|i: int| 0 <= i < rest.len() implies cloudflare_item::named_section(
            shape,
            #[trigger] rest[i],
            label,
        ) is None by {
            assert(rest[i] == sections[i + 1]);
        }
        lemma_no_section(shape, rest, label);
    }
}

/// Where no section carries the label, one with it and a fresh identifier goes behind the others.
pub proof fn law_section_added(shape: ItemShape, sections: Seq<JsonView>, label: Seq<char>)
    requires
        forall|i: int|
            0 <= i < sections.len() ==> (json::text_field(
                #[trigger] sections[i],
                if shape is Cli { "label"@ } else { "title"@ },
            ) matches Some(other) ==> text::lowered(other) != text::lowered(label)),
    ensures
        ({
            let (now, id) = cloudflare_item::merged_sections(shape, sections, label);
            &&& now.len() == sections.len() + 1
            &&& now.subrange(0, sections.len() as int) == sections
            &&& json::text_field(now.last(), "id"@) == Some(id)
            &&& json::text_field(now.last(), if shape is Cli { "label"@ } else { "title"@ })
                == Some(label)
            &&& forall|i: int|
                0 <= i < sections.len() ==> json::text_field(#[trigger] sections[i], "id"@) != Some(
                    id,
                )
        }),
{
    assert forall|i: int| 0 <= i < sections.len() implies cloudflare_item::named_section(
        shape,
        #[trigger] sections[i],
        label,
    ) is None by {}
    lemma_no_section(shape, sections, label);
    let used = cloudflare_item::ids_of(sections);
    let base = ids::label_id(label, "cloudflare"@);
    let id = ids::fresh_id(used, base);
    ids::law_fresh_id_is_free(used, base);
    assert forall|i: int| 0 <= i < sections.len() implies json::text_field(
        #[trigger] sections[i],
        "id"@,
    ) != Some(id) by {
        assert(used[i] == json::text_field(sections[i], "id"@));
        if used[i] == Some(id) {
            assert(used.contains(Some(id)));
        }
    }
    let (now, _) = cloudflare_item::merged_sections(shape, sections, label);
    assert(now.subrange(0, sections.len() as int) =~= sections);
    lemma_section(shape, id, label);
}

/// A section has its identifier and its label.
proof fn lemma_section(shape: ItemShape, id: Seq<char>, label: Seq<char>)
    ensures
        json::text_field(shape.section(id, label), "id"@) == Some(id),
        json::text_field(shape.section(id, label), if shape is Cli { "label"@ } else { "title"@ })
            == Some(label),
{
    cloudflare_item::lemma_keys_differ();
    reveal_strlit("id");
    reveal_strlit("label");
    reveal_strlit("title");
    assert("id"@.len() == 2);
    assert("label"@.len() == 5);
    assert("title"@.len() == 5);
    json::lemma_object_ordered();
    let own = JsonView::object();
    json::lemma_with(own, "id"@, JsonView::Text(id), "id"@);
    json::lemma_with(
        own.with("id"@, JsonView::Text(id)),
        shape.label(),
        JsonView::Text(label),
        "id"@,
    );
}

/// A credential that is there already is changed in its place: no field is added.
pub proof fn law_field_replaced(
    shape: ItemShape,
    fields: Seq<JsonView>,
    section: Seq<char>,
    field: DestinationView,
    i: int,
)
    requires
        0 <= i < fields.len(),
        cloudflare_item::is_destination(shape, fields[i], field.label, section),
        forall|k: int|
            0 <= k < i ==> !cloudflare_item::is_destination(
                shape,
                #[trigger] fields[k],
                field.label,
                section,
            ),
    ensures
        ({
            let (now, id) = cloudflare_item::merged_field(shape, fields, section, field);
            &&& now.len() == fields.len()
            &&& forall|k: int| 0 <= k < fields.len() && k != i ==> #[trigger] now[k] == fields[k]
            &&& json::text_field(fields[i], "id"@) matches Some(own) ==> id == own
        }),
{
    lemma_first_destination(shape, fields, section, field.label, 0, i);
}

/// The first destination is found.
proof fn lemma_first_destination(
    shape: ItemShape,
    fields: Seq<JsonView>,
    section: Seq<char>,
    label: Seq<char>,
    from: int,
    i: int,
)
    requires
        0 <= from <= i < fields.len(),
        cloudflare_item::is_destination(shape, fields[i], label, section),
        forall|k: int|
            from <= k < i ==> !cloudflare_item::is_destination(
                shape,
                #[trigger] fields[k],
                label,
                section,
            ),
    ensures
        cloudflare_item::destination_index(shape, fields, label, section, from) == Some(i),
    decreases i - from,
{
    if from < i {
        lemma_first_destination(shape, fields, section, label, from + 1, i);
    }
}

/// A new item has its title and its category, one section with the label, and one concealed field
/// for each of the credential, in their order, with its label and its value and an identifier of
/// its own.
pub proof fn law_new_template(title: Seq<char>, prepared: PreparedView, i: int)
    ensures
        ({
            let item = cloudflare_item::create_template(title, prepared);
            let sections = json::items_field(item, "sections"@);
            let fields = json::items_field(item, "fields"@);
            let found = cloudflare_item::new_ids(prepared.fields);
            &&& json::text_field(item, "title"@) == Some(title)
            &&& json::text_field(item, "category"@) == Some("API_CREDENTIAL"@)
            &&& sections matches Some(s) && s.len() == 1 && json::text_field(s[0], "label"@)
                == Some(prepared.section_label)
            &&& fields matches Some(f) && f.len() == prepared.fields.len() && (0 <= i < f.len()
                ==> json::text_field(f[i], "label"@) == Some(prepared.fields[i].label)
                && json::text_field(f[i], "value"@) == Some(prepared.fields[i].value)
                && json::text_field(f[i], "type"@) == Some("CONCEALED"@) && json::text_field(
                f[i],
                "id"@,
            ) == Some(found[i]))
            &&& found.no_duplicates()
        }),
{
    let section = ids::label_id(prepared.section_label, "cloudflare"@);
    let found = cloudflare_item::new_ids(prepared.fields);
    cloudflare_item::law_new_ids_differ(prepared.fields);
    lemma_top_keys();
    json::lemma_object_ordered();
    let kind = JsonView::Text("API_CREDENTIAL"@);
    let parts = JsonView::Array(seq![ItemShape::Cli.section(section, prepared.section_label)]);
    let all = JsonView::Array(
        cloudflare_item::new_fields(ItemShape::Cli, section, prepared.fields, found),
    );
    let a = JsonView::object().with("title"@, JsonView::Text(title));
    json::lemma_with(JsonView::object(), "title"@, JsonView::Text(title), "title"@);
    let b = a.with("category"@, kind);
    json::lemma_with(a, "category"@, kind, "title"@);
    let c = b.with("sections"@, parts);
    json::lemma_with(b, "sections"@, parts, "title"@);
    json::lemma_with(b, "sections"@, parts, "category"@);
    json::lemma_with(c, "fields"@, all, "title"@);
    json::lemma_with(c, "fields"@, all, "category"@);
    json::lemma_with(c, "fields"@, all, "sections"@);
    lemma_section(ItemShape::Cli, section, prepared.section_label);
    if 0 <= i < prepared.fields.len() {
        cloudflare_item::lemma_filled(
            ItemShape::Cli,
            JsonView::object(),
            found[i],
            section,
            prepared.fields[i],
        );
    }
}

/// A new item for the SDK has besides the vault it goes to.
pub proof fn law_new_params(title: Seq<char>, prepared: PreparedView, vault: Seq<char>, i: int)
    ensures
        ({
            let item = cloudflare_item::create_params(title, prepared, vault);
            let sections = json::items_field(item, "sections"@);
            let fields = json::items_field(item, "fields"@);
            let found = cloudflare_item::new_ids(prepared.fields);
            &&& json::text_field(item, "title"@) == Some(title)
            &&& json::text_field(item, "vaultId"@) == Some(vault)
            &&& json::text_field(item, "category"@) == Some("ApiCredentials"@)
            &&& sections matches Some(s) && s.len() == 1 && json::text_field(s[0], "title"@)
                == Some(prepared.section_label)
            &&& fields matches Some(f) && f.len() == prepared.fields.len() && (0 <= i < f.len()
                ==> json::text_field(f[i], "title"@) == Some(prepared.fields[i].label)
                && json::text_field(f[i], "value"@) == Some(prepared.fields[i].value)
                && json::text_field(f[i], "fieldType"@) == Some("Concealed"@) && json::text_field(
                f[i],
                "id"@,
            ) == Some(found[i]))
        }),
{
    let section = ids::label_id(prepared.section_label, "cloudflare"@);
    let found = cloudflare_item::new_ids(prepared.fields);
    cloudflare_item::law_new_ids_differ(prepared.fields);
    lemma_top_keys();
    json::lemma_object_ordered();
    let kind = JsonView::Text("ApiCredentials"@);
    let parts = JsonView::Array(seq![ItemShape::Sdk.section(section, prepared.section_label)]);
    let all = JsonView::Array(
        cloudflare_item::new_fields(ItemShape::Sdk, section, prepared.fields, found),
    );
    let a = JsonView::object().with("category"@, kind);
    json::lemma_with(JsonView::object(), "category"@, kind, "category"@);
    let b = a.with("vaultId"@, JsonView::Text(vault));
    json::lemma_with(a, "vaultId"@, JsonView::Text(vault), "category"@);
    let c = b.with("title"@, JsonView::Text(title));
    json::lemma_with(b, "title"@, JsonView::Text(title), "category"@);
    json::lemma_with(b, "title"@, JsonView::Text(title), "vaultId"@);
    let d = c.with("sections"@, parts);
    json::lemma_with(c, "sections"@, parts, "title"@);
    json::lemma_with(c, "sections"@, parts, "category"@);
    json::lemma_with(c, "sections"@, parts, "vaultId"@);
    json::lemma_with(d, "fields"@, all, "title"@);
    json::lemma_with(d, "fields"@, all, "category"@);
    json::lemma_with(d, "fields"@, all, "vaultId"@);
    json::lemma_with(d, "fields"@, all, "sections"@);
    lemma_section(ItemShape::Sdk, section, prepared.section_label);
    if 0 <= i < prepared.fields.len() {
        cloudflare_item::lemma_filled(
            ItemShape::Sdk,
            JsonView::object(),
            found[i],
            section,
            prepared.fields[i],
        );
    }
}

/// The keys of an item differ.
proof fn lemma_top_keys()
    ensures
        "title"@ != "category"@,
        "title"@ != "sections"@,
        "title"@ != "fields"@,
        "title"@ != "vaultId"@,
        "category"@ != "sections"@,
        "category"@ != "fields"@,
        "category"@ != "vaultId"@,
        "sections"@ != "fields"@,
        "sections"@ != "vaultId"@,
        "fields"@ != "vaultId"@,
{
    reveal_strlit("title");
    reveal_strlit("category");
    reveal_strlit("sections");
    reveal_strlit("fields");
    reveal_strlit("vaultId");
    assert("category"@[0] != "sections"@[0]);
    assert("title"@.len() == 5);
    assert("category"@.len() == 8);
    assert("sections"@.len() == 8);
    assert("fields"@.len() == 6);
    assert("vaultId"@.len() == 7);
}

/// An identifier that nobody has is taken as it is. Where it is in use, it gets the smallest
/// number from two on with which nobody has it.
pub proof fn law_fresh_id(used: Seq<Option<Seq<char>>>, base: Seq<char>)
    ensures
        !used.contains(Some(base)) ==> ids::fresh_id(used, base) == base,
        used.contains(Some(base)) ==> exists|n: nat|
            n >= 2 && ids::fresh_id(used, base) == base + seq!['_'] + #[trigger] text::decimal(n)
                && (forall|m: nat|
                2 <= m < n ==> used.contains(Some(base + seq!['_'] + #[trigger] text::decimal(m)))),
{
    reveal_strlit("_");
    assert("_"@ =~= seq!['_']);
    if used.contains(Some(base)) {
        let n = ids::free_number(used, base, 1);
        lemma_passed_over(used, base, 1);
        if n <= 1 {
            assert(ids::candidate(base, 1) == base);
        }
        assert(ids::fresh_id(used, base) == base + seq!['_'] + text::decimal(n));
        assert forall|m: nat| 2 <= m < n implies used.contains(
            Some(base + seq!['_'] + #[trigger] text::decimal(m)),
        ) by {
            assert(used.contains(Some(ids::candidate(base, m))));
        }
    }
}

/// Each candidate before the one that is taken is in use.
proof fn lemma_passed_over(used: Seq<Option<Seq<char>>>, base: Seq<char>, n: nat)
    requires
        n <= used.len() + 1,
    ensures
        ids::free_number(used, base, n) >= n,
        forall|m: nat|
            n <= m < ids::free_number(used, base, n) ==> used.contains(
                Some(#[trigger] ids::candidate(base, m)),
            ),
        n == 1 && used.contains(Some(base)) ==> ids::free_number(used, base, n) >= 2,
    decreases used.len() + 2 - n,
{
    if used.contains(Some(ids::candidate(base, n))) {
        if n + 1 <= used.len() + 1 {
            lemma_passed_over(used, base, n + 1);
        }
    }
    assert(ids::candidate(base, 1) == base);
}

/// A text is escaped character by character.
pub proof fn law_escaped(a: Seq<char>, b: Seq<char>)
    ensures
        pattern::regex_escaped(a + b) == pattern::regex_escaped(a) + pattern::regex_escaped(b),
    decreases b.len(),
{
    if b.len() == 0 {
        assert(a + b =~= a);
        assert(pattern::regex_escaped(a) + pattern::regex_escaped(b) =~= pattern::regex_escaped(a));
    } else {
        law_escaped(a, b.drop_last());
        assert((a + b).drop_last() =~= a + b.drop_last());
        assert((a + b).last() == b.last());
        assert(pattern::regex_escaped(a + b) =~= pattern::regex_escaped(a)
            + pattern::regex_escaped(b));
    }
}

/// Exactly the characters with a meaning of their own get a backslash; letters, digits,
/// underscores, blanks and slashes stay as they are.
pub proof fn law_escaped_char(c: char)
    ensures
        seq![
            '\\',
            '.',
            '+',
            '*',
            '?',
            '(',
            ')',
            '|',
            '[',
            ']',
            '{',
            '}',
            '^',
            '$',
            '#',
            '&',
            '-',
            '~',
        ].contains(c) ==> pattern::regex_escaped(seq![c]) == seq!['\\', c],
        'a' <= c <= 'z' || 'A' <= c <= 'Z' || '0' <= c <= '9' || c == '_' || c == ' ' || c == '/'
            ==> pattern::regex_escaped(seq![c]) == seq![c],
{
    reveal_with_fuel(pattern::regex_escaped, 2);
    assert(seq![c].drop_last() =~= Seq::<char>::empty());
    assert(seq![c].last() == c);
    assert(pattern::regex_escaped(seq![c].drop_last()) == Seq::<char>::empty());
    if pattern::is_meta(c) {
        assert(pattern::regex_escaped(seq![c]) =~= seq!['\\', c]);
    } else {
        assert(pattern::regex_escaped(seq![c]) =~= seq![c]);
    }
}

/// The name of a variable may begin with any letter or an underscore, and go on with digits too.
pub proof fn law_name_grows(name: Seq<char>, c: char)
    ensures
        pattern::is_name(seq![c]) <==> 'a' <= c <= 'z' || 'A' <= c <= 'Z' || c == '_',
        name.len() > 0 ==> (pattern::is_name(name + seq![c]) <==> pattern::is_name(name) && ('a' <= c
            <= 'z' || 'A' <= c <= 'Z' || '0' <= c <= '9' || c == '_')),
        !pattern::is_name(Seq::empty()),
{
    let all = name + seq![c];
    assert(seq![c][0] == c);
    if name.len() > 0 {
        assert(all[name.len() as int] == c);
        assert forall|i: int| 0 <= i < name.len() implies #[trigger] all[i] == name[i] by {}
        if pattern::is_name(all) {
            assert forall|i: int| 0 <= i < name.len() implies pattern::is_name_char(
                #[trigger] name[i],
            ) by {
                assert(all[i] == name[i]);
            }
        }
    }
}

/// A hyphenated name is hyphenated on both sides of each of its hyphens, and two hyphenated names
/// with a hyphen between them make one.
pub proof fn law_hyphenated(a: Seq<char>, b: Seq<char>)
    ensures
        pattern::is_hyphenated(a + seq!['-'] + b) <==> pattern::is_hyphenated(a)
            && pattern::is_hyphenated(b),
        !a.contains('-') ==> (pattern::is_hyphenated(a) <==> a.len() > 0 && forall|i: int|
            0 <= i < a.len() ==> 'a' <= #[trigger] a[i] <= 'z' || '0' <= a[i] <= '9'),
{
    let all = a + seq!['-'] + b;
    let n = a.len() as int;
    assert(all[n] == '-');
    assert forall|i: int| 0 <= i < n implies #[trigger] all[i] == a[i] by {}
    assert forall|i: int| 0 <= i < b.len() implies all[n + 1 + i] == #[trigger] b[i] by {}
    if pattern::is_hyphenated(all) {
        assert(n > 0);
        assert(b.len() > 0);
        assert(all[n - 1] == a.last());
        assert(all[n + 1] == b[0]);
        assert(all.last() == b.last());
        assert forall|i: int| 0 <= i < n implies pattern::is_lower_or_digit(#[trigger] a[i]) || a[i]
            == '-' by {
            assert(all[i] == a[i]);
        }
        assert forall|i: int| 0 <= i < n - 1 implies !((#[trigger] a[i]) == '-' && a[i + 1]
            == '-') by {
            assert(all[i] == a[i]);
            assert(all[i + 1] == a[i + 1]);
        }
        assert forall|i: int| 0 <= i < b.len() implies pattern::is_lower_or_digit(#[trigger] b[i])
            || b[i] == '-' by {
            assert(all[n + 1 + i] == b[i]);
        }
        assert forall|i: int| 0 <= i < b.len() - 1 implies !((#[trigger] b[i]) == '-' && b[i + 1]
            == '-') by {
            assert(all[n + 1 + i] == b[i]);
            assert(all[n + 1 + i + 1] == b[i + 1]);
        }
    }
    if pattern::is_hyphenated(a) && pattern::is_hyphenated(b) {
        assert(all[0] == a[0]);
        assert(all.last() == b.last());
        assert forall|i: int| 0 <= i < all.len() implies pattern::is_lower_or_digit(
            #[trigger] all[i],
        ) || all[i] == '-' by {
            if i > n {
                assert(all[i] == b[i - n - 1]);
            }
        }
        assert forall|i: int| 0 <= i < all.len() - 1 implies !((#[trigger] all[i]) == '-' && all[i
            + 1] == '-') by {
            if i < n - 1 {
                assert(all[i] == a[i]);
                assert(all[i + 1] == a[i + 1]);
            } else if i == n - 1 {
                assert(all[i] == a.last());
            } else if i == n {
                assert(all[i + 1] == b[0]);
            } else {
                assert(all[i] == b[i - n - 1]);
                assert(all[i + 1] == b[i - n]);
            }
        }
    }
    if !a.contains('-') {
        assert forall|i: int| 0 <= i < n implies #[trigger] a[i] != '-' by {}
    }
}

/// A digest has exactly sixty-four hexadecimal digits, in lower case: with another in the place of
/// one it still is one, and with any other character it is none.
pub proof fn law_digest(s: Seq<char>, i: int, c: char)
    requires
        pattern::is_digest(s),
        0 <= i < s.len(),
    ensures
        s.len() == 64,
        pattern::is_digest(s.update(i, c)) <==> '0' <= c <= '9' || 'a' <= c <= 'f',
        !pattern::is_digest(s.push(c)),
        !pattern::is_digest(s.drop_last()),
{
    let now = s.update(i, c);
    assert(now[i] == c);
    assert forall|k: int| 0 <= k < s.len() && k != i implies #[trigger] now[k] == s[k] by {}
}

/// An expansion is seen wherever `${` and a closing brace have something between them, and only
/// there.
pub proof fn law_expansion(before: Seq<char>, inner: Seq<char>, behind: Seq<char>)
    requires
        inner.len() > 0,
        !inner.contains('}'),
    ensures
        pattern::has_expansion(before + seq!['$', '{'] + inner + seq!['}'] + behind),
        !before.contains('$') ==> !pattern::has_expansion(before),
        !before.contains('}') ==> !pattern::has_expansion(before),
{
    let all = before + seq!['$', '{'] + inner + seq!['}'] + behind;
    let i = before.len() as int;
    let j = i + 2 + inner.len();
    assert(all[i] == '$');
    assert(all[i + 1] == '{');
    assert(all[j] == '}');
    assert forall|k: int| i + 2 <= k < j implies #[trigger] all[k] != '}' by {
        assert(all[k] == inner[k - i - 2]);
    }
    assert(pattern::is_expansion(all, i, j));
}

} // verus!
