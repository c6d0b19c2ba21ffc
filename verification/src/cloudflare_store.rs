//! Storing a Cloudflare credential in 1Password: what is written where, and what is reported.

use vstd::prelude::*;
use vstd::string::*;

use crate::cloudflare;
use crate::cloudflare::{
    CloudflareCredentialMode, CloudflareCredentialPreset, ItemAction,
};
use crate::cloudflare_item;
use crate::cloudflare_item::{ItemShape, PreparedCredential, PreparedView, StoredCredential};
use crate::failure;
use crate::failure::Failure;
use crate::ids;
use crate::json;
use crate::json::{Json, JsonView};
use crate::op::ItemVault;
use crate::process;
use crate::resolver;
use crate::resolver::ResolvedItem;
use crate::sdk;
use crate::seqs;
use crate::text;

verus! {

broadcast use crate::seqs::group_seqs;

/// The check of the label of a field.
pub open spec fn label_check() -> spec_fn(cloudflare_item::DestinationView) -> Result<
    (),
    Seq<Seq<char>>,
> {
    |field: cloudflare_item::DestinationView| cloudflare::label_flaw(field.label)
}

/// The check of all labels of a credential.
pub open spec fn labels_check(prepared: PreparedView) -> Result<(), Seq<Seq<char>>> {
    seqs::both(
        cloudflare::label_flaw(prepared.section_label),
        seqs::each(prepared.fields, label_check()),
    )
}

/// Checks all labels of a credential.
pub fn check_labels(prepared: &PreparedCredential) -> (r: Result<(), Failure>)
    ensures
        failure::told_unit(r) == labels_check(prepared@),
{
    cloudflare::validate_destination_label(&prepared.section_label)?;
    let fields = &prepared.fields;
    let ghost all = prepared@.fields;
    let ghost f = label_check();
    let mut i: usize = 0;
    assert(all.take(0) =~= Seq::<cloudflare_item::DestinationView>::empty());
    while i < fields.len()
        invariant
            i <= fields@.len(),
            *fields == prepared.fields,
            all == prepared@.fields,
            f == label_check(),
            cloudflare::label_flaw(prepared.section_label@) is Ok,
            seqs::each(all.take(i as int), f) is Ok,
        decreases fields@.len() - i,
    {
        proof {
            seqs::lemma_each(all, f, i as int);
            assert(all[i as int] == fields@[i as int]@);
        }
        cloudflare::validate_destination_label(&fields[i].label)?;
        i += 1;
    }
    Ok(())
}

/// The credential that an input holds, with labels that may be stored.
pub fn prepare_destination(
    preset: CloudflareCredentialPreset,
    section: Option<&str>,
    field: Option<&str>,
    raw: bool,
    input: &[u8],
) -> (r: Result<PreparedCredential, Failure>)
    ensures
        cloudflare::told_prepared(r) == (match cloudflare::prepared_credential(
            preset,
            section.deep_view(),
            field.deep_view(),
            raw,
            json::parsed_bytes(input@),
            input@,
        ) {
            Err(e) => Err(e),
            Ok(prepared) => match labels_check(prepared) {
                Err(e) => Err(e),
                Ok(_) => Ok(prepared),
            },
        }),
{
    let prepared = cloudflare::prepare_cloudflare_credential(preset, section, field, raw, input)?;
    check_labels(&prepared)?;
    Ok(prepared)
}

/// The item that there is under a title: its identifier and that of its vault.
pub fn existing_item(outcome: Result<ResolvedItem, Failure>) -> (r: Result<
    Option<(String, String)>,
    Failure,
>)
    ensures
        match outcome {
            Ok(item) => r matches Ok(Some((item_id, vault_id))) && item_id@ == item.item_id@
                && vault_id@ == item.vault_id@,
            Err(e) => if resolver::is_miss(e@[0]) {
                r matches Ok(None)
            } else {
                r == Err::<Option<(String, String)>, Failure>(e)
            },
        },
{
    match outcome {
        Ok(item) => Ok(Some((item.item_id, item.vault_id))),
        Err(e) => if resolver::is_op_lookup_miss(&e) {
            Ok(None)
        } else {
            Err(e)
        },
    }
}

/// What is done: a new item is made, or one is changed.
#[derive(Debug)]
pub enum StorePlan {
    Create,
    Update { item_id: String, vault_id: String },
}

/// What is done: a change only ever of the item that there is.
pub fn plan_store(mode: CloudflareCredentialMode, existing: Option<(String, String)>) -> (r: Result<
    StorePlan,
    Failure,
>)
    ensures
        match cloudflare::item_action(mode, existing is Some) {
            Err(message) => failure::failed(r, message),
            Ok(ItemAction::Create) => r matches Ok(StorePlan::Create),
            Ok(ItemAction::Update) => existing matches Some((item_id, vault_id)) && r == Ok::<
                StorePlan,
                Failure,
            >(StorePlan::Update { item_id, vault_id }),
        },
{
    let action = cloudflare::resolve_item_action(mode, existing.is_some())?;
    match (action, existing) {
        (ItemAction::Update, Some((item_id, vault_id))) => Ok(
            StorePlan::Update { item_id, vault_id },
        ),
        _ => Ok(StorePlan::Create),
    }
}

/// What a rehearsal says.
pub open spec fn rehearsal(
    update: bool,
    vault: Option<Seq<char>>,
    item: Seq<char>,
    prepared: PreparedView,
) -> Seq<Seq<char>> {
    seq![
        "Would "@ + (if update {
            "update"@
        } else {
            "create"@
        }) + " 1Password item "@ + text::debugged(item) + " with "@ + text::decimal(
            prepared.fields.len(),
        ) + " concealed field(s) in section "@ + text::debugged(prepared.section_label),
    ] + cloudflare_item::label_references(
        match vault {
            Some(vault) => vault,
            None => "<vault>"@,
        },
        item,
        prepared,
    )
}

/// What a rehearsal says: what would be done and to which references.
pub fn rehearse_store(
    plan: &StorePlan,
    vault: Option<&str>,
    item: &str,
    prepared: &PreparedCredential,
) -> (r: Vec<String>)
    ensures
        seqs::texts(r@) == rehearsal(*plan is Update, vault.deep_view(), item@, prepared@),
{
    let verb = match plan {
        StorePlan::Create => "create",
        StorePlan::Update { item_id: _, vault_id: _ } => "update",
    };
    let mut lines = seqs::no_texts();
    seqs::push_string(
        &mut lines,
        "Would ".to_owned().concat(verb).concat(" 1Password item ").concat(
            &text::debug_text(item),
        ).concat(" with ").concat(&text::to_decimal(prepared.fields.len() as u128)).concat(
            " concealed field(s) in section ",
        ).concat(&text::debug_text(&prepared.section_label)),
    );
    let shown = match vault {
        Some(vault) => vault,
        None => "<vault>",
    };
    let references = cloudflare_item::build_label_references(shown, item, prepared);
    seqs::push_texts(&mut lines, &references);
    assert(seqs::texts(lines@) =~= rehearsal(*plan is Update, vault.deep_view(), item@, prepared@));
    lines
}

/// What is said after a credential was stored.
pub fn report_store(plan: &StorePlan, item: &str, fields: usize, stored: &StoredCredential) -> (r:
    Vec<String>)
    ensures
        seqs::texts(r@) == seq![
            (if *plan is Update {
                "Updated"@
            } else {
                "Created"@
            }) + " 1Password item "@ + text::debugged(item@) + " with "@ + text::decimal(
                fields as nat,
            ) + " concealed field(s)"@,
        ] + seqs::texts(stored.references@),
{
    let verb = match plan {
        StorePlan::Create => "Created",
        StorePlan::Update { item_id: _, vault_id: _ } => "Updated",
    };
    let mut lines = seqs::no_texts();
    seqs::push_string(
        &mut lines,
        verb.to_owned().concat(" 1Password item ").concat(&text::debug_text(item)).concat(
            " with ",
        ).concat(&text::to_decimal(fields as u128)).concat(" concealed field(s)"),
    );
    seqs::push_texts(&mut lines, &stored.references);
    lines
}

/// A change to be submitted: the item, and under which identifiers the credential will stand.
#[derive(Debug)]
pub struct ItemWrite {
    pub item: Json,
    pub section_id: String,
    pub field_ids: Vec<String>,
}

/// Whether a change is that one.
pub open spec fn writes(
    write: ItemWrite,
    item: JsonView,
    section: Seq<char>,
    fields: Seq<Seq<char>>,
) -> bool {
    write.item@ == item && write.section_id@ == section && seqs::texts(write.field_ids@) == fields
}

/// The new item for `op`.
pub fn plan_op_create(item_title: &str, prepared: &PreparedCredential) -> (r: ItemWrite)
    ensures
        writes(
            r,
            cloudflare_item::create_template(item_title@, prepared@),
            ids::label_id(prepared.section_label@, "cloudflare"@),
            cloudflare_item::new_ids(prepared@.fields),
        ),
{
    let (item, section_id, field_ids) = cloudflare_item::build_create_template(
        item_title,
        prepared,
    );
    ItemWrite { item, section_id, field_ids }
}

/// The new item for the SDK, in the only vault with the given identifier or name, with the
/// identifier of that vault.
pub fn plan_sdk_create(
    vaults: &Vec<ItemVault>,
    vault: &str,
    item_title: &str,
    prepared: &PreparedCredential,
) -> (r: Result<(String, ItemWrite), Failure>)
    ensures
        ({
            let found = sdk::vaults_named(vaults.deep_view(), vault@);
            if found.len() == 1 {
                r matches Ok((vault_id, write)) && vault_id@ == found[0].id && writes(
                    write,
                    cloudflare_item::create_params(item_title@, prepared@, found[0].id),
                    ids::label_id(prepared.section_label@, "cloudflare"@),
                    cloudflare_item::new_ids(prepared@.fields),
                )
            } else if found.len() == 0 {
                failure::failed(r, "desktop SDK did not find vault `"@ + vault@ + "`"@)
            } else {
                failure::failed(r, "desktop SDK vault name `"@ + vault@ + "` is ambiguous"@)
            }
        }),
{
    let selected = sdk::select_sdk_vaults(vaults, Some(vault))?;
    assert(selected.deep_view()[0] == selected@[0].deep_view());
    let vault_id = selected[0].id.clone();
    let (item, section_id, field_ids) = cloudflare_item::build_cloudflare_sdk_create_params(
        item_title,
        prepared,
        &vault_id,
    );
    Ok((vault_id, ItemWrite { item, section_id, field_ids }))
}

/// The check that an item may be changed.
pub open spec fn category_check(shape: ItemShape, item: JsonView) -> Result<(), Seq<char>> {
    match (shape, json::text_field(item, "category"@)) {
        (ItemShape::Cli, Some(category)) => if category == "API_CREDENTIAL"@ {
            Ok(())
        } else {
            Err(
                "Refusing to edit 1Password item category "@ + text::debugged(category)
                    + "; cloudflare-credential only updates API_CREDENTIAL items."@,
            )
        },
        (ItemShape::Cli, None) => Ok(()),
        (ItemShape::Sdk, category) => if category == Some("ApiCredentials"@) {
            Ok(())
        } else {
            Err("Refusing to edit non-ApiCredentials item through the Desktop SDK"@)
        },
    }
}

/// The change of an item: with the credential in it, all else as it was.
pub fn plan_update(shape: ItemShape, item: Json, prepared: &PreparedCredential) -> (r: Result<
    ItemWrite,
    Failure,
>)
    ensures
        match category_check(shape, item@) {
            Err(message) => failure::failed(r, message),
            Ok(_) => {
                let (merged, outcome) = cloudflare_item::merged(shape, item@, prepared@);
                match outcome {
                    Err(message) => failure::failed(r, message),
                    Ok((section, fields)) => r matches Ok(write) && writes(
                        write,
                        merged,
                        section,
                        fields,
                    ),
                }
            },
        },
{
    let mut item = item;
    let (section_id, field_ids) = match shape {
        ItemShape::Cli => {
            cloudflare_item::validate_cloudflare_item_category(&item)?;
            cloudflare_item::merge_prepared_fields(&mut item, prepared)?
        },
        ItemShape::Sdk => {
            cloudflare_item::validate_cloudflare_sdk_item_category(&item)?;
            cloudflare_item::merge_prepared_sdk_fields(&mut item, prepared)?
        },
    };
    Ok(ItemWrite { item, section_id, field_ids })
}

/// What `op` printed after a change, or that the change failed: nothing of its output is said.
pub fn read_written_item(operation: &str, success: bool, status: &str, stdout: &[u8]) -> (r: Result<
    Json,
    Failure,
>)
    ensures
        process::told_json(r) == (if !success {
            Err(
                seq![
                    operation@ + " failed with status "@ + status@
                        + " (output suppressed to avoid leaking credentials)"@,
                ],
            )
        } else {
            match json::parsed_bytes(stdout@) {
                Ok(item) => Ok(item),
                Err(e) => Err(seq!["failed to parse `"@ + operation@ + "` JSON output"@, e]),
            }
        }),
{
    if !success {
        return Err(
            Failure::new(
                operation.to_owned().concat(" failed with status ").concat(status).concat(
                    " (output suppressed to avoid leaking credentials)",
                ),
            ),
        );
    }
    match json::parse_bytes(stdout) {
        Ok(item) => Ok(item),
        Err(e) => {
            let ghost reason = e@;
            let failure = Failure::new(e).context(
                "failed to parse `".to_owned().concat(operation).concat("` JSON output"),
            );
            assert(failure@ =~= seq![
                "failed to parse `"@ + operation@ + "` JSON output"@,
                reason,
            ]);
            Err(failure)
        },
    }
}

/// Where the credential stands after the SDK was asked for a change. A change that was submitted
/// and failed stays failed.
pub fn finish_sdk(
    plan: &StorePlan,
    outcome: Result<Json, Failure>,
    vault_id: &str,
    write: &ItemWrite,
) -> (r: Result<StoredCredential, Failure>)
    ensures
        match outcome {
            Err(e) => r matches Err(failure) && failure@ == seq![
                (if *plan is Update {
                    "update"@
                } else {
                    "create"@
                }) + " Cloudflare credential through isolated 1Password Desktop SDK"@,
            ] + e@,
            Ok(item) => match json::text_field(item@, "id"@) {
                Some(id) => r matches Ok(stored) && seqs::texts(stored.references@)
                    == cloudflare_item::references(
                    vault_id@,
                    id,
                    write.section_id@,
                    seqs::texts(write.field_ids@),
                ),
                None => failure::failed(r, "Desktop SDK item response did not include id"@),
            },
        },
{
    match outcome {
        Err(e) => {
            let verb = match plan {
                StorePlan::Create => "create",
                StorePlan::Update { item_id: _, vault_id: _ } => "update",
            };
            Err(
                e.context(
                    verb.to_owned().concat(
                        " Cloudflare credential through isolated 1Password Desktop SDK",
                    ),
                ),
            )
        },
        Ok(item) => cloudflare_item::build_sdk_stored_credential(
            &item,
            vault_id,
            &write.section_id,
            &write.field_ids,
        ),
    }
}

/// Where the credential stands after `op` made a change.
pub fn finish_op(plan: &StorePlan, item: &Json, write: &ItemWrite, prepared: &PreparedCredential)
    -> (r: Result<StoredCredential, Failure>)
    ensures
        match (cloudflare_item::vault_id_of(item@), json::text_field(item@, "id"@)) {
            (None, _) => failure::failed(r, "op item output did not include vault.id"@),
            (Some(_), None) => failure::failed(r, "op item output did not include id"@),
            (Some(vault), Some(id)) => r matches Ok(stored) && seqs::texts(stored.references@)
                == (match *plan {
                StorePlan::Update { item_id, vault_id } if write.field_ids@.len() == 0 => {
                    cloudflare_item::label_references(vault_id@, item_id@, prepared@)
                },
                _ => cloudflare_item::references(
                    vault,
                    id,
                    write.section_id@,
                    seqs::texts(write.field_ids@),
                ),
            }),
        },
{
    let stored = cloudflare_item::build_stored_credential(
        item,
        &write.section_id,
        &write.field_ids,
    )?;
    assert(seqs::texts(stored.references@).len() == stored.references@.len());
    assert(seqs::texts(write.field_ids@).len() == write.field_ids@.len());
    match plan {
        StorePlan::Create => Ok(stored),
        StorePlan::Update { item_id, vault_id } => Ok(
            cloudflare_item::stored_or_label_references(stored, vault_id, item_id, prepared),
        ),
    }
}

} // verus!
