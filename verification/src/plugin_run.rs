//! Choosing a release of a plugin and preparing its run.

use vstd::prelude::*;
use vstd::string::*;

use crate::failure;
use crate::failure::Failure;
use crate::map::StringMap;
use crate::op;
use crate::op::ItemGet;
use crate::paths;
use crate::pattern;
use crate::plugin;
use crate::plugin::{PluginLifecycle, PluginManifest, PluginRegistryEntry, ResolvedPlugin};
use crate::plugin_config;
use crate::plugin_config::{ConfigValue, ConfigView};
use crate::resolver::ResolvedItem;
use crate::seqs;
use crate::text;

verus! {

broadcast use crate::seqs::group_seqs;

/// The name and the version that a selector asks for.
pub open spec fn selector_of(selector: Seq<char>) -> Result<
    (Seq<char>, Option<Seq<char>>),
    Seq<Seq<char>>,
> {
    let asked = match text::parted(selector, "@"@) {
        Some((name, version)) => if version.len() > 0 {
            Ok((name, Some(version)))
        } else {
            Err(seq!["plugin selector has an empty version"@])
        },
        None => Ok((selector, None)),
    };
    match asked {
        Err(e) => Err(e),
        Ok((name, version)) => if plugin::plugin_name_check(name) is Err {
            Err(plugin::plugin_name_check(name)->Err_0)
        } else if version is Some && plugin::version_of(version->0) is Err {
            Err(plugin::version_of(version->0)->Err_0)
        } else {
            Ok((name, version))
        },
    }
}

/// The name and the version that a selector asks for.
pub fn parse_selector(selector: &str) -> (r: Result<(String, Option<String>), Failure>)
    ensures
        match selector_of(selector@) {
            Ok((name, version)) => r matches Ok(asked) && asked.0@ == name && asked.1.deep_view()
                == version,
            Err(e) => r matches Err(failure) && failure@ == e,
        },
{
    let (name, version) = match text::split_once(selector, "@") {
        Some((name, version)) => {
            if version.unicode_len() == 0 {
                return Err(failure::fail("plugin selector has an empty version"));
            }
            (name, Some(version))
        },
        None => (selector, None),
    };
    if let Err(e) = plugin::validate_plugin_name(name) {
        return Err(e);
    }
    match version {
        Some(version) => {
            if let Err(e) = plugin::version_tuple(version) {
                return Err(e);
            }
            Ok((name.to_owned(), Some(version.to_owned())))
        },
        None => Ok((name.to_owned(), None)),
    }
}

/// Whether a release is one that was asked for.
pub open spec fn is_asked_for(
    plugin: ResolvedPlugin,
    name: Seq<char>,
    version: Option<Seq<char>>,
) -> bool {
    plugin.entry.name@ == name && (version is Some ==> plugin.entry.version@ == version->0)
}

/// The release among the first `n` with the highest version of those that were asked for; of
/// several with that version, the last.
pub open spec fn newest_release(
    plugins: Seq<ResolvedPlugin>,
    name: Seq<char>,
    version: Option<Seq<char>>,
    n: int,
) -> Option<int>
    decreases n,
{
    if n <= 0 {
        None
    } else {
        let before = newest_release(plugins, name, version, n - 1);
        if !is_asked_for(plugins[n - 1], name, version) {
            before
        } else {
            match before {
                None => Some(n - 1),
                Some(i) => if plugin::is_lower(
                    plugin::ordering_version(plugins[n - 1].entry.version@),
                    plugin::ordering_version(plugins[i].entry.version@),
                ) {
                    Some(i)
                } else {
                    Some(n - 1)
                },
            }
        }
    }
}

/// The release to use.
pub fn find_release(
    plugins: &Vec<ResolvedPlugin>,
    name: &str,
    version: Option<&str>,
    selector: &str,
) -> (r: Result<usize, Failure>)
    ensures
        match newest_release(plugins@, name@, version.deep_view(), plugins@.len() as int) {
            Some(i) => r matches Ok(found) && found == i && found < plugins@.len(),
            None => failure::failed(r, "plugin not found: "@ + selector@),
        },
{
    let mut best: Option<usize> = None;
    let mut i: usize = 0;
    while i < plugins.len()
        invariant
            i <= plugins@.len(),
            match best {
                Some(b) => newest_release(plugins@, name@, version.deep_view(), i as int) == Some(
                    b as int,
                ) && b < i,
                None => newest_release(plugins@, name@, version.deep_view(), i as int) is None,
            },
        decreases plugins@.len() - i,
    {
        let entry = &plugins[i].entry;
        let asked = text::same(&entry.name, name) && (match version {
            Some(version) => text::same(&entry.version, version),
            None => true,
        });
        if asked {
            let keep = match best {
                None => false,
                Some(b) => plugin::version_before(&entry.version, &plugins[b].entry.version),
            };
            if !keep {
                best = Some(i);
            }
        }
        i += 1;
    }
    match best {
        Some(b) => Ok(b),
        None => Err(Failure::new("plugin not found: ".to_owned().concat(selector))),
    }
}

/// The release that is chosen was asked for, and no other that was asked for has a higher version.
pub proof fn law_newest_release(
    plugins: Seq<ResolvedPlugin>,
    name: Seq<char>,
    version: Option<Seq<char>>,
    n: int,
    k: int,
)
    requires
        0 <= n <= plugins.len(),
        0 <= k < n,
        is_asked_for(plugins[k], name, version),
    ensures
        newest_release(plugins, name, version, n) matches Some(i) && 0 <= i < n && is_asked_for(
            plugins[i],
            name,
            version,
        ) && !plugin::is_lower(
            plugin::ordering_version(plugins[i].entry.version@),
            plugin::ordering_version(plugins[k].entry.version@),
        ),
    decreases n,
{
    if k < n - 1 {
        law_newest_release(plugins, name, version, n - 1, k);
    } else {
        lemma_newest_found(plugins, name, version, n - 1);
    }
}

/// A release that is chosen was asked for.
proof fn lemma_newest_found(
    plugins: Seq<ResolvedPlugin>,
    name: Seq<char>,
    version: Option<Seq<char>>,
    n: int,
)
    requires
        0 <= n <= plugins.len(),
    ensures
        newest_release(plugins, name, version, n) matches Some(i) ==> 0 <= i < n && is_asked_for(
            plugins[i],
            name,
            version,
        ),
    decreases n,
{
    if n > 0 {
        lemma_newest_found(plugins, name, version, n - 1);
    }
}

/// The check that a release may run: this program is new enough for it, and it is neither revoked
/// nor, without permission, deprecated.
pub open spec fn runnable_check(
    entry: PluginRegistryEntry,
    allow_deprecated: bool,
    own_version: Seq<char>,
) -> plugin::Checked {
    let id = plugin::release(entry.name@, entry.version@);
    let needed = plugin::version_of(entry.min_opz_version@);
    let own = plugin::version_of(own_version);
    if needed is Err {
        Err(needed->Err_0)
    } else if own is Err {
        Err(own->Err_0)
    } else if plugin::is_lower(own->Ok_0, needed->Ok_0) {
        Err(seq!["plugin "@ + id + " requires opz >= "@ + entry.min_opz_version@])
    } else if entry.lifecycle is Revoked {
        Err(
            seq![
                "plugin "@ + id + " is revoked: "@ + (match entry.revocation_reason {
                    Some(reason) => reason@,
                    None => "no reason provided"@,
                }),
            ],
        )
    } else if entry.lifecycle is Deprecated && !allow_deprecated {
        Err(
            seq![
                "plugin "@ + id + " is deprecated and requires --allow-deprecated"@ + (
                match entry.replacement {
                    Some(replacement) => "; replacement: "@ + replacement@,
                    None => Seq::<char>::empty(),
                }),
            ],
        )
    } else {
        Ok(())
    }
}

/// Checks that a release may run. A revoked one never does.
pub fn check_runnable(entry: &PluginRegistryEntry, allow_deprecated: bool, own_version: &str) -> (r:
    Result<(), Failure>)
    ensures
        failure::told_unit(r) == runnable_check(*entry, allow_deprecated, own_version@),
        entry.lifecycle is Revoked ==> r is Err,
{
    let id = entry.name.clone().concat("@").concat(&entry.version);
    let needed = match plugin::version_tuple(&entry.min_opz_version) {
        Ok(v) => v,
        Err(e) => return Err(e),
    };
    let own = match plugin::version_tuple(own_version) {
        Ok(v) => v,
        Err(e) => return Err(e),
    };
    if own.0 < needed.0 || (own.0 == needed.0 && (own.1 < needed.1 || (own.1 == needed.1 && own.2
        < needed.2))) {
        return Err(
            Failure::new(
                "plugin ".to_owned().concat(&id).concat(" requires opz >= ").concat(
                    &entry.min_opz_version,
                ),
            ),
        );
    }
    match entry.lifecycle {
        PluginLifecycle::Active => Ok(()),
        PluginLifecycle::Deprecated => {
            if allow_deprecated {
                return Ok(());
            }
            let start = "plugin ".to_owned().concat(&id).concat(
                " is deprecated and requires --allow-deprecated",
            );
            let message = match &entry.replacement {
                Some(replacement) => start.concat(&"; replacement: ".to_owned().concat(replacement)),
                None => start,
            };
            proof {
                if entry.replacement is None {
                    assert(message@ + Seq::<char>::empty() =~= message@);
                }
            }
            Err(Failure::new(message))
        },
        PluginLifecycle::Revoked => {
            let reason = match &entry.revocation_reason {
                Some(reason) => reason.clone(),
                None => "no reason provided".to_owned(),
            };
            Err(
                Failure::new(
                    "plugin ".to_owned().concat(&id).concat(" is revoked: ").concat(&reason),
                ),
            )
        },
    }
}

/// The text of the first field at or after `from` with that label that has one.
pub open spec fn field_value(fields: Seq<op::FieldView>, label: Seq<char>, from: int) -> Option<
    Seq<char>,
>
    decreases fields.len() - from,
{
    if from < 0 || from >= fields.len() {
        None
    } else if fields[from].label == Some(label) && op::field_text(fields[from]) is Some {
        op::field_text(fields[from])
    } else {
        field_value(fields, label, from + 1)
    }
}

/// The text of the first field with that label that has one.
pub fn item_field_value(item: &ItemGet, wanted: &str) -> (r: Option<String>)
    ensures
        r.deep_view() == field_value(item.deep_view().fields, wanted@, 0),
{
    let ghost all = item.deep_view().fields;
    let mut i: usize = 0;
    while i < item.fields.len()
        invariant
            i <= item.fields@.len(),
            all == item.deep_view().fields,
            all.len() == item.fields@.len(),
            field_value(all, wanted@, 0) == field_value(all, wanted@, i as int),
        decreases item.fields@.len() - i,
    {
        let field = &item.fields[i];
        assert(all[i as int] == field.deep_view());
        if let Some(label) = &field.label {
            if text::same(label, wanted) {
                if let Some(value) = op::item_field_string_value(field) {
                    return Some(value);
                }
            }
        }
        i += 1;
    }
    None
}

/// What an item says of the plugin that it is for.
#[derive(Debug)]
pub struct ItemPluginPin {
    pub schema_version: u32,
    pub name: String,
    pub source: String,
    pub version: String,
    pub sha256: String,
    pub config: StringMap<ConfigValue>,
}

/// The content of an `ItemPluginPin`.
pub struct PinView {
    pub schema_version: int,
    pub name: Seq<char>,
    pub source: Seq<char>,
    pub version: Seq<char>,
    pub sha256: Seq<char>,
    pub config: Seq<(Seq<char>, ConfigView)>,
}

impl DeepView for ItemPluginPin {
    type V = PinView;

    open spec fn deep_view(&self) -> PinView {
        PinView {
            schema_version: self.schema_version as int,
            name: self.name@,
            source: self.source@,
            version: self.version@,
            sha256: self.sha256@,
            config: self.config.deep(),
        }
    }
}

/// The text of a field that an item must have.
pub open spec fn required_field(fields: Seq<op::FieldView>, label: Seq<char>) -> Result<
    Seq<char>,
    Seq<Seq<char>>,
> {
    match field_value(fields, label, 0) {
        Some(value) => Ok(value),
        None => Err(seq!["1Password item is missing required field "@ + label]),
    }
}

/// The text of a field that an item must have.
fn required_item_field(item: &ItemGet, label: &str) -> (r: Result<String, Failure>)
    ensures
        failure::told_text(r) == required_field(item.deep_view().fields, label@),
{
    match item_field_value(item, label) {
        Some(value) => Ok(value),
        None => Err(
            Failure::new("1Password item is missing required field ".to_owned().concat(label)),
        ),
    }
}

/// The version of the schema that an item follows.
pub open spec fn pin_schema(fields: Seq<op::FieldView>) -> Result<nat, Seq<Seq<char>>> {
    match required_field(fields, "OPZ_PLUGIN_SCHEMA_VERSION"@) {
        Err(e) => Err(e),
        Ok(value) => match text::numeral(value, u32::MAX as nat) {
            None => Err(
                seq!["OPZ_PLUGIN_SCHEMA_VERSION must be an integer"@, text::u32_refusal(value)],
            ),
            Some(n) => if n == 1 {
                Ok(n)
            } else {
                Err(seq!["unsupported OPZ_PLUGIN_SCHEMA_VERSION "@ + text::decimal(n)])
            },
        },
    }
}

/// The version of the schema that an item follows.
fn read_pin_schema(item: &ItemGet) -> (r: Result<u32, Failure>)
    ensures
        match pin_schema(item.deep_view().fields) {
            Ok(n) => r matches Ok(m) && m == n,
            Err(e) => r matches Err(failure) && failure@ == e,
        },
{
    let value = match required_item_field(item, "OPZ_PLUGIN_SCHEMA_VERSION") {
        Ok(value) => value,
        Err(e) => return Err(e),
    };
    match text::read_u32(&value) {
        Err(e) => {
            let ghost reason = e@;
            let failure = Failure::new(e).context(
                "OPZ_PLUGIN_SCHEMA_VERSION must be an integer".to_owned(),
            );
            assert(failure@ =~= seq!["OPZ_PLUGIN_SCHEMA_VERSION must be an integer"@, reason]);
            Err(failure)
        },
        Ok(n) => if n == 1 {
            Ok(n)
        } else {
            Err(
                Failure::new(
                    "unsupported OPZ_PLUGIN_SCHEMA_VERSION ".to_owned().concat(
                        &text::to_decimal(n as u128),
                    ),
                ),
            )
        },
    }
}

/// The check of what an item pins.
pub open spec fn pin_check(name: Seq<char>, version: Seq<char>, digest: Seq<char>) -> plugin::Checked {
    if plugin::plugin_name_check(name) is Err {
        plugin::plugin_name_check(name)
    } else if plugin::version_of(version) is Err {
        Err(plugin::version_of(version)->Err_0)
    } else if !pattern::is_digest(digest) {
        Err(seq!["OPZ_PLUGIN_SHA256 must be lowercase SHA-256 hex"@])
    } else {
        Ok(())
    }
}

/// Checks what an item pins.
fn check_pin(name: &str, version: &str, digest: &str) -> (r: Result<(), Failure>)
    ensures
        failure::told_unit(r) == pin_check(name@, version@, digest@),
{
    if let Err(e) = plugin::validate_plugin_name(name) {
        return Err(e);
    }
    if let Err(e) = plugin::version_tuple(version) {
        return Err(e);
    }
    if !pattern::matches_digest(digest) {
        return Err(failure::fail("OPZ_PLUGIN_SHA256 must be lowercase SHA-256 hex"));
    }
    Ok(())
}

/// The configuration text of an item.
pub open spec fn raw_config(fields: Seq<op::FieldView>) -> Seq<char> {
    match field_value(fields, "OPZ_PLUGIN_CONFIG"@, 0) {
        Some(raw) => raw,
        None => Seq::empty(),
    }
}

/// What an item with a plugin says of it.
pub open spec fn named_pin(fields: Seq<op::FieldView>, name: Seq<char>) -> Result<
    PinView,
    Seq<Seq<char>>,
> {
    let source = required_field(fields, "OPZ_PLUGIN_SOURCE"@);
    let version = required_field(fields, "OPZ_PLUGIN_VERSION"@);
    let digest = required_field(fields, "OPZ_PLUGIN_SHA256"@);
    if pin_schema(fields) is Err {
        Err(pin_schema(fields)->Err_0)
    } else if source is Err {
        Err(source->Err_0)
    } else if version is Err {
        Err(version->Err_0)
    } else if digest is Err {
        Err(digest->Err_0)
    } else if pin_check(name, version->Ok_0, digest->Ok_0) is Err {
        Err(pin_check(name, version->Ok_0, digest->Ok_0)->Err_0)
    } else {
        match plugin_config::config_text_read(raw_config(fields)) {
            Err(e) => Err(e),
            Ok(config) => Ok(
                PinView {
                    schema_version: pin_schema(fields)->Ok_0 as int,
                    name,
                    source: source->Ok_0,
                    version: version->Ok_0,
                    sha256: digest->Ok_0,
                    config,
                },
            ),
        }
    }
}

/// What an item says of the plugin that it is for, where it is for one.
pub open spec fn pin_of(fields: Seq<op::FieldView>) -> Result<Option<PinView>, Seq<Seq<char>>> {
    match field_value(fields, "OPZ_PLUGIN"@, 0) {
        None => Ok(None),
        Some(name) => match named_pin(fields, name) {
            Ok(pin) => Ok(Some(pin)),
            Err(e) => Err(e),
        },
    }
}

/// What an item says of the plugin that it is for, where it is for one.
pub fn parse_item_plugin_pin(item: &ItemGet) -> (r: Result<Option<ItemPluginPin>, Failure>)
    ensures
        match pin_of(item.deep_view().fields) {
            Ok(pin) => r matches Ok(found) && found.deep_view() == pin,
            Err(e) => r matches Err(failure) && failure@ == e,
        },
{
    let ghost fields = item.deep_view().fields;
    let name = match item_field_value(item, "OPZ_PLUGIN") {
        Some(name) => name,
        None => return Ok(None),
    };
    let schema_version = match read_pin_schema(item) {
        Ok(n) => n,
        Err(e) => return Err(e),
    };
    let source = match required_item_field(item, "OPZ_PLUGIN_SOURCE") {
        Ok(source) => source,
        Err(e) => return Err(e),
    };
    let version = match required_item_field(item, "OPZ_PLUGIN_VERSION") {
        Ok(version) => version,
        Err(e) => return Err(e),
    };
    let sha256 = match required_item_field(item, "OPZ_PLUGIN_SHA256") {
        Ok(digest) => digest,
        Err(e) => return Err(e),
    };
    if let Err(e) = check_pin(&name, &version, &sha256) {
        return Err(e);
    }
    let raw = match item_field_value(item, "OPZ_PLUGIN_CONFIG") {
        Some(raw) => raw,
        None => String::new(),
    };
    assert(raw@ =~= raw_config(fields));
    match plugin_config::read_config_text(&raw) {
        Err(e) => Err(e),
        Ok(config) => {
            let pin = ItemPluginPin { schema_version, name, source, version, sha256, config };
            assert(pin.deep_view() == named_pin(fields, name@)->Ok_0);
            Ok(Some(pin))
        },
    }
}

/// Checks that what was asked for is what the item pins.
pub fn check_requested(pin: &ItemPluginPin, name: &str, version: Option<&str>) -> (r: Result<
    (),
    Failure,
>)
    ensures
        failure::told_unit(r) == (if name@ != pin.name@ {
            Err(
                seq![
                    "item pins plugin `"@ + pin.name@ + "`, but `"@ + name@ + "` was requested"@,
                ],
            )
        } else if version is Some && version->0@ != pin.version@ {
            Err(
                seq![
                    "item pins plugin version "@ + pin.version@ + ", but "@ + version->0@
                        + " was requested"@,
                ],
            )
        } else {
            Ok(())
        }),
{
    if !text::same(name, &pin.name) {
        return Err(
            Failure::new(
                "item pins plugin `".to_owned().concat(&pin.name).concat("`, but `").concat(
                    name,
                ).concat("` was requested"),
            ),
        );
    }
    if let Some(version) = version {
        if !text::same(version, &pin.version) {
            return Err(
                Failure::new(
                    "item pins plugin version ".to_owned().concat(&pin.version).concat(
                        ", but ",
                    ).concat(version).concat(" was requested"),
                ),
            );
        }
    }
    Ok(())
}

/// Whether a pin is for a release.
pub open spec fn is_pinned(entry: PluginRegistryEntry, pin: ItemPluginPin) -> bool {
    pin.schema_version == 1 && pin.name@ == entry.name@ && pin.source@ == entry.source@
        && pin.version@ == entry.version@ && pin.sha256@ == entry.sha256@
}

/// The check that a pin is for a release.
pub open spec fn item_pin_check(entry: PluginRegistryEntry, pin: ItemPluginPin) -> plugin::Checked {
    if is_pinned(entry, pin) {
        Ok(())
    } else {
        Err(seq!["1Password item plugin pin does not match the selected registry release"@])
    }
}

/// Checks that a pin is for a release.
pub fn validate_item_pin(entry: &PluginRegistryEntry, pin: &ItemPluginPin) -> (r: Result<(), Failure>)
    ensures
        failure::told_unit(r) == item_pin_check(*entry, *pin),
{
    if pin.schema_version == 1 && text::same(&pin.name, &entry.name) && text::same(
        &pin.source,
        &entry.source,
    ) && text::same(&pin.version, &entry.version) && text::same(&pin.sha256, &entry.sha256) {
        Ok(())
    } else {
        Err(
            failure::fail("1Password item plugin pin does not match the selected registry release"),
        )
    }
}

/// The check that a plugin is for a command.
pub open spec fn target_check(
    m: PluginManifest,
    command: Seq<Seq<char>>,
    windows: bool,
) -> plugin::Checked {
    if command.len() == 0 {
        Err(seq!["plugin target command is empty"@])
    } else {
        match paths::base_name(command[0], windows) {
            None => Err(seq!["plugin target command is not valid UTF-8"@]),
            Some(name) => if seqs::texts(m.target_commands@).contains(name) {
                Ok(())
            } else {
                Err(
                    seq![
                        "plugin "@ + m.name@ + " supports ["@ + text::joined(
                            seqs::texts(m.target_commands@),
                            ", "@,
                        ) + "], not `"@ + name + "`"@,
                    ],
                )
            },
        }
    }
}

/// Checks that a plugin is for a command.
pub fn validate_target_command(
    manifest: &PluginManifest,
    command: &[String],
    windows: bool,
) -> (r: Result<(), Failure>)
    ensures
        failure::told_unit(r) == target_check(*manifest, seqs::texts(command@), windows),
{
    assert(seqs::texts(command@).len() == command@.len());
    if command.len() == 0 {
        return Err(failure::fail("plugin target command is empty"));
    }
    match paths::file_name(&command[0], windows) {
        None => Err(failure::fail("plugin target command is not valid UTF-8")),
        Some(name) => if seqs::has_text(&manifest.target_commands, &name) {
            Ok(())
        } else {
            Err(
                Failure::new(
                    "plugin ".to_owned().concat(&manifest.name).concat(" supports [").concat(
                        &text::join(&manifest.target_commands, ", "),
                    ).concat("], not `").concat(&name).concat("`"),
                ),
            )
        },
    }
}

/// Whether an item has a field with that label.
pub open spec fn has_label(fields: Seq<op::FieldView>, label: Seq<char>) -> bool {
    exists|i: int| 0 <= i < fields.len() && (#[trigger] fields[i]).label == Some(label)
}

/// Whether an item has a field with that label.
fn has_field(item: &ItemGet, label: &str) -> (r: bool)
    ensures
        r == has_label(item.deep_view().fields, label@),
{
    let ghost all = item.deep_view().fields;
    let mut i: usize = 0;
    while i < item.fields.len()
        invariant
            i <= item.fields@.len(),
            all == item.deep_view().fields,
            all.len() == item.fields@.len(),
            forall|k: int| 0 <= k < i ==> (#[trigger] all[k]).label != Some(label@),
        decreases item.fields@.len() - i,
    {
        assert(all[i as int] == item.fields@[i as int].deep_view());
        if let Some(own) = &item.fields[i].label {
            if text::same(own, label) {
                assert(all[i as int].label == Some(label@));
                return true;
            }
        }
        i += 1;
    }
    false
}

/// The line for a secret that a plugin needs.
pub open spec fn secret_reader(
    fields: Seq<op::FieldView>,
    vault: Seq<char>,
    item: Seq<char>,
) -> spec_fn(Seq<char>) -> Result<Seq<char>, Seq<Seq<char>>> {
    |name: Seq<char>|
        if has_label(fields, name) {
            Ok(op::env_line(name, vault, item))
        } else {
            Err(seq!["plugin requires missing item field `"@ + name + "`"@])
        }
}

/// The lines for the secrets that a plugin needs: only those that it lists, and all of them.
pub fn plugin_secret_lines(
    manifest: &PluginManifest,
    item: &ItemGet,
    vault_id: &str,
    item_id: &str,
) -> (r: Result<Vec<String>, Failure>)
    ensures
        failure::told_texts(r) == seqs::collected(
            seqs::texts(manifest.secret_env_allowlist@),
            secret_reader(item.deep_view().fields, vault_id@, item_id@),
        ),
{
    let names = &manifest.secret_env_allowlist;
    let ghost all = seqs::texts(names@);
    let ghost f = secret_reader(item.deep_view().fields, vault_id@, item_id@);
    let mut lines = seqs::no_texts();
    let mut i: usize = 0;
    assert(all.take(0) =~= Seq::<Seq<char>>::empty());
    while i < names.len()
        invariant
            i <= names@.len(),
            all == seqs::texts(names@),
            *names == manifest.secret_env_allowlist,
            f == secret_reader(item.deep_view().fields, vault_id@, item_id@),
            seqs::collected(all.take(i as int), f) == Ok::<Seq<Seq<char>>, Seq<Seq<char>>>(
                seqs::texts(lines@),
            ),
        decreases names@.len() - i,
    {
        proof {
            seqs::lemma_collected(all, f, i as int);
            assert(all[i as int] == names@[i as int]@);
        }
        if !has_field(item, &names[i]) {
            return Err(
                Failure::new(
                    "plugin requires missing item field `".to_owned().concat(&names[i]).concat("`"),
                ),
            );
        }
        seqs::push_string(&mut lines, op::build_env_line(&names[i], vault_id, item_id));
        i += 1;
    }
    Ok(lines)
}

/// What a run needs before a workspace is made: the configuration, and lines for the secrets.
#[derive(Debug)]
pub struct PluginInputs {
    pub config: StringMap<ConfigValue>,
    pub secret_lines: Vec<String>,
}

/// What a run needs before a workspace is made.
pub fn prepare_run(
    plugin: &ResolvedPlugin,
    pin: &ItemPluginPin,
    command: &[String],
    item: &ItemGet,
    vault_id: &str,
    item_id: &str,
    windows: bool,
) -> (r: Result<PluginInputs, Failure>)
    ensures
        ({
            let config = plugin_config::runtime_config(
                plugin.manifest.config@,
                plugin.manifest.defaults.deep(),
                pin.config.deep(),
            );
            let lines = seqs::collected(
                seqs::texts(plugin.manifest.secret_env_allowlist@),
                secret_reader(item.deep_view().fields, vault_id@, item_id@),
            );
            match seqs::both(
                item_pin_check(plugin.entry, *pin),
                target_check(plugin.manifest, seqs::texts(command@), windows),
            ) {
                Err(e) => r matches Err(failure) && failure@ == e,
                Ok(_) => match (config, lines) {
                    (Err(e), _) => r matches Err(failure) && failure@ == e,
                    (Ok(_), Err(e)) => r matches Err(failure) && failure@ == e,
                    (Ok(c), Ok(l)) => r matches Ok(inputs) && inputs.config.deep() == c
                        && seqs::texts(inputs.secret_lines@) == l,
                },
            }
        }),
{
    if let Err(e) = validate_item_pin(&plugin.entry, pin) {
        return Err(e);
    }
    if let Err(e) = validate_target_command(&plugin.manifest, command, windows) {
        return Err(e);
    }
    let config = match plugin_config::build_runtime_config(
        &plugin.manifest.config,
        &plugin.manifest.defaults,
        &pin.config,
    ) {
        Ok(config) => config,
        Err(e) => return Err(e),
    };
    match plugin_secret_lines(&plugin.manifest, item, vault_id, item_id) {
        Ok(secret_lines) => Ok(PluginInputs { config, secret_lines }),
        Err(e) => Err(e),
    }
}

/// The command with the arguments of the plugin right after the program.
pub fn target_command(command: &[String], plugin_arguments: &[String]) -> (r: Result<
    Vec<String>,
    Failure,
>)
    ensures
        failure::told_texts(r) == (if command@.len() == 0 {
            Err(seq!["plugin target command is empty"@])
        } else {
            Ok(
                seq![command@[0]@] + seqs::texts(plugin_arguments@) + seqs::texts(
                    command@,
                ).drop_first(),
            )
        }),
{
    if command.len() == 0 {
        return Err(failure::fail("plugin target command is empty"));
    }
    let ghost all = seqs::texts(command@);
    let mut r = seqs::no_texts();
    seqs::push_text(&mut r, &command[0]);
    seqs::push_texts(&mut r, plugin_arguments);
    let ghost start = seqs::texts(r@);
    assert(start =~= seq![command@[0]@] + seqs::texts(plugin_arguments@));
    let mut i: usize = 1;
    while i < command.len()
        invariant
            1 <= i <= command@.len(),
            all == seqs::texts(command@),
            seqs::texts(r@) == start + all.subrange(1, i as int),
        decreases command@.len() - i,
    {
        assert(start + all.subrange(1, i + 1) =~= (start + all.subrange(1, i as int)).push(
            command@[i as int]@,
        ));
        seqs::push_text(&mut r, &command[i]);
        i += 1;
    }
    assert(all.subrange(1, all.len() as int) =~= all.drop_first());
    Ok(r)
}

/// The variables of this process that are looked up and handed on to the target of a plugin.
pub open spec fn baseline() -> Seq<Seq<char>> {
    seq![
        "PATH"@,
        "HOME"@,
        "USER"@,
        "LOGNAME"@,
        "SHELL"@,
        "TMPDIR"@,
        "TEMP"@,
        "TMP"@,
        "SystemRoot"@,
        "WINDIR"@,
        "ComSpec"@,
        "PATHEXT"@,
        "TERM"@,
        "COLORTERM"@,
        "LANG"@,
        "SSL_CERT_FILE"@,
        "SSL_CERT_DIR"@,
    ]
}

/// The variables of this process that are looked up and handed on to the target of a plugin, under
/// these names.
pub fn baseline_names() -> (r: Vec<String>)
    ensures
        seqs::texts(r@) == baseline(),
{
    let mut r = seqs::no_texts();
    seqs::push_text(&mut r, "PATH");
    seqs::push_text(&mut r, "HOME");
    seqs::push_text(&mut r, "USER");
    seqs::push_text(&mut r, "LOGNAME");
    seqs::push_text(&mut r, "SHELL");
    seqs::push_text(&mut r, "TMPDIR");
    seqs::push_text(&mut r, "TEMP");
    seqs::push_text(&mut r, "TMP");
    seqs::push_text(&mut r, "SystemRoot");
    seqs::push_text(&mut r, "WINDIR");
    seqs::push_text(&mut r, "ComSpec");
    seqs::push_text(&mut r, "PATHEXT");
    seqs::push_text(&mut r, "TERM");
    seqs::push_text(&mut r, "COLORTERM");
    seqs::push_text(&mut r, "LANG");
    seqs::push_text(&mut r, "SSL_CERT_FILE");
    seqs::push_text(&mut r, "SSL_CERT_DIR");
    assert(seqs::texts(r@) =~= baseline());
    r
}

/// Whether a variable of this process sets the locale; such a variable is handed on too.
pub fn is_locale_variable(name: &str) -> (r: bool)
    ensures
        r == text::begins(name@, "LC_"@),
{
    text::starts_with(name, "LC_")
}

/// The plugins that items select.
pub open spec fn selections(items: Seq<crate::resolver::ResolvedView>) -> Seq<Seq<char>>
    decreases items.len(),
{
    if items.len() == 0 {
        Seq::empty()
    } else {
        let before = selections(items.drop_last());
        match field_value(items.last().item.fields, "OPZ_PLUGIN"@, 0) {
            Some(name) => before.push(name),
            None => before,
        }
    }
}

/// The plugin that items select, if they select one. A plugin is for one item only, and generates
/// no file that is kept.
pub fn choose_plugin(items: &Vec<ResolvedItem>, keeps_env_file: bool) -> (r: Result<
    Option<String>,
    Failure,
>)
    ensures
        ({
            let found = selections(items.deep_view());
            if found.len() == 0 {
                r matches Ok(None)
            } else if keeps_env_file {
                failure::failed(
                    r,
                    "`--env-file` cannot be combined with an item-selected plugin; generated plugin files are private and temporary"@,
                )
            } else if items@.len() != 1 || found.len() != 1 {
                failure::failed(r, "plugin execution requires exactly one 1Password item"@)
            } else {
                r matches Ok(Some(name)) && name@ == found[0]
            }
        }),
{
    let ghost all = items.deep_view();
    let mut found = seqs::no_texts();
    let mut i: usize = 0;
    while i < items.len()
        invariant
            i <= items@.len(),
            all == items.deep_view(),
            seqs::texts(found@) == selections(all.take(i as int)),
        decreases items@.len() - i,
    {
        proof {
            assert(all.take(i + 1).drop_last() == all.take(i as int));
            assert(all.take(i + 1).last() == items@[i as int].deep_view());
        }
        if let Some(name) = item_field_value(&items[i].item, "OPZ_PLUGIN") {
            seqs::push_string(&mut found, name);
        }
        i += 1;
    }
    assert(seqs::texts(found@).len() == found@.len());
    if found.len() == 0 {
        return Ok(None);
    }
    if keeps_env_file {
        return Err(
            failure::fail(
                "`--env-file` cannot be combined with an item-selected plugin; generated plugin files are private and temporary",
            ),
        );
    }
    if items.len() != 1 || found.len() != 1 {
        return Err(failure::fail("plugin execution requires exactly one 1Password item"));
    }
    assert(seqs::texts(found@)[0] == found@[0]@);
    Ok(Some(found[0].clone()))
}

/// The line for a release in a list.
pub fn list_line(plugin: &ResolvedPlugin) -> (r: String)
    ensures
        r@ == plugin.entry.name@ + "\t"@ + plugin.entry.version@ + "\t"@ + plugin::lifecycle_name(
            plugin.entry.lifecycle,
        ) + "\t"@ + plugin::origin_name(plugin.origin) + "\t"@ + plugin.entry.description@,
{
    plugin.entry.name.clone().concat("\t").concat(&plugin.entry.version).concat("\t").concat(
        plugin.entry.lifecycle.label(),
    ).concat("\t").concat(plugin.origin.label()).concat("\t").concat(&plugin.entry.description)
}

/// What is shown of a release.
pub open spec fn shown(plugin: ResolvedPlugin) -> Seq<char> {
    let head = "name = "@ + plugin.entry.name@ + "\nversion = "@ + plugin.entry.version@
        + "\nlifecycle = "@ + plugin::lifecycle_name(plugin.entry.lifecycle) + "\nsource = "@
        + plugin.entry.source@ + "\nsha256 = "@ + plugin.entry.sha256@ + "\norigin = "@
        + plugin::origin_name(plugin.origin) + "\n\n"@ + plugin.manifest_text@;
    if text::ends(plugin.manifest_text@, "\n"@) {
        head
    } else {
        head + "\n"@
    }
}

/// What is shown of a release.
pub fn show_plugin(plugin: &ResolvedPlugin) -> (r: String)
    ensures
        r@ == shown(*plugin),
{
    let head = "name = ".to_owned().concat(&plugin.entry.name).concat("\nversion = ").concat(
        &plugin.entry.version,
    ).concat("\nlifecycle = ").concat(plugin.entry.lifecycle.label()).concat("\nsource = ").concat(
        &plugin.entry.source,
    ).concat("\nsha256 = ").concat(&plugin.entry.sha256).concat("\norigin = ").concat(
        plugin.origin.label(),
    ).concat("\n\n").concat(&plugin.manifest_text);
    if text::ends_with(&plugin.manifest_text, "\n") {
        head
    } else {
        head.concat("\n")
    }
}

} // verus!
