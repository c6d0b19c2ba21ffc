//! Launching a command with the plugin that an item pins.

use vstd::prelude::*;
use vstd::string::*;

use crate::failure;
use crate::failure::Failure;
use crate::op;
use crate::plugin;
use crate::plugin::ResolvedPlugin;
use crate::plugin_config;
use crate::plugin_run;
use crate::plugin_run::{ItemPluginPin, PinView, PluginInputs};
use crate::resolver::ResolvedItem;
use crate::seqs;

verus! {

broadcast use crate::seqs::group_seqs;

/// The check that what was asked for is what the item pins.
pub open spec fn requested_check(
    pin: PinView,
    name: Seq<char>,
    version: Option<Seq<char>>,
) -> plugin::Checked {
    if name != pin.name {
        Err(seq!["item pins plugin `"@ + pin.name + "`, but `"@ + name + "` was requested"@])
    } else if version is Some && version->0 != pin.version {
        Err(
            seq![
                "item pins plugin version "@ + pin.version + ", but "@ + version->0
                    + " was requested"@,
            ],
        )
    } else {
        Ok(())
    }
}

/// The pin of an item and the position of the release that it is for.
pub open spec fn pinned_release(
    plugins: Seq<ResolvedPlugin>,
    fields: Seq<op::FieldView>,
    selector: Seq<char>,
    allow_deprecated: bool,
    own_version: Seq<char>,
) -> Result<(PinView, int), Seq<Seq<char>>> {
    match plugin_run::pin_of(fields) {
        Err(e) => Err(e),
        Ok(None) => Err(
            seq!["item is missing OPZ_PLUGIN; plugin runs require an integrity-pinned item"@],
        ),
        Ok(Some(pin)) => match plugin_run::selector_of(selector) {
            Err(e) => Err(e),
            Ok((name, version)) => match requested_check(pin, name, version) {
                Err(e) => Err(e),
                Ok(_) => match plugin_run::newest_release(
                    plugins,
                    pin.name,
                    Some(pin.version),
                    plugins.len() as int,
                ) {
                    None => Err(seq!["plugin not found: "@ + (pin.name + "@"@ + pin.version)]),
                    Some(i) => match plugin_run::runnable_check(
                        plugins[i].entry,
                        allow_deprecated,
                        own_version,
                    ) {
                        Err(e) => Err(e),
                        Ok(_) => Ok((pin, i)),
                    },
                },
            },
        },
    }
}

/// The pin of an item and the position of the release that it is for.
pub fn find_pinned_release(
    plugins: &Vec<ResolvedPlugin>,
    item: &op::ItemGet,
    selector: &str,
    allow_deprecated: bool,
    own_version: &str,
) -> (r: Result<(ItemPluginPin, usize), Failure>)
    ensures
        match pinned_release(
            plugins@,
            item.deep_view().fields,
            selector@,
            allow_deprecated,
            own_version@,
        ) {
            Err(e) => r matches Err(failure) && failure@ == e,
            Ok((pin, i)) => r matches Ok((own, found)) && own.deep_view() == pin && found == i
                && found < plugins@.len(),
        },
{
    let pin = match plugin_run::parse_item_plugin_pin(item)? {
        Some(pin) => pin,
        None => return Err(
            failure::fail(
                "item is missing OPZ_PLUGIN; plugin runs require an integrity-pinned item",
            ),
        ),
    };
    let (name, version) = plugin_run::parse_selector(selector)?;
    let version = match &version {
        Some(version) => Some(version.as_str()),
        None => None,
    };
    plugin_run::check_requested(&pin, &name, version)?;
    let release = pin.name.clone().concat("@").concat(&pin.version);
    let found = plugin_run::find_release(plugins, &pin.name, Some(&pin.version), &release)?;
    plugin_run::check_runnable(&plugins[found].entry, allow_deprecated, own_version)?;
    Ok((pin, found))
}

/// The release with which a command is launched, and what the launch needs before a workspace is
/// made. The release is the one whose name, version, source and digest the item pins, and it is
/// not revoked.
pub fn plan_launch(
    plugins: &Vec<ResolvedPlugin>,
    item: &ResolvedItem,
    selector: &str,
    command: &[String],
    allow_deprecated: bool,
    own_version: &str,
    windows: bool,
) -> (r: Result<(usize, PluginInputs), Failure>)
    ensures
        match pinned_release(
            plugins@,
            item.deep_view().item.fields,
            selector@,
            allow_deprecated,
            own_version@,
        ) {
            Err(e) => r matches Err(failure) && failure@ == e,
            Ok((pin, i)) => {
                let entry = plugins@[i].entry;
                let manifest = plugins@[i].manifest;
                let pinned = pin.schema_version == 1 && pin.name == entry.name@ && pin.source
                    == entry.source@ && pin.version == entry.version@ && pin.sha256
                    == entry.sha256@;
                let config = plugin_config::runtime_config(
                    manifest.config@,
                    manifest.defaults.deep(),
                    pin.config,
                );
                let lines = seqs::collected(
                    seqs::texts(manifest.secret_env_allowlist@),
                    plugin_run::secret_reader(
                        item.deep_view().item.fields,
                        item.vault_id@,
                        item.item_id@,
                    ),
                );
                match plugin_run::target_check(manifest, seqs::texts(command@), windows) {
                    _ if !pinned => failure::failed(
                        r,
                        "1Password item plugin pin does not match the selected registry release"@,
                    ),
                    Err(e) => r matches Err(failure) && failure@ == e,
                    Ok(_) => match (config, lines) {
                        (Err(e), _) => r matches Err(failure) && failure@ == e,
                        (Ok(_), Err(e)) => r matches Err(failure) && failure@ == e,
                        (Ok(c), Ok(l)) => r matches Ok((found, inputs)) && found == i && found
                            < plugins@.len() && inputs.config.deep() == c && seqs::texts(
                            inputs.secret_lines@,
                        ) == l && !(entry.lifecycle is Revoked),
                    },
                }
            },
        },
{
    let (pin, found) = find_pinned_release(
        plugins,
        &item.item,
        selector,
        allow_deprecated,
        own_version,
    )?;
    let inputs = plugin_run::prepare_run(
        &plugins[found],
        &pin,
        command,
        &item.item,
        &item.vault_id,
        &item.item_id,
        windows,
    )?;
    Ok((found, inputs))
}

} // verus!
