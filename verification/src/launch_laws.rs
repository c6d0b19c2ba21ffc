//! What holds of the start of a plugin: what an item pins, which release it is for, and what the
//! plugin gets.

use vstd::prelude::*;
use vstd::string::*;

use crate::op;
use crate::paths;
use crate::pattern;
use crate::plugin;
use crate::plugin::{PluginManifest, PluginRegistryEntry, ResolvedPlugin};
use crate::plugin_config;
use crate::plugin_config::{ConfigView, PluginConfigField};
use crate::plugin_launch;
use crate::plugin_run;
use crate::plugin_run::{ItemPluginPin, PinView};
use crate::plugin_template;
use crate::resolver::ResolvedView;
use crate::seqs;
use crate::text;

verus! {

broadcast use crate::seqs::group_seqs;

/// What is asked for passes where it has the name that the item pins and, if it has a version,
/// the version too.
pub proof fn law_requested(pin: PinView, name: Seq<char>, version: Option<Seq<char>>)
    ensures
        plugin_launch::requested_check(pin, name, version) is Ok <==> name == pin.name && (
        version matches Some(own) ==> own == pin.version),
{
}

/// A release is started only where the item pins one, what is asked for agrees with the pin, and
/// the release of that name and that version is there and may run.
pub proof fn law_pinned_release(
    plugins: Seq<ResolvedPlugin>,
    fields: Seq<op::FieldView>,
    selector: Seq<char>,
    allow_deprecated: bool,
    own_version: Seq<char>,
)
    ensures
        plugin_launch::pinned_release(
            plugins,
            fields,
            selector,
            allow_deprecated,
            own_version,
        ) matches Ok(found) ==> {
            let pin = found.0;
            let i = found.1;
            &&& plugin_run::pin_of(fields) == Ok::<Option<PinView>, Seq<Seq<char>>>(Some(pin))
            &&& plugin_run::selector_of(selector) matches Ok(asked) && asked.0 == pin.name && (
            asked.1 is Some ==> asked.1 == Some(pin.version))
            &&& 0 <= i < plugins.len()
            &&& plugins[i].entry.name@ == pin.name
            &&& plugins[i].entry.version@ == pin.version
            &&& plugin_run::runnable_check(plugins[i].entry, allow_deprecated, own_version) is Ok
        },
        plugin_run::pin_of(fields) == Ok::<Option<PinView>, Seq<Seq<char>>>(None)
            ==> plugin_launch::pinned_release(
            plugins,
            fields,
            selector,
            allow_deprecated,
            own_version,
        ) is Err,
{
    if let Ok(Some(pin)) = plugin_run::pin_of(fields) {
        lemma_asked_for(plugins, pin.name, Some(pin.version), plugins.len() as int);
    }
}

/// The newest release is one that was asked for.
proof fn lemma_asked_for(
    plugins: Seq<ResolvedPlugin>,
    name: Seq<char>,
    version: Option<Seq<char>>,
    n: int,
)
    requires
        n <= plugins.len(),
    ensures
        plugin_run::newest_release(plugins, name, version, n) matches Some(i) ==> 0 <= i < n
            && plugins[i].entry.name@ == name && (version is Some ==> plugins[i].entry.version@
            == version->0),
    decreases n,
{
    if n > 0 {
        lemma_asked_for(plugins, name, version, n - 1);
    }
}

/// An item pins a plugin where it follows the first schema, names a source, a version and a
/// digest, all of them well formed, and its configuration can be read; the pin holds just that.
pub proof fn law_pin(fields: Seq<op::FieldView>, name: Seq<char>)
    requires
        plugin_run::field_value(fields, "OPZ_PLUGIN"@, 0) == Some(name),
    ensures
        ({
            let found = plugin_run::pin_of(fields);
            let schema = plugin_run::field_value(fields, "OPZ_PLUGIN_SCHEMA_VERSION"@, 0);
            let source = plugin_run::field_value(fields, "OPZ_PLUGIN_SOURCE"@, 0);
            let version = plugin_run::field_value(fields, "OPZ_PLUGIN_VERSION"@, 0);
            let digest = plugin_run::field_value(fields, "OPZ_PLUGIN_SHA256"@, 0);
            let raw = plugin_run::field_value(fields, "OPZ_PLUGIN_CONFIG"@, 0);
            let config = plugin_config::config_text_read(
                match raw {
                    Some(own) => own,
                    None => Seq::empty(),
                },
            );
            &&& found is Ok <==> schema is Some && text::numeral(schema->0, u32::MAX as nat) == Some(
                1nat,
            ) && source is Some && version is Some && digest is Some && pattern::is_hyphenated(name)
                && plugin::version_of(version->0) is Ok && pattern::is_digest(digest->0) && config
                is Ok
            &&& found matches Ok(pinned) ==> (pinned matches Some(pin) && pin.schema_version == 1
                && pin.name == name && Some(pin.source) == source && Some(pin.version) == version
                && Some(pin.sha256) == digest && Ok::<_, Seq<Seq<char>>>(pin.config) == config)
        }),
{
}

/// An item without the name of a plugin pins none, whatever else it has.
pub proof fn law_no_pin(fields: Seq<op::FieldView>)
    requires
        plugin_run::field_value(fields, "OPZ_PLUGIN"@, 0) is None,
    ensures
        plugin_run::pin_of(fields) == Ok::<Option<PinView>, Seq<Seq<char>>>(None),
{
}

/// A pin is for a release where the two have the same name, source, version and digest.
pub proof fn law_pin_agrees(entry: PluginRegistryEntry, pin: ItemPluginPin)
    ensures
        plugin_run::item_pin_check(entry, pin) is Ok <==> pin.schema_version == 1 && pin.name@
            == entry.name@ && pin.source@ == entry.source@ && pin.version@ == entry.version@
            && pin.sha256@ == entry.sha256@,
{
}

/// A plugin is for a command where the last part of its path is one of its targets.
pub proof fn law_target(m: PluginManifest, command: Seq<Seq<char>>, windows: bool)
    ensures
        plugin_run::target_check(m, command, windows) is Ok <==> command.len() > 0 && (
        paths::base_name(command[0], windows) matches Some(name) && seqs::texts(
            m.target_commands@,
        ).contains(name)),
{
}

/// A secret that the item has a field for is set to the reference to that field, and one without
/// a field is missed.
pub proof fn law_secret_read(
    fields: Seq<op::FieldView>,
    vault: Seq<char>,
    item: Seq<char>,
    name: Seq<char>,
)
    ensures
        plugin_run::secret_reader(fields, vault, item)(name) is Ok <==> exists|i: int|
            0 <= i < fields.len() && (#[trigger] fields[i]).label == Some(name),
        plugin_run::secret_reader(fields, vault, item)(name) matches Ok(line) ==> line == name
            + "=op://"@ + vault + "/"@ + item + "/"@ + name,
{
    if plugin_run::has_label(fields, name) {
        let i = choose|i: int| 0 <= i < fields.len() && (#[trigger] fields[i]).label == Some(name);
        assert(fields[i].label == Some(name));
    }
}

/// The plugins of items are read item by item, in their order.
pub proof fn law_selections_read(a: Seq<ResolvedView>, b: Seq<ResolvedView>)
    ensures
        plugin_run::selections(a + b) == plugin_run::selections(a) + plugin_run::selections(b),
    decreases b.len(),
{
    if b.len() == 0 {
        assert(a + b =~= a);
        assert(plugin_run::selections(a) + plugin_run::selections(b) =~= plugin_run::selections(a));
    } else {
        law_selections_read(a, b.drop_last());
        assert((a + b).drop_last() =~= a + b.drop_last());
        assert((a + b).last() == b.last());
        assert(plugin_run::selections(a + b) =~= plugin_run::selections(a)
            + plugin_run::selections(b));
    }
}

/// An item selects the plugin that its field `OPZ_PLUGIN` names, and none without that field.
pub proof fn law_selection_read(item: ResolvedView)
    ensures
        plugin_run::selections(seq![item]) == (match plugin_run::field_value(
            item.item.fields,
            "OPZ_PLUGIN"@,
            0,
        ) {
            Some(name) => seq![name],
            None => Seq::empty(),
        }),
{
    reveal_with_fuel(plugin_run::selections, 2);
    assert(seq![item].drop_last() =~= Seq::<ResolvedView>::empty());
    assert(seq![item].last() == item);
    if let Some(name) = plugin_run::field_value(item.item.fields, "OPZ_PLUGIN"@, 0) {
        assert(plugin_run::selections(seq![item]) =~= seq![name]);
    }
}

/// A blank configuration is an empty one. Another is taken as it stands in the text where it is
/// not too long and has at most sixty-four entries, each of them a scalar.
pub proof fn law_config_text(raw: Seq<char>)
    ensures
        vstd::utf8::encode_utf8(raw).len() > 16384 ==> plugin_config::config_text_read(raw) is Err,
        vstd::utf8::encode_utf8(raw).len() <= 16384 && text::trimmed(raw).len() == 0
            ==> plugin_config::config_text_read(raw) == Ok::<
            Seq<(Seq<char>, ConfigView)>,
            Seq<Seq<char>>,
        >(Seq::empty()),
        vstd::utf8::encode_utf8(raw).len() <= 16384 && text::trimmed(raw).len() > 0 ==> {
            let table = plugin_config::toml_table(raw);
            let found = plugin_config::config_text_read(raw);
            &&& found is Ok <==> table is Ok && (table->Ok_0).len() <= 64 && forall|i: int|
                0 <= i < (table->Ok_0).len() ==> !((#[trigger] (table->Ok_0)[i]).1 is Other)
            &&& found matches Ok(config) ==> config == table->Ok_0
        },
{
    if let Ok(config) = plugin_config::toml_table(raw) {
        if plugin_config::is_flat(config) {
            assert forall|i: int| 0 <= i < config.len() implies !((#[trigger] config[i]).1
                is Other) by {
                assert(plugin_config::is_scalar_view(config[i].1));
            }
        }
    }
}

/// A declared field passes where its key is well formed, it has a default exactly where it is not
/// required, and that default is one that it takes and the one among the defaults.
pub proof fn law_field_declared(
    defaults: Seq<(Seq<char>, ConfigView)>,
    key: Seq<char>,
    field: PluginConfigField,
)
    ensures
        plugin_config::field_check(defaults)((key, field)) is Ok <==> pattern::is_config_key(key)
            && (field.required <==> field.default is None) && (match (
            crate::map::lookup(defaults, key),
            field.default,
        ) {
            (None, None) => true,
            (Some(x), Some(y)) => plugin_config::same_views(x, y.deep_view())
                && plugin_config::value_check(key, field, y.deep_view()) is Ok,
            _ => false,
        }),
{
}

/// All that a plugin declares of its configuration passes where each field does and each default
/// belongs to a field.
pub proof fn law_contract(
    fields: Seq<(Seq<char>, PluginConfigField)>,
    defaults: Seq<(Seq<char>, ConfigView)>,
)
    ensures
        plugin_config::contract_check(fields, defaults) is Ok <==> (forall|i: int|
            0 <= i < fields.len() ==> plugin_config::field_check(defaults)(#[trigger] fields[i])
                is Ok) && (forall|i: int|
            0 <= i < defaults.len() ==> crate::map::has_key(fields, (#[trigger] defaults[i]).0)),
{
    let check = plugin_config::default_check(fields);
    seqs::law_each(fields, plugin_config::field_check(defaults));
    seqs::law_each(defaults, check);
    assert forall|i: int| 0 <= i < defaults.len() implies (check(#[trigger] defaults[i]) is Ok
        <==> crate::map::has_key(fields, defaults[i].0)) by {}
}

/// A placeholder is known where it is `tmp`, a declared variable behind `env.`, or a declared
/// field behind `config.`; any other is refused.
pub proof fn law_placeholder_known(
    env: plugin_template::Values,
    fields: plugin_template::Fields,
    name: Seq<char>,
    key: Seq<char>,
)
    ensures
        plugin_template::placeholder_check(env, fields)("tmp"@) is Ok,
        plugin_template::placeholder_check(env, fields)("env."@ + name) is Ok <==> crate::map::has_key(
            env,
            name,
        ),
        plugin_template::placeholder_check(env, fields)("config."@ + name) is Ok
            <==> crate::map::has_key(fields, name),
        key != "tmp"@ && !text::begins(key, "env."@) && !text::begins(key, "config."@)
            ==> plugin_template::placeholder_check(env, fields)(key) is Err,
{
    reveal_strlit("tmp");
    reveal_strlit("env.");
    reveal_strlit("config.");
    let a = "env."@ + name;
    let b = "config."@ + name;
    assert(a[0] == 'e');
    assert(b[0] == 'c');
    assert("tmp"@[0] == 't');
    assert("env."@[0] == 'e');
    assert(a.subrange(0, 4) =~= "env."@);
    assert(a.subrange(4, a.len() as int) =~= name);
    assert(b.subrange(0, 7) =~= "config."@);
    assert(b.subrange(7, b.len() as int) =~= name);
    if text::begins(b, "env."@) {
        assert(b.subrange(0, 4)[0] == 'e');
    }
}

/// A template passes where nothing in it could be executed and all its placeholders are known.
pub proof fn law_template_passes(
    env: plugin_template::Values,
    fields: plugin_template::Fields,
    template: Seq<char>,
)
    ensures
        plugin_template::template_check(env, fields)(template) is Ok <==> !text::holds(
            template,
            "$("@,
        ) && !template.contains('`') && !pattern::has_expansion(template) && !text::holds(
            template,
            "{{"@,
        ) && !text::holds(template, "}}"@) && (plugin_template::placeholders(
            template,
            0,
        ) matches Ok(keys) && forall|i: int|
            0 <= i < keys.len() ==> plugin_template::placeholder_check(env, fields)(
                #[trigger] keys[i],
            ) is Ok),
{
    if let Ok(keys) = plugin_template::placeholders(template, 0) {
        seqs::law_each(keys, plugin_template::placeholder_check(env, fields));
    }
}

/// A generated file has the rendered content, and its path is the rendered one where that leads
/// into the workspace.
pub proof fn law_generated_file(
    path: Seq<char>,
    content: Seq<char>,
    config: plugin_template::Config,
    env: plugin_template::Values,
    workspace: Seq<char>,
    windows: bool,
)
    ensures
        ({
            let file = plugin_template::generated_file(
                path,
                content,
                config,
                env,
                workspace,
                windows,
            );
            let at = plugin_template::rendered(path, 0, config, env, workspace);
            let held = plugin_template::rendered(content, 0, config, env, workspace);
            &&& file is Ok <==> at is Ok && held is Ok && paths::generated_path(
                workspace,
                at->Ok_0,
                windows,
            ) is Ok
            &&& file matches Ok(found) ==> found.1 == held->Ok_0 && paths::generated_path(
                workspace,
                at->Ok_0,
                windows,
            ) == Ok::<Seq<char>, Seq<Seq<char>>>(found.0)
        }),
{
}

} // verus!
