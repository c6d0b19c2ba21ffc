//! What holds of plugins: their versions, what may be declared, and what templates become.

use vstd::prelude::*;
use vstd::string::*;

use crate::op::CreateFieldView;
use crate::plugin;
use crate::plugin::{PluginManifest, PluginRegistryEntry};
use crate::plugin_config;
use crate::plugin_config::{ConfigView, PluginConfigField, PluginConfigType};
use crate::plugin_template;
use crate::plugin_template::{Config, Values};
use crate::security;
use crate::seqs;
use crate::text;
use crate::text_laws;

verus! {

broadcast use crate::seqs::group_seqs;

/// What stands at the first place of a character does not depend on what stands before.
proof fn lemma_next_char_shift(a: Seq<char>, s: Seq<char>, c: char, i: int)
    requires
        0 <= i <= s.len(),
    ensures
        plugin_template::next_char(a + s, c, a.len() + i) == (match plugin_template::next_char(
            s,
            c,
            i,
        ) {
            Some(k) => Some(a.len() + k),
            None => None,
        }),
    decreases s.len() - i,
{
    if i < s.len() {
        assert((a + s)[a.len() + i] == s[i]);
        if s[i] != c {
            lemma_next_char_shift(a, s, c, i + 1);
        }
    }
}

/// The first place of a character.
proof fn lemma_next_char_is(s: Seq<char>, c: char, from: int, at: int)
    requires
        0 <= from <= at < s.len(),
        s[at] == c,
        forall|i: int| from <= i < at ==> #[trigger] s[i] != c,
    ensures
        plugin_template::next_char(s, c, from) == Some(at),
    decreases at - from,
{
    if from < at {
        assert(s[from] != c);
        lemma_next_char_is(s, c, from + 1, at);
    }
}

/// What a template becomes does not depend on what stands before it.
proof fn lemma_rendered_shift(
    a: Seq<char>,
    s: Seq<char>,
    i: int,
    config: Config,
    env: Values,
    workspace: Seq<char>,
)
    requires
        0 <= i <= s.len(),
    ensures
        plugin_template::rendered(a + s, a.len() + i, config, env, workspace)
            == plugin_template::rendered(s, i, config, env, workspace),
    decreases s.len() - i,
{
    let all = a + s;
    let n = a.len() as int;
    lemma_next_char_shift(a, s, '{', i);
    lemma_next_char_shift(a, s, '}', i);
    assert(all.subrange(n + i, all.len() as int) =~= s.subrange(i, s.len() as int));
    if let Some(open) = plugin_template::next_char(s, '{', i) {
        plugin_template::lemma_next_char(s, '{', i);
        lemma_next_char_shift(a, s, '}', open + 1);
        assert(all.subrange(n + i, n + open) =~= s.subrange(i, open));
        if let Some(close) = plugin_template::next_char(s, '}', open + 1) {
            plugin_template::lemma_next_char(s, '}', open + 1);
            assert(all.subrange(n + open + 1, n + close) =~= s.subrange(open + 1, close));
            lemma_rendered_shift(a, s, close + 1, config, env, workspace);
        }
    }
}

/// A placeholder gives way to what is put in for it; what stands before it is kept, and the rest is
/// rendered by itself.
pub proof fn law_placeholder_filled(
    before: Seq<char>,
    key: Seq<char>,
    rest: Seq<char>,
    config: Config,
    env: Values,
    workspace: Seq<char>,
)
    requires
        !before.contains('{'),
        !key.contains('}'),
    ensures
        plugin_template::rendered(
            before + seq!['{'] + key + seq!['}'] + rest,
            0,
            config,
            env,
            workspace,
        ) == (match (
            plugin_template::filling(key, config, env, workspace),
            plugin_template::rendered(rest, 0, config, env, workspace),
        ) {
            (Err(e), _) => Err(e),
            (Ok(_), Err(e)) => Err(e),
            (Ok(value), Ok(more)) => Ok(before + value + more),
        }),
{
    let head = before + seq!['{'] + key + seq!['}'];
    let s = head + rest;
    let open = before.len() as int;
    let close = open + 1 + key.len();
    assert(s[open] == '{' && s[close] == '}');
    assert forall|i: int| 0 <= i < open implies #[trigger] s[i] != '{' by {
        assert(s[i] == before[i]);
        assert(before.contains(before[i]));
    }
    lemma_next_char_is(s, '{', 0, open);
    assert forall|i: int| open + 1 <= i < close implies #[trigger] s[i] != '}' by {
        assert(s[i] == key[i - open - 1]);
        assert(key.contains(key[i - open - 1]));
    }
    lemma_next_char_is(s, '}', open + 1, close);
    assert(s.subrange(open + 1, close) =~= key);
    assert(s.subrange(0, open) =~= before);
    lemma_rendered_shift(head, rest, 0, config, env, workspace);
    assert(head.len() == close + 1);
}

/// What is put in for a placeholder: the workspace for `tmp`, a variable for `env.` and its name,
/// and a setting for `config.` and its key. Nothing else is a placeholder.
pub proof fn law_filling(
    name: Seq<char>,
    other: Seq<char>,
    config: Config,
    env: Values,
    workspace: Seq<char>,
)
    requires
        other != "tmp"@,
        !text::begins(other, "env."@),
        !text::begins(other, "config."@),
    ensures
        plugin_template::filling("tmp"@, config, env, workspace) == Ok::<Seq<char>, Seq<Seq<char>>>(
            workspace,
        ),
        crate::map::lookup(env, name) matches Some(value) ==> plugin_template::filling(
            "env."@ + name,
            config,
            env,
            workspace,
        ) == Ok::<Seq<char>, Seq<Seq<char>>>(value),
        crate::map::lookup(env, name) is None ==> plugin_template::filling(
            "env."@ + name,
            config,
            env,
            workspace,
        ) is Err,
        crate::map::lookup(config, name) matches Some(value) ==> plugin_template::filling(
            "config."@ + name,
            config,
            env,
            workspace,
        ) == plugin_config::scalar_text(value),
        crate::map::lookup(config, name) is None ==> plugin_template::filling(
            "config."@ + name,
            config,
            env,
            workspace,
        ) is Err,
        plugin_template::filling(other, config, env, workspace) is Err,
{
    reveal_strlit("tmp");
    reveal_strlit("env.");
    reveal_strlit("config.");
    let a = "env."@ + name;
    let b = "config."@ + name;
    assert(a.subrange(0, 4) =~= "env."@);
    assert(a.subrange(4, a.len() as int) =~= name);
    assert(b.subrange(0, 7) =~= "config."@);
    assert(b.subrange(7, b.len() as int) =~= name);
    assert(a[0] == 'e' && b[0] == 'c' && "tmp"@[0] == 't');
    if text::begins(b, "env."@) {
        assert(b.subrange(0, 4)[0] == b[0]);
    }
}

/// A setting is written as its text, in decimal notation, or as `true` or `false`.
pub proof fn law_scalar_text(s: Seq<char>, n: int, bits: u64, b: bool)
    ensures
        plugin_config::scalar_text(ConfigView::Text(s)) == Ok::<Seq<char>, Seq<Seq<char>>>(s),
        n >= 0 ==> plugin_config::scalar_text(ConfigView::Integer(n)) == Ok::<
            Seq<char>,
            Seq<Seq<char>>,
        >(text::decimal(n as nat)),
        n < 0 ==> plugin_config::scalar_text(ConfigView::Integer(n)) == Ok::<
            Seq<char>,
            Seq<Seq<char>>,
        >("-"@ + text::decimal((-n) as nat)),
        plugin_config::scalar_text(ConfigView::Float(bits, s))
            == Ok::<Seq<char>, Seq<Seq<char>>>(s),
        plugin_config::scalar_text(ConfigView::Boolean(b)) == Ok::<Seq<char>, Seq<Seq<char>>>(
            if b {
                "true"@
            } else {
                "false"@
            },
        ),
        plugin_config::scalar_text(ConfigView::Other) is Err,
{
}

/// A setting is taken exactly where it has the type of its field, is among the allowed ones where
/// these are listed, fits the pattern, and stands between the bounds.
pub proof fn law_value_taken(key: Seq<char>, field: PluginConfigField, value: ConfigView)
    ensures
        plugin_config::value_check(key, field, value) is Ok <==> (match field.kind {
            PluginConfigType::Text => value is Text,
            PluginConfigType::Integer => value is Integer,
            PluginConfigType::Number => value is Integer || value is Float,
            PluginConfigType::Boolean => value is Boolean,
        }) && (field.allowed_values is Some ==> exists|i: int|
            0 <= i < field.allowed_values->0@.len() && plugin_config::same_views(
                (#[trigger] field.allowed_values->0@[i]).deep_view(),
                value,
            )) && plugin_config::pattern_check(key, field.pattern, value) is Ok
            && !plugin_config::is_below(
            plugin_config::number_place(value),
            plugin_config::bound_place(field.minimum),
        ) && !plugin_config::is_below(
            plugin_config::bound_place(field.maximum),
            plugin_config::number_place(value),
        ),
{
}

/// A configuration is one to run with exactly where every key that an item sets is declared, every
/// field that needs a value has one, and every value is taken by its field.
pub proof fn law_config_runs(
    fields: Seq<(Seq<char>, PluginConfigField)>,
    defaults: Seq<(Seq<char>, ConfigView)>,
    overrides: Seq<(Seq<char>, ConfigView)>,
)
    ensures
        plugin_config::runtime_config(fields, defaults, overrides) is Ok <==> (forall|i: int|
            0 <= i < overrides.len() ==> crate::map::has_key(
                fields,
                (#[trigger] overrides[i]).0,
            )) && (forall|i: int|
            0 <= i < fields.len() ==> (match crate::map::lookup(
                plugin_config::extended(defaults, overrides),
                (#[trigger] fields[i]).0,
            ) {
                None => !fields[i].1.required,
                Some(value) => plugin_config::value_check(fields[i].0, fields[i].1, value) is Ok,
            })),
{
    let config = plugin_config::extended(defaults, overrides);
    let f = plugin_config::override_check(fields);
    let g = plugin_config::set_check(config);
    seqs::law_each(overrides, f);
    seqs::law_each(fields, g);
    assert forall|i: int| 0 <= i < overrides.len() implies (f(#[trigger] overrides[i]) is Ok
        <==> crate::map::has_key(fields, overrides[i].0)) by {}
    assert forall|i: int| 0 <= i < fields.len() implies (g(#[trigger] fields[i]) is Ok <==> (
    match crate::map::lookup(config, fields[i].0) {
        None => !fields[i].1.required,
        Some(value) => plugin_config::value_check(fields[i].0, fields[i].1, value) is Ok,
    })) by {}
    if plugin_config::runtime_config(fields, defaults, overrides) is Ok {
        assert forall|i: int| 0 <= i < overrides.len() implies crate::map::has_key(
            fields,
            (#[trigger] overrides[i]).0,
        ) by {
            assert(f(overrides[i]) is Ok);
        }
        assert forall|i: int| 0 <= i < fields.len() implies (match crate::map::lookup(
            config,
            (#[trigger] fields[i]).0,
        ) {
            None => !fields[i].1.required,
            Some(value) => plugin_config::value_check(fields[i].0, fields[i].1, value) is Ok,
        }) by {
            assert(g(fields[i]) is Ok);
        }
    }
}

/// Whether `s` is digits that denote a number of 64 bits.
pub open spec fn is_number(s: Seq<char>) -> bool {
    &&& s.len() > 0
    &&& forall|i: int| 0 <= i < s.len() ==> '0' <= #[trigger] s[i] <= '9'
    &&& text::number(s) <= 0xffff_ffff_ffff_ffff
}

/// Digits hold no separator.
proof fn lemma_number_piece(s: Seq<char>, set: Seq<char>)
    requires
        is_number(s),
        forall|i: int| 0 <= i < set.len() ==> !('0' <= #[trigger] set[i] <= '9'),
    ensures
        text::pieces(s, set) == seq![s],
{
    assert forall|i: int| 0 <= i < s.len() implies !set.contains(#[trigger] s[i]) by {
        assert('0' <= s[i] <= '9');
        if set.contains(s[i]) {
            let k = choose|k: int| 0 <= k < set.len() && set[k] == s[i];
        }
    }
    let none = Seq::<char>::empty();
    text::lemma_pieces_appended(none, s, set);
    assert(text::pieces(none, set) =~= seq![none]);
    assert(none + s =~= s);
    assert(seq![none].drop_last().push(s) =~= seq![s]);
}

/// Three numbers with dots between them are a version, whatever follows a hyphen or a plus sign.
pub proof fn law_version(a: Seq<char>, b: Seq<char>, c: Seq<char>, mark: char, suffix: Seq<char>)
    requires
        is_number(a),
        is_number(b),
        is_number(c),
        mark == '-' || mark == '+',
    ensures
        ({
            let core = a + seq!['.'] + (b + seq!['.'] + c);
            let numbers = Ok::<plugin::Version, Seq<Seq<char>>>(
                (text::number(a), text::number(b), text::number(c)),
            );
            &&& plugin::version_of(core) == numbers
            &&& plugin::version_of(core + seq![mark] + suffix) == numbers
        }),
{
    let dot = seq!['.'];
    let ends = seq!['-', '+'];
    assert(dot[0] == '.' && ends[0] == '-' && ends[1] == '+');
    let rest = b + seq!['.'] + c;
    let core = a + seq!['.'] + rest;
    assert forall|i: int| 0 <= i < core.len() implies !ends.contains(#[trigger] core[i]) by {
        if ends.contains(core[i]) {
            let k = choose|k: int| 0 <= k < ends.len() && ends[k] == core[i];
            let n = a.len() as int;
            let m = n + 1 + b.len();
            if i < n {
                assert('0' <= a[i] <= '9');
            } else if n < i < m {
                assert('0' <= b[i - n - 1] <= '9');
            } else if m < i {
                assert('0' <= c[i - m - 1] <= '9');
            }
        }
    }
    text_laws::law_pieces(core, core, mark, suffix, ends);
    assert(plugin::version_core(core) == core);
    assert(plugin::version_core(core + seq![mark] + suffix) == core);
    lemma_number_piece(a, dot);
    lemma_number_piece(b, dot);
    lemma_number_piece(c, dot);
    text::lemma_pieces_apart(b, '.', c, dot);
    text::lemma_pieces_apart(a, '.', rest, dot);
    let parts = seq![a, b, c];
    assert(text::pieces(core, dot) =~= parts);
    let f = plugin::part_reader();
    seqs::law_collected(parts, f);
    lemma_read_number(a);
    lemma_read_number(b);
    lemma_read_number(c);
    assert(parts[0] == a && parts[1] == b && parts[2] == c);
    assert forall|i: int| 0 <= i < parts.len() implies f(#[trigger] parts[i]) is Ok by {}
}

/// A number is read as a part of a version.
proof fn lemma_read_number(s: Seq<char>)
    requires
        is_number(s),
    ensures
        plugin::part_reader()(s) == Ok::<nat, Seq<char>>(text::number(s)),
{
    assert('0' <= s[0] <= '9');
    text_laws::law_numeral(s, 0xffff_ffff_ffff_ffff as nat);
}

/// One version is lower than another by the first number in which they differ.
pub proof fn law_version_order(a: plugin::Version, b: plugin::Version)
    ensures
        a.0 != b.0 ==> (plugin::is_lower(a, b) <==> a.0 < b.0),
        a.0 == b.0 && a.1 != b.1 ==> (plugin::is_lower(a, b) <==> a.1 < b.1),
        a.0 == b.0 && a.1 == b.1 ==> (plugin::is_lower(a, b) <==> a.2 < b.2),
{
}

/// What a plugin declares of its variables passes exactly where every secret is needed, whatever is
/// needed is a secret or set by the plugin, and the plugin sets nothing that is protected.
pub proof fn law_variables_declared(m: PluginManifest)
    ensures
        ({
            let required = seqs::texts(m.required_env@);
            let secrets = seqs::texts(m.secret_env_allowlist@);
            let generated = plugin::keys(m.env@);
            plugin::variables_check(m) is Ok <==> (forall|i: int|
                0 <= i < secrets.len() ==> required.contains(#[trigger] secrets[i])) && (forall|
                i: int,
            |
                0 <= i < required.len() ==> secrets.contains(#[trigger] required[i])
                    || generated.contains(required[i])) && (forall|i: int|
                0 <= i < generated.len() ==> !is_guarded(#[trigger] generated[i]))
        }),
{
    let required = seqs::texts(m.required_env@);
    let secrets = seqs::texts(m.secret_env_allowlist@);
    let generated = plugin::keys(m.env@);
    let f = plugin::secret_check(required);
    let g = plugin::source_check(secrets, generated);
    let h = plugin::protected_check();
    seqs::law_each(secrets, f);
    seqs::law_each(required, g);
    seqs::law_each(generated, h);
    assert forall|i: int| 0 <= i < secrets.len() implies (f(#[trigger] secrets[i]) is Ok
        <==> required.contains(secrets[i])) by {}
    assert forall|i: int| 0 <= i < required.len() implies (g(#[trigger] required[i]) is Ok
        <==> secrets.contains(required[i]) || generated.contains(required[i])) by {}
    assert forall|i: int| 0 <= i < generated.len() implies (h(#[trigger] generated[i]) is Ok
        <==> !is_guarded(generated[i])) by {}
    if plugin::variables_check(m) is Ok {
        assert forall|i: int| 0 <= i < secrets.len() implies required.contains(
            #[trigger] secrets[i],
        ) by {
            assert(f(secrets[i]) is Ok);
        }
        assert forall|i: int| 0 <= i < required.len() implies secrets.contains(
            #[trigger] required[i],
        ) || generated.contains(required[i]) by {
            assert(g(required[i]) is Ok);
        }
        assert forall|i: int| 0 <= i < generated.len() implies !is_guarded(
            #[trigger] generated[i],
        ) by {
            assert(h(generated[i]) is Ok);
        }
    }
}

/// The variables that no plugin may set.
pub open spec fn is_guarded(name: Seq<char>) -> bool {
    ||| name == "HOME"@ || name == "PATH"@ || name == "SHELL"@ || name == "TMPDIR"@
    ||| name == "PWD"@ || name == "OLDPWD"@ || name == "USER"@ || name == "LOGNAME"@
    ||| name == "LD_PRELOAD"@ || name == "DYLD_INSERT_LIBRARIES"@ || name == "PYTHONPATH"@
    ||| name == "NODE_OPTIONS"@ || name == "RUSTFLAGS"@
}

/// A plugin passes exactly where each of its checks does.
pub proof fn law_manifest_passes(m: PluginManifest)
    ensures
        plugin::manifest_check(m) is Ok <==> plugin::identity_check(m) is Ok && plugin::names_check(
            m,
        ) is Ok && plugin::variables_check(m) is Ok && plugin_config::contract_check(
            m.config@,
            m.defaults.deep(),
        ) is Ok && seqs::each(
            plugin::templates(m),
            plugin_template::template_check(m.env.strings(), m.config@),
        ) is Ok && seqs::each(m.files@, plugin::mode_check()) is Ok && plugin::doctor_check(
            m.doctor,
        ) is Ok,
        plugin::identity_check(m) is Ok ==> m.schema_version == 1 && plugin::plugin_name_check(
            m.name@,
        ) is Ok && plugin::version_of(m.version@) is Ok && 1 <= m.target_commands@.len() <= 8,
        plugin::names_check(m) is Ok ==> seqs::texts(m.target_commands@).no_duplicates()
            && seqs::texts(m.required_env@).no_duplicates() && seqs::texts(
            m.secret_env_allowlist@,
        ).no_duplicates(),
{
}

/// The modes of files that plugins may use.
pub proof fn law_file_modes(mode: Seq<char>)
    ensures
        plugin::mode_bits(mode) is Some <==> mode == "0600"@ || mode == "0640"@ || mode == "0644"@,
        mode == "0600"@ ==> plugin::mode_bits(mode) == Some(384u32),
        mode == "0640"@ ==> plugin::mode_bits(mode) == Some(416u32),
        mode == "0644"@ ==> plugin::mode_bits(mode) == Some(420u32),
{
    reveal_strlit("0600");
    reveal_strlit("0640");
    reveal_strlit("0644");
    assert("0600"@[2] == '0' && "0640"@[2] == '4' && "0640"@[3] == '0' && "0644"@[3] == '4');
}

/// A registry and a manifest agree exactly where they say the same of a release, and the registry
/// names a source on GitHub for it.
pub proof fn law_registry_agrees(entry: PluginRegistryEntry, m: PluginManifest)
    ensures
        plugin::pair_check(entry, m) is Ok <==> entry.plugin_schema_version == m.schema_version
            && entry.name@ == m.name@ && entry.version@ == m.version@ && entry.description@
            == m.description@ && seqs::texts(entry.target_commands@) == seqs::texts(
            m.target_commands@,
        ) && text::begins(entry.source@, "github:"@) && text::ends(
            entry.source@,
            "/plugins/"@ + entry.name@,
        ),
{
}

/// The secrets of a new item are read from its fields one by one, and none is left out.
pub proof fn law_template_secrets_read(a: Seq<CreateFieldView>, b: Seq<CreateFieldView>)
    ensures
        security::template_secrets(a + b)
            == security::template_secrets(a) + security::template_secrets(b),
    decreases b.len(),
{
    if b.len() == 0 {
        assert(a + b =~= a);
        assert(security::template_secrets(a) + security::template_secrets(b)
            =~= security::template_secrets(a));
    } else {
        law_template_secrets_read(a, b.drop_last());
        assert((a + b).drop_last() =~= a + b.drop_last());
        assert((a + b).last() == b.last());
        assert(security::template_secrets(a + b)
            =~= security::template_secrets(a) + security::template_secrets(b));
    }
}

/// A field with a value is a secret under its label, and under its identifier where that differs.
pub proof fn law_template_secret_read(field: CreateFieldView)
    ensures
        security::template_secrets(seq![field]) == (if field.value.len() == 0 {
            Seq::empty()
        } else if field.id == field.label {
            seq![(field.label, field.value)]
        } else {
            seq![(field.label, field.value), (field.id, field.value)]
        }),
{
    reveal_with_fuel(security::template_secrets, 2);
    assert(seq![field].drop_last() =~= Seq::<CreateFieldView>::empty());
    assert(security::template_secrets(seq![field]) =~= (if field.value.len() == 0 {
            Seq::empty()
        } else if field.id == field.label {
            seq![(field.label, field.value)]
        } else {
            seq![(field.label, field.value), (field.id, field.value)]
        }));
}

/// Secrets are taken out of a text one after the other: each of them at every place where it
/// stands.
pub proof fn law_redacted_one_by_one(
    s: Seq<char>,
    a: Seq<Seq<char>>,
    b: Seq<Seq<char>>,
    secret: Seq<char>,
)
    ensures
        security::redacted(s, a + b) == security::redacted(security::redacted(s, a), b),
        security::redacted(s, seq![secret]) == text::replaced(s, secret, "[REDACTED]"@),
        security::redacted(s, Seq::empty()) == s,
    decreases b.len(),
{
    reveal_with_fuel(security::redacted, 2);
    assert(seq![secret].drop_last() =~= Seq::<Seq<char>>::empty());
    if b.len() == 0 {
        assert(a + b =~= a);
    } else {
        law_redacted_one_by_one(s, a, b.drop_last(), secret);
        assert((a + b).drop_last() =~= a + b.drop_last());
        assert((a + b).last() == b.last());
    }
}

} // verus!
