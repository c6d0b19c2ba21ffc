//! Plugins: their names and versions, manifests and registry, and what an item pins.

use vstd::prelude::*;
use vstd::string::*;

use crate::failure;
use crate::failure::Failure;
use crate::map::StringMap;
use crate::pattern;
use crate::plugin_config;
use crate::plugin_config::{ConfigValue, PluginConfigField};
use crate::plugin_template;
use crate::seqs;
use crate::text;

verus! {

broadcast use crate::seqs::group_seqs;

/// What a check comes to: nothing, or a chain of messages.
pub type Checked = Result<(), Seq<Seq<char>>>;

/// A semantic version: major, minor and patch.
pub type Version = (nat, nat, nat);

/// The reading of a part of a version.
pub open spec fn part_reader() -> spec_fn(Seq<char>) -> Result<nat, Seq<char>> {
    |part: Seq<char>|
        match text::numeral(part, u64::MAX as nat) {
            Some(n) => Ok(n),
            None => Err(text::u64_refusal(part)),
        }
}

/// The part of a version before a pre-release or a build.
pub open spec fn version_core(s: Seq<char>) -> Seq<char> {
    text::pieces(s, seq!['-', '+'])[0]
}

/// The numbers of a version.
pub open spec fn version_of(s: Seq<char>) -> Result<Version, Seq<Seq<char>>> {
    match seqs::collected(text::pieces(version_core(s), seq!['.']), part_reader()) {
        Err(e) => Err(seq!["invalid semantic version `"@ + s + "`"@, e]),
        Ok(parts) => if parts.len() == 3 {
            Ok((parts[0], parts[1], parts[2]))
        } else {
            Err(seq!["invalid semantic version `"@ + s + "`"@])
        },
    }
}

/// What a version came to.
pub open spec fn told_version(r: Result<(u64, u64, u64), Failure>) -> Result<
    Version,
    Seq<Seq<char>>,
> {
    match r {
        Ok(v) => Ok((v.0 as nat, v.1 as nat, v.2 as nat)),
        Err(e) => Err(e@),
    }
}

/// Numbers without their bounds.
pub open spec fn naturals(v: Seq<u64>) -> Seq<nat> {
    Seq::new(v.len(), |i: int| v[i] as nat)
}

/// The numbers of a version.
pub fn version_tuple(version: &str) -> (r: Result<(u64, u64, u64), Failure>)
    ensures
        told_version(r) == version_of(version@),
{
    let marks: [char; 2] = ['-', '+'];
    let dots: [char; 1] = ['.'];
    let cores = text::split_chars(version, &marks);
    proof {
        assert(marks@ =~= seq!['-', '+']);
        assert(dots@ =~= seq!['.']);
        assert(seqs::texts(cores@)[0] == cores@[0]@);
    }
    let parts = text::split_chars(&cores[0], &dots);
    let ghost all = text::pieces(version_core(version@), seq!['.']);
    let ghost f = part_reader();
    let mut numbers: Vec<u64> = Vec::new();
    let mut i: usize = 0;
    assert(all.take(0) =~= Seq::<Seq<char>>::empty());
    assert(naturals(numbers@) =~= Seq::<nat>::empty());
    while i < parts.len()
        invariant
            i <= parts@.len(),
            all == seqs::texts(parts@),
            all == text::pieces(version_core(version@), seq!['.']),
            f == part_reader(),
            seqs::collected(all.take(i as int), f) == Ok::<Seq<nat>, Seq<char>>(
                naturals(numbers@),
            ),
        decreases parts@.len() - i,
    {
        let ghost before = naturals(numbers@);
        proof {
            seqs::lemma_collected(all, f, i as int);
            assert(all[i as int] == parts@[i as int]@);
        }
        match text::read_u64(&parts[i]) {
            Ok(n) => {
                numbers.push(n);
                assert(naturals(numbers@) =~= before.push(n as nat));
            },
            Err(e) => {
                let ghost reason = e@;
                let failure = Failure::new(e).context(
                    "invalid semantic version `".to_owned().concat(version).concat("`"),
                );
                assert(failure@ =~= seq![
                    "invalid semantic version `"@ + version@ + "`"@,
                    reason,
                ]);
                return Err(failure);
            },
        }
        i += 1;
    }
    assert(naturals(numbers@).len() == numbers@.len());
    if numbers.len() == 3 {
        Ok((numbers[0], numbers[1], numbers[2]))
    } else {
        Err(Failure::new("invalid semantic version `".to_owned().concat(version).concat("`")))
    }
}

/// Whether one version is lower than another.
pub open spec fn is_lower(a: Version, b: Version) -> bool {
    a.0 < b.0 || (a.0 == b.0 && (a.1 < b.1 || (a.1 == b.1 && a.2 < b.2)))
}

/// The version by which a release is ordered; one that cannot be read counts as zero.
pub open spec fn ordering_version(s: Seq<char>) -> Version {
    match version_of(s) {
        Ok(v) => v,
        Err(_) => (0, 0, 0),
    }
}

/// Whether one version is lower than another.
fn lower(a: (u64, u64, u64), b: (u64, u64, u64)) -> (r: bool)
    ensures
        r == is_lower(
            (a.0 as nat, a.1 as nat, a.2 as nat),
            (b.0 as nat, b.1 as nat, b.2 as nat),
        ),
{
    a.0 < b.0 || (a.0 == b.0 && (a.1 < b.1 || (a.1 == b.1 && a.2 < b.2)))
}

/// Whether the version of a release is lower than that of another.
pub fn version_before(left: &str, right: &str) -> (r: bool)
    ensures
        r == is_lower(ordering_version(left@), ordering_version(right@)),
{
    let a = match version_tuple(left) {
        Ok(v) => v,
        Err(_) => (0, 0, 0),
    };
    let b = match version_tuple(right) {
        Ok(v) => v,
        Err(_) => (0, 0, 0),
    };
    lower(a, b)
}

/// The check of a plugin name.
pub open spec fn plugin_name_check(name: Seq<char>) -> Checked {
    if pattern::is_hyphenated(name) {
        Ok(())
    } else {
        Err(seq!["invalid plugin name `"@ + name + "`"@])
    }
}

/// Checks a plugin name.
pub fn validate_plugin_name(name: &str) -> (r: Result<(), Failure>)
    ensures
        failure::told_unit(r) == plugin_name_check(name@),
{
    if pattern::matches_hyphenated(name) {
        Ok(())
    } else {
        Err(Failure::new("invalid plugin name `".to_owned().concat(name).concat("`")))
    }
}

/// Whether a part of a name is made of lower-case letters and digits.
pub open spec fn is_name_part(part: Seq<char>) -> bool {
    part.len() > 0 && forall|i: int|
        0 <= i < part.len() ==> pattern::is_lower_or_digit(#[trigger] part[i])
}

/// Parts joined by hyphens are a name, and its last character is no hyphen.
proof fn lemma_joined_name(parts: Seq<Seq<char>>)
    requires
        parts.len() > 0,
        forall|i: int| 0 <= i < parts.len() ==> is_name_part(#[trigger] parts[i]),
    ensures
        pattern::is_hyphenated(text::joined(parts, "-"@)),
    decreases parts.len(),
{
    reveal_strlit("-");
    let name = text::joined(parts, "-"@);
    assert(is_name_part(parts[parts.len() - 1]));
    if parts.len() == 1 {
        assert(name == parts[0]);
    } else {
        let front = parts.drop_last();
        assert forall|i: int| 0 <= i < front.len() implies is_name_part(#[trigger] front[i]) by {
            assert(front[i] == parts[i]);
        }
        lemma_joined_name(front);
        let before = text::joined(front, "-"@);
        let last = parts.last();
        assert(name == before + "-"@ + last);
        assert(name[0] == before[0]);
        assert(name.last() == last.last());
        assert forall|i: int| 0 <= i < name.len() implies pattern::is_lower_or_digit(
            #[trigger] name[i],
        ) || name[i] == '-' by {
            if i < before.len() {
                assert(name[i] == before[i]);
            } else if i > before.len() {
                assert(name[i] == last[i - before.len() - 1]);
            }
        }
        assert forall|i: int| 0 <= i < name.len() - 1 implies !((#[trigger] name[i]) == '-'
            && name[i + 1] == '-') by {
            if i < before.len() - 1 {
                assert(name[i] == before[i] && name[i + 1] == before[i + 1]);
            } else if i == before.len() - 1 {
                assert(name[i] == before.last());
            } else {
                assert(name[i + 1] == last[i - before.len()]);
            }
        }
    }
}

/// A name is exactly what is joined of parts in canonical form: nothing may stand before it or
/// hang after it.
pub proof fn law_plugin_names(parts: Seq<Seq<char>>)
    requires
        parts.len() > 0,
        forall|i: int| 0 <= i < parts.len() ==> is_name_part(#[trigger] parts[i]),
    ensures
        plugin_name_check(text::joined(parts, "-"@)) is Ok,
        plugin_name_check("_"@ + text::joined(parts, "-"@)) is Err,
        plugin_name_check(text::joined(parts, "-"@) + "-"@) is Err,
{
    reveal_strlit("-");
    reveal_strlit("_");
    lemma_joined_name(parts);
    let name = text::joined(parts, "-"@);
    assert(("_"@ + name)[0] == '_');
    assert((name + "-"@).last() == '-');
}

/// The check of the name of a target command.
pub open spec fn command_check() -> spec_fn(Seq<char>) -> Checked {
    |name: Seq<char>|
        if pattern::is_command_name(name) {
            Ok(())
        } else {
            Err(seq!["invalid plugin target command `"@ + name + "`"@])
        }
}

/// Checks the name of a target command.
pub fn validate_command_name(name: &str) -> (r: Result<(), Failure>)
    ensures
        failure::told_unit(r) == command_check()(name@),
{
    if pattern::matches_command_name(name) {
        Ok(())
    } else {
        Err(Failure::new("invalid plugin target command `".to_owned().concat(name).concat("`")))
    }
}

/// The check of the name of a variable.
pub open spec fn env_name_check() -> spec_fn(Seq<char>) -> Checked {
    |name: Seq<char>|
        if vstd::utf8::encode_utf8(name).len() <= 128 && pattern::is_upper_name(name) {
            Ok(())
        } else {
            Err(seq!["invalid plugin environment name `"@ + name + "`"@])
        }
}

/// The names of variables are in upper case: a letter, then letters, digits and underscores. In
/// lower case none is a name.
pub proof fn law_env_names(name: Seq<char>)
    requires
        0 < name.len(),
        vstd::utf8::encode_utf8(name).len() <= 128,
        text::is_upper(name[0]),
        forall|i: int|
            0 <= i < name.len() ==> text::is_upper(#[trigger] name[i]) || text::is_digit(name[i])
                || name[i] == '_',
    ensures
        env_name_check()(name) is Ok,
        env_name_check()(text::lowered(name)) is Err,
{
    assert(text::lowered(name)[0] == text::lower(name[0]));
    assert(!text::is_upper(text::lower(name[0])));
}

/// Checks the name of a variable.
pub fn validate_env_name(name: &str) -> (r: Result<(), Failure>)
    ensures
        failure::told_unit(r) == env_name_check()(name@),
{
    if name.as_bytes().len() <= 128 && pattern::matches_upper_name(name) {
        Ok(())
    } else {
        Err(Failure::new("invalid plugin environment name `".to_owned().concat(name).concat("`")))
    }
}

/// The check that nothing is listed twice.
pub open spec fn unique_check(label: Seq<char>, values: Seq<Seq<char>>) -> Checked {
    if values.no_duplicates() {
        Ok(())
    } else {
        Err(seq!["duplicate "@ + label])
    }
}

/// Checks that nothing is listed twice.
pub fn ensure_unique(label: &str, values: &[String]) -> (r: Result<(), Failure>)
    ensures
        failure::told_unit(r) == unique_check(label@, seqs::texts(values@)),
{
    let ghost all = seqs::texts(values@);
    let mut seen = seqs::no_texts();
    let mut i: usize = 0;
    while i < values.len()
        invariant
            i <= values@.len(),
            all == seqs::texts(values@),
            seqs::texts(seen@) == all.take(i as int),
            all.take(i as int).no_duplicates(),
        decreases values@.len() - i,
    {
        let ghost before = all.take(i as int);
        proof {
            assert(all[i as int] == values@[i as int]@);
            assert(all.take(i + 1) =~= before.push(all[i as int]));
        }
        if seqs::has_text(&seen, &values[i]) {
            proof {
                let j = choose|j: int| 0 <= j < before.len() && before[j] == all[i as int];
                assert(all[j] == all[i as int]);
            }
            return Err(Failure::new("duplicate ".to_owned().concat(label)));
        }
        proof {
            let now = all.take(i + 1);
            assert forall|j: int, k: int|
                0 <= j < now.len() && 0 <= k < now.len() && j != k implies #[trigger] now[j]
                != #[trigger] now[k] by {
                if j < i && k < i {
                    assert(before[j] != before[k]);
                } else if j < i {
                    assert(before.contains(before[j]));
                } else {
                    assert(before.contains(before[k]));
                }
            }
        }
        seqs::push_text(&mut seen, &values[i]);
        i += 1;
    }
    Ok(())
}

/// The keys of a map.
pub open spec fn keys<V>(entries: Seq<(Seq<char>, V)>) -> Seq<Seq<char>> {
    Seq::new(entries.len(), |i: int| entries[i].0)
}

/// The texts that a map holds.
pub open spec fn held(entries: Seq<(Seq<char>, Seq<char>)>) -> Seq<Seq<char>> {
    Seq::new(entries.len(), |i: int| entries[i].1)
}

/// The keys of a map.
fn keys_of<V>(m: &StringMap<V>) -> (r: Vec<String>)
    ensures
        seqs::texts(r@) == keys(m@),
{
    let mut r = seqs::no_texts();
    let mut i: usize = 0;
    while i < m.len()
        invariant
            i <= m@.len(),
            seqs::texts(r@) == keys(m@).take(i as int),
        decreases m@.len() - i,
    {
        assert(keys(m@).take(i + 1) =~= keys(m@).take(i as int).push(m@[i as int].0));
        seqs::push_text(&mut r, m.key(i));
        i += 1;
    }
    r
}

/// The texts that a map holds.
fn held_by(m: &StringMap<String>) -> (r: Vec<String>)
    ensures
        seqs::texts(r@) == held(m.strings()),
{
    let ghost all = held(m.strings());
    let mut r = seqs::no_texts();
    let mut i: usize = 0;
    while i < m.len()
        invariant
            i <= m@.len(),
            all == held(m.strings()),
            all.len() == m@.len(),
            seqs::texts(r@) == all.take(i as int),
        decreases m@.len() - i,
    {
        assert(all.take(i + 1) =~= all.take(i as int).push(m@[i as int].1@));
        seqs::push_text(&mut r, m.value(i));
        i += 1;
    }
    r
}

/// Checks the names of target commands.
fn check_commands(names: &[String]) -> (r: Result<(), Failure>)
    ensures
        failure::told_unit(r) == seqs::each(seqs::texts(names@), command_check()),
{
    let ghost all = seqs::texts(names@);
    let ghost f = command_check();
    let mut i: usize = 0;
    assert(all.take(0) =~= Seq::<Seq<char>>::empty());
    while i < names.len()
        invariant
            i <= names@.len(),
            all == seqs::texts(names@),
            f == command_check(),
            seqs::each(all.take(i as int), f) is Ok,
        decreases names@.len() - i,
    {
        proof {
            seqs::lemma_each(all, f, i as int);
            assert(all[i as int] == names@[i as int]@);
        }
        if let Err(e) = validate_command_name(&names[i]) {
            return Err(e);
        }
        i += 1;
    }
    Ok(())
}

/// Checks the names of variables.
fn check_env_names(names: &[String]) -> (r: Result<(), Failure>)
    ensures
        failure::told_unit(r) == seqs::each(seqs::texts(names@), env_name_check()),
{
    let ghost all = seqs::texts(names@);
    let ghost f = env_name_check();
    let mut i: usize = 0;
    assert(all.take(0) =~= Seq::<Seq<char>>::empty());
    while i < names.len()
        invariant
            i <= names@.len(),
            all == seqs::texts(names@),
            f == env_name_check(),
            seqs::each(all.take(i as int), f) is Ok,
        decreases names@.len() - i,
    {
        proof {
            seqs::lemma_each(all, f, i as int);
            assert(all[i as int] == names@[i as int]@);
        }
        if let Err(e) = validate_env_name(&names[i]) {
            return Err(e);
        }
        i += 1;
    }
    Ok(())
}

/// A file that a plugin generates.
#[derive(Debug)]
pub struct PluginFile {
    pub mode: String,
    pub content: String,
}

/// What a plugin needs to be found in order.
#[derive(Debug)]
pub struct PluginDoctor {
    pub required_commands: Vec<String>,
    pub required_env: Vec<String>,
    pub version_constraints: StringMap<String>,
}

/// What a plugin declares.
#[derive(Debug)]
pub struct PluginManifest {
    pub schema_version: u32,
    pub name: String,
    pub version: String,
    pub description: String,
    pub target_commands: Vec<String>,
    pub required_env: Vec<String>,
    pub secret_env_allowlist: Vec<String>,
    pub config: StringMap<PluginConfigField>,
    pub defaults: StringMap<ConfigValue>,
    pub env: StringMap<String>,
    pub files: StringMap<PluginFile>,
    pub arguments: Vec<String>,
    pub doctor: Option<PluginDoctor>,
}

/// Whether a variable is one that no plugin may replace.
pub open spec fn is_protected(name: Seq<char>) -> bool {
    name == "HOME"@ || name == "PATH"@ || name == "SHELL"@ || name == "TMPDIR"@ || name == "PWD"@
        || name == "OLDPWD"@ || name == "USER"@ || name == "LOGNAME"@ || name == "LD_PRELOAD"@
        || name == "DYLD_INSERT_LIBRARIES"@ || name == "PYTHONPATH"@ || name == "NODE_OPTIONS"@
        || name == "RUSTFLAGS"@
}

/// Whether a variable is one that no plugin may replace.
pub fn is_protected_env(name: &str) -> (r: bool)
    ensures
        r == is_protected(name@),
{
    text::same(name, "HOME") || text::same(name, "PATH") || text::same(name, "SHELL")
        || text::same(name, "TMPDIR") || text::same(name, "PWD") || text::same(name, "OLDPWD")
        || text::same(name, "USER") || text::same(name, "LOGNAME") || text::same(
        name,
        "LD_PRELOAD",
    ) || text::same(name, "DYLD_INSERT_LIBRARIES") || text::same(name, "PYTHONPATH")
        || text::same(name, "NODE_OPTIONS") || text::same(name, "RUSTFLAGS")
}

/// The check that a secret is one of the variables that are needed.
pub open spec fn secret_check(required: Seq<Seq<char>>) -> spec_fn(Seq<char>) -> Checked {
    |name: Seq<char>|
        if required.contains(name) {
            Ok(())
        } else {
            Err(seq!["secret_env_allowlist entry `"@ + name + "` is not required"@])
        }
}

/// The check that a variable which is needed comes from a secret or from the plugin.
pub open spec fn source_check(secrets: Seq<Seq<char>>, generated: Seq<Seq<char>>) -> spec_fn(
    Seq<char>,
) -> Checked {
    |name: Seq<char>|
        if secrets.contains(name) || generated.contains(name) {
            Ok(())
        } else {
            Err(
                seq![
                    "required_env entry `"@ + name
                        + "` must be allowlisted as a secret or generated by the plugin"@,
                ],
            )
        }
}

/// The check that a plugin may set a variable.
pub open spec fn protected_check() -> spec_fn(Seq<char>) -> Checked {
    |name: Seq<char>|
        if is_protected(name) {
            Err(seq!["plugin may not replace protected environment `"@ + name + "`"@])
        } else {
            Ok(())
        }
}

/// Checks that secrets are among the variables that are needed.
fn check_secrets(secrets: &[String], required: &[String]) -> (r: Result<(), Failure>)
    ensures
        failure::told_unit(r) == seqs::each(
            seqs::texts(secrets@),
            secret_check(seqs::texts(required@)),
        ),
{
    let ghost all = seqs::texts(secrets@);
    let ghost f = secret_check(seqs::texts(required@));
    let mut i: usize = 0;
    assert(all.take(0) =~= Seq::<Seq<char>>::empty());
    while i < secrets.len()
        invariant
            i <= secrets@.len(),
            all == seqs::texts(secrets@),
            f == secret_check(seqs::texts(required@)),
            seqs::each(all.take(i as int), f) is Ok,
        decreases secrets@.len() - i,
    {
        proof {
            seqs::lemma_each(all, f, i as int);
            assert(all[i as int] == secrets@[i as int]@);
        }
        if !seqs::has_text(required, &secrets[i]) {
            return Err(
                Failure::new(
                    "secret_env_allowlist entry `".to_owned().concat(&secrets[i]).concat(
                        "` is not required",
                    ),
                ),
            );
        }
        i += 1;
    }
    Ok(())
}

/// Checks that the variables which are needed come from secrets or from the plugin.
fn check_sources(required: &[String], secrets: &[String], generated: &[String]) -> (r: Result<
    (),
    Failure,
>)
    ensures
        failure::told_unit(r) == seqs::each(
            seqs::texts(required@),
            source_check(seqs::texts(secrets@), seqs::texts(generated@)),
        ),
{
    let ghost all = seqs::texts(required@);
    let ghost f = source_check(seqs::texts(secrets@), seqs::texts(generated@));
    let mut i: usize = 0;
    assert(all.take(0) =~= Seq::<Seq<char>>::empty());
    while i < required.len()
        invariant
            i <= required@.len(),
            all == seqs::texts(required@),
            f == source_check(seqs::texts(secrets@), seqs::texts(generated@)),
            seqs::each(all.take(i as int), f) is Ok,
        decreases required@.len() - i,
    {
        proof {
            seqs::lemma_each(all, f, i as int);
            assert(all[i as int] == required@[i as int]@);
        }
        if !seqs::has_text(secrets, &required[i]) && !seqs::has_text(generated, &required[i]) {
            return Err(
                Failure::new(
                    "required_env entry `".to_owned().concat(&required[i]).concat(
                        "` must be allowlisted as a secret or generated by the plugin",
                    ),
                ),
            );
        }
        i += 1;
    }
    Ok(())
}

/// Checks that a plugin may set its variables.
fn check_protected(names: &[String]) -> (r: Result<(), Failure>)
    ensures
        failure::told_unit(r) == seqs::each(seqs::texts(names@), protected_check()),
{
    let ghost all = seqs::texts(names@);
    let ghost f = protected_check();
    let mut i: usize = 0;
    assert(all.take(0) =~= Seq::<Seq<char>>::empty());
    while i < names.len()
        invariant
            i <= names@.len(),
            all == seqs::texts(names@),
            f == protected_check(),
            seqs::each(all.take(i as int), f) is Ok,
        decreases names@.len() - i,
    {
        proof {
            seqs::lemma_each(all, f, i as int);
            assert(all[i as int] == names@[i as int]@);
        }
        if is_protected_env(&names[i]) {
            return Err(
                Failure::new(
                    "plugin may not replace protected environment `".to_owned().concat(
                        &names[i],
                    ).concat("`"),
                ),
            );
        }
        i += 1;
    }
    Ok(())
}

/// Checks the templates of a plugin.
fn check_templates(
    templates: &[String],
    env: &StringMap<String>,
    fields: &StringMap<PluginConfigField>,
) -> (r: Result<(), Failure>)
    ensures
        failure::told_unit(r) == seqs::each(
            seqs::texts(templates@),
            plugin_template::template_check(env.strings(), fields@),
        ),
{
    let ghost all = seqs::texts(templates@);
    let ghost f = plugin_template::template_check(env.strings(), fields@);
    let mut i: usize = 0;
    assert(all.take(0) =~= Seq::<Seq<char>>::empty());
    while i < templates.len()
        invariant
            i <= templates@.len(),
            all == seqs::texts(templates@),
            f == plugin_template::template_check(env.strings(), fields@),
            seqs::each(all.take(i as int), f) is Ok,
        decreases templates@.len() - i,
    {
        proof {
            seqs::lemma_each(all, f, i as int);
            assert(all[i as int] == templates@[i as int]@);
        }
        if let Err(e) = plugin_template::validate_template(&templates[i], env, fields) {
            return Err(e);
        }
        i += 1;
    }
    Ok(())
}

/// The permissions that a file mode stands for, where it is one that plugins may use.
pub open spec fn mode_bits(mode: Seq<char>) -> Option<u32> {
    if mode == "0600"@ {
        Some(0o600)
    } else if mode == "0640"@ {
        Some(0o640)
    } else if mode == "0644"@ {
        Some(0o644)
    } else {
        None
    }
}

/// The permissions that a file mode stands for, where it is one that plugins may use.
pub fn file_mode(mode: &str) -> (r: Option<u32>)
    ensures
        r == mode_bits(mode@),
{
    if text::same(mode, "0600") {
        Some(0o600)
    } else if text::same(mode, "0640") {
        Some(0o640)
    } else if text::same(mode, "0644") {
        Some(0o644)
    } else {
        None
    }
}

/// The check of the mode of a file.
pub open spec fn mode_check() -> spec_fn((Seq<char>, PluginFile)) -> Checked {
    |entry: (Seq<char>, PluginFile)|
        if mode_bits(entry.1.mode@) is Some {
            Ok(())
        } else {
            Err(seq!["unsupported plugin file mode "@ + entry.1.mode@])
        }
}

/// Checks the modes of files.
fn check_modes(files: &StringMap<PluginFile>) -> (r: Result<(), Failure>)
    ensures
        failure::told_unit(r) == seqs::each(files@, mode_check()),
{
    let ghost f = mode_check();
    let mut i: usize = 0;
    assert(files@.take(0) =~= Seq::<(Seq<char>, PluginFile)>::empty());
    while i < files.len()
        invariant
            i <= files@.len(),
            f == mode_check(),
            seqs::each(files@.take(i as int), f) is Ok,
        decreases files@.len() - i,
    {
        proof {
            seqs::lemma_each(files@, f, i as int);
        }
        let file = files.value(i);
        if file_mode(&file.mode).is_none() {
            return Err(
                Failure::new("unsupported plugin file mode ".to_owned().concat(&file.mode)),
            );
        }
        i += 1;
    }
    Ok(())
}

/// The contents of files.
pub open spec fn contents(files: Seq<(Seq<char>, PluginFile)>) -> Seq<Seq<char>> {
    Seq::new(files.len(), |i: int| files[i].1.content@)
}

/// The contents of files.
fn contents_of(files: &StringMap<PluginFile>) -> (r: Vec<String>)
    ensures
        seqs::texts(r@) == contents(files@),
{
    let ghost all = contents(files@);
    let mut r = seqs::no_texts();
    let mut i: usize = 0;
    while i < files.len()
        invariant
            i <= files@.len(),
            all == contents(files@),
            seqs::texts(r@) == all.take(i as int),
        decreases files@.len() - i,
    {
        assert(all.take(i + 1) =~= all.take(i as int).push(files@[i as int].1.content@));
        seqs::push_text(&mut r, &files.value(i).content);
        i += 1;
    }
    r
}

/// The check of what a plugin needs to be found in order.
pub open spec fn doctor_check(doctor: Option<PluginDoctor>) -> Checked {
    match doctor {
        None => Ok(()),
        Some(d) => seqs::both(
            seqs::each(
                seqs::texts(d.required_commands@) + keys(d.version_constraints@),
                command_check(),
            ),
            seqs::each(seqs::texts(d.required_env@), env_name_check()),
        ),
    }
}

/// Checks what a plugin needs to be found in order.
fn check_doctor(doctor: &Option<PluginDoctor>) -> (r: Result<(), Failure>)
    ensures
        failure::told_unit(r) == doctor_check(*doctor),
{
    match doctor {
        None => Ok(()),
        Some(d) => {
            let mut commands = seqs::copy_texts(&d.required_commands);
            seqs::push_texts(&mut commands, &keys_of(&d.version_constraints));
            if let Err(e) = check_commands(&commands) {
                return Err(e);
            }
            check_env_names(&d.required_env)
        },
    }
}

/// The check of the identity of a plugin.
pub open spec fn identity_check(m: PluginManifest) -> Checked {
    if m.schema_version != 1 {
        Err(seq!["unsupported plugin schema_version "@ + text::decimal(m.schema_version as nat)])
    } else if plugin_name_check(m.name@) is Err {
        plugin_name_check(m.name@)
    } else if version_of(m.version@) is Err {
        Err(version_of(m.version@)->Err_0)
    } else if !(1 <= vstd::utf8::encode_utf8(m.description@).len() <= 240) {
        Err(seq!["plugin description must contain 1..=240 characters"@])
    } else if !(1 <= m.target_commands@.len() <= 8) {
        Err(seq!["plugin target_commands must contain 1..=8 entries"@])
    } else {
        Ok(())
    }
}

/// Checks the identity of a plugin.
fn check_identity(m: &PluginManifest) -> (r: Result<(), Failure>)
    ensures
        failure::told_unit(r) == identity_check(*m),
{
    if m.schema_version != 1 {
        return Err(
            Failure::new(
                "unsupported plugin schema_version ".to_owned().concat(
                    &text::to_decimal(m.schema_version as u128),
                ),
            ),
        );
    }
    if let Err(e) = validate_plugin_name(&m.name) {
        return Err(e);
    }
    if let Err(e) = version_tuple(&m.version) {
        return Err(e);
    }
    let length = m.description.as_str().as_bytes().len();
    if length < 1 || length > 240 {
        return Err(failure::fail("plugin description must contain 1..=240 characters"));
    }
    if m.target_commands.len() < 1 || m.target_commands.len() > 8 {
        return Err(failure::fail("plugin target_commands must contain 1..=8 entries"));
    }
    Ok(())
}

/// The check of the names that a plugin uses: no name is listed twice, every name is well formed.
pub open spec fn names_check(m: PluginManifest) -> Checked {
    let commands = seqs::texts(m.target_commands@);
    let required = seqs::texts(m.required_env@);
    let secrets = seqs::texts(m.secret_env_allowlist@);
    seqs::both(
        unique_check("target command"@, commands),
        seqs::both(
            unique_check("required env"@, required),
            seqs::both(
                unique_check("secret env"@, secrets),
                seqs::both(
                    seqs::each(commands, command_check()),
                    seqs::each(required + secrets + keys(m.env@), env_name_check()),
                ),
            ),
        ),
    )
}

/// Checks the names that a plugin uses.
fn check_names(m: &PluginManifest) -> (r: Result<(), Failure>)
    ensures
        failure::told_unit(r) == names_check(*m),
{
    if let Err(e) = ensure_unique("target command", &m.target_commands) {
        return Err(e);
    }
    if let Err(e) = ensure_unique("required env", &m.required_env) {
        return Err(e);
    }
    if let Err(e) = ensure_unique("secret env", &m.secret_env_allowlist) {
        return Err(e);
    }
    if let Err(e) = check_commands(&m.target_commands) {
        return Err(e);
    }
    let mut names = seqs::copy_texts(&m.required_env);
    seqs::push_texts(&mut names, &m.secret_env_allowlist);
    seqs::push_texts(&mut names, &keys_of(&m.env));
    check_env_names(&names)
}

/// The check of the variables of a plugin: secrets are needed, what is needed has a source, and
/// what is protected is left alone.
pub open spec fn variables_check(m: PluginManifest) -> Checked {
    let required = seqs::texts(m.required_env@);
    let secrets = seqs::texts(m.secret_env_allowlist@);
    let generated = keys(m.env@);
    seqs::both(
        seqs::each(secrets, secret_check(required)),
        seqs::both(
            seqs::each(required, source_check(secrets, generated)),
            seqs::each(generated, protected_check()),
        ),
    )
}

/// Checks the variables of a plugin.
fn check_variables(m: &PluginManifest) -> (r: Result<(), Failure>)
    ensures
        failure::told_unit(r) == variables_check(*m),
{
    let generated = keys_of(&m.env);
    if let Err(e) = check_secrets(&m.secret_env_allowlist, &m.required_env) {
        return Err(e);
    }
    if let Err(e) = check_sources(&m.required_env, &m.secret_env_allowlist, &generated) {
        return Err(e);
    }
    check_protected(&generated)
}

/// The templates of a plugin: those of its variables, arguments, paths and files.
pub open spec fn templates(m: PluginManifest) -> Seq<Seq<char>> {
    held(m.env.strings()) + seqs::texts(m.arguments@) + keys(m.files@) + contents(m.files@)
}

/// The templates of a plugin.
fn templates_of(m: &PluginManifest) -> (r: Vec<String>)
    ensures
        seqs::texts(r@) == templates(*m),
{
    let mut r = held_by(&m.env);
    seqs::push_texts(&mut r, &m.arguments);
    seqs::push_texts(&mut r, &keys_of(&m.files));
    seqs::push_texts(&mut r, &contents_of(&m.files));
    r
}

/// The check of all that a plugin declares.
pub open spec fn manifest_check(m: PluginManifest) -> Checked {
    seqs::both(
        identity_check(m),
        seqs::both(
            names_check(m),
            seqs::both(
                variables_check(m),
                seqs::both(
                    plugin_config::contract_check(m.config@, m.defaults.deep()),
                    seqs::both(
                        seqs::each(
                            templates(m),
                            plugin_template::template_check(m.env.strings(), m.config@),
                        ),
                        seqs::both(seqs::each(m.files@, mode_check()), doctor_check(m.doctor)),
                    ),
                ),
            ),
        ),
    )
}

/// Checks all that a plugin declares.
pub fn validate_manifest(manifest: &PluginManifest) -> (r: Result<(), Failure>)
    ensures
        failure::told_unit(r) == manifest_check(*manifest),
{
    if let Err(e) = check_identity(manifest) {
        return Err(e);
    }
    if let Err(e) = check_names(manifest) {
        return Err(e);
    }
    if let Err(e) = check_variables(manifest) {
        return Err(e);
    }
    if let Err(e) = plugin_config::validate_config_contract(&manifest.config, &manifest.defaults) {
        return Err(e);
    }
    if let Err(e) = check_templates(&templates_of(manifest), &manifest.env, &manifest.config) {
        return Err(e);
    }
    if let Err(e) = check_modes(&manifest.files) {
        return Err(e);
    }
    check_doctor(&manifest.doctor)
}

/// The state of a release.
#[derive(Clone, Copy, Debug, PartialEq, Eq, Structural)]
pub enum PluginLifecycle {
    Active,
    Deprecated,
    Revoked,
}

impl PluginLifecycle {
    /// The name of the state.
    pub fn label(self) -> (r: &'static str)
        ensures
            r@ == lifecycle_name(self),
    {
        match self {
            PluginLifecycle::Active => "active",
            PluginLifecycle::Deprecated => "deprecated",
            PluginLifecycle::Revoked => "revoked",
        }
    }
}

/// The name of a state.
pub open spec fn lifecycle_name(lifecycle: PluginLifecycle) -> Seq<char> {
    match lifecycle {
        PluginLifecycle::Active => "active"@,
        PluginLifecycle::Deprecated => "deprecated"@,
        PluginLifecycle::Revoked => "revoked"@,
    }
}

/// Where a release comes from.
#[derive(Clone, Copy, Debug, PartialEq, Eq, Structural)]
pub enum PluginOrigin {
    Bundled,
    LocalRegistry,
}

impl PluginOrigin {
    /// The name of the origin.
    pub fn label(self) -> (r: &'static str)
        ensures
            r@ == origin_name(self),
    {
        match self {
            PluginOrigin::Bundled => "bundled",
            PluginOrigin::LocalRegistry => "local",
        }
    }
}

/// The name of an origin.
pub open spec fn origin_name(origin: PluginOrigin) -> Seq<char> {
    match origin {
        PluginOrigin::Bundled => "bundled"@,
        PluginOrigin::LocalRegistry => "local"@,
    }
}

/// What a registry says of a release.
#[derive(Debug)]
pub struct PluginRegistryEntry {
    pub name: String,
    pub version: String,
    pub source: String,
    pub path: String,
    pub sha256: String,
    pub plugin_schema_version: u32,
    pub lifecycle: PluginLifecycle,
    pub description: String,
    pub target_commands: Vec<String>,
    pub min_opz_version: String,
    pub replacement: Option<String>,
    pub revocation_reason: Option<String>,
}

/// A release with its manifest.
#[derive(Debug)]
pub struct ResolvedPlugin {
    pub entry: PluginRegistryEntry,
    pub manifest: PluginManifest,
    pub manifest_text: String,
    pub origin: PluginOrigin,
}

/// A name and a version.
pub open spec fn release(name: Seq<char>, version: Seq<char>) -> Seq<char> {
    name + "@"@ + version
}

/// A name and a version.
fn show_release(entry: &PluginRegistryEntry) -> (r: String)
    ensures
        r@ == release(entry.name@, entry.version@),
{
    entry.name.clone().concat("@").concat(&entry.version)
}

/// Checks the version of the schema of a registry.
pub fn check_registry_schema(schema_version: u32) -> (r: Result<(), Failure>)
    ensures
        failure::told_unit(r) == (if schema_version == 1 {
            Ok(())
        } else {
            Err(
                seq![
                    "unsupported plugin registry schema_version "@ + text::decimal(
                        schema_version as nat,
                    ),
                ],
            )
        }),
{
    if schema_version == 1 {
        Ok(())
    } else {
        Err(
            Failure::new(
                "unsupported plugin registry schema_version ".to_owned().concat(
                    &text::to_decimal(schema_version as u128),
                ),
            ),
        )
    }
}

/// Whether a release is the one with that name and version.
pub open spec fn is_release(plugin: ResolvedPlugin, name: Seq<char>, version: Seq<char>) -> bool {
    plugin.entry.name@ == name && plugin.entry.version@ == version
}

/// The first release at or after `from` with that name and version.
pub open spec fn release_index(
    plugins: Seq<ResolvedPlugin>,
    name: Seq<char>,
    version: Seq<char>,
    from: int,
) -> Option<int>
    decreases plugins.len() - from,
{
    if from < 0 || from >= plugins.len() {
        None
    } else if is_release(plugins[from], name, version) {
        Some(from)
    } else {
        release_index(plugins, name, version, from + 1)
    }
}

/// The first release with that name and version.
fn find_same(plugins: &Vec<ResolvedPlugin>, name: &str, version: &str) -> (r: Option<usize>)
    ensures
        match r {
            Some(i) => release_index(plugins@, name@, version@, 0) == Some(i as int) && i
                < plugins@.len(),
            None => release_index(plugins@, name@, version@, 0) is None,
        },
{
    let mut i: usize = 0;
    while i < plugins.len()
        invariant
            i <= plugins@.len(),
            release_index(plugins@, name@, version@, 0) == release_index(
                plugins@,
                name@,
                version@,
                i as int,
            ),
        decreases plugins@.len() - i,
    {
        if text::same(&plugins[i].entry.name, name) && text::same(
            &plugins[i].entry.version,
            version,
        ) {
            return Some(i);
        }
        i += 1;
    }
    None
}

/// Checks that a registry has not named a release before.
pub fn check_new_release(plugins: &Vec<ResolvedPlugin>, entry: &PluginRegistryEntry) -> (r: Result<
    (),
    Failure,
>)
    ensures
        failure::told_unit(r) == (if release_index(
            plugins@,
            entry.name@,
            entry.version@,
            0,
        ) is None {
            Ok(())
        } else {
            Err(
                seq!["duplicate plugin registry entry "@ + release(entry.name@, entry.version@)],
            )
        }),
{
    match find_same(plugins, &entry.name, &entry.version) {
        None => Ok(()),
        Some(_) => Err(
            Failure::new("duplicate plugin registry entry ".to_owned().concat(&show_release(entry))),
        ),
    }
}

/// The SHA-256 digest of bytes, in hexadecimal notation.
pub uninterp spec fn sha256(bytes: Seq<u8>) -> Seq<char>;

/// `sha2::Sha256` computes the digest of bytes. Written in hexadecimal notation it has 64 digits.
#[verifier::external_body]
pub(crate) fn sha256_hex(bytes: &[u8]) -> (r: String)
    ensures
        r@ == sha256(bytes@),
        pattern::is_digest(r@),
{
    format!("{:x}", <sha2::Sha256 as sha2::Digest>::digest(bytes))
}

/// The check that the text of a manifest has the digest that the registry gives.
pub open spec fn digest_check(entry: PluginRegistryEntry, manifest_text: Seq<char>) -> Checked {
    if sha256(vstd::utf8::encode_utf8(manifest_text)) == entry.sha256@ {
        Ok(())
    } else {
        Err(seq!["plugin digest mismatch for "@ + release(entry.name@, entry.version@)])
    }
}

/// Checks that the text of a manifest has the digest that the registry gives.
pub fn check_digest(entry: &PluginRegistryEntry, manifest_text: &str) -> (r: Result<(), Failure>)
    ensures
        failure::told_unit(r) == digest_check(*entry, manifest_text@),
{
    let digest = sha256_hex(manifest_text.as_bytes());
    if text::same(&digest, &entry.sha256) {
        Ok(())
    } else {
        Err(Failure::new("plugin digest mismatch for ".to_owned().concat(&show_release(entry))))
    }
}

/// The text of a bundled manifest with plain line feeds.
pub fn normalize_bundled_newlines(manifest: &str) -> (r: String)
    ensures
        r@ == text::replaced(text::replaced(manifest@, "\r\n"@, "\n"@), "\r"@, "\n"@),
{
    proof {
        reveal_strlit("\r\n");
        reveal_strlit("\r");
    }
    text::replace(&text::replace(manifest, "\r\n", "\n"), "\r", "\n")
}

/// The check that a registry and a manifest say the same of a release.
pub open spec fn pair_check(entry: PluginRegistryEntry, m: PluginManifest) -> Checked {
    if entry.plugin_schema_version != m.schema_version || entry.name@ != m.name@ || entry.version@
        != m.version@ || entry.description@ != m.description@ || seqs::texts(entry.target_commands@)
        != seqs::texts(m.target_commands@) {
        Err(
            seq![
                "plugin registry metadata disagrees with manifest for "@ + release(
                    entry.name@,
                    entry.version@,
                ),
            ],
        )
    } else if !text::begins(entry.source@, "github:"@) || !text::ends(
        entry.source@,
        "/plugins/"@ + entry.name@,
    ) {
        Err(seq!["invalid plugin source for "@ + release(entry.name@, entry.version@)])
    } else {
        Ok(())
    }
}

/// Whether two lists hold the same texts.
fn same_texts(a: &Vec<String>, b: &Vec<String>) -> (r: bool)
    ensures
        r == (seqs::texts(a@) == seqs::texts(b@)),
{
    let ghost s = seqs::texts(a@);
    let ghost t = seqs::texts(b@);
    assert(s.len() == a@.len() && t.len() == b@.len());
    if a.len() != b.len() {
        return false;
    }
    let mut i: usize = 0;
    while i < a.len()
        invariant
            i <= a@.len(),
            a@.len() == b@.len(),
            s == seqs::texts(a@),
            t == seqs::texts(b@),
            forall|k: int| 0 <= k < i ==> (#[trigger] s[k]) == t[k],
        decreases a@.len() - i,
    {
        if !text::same(&a[i], &b[i]) {
            assert(s[i as int] != t[i as int]);
            return false;
        }
        assert(s[i as int] == t[i as int]);
        i += 1;
    }
    assert(s =~= t);
    true
}

/// Checks that a registry and a manifest say the same of a release.
pub fn validate_registry_manifest_pair(entry: &PluginRegistryEntry, manifest: &PluginManifest) -> (r:
    Result<(), Failure>)
    ensures
        failure::told_unit(r) == pair_check(*entry, *manifest),
{
    if entry.plugin_schema_version != manifest.schema_version || !text::same(
        &entry.name,
        &manifest.name,
    ) || !text::same(&entry.version, &manifest.version) || !text::same(
        &entry.description,
        &manifest.description,
    ) || !same_texts(&entry.target_commands, &manifest.target_commands) {
        return Err(
            Failure::new(
                "plugin registry metadata disagrees with manifest for ".to_owned().concat(
                    &show_release(entry),
                ),
            ),
        );
    }
    let suffix = "/plugins/".to_owned().concat(&entry.name);
    if !text::starts_with(&entry.source, "github:") || !text::ends_with(&entry.source, &suffix) {
        return Err(
            Failure::new("invalid plugin source for ".to_owned().concat(&show_release(entry))),
        );
    }
    Ok(())
}

/// A release whose manifest was read, where the manifest is the one whose digest the registry
/// gives, is in order and agrees with the registry.
pub fn admit_plugin(
    entry: PluginRegistryEntry,
    manifest: PluginManifest,
    manifest_text: String,
    origin: PluginOrigin,
) -> (r: Result<ResolvedPlugin, Failure>)
    ensures
        match seqs::both(
            digest_check(entry, manifest_text@),
            seqs::both(manifest_check(manifest), pair_check(entry, manifest)),
        ) {
            Ok(_) => r == Ok::<ResolvedPlugin, Failure>(
                ResolvedPlugin { entry, manifest, manifest_text, origin },
            ),
            Err(e) => r matches Err(failure) && failure@ == e,
        },
        r is Ok ==> entry.sha256@ == sha256(vstd::utf8::encode_utf8(manifest_text@)),
{
    if let Err(e) = check_digest(&entry, &manifest_text) {
        return Err(e);
    }
    if let Err(e) = validate_manifest(&manifest) {
        return Err(e);
    }
    if let Err(e) = validate_registry_manifest_pair(&entry, &manifest) {
        return Err(e);
    }
    Ok(ResolvedPlugin { entry, manifest, manifest_text, origin })
}

/// Puts a release of a local registry in: in place of the release with its name and version, or
/// at the end.
pub fn put_plugin(plugins: &mut Vec<ResolvedPlugin>, local: ResolvedPlugin)
    ensures
        final(plugins)@ == (match release_index(
            old(plugins)@,
            local.entry.name@,
            local.entry.version@,
            0,
        ) {
            Some(i) => old(plugins)@.update(i, local),
            None => old(plugins)@.push(local),
        }),
{
    match find_same(plugins, &local.entry.name, &local.entry.version) {
        Some(i) => plugins.set(i, local),
        None => plugins.push(local),
    }
}

/// Whether a release comes after another: by name, then by version.
pub open spec fn comes_after(a: ResolvedPlugin, b: ResolvedPlugin) -> bool {
    text::before(b.entry.name@, a.entry.name@) || (a.entry.name@ == b.entry.name@ && is_lower(
        ordering_version(b.entry.version@),
        ordering_version(a.entry.version@),
    ))
}

/// Whether a release comes after another.
fn goes_after(a: &ResolvedPlugin, b: &ResolvedPlugin) -> (r: bool)
    ensures
        r == comes_after(*a, *b),
{
    text::comes_before(&b.entry.name, &a.entry.name) || (text::same(&a.entry.name, &b.entry.name)
        && version_before(&b.entry.version, &a.entry.version))
}

/// How many of the releases stand before the place of another: all up to the first that comes
/// after it.
pub open spec fn place_of(plugins: Seq<ResolvedPlugin>, one: ResolvedPlugin, from: int) -> int
    decreases plugins.len() - from,
{
    if from < 0 || from >= plugins.len() || comes_after(plugins[from], one) {
        from
    } else {
        place_of(plugins, one, from + 1)
    }
}

/// Releases in order; those that come neither before nor after one another stay as they were.
pub open spec fn arranged(plugins: Seq<ResolvedPlugin>) -> Seq<ResolvedPlugin>
    decreases plugins.len(),
{
    if plugins.len() == 0 {
        plugins
    } else {
        let before = arranged(plugins.drop_last());
        before.insert(place_of(before, plugins.last(), 0), plugins.last())
    }
}

/// The place of a release is one among the others.
proof fn lemma_place_of(plugins: Seq<ResolvedPlugin>, one: ResolvedPlugin, from: int)
    requires
        0 <= from <= plugins.len(),
    ensures
        from <= place_of(plugins, one, from) <= plugins.len(),
        forall|i: int|
            from <= i < place_of(plugins, one, from) ==> !comes_after(#[trigger] plugins[i], one),
        place_of(plugins, one, from) < plugins.len() ==> comes_after(
            plugins[place_of(plugins, one, from)],
            one,
        ),
    decreases plugins.len() - from,
{
    if from < plugins.len() && !comes_after(plugins[from], one) {
        lemma_place_of(plugins, one, from + 1);
    }
}

/// Releases in order.
pub fn sort_plugins(plugins: Vec<ResolvedPlugin>) -> (r: Vec<ResolvedPlugin>)
    ensures
        r@ == arranged(plugins@),
{
    let ghost all = plugins@;
    let mut rest = plugins;
    let mut done: Vec<ResolvedPlugin> = Vec::new();
    let ghost mut n: int = 0;
    assert(all.take(0) =~= Seq::<ResolvedPlugin>::empty());
    assert(all.skip(0) =~= all);
    while rest.len() > 0
        invariant
            0 <= n <= all.len(),
            rest@ == all.skip(n),
            done@ == arranged(all.take(n)),
        decreases rest@.len(),
    {
        let one = rest.remove(0);
        proof {
            assert(one == all[n]);
            assert(rest@ =~= all.skip(n + 1));
            assert(all.take(n + 1).drop_last() =~= all.take(n));
        }
        let mut i: usize = 0;
        while i < done.len() && !goes_after(&done[i], &one)
            invariant
                i <= done@.len(),
                place_of(done@, one, 0) == place_of(done@, one, i as int),
            decreases done@.len() - i,
        {
            i += 1;
        }
        done.insert(i, one);
        proof {
            n = n + 1;
        }
    }
    assert(all.take(n) =~= all);
    done
}

/// What a release comes after, everything that it does not come after comes after too; and of two
/// releases only one comes after the other.
proof fn lemma_after(a: ResolvedPlugin, b: ResolvedPlugin, c: ResolvedPlugin)
    ensures
        comes_after(a, b) && !comes_after(a, c) ==> comes_after(c, b),
        comes_after(a, b) ==> !comes_after(b, a),
{
    text::lemma_before_total(a.entry.name@, c.entry.name@);
    text::lemma_before_irreflexive(a.entry.name@);
    text::lemma_before_irreflexive(b.entry.name@);
    if text::before(b.entry.name@, a.entry.name@) && text::before(a.entry.name@, b.entry.name@) {
        text::lemma_before_transitive(a.entry.name@, b.entry.name@, a.entry.name@);
    }
    if text::before(b.entry.name@, a.entry.name@) && text::before(a.entry.name@, c.entry.name@) {
        text::lemma_before_transitive(b.entry.name@, a.entry.name@, c.entry.name@);
    }
}

/// Arranged releases are in order, and they are the releases that there were.
pub proof fn law_arranged_in_order(plugins: Seq<ResolvedPlugin>)
    ensures
        forall|i: int, j: int|
            0 <= i < j < arranged(plugins).len() ==> !comes_after(
                #[trigger] arranged(plugins)[i],
                #[trigger] arranged(plugins)[j],
            ),
        arranged(plugins).to_multiset() == plugins.to_multiset(),
    decreases plugins.len(),
{
    broadcast use vstd::seq_lib::group_to_multiset_ensures;

    if plugins.len() > 0 {
        let front = plugins.drop_last();
        let one = plugins.last();
        law_arranged_in_order(front);
        let before = arranged(front);
        let now = arranged(plugins);
        let at = place_of(before, one, 0);
        lemma_place_of(before, one, 0);
        assert forall|i: int, j: int| 0 <= i < j < now.len() implies !comes_after(
            #[trigger] now[i],
            #[trigger] now[j],
        ) by {
            if i == at {
                assert(now[j] == before[j - 1]);
                lemma_after(before[at], one, before[j - 1]);
                lemma_after(before[j - 1], one, one);
            } else if j == at {
                assert(now[i] == before[i]);
            } else {
                let a = if i < at { i } else { i - 1 };
                let b = if j < at { j } else { j - 1 };
                assert(now[i] == before[a] && now[j] == before[b]);
            }
        }
        assert(plugins =~= front.push(one));
        assert(before.insert(at, one).to_multiset() =~= before.to_multiset().insert(one));
        assert(front.push(one).to_multiset() =~= front.to_multiset().insert(one));
    }
}

} // verus!
