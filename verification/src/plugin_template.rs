//! The templates of plugins: placeholders in braces and what is put in for them.

use vstd::prelude::*;
use vstd::string::*;

use crate::failure;
use crate::failure::Failure;
use crate::map::StringMap;
use crate::pattern;
use crate::paths;
use crate::plugin_config;
use crate::plugin_config::{ConfigValue, ConfigView, PluginConfigField};
use crate::seqs;
use crate::text;

verus! {

broadcast use crate::seqs::group_seqs;

/// Named texts, in the order of their names.
pub type Values = Seq<(Seq<char>, Seq<char>)>;

/// A configuration, in the order of its keys.
pub type Config = Seq<(Seq<char>, ConfigView)>;

/// The fields that a plugin declares, in the order of their keys.
pub type Fields = Seq<(Seq<char>, PluginConfigField)>;

/// The first place at or after `from` at which `c` stands.
pub open spec fn next_char(s: Seq<char>, c: char, from: int) -> Option<int>
    decreases s.len() - from,
{
    if from < 0 || from >= s.len() {
        None
    } else if s[from] == c {
        Some(from)
    } else {
        next_char(s, c, from + 1)
    }
}

/// The first place of `c` is one of it, and the first.
pub proof fn lemma_next_char(s: Seq<char>, c: char, from: int)
    ensures
        match next_char(s, c, from) {
            Some(i) => 0 <= from <= i < s.len() && s[i] == c && forall|k: int|
                from <= k < i ==> s[k] != c,
            None => from >= 0 ==> forall|k: int| from <= k < s.len() ==> s[k] != c,
        },
    decreases s.len() - from,
{
    if 0 <= from < s.len() && s[from] != c {
        lemma_next_char(s, c, from + 1);
    }
}

/// The first place at or after `from` at which `c` stands.
fn find_char(s: &Vec<char>, c: char, from: usize) -> (r: Option<usize>)
    requires
        from <= s@.len(),
    ensures
        match r {
            Some(i) => next_char(s@, c, from as int) == Some(i as int) && from <= i < s@.len(),
            None => next_char(s@, c, from as int) is None,
        },
{
    let mut i: usize = from;
    while i < s.len()
        invariant
            from <= i <= s@.len(),
            next_char(s@, c, from as int) == next_char(s@, c, i as int),
        decreases s@.len() - i,
    {
        if s[i] == c {
            return Some(i);
        }
        i += 1;
    }
    None
}

/// The placeholders at or after `cursor`: what stands between an opening brace and the next
/// closing one.
pub open spec fn placeholders(s: Seq<char>, cursor: int) -> Result<Seq<Seq<char>>, Seq<Seq<char>>>
    decreases s.len() - cursor,
{
    match next_char(s, '{', cursor) {
        None => if next_char(s, '}', cursor) is Some {
            Err(seq!["plugin template contains an unmatched closing brace"@])
        } else {
            Ok(Seq::empty())
        },
        Some(open) => match next_char(s, '}', open + 1) {
            None => Err(seq!["plugin template contains an unmatched opening brace"@]),
            Some(close) => {
                let key = s.subrange(open + 1, close);
                proof {
                    lemma_next_char(s, '{', cursor);
                    lemma_next_char(s, '}', open + 1);
                }
                if key.len() == 0 || key.contains('{') {
                    Err(seq!["plugin template contains an invalid placeholder"@])
                } else {
                    match placeholders(s, close + 1) {
                        Err(e) => Err(e),
                        Ok(rest) => Ok(seq![key] + rest),
                    }
                }
            },
        },
    }
}

/// The placeholders of a template.
pub fn template_placeholders(template: &str) -> (r: Result<Vec<String>, Failure>)
    ensures
        failure::told_texts(r) == placeholders(template@, 0),
{
    let chars = text::chars_of(template);
    let ghost s = template@;
    let mut done = seqs::no_texts();
    let mut cursor: usize = 0;
    let ghost whole = placeholders(s, 0);
    proof {
        assert(forall|rest: Seq<Seq<char>>| #[trigger] (Seq::<Seq<char>>::empty() + rest) =~= rest);
    }
    while cursor <= chars.len()
        invariant
            cursor <= chars@.len(),
            chars@ == s,
            s == template@,
            whole == placeholders(s, 0),
            whole == (match placeholders(s, cursor as int) {
                Err(e) => Err(e),
                Ok(rest) => Ok(seqs::texts(done@) + rest),
            }),
        decreases chars@.len() - cursor,
    {
        let open = match find_char(&chars, '{', cursor) {
            Some(open) => open,
            None => {
                return if find_char(&chars, '}', cursor).is_some() {
                    Err(failure::fail("plugin template contains an unmatched closing brace"))
                } else {
                    assert(seqs::texts(done@) + Seq::<Seq<char>>::empty() =~= seqs::texts(done@));
                    Ok(done)
                };
            },
        };
        let close = match find_char(&chars, '}', open + 1) {
            Some(close) => close,
            None => {
                return Err(failure::fail("plugin template contains an unmatched opening brace"));
            },
        };
        let key = text::string_of(&chars, open + 1, close);
        if close == open + 1 || text::contains_char(&key, '{') {
            return Err(failure::fail("plugin template contains an invalid placeholder"));
        }
        let ghost before = seqs::texts(done@);
        let ghost own = key@;
        seqs::push_string(&mut done, key);
        proof {
            if placeholders(s, close + 1) is Ok {
                let rest = placeholders(s, close + 1)->Ok_0;
                assert(before + (seq![own] + rest) =~= before.push(own) + rest);
            }
        }
        cursor = close + 1;
    }
    Ok(done)
}

/// What is put in for a placeholder.
pub open spec fn filling(key: Seq<char>, config: Config, env: Values, workspace: Seq<char>) -> Result<
    Seq<char>,
    Seq<Seq<char>>,
> {
    if key == "tmp"@ {
        Ok(workspace)
    } else if text::begins(key, "env."@) {
        let name = key.subrange(4, key.len() as int);
        match crate::map::lookup(env, name) {
            Some(value) => Ok(value),
            None => Err(seq!["missing rendered env."@ + name]),
        }
    } else if text::begins(key, "config."@) {
        let name = key.subrange(7, key.len() as int);
        match crate::map::lookup(config, name) {
            Some(value) => plugin_config::scalar_text(value),
            None => Err(seq!["missing plugin config."@ + name]),
        }
    } else {
        Err(seq!["unsupported plugin placeholder {"@ + key + "}"@])
    }
}

/// What is put in for a placeholder.
fn fill(key: &str, config: &StringMap<ConfigValue>, env: &StringMap<String>, workspace: &str) -> (r:
    Result<String, Failure>)
    ensures
        failure::told_text(r) == filling(key@, config.deep(), env.strings(), workspace@),
{
    proof {
        reveal_strlit("env.");
        reveal_strlit("config.");
    }
    if text::same(key, "tmp") {
        return Ok(workspace.to_owned());
    }
    if let Some(name) = text::strip_prefix(key, "env.") {
        return match env.get_text(name) {
            Some(value) => Ok(value.clone()),
            None => Err(Failure::new("missing rendered env.".to_owned().concat(name))),
        };
    }
    if let Some(name) = text::strip_prefix(key, "config.") {
        return match config.get_deep(name) {
            Some(value) => plugin_config::scalar_to_string(value),
            None => Err(Failure::new("missing plugin config.".to_owned().concat(name))),
        };
    }
    Err(Failure::new("unsupported plugin placeholder {".to_owned().concat(key).concat("}")))
}

/// A template from `cursor` on, with what is put in for its placeholders.
pub open spec fn rendered(
    s: Seq<char>,
    cursor: int,
    config: Config,
    env: Values,
    workspace: Seq<char>,
) -> Result<Seq<char>, Seq<Seq<char>>>
    decreases s.len() - cursor,
{
    match next_char(s, '{', cursor) {
        None => if next_char(s, '}', cursor) is Some {
            Err(seq!["plugin template contains an unmatched closing brace"@])
        } else {
            Ok(s.subrange(cursor, s.len() as int))
        },
        Some(open) => match next_char(s, '}', open + 1) {
            None => Err(seq!["plugin template contains an unmatched opening brace"@]),
            Some(close) => {
                proof {
                    lemma_next_char(s, '{', cursor);
                    lemma_next_char(s, '}', open + 1);
                }
                match filling(s.subrange(open + 1, close), config, env, workspace) {
                    Err(e) => Err(e),
                    Ok(value) => match rendered(s, close + 1, config, env, workspace) {
                        Err(e) => Err(e),
                        Ok(rest) => Ok(s.subrange(cursor, open) + value + rest),
                    },
                }
            },
        },
    }
}

/// A template with what is put in for its placeholders.
pub fn render_template(
    template: &str,
    config: &StringMap<ConfigValue>,
    environment: &StringMap<String>,
    workspace: &str,
) -> (r: Result<String, Failure>)
    ensures
        failure::told_text(r) == rendered(
            template@,
            0,
            config.deep(),
            environment.strings(),
            workspace@,
        ),
{
    let chars = text::chars_of(template);
    let ghost s = template@;
    let ghost c = config.deep();
    let ghost e = environment.strings();
    let ghost whole = rendered(s, 0, c, e, workspace@);
    let mut output = String::new();
    let mut cursor: usize = 0;
    proof {
        assert(output@ =~= Seq::<char>::empty());
        assert(forall|rest: Seq<char>| #[trigger] (Seq::<char>::empty() + rest) =~= rest);
    }
    while cursor <= chars.len()
        invariant
            cursor <= chars@.len(),
            chars@ == s,
            s == template@,
            c == config.deep(),
            e == environment.strings(),
            whole == rendered(s, 0, c, e, workspace@),
            whole == (match rendered(s, cursor as int, c, e, workspace@) {
                Err(failure) => Err(failure),
                Ok(rest) => Ok(output@ + rest),
            }),
        decreases chars@.len() - cursor,
    {
        let open = match find_char(&chars, '{', cursor) {
            Some(open) => open,
            None => {
                return if find_char(&chars, '}', cursor).is_some() {
                    Err(failure::fail("plugin template contains an unmatched closing brace"))
                } else {
                    output.append(&text::string_of(&chars, cursor, chars.len()));
                    Ok(output)
                };
            },
        };
        let close = match find_char(&chars, '}', open + 1) {
            Some(close) => close,
            None => {
                return Err(failure::fail("plugin template contains an unmatched opening brace"));
            },
        };
        let key = text::string_of(&chars, open + 1, close);
        let value = match fill(&key, config, environment, workspace) {
            Ok(value) => value,
            Err(failure) => return Err(failure),
        };
        let ghost before = output@;
        output.append(&text::string_of(&chars, cursor, open));
        output.append(&value);
        proof {
            if rendered(s, close + 1, c, e, workspace@) is Ok {
                let rest = rendered(s, close + 1, c, e, workspace@)->Ok_0;
                let head = s.subrange(cursor as int, open as int);
                assert(before + (head + value@ + rest) =~= before + head + value@ + rest);
            }
        }
        cursor = close + 1;
    }
    Ok(output)
}

/// A template without braces is rendered as it is.
pub proof fn law_literal_template(
    s: Seq<char>,
    config: Config,
    env: Values,
    workspace: Seq<char>,
)
    requires
        !s.contains('{'),
        !s.contains('}'),
    ensures
        rendered(s, 0, config, env, workspace) == Ok::<Seq<char>, Seq<Seq<char>>>(s),
        placeholders(s, 0) == Ok::<Seq<Seq<char>>, Seq<Seq<char>>>(Seq::empty()),
{
    lemma_next_char(s, '{', 0);
    lemma_next_char(s, '}', 0);
    if let Some(i) = next_char(s, '{', 0) {
        assert(s.contains(s[i]));
    }
    if let Some(i) = next_char(s, '}', 0) {
        assert(s.contains(s[i]));
    }
    assert(s.subrange(0, s.len() as int) =~= s);
}

/// Whether a placeholder names something that the plugin declares.
pub open spec fn placeholder_check(env: Values, fields: Fields) -> spec_fn(Seq<char>) -> Result<
    (),
    Seq<Seq<char>>,
> {
    |key: Seq<char>|
        if key == "tmp"@ {
            Ok(())
        } else if text::begins(key, "env."@) {
            if crate::map::has_key(env, key.subrange(4, key.len() as int)) {
                Ok(())
            } else {
                Err(
                    seq![
                        "template references undeclared env."@ + key.subrange(4, key.len() as int),
                    ],
                )
            }
        } else if text::begins(key, "config."@) {
            if crate::map::has_key(fields, key.subrange(7, key.len() as int)) {
                Ok(())
            } else {
                Err(
                    seq![
                        "template references undeclared config."@ + key.subrange(
                            7,
                            key.len() as int,
                        ),
                    ],
                )
            }
        } else {
            Err(seq!["unsupported plugin placeholder {"@ + key + "}"@])
        }
}

/// Whether something in a template could be executed by a shell or another template language.
pub open spec fn is_executable(template: Seq<char>) -> bool {
    text::holds(template, "$("@) || template.contains('`') || pattern::has_expansion(template)
        || text::holds(template, "{{"@) || text::holds(template, "}}"@)
}

/// Whether a template executes nothing and names only what the plugin declares.
pub open spec fn template_check(env: Values, fields: Fields) -> spec_fn(Seq<char>) -> Result<
    (),
    Seq<Seq<char>>,
> {
    |template: Seq<char>|
        if is_executable(template) {
            Err(seq!["plugin template contains an executable expression"@])
        } else {
            match placeholders(template, 0) {
                Err(e) => Err(e),
                Ok(keys) => seqs::each(keys, placeholder_check(env, fields)),
            }
        }
}

/// Checks a placeholder.
fn check_placeholder(key: &str, env: &StringMap<String>, fields: &StringMap<PluginConfigField>) -> (r:
    Result<(), Failure>)
    ensures
        failure::told_unit(r) == placeholder_check(env.strings(), fields@)(key@),
{
    proof {
        reveal_strlit("env.");
        reveal_strlit("config.");
    }
    if text::same(key, "tmp") {
        return Ok(());
    }
    if let Some(name) = text::strip_prefix(key, "env.") {
        return if env.get_text(name).is_some() {
            Ok(())
        } else {
            Err(Failure::new("template references undeclared env.".to_owned().concat(name)))
        };
    }
    if let Some(name) = text::strip_prefix(key, "config.") {
        return if fields.contains_key(name) {
            Ok(())
        } else {
            Err(Failure::new("template references undeclared config.".to_owned().concat(name)))
        };
    }
    Err(Failure::new("unsupported plugin placeholder {".to_owned().concat(key).concat("}")))
}

/// Checks that a template executes nothing and names only what the plugin declares.
pub fn validate_template(
    template: &str,
    env: &StringMap<String>,
    fields: &StringMap<PluginConfigField>,
) -> (r: Result<(), Failure>)
    ensures
        failure::told_unit(r) == template_check(env.strings(), fields@)(template@),
{
    if text::contains(template, "$(") || text::contains_char(template, '`')
        || pattern::matches_expansion(template) || text::contains(template, "{{") || text::contains(
        template,
        "}}",
    ) {
        return Err(failure::fail("plugin template contains an executable expression"));
    }
    let keys = match template_placeholders(template) {
        Ok(keys) => keys,
        Err(e) => return Err(e),
    };
    let ghost all = seqs::texts(keys@);
    let ghost f = placeholder_check(env.strings(), fields@);
    let mut i: usize = 0;
    assert(all.take(0) =~= Seq::<Seq<char>>::empty());
    while i < keys.len()
        invariant
            i <= keys@.len(),
            all == seqs::texts(keys@),
            f == placeholder_check(env.strings(), fields@),
            !is_executable(template@),
            placeholders(template@, 0) == Ok::<Seq<Seq<char>>, Seq<Seq<char>>>(all),
            seqs::each(all.take(i as int), f) is Ok,
        decreases keys@.len() - i,
    {
        proof {
            seqs::lemma_each(all, f, i as int);
            assert(all[i as int] == keys@[i as int]@);
        }
        if let Err(e) = check_placeholder(&keys[i], env, fields) {
            return Err(e);
        }
        i += 1;
    }
    Ok(())
}

/// What can be put in for every placeholder can be rendered.
proof fn lemma_fillings_render(
    s: Seq<char>,
    cursor: int,
    config: Config,
    env: Values,
    workspace: Seq<char>,
)
    requires
        placeholders(s, cursor) is Ok,
        forall|i: int|
            0 <= i < placeholders(s, cursor)->Ok_0.len() ==> filling(
                #[trigger] placeholders(s, cursor)->Ok_0[i],
                config,
                env,
                workspace,
            ) is Ok,
    ensures
        rendered(s, cursor, config, env, workspace) is Ok,
    decreases s.len() - cursor,
{
    if let Some(open) = next_char(s, '{', cursor) {
        lemma_next_char(s, '{', cursor);
        lemma_next_char(s, '}', open + 1);
        if let Some(close) = next_char(s, '}', open + 1) {
            let keys = placeholders(s, cursor)->Ok_0;
            let rest = placeholders(s, close + 1)->Ok_0;
            assert(keys[0] == s.subrange(open + 1, close));
            assert forall|i: int| 0 <= i < rest.len() implies filling(
                #[trigger] rest[i],
                config,
                env,
                workspace,
            ) is Ok by {
                assert(keys[i + 1] == rest[i]);
            }
            lemma_fillings_render(s, close + 1, config, env, workspace);
        }
    }
}

/// A template that was checked can be rendered, once every declared variable has a value and every
/// declared field a scalar.
pub proof fn law_checked_template_renders(
    s: Seq<char>,
    declared: Values,
    fields: Fields,
    config: Config,
    env: Values,
    workspace: Seq<char>,
)
    requires
        template_check(declared, fields)(s) is Ok,
        forall|name: Seq<char>| #[trigger]
            crate::map::has_key(declared, name) ==> crate::map::has_key(env, name),
        forall|key: Seq<char>| #[trigger]
            crate::map::has_key(fields, key) ==> (crate::map::lookup(config, key) matches Some(v)
                && plugin_config::is_scalar_view(v)),
    ensures
        rendered(s, 0, config, env, workspace) is Ok,
{
    let keys = placeholders(s, 0)->Ok_0;
    let f = placeholder_check(declared, fields);
    assert forall|i: int| 0 <= i < keys.len() implies filling(
        #[trigger] keys[i],
        config,
        env,
        workspace,
    ) is Ok by {
        seqs::lemma_each_ok(keys, f, i);
    }
    lemma_fillings_render(s, 0, config, env, workspace);
}

/// Whether a placeholder needs no variable that is still to be rendered.
pub open spec fn is_ready(key: Seq<char>, done: Values) -> bool {
    text::begins(key, "env."@) ==> crate::map::has_key(done, key.subrange(4, key.len() as int))
}

/// Whether the placeholders need no variable that is still to be rendered.
pub open spec fn all_ready(keys: Seq<Seq<char>>, done: Values) -> bool {
    forall|i: int| 0 <= i < keys.len() ==> is_ready(#[trigger] keys[i], done)
}

/// What is rendered after one variable was looked at.
pub open spec fn after_variable(
    name: Seq<char>,
    template: Seq<char>,
    done: Values,
    config: Config,
    workspace: Seq<char>,
) -> Result<Values, Seq<Seq<char>>> {
    if crate::map::has_key(done, name) {
        Ok(done)
    } else {
        match placeholders(template, 0) {
            Err(e) => Err(e),
            Ok(keys) => if !all_ready(keys, done) {
                Ok(done)
            } else {
                match rendered(template, 0, config, done, workspace) {
                    Err(e) => Err(e),
                    Ok(value) => Ok(crate::map::inserted(done, name, value)),
                }
            },
        }
    }
}

/// What is rendered after the first `n` variables were looked at once.
pub open spec fn after_pass(
    env: Values,
    n: int,
    done: Values,
    config: Config,
    workspace: Seq<char>,
) -> Result<Values, Seq<Seq<char>>>
    decreases n,
{
    if n <= 0 {
        Ok(done)
    } else {
        match after_pass(env, n - 1, done, config, workspace) {
            Err(e) => Err(e),
            Ok(now) => after_variable(env[n - 1].0, env[n - 1].1, now, config, workspace),
        }
    }
}

/// A failure at a variable ends the pass.
proof fn lemma_pass_stops(
    env: Values,
    n: int,
    m: int,
    done: Values,
    config: Config,
    workspace: Seq<char>,
)
    requires
        0 <= n <= m,
        after_pass(env, n, done, config, workspace) is Err,
    ensures
        after_pass(env, m, done, config, workspace) == after_pass(
            env,
            n,
            done,
            config,
            workspace,
        ),
    decreases m,
{
    if n < m {
        lemma_pass_stops(env, n, m - 1, done, config, workspace);
    }
}

/// How many variables are still to be rendered.
pub open spec fn pending(env: Values, done: Values) -> nat
    decreases env.len(),
{
    if env.len() == 0 {
        0
    } else {
        pending(env.drop_last(), done) + (if crate::map::has_key(done, env.last().0) {
            0nat
        } else {
            1nat
        })
    }
}

/// The variables of a plugin after passes over them until all are rendered.
pub open spec fn environment(env: Values, done: Values, config: Config, workspace: Seq<char>) -> Result<
    Values,
    Seq<Seq<char>>,
>
    decreases pending(env, done),
{
    if pending(env, done) == 0 {
        Ok(done)
    } else {
        match after_pass(env, env.len() as int, done, config, workspace) {
            Err(e) => Err(e),
            Ok(now) => if pending(env, now) < pending(env, done) {
                environment(env, now, config, workspace)
            } else {
                Err(seq!["plugin environment templates contain a dependency cycle"@])
            },
        }
    }
}

/// Whether the placeholders need no variable that is still to be rendered.
fn are_ready(keys: &Vec<String>, done: &StringMap<String>) -> (r: bool)
    ensures
        r == all_ready(seqs::texts(keys@), done.strings()),
{
    proof {
        reveal_strlit("env.");
    }
    let ghost all = seqs::texts(keys@);
    let mut i: usize = 0;
    while i < keys.len()
        invariant
            i <= keys@.len(),
            all == seqs::texts(keys@),
            "env."@.len() == 4,
            forall|k: int| 0 <= k < i ==> is_ready(#[trigger] all[k], done.strings()),
        decreases keys@.len() - i,
    {
        assert(all[i as int] == keys@[i as int]@);
        if let Some(name) = text::strip_prefix(&keys[i], "env.") {
            if done.get_text(name).is_none() {
                assert(!is_ready(all[i as int], done.strings()));
                return false;
            }
        }
        i += 1;
    }
    true
}

/// Renders a variable, where that can be done now.
fn render_variable(
    name: &str,
    template: &str,
    done: &mut StringMap<String>,
    config: &StringMap<ConfigValue>,
    workspace: &str,
) -> (r: Result<(), Failure>)
    ensures
        match after_variable(
            name@,
            template@,
            old(done).strings(),
            config.deep(),
            workspace@,
        ) {
            Ok(now) => r is Ok && final(done).strings() == now,
            Err(e) => r matches Err(failure) && failure@ == e,
        },
{
    if done.get_text(name).is_some() {
        return Ok(());
    }
    let keys = match template_placeholders(template) {
        Ok(keys) => keys,
        Err(e) => return Err(e),
    };
    if !are_ready(&keys, done) {
        return Ok(());
    }
    match render_template(template, config, done, workspace) {
        Err(e) => Err(e),
        Ok(value) => {
            done.insert_text(name.to_owned(), value);
            Ok(())
        },
    }
}

/// How many variables are still to be rendered.
fn count_pending(env: &StringMap<String>, done: &StringMap<String>) -> (r: usize)
    ensures
        r == pending(env.strings(), done.strings()),
        r <= env@.len(),
{
    let ghost all = env.strings();
    let mut count: usize = 0;
    let mut i: usize = 0;
    while i < env.len()
        invariant
            i <= env@.len(),
            all == env.strings(),
            all.len() == env@.len(),
            count <= i,
            count == pending(all.take(i as int), done.strings()),
        decreases env@.len() - i,
    {
        proof {
            assert(all.take(i + 1).drop_last() == all.take(i as int));
            assert(all.take(i + 1).last() == all[i as int]);
            assert(all[i as int].0 == env@[i as int].0);
        }
        if done.get_text(env.key(i)).is_none() {
            count += 1;
        }
        i += 1;
    }
    count
}

/// The variables of a plugin, each rendered once those that it names are.
pub fn render_environment(
    env: &StringMap<String>,
    config: &StringMap<ConfigValue>,
    workspace: &str,
) -> (r: Result<StringMap<String>, Failure>)
    ensures
        match environment(env.strings(), Seq::empty(), config.deep(), workspace@) {
            Ok(values) => r matches Ok(m) && m.strings() == values,
            Err(e) => r matches Err(failure) && failure@ == e,
        },
{
    let ghost all = env.strings();
    let ghost c = config.deep();
    let ghost whole = environment(all, Seq::empty(), c, workspace@);
    let mut done = StringMap::empty_text();
    let mut left = count_pending(env, &done);
    while left > 0
        invariant
            all == env.strings(),
            all.len() == env@.len(),
            c == config.deep(),
            left == pending(all, done.strings()),
            whole == environment(all, Seq::empty(), c, workspace@),
            whole == environment(all, done.strings(), c, workspace@),
        decreases left,
    {
        let ghost start = done.strings();
        let mut i: usize = 0;
        while i < env.len()
            invariant
                i <= env@.len(),
                all == env.strings(),
                all.len() == env@.len(),
                c == config.deep(),
                left > 0,
                left == pending(all, start),
                whole == environment(all, Seq::empty(), c, workspace@),
                whole == environment(all, start, c, workspace@),
                after_pass(all, i as int, start, c, workspace@) == Ok::<Values, Seq<Seq<char>>>(
                    done.strings(),
                ),
            decreases env@.len() - i,
        {
            assert(all[i as int] == (env@[i as int].0, env@[i as int].1@));
            if let Err(e) = render_variable(env.key(i), env.value(i), &mut done, config, workspace) {
                proof {
                    lemma_pass_stops(all, i + 1, all.len() as int, start, c, workspace@);
                }
                return Err(e);
            }
            i += 1;
        }
        let now = count_pending(env, &done);
        if now >= left {
            return Err(failure::fail("plugin environment templates contain a dependency cycle"));
        }
        left = now;
    }
    Ok(done)
}

/// Nothing is pending where every variable is rendered.
proof fn lemma_none_pending(env: Values, done: Values, i: int)
    requires
        pending(env, done) == 0,
        0 <= i < env.len(),
    ensures
        crate::map::has_key(done, env[i].0),
    decreases env.len(),
{
    if i < env.len() - 1 {
        lemma_none_pending(env.drop_last(), done, i);
    }
}

/// Where the variables of a plugin can be rendered, every one of them has a value.
pub proof fn law_environment_complete(
    env: Values,
    done: Values,
    config: Config,
    workspace: Seq<char>,
    i: int,
)
    requires
        environment(env, done, config, workspace) is Ok,
        0 <= i < env.len(),
    ensures
        crate::map::has_key(environment(env, done, config, workspace)->Ok_0, env[i].0),
    decreases pending(env, done),
{
    if pending(env, done) == 0 {
        lemma_none_pending(env, done, i);
    } else {
        let now = after_pass(env, env.len() as int, done, config, workspace)->Ok_0;
        law_environment_complete(env, now, config, workspace, i);
    }
}

/// A template rendered with all its placeholders.
pub open spec fn renderer(config: Config, env: Values, workspace: Seq<char>) -> spec_fn(
    Seq<char>,
) -> Result<Seq<char>, Seq<Seq<char>>> {
    |template: Seq<char>| rendered(template, 0, config, env, workspace)
}

/// The arguments that a plugin puts before those of the command.
pub fn render_arguments(
    arguments: &[String],
    config: &StringMap<ConfigValue>,
    environment: &StringMap<String>,
    workspace: &str,
) -> (r: Result<Vec<String>, Failure>)
    ensures
        failure::told_texts(r) == seqs::collected(
            seqs::texts(arguments@),
            renderer(config.deep(), environment.strings(), workspace@),
        ),
{
    let ghost all = seqs::texts(arguments@);
    let ghost f = renderer(config.deep(), environment.strings(), workspace@);
    let mut r = seqs::no_texts();
    let mut i: usize = 0;
    assert(all.take(0) =~= Seq::<Seq<char>>::empty());
    while i < arguments.len()
        invariant
            i <= arguments@.len(),
            all == seqs::texts(arguments@),
            f == renderer(config.deep(), environment.strings(), workspace@),
            seqs::collected(all.take(i as int), f) == Ok::<Seq<Seq<char>>, Seq<Seq<char>>>(
                seqs::texts(r@),
            ),
        decreases arguments@.len() - i,
    {
        proof {
            seqs::lemma_collected(all, f, i as int);
            assert(all[i as int] == arguments@[i as int]@);
        }
        match render_template(&arguments[i], config, environment, workspace) {
            Ok(argument) => seqs::push_string(&mut r, argument),
            Err(e) => return Err(e),
        }
        i += 1;
    }
    Ok(r)
}

/// The path and the content of a generated file.
pub open spec fn generated_file(
    path: Seq<char>,
    content: Seq<char>,
    config: Config,
    env: Values,
    workspace: Seq<char>,
    windows: bool,
) -> Result<(Seq<char>, Seq<char>), Seq<Seq<char>>> {
    match rendered(path, 0, config, env, workspace) {
        Err(e) => Err(e),
        Ok(path) => match paths::generated_path(workspace, path, windows) {
            Err(e) => Err(e),
            Ok(path) => match rendered(content, 0, config, env, workspace) {
                Err(e) => Err(e),
                Ok(content) => Ok((path, content)),
            },
        },
    }
}

/// The path and the content of a generated file.
pub fn render_file(
    path: &str,
    content: &str,
    config: &StringMap<ConfigValue>,
    environment: &StringMap<String>,
    workspace: &str,
    windows: bool,
) -> (r: Result<(String, String), Failure>)
    ensures
        match generated_file(
            path@,
            content@,
            config.deep(),
            environment.strings(),
            workspace@,
            windows,
        ) {
            Ok((p, c)) => r matches Ok(file) && file.0@ == p && file.1@ == c,
            Err(e) => r matches Err(failure) && failure@ == e,
        },
{
    let path = match render_template(path, config, environment, workspace) {
        Ok(path) => path,
        Err(e) => return Err(e),
    };
    let path = match paths::normalize_generated_path(workspace, &path, windows) {
        Ok(path) => path,
        Err(e) => return Err(e),
    };
    match render_template(content, config, environment, workspace) {
        Ok(content) => Ok((path, content)),
        Err(e) => Err(e),
    }
}

} // verus!
