//! What holds of the files that are written and kept, and of what a lookup leads to.

use vstd::prelude::*;
use vstd::string::*;

use crate::cache;
use crate::environment;
use crate::envfile;
use crate::envfile::EntryView;
use crate::ids;
use crate::lookup;
use crate::lookup::TurnView;
use crate::op;
use crate::resolver;
use crate::sdk_index;
use crate::security;
use crate::seqs;
use crate::targets;
use crate::telemetry;
use crate::telemetry::TraceView;
use crate::text;

verus! {

broadcast use crate::seqs::group_seqs;

/// Plain values are counted line by line.
pub proof fn law_plain_values_counted(a: Seq<Seq<char>>, b: Seq<Seq<char>>)
    ensures
        envfile::plaintext_count(a + b) == envfile::plaintext_count(a) + envfile::plaintext_count(
            b,
        ),
    decreases b.len(),
{
    if b.len() == 0 {
        assert(a + b =~= a);
    } else {
        law_plain_values_counted(a, b.drop_last());
        assert((a + b).drop_last() =~= a + b.drop_last());
        assert((a + b).last() == b.last());
    }
}

/// A line counts where it gives a variable a value that is neither empty nor a reference.
pub proof fn law_plain_value_counted(line: Seq<char>)
    ensures
        envfile::plaintext_count(seq![line])
            == (if envfile::env_entry(line) matches EntryView::Value(
            _,
            v,
        ) && v.len() > 0 {
            1nat
        } else {
            0nat
        }),
{
    reveal_with_fuel(envfile::plaintext_count, 2);
    assert(seq![line].drop_last() =~= Seq::<Seq<char>>::empty());
    assert(seq![line].last() == line);
}

/// The value that is newest for a key is the one that comes last; lines with other keys, and those
/// without one, change nothing.
pub proof fn law_newest_line(lines: Seq<Seq<char>>, line: Seq<char>, key: Seq<char>)
    ensures
        envfile::env_key(line) == Some(key) ==> envfile::newest(lines + seq![line], key) == Some(
            line,
        ),
        envfile::env_key(line) != Some(key) ==> envfile::newest(lines + seq![line], key)
            == envfile::newest(lines, key),
        envfile::newest(Seq::empty(), key) is None,
{
    let all = lines + seq![line];
    assert(all.last() == line);
    assert(all.drop_last() =~= lines);
}

/// A merge keeps the number and the order of the lines that are there, gives each that has a key
/// its newest line, and adds behind them, in their order, the new lines whose keys are not there.
pub proof fn law_line_added(old_lines: Seq<Seq<char>>, new: Seq<Seq<char>>, line: Seq<char>)
    ensures
        envfile::env_key(line) matches Some(key) && (forall|i: int|
            0 <= i < old_lines.len() ==> envfile::env_key(#[trigger] old_lines[i]) != Some(key))
            ==> envfile::appended(old_lines, new + seq![line]) == envfile::appended(old_lines, new)
            + seq![line],
        envfile::env_key(line) is None ==> envfile::appended(old_lines, new + seq![line])
            == envfile::appended(old_lines, new),
        envfile::env_key(line) matches Some(key) && (exists|i: int|
            0 <= i < old_lines.len() && envfile::env_key(#[trigger] old_lines[i]) == Some(key))
            ==> envfile::appended(old_lines, new + seq![line]) == envfile::appended(old_lines, new),
        envfile::merged_lines(old_lines, new).len() == old_lines.len() + envfile::appended(
            old_lines,
            new,
        ).len(),
        envfile::merged_lines(old_lines, new).skip(old_lines.len() as int) == envfile::appended(
            old_lines,
            new,
        ),
{
    let all = new + seq![line];
    assert(all.last() == line);
    assert(all.drop_last() =~= new);
    assert(envfile::merged_lines(old_lines, new).skip(old_lines.len() as int)
        =~= envfile::appended(old_lines, new));
    let before = envfile::appended(old_lines, new);
    assert(before.push(line) =~= before + seq![line]);
    if let Some(key) = envfile::env_key(line) {
        assert(envfile::key_present(old_lines, key) <==> exists|i: int|
            0 <= i < old_lines.len() && envfile::env_key(#[trigger] old_lines[i]) == Some(key));
    }
}

/// A variable that is set again stands behind the others, once, with its last value; the others
/// keep their order.
pub proof fn law_pair_set_again(
    a: Seq<(Seq<char>, Seq<char>)>,
    b: Seq<(Seq<char>, Seq<char>)>,
    key: Seq<char>,
    former: Seq<char>,
    value: Seq<char>,
)
    requires
        forall|i: int| 0 <= i < a.len() ==> (#[trigger] a[i]).0 != key,
        forall|i: int| 0 <= i < b.len() ==> (#[trigger] b[i]).0 != key,
    ensures
        envfile::with_pair(a + seq![(key, former)] + b, key, value) == a + b + seq![(key, value)],
        envfile::with_pair(a + b, key, value) == a + b + seq![(key, value)],
{
    let all = a + seq![(key, former)] + b;
    let n = a.len() as int;
    envfile::lemma_pair_index(all, key, 0);
    envfile::lemma_pair_index(a + b, key, 0);
    assert(all[n] == (key, former));
    assert forall|i: int| 0 <= i < all.len() && i != n implies (#[trigger] all[i]).0 != key by {
        if i < n {
            assert(all[i] == a[i]);
        } else {
            assert(all[i] == b[i - n - 1]);
        }
    }
    assert forall|i: int| 0 <= i < (a + b).len() implies (#[trigger] (a + b)[i]).0 != key by {
        if i < n {
            assert((a + b)[i] == a[i]);
        } else {
            assert((a + b)[i] == b[i - n]);
        }
    }
    assert(envfile::pair_index(all, key, 0) == Some(n));
    assert(envfile::pair_index(a + b, key, 0) is None);
    assert(all.remove(n) =~= a + b);
    assert((a + b).push((key, value)) =~= a + b + seq![(key, value)]);
}

/// A note holds the whole file between two fences, the first with the name of the file, and
/// nothing else but a line end where the file does not end with one.
pub proof fn law_note_body(name: Seq<char>, content: Seq<char>)
    ensures
        content.len() > 0 && content.last()
            == '\n' ==> op::note_body(name, content) == "```"@ + name
            + seq!['\n'] + content + "```"@,
        content.len() == 0 || content.last() != '\n' ==> op::note_body(name, content) == "```"@
            + name + seq!['\n'] + content + seq!['\n'] + "```"@,
{
    reveal_strlit("\n");
    reveal_strlit("");
    assert("\n"@ =~= seq!['\n']);
    assert(""@ =~= Seq::<char>::empty());
    let n = content.len() as int;
    if n > 0 {
        assert(content.subrange(n - 1, n) =~= seq![content.last()]);
        assert(seq![content.last()][0] == content.last());
        assert("\n"@[0] == '\n');
        assert(text::ends(content, "\n"@) <==> content.last() == '\n');
    } else {
        assert(!text::ends(content, "\n"@));
    }
    let whole = "```"@ + name + "\n"@ + content;
    assert(whole + ""@ =~= whole);
}

/// A new item has a text field for each variable, in their order, with its name as label and
/// identifier, and behind them, where there are repositories, one that lists them line by line.
pub proof fn law_new_item(
    title: Seq<char>,
    env: Seq<(Seq<char>, Seq<char>)>,
    repositories: Seq<Seq<char>>,
    i: int,
)
    ensures
        ({
            let item = op::api_credential_template(title, env, repositories);
            &&& item.title == title
            &&& item.category == "API_CREDENTIAL"@
            &&& repositories.len() == 0 ==> item.fields.len() == env.len()
            &&& repositories.len() > 0 ==> item.fields.len() == env.len() + 1
                && item.fields.last().label == "github_repositories"@ && item.fields.last().value
                == text::joined(repositories, "\n"@)
            &&& 0 <= i < env.len() ==> item.fields[i].label == env[i].0 && item.fields[i].id
                == env[i].0 && item.fields[i].value == env[i].1 && item.fields[i].field_type
                == "STRING"@ && item.fields[i].purpose is None
        }),
{
}

/// The first item of a title keeps it; a later one gets the number of the occurrence behind it.
pub proof fn law_title_numbered(before: Seq<Seq<char>>, base: Seq<char>, behind: Seq<Seq<char>>)
    ensures
        !before.contains(base) ==> op::sequenced_title(
            before + seq![base] + behind,
            before.len() as int,
        ) == base,
        forall|i: int|
            0 <= i < before.len() && (#[trigger] before[i]) == base && (forall|k: int|
                0 <= k < before.len() && k != i ==> #[trigger] before[k] != base)
                ==> op::sequenced_title(before + seq![base] + behind, before.len() as int) == base
                + seq!['-', '2'],
{
    let all = before + seq![base] + behind;
    let n = before.len() as int;
    assert(all[n] == base);
    assert forall|k: int| 0 <= k < n implies #[trigger] all[k] == before[k] by {}
    if !before.contains(base) {
        lemma_no_occurrence(all, base, n);
    }
    assert forall|i: int|
        0 <= i < before.len() && (#[trigger] before[i]) == base && (forall|k: int|
            0 <= k < before.len() && k != i ==> #[trigger] before[k] != base) implies op::sequenced_title(
        all,
        n,
    ) == base + seq!['-', '2'] by {
        lemma_one_occurrence(all, base, n, i);
        reveal_with_fuel(text::decimal, 2);
        reveal_strlit("-");
        assert("-"@ =~= seq!['-']);
        assert(text::decimal(2) =~= seq!['2']);
        assert(base + "-"@ + text::decimal(2) =~= base + seq!['-', '2']);
    }
}

/// A text that is not there occurs nowhere.
proof fn lemma_no_occurrence(s: Seq<Seq<char>>, x: Seq<char>, n: int)
    requires
        0 <= n <= s.len(),
        forall|k: int| 0 <= k < n ==> #[trigger] s[k] != x,
    ensures
        op::occurrences(s, x, n) == 0,
    decreases n,
{
    if n > 0 {
        lemma_no_occurrence(s, x, n - 1);
    }
}

/// A text that is there once occurs once.
proof fn lemma_one_occurrence(s: Seq<Seq<char>>, x: Seq<char>, n: int, i: int)
    requires
        0 <= i < n <= s.len(),
        s[i] == x,
        forall|k: int| 0 <= k < n && k != i ==> #[trigger] s[k] != x,
    ensures
        op::occurrences(s, x, n) == 1,
    decreases n,
{
    if i < n - 1 {
        lemma_one_occurrence(s, x, n - 1, i);
    } else {
        lemma_no_occurrence(s, x, n - 1);
    }
}

/// The caches of different things have different names, and a vault that is called like the name
/// for all vaults shares theirs.
pub proof fn law_cache_names(vault: Option<Seq<char>>)
    ensures
        cache::list_file(vault) == "item_list_"@ + ids::hex_hash(
            match vault {
                Some(own) => own,
                None => "_all_"@,
            },
        ) + ".json"@,
        cache::index_file(vault) == "github_repository_index_"@ + ids::hex_hash(
            "github_repositories:"@ + (match vault {
                Some(own) => own,
                None => "_all_"@,
            }),
        ) + ".json"@,
        cache::list_file(vault) != cache::index_file(vault),
{
    reveal_strlit("item_list_");
    reveal_strlit("github_repository_index_");
    assert(cache::list_file(vault)[0] == 'i');
    assert(cache::index_file(vault)[0] == 'g');
}

/// Identifiers go a hundred at a time, and what is left behind them.
pub proof fn law_ids_grouped(first: Seq<Seq<char>>, rest: Seq<Seq<char>>)
    ensures
        first.len() == 0 ==> sdk_index::id_groups(first) == Seq::<Seq<Seq<char>>>::empty(),
        0 < first.len() <= 100 ==> sdk_index::id_groups(first) == seq![first],
        first.len() == 100 && rest.len() > 0 ==> sdk_index::id_groups(first + rest) == seq![first]
            + sdk_index::id_groups(rest),
{
    let all = first + rest;
    if first.len() == 100 && rest.len() > 0 {
        assert(all.take(100) =~= first);
        assert(all.skip(100) =~= rest);
    }
}

/// A detection ends with the titles of a new look, where there was one, and else with those that
/// were found before, each once.
pub proof fn law_detected(
    found: Seq<Seq<char>>,
    candidates: Seq<(Seq<char>, Seq<Seq<char>>)>,
    repositories: Seq<Seq<char>>,
    title: Seq<char>,
)
    ensures
        sdk_index::detected(found, None, repositories).no_duplicates(),
        sdk_index::detected(found, None, repositories).contains(title) <==> found.contains(title),
        sdk_index::detected(found, Some(candidates), repositories).no_duplicates(),
        sdk_index::detected(found, Some(candidates), repositories).contains(title)
            <==> resolver::matching_titles(candidates, repositories).contains(title),
{
    seqs::law_deduped(found);
    seqs::law_deduped(resolver::matching_titles(candidates, repositories));
}

/// A text whose start takes as many bytes as there is room for is cut behind that start, and the
/// cut is marked; a text that fits stays as it is.
pub proof fn law_cut(head: Seq<char>, rest: Seq<char>)
    ensures
        vstd::utf8::encode_utf8(head).len() <= 512 ==> telemetry::cut(head) == head,
        vstd::utf8::encode_utf8(head).len() == 512 && rest.len() > 0 ==> telemetry::cut(head + rest)
            == head + "...[truncated]"@,
{
    if vstd::utf8::encode_utf8(head).len() == 512 && rest.len() > 0 {
        lemma_head_size(head, rest, 512);
        let all = head + rest;
        assert(all.take(head.len() as int) =~= head);
    }
}

/// The characters of the start are counted by its bytes, and more bytes follow.
proof fn lemma_head_size(head: Seq<char>, rest: Seq<char>, bytes: int)
    requires
        vstd::utf8::encode_utf8(head).len() == bytes,
        rest.len() > 0,
    ensures
        telemetry::chars_in(head + rest, bytes) == Some(head.len() as int),
        vstd::utf8::encode_utf8(head + rest).len() > bytes,
    decreases head.len(),
{
    let all = head + rest;
    lemma_some_bytes(all[0]);
    if head.len() == 0 {
        assert(all =~= rest);
        assert(vstd::utf8::encode_utf8(all).len() >= vstd::utf8::encode_scalar(all[0] as u32).len());
    } else {
        let own = vstd::utf8::encode_scalar(head[0] as u32).len();
        assert(all[0] == head[0]);
        assert(all.drop_first() =~= head.drop_first() + rest);
        assert(bytes == own + vstd::utf8::encode_utf8(head.drop_first()).len());
        lemma_head_size(head.drop_first(), rest, bytes - own);
    }
}

/// A character takes at least one byte.
proof fn lemma_some_bytes(c: char)
    ensures
        vstd::utf8::encode_scalar(c as u32).len() > 0,
{
}

/// A trace names the command, how many arguments followed the program, and the commit, in this
/// order, and then the directory and the arguments where they are to be shown.
pub proof fn law_trace_attributes(
    command: Seq<char>,
    args: nat,
    commit: Seq<char>,
    cwd: Option<Seq<char>>,
    captured: Option<Seq<char>>,
)
    ensures
        ({
            let all = telemetry::trace_attributes(command, args, commit, cwd, captured);
            &&& all.len() == 3 + (if cwd is Some { 1int } else { 0 }) + (if captured is Some {
                1int
            } else {
                0
            })
            &&& all[0] == ("cli.command"@, TraceView::Text(command))
            &&& all[1].0 == "cli.args_count"@
            &&& args > 0 ==> all[1].1 == TraceView::Number(args - 1)
            &&& args == 0 ==> all[1].1 == TraceView::Number(0)
            &&& all[2] == ("git.commit"@, TraceView::Text(commit))
            &&& cwd matches Some(dir) ==> all[3] == ("cwd"@, TraceView::Text(dir))
            &&& captured matches Some(shown) ==> all.last() == ("cli.args"@, TraceView::Text(shown))
        }),
{
}

/// Arguments are shown only where the setting is exactly `1`.
pub proof fn law_args_asked_for(args: Seq<Seq<char>>, capture: Option<Seq<char>>)
    ensures
        telemetry::shown_args(args, capture) is Some <==> (capture matches Some(s) && s == seq![
            '1',
        ]),
{
    reveal_strlit("1");
    assert("1"@ =~= seq!['1']);
}

/// Empty texts are dropped one by one; the others keep their order.
pub proof fn law_empty_dropped(a: Seq<Seq<char>>, b: Seq<Seq<char>>)
    ensures
        security::nonempty(a + b) == security::nonempty(a) + security::nonempty(b),
    decreases b.len(),
{
    if b.len() == 0 {
        assert(a + b =~= a);
        assert(security::nonempty(a) + security::nonempty(b) =~= security::nonempty(a));
    } else {
        law_empty_dropped(a, b.drop_last());
        assert((a + b).drop_last() =~= a + b.drop_last());
        assert((a + b).last() == b.last());
        assert(security::nonempty(a + b) =~= security::nonempty(a) + security::nonempty(b));
    }
}

/// A text is kept exactly where it is not empty.
pub proof fn law_empty_drop(one: Seq<char>)
    ensures
        security::nonempty(seq![one]) == (if one.len() > 0 { seq![one] } else { Seq::empty() }),
{
    reveal_with_fuel(security::nonempty, 2);
    assert(seq![one].drop_last() =~= Seq::<Seq<char>>::empty());
    assert(security::nonempty(seq![one])
        =~= (if one.len() > 0 { seq![one] } else { Seq::empty() }));
}

/// A pair that follows itself is kept once; one that follows another is kept.
pub proof fn law_collapsed(
    pairs: Seq<(Seq<char>, Seq<char>)>,
    a: (Seq<char>, Seq<char>),
    b: (Seq<char>, Seq<char>),
)
    ensures
        security::collapsed(pairs + seq![a, a]) == security::collapsed(pairs + seq![a]),
        a != b ==> security::collapsed(pairs + seq![a, b]) == security::collapsed(pairs + seq![a])
            + seq![b],
        security::collapsed(seq![a]) == seq![a],
{
    reveal_with_fuel(security::collapsed, 2);
    let one = pairs + seq![a];
    assert(one.last() == a);
    assert(one.drop_last() =~= pairs);
    let two = pairs + seq![a, a];
    assert(two.last() == a);
    assert(two.drop_last() =~= one);
    let other = pairs + seq![a, b];
    assert(other.last() == b);
    assert(other.drop_last() =~= one);
    assert(security::collapsed(one).last() == a);
    assert(security::collapsed(one).push(b) =~= security::collapsed(one) + seq![b]);
    assert(seq![a].drop_last() =~= Seq::<(Seq<char>, Seq<char>)>::empty());
    assert(seq![a].last() == a);
    assert(security::collapsed(seq![a].drop_last()).push(a) =~= seq![a]);
}

/// A name that begins with `GITHUB_`, in whatever case, is refused, and every other passes.
pub proof fn law_reserved_name(name: Seq<char>)
    ensures
        targets::reserved_check()(name) is Ok <==> !(name.len() >= 7 && text::uppered(name).take(7)
            == seq!['G', 'I', 'T', 'H', 'U', 'B', '_']),
        targets::reserved_check()(name) is Err ==> targets::reserved_check()(name) == Err::<
            (),
            Seq<Seq<char>>,
        >(seq!["GitHub secret name cannot start with reserved prefix GITHUB_: "@ + name]),
{
    reveal_strlit("GITHUB_");
    assert("GITHUB_"@ =~= seq!['G', 'I', 'T', 'H', 'U', 'B', '_']);
    let up = text::uppered(name);
    assert(up.len() == name.len());
    if up.len() >= 7 {
        assert(up.take(7) =~= up.subrange(0, 7));
    }
}

/// The guard of a repository speaks of items without repositories where there are some, names all
/// of them, and is silent otherwise.
pub proof fn law_guard_warning(target: Seq<char>, items: Seq<resolver::RepositoriesView>)
    requires
        targets::guarded(target, items) is Ok,
    ensures
        targets::guarded(target, items)->Ok_0 is Some <==> targets::unassigned(items).len() > 0,
        targets::guarded(target, items)->Ok_0 matches Some(said) ==> said
            == "Warning: item(s) missing `github_repositories` metadata: "@ + text::joined(
            targets::unassigned(items),
            ", "@,
        ) + ". Add one owner/repo per line to prevent GitHub secret misdelivery."@,
{
}

/// An Environment goes with no vault, no item and no file, and with anything else.
pub proof fn law_environment_alone(
    vault: Option<Seq<char>>,
    items: nat,
    env_file: Option<Seq<char>>,
)
    ensures
        environment::environment_check(vault, items, env_file) is Ok <==> vault is None && items
            == 0 && env_file is None,
{
}

/// The option that a help text speaks of is used, the longer one where it speaks of both.
pub proof fn law_environment_option(before: Seq<char>, behind: Seq<char>, other: Seq<char>)
    ensures
        environment::flag_in(before + "--environments"@ + behind) == Some("--environments"@),
        environment::flag_in(other) is Some <==> text::holds(other, "--environment"@),
        text::holds(other, "--environment"@) && !text::holds(other, "--environments"@)
            ==> environment::flag_in(other) == Some("--environment"@),
{
    reveal_strlit("--environments");
    reveal_strlit("--environment");
    let all = before + "--environments"@ + behind;
    let at = before.len() as int;
    assert(all.subrange(at, at + "--environments"@.len()) =~= "--environments"@);
    assert(text::matches_at(all, "--environments"@, at));
    if text::holds(other, "--environments"@) {
        let at = choose|at: int| text::matches_at(other, "--environments"@, at);
        let n = "--environments"@.len() as int;
        let m = "--environment"@.len() as int;
        assert(n == 14 && m == 13);
        assert("--environments"@.subrange(0, m) =~= "--environment"@);
        assert(other.subrange(at, at + m) =~= other.subrange(at, at + n).subrange(0, m));
        assert(text::matches_at(other, "--environment"@, at));
    }
}

/// The SDK is asked for an item where one entry has exactly the title and its vault is known.
pub proof fn law_sdk_asked(entries: Seq<op::EntryView>, title: Seq<char>, i: int, j: int)
    requires
        0 <= i < entries.len(),
        entries[i].title == title,
    ensures
        (forall|k: int| 0 <= k < entries.len() && k != i ==> (#[trigger] entries[k]).title != title)
            && entries[i].vault is Some ==> (lookup::sdk_choice(
            entries,
            title,
        ) matches TurnView::SdkGet { entry, vault } && entry == entries[i] && Some(vault)
            == entries[i].vault),
        0 <= j < entries.len() && j != i && entries[j].title == title ==> lookup::sdk_choice(
            entries,
            title,
        ) is Direct,
        (forall|k: int| 0 <= k < entries.len() && k != i ==> (#[trigger] entries[k]).title != title)
            && entries[i].vault is None ==> lookup::sdk_choice(entries, title) is Direct,
{
    let found = resolver::title_matches(entries, title, false, entries.len() as int);
    resolver::law_title_matches(entries, title, false, i);
    let a = choose|a: int| 0 <= a < found.len() && found[a] == i;
    if 0 <= j < entries.len() && j != i && entries[j].title == title {
        resolver::law_title_matches(entries, title, false, j);
        let b = choose|b: int| 0 <= b < found.len() && found[b] == j;
        assert(a != b);
    }
    if forall|k: int| 0 <= k < entries.len() && k != i ==> (#[trigger] entries[k]).title != title {
        assert forall|k: int| 0 <= k < found.len() implies #[trigger] found[k] == i by {
            assert(found.contains(found[k]));
            resolver::law_title_matches(entries, title, false, found[k]);
        }
        if found.len() > 1 {
            assert(found[0] < found[1]);
        }
    }
}

/// An item that `op` gives is taken where it has an identifier and a vault and its title, if it has
/// one, is the very title.
pub proof fn law_exact_item(item: op::ItemView, title: Seq<char>)
    ensures
        resolver::exact_item(item, title) is Ok <==> item.id is Some && item.vault is Some && (
        item.title is None || item.title == Some(title)),
        resolver::exact_item(item, title) matches Ok(found) ==> Some(found.0) == item.id && found.1
            == item.vault->0.id,
{
}

/// What `op` gives is found as it is; a miss leads to a look at all items where the title need not
/// be exact, and otherwise fails with what was said.
pub proof fn law_direct(item: op::ItemView, title: Seq<char>, chain: Seq<Seq<char>>, exact: bool)
    requires
        chain.len() > 0,
    ensures
        item.id is Some && item.vault is Some && item.title == Some(title) ==> (lookup::direct(
            item,
            title,
            exact,
        ) matches TurnView::Found(found) && found.item == item && Some(found.item_id) == item.id
            && found.vault_id == item.vault->0.id && found.title == title),
        exact ==> lookup::after_miss(chain, exact) == TurnView::Failed(chain),
        !exact && text::holds(chain[0], "isn't an item"@) ==> lookup::after_miss(chain, exact)
            == TurnView::ListAll,
        !exact && text::holds(chain[0], "is not an item"@) ==> lookup::after_miss(chain, exact)
            == TurnView::ListAll,
        !exact && text::holds(chain[0], "not found"@) ==> lookup::after_miss(chain, exact)
            == TurnView::ListAll,
        !exact && text::holds(chain[0], "No item matched"@) ==> lookup::after_miss(chain, exact)
            == TurnView::ListAll,
        !exact && text::holds(chain[0], "No exact item matched"@) ==> lookup::after_miss(
            chain,
            exact,
        ) == TurnView::ListAll,
{
}

/// A fetched item is found under the identifier and the title of its entry and in the vault of
/// the entry, or else in its own; without either it is not.
pub proof fn law_fetched(entry: op::EntryView, item: op::ItemView)
    ensures
        lookup::fetched(entry, item) is Found <==> entry.vault is Some || item.vault is Some,
        lookup::fetched(entry, item) matches TurnView::Found(found) ==> found.item == item
            && found.item_id == entry.id && found.title == entry.title && (entry.vault matches Some(
            own,
        ) ==> found.vault_id == own.id) && (entry.vault is None ==> found.vault_id
            == item.vault->0.id),
{
}

/// The vault of an item is that of the first entry with its identifier.
pub proof fn law_vault_of(
    before: Seq<op::EntryView>,
    entry: op::EntryView,
    behind: Seq<op::EntryView>,
)
    requires
        forall|i: int| 0 <= i < before.len() ==> (#[trigger] before[i]).id != entry.id,
    ensures
        lookup::vault_of(before + seq![entry] + behind, entry.id, 0) == entry.vault,
        lookup::vault_of(before, entry.id, 0) is None,
{
    let all = before + seq![entry] + behind;
    assert(all[before.len() as int] == entry);
    assert forall|i: int| 0 <= i < before.len() implies #[trigger] all[i] == before[i] by {}
    lemma_vault_of(all, entry.id, 0, before.len() as int);
    lemma_no_vault(before, entry.id, 0);
}

/// Entries of other items are passed over.
proof fn lemma_vault_of(entries: Seq<op::EntryView>, id: Seq<char>, from: int, at: int)
    requires
        0 <= from <= at < entries.len(),
        entries[at].id == id,
        forall|i: int| from <= i < at ==> (#[trigger] entries[i]).id != id,
    ensures
        lookup::vault_of(entries, id, from) == entries[at].vault,
    decreases at - from,
{
    if from < at {
        lemma_vault_of(entries, id, from + 1, at);
    }
}

/// Without an entry of the item there is no vault.
proof fn lemma_no_vault(entries: Seq<op::EntryView>, id: Seq<char>, from: int)
    requires
        0 <= from <= entries.len(),
        forall|i: int| from <= i < entries.len() ==> (#[trigger] entries[i]).id != id,
    ensures
        lookup::vault_of(entries, id, from) is None,
    decreases entries.len() - from,
{
    if from < entries.len() {
        lemma_no_vault(entries, id, from + 1);
    }
}

} // verus!
