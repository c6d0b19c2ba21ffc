//! What holds of answers that are read and of what is said about them: of lines of items, of the
//! state of this machine, and of Environments.

use vstd::prelude::*;
use vstd::string::*;

use crate::cli;
use crate::doctor;
use crate::doctor::{CredentialFileFinding, ScanOutcome};
use crate::envfile;
use crate::json;
use crate::json::JsonView;
use crate::mcp;
use crate::mcp_environment;
use crate::mcp_environment::RecordView;
use crate::namespace;
use crate::pattern;
use crate::process;
use crate::resolver;
use crate::seqs;
use crate::text;
use crate::text_laws;

verus! {

broadcast use crate::seqs::group_seqs;

/// A line for a key that is there takes the place of the former one and no other line moves; one
/// for another key goes behind, and a line without a key changes nothing.
pub proof fn law_line_merged(
    a: Seq<Seq<char>>,
    former: Seq<char>,
    b: Seq<Seq<char>>,
    line: Seq<char>,
    key: Seq<char>,
)
    requires
        forall|i: int| 0 <= i < a.len() ==> envfile::env_key(#[trigger] a[i]) != Some(key),
    ensures
        envfile::env_key(line) == Some(key) && envfile::env_key(former) == Some(key)
            ==> resolver::with_line(a + seq![former] + b, line) == a + seq![line] + b,
        envfile::env_key(line) == Some(key) ==> resolver::with_line(a, line) == a + seq![line],
        envfile::env_key(line) is None ==> resolver::with_line(a, line) == a,
{
    let all = a + seq![former] + b;
    let n = a.len() as int;
    if envfile::env_key(line) == Some(key) {
        lemma_no_line(a, key, 0);
        assert(a.push(line) =~= a + seq![line]);
        if envfile::env_key(former) == Some(key) {
            assert(all[n] == former);
            assert forall|i: int| 0 <= i < n implies #[trigger] all[i] == a[i] by {}
            lemma_first_line(all, key, 0, n);
            assert(all.update(n, line) =~= a + seq![line] + b);
        }
    }
}

/// The first line with a key is found.
proof fn lemma_first_line(lines: Seq<Seq<char>>, key: Seq<char>, from: int, at: int)
    requires
        0 <= from <= at < lines.len(),
        envfile::env_key(lines[at]) == Some(key),
        forall|i: int| from <= i < at ==> envfile::env_key(#[trigger] lines[i]) != Some(key),
    ensures
        resolver::line_index(lines, key, from) == Some(at),
    decreases at - from,
{
    if from < at {
        lemma_first_line(lines, key, from + 1, at);
    }
}

/// Without a line for a key none is found.
proof fn lemma_no_line(lines: Seq<Seq<char>>, key: Seq<char>, from: int)
    requires
        0 <= from <= lines.len(),
        forall|i: int| from <= i < lines.len() ==> envfile::env_key(#[trigger] lines[i]) != Some(key),
    ensures
        resolver::line_index(lines, key, from) is None,
    decreases lines.len() - from,
{
    if from < lines.len() {
        lemma_no_line(lines, key, from + 1);
    }
}

/// The lines of an item are merged one after the other.
pub proof fn law_lines_merged(lines: Seq<Seq<char>>, line: Seq<char>)
    ensures
        resolver::merged_env(lines + seq![line]) == resolver::with_line(
            resolver::merged_env(lines),
            line,
        ),
        resolver::merged_env(Seq::empty()) == Seq::<Seq<char>>::empty(),
{
    let all = lines + seq![line];
    assert(all.last() == line);
    assert(all.drop_last() =~= lines);
}

/// The file for a batch has a line for each variable, in their order, with what it is set to.
pub proof fn law_batch_lines(refs: Seq<(Seq<char>, Seq<char>)>, i: int)
    requires
        0 <= i < refs.len(),
    ensures
        resolver::batch_lines(refs).len() == refs.len(),
        resolver::batch_lines(refs)[i] == refs[i].0 + seq!['='] + refs[i].1,
{
    reveal_strlit("=");
    assert("="@ =~= seq!['=']);
}

/// A setting switches something on by `1`, `true` or `yes`, and off by `0`, `false` or `off`, in
/// lower or in upper case; no setting does both.
pub proof fn law_settings(value: Seq<char>)
    ensures
        resolver::is_yes(value) ==> !resolver::is_off(value),
        resolver::is_yes("1"@) && resolver::is_yes("true"@) && resolver::is_yes("TRUE"@)
            && resolver::is_yes("yes"@) && resolver::is_yes("YES"@),
        resolver::is_off("0"@) && resolver::is_off("false"@) && resolver::is_off("FALSE"@)
            && resolver::is_off("off"@) && resolver::is_off("OFF"@),
        value.len()
            == 0 || value.len() > 5 ==> !resolver::is_yes(value) && !resolver::is_off(value),
{
    reveal_strlit("1");
    reveal_strlit("true");
    reveal_strlit("TRUE");
    reveal_strlit("yes");
    reveal_strlit("YES");
    reveal_strlit("0");
    reveal_strlit("false");
    reveal_strlit("FALSE");
    reveal_strlit("off");
    reveal_strlit("OFF");
    assert("1"@[0] == '1' && "0"@[0] == '0');
    assert("1"@.len() == 1 && "0"@.len() == 1);
    assert("true"@.len() == 4 && "TRUE"@.len() == 4);
    assert("false"@.len() == 5 && "FALSE"@.len() == 5);
    assert("yes"@.len() == 3 && "YES"@.len() == 3 && "off"@.len() == 3 && "OFF"@.len() == 3);
    assert("yes"@[0] == 'y' && "YES"@[0] == 'Y' && "off"@[0] == 'o' && "OFF"@[0] == 'O');
}

/// A list of strings is read where it holds nothing but strings, each in its place.
pub proof fn law_text_list(items: Seq<JsonView>, e: Seq<Seq<char>>, i: int)
    ensures
        resolver::text_list(items, e) is Ok <==> forall|k: int|
            0 <= k < items.len() ==> #[trigger] items[k] is Text,
        resolver::text_list(items, e) matches Ok(found) ==> found.len() == items.len() && (0 <= i
            < items.len() ==> items[i] == JsonView::Text(found[i])),
        resolver::text_list(items, e) matches Err(told) ==> told == e,
{
    let read = resolver::text_reader(e);
    seqs::law_collected(items, read);
    assert forall|k: int| 0 <= k < items.len() implies (read(#[trigger] items[k]) is Ok <==> items[k]
        is Text) by {}
}

/// A variable of an item with a namespace has that and two underscores before its name, and keeps
/// what it is set to.
pub proof fn law_named_line(
    label: Seq<char>,
    reference: Seq<char>,
    title: Seq<char>,
    prefix: Seq<char>,
)
    requires
        label.len() > 0,
        !label.contains('='),
        label[0] != '#',
        !text::is_white(label[0]),
        reference.len() > 0,
        !text::is_white(reference.last()),
    ensures
        namespace::named_line(label + seq!['='] + reference, title, prefix, true) == Ok::<
            (Seq<char>, Seq<char>),
            Seq<Seq<char>>,
        >(
            (
                prefix + seq!['_', '_'] + label,
                prefix + seq!['_', '_'] + label + seq!['='] + reference,
            ),
        ),
        namespace::named_line(label, title, prefix, false) == Ok::<
            (Seq<char>, Seq<char>),
            Seq<Seq<char>>,
        >((prefix + seq!['_', '_'] + label, prefix + seq!['_', '_'] + label)),
{
    reveal_strlit("=");
    reveal_strlit("__");
    reveal_strlit("#");
    assert("="@ =~= seq!['=']);
    assert("__"@ =~= seq!['_', '_']);
    let line = label + seq!['='] + reference;
    assert(line[0] == label[0]);
    assert(line.last() == reference.last());
    assert(text_laws::all_white(Seq::<char>::empty()));
    text_laws::law_trimmed(Seq::empty(), line, Seq::empty());
    assert(Seq::<char>::empty() + line + Seq::<char>::empty() =~= line);
    assert(line.subrange(0, 1)[0] == line[0]);
    text_laws::law_parted_by(label, "="@, reference);
}

/// The address and the account of who is signed in are shown, the one with the other in brackets,
/// and each is taken from the first of its keys that has a text.
pub proof fn law_whoami(j: JsonView, email: Seq<char>, account: Seq<char>)
    ensures
        json::text_field(j, "email"@)
            == Some(email) && json::text_field(j, "account_uuid"@) == Some(
            account,
        ) ==> doctor::whoami(j) == email + " ("@ + account + ")"@,
        json::text_field(j, "email"@) is None && json::text_field(j, "user_email"@) == Some(email)
            && json::text_field(j, "account_uuid"@) is None && json::text_field(j, "account"@)
            == Some(account) ==> doctor::whoami(j) == email + " ("@ + account + ")"@,
        json::text_field(j, "email"@) is None && json::text_field(j, "user_email"@) is None
            && json::text_field(j, "account_uuid"@) is None && json::text_field(j, "account"@)
            is None && json::text_field(j, "url"@) == Some(account) ==> doctor::whoami(j)
            == account,
        json::text_field(j, "email"@) == Some(email) && json::text_field(j, "account_uuid"@) is None
            && json::text_field(j, "account"@) is None && json::text_field(j, "url"@) is None
            ==> doctor::whoami(j) == email,
{
}

/// What a command printed is taken where the command succeeded and printed text, and nothing else
/// is.
pub proof fn law_printed(
    display: Seq<char>,
    success: bool,
    status: Seq<char>,
    stdout: Seq<u8>,
    stderr: Seq<u8>,
)
    ensures
        doctor::printed_output(display, success, status, stdout, stderr) is Ok <==> success
            && vstd::utf8::valid_utf8(stdout),
        doctor::printed_output(display, success, status, stdout, stderr) matches Ok(found) ==> found
            == vstd::utf8::decode_utf8(stdout),
{
}

/// At most five files are named, the first ones, each with the number of its entries.
pub proof fn law_findings_named(findings: Seq<CredentialFileFinding>, i: int)
    ensures
        doctor::first_findings(findings).len() == if findings.len() <= 5 {
            findings.len() as int
        } else {
            5
        },
        0 <= i < findings.len() && i < 5 ==> {
            let n = findings[i].plaintext_entries as nat;
            &&& n == 1 ==> doctor::first_findings(findings)[i] == findings[i].path@ + " (1 entry)"@
            &&& n != 1 ==> doctor::first_findings(findings)[i] == findings[i].path@ + " ("@
                + text::decimal(n) + " entries)"@
        },
{
    reveal_strlit(" (");
    reveal_strlit(" entr");
    reveal_strlit("y");
    reveal_strlit("ies");
    reveal_strlit(")");
    reveal_strlit(" (1 entry)");
    reveal_strlit(" entries)");
    reveal_with_fuel(text::decimal, 2);
    assert(text::decimal(1) =~= seq!['1']);
    if 0 <= i < findings.len() && i < 5 {
        let n = findings[i].plaintext_entries as nat;
        let path = findings[i].path@;
        if n == 1 {
            assert(doctor::finding_text(findings[i]) =~= path + " (1 entry)"@);
        } else {
            assert(doctor::finding_text(findings[i]) =~= path + " ("@ + text::decimal(n)
                + " entries)"@);
        }
    }
}

/// Files with secrets are warned of, and only a search that ended without any passes.
pub proof fn law_files_checked(scan: ScanOutcome)
    ensures
        doctor::files_check(scan).status is Passed <==> (scan matches ScanOutcome::Scanned {
            findings,
            lint: _,
        } && findings@.len() == 0),
        !(doctor::files_check(scan).status is Passed) ==> doctor::files_check(scan).status is Warned,
        !doctor::files_check(scan).required,
{
}

/// The server is called by what the variable names, without white space around it, and by its own
/// name where the variable is blank or not set.
pub proof fn law_server_command(before: Seq<char>, command: Seq<char>, behind: Seq<char>)
    requires
        text_laws::all_white(before),
        text_laws::all_white(behind),
        text_laws::is_tight(command),
    ensures
        mcp::server_command(Some(before + command + behind)) == (if command.len() > 0 {
            command
        } else {
            "1password-mcp"@
        }),
        mcp::server_command(None) == "1password-mcp"@,
{
    text_laws::law_trimmed(before, command, behind);
}

/// The names of variables to add are taken each once where there are some and all are well formed.
pub proof fn law_added_names(variables: Seq<Seq<char>>, x: Seq<char>)
    ensures
        mcp_environment::added_names(variables) is Ok <==> variables.len() > 0 && forall|i: int|
            0 <= i < variables.len() ==> pattern::is_name(#[trigger] variables[i]),
        mcp_environment::added_names(variables) matches Ok(names) ==> names.no_duplicates() && (
        names.contains(x) <==> variables.contains(x)),
{
    let check = mcp_environment::variable_check();
    seqs::law_each(variables, check);
    assert forall|i: int| 0 <= i < variables.len() implies (check(#[trigger] variables[i]) is Ok
        <==> pattern::is_name(variables[i])) by {}
    seqs::law_deduped(variables);
}

/// A reply is about the first Environment in it, and about the one that is known where it names
/// none; without an identifier or a name it is refused.
pub proof fn law_replied_record(reply: JsonView, fallback: RecordView, tool: Seq<char>)
    ensures
        ({
            let found = mcp_environment::records_in(mcp_environment::result_values(reply));
            let own = if found.len() > 0 {
                found[0]
            } else {
                fallback
            };
            &&& mcp_environment::replied_record(reply, fallback, tool) is Ok <==> own.id.len() > 0
                && own.name.len() > 0
            &&& mcp_environment::replied_record(reply, fallback, tool) matches Ok(record) ==> record
                == own
        }),
{
    lemma_first_kept(mcp_environment::records_in(mcp_environment::result_values(reply)));
}

/// The first Environment is kept as the first.
proof fn lemma_first_kept(s: Seq<RecordView>)
    ensures
        s.len() > 0 ==> mcp_environment::distinct_records(s).len() > 0
            && mcp_environment::distinct_records(s)[0] == s[0],
        s.len() == 0 ==> mcp_environment::distinct_records(s).len() == 0,
    decreases s.len(),
{
    if s.len() == 1 {
        assert(mcp_environment::distinct_records(s.drop_last()).len() == 0);
    } else if s.len() > 1 {
        lemma_first_kept(s.drop_last());
        assert(s.drop_last()[0] == s[0]);
    }
}

/// In a reply the structured content is looked at first, then the content, then the reply itself.
pub proof fn law_result_values(result: JsonView)
    ensures
        ({
            let values = mcp_environment::result_values(result);
            &&& values.last() == result
            &&& json::field(result, "structuredContent"@) matches Some(own) ==> values[0] == own
            &&& json::field(result, "structuredContent"@) is None ==> (json::field(
                result,
                "content"@,
            ) matches Some(own) ==> values[0] == own)
            &&& json::field(result, "structuredContent"@) is None && json::field(
                result,
                "content"@,
            ) is None ==> values == seq![result]
        }),
{
    let values = mcp_environment::result_values(result);
    if json::field(result, "structuredContent"@) is None && json::field(result, "content"@)
        is None {
        assert(values =~= seq![result]);
    }
}

/// A command runs with Environments where some are named and else with items, and not at all
/// without words.
pub proof fn law_run_task(
    usage: Seq<char>,
    env_file: Option<String>,
    environments: Vec<String>,
    items: Vec<String>,
    command: Vec<String>,
)
    ensures
        cli::run_task(usage, env_file, environments, items, command) is Err <==> command@.len()
            == 0,
        command@.len() > 0 ==> (cli::run_task(
            usage,
            env_file,
            environments,
            items,
            command,
        )->Ok_0 is RunEnvironments <==> environments@.len() > 0),
        command@.len() > 0 ==> (cli::run_task(
            usage,
            env_file,
            environments,
            items,
            command,
        )->Ok_0 is RunItems <==> environments@.len() == 0),
{
}

/// An item is missed where `op item get` says that there is none; no other command misses one.
pub proof fn law_item_missed(args: Seq<Seq<char>>, stderr: Seq<char>)
    ensures
        process::is_item_miss(args, stderr) ==> args.len() >= 2 && args[0] == "item"@ && args[1]
            == "get"@,
        args.len() >= 2 && args[0] == "item"@ && args[1] == "get"@ && (text::holds(
            stderr,
            "isn't an item"@,
        ) || text::holds(stderr, "is not an item"@) || text::holds(stderr, "not found"@))
            ==> process::is_item_miss(args, stderr),
{
}

/// A text of no more than the given number of characters stays whole, and a longer one keeps
/// exactly that many.
pub proof fn law_shortened(head: Seq<char>, rest: Seq<char>)
    ensures
        process::shortened(head, head.len()) == head,
        process::shortened(head + rest, head.len()) == head,
{
    assert((head + rest).take(head.len() as int) =~= head);
    if rest.len() == 0 {
        assert(head + rest =~= head);
    }
}

/// Empty parts are left out one by one; the others keep their order.
pub proof fn law_parts_filled(a: Seq<Seq<char>>, b: Seq<Seq<char>>)
    ensures
        text::filled_parts(a + b) == text::filled_parts(a) + text::filled_parts(b),
    decreases b.len(),
{
    if b.len() == 0 {
        assert(a + b =~= a);
        assert(text::filled_parts(a) + text::filled_parts(b) =~= text::filled_parts(a));
    } else {
        law_parts_filled(a, b.drop_last());
        assert((a + b).drop_last() =~= a + b.drop_last());
        assert((a + b).last() == b.last());
        assert(text::filled_parts(a + b) =~= text::filled_parts(a) + text::filled_parts(b));
    }
}

/// A part is kept exactly where it is not empty.
pub proof fn law_part_filled(part: Seq<char>)
    ensures
        text::filled_parts(seq![part]) == (if part.len() > 0 { seq![part] } else { Seq::empty() }),
{
    reveal_with_fuel(text::filled_parts, 2);
    assert(seq![part].drop_last() =~= Seq::<Seq<char>>::empty());
    assert(text::filled_parts(seq![part])
        =~= (if part.len() > 0 { seq![part] } else { Seq::empty() }));
}

/// What a text has at its end of a set of characters is taken off, and nothing more.
pub proof fn law_end_stripped(s: Seq<char>, tail: Seq<char>, set: Seq<char>)
    requires
        s.len() > 0 ==> !set.contains(s.last()),
        forall|i: int| 0 <= i < tail.len() ==> set.contains(#[trigger] tail[i]),
    ensures
        text::without_trailing(s + tail, set) == s,
    decreases tail.len(),
{
    if tail.len() == 0 {
        assert(s + tail =~= s);
    } else {
        let all = s + tail;
        assert(all.last() == tail.last());
        assert(tail.last() == tail[tail.len() - 1]);
        assert(all.drop_last() =~= s + tail.drop_last());
        law_end_stripped(s, tail.drop_last(), set);
    }
}

/// A character is taken off both ends of a text, however often it stands there.
pub proof fn law_stripped(head: Seq<char>, s: Seq<char>, tail: Seq<char>, c: char)
    requires
        forall|i: int| 0 <= i < head.len() ==> #[trigger] head[i] == c,
        forall|i: int| 0 <= i < tail.len() ==> #[trigger] tail[i] == c,
        s.len() > 0,
        s[0] != c,
        s.last() != c,
    ensures
        text::stripped_of(head + s + tail, c) == s,
    decreases head.len(),
{
    let all = head + s + tail;
    if head.len() == 0 {
        assert(all =~= s + tail);
        assert(all[0] == s[0]);
        let set = seq![c];
        assert(set[0] == c);
        assert forall|i: int| 0 <= i < tail.len() implies set.contains(#[trigger] tail[i]) by {
            assert(tail[i] == set[0]);
        }
        law_end_stripped(s, tail, set);
    } else {
        assert(all[0] == head[0]);
        assert(all.drop_first() =~= head.drop_first() + s + tail);
        law_stripped(head.drop_first(), s, tail, c);
    }
}

/// A suffix is taken off as often as it stands at the end, and a text without it stays.
pub proof fn law_suffix_stripped(s: Seq<char>, p: Seq<char>)
    requires
        p.len() > 0,
    ensures
        text::without_suffixes(s + p, p) == text::without_suffixes(s, p),
        !(s.len() >= p.len() && s.skip(s.len() - p.len()) == p) ==> text::without_suffixes(s, p)
            == s,
{
    let all = s + p;
    let n = s.len() as int;
    assert(all.subrange(n, all.len() as int) =~= p);
    assert(all.subrange(0, n) =~= s);
    if s.len() >= p.len() {
        assert(s.skip(s.len() - p.len()) =~= s.subrange(s.len() - p.len(), s.len() as int));
    }
}

} // verus!
