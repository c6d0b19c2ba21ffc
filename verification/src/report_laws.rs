//! What holds of reports, of the answers of the MCP server, and of the choice of plugins.

use vstd::prelude::*;
use vstd::string::*;

use crate::doctor;
use crate::doctor::{CheckView, DoctorStatus};
use crate::json;
use crate::json::JsonView;
use crate::mcp;
use crate::mcp::ReplyView;
use crate::mcp_environment;
use crate::mcp_environment::RecordView;
use crate::op;
use crate::plugin;
use crate::plugin_run;
use crate::text;
use crate::text_laws;

verus! {

broadcast use crate::seqs::group_seqs;

/// Checks are shown one after the other, and none is left out.
pub proof fn law_checks_shown(a: Seq<CheckView>, b: Seq<CheckView>)
    ensures
        doctor::check_lines(a + b) == doctor::check_lines(a) + doctor::check_lines(b),
    decreases b.len(),
{
    if b.len() == 0 {
        assert(a + b =~= a);
        assert(doctor::check_lines(a) + doctor::check_lines(b) =~= doctor::check_lines(a));
    } else {
        law_checks_shown(a, b.drop_last());
        assert((a + b).drop_last() =~= a + b.drop_last());
        assert((a + b).last() == b.last());
        assert(doctor::check_lines(a + b) =~= doctor::check_lines(a) + doctor::check_lines(b));
    }
}

/// A check is shown in a line of its own: its status, its name and its message.
pub proof fn law_check_shown(check: CheckView)
    ensures
        doctor::check_lines(seq![check]) == ((match check.status {
            DoctorStatus::Passed => "ok   "@,
            DoctorStatus::Warned => "warn "@,
            DoctorStatus::Failed => "error"@,
        }) + " "@ + check.name + ": "@ + check.message + "\n"@),
{
    reveal_with_fuel(doctor::check_lines, 2);
    assert(seq![check].drop_last() =~= Seq::<CheckView>::empty());
    assert(doctor::check_lines(seq![check]) =~= ((match check.status {
            DoctorStatus::Passed => "ok   "@,
            DoctorStatus::Warned => "warn "@,
            DoctorStatus::Failed => "error"@,
        }) + " "@ + check.name + ": "@ + check.message + "\n"@));
}

/// A failure is reported exactly where a required check failed.
pub proof fn law_failure_reported(checks: Seq<CheckView>, i: int)
    ensures
        0 <= i < checks.len() && checks[i].required && checks[i].status == DoctorStatus::Failed
            ==> doctor::has_failure(checks),
        (forall|k: int|
            0 <= k < checks.len() ==> !(#[trigger] checks[k]).required || checks[k].status
                != DoctorStatus::Failed) ==> !doctor::has_failure(checks),
{
}

/// The first line that is not blank is shown, without white space around it.
pub proof fn law_first_filled(lines: Seq<Seq<char>>, from: int, k: int)
    requires
        0 <= from <= k < lines.len(),
        text::trimmed(lines[k]).len() > 0,
        forall|i: int| from <= i < k ==> text::trimmed(#[trigger] lines[i]).len() == 0,
    ensures
        doctor::first_filled(lines, from) == Some(text::trimmed(lines[k])),
    decreases k - from,
{
    if from < k {
        assert(text::trimmed(lines[from]).len() == 0);
        law_first_filled(lines, from + 1, k);
    }
}

/// Whether a name ends with what marks an example or a copy, in any case.
pub open spec fn is_marked(name: Seq<char>) -> bool {
    let lower = text::lowered(name);
    text::ends(lower, ".example"@) || text::ends(lower, ".sample"@) || text::ends(
        lower,
        ".template"@,
    ) || text::ends(lower, ".bak"@) || text::ends(lower, ".old"@)
}

/// A file may hold credentials exactly where its name is `.env`, ends with it, or holds it before
/// a further part, and is that of no example or copy.
pub proof fn law_env_file(before: Seq<char>, behind: Seq<char>, name: Seq<char>)
    ensures
        !is_marked(before + ".env"@) ==> doctor::is_env_file(before + ".env"@),
        !is_marked(before + ".env."@ + behind) ==> doctor::is_env_file(before + ".env."@ + behind),
        is_marked(name) ==> !doctor::is_env_file(name),
        !text::holds(name, ".env"@) ==> !doctor::is_env_file(name),
{
    reveal_strlit(".env");
    reveal_strlit(".env.");
    let own = before + ".env"@;
    assert(own.subrange(own.len() - 4, own.len() as int) =~= ".env"@);
    let further = before + ".env."@ + behind;
    let n = before.len() as int;
    assert(further.subrange(n, n + 5) =~= ".env."@);
    assert(text::matches_at(further, ".env."@, n));
    if !text::holds(name, ".env"@) {
        if name == ".env"@ || text::begins(name, ".env."@) {
            if name == ".env"@ {
                assert(name.subrange(0, 4) =~= ".env"@);
            } else {
                assert(name.subrange(0, 5) == ".env."@);
                assert(name.subrange(0, 4) =~= ".env."@.subrange(0, 4));
                assert(".env."@.subrange(0, 4) =~= ".env"@);
            }
            assert(text::matches_at(name, ".env"@, 0));
        }
        if text::ends(name, ".env"@) {
            assert(text::matches_at(name, ".env"@, name.len() - 4));
        }
        if text::holds(name, ".env."@) {
            let i = choose|i: int| text::matches_at(name, ".env."@, i);
            assert(name.subrange(i, i + 5) == ".env."@);
            assert(name.subrange(i, i + 4) =~= ".env."@.subrange(0, 4));
            assert(".env."@.subrange(0, 4) =~= ".env"@);
            assert(text::matches_at(name, ".env"@, i));
        }
    }
}

/// The directories that are not looked through.
pub proof fn law_skipped(name: Seq<char>)
    ensures
        doctor::is_skipped(name) <==> name == ".git"@ || name == "target"@ || name
            == "node_modules"@ || name == ".cache"@ || name == "dist"@ || name == "build"@,
{
}

/// The names of tools are read one by one, and none is left out.
pub proof fn law_tools_read(a: Seq<JsonView>, b: Seq<JsonView>)
    ensures
        mcp::tool_names(a + b) == mcp::tool_names(a) + mcp::tool_names(b),
    decreases b.len(),
{
    if b.len() == 0 {
        assert(a + b =~= a);
        assert(mcp::tool_names(a) + mcp::tool_names(b) =~= mcp::tool_names(a));
    } else {
        law_tools_read(a, b.drop_last());
        assert((a + b).drop_last() =~= a + b.drop_last());
        assert((a + b).last() == b.last());
        assert(mcp::tool_names(a + b) =~= mcp::tool_names(a) + mcp::tool_names(b));
    }
}

/// A tool has the name that it gives as a text.
pub proof fn law_tool_read(tool: JsonView)
    ensures
        mcp::tool_names(seq![tool]) == (match json::field(tool, "name"@) {
            Some(JsonView::Text(name)) => seq![name],
            _ => Seq::empty(),
        }),
{
    reveal_with_fuel(mcp::tool_names, 2);
    assert(seq![tool].drop_last() =~= Seq::<JsonView>::empty());
    assert(mcp::tool_names(seq![tool]) =~= (match json::field(tool, "name"@) {
            Some(JsonView::Text(name)) => seq![name],
            _ => Seq::empty(),
        }));
}

/// A message of the server answers a request exactly where it has the number of the request; it is
/// then a failure where it speaks of an error, and else its result.
pub proof fn law_reply(j: JsonView, id: u64, method: Seq<char>)
    ensures
        (match json::field(j, "id"@) {
            Some(own) => json::u64_of(own) != Some(id),
            None => true,
        }) <==> mcp::judged(j, id, method) is Unrelated,
        !(mcp::judged(j, id, method) is Unrelated) ==> (match (
            json::field(j, "error"@),
            json::field(j, "result"@),
        ) {
            (None, Some(result)) => mcp::judged(j, id, method) == ReplyView::Answer(result),
            _ => mcp::judged(j, id, method) is Broken,
        }),
{
}

/// What was seen once stays seen, whatever lines follow.
pub proof fn law_hints_stay(hints: mcp::McpStderrHints, line: Seq<char>)
    ensures
        hints.parent_verification_failed ==> mcp::observed(hints, line).parent_verification_failed,
        hints.permission_denied ==> mcp::observed(hints, line).permission_denied,
        hints.developer_feature_disabled ==> mcp::observed(hints, line).developer_feature_disabled,
{
}

/// Texts among items are read one by one, and none is left out.
pub proof fn law_texts_read(a: Seq<JsonView>, b: Seq<JsonView>)
    ensures
        mcp_environment::texts_among(a + b)
            == mcp_environment::texts_among(a) + mcp_environment::texts_among(b),
    decreases b.len(),
{
    if b.len() == 0 {
        assert(a + b =~= a);
        assert(mcp_environment::texts_among(a) + mcp_environment::texts_among(b)
            =~= mcp_environment::texts_among(a));
    } else {
        law_texts_read(a, b.drop_last());
        assert((a + b).drop_last() =~= a + b.drop_last());
        assert((a + b).last() == b.last());
        assert(mcp_environment::texts_among(a + b)
            =~= mcp_environment::texts_among(a) + mcp_environment::texts_among(b));
    }
}

/// An item gives its text, where it is one.
pub proof fn law_text_read(item: JsonView)
    ensures
        mcp_environment::texts_among(seq![item]) == (match item {
            JsonView::Text(s) => seq![s],
            _ => Seq::empty(),
        }),
{
    reveal_with_fuel(mcp_environment::texts_among, 2);
    assert(seq![item].drop_last() =~= Seq::<JsonView>::empty());
    assert(mcp_environment::texts_among(seq![item]) =~= (match item {
            JsonView::Text(s) => seq![s],
            _ => Seq::empty(),
        }));
}

/// The contents of a reply are read one by one, and none is left out.
pub proof fn law_contents_read(a: Seq<JsonView>, b: Seq<JsonView>)
    ensures
        mcp_environment::content_values(a + b)
            == mcp_environment::content_values(a) + mcp_environment::content_values(b),
    decreases b.len(),
{
    if b.len() == 0 {
        assert(a + b =~= a);
        assert(mcp_environment::content_values(a) + mcp_environment::content_values(b)
            =~= mcp_environment::content_values(a));
    } else {
        law_contents_read(a, b.drop_last());
        assert((a + b).drop_last() =~= a + b.drop_last());
        assert((a + b).last() == b.last());
        assert(mcp_environment::content_values(a + b)
            =~= mcp_environment::content_values(a) + mcp_environment::content_values(b));
    }
}

/// A text in the content of a reply is the JSON in it, or else the text itself.
pub proof fn law_content_read(item: JsonView)
    ensures
        mcp_environment::content_values(seq![item]) == (match json::field(item, "text"@) {
            Some(JsonView::Text(s)) => seq![
                match json::parsed(s) {
                    Ok(j) => j,
                    Err(_) => JsonView::Text(s),
                },
            ],
            _ => Seq::empty(),
        }),
{
    reveal_with_fuel(mcp_environment::content_values, 2);
    assert(seq![item].drop_last() =~= Seq::<JsonView>::empty());
    assert(mcp_environment::content_values(seq![item]) =~= (match json::field(item, "text"@) {
            Some(JsonView::Text(s)) => seq![
                match json::parsed(s) {
                    Ok(j) => j,
                    Err(_) => JsonView::Text(s),
                },
            ],
            _ => Seq::empty(),
        }));
}

/// The variables that values name are read one by one, and none is left out.
pub proof fn law_variables_named(a: Seq<JsonView>, b: Seq<JsonView>)
    ensures
        mcp_environment::variable_names(a + b)
            == mcp_environment::variable_names(a) + mcp_environment::variable_names(b),
    decreases b.len(),
{
    if b.len() == 0 {
        assert(a + b =~= a);
        assert(mcp_environment::variable_names(a) + mcp_environment::variable_names(b)
            =~= mcp_environment::variable_names(a));
    } else {
        law_variables_named(a, b.drop_last());
        assert((a + b).drop_last() =~= a + b.drop_last());
        assert((a + b).last() == b.last());
        assert(mcp_environment::variable_names(a + b)
            =~= mcp_environment::variable_names(a) + mcp_environment::variable_names(b));
    }
}

/// The paths that values name are read one by one, and none is left out.
pub proof fn law_paths_named(a: Seq<JsonView>, b: Seq<JsonView>)
    ensures
        mcp_environment::mount_paths(a + b)
            == mcp_environment::mount_paths(a) + mcp_environment::mount_paths(b),
    decreases b.len(),
{
    if b.len() == 0 {
        assert(a + b =~= a);
        assert(mcp_environment::mount_paths(a) + mcp_environment::mount_paths(b)
            =~= mcp_environment::mount_paths(a));
    } else {
        law_paths_named(a, b.drop_last());
        assert((a + b).drop_last() =~= a + b.drop_last());
        assert((a + b).last() == b.last());
        assert(mcp_environment::mount_paths(a + b)
            =~= mcp_environment::mount_paths(a) + mcp_environment::mount_paths(b));
    }
}

/// Environments are read from values one by one, and none is left out.
pub proof fn law_records_read(a: Seq<JsonView>, b: Seq<JsonView>)
    ensures
        mcp_environment::records_among(a + b)
            == mcp_environment::records_among(a) + mcp_environment::records_among(b),
    decreases b.len(),
{
    if b.len() == 0 {
        assert(a + b =~= a);
        assert(mcp_environment::records_among(a) + mcp_environment::records_among(b)
            =~= mcp_environment::records_among(a));
    } else {
        law_records_read(a, b.drop_last());
        assert((a + b).drop_last() =~= a + b.drop_last());
        assert((a + b).last() == b.last());
        assert(mcp_environment::records_among(a + b)
            =~= mcp_environment::records_among(a) + mcp_environment::records_among(b));
    }
}

/// A value is an Environment exactly where it has an identifier and a name.
pub proof fn law_record_read(value: JsonView)
    ensures
        mcp_environment::records_among(seq![value]) == (match mcp_environment::record_of(value) {
            Some(record) => seq![record],
            None => Seq::empty(),
        }),
{
    reveal_with_fuel(mcp_environment::records_among, 2);
    assert(seq![value].drop_last() =~= Seq::<JsonView>::empty());
    assert(mcp_environment::records_among(seq![value])
        =~= (match mcp_environment::record_of(value) {
            Some(record) => seq![record],
            None => Seq::empty(),
        }));
}

/// An Environment has the identifier under `environmentId`, else under `environment_id`, else under
/// `id`, and the name under the like keys.
pub proof fn law_record(value: JsonView, id: Seq<char>, name: Seq<char>)
    requires
        json::field(value, "environmentId"@) == Some(JsonView::Text(id)) || json::field(
            value,
            "environmentId"@,
        ) is None && json::field(value, "environment_id"@) == Some(JsonView::Text(id))
            || json::field(value, "environmentId"@) is None && json::field(
            value,
            "environment_id"@,
        ) is None && json::field(value, "id"@) == Some(JsonView::Text(id)),
        json::field(value, "environmentName"@) == Some(JsonView::Text(name)) || json::field(
            value,
            "environmentName"@,
        ) is None && json::field(value, "environment_name"@) == Some(JsonView::Text(name))
            || json::field(value, "environmentName"@) is None && json::field(
            value,
            "environment_name"@,
        ) is None && json::field(value, "name"@) == Some(JsonView::Text(name)),
    ensures
        mcp_environment::record_of(value) == Some(RecordView { id, name }),
{
}

/// Environments are looked for in all values, one after the other.
pub proof fn law_all_records_read(a: Seq<JsonView>, b: Seq<JsonView>)
    ensures
        mcp_environment::records_in(a + b)
            == mcp_environment::records_in(a) + mcp_environment::records_in(b),
    decreases b.len(),
{
    if b.len() == 0 {
        assert(a + b =~= a);
        assert(mcp_environment::records_in(a) + mcp_environment::records_in(b)
            =~= mcp_environment::records_in(a));
    } else {
        law_all_records_read(a, b.drop_last());
        assert((a + b).drop_last() =~= a + b.drop_last());
        assert((a + b).last() == b.last());
        assert(mcp_environment::records_in(a + b)
            =~= mcp_environment::records_in(a) + mcp_environment::records_in(b));
    }
}

/// Environments are shown one after the other, and none is left out.
pub proof fn law_records_shown(a: Seq<RecordView>, b: Seq<RecordView>)
    ensures
        mcp_environment::record_lines(a + b)
            == mcp_environment::record_lines(a) + mcp_environment::record_lines(b),
    decreases b.len(),
{
    if b.len() == 0 {
        assert(a + b =~= a);
        assert(mcp_environment::record_lines(a) + mcp_environment::record_lines(b)
            =~= mcp_environment::record_lines(a));
    } else {
        law_records_shown(a, b.drop_last());
        assert((a + b).drop_last() =~= a + b.drop_last());
        assert((a + b).last() == b.last());
        assert(mcp_environment::record_lines(a + b)
            =~= mcp_environment::record_lines(a) + mcp_environment::record_lines(b));
    }
}

/// An Environment is shown in a line of its own: its identifier, a tab and its name.
pub proof fn law_record_shown(record: RecordView)
    ensures
        mcp_environment::record_lines(seq![record]) == (record.id + "\t"@ + record.name + "\n"@),
{
    reveal_with_fuel(mcp_environment::record_lines, 2);
    assert(seq![record].drop_last() =~= Seq::<RecordView>::empty());
    assert(mcp_environment::record_lines(seq![record])
        =~= (record.id + "\t"@ + record.name + "\n"@));
}

/// Environments are matched one by one, and none is left out.
pub proof fn law_records_matched(a: Seq<RecordView>, b: Seq<RecordView>, query: Seq<char>)
    ensures
        mcp_environment::matching_records(a + b, query)
            == mcp_environment::matching_records(a, query)
            + mcp_environment::matching_records(b, query),
    decreases b.len(),
{
    if b.len() == 0 {
        assert(a + b =~= a);
        assert(mcp_environment::matching_records(a, query) + mcp_environment::matching_records(b, query)
            =~= mcp_environment::matching_records(a, query));
    } else {
        law_records_matched(a, b.drop_last(), query);
        assert((a + b).drop_last() =~= a + b.drop_last());
        assert((a + b).last() == b.last());
        assert(mcp_environment::matching_records(a + b, query)
            =~= mcp_environment::matching_records(a, query)
            + mcp_environment::matching_records(b, query));
    }
}

/// An Environment matches its identifier and its name, and nothing else.
pub proof fn law_record_matched(record: RecordView, query: Seq<char>)
    ensures
        mcp_environment::matching_records(seq![record], query)
            == (if record.id == query || record.name == query {
            seq![record]
        } else {
            Seq::empty()
        }),
{
    reveal_with_fuel(mcp_environment::matching_records, 2);
    assert(seq![record].drop_last() =~= Seq::<RecordView>::empty());
    assert(mcp_environment::matching_records(seq![record], query)
        =~= (if record.id == query || record.name == query {
            seq![record]
        } else {
            Seq::empty()
        }));
}

/// Every value in a list or an object, at any depth, is looked at, and the value itself.
pub proof fn law_nodes(
    items: Seq<JsonView>,
    entries: Seq<(Seq<char>, JsonView)>,
    i: int,
    x: JsonView,
)
    ensures
        mcp_environment::nodes(x).contains(x),
        0 <= i < items.len() && mcp_environment::nodes(items[i]).contains(x)
            ==> mcp_environment::nodes(JsonView::Array(items)).contains(x),
        0 <= i < entries.len() && mcp_environment::nodes(entries[i].1).contains(x)
            ==> mcp_environment::nodes(JsonView::Object(entries)).contains(x),
{
    assert(mcp_environment::nodes(x)[0] == x);
    if 0 <= i < items.len() && mcp_environment::nodes(items[i]).contains(x) {
        lemma_item_nodes(items, items.len() as int, i, x);
        let below = mcp_environment::item_nodes(items, items.len() as int);
        let k = choose|k: int| 0 <= k < below.len() && below[k] == x;
        assert(mcp_environment::nodes(JsonView::Array(items))[k + 1] == x);
    }
    if 0 <= i < entries.len() && mcp_environment::nodes(entries[i].1).contains(x) {
        lemma_entry_nodes(entries, entries.len() as int, i, x);
        let below = mcp_environment::entry_nodes(entries, entries.len() as int);
        let k = choose|k: int| 0 <= k < below.len() && below[k] == x;
        assert(mcp_environment::nodes(JsonView::Object(entries))[k + 1] == x);
    }
}

/// The values in items are among those of the first `n`.
proof fn lemma_item_nodes(items: Seq<JsonView>, n: int, i: int, x: JsonView)
    requires
        0 <= i < n <= items.len(),
        mcp_environment::nodes(items[i]).contains(x),
    ensures
        mcp_environment::item_nodes(items, n).contains(x),
    decreases n,
{
    let before = mcp_environment::item_nodes(items, n - 1);
    let own = mcp_environment::nodes(items[n - 1]);
    if i < n - 1 {
        lemma_item_nodes(items, n - 1, i, x);
        let k = choose|k: int| 0 <= k < before.len() && before[k] == x;
        assert((before + own)[k] == x);
    } else {
        let k = choose|k: int| 0 <= k < own.len() && own[k] == x;
        assert((before + own)[before.len() + k] == x);
    }
}

/// The values in entries are among those of the first `n`.
proof fn lemma_entry_nodes(entries: Seq<(Seq<char>, JsonView)>, n: int, i: int, x: JsonView)
    requires
        0 <= i < n <= entries.len(),
        mcp_environment::nodes(entries[i].1).contains(x),
    ensures
        mcp_environment::entry_nodes(entries, n).contains(x),
    decreases n,
{
    let before = mcp_environment::entry_nodes(entries, n - 1);
    let own = mcp_environment::nodes(entries[n - 1].1);
    if i < n - 1 {
        lemma_entry_nodes(entries, n - 1, i, x);
        let k = choose|k: int| 0 <= k < before.len() && before[k] == x;
        assert((before + own)[k] == x);
    } else {
        let k = choose|k: int| 0 <= k < own.len() && own[k] == x;
        assert((before + own)[before.len() + k] == x);
    }
}

/// Each Environment is listed once, and none is lost.
pub proof fn law_distinct_records(s: Seq<RecordView>)
    ensures
        mcp_environment::distinct_records(s).no_duplicates(),
        forall|x: RecordView| #[trigger]
            mcp_environment::distinct_records(s).contains(x) <==> s.contains(x),
    decreases s.len(),
{
    if s.len() > 0 {
        let front = s.drop_last();
        let before = mcp_environment::distinct_records(front);
        let now = mcp_environment::distinct_records(s);
        law_distinct_records(front);
        assert forall|x: RecordView| #[trigger] now.contains(x) implies s.contains(x) by {
            if before.contains(x) {
                let i = choose|i: int| 0 <= i < front.len() && front[i] == x;
                assert(s[i] == x);
            } else {
                assert(s[s.len() - 1] == x);
            }
        }
        assert forall|x: RecordView| s.contains(x) implies #[trigger] now.contains(x) by {
            let i = choose|i: int| 0 <= i < s.len() && s[i] == x;
            if i < s.len() - 1 {
                assert(front[i] == x);
                assert(before.contains(x));
                let j = choose|j: int| 0 <= j < before.len() && before[j] == x;
                assert(now[j] == x);
            } else if !before.contains(s.last()) {
                assert(now[before.len() as int] == x);
            }
        }
    }
}

/// A selector asks for the version behind its first at sign, and without one for any.
pub proof fn law_selector(name: Seq<char>, version: Seq<char>)
    requires
        !name.contains('@'),
    ensures
        plugin_run::selector_of(name + "@"@ + version) == (if version.len() == 0 {
            Err(seq!["plugin selector has an empty version"@])
        } else if plugin::plugin_name_check(name) is Err {
            Err(plugin::plugin_name_check(name)->Err_0)
        } else if plugin::version_of(version) is Err {
            Err(plugin::version_of(version)->Err_0)
        } else {
            Ok((name, Some(version)))
        }),
        plugin_run::selector_of(name) == (if plugin::plugin_name_check(name) is Err {
            Err(plugin::plugin_name_check(name)->Err_0)
        } else {
            Ok((name, None::<Seq<char>>))
        }),
{
    reveal_strlit("@");
    text_laws::law_parted_by(name, "@"@, version);
    assert forall|j: int| 0 <= j && j + "@"@.len() <= name.len() implies #[trigger] name.subrange(
        j,
        j + "@"@.len(),
    ) != "@"@ by {
        assert(name.subrange(j, j + 1)[0] == name[j]);
        assert(name.contains(name[j]));
    }
    text_laws::law_not_parted(name, "@"@);
}

/// A release may run exactly where this program is new enough for it, it is not revoked, and it is
/// not deprecated or that is allowed.
pub proof fn law_runnable(
    entry: plugin::PluginRegistryEntry,
    allow_deprecated: bool,
    own_version: Seq<char>,
)
    ensures
        plugin_run::runnable_check(entry, allow_deprecated, own_version) is Ok
            <==> plugin::version_of(entry.min_opz_version@) is Ok && plugin::version_of(own_version)
            is Ok && !plugin::is_lower(
            plugin::version_of(own_version)->Ok_0,
            plugin::version_of(entry.min_opz_version@)->Ok_0,
        ) && !(entry.lifecycle is Revoked) && (entry.lifecycle is Deprecated ==> allow_deprecated),
{
}

/// The value of a field is the text of the first field with its label that has one.
pub proof fn law_field_value(
    fields: Seq<op::FieldView>,
    label: Seq<char>,
    from: int,
    k: int,
    value: Seq<char>,
)
    requires
        0 <= from <= k < fields.len(),
        fields[k].label == Some(label),
        fields[k].value == Some(JsonView::Text(value)),
        forall|i: int|
            from <= i < k ==> (#[trigger] fields[i]).label != Some(label) || !(
            fields[i].value matches Some(JsonView::Text(_))),
    ensures
        plugin_run::field_value(fields, label, from) == Some(value),
    decreases k - from,
{
    if from < k {
        assert(fields[from].label != Some(label) || !(
        fields[from].value matches Some(JsonView::Text(_))));
        law_field_value(fields, label, from + 1, k, value);
    }
}

} // verus!
