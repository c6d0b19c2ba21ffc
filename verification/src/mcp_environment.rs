//! Managing 1Password Environments through the MCP server.

use vstd::prelude::*;
use vstd::string::*;

use crate::failure;
use crate::failure::Failure;
use crate::json;
use crate::json::{Json, JsonView};
use crate::mcp;
use crate::pattern;
use crate::seqs;
use crate::text;

verus! {

broadcast use crate::seqs::group_seqs;

/// A value and all values in it, each before those that it holds.
pub open spec fn nodes(j: JsonView) -> Seq<JsonView>
    decreases j, 0int,
{
    seq![j] + (match j {
        JsonView::Array(items) => item_nodes(items, items.len() as int),
        JsonView::Object(entries) => entry_nodes(entries, entries.len() as int),
        _ => Seq::empty(),
    })
}

/// The nodes of the first `n` items.
pub open spec fn item_nodes(items: Seq<JsonView>, n: int) -> Seq<JsonView>
    decreases items, n,
{
    if n <= 0 || n > items.len() {
        Seq::empty()
    } else {
        item_nodes(items, n - 1) + nodes(items[n - 1])
    }
}

/// The nodes of the values of the first `n` entries.
pub open spec fn entry_nodes(entries: Seq<(Seq<char>, JsonView)>, n: int) -> Seq<JsonView>
    decreases entries, n,
{
    if n <= 0 || n > entries.len() {
        Seq::empty()
    } else {
        entry_nodes(entries, n - 1) + nodes(entries[n - 1].1)
    }
}

/// The values behind references.
pub open spec fn referred(v: Seq<&Json>) -> Seq<JsonView> {
    Seq::new(v.len(), |i: int| v[i]@)
}

/// Appends a value and all values in it.
fn push_nodes<'a>(value: &'a Json, out: &mut Vec<&'a Json>)
    ensures
        referred(final(out)@) == referred(old(out)@) + nodes(value@),
    decreases value,
{
    broadcast use json::lemma_json_view;

    let ghost start = referred(out@);
    out.push(value);
    assert(referred(out@) =~= start + seq![value@]);
    match value {
        Json::Array(items) => {
            let ghost all = json::jsons(items@);
            let mut i: usize = 0;
            assert(start + seq![value@] + Seq::<JsonView>::empty() =~= start + seq![value@]);
            while i < items.len()
                invariant
                    i <= items@.len(),
                    *value is Array,
                    value->Array_0 == *items,
                    all == json::jsons(items@),
                    referred(out@) == start + seq![value@] + item_nodes(all, i as int),
                decreases items@.len() - i,
            {
                assert(decreases_to!(value => value->Array_0@[i as int]));
                let ghost before = item_nodes(all, i as int);
                push_nodes(&items[i], out);
                assert(all[i as int] == items@[i as int]@);
                assert(start + seq![value@] + before + nodes(all[i as int]) =~= start + seq![
                    value@,
                ] + (before + nodes(all[i as int])));
                i += 1;
            }
            assert(start + seq![value@] + item_nodes(all, all.len() as int) =~= start + (seq![
                value@,
            ] + item_nodes(all, all.len() as int)));
        },
        Json::Object(m) => {
            let ghost all = json::members(m@);
            let mut i: usize = 0;
            proof {
                crate::map::lemma_map_view(*m);
            }
            assert(start + seq![value@] + Seq::<JsonView>::empty() =~= start + seq![value@]);
            while i < m.entries.len()
                invariant
                    i <= m.entries@.len(),
                    *value is Object,
                    value->Object_0 == *m,
                    m@ == crate::map::keyed(m.entries@),
                    all == json::members(m@),
                    referred(out@) == start + seq![value@] + entry_nodes(all, i as int),
                decreases m.entries@.len() - i,
            {
                assert(decreases_to!(value => value->Object_0.entries@[i as int].1));
                let ghost before = entry_nodes(all, i as int);
                push_nodes(&m.entries[i].1, out);
                assert(all[i as int].1 == m.entries@[i as int].1@);
                assert(start + seq![value@] + before + nodes(all[i as int].1) =~= start + seq![
                    value@,
                ] + (before + nodes(all[i as int].1)));
                i += 1;
            }
            assert(start + seq![value@] + entry_nodes(all, all.len() as int) =~= start + (seq![
                value@,
            ] + entry_nodes(all, all.len() as int)));
        },
        _ => {
            assert(start + seq![value@] =~= start + (seq![value@] + Seq::<JsonView>::empty()));
        },
    }
}

/// A value and all values in it.
pub fn nodes_of<'a>(value: &'a Json) -> (r: Vec<&'a Json>)
    ensures
        referred(r@) == nodes(value@),
{
    let mut r: Vec<&'a Json> = Vec::new();
    push_nodes(value, &mut r);
    assert(referred(Seq::<&Json>::empty()) + nodes(value@) =~= nodes(value@));
    r
}

/// The texts that a value holds under keys, in the order of the keys.
pub open spec fn texts_under(j: JsonView, keys: Seq<Seq<char>>) -> Seq<Seq<char>>
    decreases keys.len(),
{
    if keys.len() == 0 {
        Seq::empty()
    } else {
        let before = texts_under(j, keys.drop_last());
        match json::text_field(j, keys.last()) {
            Some(s) => before.push(s),
            None => before,
        }
    }
}

/// The texts among items.
pub open spec fn texts_among(items: Seq<JsonView>) -> Seq<Seq<char>>
    decreases items.len(),
{
    if items.len() == 0 {
        Seq::empty()
    } else {
        let before = texts_among(items.drop_last());
        match json::text_of(items.last()) {
            Some(s) => before.push(s),
            None => before,
        }
    }
}

/// The texts in lists that a value holds under keys, in the order of the keys.
pub open spec fn listed_under(j: JsonView, keys: Seq<Seq<char>>) -> Seq<Seq<char>>
    decreases keys.len(),
{
    if keys.len() == 0 {
        Seq::empty()
    } else {
        let before = listed_under(j, keys.drop_last());
        match json::items_field(j, keys.last()) {
            Some(items) => before + texts_among(items),
            None => before,
        }
    }
}

/// The texts under keys in values.
pub open spec fn all_texts_under(values: Seq<JsonView>, keys: Seq<Seq<char>>) -> Seq<Seq<char>>
    decreases values.len(),
{
    if values.len() == 0 {
        Seq::empty()
    } else {
        all_texts_under(values.drop_last(), keys) + texts_under(values.last(), keys)
    }
}

/// The texts in lists under keys in values.
pub open spec fn all_listed_under(values: Seq<JsonView>, keys: Seq<Seq<char>>) -> Seq<Seq<char>>
    decreases values.len(),
{
    if values.len() == 0 {
        Seq::empty()
    } else {
        all_listed_under(values.drop_last(), keys) + listed_under(values.last(), keys)
    }
}

/// Appends the texts among items.
fn push_among(items: &Vec<Json>, out: &mut Vec<String>)
    ensures
        seqs::texts(final(out)@) == seqs::texts(old(out)@) + texts_among(json::jsons(items@)),
{
    let ghost start = seqs::texts(out@);
    let ghost all = json::jsons(items@);
    let mut i: usize = 0;
    assert(start + Seq::<Seq<char>>::empty() =~= start);
    while i < items.len()
        invariant
            i <= items@.len(),
            all == json::jsons(items@),
            seqs::texts(out@) == start + texts_among(all.take(i as int)),
        decreases items@.len() - i,
    {
        let ghost before = texts_among(all.take(i as int));
        proof {
            assert(all.take(i + 1).drop_last() == all.take(i as int));
            assert(all.take(i + 1).last() == items@[i as int]@);
        }
        if let Some(s) = items[i].as_str() {
            seqs::push_text(out, s);
            assert((start + before).push(s@) =~= start + before.push(s@));
        }
        i += 1;
    }
}

/// Appends the texts under keys, anywhere in a value.
pub fn collect_strings_for_keys(value: &Json, keys: &[String], out: &mut Vec<String>)
    ensures
        seqs::texts(final(out)@) == seqs::texts(old(out)@) + all_texts_under(
            nodes(value@),
            seqs::texts(keys@),
        ),
{
    let found = nodes_of(value);
    let ghost all = nodes(value@);
    let ghost names = seqs::texts(keys@);
    let ghost start = seqs::texts(out@);
    let mut i: usize = 0;
    assert(start + Seq::<Seq<char>>::empty() =~= start);
    while i < found.len()
        invariant
            i <= found@.len(),
            all == referred(found@),
            names == seqs::texts(keys@),
            seqs::texts(out@) == start + all_texts_under(all.take(i as int), names),
        decreases found@.len() - i,
    {
        let ghost before = all_texts_under(all.take(i as int), names);
        proof {
            assert(all.take(i + 1).drop_last() == all.take(i as int));
            assert(all.take(i + 1).last() == found@[i as int]@);
            assert(start + before + Seq::<Seq<char>>::empty() =~= start + before);
        }
        let mut k: usize = 0;
        while k < keys.len()
            invariant
                i < found@.len(),
                k <= keys@.len(),
                names == seqs::texts(keys@),
                seqs::texts(out@) == start + before + texts_under(
                    found@[i as int]@,
                    names.take(k as int),
                ),
            decreases keys@.len() - k,
        {
            let ghost own = texts_under(found@[i as int]@, names.take(k as int));
            proof {
                assert(names.take(k + 1).drop_last() == names.take(k as int));
                assert(names.take(k + 1).last() == keys@[k as int]@);
            }
            if let Some(s) = found[i].get_str(&keys[k]) {
                seqs::push_text(out, s);
                assert((start + before + own).push(s@) =~= start + before + own.push(s@));
            }
            k += 1;
        }
        proof {
            let own = texts_under(found@[i as int]@, names);
            assert(start + before + own =~= start + (before + own));
        }
        i += 1;
    }
}

/// Appends the texts in lists under keys, anywhere in a value.
pub fn collect_string_array_for_keys(value: &Json, keys: &[String], out: &mut Vec<String>)
    ensures
        seqs::texts(final(out)@) == seqs::texts(old(out)@) + all_listed_under(
            nodes(value@),
            seqs::texts(keys@),
        ),
{
    let found = nodes_of(value);
    let ghost all = nodes(value@);
    let ghost names = seqs::texts(keys@);
    let ghost start = seqs::texts(out@);
    let mut i: usize = 0;
    assert(start + Seq::<Seq<char>>::empty() =~= start);
    while i < found.len()
        invariant
            i <= found@.len(),
            all == referred(found@),
            names == seqs::texts(keys@),
            seqs::texts(out@) == start + all_listed_under(all.take(i as int), names),
        decreases found@.len() - i,
    {
        let ghost before = all_listed_under(all.take(i as int), names);
        proof {
            assert(all.take(i + 1).drop_last() == all.take(i as int));
            assert(all.take(i + 1).last() == found@[i as int]@);
            assert(start + before + Seq::<Seq<char>>::empty() =~= start + before);
        }
        let mut k: usize = 0;
        while k < keys.len()
            invariant
                i < found@.len(),
                k <= keys@.len(),
                names == seqs::texts(keys@),
                seqs::texts(out@) == start + before + listed_under(
                    found@[i as int]@,
                    names.take(k as int),
                ),
            decreases keys@.len() - k,
        {
            let ghost own = listed_under(found@[i as int]@, names.take(k as int));
            proof {
                assert(names.take(k + 1).drop_last() == names.take(k as int));
                assert(names.take(k + 1).last() == keys@[k as int]@);
            }
            if let Some(items) = found[i].get_array(&keys[k]) {
                push_among(items, out);
                proof {
                    let more = texts_among(json::jsons(items@));
                    assert(start + before + own + more =~= start + before + (own + more));
                }
            }
            k += 1;
        }
        proof {
            let own = listed_under(found@[i as int]@, names);
            assert(start + before + own =~= start + (before + own));
        }
        i += 1;
    }
}

/// The values of the text items in the content of a reply: JSON where it is some.
pub open spec fn content_values(items: Seq<JsonView>) -> Seq<JsonView>
    decreases items.len(),
{
    if items.len() == 0 {
        Seq::empty()
    } else {
        let before = content_values(items.drop_last());
        match json::text_field(items.last(), "text"@) {
            Some(s) => before.push(
                match json::parsed(s) {
                    Ok(j) => j,
                    Err(_) => JsonView::Text(s),
                },
            ),
            None => before,
        }
    }
}

/// The values that a reply holds: its structured content, its content with what is in it, and
/// itself.
pub open spec fn result_values(result: JsonView) -> Seq<JsonView> {
    (match json::field(result, "structuredContent"@) {
        Some(v) => seq![v],
        None => Seq::<JsonView>::empty(),
    }) + (match json::field(result, "content"@) {
        Some(v) => seq![v] + (match json::items_of(v) {
            Some(items) => content_values(items),
            None => Seq::empty(),
        }),
        None => Seq::empty(),
    }) + seq![result]
}

/// Appends a copy of a value.
fn push_json(v: &mut Vec<Json>, value: Json)
    ensures
        json::jsons(final(v)@) == json::jsons(old(v)@).push(value@),
{
    let ghost before = json::jsons(v@);
    let ghost own = value@;
    v.push(value);
    assert(json::jsons(v@) =~= before.push(own));
}

/// The values that a reply holds.
pub fn mcp_result_values(result: &Json) -> (r: Vec<Json>)
    ensures
        json::jsons(r@) == result_values(result@),
{
    broadcast use json::lemma_json_view;

    let mut values: Vec<Json> = Vec::new();
    assert(json::jsons(values@) =~= Seq::<JsonView>::empty());
    if let Some(value) = result.get("structuredContent") {
        push_json(&mut values, value.clone());
    }
    let ghost first = json::jsons(values@);
    if let Some(value) = result.get("content") {
        push_json(&mut values, value.clone());
        let ghost second = json::jsons(values@);
        if let Some(items) = value.as_array() {
            let ghost all = json::jsons(items@);
            let mut i: usize = 0;
            assert(second + Seq::<JsonView>::empty() =~= second);
            while i < items.len()
                invariant
                    i <= items@.len(),
                    all == json::jsons(items@),
                    json::jsons(values@) == second + content_values(all.take(i as int)),
                decreases items@.len() - i,
            {
                let ghost before = content_values(all.take(i as int));
                proof {
                    assert(all.take(i + 1).drop_last() == all.take(i as int));
                    assert(all.take(i + 1).last() == items@[i as int]@);
                }
                if let Some(s) = items[i].get_str("text") {
                    let value = match json::parse(s) {
                        Ok(parsed) => parsed,
                        Err(_) => Json::text(s),
                    };
                    let ghost own = value@;
                    push_json(&mut values, value);
                    assert((second + before).push(own) =~= second + before.push(own));
                }
                i += 1;
            }
        }
    }
    push_json(&mut values, result.clone());
    assert(json::jsons(values@) =~= result_values(result@));
    values
}

/// The first text under keys in values.
pub open spec fn first_under(values: Seq<JsonView>, keys: Seq<Seq<char>>) -> Option<Seq<char>> {
    let found = texts_in(values, keys);
    if found.len() > 0 {
        Some(found[0])
    } else {
        None
    }
}

/// The texts under keys anywhere in values.
pub open spec fn texts_in(values: Seq<JsonView>, keys: Seq<Seq<char>>) -> Seq<Seq<char>>
    decreases values.len(),
{
    if values.len() == 0 {
        Seq::empty()
    } else {
        texts_in(values.drop_last(), keys) + all_texts_under(nodes(values.last()), keys)
    }
}

/// The first text under keys in values.
pub fn extract_first_string_for_keys(values: &Vec<Json>, keys: &[String]) -> (r: Option<String>)
    ensures
        r.deep_view() == first_under(json::jsons(values@), seqs::texts(keys@)),
{
    let ghost all = json::jsons(values@);
    let mut found = seqs::no_texts();
    let mut i: usize = 0;
    while i < values.len()
        invariant
            i <= values@.len(),
            all == json::jsons(values@),
            seqs::texts(found@) == texts_in(all.take(i as int), seqs::texts(keys@)),
        decreases values@.len() - i,
    {
        proof {
            assert(all.take(i + 1).drop_last() == all.take(i as int));
            assert(all.take(i + 1).last() == values@[i as int]@);
        }
        collect_strings_for_keys(&values[i], keys, &mut found);
        i += 1;
    }
    assert(seqs::texts(found@).len() == found@.len());
    if found.len() > 0 {
        assert(seqs::texts(found@)[0] == found@[0]@);
        Some(found[0].clone())
    } else {
        None
    }
}

/// A list of two keys.
fn two(a: &str, b: &str) -> (r: Vec<String>)
    ensures
        seqs::texts(r@) == seq![a@, b@],
{
    let mut r = seqs::no_texts();
    seqs::push_text(&mut r, a);
    seqs::push_text(&mut r, b);
    assert(seqs::texts(r@) =~= seq![a@, b@]);
    r
}

/// A list of three keys.
fn three(a: &str, b: &str, c: &str) -> (r: Vec<String>)
    ensures
        seqs::texts(r@) == seq![a@, b@, c@],
{
    let mut r = two(a, b);
    seqs::push_text(&mut r, c);
    assert(seqs::texts(r@) =~= seq![a@, b@, c@]);
    r
}

/// The names of variables that a value speaks of.
pub open spec fn value_names(j: JsonView) -> Seq<Seq<char>> {
    all_texts_under(nodes(j), seq!["variableName"@, "variable_name"@, "name"@]) + all_listed_under(
        nodes(j),
        seq!["variables"@, "variableNames"@, "variable_names"@],
    ) + (match json::items_of(j) {
        Some(items) => texts_among(items),
        None => Seq::empty(),
    })
}

/// The names of variables that values speak of.
pub open spec fn variable_names(values: Seq<JsonView>) -> Seq<Seq<char>>
    decreases values.len(),
{
    if values.len() == 0 {
        Seq::empty()
    } else {
        variable_names(values.drop_last()) + value_names(values.last())
    }
}

/// The names of variables that values speak of, in order and each once.
pub fn extract_variable_names(values: &Vec<Json>) -> (r: Vec<String>)
    ensures
        seqs::texts(r@) == mcp::sorted_texts(variable_names(json::jsons(values@))),
{
    let ghost all = json::jsons(values@);
    let own_keys = three("variableName", "variable_name", "name");
    let list_keys = three("variables", "variableNames", "variable_names");
    let mut names = seqs::no_texts();
    let mut i: usize = 0;
    while i < values.len()
        invariant
            i <= values@.len(),
            all == json::jsons(values@),
            seqs::texts(own_keys@) == seq!["variableName"@, "variable_name"@, "name"@],
            seqs::texts(list_keys@) == seq!["variables"@, "variableNames"@, "variable_names"@],
            seqs::texts(names@) == variable_names(all.take(i as int)),
        decreases values@.len() - i,
    {
        let ghost before = variable_names(all.take(i as int));
        proof {
            assert(all.take(i + 1).drop_last() == all.take(i as int));
            assert(all.take(i + 1).last() == values@[i as int]@);
        }
        collect_strings_for_keys(&values[i], &own_keys, &mut names);
        collect_string_array_for_keys(&values[i], &list_keys, &mut names);
        if let Some(items) = values[i].as_array() {
            push_among(items, &mut names);
        }
        assert(seqs::texts(names@) =~= before + value_names(values@[i as int]@));
        i += 1;
    }
    mcp::sort_texts(&names)
}

/// The paths that a value speaks of.
pub open spec fn value_paths(j: JsonView) -> Seq<Seq<char>> {
    all_texts_under(
        nodes(j),
        seq!["mountPath"@, "mount_path"@, "path"@, "filePath"@, "file_path"@],
    ) + all_listed_under(nodes(j), seq!["mounts"@, "localEnvFiles"@, "files"@])
}

/// The paths that values speak of.
pub open spec fn mount_paths(values: Seq<JsonView>) -> Seq<Seq<char>>
    decreases values.len(),
{
    if values.len() == 0 {
        Seq::empty()
    } else {
        mount_paths(values.drop_last()) + value_paths(values.last())
    }
}

/// The paths that values speak of, in order and each once.
pub fn extract_mount_paths(values: &Vec<Json>) -> (r: Vec<String>)
    ensures
        seqs::texts(r@) == mcp::sorted_texts(mount_paths(json::jsons(values@))),
{
    let ghost all = json::jsons(values@);
    let mut own_keys = three("mountPath", "mount_path", "path");
    seqs::push_text(&mut own_keys, "filePath");
    seqs::push_text(&mut own_keys, "file_path");
    let list_keys = three("mounts", "localEnvFiles", "files");
    assert(seqs::texts(own_keys@) =~= seq![
        "mountPath"@,
        "mount_path"@,
        "path"@,
        "filePath"@,
        "file_path"@,
    ]);
    let mut mounts = seqs::no_texts();
    let mut i: usize = 0;
    while i < values.len()
        invariant
            i <= values@.len(),
            all == json::jsons(values@),
            seqs::texts(own_keys@) == seq![
                "mountPath"@,
                "mount_path"@,
                "path"@,
                "filePath"@,
                "file_path"@,
            ],
            seqs::texts(list_keys@) == seq!["mounts"@, "localEnvFiles"@, "files"@],
            seqs::texts(mounts@) == mount_paths(all.take(i as int)),
        decreases values@.len() - i,
    {
        let ghost before = mount_paths(all.take(i as int));
        proof {
            assert(all.take(i + 1).drop_last() == all.take(i as int));
            assert(all.take(i + 1).last() == values@[i as int]@);
        }
        collect_strings_for_keys(&values[i], &own_keys, &mut mounts);
        collect_string_array_for_keys(&values[i], &list_keys, &mut mounts);
        assert(seqs::texts(mounts@) =~= before + value_paths(values@[i as int]@));
        i += 1;
    }
    mcp::sort_texts(&mounts)
}

/// An Environment.
#[derive(Debug)]
pub struct EnvironmentRecord {
    pub id: String,
    pub name: String,
}

/// The content of an `EnvironmentRecord`.
pub struct RecordView {
    pub id: Seq<char>,
    pub name: Seq<char>,
}

impl DeepView for EnvironmentRecord {
    type V = RecordView;

    open spec fn deep_view(&self) -> RecordView {
        RecordView { id: self.id@, name: self.name@ }
    }
}

/// The value of the first of three fields that is there.
pub open spec fn first_field(j: JsonView, a: Seq<char>, b: Seq<char>, c: Seq<char>) -> Option<
    JsonView,
> {
    if json::field(j, a) is Some {
        json::field(j, a)
    } else if json::field(j, b) is Some {
        json::field(j, b)
    } else {
        json::field(j, c)
    }
}

/// The Environment that a value is, if it is one.
pub open spec fn record_of(j: JsonView) -> Option<RecordView> {
    let id = match first_field(j, "environmentId"@, "environment_id"@, "id"@) {
        Some(v) => json::text_of(v),
        None => None,
    };
    let name = match first_field(j, "environmentName"@, "environment_name"@, "name"@) {
        Some(v) => json::text_of(v),
        None => None,
    };
    match (id, name) {
        (Some(id), Some(name)) => Some(RecordView { id, name }),
        _ => None,
    }
}

/// The text of the first of three fields that is there.
fn get_first<'a>(j: &'a Json, a: &str, b: &str, c: &str) -> (r: Option<&'a str>)
    ensures
        r.deep_view() == (match first_field(j@, a@, b@, c@) {
            Some(v) => json::text_of(v),
            None => None,
        }),
{
    let found = match j.get(a) {
        Some(v) => Some(v),
        None => match j.get(b) {
            Some(v) => Some(v),
            None => j.get(c),
        },
    };
    match found {
        Some(v) => v.as_str(),
        None => None,
    }
}

/// The Environments among values.
pub open spec fn records_among(values: Seq<JsonView>) -> Seq<RecordView>
    decreases values.len(),
{
    if values.len() == 0 {
        Seq::empty()
    } else {
        let before = records_among(values.drop_last());
        match record_of(values.last()) {
            Some(record) => before.push(record),
            None => before,
        }
    }
}

/// Appends the Environments anywhere in a value.
pub fn collect_environment_records(value: &Json, records: &mut Vec<EnvironmentRecord>)
    ensures
        final(records).deep_view() == old(records).deep_view() + records_among(nodes(value@)),
{
    let found = nodes_of(value);
    let ghost all = nodes(value@);
    let ghost start = records.deep_view();
    let mut i: usize = 0;
    assert(start + Seq::<RecordView>::empty() =~= start);
    while i < found.len()
        invariant
            i <= found@.len(),
            all == referred(found@),
            records.deep_view() == start + records_among(all.take(i as int)),
        decreases found@.len() - i,
    {
        let ghost before = records_among(all.take(i as int));
        let ghost now = records.deep_view();
        proof {
            assert(all.take(i + 1).drop_last() == all.take(i as int));
            assert(all.take(i + 1).last() == found@[i as int]@);
        }
        let id = get_first(found[i], "environmentId", "environment_id", "id");
        let name = get_first(found[i], "environmentName", "environment_name", "name");
        if let (Some(id), Some(name)) = (id, name) {
            let record = EnvironmentRecord { id: id.to_owned(), name: name.to_owned() };
            let ghost own = record.deep_view();
            records.push(record);
            assert(records.deep_view() =~= now.push(own));
            assert((start + before).push(own) =~= start + before.push(own));
        }
        i += 1;
    }
}

/// Each Environment once, where it comes up first.
pub open spec fn distinct_records(s: Seq<RecordView>) -> Seq<RecordView>
    decreases s.len(),
{
    if s.len() == 0 {
        Seq::empty()
    } else {
        let before = distinct_records(s.drop_last());
        if before.contains(s.last()) {
            before
        } else {
            before.push(s.last())
        }
    }
}

/// Whether an Environment is among others.
fn has_record(records: &Vec<EnvironmentRecord>, one: &EnvironmentRecord) -> (r: bool)
    ensures
        r == records.deep_view().contains(one.deep_view()),
{
    let ghost all = records.deep_view();
    let mut i: usize = 0;
    while i < records.len()
        invariant
            i <= records@.len(),
            all == records.deep_view(),
            forall|k: int| 0 <= k < i ==> (#[trigger] all[k]) != one.deep_view(),
        decreases records@.len() - i,
    {
        assert(all[i as int] == records@[i as int].deep_view());
        if text::same(&records[i].id, &one.id) && text::same(&records[i].name, &one.name) {
            assert(all[i as int] == one.deep_view());
            return true;
        }
        i += 1;
    }
    false
}

/// A copy of an Environment.
fn copy_record(record: &EnvironmentRecord) -> (r: EnvironmentRecord)
    ensures
        r.deep_view() == record.deep_view(),
{
    EnvironmentRecord { id: record.id.clone(), name: record.name.clone() }
}

/// Each Environment once, where it comes up first.
pub fn dedupe_environment_records(records: &Vec<EnvironmentRecord>) -> (r: Vec<EnvironmentRecord>)
    ensures
        r.deep_view() == distinct_records(records.deep_view()),
{
    let ghost all = records.deep_view();
    let mut r: Vec<EnvironmentRecord> = Vec::new();
    let mut i: usize = 0;
    assert(r.deep_view() =~= Seq::<RecordView>::empty());
    while i < records.len()
        invariant
            i <= records@.len(),
            all == records.deep_view(),
            r.deep_view() == distinct_records(all.take(i as int)),
        decreases records@.len() - i,
    {
        let ghost before = r.deep_view();
        proof {
            assert(all.take(i + 1).drop_last() == all.take(i as int));
            assert(all.take(i + 1).last() == records@[i as int].deep_view());
        }
        if !has_record(&r, &records[i]) {
            r.push(copy_record(&records[i]));
            assert(r.deep_view() =~= before.push(all[i as int]));
        }
        i += 1;
    }
    r
}

/// The Environments anywhere in values.
pub open spec fn records_in(values: Seq<JsonView>) -> Seq<RecordView>
    decreases values.len(),
{
    if values.len() == 0 {
        Seq::empty()
    } else {
        records_in(values.drop_last()) + records_among(nodes(values.last()))
    }
}

/// The Environments anywhere in values, each once.
pub fn extract_environment_records(values: &Vec<Json>) -> (r: Vec<EnvironmentRecord>)
    ensures
        r.deep_view() == distinct_records(records_in(json::jsons(values@))),
{
    let ghost all = json::jsons(values@);
    let mut found: Vec<EnvironmentRecord> = Vec::new();
    let mut i: usize = 0;
    assert(found.deep_view() =~= Seq::<RecordView>::empty());
    while i < values.len()
        invariant
            i <= values@.len(),
            all == json::jsons(values@),
            found.deep_view() == records_in(all.take(i as int)),
        decreases values@.len() - i,
    {
        proof {
            assert(all.take(i + 1).drop_last() == all.take(i as int));
            assert(all.take(i + 1).last() == values@[i as int]@);
        }
        collect_environment_records(&values[i], &mut found);
        i += 1;
    }
    dedupe_environment_records(&found)
}

/// Whether an Environment comes before another: by name, then by identifier.
pub open spec fn record_before(a: RecordView, b: RecordView) -> bool {
    text::before(a.name, b.name) || (a.name == b.name && text::before(a.id, b.id))
}

/// Where an Environment goes among others that are in order.
pub open spec fn record_place(s: Seq<RecordView>, one: RecordView, from: int) -> int
    decreases s.len() - from,
{
    if from < 0 || from >= s.len() || record_before(one, s[from]) {
        from
    } else {
        record_place(s, one, from + 1)
    }
}

/// Environments in order.
pub open spec fn sorted_records(s: Seq<RecordView>) -> Seq<RecordView>
    decreases s.len(),
{
    if s.len() == 0 {
        s
    } else {
        let before = sorted_records(s.drop_last());
        before.insert(record_place(before, s.last(), 0), s.last())
    }
}

/// Whether an Environment comes before another.
fn goes_before(a: &EnvironmentRecord, b: &EnvironmentRecord) -> (r: bool)
    ensures
        r == record_before(a.deep_view(), b.deep_view()),
{
    text::comes_before(&a.name, &b.name) || (text::same(&a.name, &b.name) && text::comes_before(
        &a.id,
        &b.id,
    ))
}

/// Environments in order.
pub fn sort_records(records: &Vec<EnvironmentRecord>) -> (r: Vec<EnvironmentRecord>)
    ensures
        r.deep_view() == sorted_records(records.deep_view()),
{
    let ghost all = records.deep_view();
    let mut r: Vec<EnvironmentRecord> = Vec::new();
    let mut i: usize = 0;
    assert(all.take(0) =~= Seq::<RecordView>::empty());
    assert(r.deep_view() =~= Seq::<RecordView>::empty());
    while i < records.len()
        invariant
            i <= records@.len(),
            all == records.deep_view(),
            r.deep_view() == sorted_records(all.take(i as int)),
        decreases records@.len() - i,
    {
        let one = &records[i];
        proof {
            assert(all.take(i + 1).drop_last() == all.take(i as int));
            assert(all.take(i + 1).last() == one.deep_view());
        }
        let ghost before = r.deep_view();
        let mut at: usize = 0;
        while at < r.len() && !goes_before(one, &r[at])
            invariant
                at <= r@.len(),
                before == r.deep_view(),
                record_place(before, one.deep_view(), 0) == record_place(
                    before,
                    one.deep_view(),
                    at as int,
                ),
            decreases r@.len() - at,
        {
            assert(before[at as int] == r@[at as int].deep_view());
            at += 1;
        }
        proof {
            if at < r@.len() {
                assert(before[at as int] == r@[at as int].deep_view());
            }
        }
        r.insert(at, copy_record(one));
        assert(r.deep_view() =~= before.insert(at as int, one.deep_view()));
        i += 1;
    }
    r
}

/// The place of an Environment is one among the others.
proof fn lemma_record_place(s: Seq<RecordView>, one: RecordView, from: int)
    requires
        0 <= from <= s.len(),
    ensures
        from <= record_place(s, one, from) <= s.len(),
        forall|i: int|
            from <= i < record_place(s, one, from) ==> !record_before(one, #[trigger] s[i]),
        record_place(s, one, from) < s.len() ==> record_before(one, s[record_place(s, one, from)]),
    decreases s.len() - from,
{
    if from < s.len() && !record_before(one, s[from]) {
        lemma_record_place(s, one, from + 1);
    }
}

/// What comes before an Environment that comes before a third comes before that one.
proof fn lemma_record_transitive(a: RecordView, b: RecordView, c: RecordView)
    requires
        record_before(a, b),
        record_before(b, c),
    ensures
        record_before(a, c),
        a != c,
{
    if text::before(a.name, b.name) && text::before(b.name, c.name) {
        text::lemma_before_transitive(a.name, b.name, c.name);
    }
    if text::before(a.id, b.id) && text::before(b.id, c.id) {
        text::lemma_before_transitive(a.id, b.id, c.id);
    }
    text::lemma_before_irreflexive(a.name);
    text::lemma_before_irreflexive(a.id);
}

/// Sorted Environments are the Environments that there were, and none comes before an earlier one.
pub proof fn law_records_in_order(s: Seq<RecordView>)
    ensures
        forall|i: int, j: int|
            0 <= i < j < sorted_records(s).len() ==> !record_before(
                #[trigger] sorted_records(s)[j],
                #[trigger] sorted_records(s)[i],
            ),
        sorted_records(s).to_multiset() == s.to_multiset(),
    decreases s.len(),
{
    broadcast use vstd::seq_lib::group_to_multiset_ensures;

    if s.len() > 0 {
        let front = s.drop_last();
        let one = s.last();
        law_records_in_order(front);
        let before = sorted_records(front);
        let now = sorted_records(s);
        let at = record_place(before, one, 0);
        lemma_record_place(before, one, 0);
        assert forall|i: int, j: int| 0 <= i < j < now.len() implies !record_before(
            #[trigger] now[j],
            #[trigger] now[i],
        ) by {
            let a = if i < at { i } else { i - 1 };
            let b = if j < at { j } else { j - 1 };
            if i == at {
                assert(now[j] == before[b]);
                if record_before(before[b], one) {
                    lemma_record_transitive(before[b], one, before[at]);
                }
            } else if j == at {
                assert(now[i] == before[a]);
            } else {
                assert(now[i] == before[a] && now[j] == before[b]);
            }
        }
        assert(s =~= front.push(one));
        assert(before.insert(at, one).to_multiset() =~= before.to_multiset().insert(one));
        assert(front.push(one).to_multiset() =~= front.to_multiset().insert(one));
    }
}

/// The line for an Environment.
pub open spec fn record_line(record: RecordView) -> Seq<char> {
    record.id + "\t"@ + record.name + "\n"@
}

/// The lines for Environments.
pub open spec fn record_lines(records: Seq<RecordView>) -> Seq<char>
    decreases records.len(),
{
    if records.len() == 0 {
        Seq::empty()
    } else {
        record_lines(records.drop_last()) + record_line(records.last())
    }
}

/// The line for an Environment.
fn render_record(record: &EnvironmentRecord) -> (r: String)
    ensures
        r@ == record_line(record.deep_view()),
{
    record.id.clone().concat("\t").concat(&record.name).concat("\n")
}

/// The lines for Environments.
pub fn render_environment_records(environments: &Vec<EnvironmentRecord>) -> (r: String)
    ensures
        r@ == record_lines(environments.deep_view()),
{
    let ghost all = environments.deep_view();
    let mut out = String::new();
    let mut i: usize = 0;
    assert(out@ =~= Seq::<char>::empty());
    while i < environments.len()
        invariant
            i <= environments@.len(),
            all == environments.deep_view(),
            out@ == record_lines(all.take(i as int)),
        decreases environments@.len() - i,
    {
        proof {
            assert(all.take(i + 1).drop_last() == all.take(i as int));
            assert(all.take(i + 1).last() == environments@[i as int].deep_view());
        }
        let line = render_record(&environments[i]);
        out.append(&line);
        i += 1;
    }
    out
}

/// The Environments in a reply to a request for all of them.
pub open spec fn listed_records(reply: JsonView) -> Seq<RecordView> {
    sorted_records(distinct_records(records_in(result_values(reply))))
}

/// The Environments in a reply to a request for all of them.
pub fn read_environments(reply: &Json) -> (r: Vec<EnvironmentRecord>)
    ensures
        r.deep_view() == listed_records(reply@),
{
    sort_records(&extract_environment_records(&mcp_result_values(reply)))
}

/// What an Environment came to.
pub open spec fn told_record(r: Result<EnvironmentRecord, Failure>) -> Result<
    RecordView,
    Seq<Seq<char>>,
> {
    match r {
        Ok(record) => Ok(record.deep_view()),
        Err(e) => Err(e@),
    }
}

/// The check that a reply names an Environment.
pub open spec fn record_check(record: RecordView, tool: Seq<char>) -> Result<
    RecordView,
    Seq<Seq<char>>,
> {
    if record.id.len() == 0 {
        Err(
            seq!["1Password MCP `"@ + tool + "` response did not include environment ID"@],
        )
    } else if record.name.len() == 0 {
        Err(
            seq!["1Password MCP `"@ + tool + "` response did not include environment name"@],
        )
    } else {
        Ok(record)
    }
}

impl EnvironmentRecord {
    /// Checks that a reply names an Environment.
    pub fn validate(self, tool: &str) -> (r: Result<EnvironmentRecord, Failure>)
        ensures
            told_record(r) == record_check(self.deep_view(), tool@),
    {
        if self.id.as_str().unicode_len() == 0 {
            return Err(
                Failure::new(
                    "1Password MCP `".to_owned().concat(tool).concat(
                        "` response did not include environment ID",
                    ),
                ),
            );
        }
        if self.name.as_str().unicode_len() == 0 {
            return Err(
                Failure::new(
                    "1Password MCP `".to_owned().concat(tool).concat(
                        "` response did not include environment name",
                    ),
                ),
            );
        }
        Ok(self)
    }
}

/// The Environment that a reply is about, or one made of what is known.
pub open spec fn replied_record(reply: JsonView, fallback: RecordView, tool: Seq<char>) -> Result<
    RecordView,
    Seq<Seq<char>>,
> {
    let found = distinct_records(records_in(result_values(reply)));
    record_check(
        if found.len() > 0 {
            found[0]
        } else {
            fallback
        },
        tool,
    )
}

/// The Environment that a reply is about, or one made of what is known.
fn read_record(reply: &Json, fallback: EnvironmentRecord, tool: &str) -> (r: Result<
    EnvironmentRecord,
    Failure,
>)
    ensures
        told_record(r) == replied_record(reply@, fallback.deep_view(), tool@),
{
    let found = extract_environment_records(&mcp_result_values(reply));
    assert(found.deep_view().len() == found@.len());
    if found.len() > 0 {
        assert(found.deep_view()[0] == found@[0].deep_view());
        copy_record(&found[0]).validate(tool)
    } else {
        fallback.validate(tool)
    }
}

/// The Environment that a reply to its creation is about.
pub open spec fn created_record(reply: JsonView, name: Seq<char>) -> Result<
    RecordView,
    Seq<Seq<char>>,
> {
    let id = match first_under(result_values(reply), seq!["environmentId"@, "id"@]) {
        Some(id) => id,
        None => Seq::empty(),
    };
    replied_record(reply, RecordView { id, name }, "create_environment"@)
}

/// The Environment that a reply to its creation is about.
pub fn read_created(reply: &Json, name: &str) -> (r: Result<EnvironmentRecord, Failure>)
    ensures
        told_record(r) == created_record(reply@, name@),
{
    let id = match extract_first_string_for_keys(
        &mcp_result_values(reply),
        &two("environmentId", "id"),
    ) {
        Some(id) => id,
        None => String::new(),
    };
    proof {
        if first_under(result_values(reply@), seq!["environmentId"@, "id"@]) is None {
            assert(id@ =~= Seq::<char>::empty());
        }
    }
    read_record(reply, EnvironmentRecord { id, name: name.to_owned() }, "create_environment")
}

/// The Environments with an identifier or a name.
pub open spec fn matching_records(records: Seq<RecordView>, query: Seq<char>) -> Seq<RecordView>
    decreases records.len(),
{
    if records.len() == 0 {
        Seq::empty()
    } else {
        let before = matching_records(records.drop_last(), query);
        if records.last().id == query || records.last().name == query {
            before.push(records.last())
        } else {
            before
        }
    }
}

/// The only Environment with an identifier or a name.
pub open spec fn resolved_record(records: Seq<RecordView>, query: Seq<char>) -> Result<
    RecordView,
    Seq<Seq<char>>,
> {
    let found = matching_records(records, query);
    if found.len() == 1 {
        Ok(found[0])
    } else if found.len() == 0 {
        Err(seq!["No 1Password Environment matched `"@ + query + "` by exact ID or name"@])
    } else {
        Err(
            seq![
                "Multiple 1Password Environments are named `"@ + query
                    + "`. Use the Environment ID instead."@,
            ],
        )
    }
}

/// An Environment that matches is one of those that there are.
proof fn lemma_matching(records: Seq<RecordView>, query: Seq<char>)
    ensures
        forall|i: int|
            0 <= i < matching_records(records, query).len() ==> records.contains(
                #[trigger] matching_records(records, query)[i],
            ) && (matching_records(records, query)[i].id == query || matching_records(
                records,
                query,
            )[i].name == query),
    decreases records.len(),
{
    if records.len() > 0 {
        let before = matching_records(records.drop_last(), query);
        lemma_matching(records.drop_last(), query);
        assert(records[records.len() - 1] == records.last());
        assert forall|i: int| 0 <= i < matching_records(records, query).len() implies {
            let one = #[trigger] matching_records(records, query)[i];
            records.contains(one) && (one.id == query || one.name == query)
        } by {
            if i < before.len() {
                let j = choose|j: int|
                    0 <= j < records.drop_last().len() && records.drop_last()[j] == before[i];
                assert(records[j] == before[i]);
            }
        }
    }
}

/// The Environment that is found is one of those that there are, and the query is its exact
/// identifier or name.
pub proof fn law_resolved_exactly(records: Seq<RecordView>, query: Seq<char>)
    ensures
        resolved_record(records, query) matches Ok(record) ==> records.contains(record) && (
        record.id == query || record.name == query),
{
    lemma_matching(records, query);
}

/// The only Environment with an identifier or a name.
pub fn resolve_environment(records: &Vec<EnvironmentRecord>, query: &str) -> (r: Result<
    EnvironmentRecord,
    Failure,
>)
    ensures
        told_record(r) == resolved_record(records.deep_view(), query@),
{
    let ghost all = records.deep_view();
    let mut found: Vec<EnvironmentRecord> = Vec::new();
    let mut i: usize = 0;
    assert(found.deep_view() =~= Seq::<RecordView>::empty());
    while i < records.len()
        invariant
            i <= records@.len(),
            all == records.deep_view(),
            found.deep_view() == matching_records(all.take(i as int), query@),
        decreases records@.len() - i,
    {
        let ghost before = found.deep_view();
        proof {
            assert(all.take(i + 1).drop_last() == all.take(i as int));
            assert(all.take(i + 1).last() == records@[i as int].deep_view());
        }
        if text::same(&records[i].id, query) || text::same(&records[i].name, query) {
            found.push(copy_record(&records[i]));
            assert(found.deep_view() =~= before.push(all[i as int]));
        }
        i += 1;
    }
    assert(found.deep_view().len() == found@.len());
    if found.len() == 1 {
        assert(found.deep_view()[0] == found@[0].deep_view());
        Ok(copy_record(&found[0]))
    } else if found.len() == 0 {
        Err(
            Failure::new(
                "No 1Password Environment matched `".to_owned().concat(query).concat(
                    "` by exact ID or name",
                ),
            ),
        )
    } else {
        Err(
            Failure::new(
                "Multiple 1Password Environments are named `".to_owned().concat(query).concat(
                    "`. Use the Environment ID instead.",
                ),
            ),
        )
    }
}

/// The check of the name of a variable.
pub open spec fn variable_check() -> spec_fn(Seq<char>) -> Result<(), Seq<Seq<char>>> {
    |name: Seq<char>|
        if pattern::is_name(name) {
            Ok(())
        } else {
            Err(
                seq![
                    "Invalid Environment variable name `"@ + name
                        + "`. Use shell-compatible names such as API_TOKEN."@,
                ],
            )
        }
}

/// The names of variables to add, each once.
pub open spec fn added_names(variables: Seq<Seq<char>>) -> Result<Seq<Seq<char>>, Seq<Seq<char>>> {
    match seqs::each(variables, variable_check()) {
        Err(e) => Err(e),
        Ok(_) => if variables.len() == 0 {
            Err(seq!["At least one Environment variable name is required"@])
        } else {
            Ok(seqs::deduped(variables))
        },
    }
}

/// The names of variables to add, each once.
pub fn check_added_names(variables: &[String]) -> (r: Result<Vec<String>, Failure>)
    ensures
        failure::told_texts(r) == added_names(seqs::texts(variables@)),
{
    let ghost all = seqs::texts(variables@);
    let ghost f = variable_check();
    let mut i: usize = 0;
    assert(all.take(0) =~= Seq::<Seq<char>>::empty());
    while i < variables.len()
        invariant
            i <= variables@.len(),
            all == seqs::texts(variables@),
            f == variable_check(),
            seqs::each(all.take(i as int), f) is Ok,
        decreases variables@.len() - i,
    {
        proof {
            seqs::lemma_each(all, f, i as int);
            assert(all[i as int] == variables@[i as int]@);
        }
        if !pattern::matches_name(&variables[i]) {
            return Err(
                Failure::new(
                    "Invalid Environment variable name `".to_owned().concat(
                        &variables[i],
                    ).concat("`. Use shell-compatible names such as API_TOKEN."),
                ),
            );
        }
        i += 1;
    }
    if variables.len() == 0 {
        return Err(failure::fail("At least one Environment variable name is required"));
    }
    Ok(seqs::dedupe_preserve_order(variables))
}

/// A variable without a value, whose value will be concealed.
pub open spec fn placeholder(name: Seq<char>) -> JsonView {
    JsonView::object().with("name"@, JsonView::Text(name)).with("value"@, JsonView::Text(""@)).with(
        "concealed"@,
        JsonView::Bool(true),
    )
}

/// Variables without values.
pub open spec fn placeholders(names: Seq<Seq<char>>) -> Seq<JsonView> {
    Seq::new(names.len(), |i: int| placeholder(names[i]))
}

/// A variable is added under its name, without a value and concealed: no value ever leaves this
/// program that way.
pub proof fn law_placeholder_holds_no_value(name: Seq<char>)
    ensures
        json::text_field(placeholder(name), "name"@) == Some(name),
        json::text_field(placeholder(name), "value"@) == Some(""@),
        json::field(placeholder(name), "concealed"@) == Some(JsonView::Bool(true)),
{
    reveal_strlit("name");
    reveal_strlit("value");
    reveal_strlit("concealed");
    assert("name"@.len() == 4 && "value"@.len() == 5 && "concealed"@.len() == 9);
    let first = JsonView::object().with("name"@, JsonView::Text(name));
    let second = first.with("value"@, JsonView::Text(""@));
    json::lemma_object_ordered();
    json::lemma_with(JsonView::object(), "name"@, JsonView::Text(name), "name"@);
    json::lemma_with(first, "value"@, JsonView::Text(""@), "name"@);
    json::lemma_with(second, "concealed"@, JsonView::Bool(true), "name"@);
    json::lemma_with(second, "concealed"@, JsonView::Bool(true), "value"@);
}

/// Variables without values.
fn build_placeholders(names: &[String]) -> (r: Json)
    ensures
        r@ == JsonView::Array(placeholders(seqs::texts(names@))),
{
    broadcast use json::lemma_json_view;

    let ghost all = placeholders(seqs::texts(names@));
    let mut list: Vec<Json> = Vec::new();
    let mut i: usize = 0;
    assert(json::jsons(list@) =~= Seq::<JsonView>::empty());
    while i < names.len()
        invariant
            i <= names@.len(),
            all == placeholders(seqs::texts(names@)),
            json::jsons(list@) == all.take(i as int),
        decreases names@.len() - i,
    {
        let concealed = Json::Bool(true);
        proof {
            json::lemma_json_view(concealed);
        }
        let one = Json::object().with("name", Json::text(&names[i])).with(
            "value",
            Json::text(""),
        ).with("concealed", concealed);
        assert(one@ == placeholder(names@[i as int]@));
        assert(all.take(i + 1) =~= all.take(i as int).push(one@));
        push_json(&mut list, one);
        i += 1;
    }
    Json::Array(list)
}

/// What to do with Environments.
#[derive(Debug)]
pub enum McpEnvironmentAction {
    List,
    Create { name: String },
    Rename { environment: String, new_name: String },
    Variables { environment: String },
    Add { environment: String, variables: Vec<String> },
    Mount { environment: String, path: String },
    Mounts { environment: String },
    Tools,
}

/// What to do with an Environment once it is found.
#[derive(Debug)]
pub enum Purpose {
    Rename { new_name: String },
    Variables,
    Add { variables: Vec<String> },
    Mount { path: String },
    Mounts,
}

/// Which reply is awaited, with what is known.
#[derive(Debug)]
pub enum McpState {
    Account { action: McpEnvironmentAction },
    Listed,
    Created { name: String },
    Found { account: String, query: String, purpose: Purpose },
    Renamed { id: String, new_name: String },
    Variables,
    Added { names: Vec<String> },
    Mounted { path: String },
    Mounts,
}

/// What to do next: ask for the tools, make a request and await its reply, or end with output.
#[derive(Debug)]
pub enum McpTurn {
    ListTools,
    Call { tool: String, arguments: Json, then_await: McpState },
    Done(String),
}

/// Whether a turn is a request to a tool after which the state is that one.
pub open spec fn calls(turn: McpTurn, tool: Seq<char>, arguments: JsonView) -> bool {
    turn is Call && turn->tool@ == tool && turn->arguments@ == arguments
}

/// Arguments that name the account.
pub open spec fn account_args(account: Seq<char>) -> JsonView {
    JsonView::object().with("accountId"@, JsonView::Text(account))
}

/// Arguments that name the account and the Environment.
pub open spec fn environment_args(account: Seq<char>, id: Seq<char>) -> JsonView {
    account_args(account).with("environmentId"@, JsonView::Text(id))
}

/// Arguments that name the account.
fn build_account_args(account: &str) -> (r: Json)
    ensures
        r@ == account_args(account@),
{
    Json::object().with("accountId", Json::text(account))
}

/// Arguments that name the account and the Environment.
fn build_environment_args(account: &str, id: &str) -> (r: Json)
    ensures
        r@ == environment_args(account@, id@),
{
    build_account_args(account).with("environmentId", Json::text(id))
}

/// A turn that makes a request.
fn call(tool: &str, arguments: Json, then_await: McpState) -> (r: McpTurn)
    ensures
        calls(r, tool@, arguments@),
        r->then_await == then_await,
{
    McpTurn::Call { tool: tool.to_owned(), arguments, then_await }
}

/// Whether a purpose is that of an action.
pub open spec fn is_purpose(purpose: Purpose, action: McpEnvironmentAction) -> bool {
    match (purpose, action) {
        (Purpose::Rename { new_name }, McpEnvironmentAction::Rename { environment: _, new_name: n }) => {
            new_name@ == n@
        },
        (Purpose::Variables, McpEnvironmentAction::Variables { environment: _ }) => true,
        (Purpose::Add { variables }, McpEnvironmentAction::Add { environment: _, variables: v }) => {
            seqs::texts(variables@) == seqs::texts(v@)
        },
        (Purpose::Mount { path }, McpEnvironmentAction::Mount { environment: _, path: p }) => {
            path@ == p@
        },
        (Purpose::Mounts, McpEnvironmentAction::Mounts { environment: _ }) => true,
        _ => false,
    }
}

/// The Environment that an action is for.
pub open spec fn action_target(action: McpEnvironmentAction) -> Option<Seq<char>> {
    match action {
        McpEnvironmentAction::Rename { environment, new_name: _ } => Some(environment@),
        McpEnvironmentAction::Variables { environment } => Some(environment@),
        McpEnvironmentAction::Add { environment, variables: _ } => Some(environment@),
        McpEnvironmentAction::Mount { environment, path: _ } => Some(environment@),
        McpEnvironmentAction::Mounts { environment } => Some(environment@),
        _ => None,
    }
}

/// Whether a turn is the first after the account is known.
pub open spec fn starts(turn: McpTurn, account: Seq<char>, action: McpEnvironmentAction) -> bool {
    match action {
        McpEnvironmentAction::Tools => turn is ListTools,
        McpEnvironmentAction::List => calls(turn, "list_environments"@, account_args(account))
            && turn->then_await is Listed,
        McpEnvironmentAction::Create { name } => calls(
            turn,
            "create_environment"@,
            account_args(account).with("environmentName"@, JsonView::Text(name@)),
        ) && (turn->then_await matches McpState::Created { name: n } && n@ == name@),
        _ => calls(turn, "list_environments"@, account_args(account)) && (
        turn->then_await matches McpState::Found { account: a, query, purpose } && a@ == account
            && Some(query@) == action_target(action) && is_purpose(purpose, action)),
    }
}

/// The first turn after the account is known.
pub fn start_action(account: &str, action: McpEnvironmentAction) -> (r: McpTurn)
    ensures
        starts(r, account@, action),
{
    let (query, purpose) = match action {
        McpEnvironmentAction::Tools => return McpTurn::ListTools,
        McpEnvironmentAction::List => return call(
            "list_environments",
            build_account_args(account),
            McpState::Listed,
        ),
        McpEnvironmentAction::Create { name } => {
            let arguments = build_account_args(account).with("environmentName", Json::text(&name));
            return call("create_environment", arguments, McpState::Created { name });
        },
        McpEnvironmentAction::Rename { environment, new_name } => (
            environment,
            Purpose::Rename { new_name },
        ),
        McpEnvironmentAction::Variables { environment } => (environment, Purpose::Variables),
        McpEnvironmentAction::Add { environment, variables } => (
            environment,
            Purpose::Add { variables },
        ),
        McpEnvironmentAction::Mount { environment, path } => (environment, Purpose::Mount { path }),
        McpEnvironmentAction::Mounts { environment } => (environment, Purpose::Mounts),
    };
    call(
        "list_environments",
        build_account_args(account),
        McpState::Found { account: account.to_owned(), query, purpose },
    )
}

/// The first turn: the tools need no account; else the account is given or asked for.
pub fn begin(account: Option<&str>, action: McpEnvironmentAction) -> (r: McpTurn)
    ensures
        if action is Tools {
            r is ListTools
        } else {
            match account {
                Some(account) => starts(r, account@, action),
                None => calls(r, "authenticate"@, JsonView::object()) && r->then_await
                    == (McpState::Account { action }),
            }
        },
{
    if let McpEnvironmentAction::Tools = action {
        return McpTurn::ListTools;
    }
    match account {
        Some(account) => start_action(account, action),
        None => call("authenticate", Json::object(), McpState::Account { action }),
    }
}

/// Whether a turn uses an Environment that was found.
pub open spec fn uses(
    turn: McpTurn,
    account: Seq<char>,
    environment: RecordView,
    purpose: Purpose,
) -> bool {
    let own = environment_args(account, environment.id);
    match purpose {
        Purpose::Rename { new_name } => calls(
            turn,
            "rename_environment"@,
            own.with("environmentName"@, JsonView::Text(new_name@)),
        ) && (turn->then_await matches McpState::Renamed { id, new_name: n } && id@
            == environment.id && n@ == new_name@),
        Purpose::Variables => calls(turn, "list_variables"@, own) && turn->then_await is Variables,
        Purpose::Add { variables } => added_names(seqs::texts(variables@)) matches Ok(names)
            && calls(
            turn,
            "append_variables"@,
            own.with("variables"@, JsonView::Array(placeholders(names))),
        ) && (turn->then_await matches McpState::Added { names: n } && seqs::texts(n@) == names),
        Purpose::Mount { path } => calls(
            turn,
            "create_local_env_file"@,
            own.with("environmentName"@, JsonView::Text(environment.name)).with(
                "mountPath"@,
                JsonView::Text(path@),
            ),
        ) && (turn->then_await matches McpState::Mounted { path: p } && p@ == path@),
        Purpose::Mounts => calls(turn, "list_local_env_files"@, own)
            && turn->then_await is Mounts,
    }
}

/// The failure of a purpose before any request, if there is one.
pub open spec fn purpose_failure(purpose: Purpose) -> Option<Seq<Seq<char>>> {
    match purpose {
        Purpose::Add { variables } => match added_names(seqs::texts(variables@)) {
            Err(e) => Some(e),
            Ok(_) => None,
        },
        _ => None,
    }
}

/// The turn that uses an Environment that was found.
pub fn use_environment(account: &str, environment: &EnvironmentRecord, purpose: Purpose) -> (r: Result<
    McpTurn,
    Failure,
>)
    ensures
        match purpose_failure(purpose) {
            Some(e) => r matches Err(failure) && failure@ == e,
            None => r matches Ok(turn) && uses(turn, account@, environment.deep_view(), purpose),
        },
{
    let arguments = build_environment_args(account, &environment.id);
    match purpose {
        Purpose::Rename { new_name } => {
            let arguments = arguments.with("environmentName", Json::text(&new_name));
            Ok(
                call(
                    "rename_environment",
                    arguments,
                    McpState::Renamed { id: environment.id.clone(), new_name },
                ),
            )
        },
        Purpose::Variables => Ok(call("list_variables", arguments, McpState::Variables)),
        Purpose::Add { variables } => match check_added_names(&variables) {
            Err(e) => Err(e),
            Ok(names) => {
                let arguments = arguments.with("variables", build_placeholders(&names));
                Ok(call("append_variables", arguments, McpState::Added { names }))
            },
        },
        Purpose::Mount { path } => {
            let arguments = arguments.with(
                "environmentName",
                Json::text(&environment.name),
            ).with("mountPath", Json::text(&path));
            Ok(call("create_local_env_file", arguments, McpState::Mounted { path }))
        },
        Purpose::Mounts => Ok(call("list_local_env_files", arguments, McpState::Mounts)),
    }
}

/// The output of a reply that ends a task, or its failure.
pub open spec fn ending(state: McpState, reply: JsonView) -> Option<
    Result<Seq<char>, Seq<Seq<char>>>,
> {
    let values = result_values(reply);
    match state {
        McpState::Listed => Some(Ok(record_lines(listed_records(reply)))),
        McpState::Created { name } => Some(
            match created_record(reply, name@) {
                Ok(record) => Ok(record_line(record)),
                Err(e) => Err(e),
            },
        ),
        McpState::Renamed { id, new_name } => Some(
            match replied_record(
                reply,
                RecordView { id: id@, name: new_name@ },
                "rename_environment"@,
            ) {
                Ok(record) => Ok(record_line(record)),
                Err(e) => Err(e),
            },
        ),
        McpState::Variables => Some(Ok(text::lined(mcp::sorted_texts(variable_names(values))))),
        McpState::Added { names } => Some(Ok(text::lined(seqs::texts(names@)))),
        McpState::Mounted { path } => {
            let mounts = mcp::sorted_texts(mount_paths(values));
            Some(
                Ok(
                    text::lined(
                        if mounts.len() == 0 {
                            seq![path@]
                        } else {
                            mounts
                        },
                    ),
                ),
            )
        },
        McpState::Mounts => Some(Ok(text::lined(mcp::sorted_texts(mount_paths(values))))),
        McpState::Account { action: _ } => None,
        McpState::Found { account: _, query: _, purpose: _ } => None,
    }
}

/// The account that a reply names.
pub open spec fn replied_account(reply: JsonView) -> Option<Seq<char>> {
    first_under(result_values(reply), seq!["accountId"@, "account_id"@])
}

/// The turn after a reply.
pub fn proceed(state: McpState, reply: &Json) -> (r: Result<McpTurn, Failure>)
    ensures
        match ending(state, reply@) {
            Some(Ok(output)) => r matches Ok(McpTurn::Done(printed)) && printed@ == output,
            Some(Err(e)) => r matches Err(failure) && failure@ == e,
            None => match state {
                McpState::Account { action } => match replied_account(reply@) {
                    Some(account) => r matches Ok(turn) && starts(turn, account, action),
                    None => failure::failed(
                        r,
                        "1Password MCP authenticate response did not include accountId"@,
                    ),
                },
                McpState::Found { account, query, purpose } => match resolved_record(
                    listed_records(reply@),
                    query@,
                ) {
                    Err(e) => r matches Err(failure) && failure@ == e,
                    Ok(environment) => match purpose_failure(purpose) {
                        Some(e) => r matches Err(failure) && failure@ == e,
                        None => r matches Ok(turn) && uses(turn, account@, environment, purpose),
                    },
                },
                _ => true,
            },
        },
{
    match state {
        McpState::Account { action } => {
            match extract_first_string_for_keys(
                &mcp_result_values(reply),
                &two("accountId", "account_id"),
            ) {
                Some(account) => Ok(start_action(&account, action)),
                None => Err(
                    failure::fail("1Password MCP authenticate response did not include accountId"),
                ),
            }
        },
        McpState::Listed => Ok(McpTurn::Done(render_environment_records(&read_environments(reply)))),
        McpState::Created { name } => match read_created(reply, &name) {
            Ok(record) => Ok(McpTurn::Done(render_record(&record))),
            Err(e) => Err(e),
        },
        McpState::Found { account, query, purpose } => {
            match resolve_environment(&read_environments(reply), &query) {
                Ok(environment) => use_environment(&account, &environment, purpose),
                Err(e) => Err(e),
            }
        },
        McpState::Renamed { id, new_name } => match read_record(
            reply,
            EnvironmentRecord { id, name: new_name },
            "rename_environment",
        ) {
            Ok(record) => Ok(McpTurn::Done(render_record(&record))),
            Err(e) => Err(e),
        },
        McpState::Variables => {
            let names = extract_variable_names(&mcp_result_values(reply));
            Ok(McpTurn::Done(text::render_lines(&names)))
        },
        McpState::Added { names } => Ok(McpTurn::Done(text::render_lines(&names))),
        McpState::Mounted { path } => {
            let mut mounts = extract_mount_paths(&mcp_result_values(reply));
            assert(seqs::texts(mounts@).len() == mounts@.len());
            if mounts.len() == 0 {
                let ghost own = path@;
                seqs::push_string(&mut mounts, path);
                assert(seqs::texts(mounts@) =~= seq![own]);
            }
            Ok(McpTurn::Done(text::render_lines(&mounts)))
        },
        McpState::Mounts => {
            let mounts = extract_mount_paths(&mcp_result_values(reply));
            Ok(McpTurn::Done(text::render_lines(&mounts)))
        },
    }
}

/// The output for the tools of the server.
pub fn render_tools(names: &[String]) -> (r: String)
    ensures
        r@ == text::lined(seqs::texts(names@)),
{
    text::render_lines(names)
}

} // verus!
