//! Answers of the desktop SDK: vaults, lists of items and batches of items.

use vstd::prelude::*;
use vstd::string::*;

use crate::failure;
use crate::failure::Failure;
use crate::json;
use crate::json::{Json, JsonView};
use crate::op;
use crate::op::{ItemField, ItemGet, ItemListEntry, ItemVault};
use crate::resolver::{ItemGithubRepositories, RepositoriesView, ResolvedItem, ResolvedView};
use crate::seqs;
use crate::text;

verus! {

broadcast use crate::seqs::group_seqs;

/// The text of a field, where it is a string that is not empty.
pub open spec fn filled_field(j: JsonView, key: Seq<char>) -> Option<Seq<char>> {
    match json::text_field(j, key) {
        Some(s) => if s.len() > 0 {
            Some(s)
        } else {
            None
        },
        None => None,
    }
}

/// The text of a field, where it is a string that is not empty.
pub fn get_filled<'a>(j: &'a Json, key: &str) -> (r: Option<&'a str>)
    ensures
        r.deep_view() == filled_field(j@, key@),
{
    match j.get_str(key) {
        Some(s) => if s.unicode_len() > 0 {
            Some(s)
        } else {
            None
        },
        None => None,
    }
}

/// The vault that an answer describes.
pub open spec fn vault_reader() -> spec_fn(JsonView) -> Result<op::VaultView, Seq<Seq<char>>> {
    |j: JsonView|
        match (filled_field(j, "id"@), filled_field(j, "title"@)) {
            (None, _) => Err(seq!["desktop SDK vault response omitted id"@]),
            (Some(_), None) => Err(seq!["desktop SDK vault response omitted title"@]),
            (Some(id), Some(name)) => Ok(op::VaultView { id, name }),
        }
}

/// What vaults came to.
pub open spec fn told_vaults(r: Result<Vec<ItemVault>, Failure>) -> Result<
    Seq<op::VaultView>,
    Seq<Seq<char>>,
> {
    match r {
        Ok(v) => Ok(v.deep_view()),
        Err(e) => Err(e@),
    }
}

/// The vaults that an answer lists.
pub fn read_sdk_vaults(response: &Json) -> (r: Result<Vec<ItemVault>, Failure>)
    ensures
        told_vaults(r) == (match json::items_of(response@) {
            Some(items) => seqs::collected(items, vault_reader()),
            None => Err(seq!["isolated Desktop SDK vault response was not an array"@]),
        }),
{
    let items = match response.as_array() {
        Some(items) => items,
        None => return Err(failure::fail("isolated Desktop SDK vault response was not an array")),
    };
    let ghost all = json::jsons(items@);
    let mut vaults: Vec<ItemVault> = Vec::new();
    let mut i: usize = 0;
    assert(all.take(0) =~= Seq::<JsonView>::empty());
    assert(vaults.deep_view() =~= Seq::<op::VaultView>::empty());
    while i < items.len()
        invariant
            i <= items@.len(),
            all == json::jsons(items@),
            json::items_of(response@) == Some(all),
            seqs::collected(all.take(i as int), vault_reader()) == Ok::<
                Seq<op::VaultView>,
                Seq<Seq<char>>,
            >(vaults.deep_view()),
        decreases items@.len() - i,
    {
        let ghost before = vaults.deep_view();
        proof {
            seqs::lemma_collected(all, vault_reader(), i as int);
            assert(all[i as int] == items@[i as int]@);
        }
        let id = match get_filled(&items[i], "id") {
            Some(id) => id,
            None => return Err(failure::fail("desktop SDK vault response omitted id")),
        };
        let name = match get_filled(&items[i], "title") {
            Some(name) => name,
            None => return Err(failure::fail("desktop SDK vault response omitted title")),
        };
        let vault = ItemVault { id: id.to_owned(), name: name.to_owned() };
        let ghost own = vault.deep_view();
        vaults.push(vault);
        assert(vaults.deep_view() =~= before.push(own));
        i += 1;
    }
    Ok(vaults)
}

/// The vaults with that identifier or name.
pub open spec fn vaults_named(vaults: Seq<op::VaultView>, name: Seq<char>) -> Seq<op::VaultView>
    decreases vaults.len(),
{
    if vaults.len() == 0 {
        Seq::empty()
    } else {
        let before = vaults_named(vaults.drop_last(), name);
        if vaults.last().id == name || vaults.last().name == name {
            before.push(vaults.last())
        } else {
            before
        }
    }
}

/// The vaults to use: all of them, or the only one with the given identifier or name.
pub fn select_sdk_vaults(vaults: &Vec<ItemVault>, vault: Option<&str>) -> (r: Result<
    Vec<ItemVault>,
    Failure,
>)
    ensures
        told_vaults(r) == (match vault {
            None => Ok(vaults.deep_view()),
            Some(name) => {
                let found = vaults_named(vaults.deep_view(), name@);
                if found.len() == 1 {
                    Ok(found)
                } else if found.len() == 0 {
                    Err(seq!["desktop SDK did not find vault `"@ + name@ + "`"@])
                } else {
                    Err(seq!["desktop SDK vault name `"@ + name@ + "` is ambiguous"@])
                }
            },
        }),
{
    let ghost all = vaults.deep_view();
    let mut found: Vec<ItemVault> = Vec::new();
    let mut i: usize = 0;
    assert(found.deep_view() =~= Seq::<op::VaultView>::empty());
    while i < vaults.len()
        invariant
            i <= vaults@.len(),
            all == vaults.deep_view(),
            found.deep_view() == (match vault {
                None => all.take(i as int),
                Some(name) => vaults_named(all.take(i as int), name@),
            }),
        decreases vaults@.len() - i,
    {
        let ghost before = found.deep_view();
        proof {
            assert(all.take(i + 1).drop_last() == all.take(i as int));
            assert(all.take(i + 1) =~= all.take(i as int).push(all[i as int]));
            assert(all[i as int] == vaults@[i as int].deep_view());
        }
        let keep = match vault {
            None => true,
            Some(name) => text::same(&vaults[i].id, name) || text::same(&vaults[i].name, name),
        };
        if keep {
            let copy = op::copy_vault(&vaults[i]);
            found.push(copy);
            assert(found.deep_view() =~= before.push(all[i as int]));
        }
        i += 1;
    }
    assert(found.deep_view().len() == found@.len());
    match vault {
        None => Ok(found),
        Some(name) => if found.len() == 1 {
            Ok(found)
        } else if found.len() == 0 {
            Err(
                Failure::new(
                    "desktop SDK did not find vault `".to_owned().concat(name).concat("`"),
                ),
            )
        } else {
            Err(
                Failure::new(
                    "desktop SDK vault name `".to_owned().concat(name).concat("` is ambiguous"),
                ),
            )
        },
    }
}

/// The entry that an overview describes, in the vault it was listed from.
pub open spec fn entry_reader(vault: op::VaultView) -> spec_fn(JsonView) -> Result<
    op::EntryView,
    Seq<Seq<char>>,
> {
    |j: JsonView|
        match (filled_field(j, "id"@), json::text_field(j, "title"@)) {
            (None, _) => Err(seq!["desktop SDK item overview omitted id"@]),
            (Some(_), None) => Err(seq!["desktop SDK item overview omitted title"@]),
            (Some(id), Some(title)) => Ok(op::EntryView { id, title, vault: Some(vault) }),
        }
}

/// What entries came to.
pub open spec fn told_entries(r: Result<Vec<ItemListEntry>, Failure>) -> Result<
    Seq<op::EntryView>,
    Seq<Seq<char>>,
> {
    match r {
        Ok(v) => Ok(v.deep_view()),
        Err(e) => Err(e@),
    }
}

/// The entries of the items of one vault.
pub fn read_sdk_entries(response: &Json, vault: &ItemVault) -> (r: Result<
    Vec<ItemListEntry>,
    Failure,
>)
    ensures
        told_entries(r) == (match json::items_of(response@) {
            Some(items) => seqs::collected(items, entry_reader(vault.deep_view())),
            None => Err(seq!["isolated Desktop SDK item list was not an array"@]),
        }),
{
    let items = match response.as_array() {
        Some(items) => items,
        None => return Err(failure::fail("isolated Desktop SDK item list was not an array")),
    };
    let ghost all = json::jsons(items@);
    let ghost f = entry_reader(vault.deep_view());
    let mut entries: Vec<ItemListEntry> = Vec::new();
    let mut i: usize = 0;
    assert(all.take(0) =~= Seq::<JsonView>::empty());
    assert(entries.deep_view() =~= Seq::<op::EntryView>::empty());
    while i < items.len()
        invariant
            i <= items@.len(),
            all == json::jsons(items@),
            f == entry_reader(vault.deep_view()),
            json::items_of(response@) == Some(all),
            seqs::collected(all.take(i as int), f) == Ok::<Seq<op::EntryView>, Seq<Seq<char>>>(
                entries.deep_view(),
            ),
        decreases items@.len() - i,
    {
        let ghost before = entries.deep_view();
        proof {
            seqs::lemma_collected(all, f, i as int);
            assert(all[i as int] == items@[i as int]@);
        }
        let id = match get_filled(&items[i], "id") {
            Some(id) => id,
            None => return Err(failure::fail("desktop SDK item overview omitted id")),
        };
        let title = match items[i].get_str("title") {
            Some(title) => title,
            None => return Err(failure::fail("desktop SDK item overview omitted title")),
        };
        let entry = ItemListEntry {
            id: id.to_owned(),
            title: title.to_owned(),
            vault: Some(op::copy_vault(vault)),
        };
        let ghost own = entry.deep_view();
        entries.push(entry);
        assert(entries.deep_view() =~= before.push(own));
        i += 1;
    }
    Ok(entries)
}

/// A field as the SDK gives it: its label under `title` or else under `label`, and its value.
pub open spec fn field_from(j: JsonView) -> op::FieldView {
    op::FieldView {
        label: match json::field(j, "title"@) {
            Some(title) => json::text_of(title),
            None => json::text_field(j, "label"@),
        },
        value: json::field(j, "value"@),
    }
}

/// An item as the SDK gives it, in its vault.
pub open spec fn item_from(j: JsonView, vault: op::VaultView) -> op::ItemView {
    op::ItemView {
        id: json::text_field(j, "id"@),
        title: json::text_field(j, "title"@),
        fields: match json::items_field(j, "fields"@) {
            Some(fields) => Seq::new(fields.len(), |i: int| field_from(fields[i])),
            None => Seq::empty(),
        },
        vault: Some(vault),
    }
}

/// A text of its own, where there is one.
fn own_text(s: Option<&str>) -> (r: Option<String>)
    ensures
        r.deep_view() == s.deep_view(),
{
    match s {
        Some(s) => Some(s.to_owned()),
        None => None,
    }
}

/// A field as the SDK gives it.
fn read_field(j: &Json) -> (r: ItemField)
    ensures
        r.deep_view() == field_from(j@),
{
    let label = match j.get("title") {
        Some(title) => own_text(title.as_str()),
        None => own_text(j.get_str("label")),
    };
    let value = match j.get("value") {
        Some(value) => Some(value.clone()),
        None => None,
    };
    ItemField { label, value }
}

/// An item as the SDK gives it, in its vault.
pub fn sdk_item_get(value: &Json, vault: &ItemVault) -> (r: ItemGet)
    ensures
        r.deep_view() == item_from(value@, vault.deep_view()),
{
    let mut fields: Vec<ItemField> = Vec::new();
    if let Some(list) = value.get_array("fields") {
        let ghost all = json::jsons(list@);
        let mut i: usize = 0;
        while i < list.len()
            invariant
                i <= list@.len(),
                all == json::jsons(list@),
                fields@.len() == i,
                forall|j: int| 0 <= j < i ==> (#[trigger] fields@[j]).deep_view() == field_from(all[j]),
            decreases list@.len() - i,
        {
            assert(all[i as int] == list@[i as int]@);
            let field = read_field(&list[i]);
            fields.push(field);
            i += 1;
        }
    }
    assert(fields.deep_view() =~= item_from(value@, vault.deep_view()).fields);
    ItemGet {
        id: own_text(value.get_str("id")),
        title: own_text(value.get_str("title")),
        fields,
        vault: Some(op::copy_vault(vault)),
    }
}

/// The entry for one exact title.
pub open spec fn exact_entry(entries: Seq<op::EntryView>) -> spec_fn(Seq<char>) -> Result<
    op::EntryView,
    Seq<Seq<char>>,
> {
    |title: Seq<char>|
        {
            let found = crate::resolver::title_matches(entries, title, false, entries.len() as int);
            if found.len() == 1 {
                Ok(entries[found[0]])
            } else if found.len() == 0 {
                Err(
                    seq![
                        "desktop SDK batch lookup requires exact item title `"@ + title + "`"@,
                    ],
                )
            } else {
                Err(seq!["desktop SDK found multiple exact items titled `"@ + title + "`"@])
            }
        }
}

/// The entries with the given titles, where each title is that of exactly one entry.
pub fn select_exact_item_entries(entries: &Vec<ItemListEntry>, item_titles: &[String]) -> (r: Result<
    Vec<ItemListEntry>,
    Failure,
>)
    ensures
        told_entries(r) == seqs::collected(
            seqs::texts(item_titles@),
            exact_entry(entries.deep_view()),
        ),
{
    let ghost all = seqs::texts(item_titles@);
    let ghost f = exact_entry(entries.deep_view());
    let mut selected: Vec<ItemListEntry> = Vec::new();
    let mut i: usize = 0;
    assert(all.take(0) =~= Seq::<Seq<char>>::empty());
    assert(selected.deep_view() =~= Seq::<op::EntryView>::empty());
    while i < item_titles.len()
        invariant
            i <= item_titles@.len(),
            all == seqs::texts(item_titles@),
            f == exact_entry(entries.deep_view()),
            seqs::collected(all.take(i as int), f) == Ok::<Seq<op::EntryView>, Seq<Seq<char>>>(
                selected.deep_view(),
            ),
        decreases item_titles@.len() - i,
    {
        let ghost before = selected.deep_view();
        proof {
            seqs::lemma_collected(all, f, i as int);
            assert(all[i as int] == item_titles@[i as int]@);
        }
        let title = &item_titles[i];
        let found = crate::resolver::find_titles(entries, title, false);
        assert(crate::resolver::positions(found@).len() == found@.len());
        if found.len() == 0 {
            return Err(
                Failure::new(
                    "desktop SDK batch lookup requires exact item title `".to_owned().concat(
                        title,
                    ).concat("`"),
                ),
            );
        }
        if found.len() > 1 {
            return Err(
                Failure::new(
                    "desktop SDK found multiple exact items titled `".to_owned().concat(
                        title,
                    ).concat("`"),
                ),
            );
        }
        assert(crate::resolver::positions(found@)[0] == found@[0]);
        let entry = op::copy_entry(&entries[found[0]]);
        let ghost own = entry.deep_view();
        selected.push(entry);
        assert(selected.deep_view() =~= before.push(own));
        i += 1;
    }
    Ok(selected)
}

/// One request for items: a vault, and which of the selected entries are asked for.
#[derive(Debug)]
pub struct ItemBatch {
    pub vault: ItemVault,
    pub indices: Vec<usize>,
}

/// The content of an `ItemBatch`.
pub struct BatchView {
    pub vault: op::VaultView,
    pub indices: Seq<int>,
}

impl DeepView for ItemBatch {
    type V = BatchView;

    open spec fn deep_view(&self) -> BatchView {
        BatchView {
            vault: self.vault.deep_view(),
            indices: crate::resolver::positions(self.indices@),
        }
    }
}

/// The position of the first group at or after `from` for the vault.
pub open spec fn group_index(groups: Seq<BatchView>, vault: Seq<char>, from: int) -> Option<int>
    decreases groups.len() - from,
{
    if from < 0 || from >= groups.len() {
        None
    } else if groups[from].vault.id == vault {
        Some(from)
    } else {
        group_index(groups, vault, from + 1)
    }
}

/// The groups with one more entry, in the group of its vault.
pub open spec fn with_member(groups: Seq<BatchView>, vault: op::VaultView, index: int) -> Seq<
    BatchView,
> {
    match group_index(groups, vault.id, 0) {
        Some(g) => groups.update(
            g,
            BatchView { vault: groups[g].vault, indices: groups[g].indices.push(index) },
        ),
        None => groups.push(BatchView { vault, indices: seq![index] }),
    }
}

/// The first `n` entries grouped by their vaults, in the order in which the vaults come up.
pub open spec fn grouped(entries: Seq<op::EntryView>, n: int) -> Result<
    Seq<BatchView>,
    Seq<Seq<char>>,
>
    decreases n,
{
    if n <= 0 {
        Ok(Seq::empty())
    } else {
        match grouped(entries, n - 1) {
            Err(e) => Err(e),
            Ok(groups) => match entries[n - 1].vault {
                None => Err(seq!["desktop SDK item overview omitted vault metadata"@]),
                Some(vault) => Ok(with_member(groups, vault, n - 1)),
            },
        }
    }
}

/// An entry without a vault stops the grouping of all.
proof fn lemma_grouped_stops(entries: Seq<op::EntryView>, n: int, m: int)
    requires
        0 <= n <= m,
        grouped(entries, n) is Err,
    ensures
        grouped(entries, m) == grouped(entries, n),
    decreases m,
{
    if n < m {
        lemma_grouped_stops(entries, n, m - 1);
    }
}

/// What batches came to.
pub open spec fn told_batches(r: Result<Vec<ItemBatch>, Failure>) -> Result<
    Seq<BatchView>,
    Seq<Seq<char>>,
> {
    match r {
        Ok(v) => Ok(v.deep_view()),
        Err(e) => Err(e@),
    }
}

/// The entries grouped by their vaults.
pub fn group_by_vault(entries: &Vec<ItemListEntry>) -> (r: Result<Vec<ItemBatch>, Failure>)
    ensures
        told_batches(r) == grouped(entries.deep_view(), entries@.len() as int),
{
    let ghost all = entries.deep_view();
    let mut groups: Vec<ItemBatch> = Vec::new();
    let mut i: usize = 0;
    assert(groups.deep_view() =~= Seq::<BatchView>::empty());
    while i < entries.len()
        invariant
            i <= entries@.len(),
            all == entries.deep_view(),
            grouped(all, i as int) == Ok::<Seq<BatchView>, Seq<Seq<char>>>(groups.deep_view()),
        decreases entries@.len() - i,
    {
        assert(all[i as int] == entries@[i as int].deep_view());
        match &entries[i].vault {
            None => {
                proof {
                    assert(grouped(all, i + 1) is Err);
                    lemma_grouped_stops(all, i + 1, all.len() as int);
                }
                return Err(failure::fail("desktop SDK item overview omitted vault metadata"));
            },
            Some(vault) => {
                put_member(&mut groups, vault, i);
            },
        }
        i += 1;
    }
    Ok(groups)
}

/// Puts an entry into the group of its vault.
fn put_member(groups: &mut Vec<ItemBatch>, vault: &ItemVault, index: usize)
    ensures
        final(groups).deep_view() == with_member(
            old(groups).deep_view(),
            vault.deep_view(),
            index as int,
        ),
{
    let ghost all = groups.deep_view();
    let mut g: usize = 0;
    while g < groups.len() && !text::same(&groups[g].vault.id, &vault.id)
        invariant
            g <= groups@.len(),
            all == groups.deep_view(),
            group_index(all, vault.id@, 0) == group_index(all, vault.id@, g as int),
        decreases groups@.len() - g,
    {
        assert(all[g as int] == groups@[g as int].deep_view());
        g += 1;
    }
    if g < groups.len() {
        assert(all[g as int] == groups@[g as int].deep_view());
        let mut indices: Vec<usize> = Vec::new();
        let mut k: usize = 0;
        while k < groups[g as usize].indices.len()
            invariant
                g < groups@.len(),
                k <= groups@[g as int].indices@.len(),
                indices@ == groups@[g as int].indices@.take(k as int),
            decreases groups@[g as int].indices@.len() - k,
        {
            indices.push(groups[g].indices[k]);
            k += 1;
            assert(indices@ =~= groups@[g as int].indices@.take(k as int));
        }
        indices.push(index);
        let merged = ItemBatch { vault: op::copy_vault(&groups[g].vault), indices };
        assert(merged.deep_view().indices =~= all[g as int].indices.push(index as int));
        let ghost own = merged.deep_view();
        groups.set(g, merged);
        assert(groups.deep_view() =~= all.update(g as int, own));
    } else {
        let mut indices: Vec<usize> = Vec::new();
        indices.push(index);
        let added = ItemBatch { vault: op::copy_vault(vault), indices };
        assert(added.deep_view().indices =~= seq![index as int]);
        let ghost own = added.deep_view();
        groups.push(added);
        assert(groups.deep_view() =~= all.push(own));
    }
}

/// Pieces of a group with at most a hundred entries each.
pub open spec fn chunks(vault: op::VaultView, indices: Seq<int>) -> Seq<BatchView>
    decreases indices.len(),
{
    if indices.len() == 0 {
        Seq::empty()
    } else if indices.len() <= 100 {
        seq![BatchView { vault, indices }]
    } else {
        seq![BatchView { vault, indices: indices.subrange(0, 100) }] + chunks(
            vault,
            indices.subrange(100, indices.len() as int),
        )
    }
}

/// The pieces of all groups.
pub open spec fn all_chunks(groups: Seq<BatchView>) -> Seq<BatchView>
    decreases groups.len(),
{
    if groups.len() == 0 {
        Seq::empty()
    } else {
        all_chunks(groups.drop_last()) + chunks(groups.last().vault, groups.last().indices)
    }
}

/// A piece of a list of positions.
fn copy_range(indices: &Vec<usize>, from: usize, to: usize) -> (r: Vec<usize>)
    requires
        from <= to <= indices@.len(),
    ensures
        r@ == indices@.subrange(from as int, to as int),
{
    let mut r: Vec<usize> = Vec::new();
    let mut k: usize = from;
    while k < to
        invariant
            from <= k <= to <= indices@.len(),
            r@ == indices@.subrange(from as int, k as int),
        decreases to - k,
    {
        r.push(indices[k]);
        k += 1;
        assert(r@ =~= indices@.subrange(from as int, k as int));
    }
    r
}

/// Appends the pieces of a group.
fn push_chunks(batches: &mut Vec<ItemBatch>, group: &ItemBatch)
    ensures
        final(batches).deep_view() == old(batches).deep_view() + chunks(
            group.vault.deep_view(),
            group.deep_view().indices,
        ),
{
    let ghost start = batches.deep_view();
    let ghost vault = group.vault.deep_view();
    let ghost all = group.deep_view().indices;
    let n = group.indices.len();
    let mut from: usize = 0;
    assert(all.subrange(0, all.len() as int) =~= all);
    assert(start + chunks(vault, all) =~= batches.deep_view() + chunks(
        vault,
        all.subrange(0, all.len() as int),
    ));
    while from < n
        invariant
            from <= n == group.indices@.len(),
            all == crate::resolver::positions(group.indices@),
            vault == group.vault.deep_view(),
            start + chunks(vault, all) == batches.deep_view() + chunks(
                vault,
                all.subrange(from as int, all.len() as int),
            ),
        decreases n - from,
    {
        let ghost before = batches.deep_view();
        let ghost rest = all.subrange(from as int, all.len() as int);
        let to = if n - from > 100 {
            from + 100
        } else {
            n
        };
        let indices = copy_range(&group.indices, from, to);
        let batch = ItemBatch { vault: op::copy_vault(&group.vault), indices };
        let ghost own = batch.deep_view();
        batches.push(batch);
        assert(batches.deep_view() =~= before.push(own));
        proof {
            assert(own.indices =~= all.subrange(from as int, to as int));
            let after = all.subrange(to as int, all.len() as int);
            if n - from > 100 {
                assert(rest.subrange(0, 100) =~= own.indices);
                assert(rest.subrange(100, rest.len() as int) =~= after);
                assert(chunks(vault, rest) == seq![own] + chunks(vault, after));
            } else {
                assert(rest =~= own.indices);
                assert(after =~= Seq::<int>::empty());
                assert(chunks(vault, after) =~= Seq::<BatchView>::empty());
                assert(chunks(vault, rest) == seq![own]);
            }
            assert(before + chunks(vault, rest) =~= batches.deep_view() + chunks(vault, after));
        }
        from = to;
    }
    assert(all.subrange(n as int, all.len() as int) =~= Seq::<int>::empty());
    assert(batches.deep_view() + Seq::<BatchView>::empty() =~= batches.deep_view());
}

/// The requests for the selected entries: by vault, at most a hundred in each.
pub fn plan_item_batches(selected: &Vec<ItemListEntry>) -> (r: Result<Vec<ItemBatch>, Failure>)
    ensures
        told_batches(r) == (match grouped(selected.deep_view(), selected@.len() as int) {
            Ok(groups) => Ok(all_chunks(groups)),
            Err(e) => Err(e),
        }),
{
    let groups = match group_by_vault(selected) {
        Ok(groups) => groups,
        Err(e) => return Err(e),
    };
    let ghost all = groups.deep_view();
    let mut batches: Vec<ItemBatch> = Vec::new();
    let mut i: usize = 0;
    assert(batches.deep_view() =~= Seq::<BatchView>::empty());
    while i < groups.len()
        invariant
            i <= groups@.len(),
            all == groups.deep_view(),
            batches.deep_view() == all_chunks(all.take(i as int)),
        decreases groups@.len() - i,
    {
        proof {
            assert(all.take(i + 1).drop_last() == all.take(i as int));
            assert(all[i as int] == groups@[i as int].deep_view());
        }
        push_chunks(&mut batches, &groups[i]);
        i += 1;
    }
    Ok(batches)
}

/// Whether some batch asks for the entry.
pub open spec fn is_asked(batches: Seq<BatchView>, index: int) -> bool {
    exists|b: int| 0 <= b < batches.len() && (#[trigger] batches[b]).indices.contains(index)
}

/// The group of an entry's vault is found where it stands.
pub proof fn lemma_group_index(groups: Seq<BatchView>, vault: Seq<char>, from: int)
    requires
        0 <= from,
    ensures
        group_index(groups, vault, from) matches Some(g) ==> from <= g < groups.len()
            && groups[g].vault.id == vault,
    decreases groups.len() - from,
{
    if from < groups.len() && groups[from].vault.id != vault {
        lemma_group_index(groups, vault, from + 1);
    }
}

/// Grouping loses no entry.
proof fn lemma_grouped_asks(entries: Seq<op::EntryView>, n: int, index: int)
    requires
        0 <= index < n,
        grouped(entries, n) is Ok,
    ensures
        is_asked(grouped(entries, n)->Ok_0, index),
    decreases n,
{
    let before = grouped(entries, n - 1)->Ok_0;
    let vault = entries[n - 1].vault->0;
    let now = with_member(before, vault, n - 1);
    lemma_group_index(before, vault.id, 0);
    if index == n - 1 {
        match group_index(before, vault.id, 0) {
            Some(g) => {
                assert(now[g].indices[before[g].indices.len() as int] == index);
                assert(now[g].indices.contains(index));
            },
            None => {
                assert(now[before.len() as int].indices[0] == index);
                assert(now[before.len() as int].indices.contains(index));
            },
        }
    } else {
        lemma_grouped_asks(entries, n - 1, index);
        let b = choose|b: int| 0 <= b < before.len() && (#[trigger] before[b]).indices.contains(index);
        let k = choose|k: int| 0 <= k < before[b].indices.len() && before[b].indices[k] == index;
        match group_index(before, vault.id, 0) {
            Some(g) => {
                if g == b {
                    assert(now[b].indices[k] == index);
                } else {
                    assert(now[b] == before[b]);
                }
                assert(now[b].indices.contains(index));
            },
            None => {
                assert(now[b] == before[b]);
            },
        }
    }
}

/// Cutting a group into pieces loses no entry.
proof fn lemma_chunks_ask(vault: op::VaultView, indices: Seq<int>, k: int)
    requires
        0 <= k < indices.len(),
    ensures
        is_asked(chunks(vault, indices), indices[k]),
    decreases indices.len(),
{
    let all = chunks(vault, indices);
    if indices.len() <= 100 {
        assert(all[0].indices[k] == indices[k]);
        assert(all[0].indices.contains(indices[k]));
    } else if k < 100 {
        assert(all[0].indices[k] == indices[k]);
        assert(all[0].indices.contains(indices[k]));
    } else {
        let rest = indices.subrange(100, indices.len() as int);
        assert(rest[k - 100] == indices[k]);
        lemma_chunks_ask(vault, rest, k - 100);
        let tail = chunks(vault, rest);
        let b = choose|b: int| 0 <= b < tail.len() && (#[trigger] tail[b]).indices.contains(indices[k]);
        assert(all[b + 1] == tail[b]);
    }
}

/// Cutting all groups into pieces loses no entry.
proof fn lemma_all_chunks_ask(groups: Seq<BatchView>, index: int)
    requires
        is_asked(groups, index),
    ensures
        is_asked(all_chunks(groups), index),
    decreases groups.len(),
{
    let b = choose|b: int| 0 <= b < groups.len() && (#[trigger] groups[b]).indices.contains(index);
    let front = groups.drop_last();
    let head = all_chunks(front);
    let tail = chunks(groups.last().vault, groups.last().indices);
    let all = all_chunks(groups);
    if b < front.len() {
        assert(front[b] == groups[b]);
        lemma_all_chunks_ask(front, index);
        let c = choose|c: int| 0 <= c < head.len() && (#[trigger] head[c]).indices.contains(index);
        assert(all[c] == head[c]);
    } else {
        let k = choose|k: int| 0 <= k < groups[b].indices.len() && groups[b].indices[k] == index;
        lemma_chunks_ask(groups.last().vault, groups.last().indices, k);
        let c = choose|c: int| 0 <= c < tail.len() && (#[trigger] tail[c]).indices.contains(index);
        assert(all[head.len() + c] == tail[c]);
    }
}

/// Pieces have at most a hundred entries.
proof fn lemma_chunks_small(vault: op::VaultView, indices: Seq<int>, b: int)
    requires
        0 <= b < chunks(vault, indices).len(),
    ensures
        1 <= chunks(vault, indices)[b].indices.len() <= 100,
    decreases indices.len(),
{
    if indices.len() > 100 && b > 0 {
        let rest = indices.subrange(100, indices.len() as int);
        lemma_chunks_small(vault, rest, b - 1);
        assert(chunks(vault, indices)[b] == chunks(vault, rest)[b - 1]);
    }
}

/// The pieces of all groups have at most a hundred entries.
proof fn lemma_all_chunks_small(groups: Seq<BatchView>, b: int)
    requires
        0 <= b < all_chunks(groups).len(),
    ensures
        1 <= all_chunks(groups)[b].indices.len() <= 100,
    decreases groups.len(),
{
    let head = all_chunks(groups.drop_last());
    let tail = chunks(groups.last().vault, groups.last().indices);
    if b < head.len() {
        lemma_all_chunks_small(groups.drop_last(), b);
    } else {
        lemma_chunks_small(groups.last().vault, groups.last().indices, b - head.len());
        assert(all_chunks(groups)[b] == tail[b - head.len()]);
    }
}

/// The planned requests ask for every selected entry, and each for at least one and at most a
/// hundred.
pub proof fn law_batches_ask_for_all(entries: Seq<op::EntryView>, index: int, b: int)
    requires
        grouped(entries, entries.len() as int) is Ok,
    ensures
        ({
            let batches = all_chunks(grouped(entries, entries.len() as int)->Ok_0);
            &&& 0 <= index < entries.len() ==> is_asked(batches, index)
            &&& 0 <= b < batches.len() ==> 1 <= batches[b].indices.len() <= 100
        }),
{
    let groups = grouped(entries, entries.len() as int)->Ok_0;
    if 0 <= index < entries.len() {
        lemma_grouped_asks(entries, entries.len() as int, index);
        lemma_all_chunks_ask(groups, index);
    }
    if 0 <= b < all_chunks(groups).len() {
        lemma_all_chunks_small(groups, b);
    }
}

/// The parameters of a request for the items of a vault.
pub fn build_batch_parameters(vault_id: &str, item_ids: &[String]) -> (r: Json)
    ensures
        r@ == JsonView::object().with("vault_id"@, JsonView::Text(vault_id@)).with(
            "item_ids"@,
            JsonView::Array(text_values(seqs::texts(item_ids@))),
        ),
{
    Json::object().with("vault_id", Json::text(vault_id)).with("item_ids", text_array(item_ids))
}

/// Texts as JSON strings.
pub open spec fn text_values(s: Seq<Seq<char>>) -> Seq<JsonView> {
    Seq::new(s.len(), |i: int| JsonView::Text(s[i]))
}

/// Texts as a JSON list.
pub fn text_array(items: &[String]) -> (r: Json)
    ensures
        r@ == JsonView::Array(text_values(seqs::texts(items@))),
{
    broadcast use json::lemma_json_view;

    let ghost all = seqs::texts(items@);
    let mut list: Vec<Json> = Vec::new();
    let mut i: usize = 0;
    while i < items.len()
        invariant
            i <= items@.len(),
            all == seqs::texts(items@),
            list@.len() == i,
            forall|j: int| 0 <= j < i ==> (#[trigger] list@[j])@ == JsonView::Text(all[j]),
        decreases items@.len() - i,
    {
        let value = Json::text(&items[i]);
        list.push(value);
        i += 1;
    }
    assert(json::jsons(list@) =~= text_values(all));
    Json::Array(list)
}

/// The answers of a batch, where there are as many as were asked for.
pub open spec fn batch_answers(response: JsonView, asked: nat) -> Result<
    Seq<JsonView>,
    Seq<Seq<char>>,
> {
    match json::items_field(response, "individualResponses"@) {
        None => Err(seq!["desktop SDK item batch response was malformed"@]),
        Some(answers) => if answers.len() != asked {
            Err(seq!["desktop SDK item batch response was incomplete"@])
        } else {
            seqs::collected(answers, content_reader())
        },
    }
}

/// The content of one answer.
pub open spec fn content_reader() -> spec_fn(JsonView) -> Result<JsonView, Seq<Seq<char>>> {
    |j: JsonView|
        match json::field(j, "content"@) {
            Some(content) => Ok(content),
            None => Err(seq!["desktop SDK item batch contained an error"@]),
        }
}

/// What items came to.
pub open spec fn told_items(r: Result<Vec<ItemGet>, Failure>) -> Result<
    Seq<op::ItemView>,
    Seq<Seq<char>>,
> {
    match r {
        Ok(v) => Ok(v.deep_view()),
        Err(e) => Err(e@),
    }
}

/// The items of a batch.
pub open spec fn batch_items(response: JsonView, vault: op::VaultView, asked: nat) -> Result<
    Seq<op::ItemView>,
    Seq<Seq<char>>,
> {
    match batch_answers(response, asked) {
        Ok(contents) => Ok(Seq::new(contents.len(), |i: int| item_from(contents[i], vault))),
        Err(e) => Err(e),
    }
}

/// A batch has as many items as were asked for.
pub proof fn lemma_batch_items(response: JsonView, vault: op::VaultView, asked: nat)
    ensures
        batch_items(response, vault, asked) matches Ok(items) ==> items.len() == asked,
{
    if let Some(answers) = json::items_field(response, "individualResponses"@) {
        if answers.len() == asked && asked > 0 && seqs::collected(answers, content_reader()) is Ok {
            seqs::lemma_collected_item(answers, content_reader(), 0);
        }
    }
}

/// The items of a batch, in the order in which they were asked for.
pub fn read_batch_items(response: &Json, vault: &ItemVault, asked: usize) -> (r: Result<
    Vec<ItemGet>,
    Failure,
>)
    ensures
        told_items(r) == batch_items(response@, vault.deep_view(), asked as nat),
        r matches Ok(items) ==> items@.len() == asked,
{
    let answers = match response.get_array("individualResponses") {
        Some(answers) => answers,
        None => return Err(failure::fail("desktop SDK item batch response was malformed")),
    };
    if answers.len() != asked {
        return Err(failure::fail("desktop SDK item batch response was incomplete"));
    }
    let ghost all = json::jsons(answers@);
    let ghost own = vault.deep_view();
    let ghost mut contents: Seq<JsonView> = Seq::empty();
    let mut items: Vec<ItemGet> = Vec::new();
    let mut i: usize = 0;
    assert(all.take(0) =~= Seq::<JsonView>::empty());
    while i < answers.len()
        invariant
            i <= answers@.len(),
            answers@.len() == asked,
            all == json::jsons(answers@),
            own == vault.deep_view(),
            json::items_field(response@, "individualResponses"@) == Some(all),
            seqs::collected(all.take(i as int), content_reader()) == Ok::<
                Seq<JsonView>,
                Seq<Seq<char>>,
            >(contents),
            contents.len() == i,
            items@.len() == i,
            forall|j: int| 0 <= j < i ==> (#[trigger] items@[j]).deep_view() == item_from(contents[j], own),
        decreases answers@.len() - i,
    {
        proof {
            seqs::lemma_collected(all, content_reader(), i as int);
            assert(all[i as int] == answers@[i as int]@);
        }
        match answers[i].get("content") {
            None => return Err(failure::fail("desktop SDK item batch contained an error")),
            Some(content) => {
                let item = sdk_item_get(content, vault);
                proof {
                    contents = contents.push(content@);
                }
                items.push(item);
            },
        }
        i += 1;
    }
    assert(items.deep_view() =~= Seq::new(contents.len(), |i: int| item_from(contents[i], own)));
    Ok(items)
}

/// The places of the selected entries after the answers of one batch were put in.
pub open spec fn placed(
    places: Seq<Option<ResolvedView>>,
    selected: Seq<op::EntryView>,
    batch: BatchView,
    items: Seq<op::ItemView>,
    n: int,
) -> Seq<Option<ResolvedView>>
    decreases n,
{
    if n <= 0 {
        places
    } else {
        let before = placed(places, selected, batch, items, n - 1);
        let at = batch.indices[n - 1];
        before.update(
            at,
            Some(
                ResolvedView {
                    item_id: selected[at].id,
                    vault_id: batch.vault.id,
                    title: selected[at].title,
                    item: items[n - 1],
                },
            ),
        )
    }
}

/// Puts the items of a batch in their places.
pub(crate) fn place_batch(
    places: &mut Vec<Option<ResolvedItem>>,
    selected: &Vec<ItemListEntry>,
    batch: &ItemBatch,
    items: Vec<ItemGet>,
)
    requires
        old(places)@.len() == selected@.len(),
        items@.len() == batch.indices@.len(),
        forall|i: int|
            0 <= i < batch.indices@.len() ==> (#[trigger] batch.indices@[i]) < selected@.len(),
    ensures
        final(places).deep_view() == placed(
            old(places).deep_view(),
            selected.deep_view(),
            batch.deep_view(),
            items.deep_view(),
            items@.len() as int,
        ),
        final(places)@.len() == old(places)@.len(),
{
    let ghost start = places.deep_view();
    let ghost all = selected.deep_view();
    let ghost own = batch.deep_view();
    let ghost got = items.deep_view();
    let mut rest = items;
    let n = rest.len();
    let mut reversed: Vec<ItemGet> = Vec::new();
    let mut k: usize = 0;
    while k < n
        invariant
            k <= n,
            n == got.len(),
            rest@.len() == n - k,
            reversed@.len() == k,
            forall|j: int| 0 <= j < n - k ==> (#[trigger] rest@[j]).deep_view() == got[j],
            forall|j: int| 0 <= j < k ==> (#[trigger] reversed@[j]).deep_view() == got[n - 1 - j],
        decreases n - k,
    {
        if let Some(item) = rest.pop() {
            reversed.push(item);
        }
        k += 1;
    }
    let mut i: usize = 0;
    while i < n
        invariant
            i <= n,
            n == got.len(),
            n == batch.indices@.len(),
            reversed@.len() == n - i,
            all == selected.deep_view(),
            own == batch.deep_view(),
            places@.len() == selected@.len(),
            places@.len() == old(places)@.len(),
            forall|j: int|
                0 <= j < batch.indices@.len() ==> (#[trigger] batch.indices@[j]) < selected@.len(),
            forall|j: int|
                0 <= j < n - i ==> (#[trigger] reversed@[j]).deep_view() == got[n - 1 - j],
            places.deep_view() == placed(start, all, own, got, i as int),
        decreases n - i,
    {
        let ghost before = places.deep_view();
        let at = batch.indices[i];
        assert(own.indices[i as int] == at);
        assert(all[at as int] == selected@[at as int].deep_view());
        if let Some(item) = reversed.pop() {
            assert(item.deep_view() == got[i as int]);
            let one = ResolvedItem {
                item_id: selected[at].id.clone(),
                vault_id: batch.vault.id.clone(),
                title: selected[at].title.clone(),
                item,
            };
            let ghost now = Some(one.deep_view());
            places.set(at, Some(one));
            assert(places@[at as int].deep_view() == now);
            assert(places.deep_view() =~= before.update(at as int, now));
        }
        i += 1;
    }
}

/// The items of all places, where every place has one.
pub open spec fn place_reader() -> spec_fn(Option<ResolvedView>) -> Result<
    ResolvedView,
    Seq<Seq<char>>,
> {
    |place: Option<ResolvedView>|
        match place {
            Some(item) => Ok(item),
            None => Err(seq!["desktop SDK item batch was incomplete"@]),
        }
}

/// What resolved items came to.
pub open spec fn told_resolved(r: Result<Vec<ResolvedItem>, Failure>) -> Result<
    Seq<ResolvedView>,
    Seq<Seq<char>>,
> {
    match r {
        Ok(v) => Ok(v.deep_view()),
        Err(e) => Err(e@),
    }
}

/// The items of all places, where every place has one.
pub fn finish_batches(places: Vec<Option<ResolvedItem>>) -> (r: Result<Vec<ResolvedItem>, Failure>)
    ensures
        told_resolved(r) == seqs::collected(places.deep_view(), place_reader()),
{
    let ghost all = places.deep_view();
    let n = places.len();
    let mut k: usize = 0;
    assert(all.take(0) =~= Seq::<Option<ResolvedView>>::empty());
    while k < n
        invariant
            k <= n == places@.len(),
            all == places.deep_view(),
            forall|j: int| 0 <= j < k ==> (#[trigger] places@[j]) is Some,
            seqs::collected(all.take(k as int), place_reader()) is Ok,
        decreases n - k,
    {
        proof {
            seqs::lemma_collected(all, place_reader(), k as int);
            assert(all[k as int] == places@[k as int].deep_view());
        }
        if places[k].is_none() {
            return Err(failure::fail("desktop SDK item batch was incomplete"));
        }
        k += 1;
    }
    let mut rest = places;
    let mut reversed: Vec<ResolvedItem> = Vec::new();
    let mut i: usize = 0;
    while i < n
        invariant
            i <= n == all.len(),
            rest@.len() == n - i,
            reversed@.len() == i,
            forall|j: int| 0 <= j < all.len() ==> (#[trigger] all[j]) is Some,
            forall|j: int| 0 <= j < n - i ==> (#[trigger] rest@[j]).deep_view() == all[j],
            forall|j: int| 0 <= j < i ==> Some((#[trigger] reversed@[j]).deep_view()) == all[n - 1 - j],
        decreases n - i,
    {
        assert(rest@[rest@.len() - 1].deep_view() == all[n - 1 - i]);
        if let Some(Some(item)) = rest.pop() {
            reversed.push(item);
        }
        i += 1;
    }
    let mut out: Vec<ResolvedItem> = Vec::new();
    let mut m: usize = 0;
    assert(out.deep_view() =~= Seq::<ResolvedView>::empty());
    while m < n
        invariant
            m <= n == all.len(),
            reversed@.len() == n - m,
            forall|j: int| 0 <= j < all.len() ==> (#[trigger] all[j]) is Some,
            forall|j: int|
                0 <= j < n - m ==> Some((#[trigger] reversed@[j]).deep_view()) == all[n - 1 - j],
            seqs::collected(all.take(m as int), place_reader()) == Ok::<
                Seq<ResolvedView>,
                Seq<Seq<char>>,
            >(out.deep_view()),
        decreases n - m,
    {
        let ghost before = out.deep_view();
        proof {
            seqs::lemma_collected(all, place_reader(), m as int);
            assert(all[m as int] is Some);
        }
        if let Some(item) = reversed.pop() {
            let ghost own = item.deep_view();
            out.push(item);
            assert(out.deep_view() =~= before.push(own));
        }
        m += 1;
    }
    Ok(out)
}

/// The identifiers of the overviews of items.
pub open spec fn overview_ids(items: Seq<JsonView>) -> Result<Seq<Seq<char>>, Seq<Seq<char>>> {
    seqs::collected(items, id_reader())
}

/// The identifier of an overview.
pub open spec fn id_reader() -> spec_fn(JsonView) -> Result<Seq<char>, Seq<Seq<char>>> {
    |j: JsonView|
        match json::text_field(j, "id"@) {
            Some(id) => Ok(id),
            None => Err(seq!["desktop SDK item overview omitted id"@]),
        }
}

/// The identifiers of the overviews of items.
pub fn read_overview_ids(items: &Vec<Json>) -> (r: Result<Vec<String>, Failure>)
    ensures
        failure::told_texts(r) == overview_ids(json::jsons(items@)),
{
    let ghost all = json::jsons(items@);
    let mut ids = seqs::no_texts();
    let mut i: usize = 0;
    assert(all.take(0) =~= Seq::<JsonView>::empty());
    while i < items.len()
        invariant
            i <= items@.len(),
            all == json::jsons(items@),
            seqs::collected(all.take(i as int), id_reader()) == Ok::<
                Seq<Seq<char>>,
                Seq<Seq<char>>,
            >(seqs::texts(ids@)),
        decreases items@.len() - i,
    {
        proof {
            seqs::lemma_collected(all, id_reader(), i as int);
            assert(all[i as int] == items@[i as int]@);
        }
        match items[i].get_str("id") {
            Some(id) => seqs::push_text(&mut ids, id),
            None => return Err(failure::fail("desktop SDK item overview omitted id")),
        }
        i += 1;
    }
    Ok(ids)
}

/// The index entries for items: those that belong to repositories.
pub open spec fn index_entries(items: Seq<op::ItemView>) -> Seq<RepositoriesView>
    decreases items.len(),
{
    if items.len() == 0 {
        Seq::empty()
    } else {
        let before = index_entries(items.drop_last());
        let repositories = op::item_repos(items.last());
        if repositories.len() == 0 {
            before
        } else {
            before.push(
                RepositoriesView {
                    item_title: match items.last().title {
                        Some(title) => title,
                        None => Seq::empty(),
                    },
                    repositories,
                },
            )
        }
    }
}

/// The index entries for items: those that belong to repositories.
pub fn index_repositories(items: &Vec<ItemGet>) -> (r: Vec<ItemGithubRepositories>)
    ensures
        r.deep_view() == index_entries(items.deep_view()),
{
    let ghost all = items.deep_view();
    let mut index: Vec<ItemGithubRepositories> = Vec::new();
    let mut i: usize = 0;
    assert(index.deep_view() =~= Seq::<RepositoriesView>::empty());
    while i < items.len()
        invariant
            i <= items@.len(),
            all == items.deep_view(),
            index.deep_view() == index_entries(all.take(i as int)),
        decreases items@.len() - i,
    {
        let ghost before = index.deep_view();
        proof {
            assert(all.take(i + 1).drop_last() == all.take(i as int));
            assert(all.take(i + 1).last() == items@[i as int].deep_view());
        }
        let repositories = op::item_github_repositories(&items[i]);
        assert(seqs::texts(repositories@).len() == repositories@.len());
        if repositories.len() > 0 {
            let item_title = match &items[i].title {
                Some(title) => title.clone(),
                None => String::new(),
            };
            let entry = ItemGithubRepositories { item_title, repositories };
            let ghost own = entry.deep_view();
            index.push(entry);
            assert(index.deep_view() =~= before.push(own));
        }
        i += 1;
    }
    index
}

} // verus!
