//! What holds of the answers of the desktop SDK, and of the batches in which items are asked for.

use vstd::prelude::*;
use vstd::string::*;

use crate::json;
use crate::json::JsonView;
use crate::op;
use crate::resolver;
use crate::resolver::RepositoriesView;
use crate::sdk;
use crate::sdk::BatchView;

verus! {

broadcast use crate::seqs::group_seqs;

/// Vaults are sought one by one, in the order of the list.
pub proof fn law_vaults_sought(a: Seq<op::VaultView>, b: Seq<op::VaultView>, name: Seq<char>)
    ensures
        sdk::vaults_named(a + b, name) == sdk::vaults_named(a, name) + sdk::vaults_named(b, name),
    decreases b.len(),
{
    if b.len() == 0 {
        assert(a + b =~= a);
        assert(sdk::vaults_named(a, name) + sdk::vaults_named(b, name)
            =~= sdk::vaults_named(a, name));
    } else {
        law_vaults_sought(a, b.drop_last(), name);
        assert((a + b).drop_last() =~= a + b.drop_last());
        assert((a + b).last() == b.last());
        assert(sdk::vaults_named(a + b, name)
            =~= sdk::vaults_named(a, name) + sdk::vaults_named(b, name));
    }
}

/// A vault is found by its identifier and by its name, and by nothing else.
pub proof fn law_vault_sought(vault: op::VaultView, name: Seq<char>)
    ensures
        sdk::vaults_named(seq![vault], name)
            == (if vault.id == name || vault.name == name { seq![vault] } else { Seq::empty() }),
{
    reveal_with_fuel(sdk::vaults_named, 2);
    assert(seq![vault].drop_last() =~= Seq::<op::VaultView>::empty());
    assert(sdk::vaults_named(seq![vault], name)
        =~= (if vault.id == name || vault.name == name { seq![vault] } else { Seq::empty() }));
}

/// The index is built item by item, in the order of the items.
pub proof fn law_index_built(a: Seq<op::ItemView>, b: Seq<op::ItemView>)
    ensures
        sdk::index_entries(a + b) == sdk::index_entries(a) + sdk::index_entries(b),
    decreases b.len(),
{
    if b.len() == 0 {
        assert(a + b =~= a);
        assert(sdk::index_entries(a) + sdk::index_entries(b) =~= sdk::index_entries(a));
    } else {
        law_index_built(a, b.drop_last());
        assert((a + b).drop_last() =~= a + b.drop_last());
        assert((a + b).last() == b.last());
        assert(sdk::index_entries(a + b) =~= sdk::index_entries(a) + sdk::index_entries(b));
    }
}

/// An item with repositories stands in the index under its title, with all its repositories; one
/// without any does not stand there.
pub proof fn law_index_entry(item: op::ItemView)
    ensures
        op::item_repos(item).len() == 0 ==> sdk::index_entries(seq![item]) == Seq::<
            RepositoriesView,
        >::empty(),
        op::item_repos(item).len() > 0 ==> ({
            let found = sdk::index_entries(seq![item]);
            &&& found.len() == 1
            &&& found[0].repositories == op::item_repos(item)
            &&& item.title matches Some(title) ==> found[0].item_title == title
            &&& item.title is None ==> found[0].item_title.len() == 0
        }),
{
    reveal_with_fuel(sdk::index_entries, 2);
    assert(seq![item].drop_last() =~= Seq::<op::ItemView>::empty());
    assert(seq![item].last() == item);
    assert(sdk::index_entries(seq![item].drop_last()) == Seq::<RepositoriesView>::empty());
}

/// A vault is read where the answer has an identifier and a title and neither is empty.
pub proof fn law_vault_read(j: JsonView)
    ensures
        sdk::vault_reader()(j) is Ok <==> (json::text_field(j, "id"@) matches Some(id) && id.len()
            > 0) && (json::text_field(j, "title"@) matches Some(title) && title.len() > 0),
        sdk::vault_reader()(j) matches Ok(vault) ==> json::text_field(j, "id"@) == Some(vault.id)
            && json::text_field(j, "title"@) == Some(vault.name),
        json::text_field(j, "id"@) is None ==> sdk::vault_reader()(j) == Err::<
            op::VaultView,
            Seq<Seq<char>>,
        >(seq!["desktop SDK vault response omitted id"@]),
{
}

/// An entry is read where the overview has an identifier that is not empty, and a title, which
/// may be; it keeps the vault it was listed from.
pub proof fn law_entry_read(j: JsonView, vault: op::VaultView)
    ensures
        sdk::entry_reader(vault)(j) is Ok <==> (json::text_field(j, "id"@) matches Some(id)
            && id.len() > 0) && json::text_field(j, "title"@) is Some,
        sdk::entry_reader(vault)(j) matches Ok(entry) ==> json::text_field(j, "id"@) == Some(
            entry.id,
        ) && json::text_field(j, "title"@) == Some(entry.title) && entry.vault == Some(vault),
{
}

/// An item keeps its identifier and its title and has a field for each of the answer, in their
/// order: with the label under `title`, or under `label` where there is no `title`, and with the
/// value as it stands.
pub proof fn law_item_read(j: JsonView, vault: op::VaultView, fields: Seq<JsonView>, i: int)
    requires
        json::items_field(j, "fields"@) == Some(fields),
        0 <= i < fields.len(),
    ensures
        ({
            let item = sdk::item_from(j, vault);
            &&& item.id == json::text_field(j, "id"@)
            &&& item.title == json::text_field(j, "title"@)
            &&& item.vault == Some(vault)
            &&& item.fields.len() == fields.len()
            &&& item.fields[i].value == json::field(fields[i], "value"@)
            &&& json::text_field(fields[i], "title"@) is Some ==> item.fields[i].label
                == json::text_field(fields[i], "title"@)
            &&& json::field(fields[i], "title"@) is None ==> item.fields[i].label
                == json::text_field(fields[i], "label"@)
        }),
{
}

/// Where one entry has the title and no other has it, that entry is the exact one.
pub proof fn law_exact_entry(entries: Seq<op::EntryView>, title: Seq<char>, i: int)
    requires
        0 <= i < entries.len(),
        entries[i].title == title,
        forall|j: int| 0 <= j < entries.len() && j != i ==> (#[trigger] entries[j]).title != title,
    ensures
        sdk::exact_entry(entries)(title) == Ok::<op::EntryView, Seq<Seq<char>>>(entries[i]),
{
    let found = resolver::title_matches(entries, title, false, entries.len() as int);
    resolver::law_title_matches(entries, title, false, i);
    let k = choose|k: int| 0 <= k < found.len() && found[k] == i;
    assert forall|j: int| 0 <= j < found.len() implies #[trigger] found[j] == i by {
        assert(found.contains(found[j]));
        resolver::law_title_matches(entries, title, false, found[j]);
    }
    if found.len() > 1 {
        assert(found[0] < found[1]);
    }
}

/// Where no entry has the title, and where two have it, there is no exact one, and the failures
/// name the title.
pub proof fn law_no_exact_entry(entries: Seq<op::EntryView>, title: Seq<char>, i: int, j: int)
    ensures
        (forall|k: int| 0 <= k < entries.len() ==> (#[trigger] entries[k]).title != title)
            ==> sdk::exact_entry(entries)(title) == Err::<op::EntryView, Seq<Seq<char>>>(
            seq!["desktop SDK batch lookup requires exact item title `"@ + title + "`"@],
        ),
        0 <= i < j < entries.len() && entries[i].title == title && entries[j].title == title
            ==> sdk::exact_entry(entries)(title) == Err::<op::EntryView, Seq<Seq<char>>>(
            seq!["desktop SDK found multiple exact items titled `"@ + title + "`"@],
        ),
{
    let found = resolver::title_matches(entries, title, false, entries.len() as int);
    if forall|k: int| 0 <= k < entries.len() ==> (#[trigger] entries[k]).title != title {
        if entries.len() == 0 {
            assert(found.len() == 0);
        } else {
            resolver::law_title_matches(entries, title, false, 0);
            if found.len() > 0 {
                assert(found.contains(found[0]));
                resolver::law_title_matches(entries, title, false, found[0]);
            }
        }
    }
    if 0 <= i < j < entries.len() && entries[i].title == title && entries[j].title == title {
        resolver::law_title_matches(entries, title, false, i);
        resolver::law_title_matches(entries, title, false, j);
        let a = choose|a: int| 0 <= a < found.len() && found[a] == i;
        let b = choose|b: int| 0 <= b < found.len() && found[b] == j;
        assert(a != b);
    }
}

/// A group of at most a hundred entries is asked for at once; a larger one goes a hundred at a
/// time, with the rest behind.
pub proof fn law_group_cut(vault: op::VaultView, first: Seq<int>, rest: Seq<int>)
    ensures
        0 < first.len() <= 100 ==> sdk::chunks(vault, first) == seq![
            BatchView { vault, indices: first },
        ],
        first.len() == 0 ==> sdk::chunks(vault, first) == Seq::<BatchView>::empty(),
        first.len() == 100 && rest.len() > 0 ==> sdk::chunks(vault, first + rest) == seq![
            BatchView { vault, indices: first },
        ] + sdk::chunks(vault, rest),
{
    let all = first + rest;
    if first.len() == 100 && rest.len() > 0 {
        assert(all.subrange(0, 100) =~= first);
        assert(all.subrange(100, all.len() as int) =~= rest);
    }
}

/// Groups are cut one by one, in their order.
pub proof fn law_groups_cut(a: Seq<BatchView>, b: Seq<BatchView>)
    ensures
        sdk::all_chunks(a + b) == sdk::all_chunks(a) + sdk::all_chunks(b),
    decreases b.len(),
{
    if b.len() == 0 {
        assert(a + b =~= a);
        assert(sdk::all_chunks(a) + sdk::all_chunks(b) =~= sdk::all_chunks(a));
    } else {
        law_groups_cut(a, b.drop_last());
        assert((a + b).drop_last() =~= a + b.drop_last());
        assert((a + b).last() == b.last());
        assert(sdk::all_chunks(a + b) =~= sdk::all_chunks(a) + sdk::all_chunks(b));
    }
}

/// The batches for one group are its pieces.
pub proof fn law_one_group_cut(group: BatchView)
    ensures
        sdk::all_chunks(seq![group]) == (sdk::chunks(group.vault, group.indices)),
{
    reveal_with_fuel(sdk::all_chunks, 2);
    assert(seq![group].drop_last() =~= Seq::<BatchView>::empty());
    assert(sdk::all_chunks(seq![group]) =~= (sdk::chunks(group.vault, group.indices)));
}

/// The first group of a vault is found.
proof fn lemma_first_group(groups: Seq<BatchView>, vault: Seq<char>, from: int, g: int)
    requires
        0 <= from <= g < groups.len(),
        groups[g].vault.id == vault,
        forall|k: int| from <= k < g ==> (#[trigger] groups[k]).vault.id != vault,
    ensures
        sdk::group_index(groups, vault, from) == Some(g),
    decreases g - from,
{
    if from < g {
        lemma_first_group(groups, vault, from + 1, g);
    }
}

/// An entry that is the first of its vault opens a group behind the others; the next one of the
/// same vault goes to the end of that group, and no other group changes.
pub proof fn law_member_added(groups: Seq<BatchView>, vault: op::VaultView, index: int, g: int)
    ensures
        (forall|k: int| 0 <= k < groups.len() ==> (#[trigger] groups[k]).vault.id != vault.id)
            ==> sdk::with_member(groups, vault, index) == groups + seq![
            BatchView { vault, indices: seq![index] },
        ],
        0 <= g < groups.len() && groups[g].vault.id == vault.id && (forall|k: int|
            0 <= k < g ==> (#[trigger] groups[k]).vault.id != vault.id) ==> ({
            let now = sdk::with_member(groups, vault, index);
            &&& now.len() == groups.len()
            &&& now[g].vault == groups[g].vault
            &&& now[g].indices == groups[g].indices + seq![index]
            &&& forall|k: int| 0 <= k < groups.len() && k != g ==> #[trigger] now[k] == groups[k]
        }),
{
    sdk::lemma_group_index(groups, vault.id, 0);
    if 0 <= g < groups.len() && groups[g].vault.id == vault.id && (forall|k: int|
        0 <= k < g ==> (#[trigger] groups[k]).vault.id != vault.id) {
        lemma_first_group(groups, vault.id, 0, g);
        assert(groups[g].indices.push(index) =~= groups[g].indices + seq![index]);
    }
    if forall|k: int| 0 <= k < groups.len() ==> (#[trigger] groups[k]).vault.id != vault.id {
        assert(sdk::with_member(groups, vault, index) =~= groups + seq![
            BatchView { vault, indices: seq![index] },
        ]);
    }
}

/// Each entry joins the group of its own vault, in order; one without a vault fails the whole.
pub proof fn law_grouped_step(entries: Seq<op::EntryView>, n: int)
    requires
        0 <= n < entries.len(),
        sdk::grouped(entries, n) is Ok,
    ensures
        entries[n].vault is None ==> sdk::grouped(entries, n + 1) == Err::<
            Seq<BatchView>,
            Seq<Seq<char>>,
        >(seq!["desktop SDK item overview omitted vault metadata"@]),
        entries[n].vault matches Some(vault) ==> sdk::grouped(entries, n + 1) == Ok::<
            Seq<BatchView>,
            Seq<Seq<char>>,
        >(sdk::with_member(sdk::grouped(entries, n)->Ok_0, vault, n)),
        sdk::grouped(entries, 0) == Ok::<Seq<BatchView>, Seq<Seq<char>>>(Seq::empty()),
{
}

/// The answers of a batch are the contents of the single answers, one for each that was asked
/// for, in their order.
pub proof fn law_batch_answers(response: JsonView, answers: Seq<JsonView>, asked: nat, i: int)
    requires
        json::items_field(response, "individualResponses"@) == Some(answers),
    ensures
        sdk::batch_answers(response, asked) is Ok <==> answers.len() == asked && (forall|k: int|
            0 <= k < answers.len() ==> json::field(#[trigger] answers[k], "content"@) is Some),
        answers.len() != asked ==> sdk::batch_answers(response, asked) == Err::<
            Seq<JsonView>,
            Seq<Seq<char>>,
        >(seq!["desktop SDK item batch response was incomplete"@]),
        sdk::batch_answers(response, asked) matches Ok(contents) ==> contents.len() == asked && (0
            <= i < asked ==> json::field(answers[i], "content"@) == Some(contents[i])),
{
    crate::seqs::law_collected(answers, sdk::content_reader());
    let read = sdk::content_reader();
    assert forall|k: int| 0 <= k < answers.len() implies (json::field(
        #[trigger] answers[k],
        "content"@,
    ) is Some <==> read(answers[k]) is Ok) by {}
}

/// Each answer of a batch goes to the place of the entry it was asked for, under the identifier
/// and the title of that entry and the vault of the batch; other places stay as they are.
pub proof fn law_answers_placed(
    places: Seq<Option<crate::resolver::ResolvedView>>,
    selected: Seq<op::EntryView>,
    batch: BatchView,
    items: Seq<op::ItemView>,
    n: int,
    i: int,
)
    requires
        0 <= n <= batch.indices.len(),
        n <= items.len(),
        forall|k: int|
            0 <= k < batch.indices.len() ==> 0 <= #[trigger] batch.indices[k] < places.len(),
        batch.indices.no_duplicates(),
    ensures
        sdk::placed(places, selected, batch, items, n).len() == places.len(),
        0 <= i < n ==> ({
            let at = batch.indices[i];
            let place = sdk::placed(places, selected, batch, items, n)[at];
            &&& place is Some
            &&& place->0.item == items[i]
            &&& place->0.item_id == selected[at].id
            &&& place->0.title == selected[at].title
            &&& place->0.vault_id == batch.vault.id
        }),
        0 <= i < places.len() && !batch.indices.contains(i) ==> sdk::placed(
            places,
            selected,
            batch,
            items,
            n,
        )[i] == places[i],
    decreases n,
{
    if n > 0 {
        law_answers_placed(places, selected, batch, items, n - 1, i);
        assert(batch.indices.contains(batch.indices[n - 1]));
    }
}

/// The identifiers of overviews are read one for each, in their order, and fail at one that has
/// none.
pub proof fn law_overview_ids(items: Seq<JsonView>, i: int)
    ensures
        sdk::overview_ids(items) is Ok <==> (forall|k: int|
            0 <= k < items.len() ==> json::text_field(#[trigger] items[k], "id"@) is Some),
        sdk::overview_ids(items) matches Ok(ids) ==> ids.len() == items.len() && (0 <= i
            < items.len() ==> json::text_field(items[i], "id"@) == Some(ids[i])),
{
    crate::seqs::law_collected(items, sdk::id_reader());
    let read = sdk::id_reader();
    assert forall|k: int| 0 <= k < items.len() implies (json::text_field(
        #[trigger] items[k],
        "id"@,
    ) is Some <==> read(items[k]) is Ok) by {}
}

} // verus!
