//! Several items at once from the SDK: the answers to the planned requests, put in order.

use vstd::prelude::*;

use crate::failure;
use crate::failure::Failure;
use crate::json;
use crate::json::{Json, JsonView};
use crate::op;
use crate::op::ItemListEntry;
use crate::resolver::{ResolvedItem, ResolvedView};
use crate::sdk;
use crate::sdk::{BatchView, ItemBatch};
use crate::seqs;

verus! {

broadcast use crate::seqs::group_seqs;

/// Whether a batch asks for entries that there are, each in the vault of the batch.
pub open spec fn is_valid(batch: BatchView, entries: Seq<op::EntryView>) -> bool {
    forall|k: int|
        0 <= k < batch.indices.len() ==> 0 <= (#[trigger] batch.indices[k]) < entries.len()
            && entries[batch.indices[k]].vault is Some && entries[batch.indices[k]].vault->0.id
            == batch.vault.id
}

/// Grouping puts every entry into the group of its vault.
proof fn lemma_grouped_valid(entries: Seq<op::EntryView>, n: int)
    requires
        0 <= n <= entries.len(),
        sdk::grouped(entries, n) is Ok,
    ensures
        forall|g: int|
            0 <= g < sdk::grouped(entries, n)->Ok_0.len() ==> is_valid(
                #[trigger] sdk::grouped(entries, n)->Ok_0[g],
                entries,
            ),
    decreases n,
{
    if n > 0 {
        lemma_grouped_valid(entries, n - 1);
        let before = sdk::grouped(entries, n - 1)->Ok_0;
        let vault = entries[n - 1].vault->0;
        sdk::lemma_group_index(before, vault.id, 0);
        let now = sdk::with_member(before, vault, n - 1);
        assert forall|g: int| 0 <= g < now.len() implies is_valid(#[trigger] now[g], entries) by {
            if g < before.len() {
                assert(is_valid(before[g], entries));
                assert forall|k: int| 0 <= k < now[g].indices.len() implies 0 <= (
                #[trigger] now[g].indices[k]) < entries.len() && entries[now[g].indices[k]].vault is Some
                    && entries[now[g].indices[k]].vault->0.id == now[g].vault.id by {
                    if k < before[g].indices.len() {
                        assert(now[g].indices[k] == before[g].indices[k]);
                    }
                }
            }
        }
    }
}

/// Cutting a group into pieces keeps the entries in their vault.
proof fn lemma_chunks_valid(group: BatchView, entries: Seq<op::EntryView>)
    requires
        is_valid(group, entries),
    ensures
        forall|b: int|
            0 <= b < sdk::chunks(group.vault, group.indices).len() ==> is_valid(
                #[trigger] sdk::chunks(group.vault, group.indices)[b],
                entries,
            ),
    decreases group.indices.len(),
{
    let all = sdk::chunks(group.vault, group.indices);
    if group.indices.len() > 100 {
        let first = BatchView { vault: group.vault, indices: group.indices.subrange(0, 100) };
        let rest = BatchView {
            vault: group.vault,
            indices: group.indices.subrange(100, group.indices.len() as int),
        };
        assert forall|k: int| 0 <= k < first.indices.len() implies 0 <= (
        #[trigger] first.indices[k]) < entries.len() && entries[first.indices[k]].vault is Some
            && entries[first.indices[k]].vault->0.id == first.vault.id by {
            assert(first.indices[k] == group.indices[k]);
        }
        assert forall|k: int| 0 <= k < rest.indices.len() implies 0 <= (
        #[trigger] rest.indices[k]) < entries.len() && entries[rest.indices[k]].vault is Some
            && entries[rest.indices[k]].vault->0.id == rest.vault.id by {
            assert(rest.indices[k] == group.indices[k + 100]);
        }
        lemma_chunks_valid(rest, entries);
        let tail = sdk::chunks(rest.vault, rest.indices);
        assert forall|b: int| 0 <= b < all.len() implies is_valid(#[trigger] all[b], entries) by {
            if b > 0 {
                assert(all[b] == tail[b - 1]);
            } else {
                assert(all[b] == first);
            }
        }
    }
}

/// The planned requests ask for entries that there are.
proof fn lemma_all_chunks_valid(groups: Seq<BatchView>, entries: Seq<op::EntryView>)
    requires
        forall|g: int| 0 <= g < groups.len() ==> is_valid(#[trigger] groups[g], entries),
    ensures
        forall|b: int|
            0 <= b < sdk::all_chunks(groups).len() ==> is_valid(
                #[trigger] sdk::all_chunks(groups)[b],
                entries,
            ),
    decreases groups.len(),
{
    if groups.len() > 0 {
        let front = groups.drop_last();
        assert forall|g: int| 0 <= g < front.len() implies is_valid(
            #[trigger] front[g],
            entries,
        ) by {
            assert(front[g] == groups[g]);
        }
        lemma_all_chunks_valid(front, entries);
        assert(groups.last() == groups[groups.len() - 1]);
        lemma_chunks_valid(groups.last(), entries);
        let head = sdk::all_chunks(front);
        let tail = sdk::chunks(groups.last().vault, groups.last().indices);
        let all = sdk::all_chunks(groups);
        assert forall|b: int| 0 <= b < all.len() implies is_valid(#[trigger] all[b], entries) by {
            if b < head.len() {
                assert(all[b] == head[b]);
            } else {
                assert(all[b] == tail[b - head.len()]);
            }
        }
    }
}

/// The places of the entries after the answers to the first `n` requests, or the first failure.
pub open spec fn after_batches(
    entries: Seq<op::EntryView>,
    batches: Seq<BatchView>,
    responses: Seq<JsonView>,
    n: int,
) -> Result<Seq<Option<ResolvedView>>, Seq<Seq<char>>>
    decreases n,
{
    if n <= 0 {
        Ok(Seq::new(entries.len(), |i: int| None))
    } else {
        match after_batches(entries, batches, responses, n - 1) {
            Err(e) => Err(e),
            Ok(places) => match sdk::batch_items(
                responses[n - 1],
                batches[n - 1].vault,
                batches[n - 1].indices.len(),
            ) {
                Err(e) => Err(e),
                Ok(items) => Ok(
                    sdk::placed(places, entries, batches[n - 1], items, items.len() as int),
                ),
            },
        }
    }
}

/// A failure stays.
proof fn lemma_after_batches_stops(
    entries: Seq<op::EntryView>,
    batches: Seq<BatchView>,
    responses: Seq<JsonView>,
    n: int,
    m: int,
)
    requires
        0 <= n <= m,
        after_batches(entries, batches, responses, n) is Err,
    ensures
        after_batches(entries, batches, responses, m) == after_batches(
            entries,
            batches,
            responses,
            n,
        ),
    decreases m,
{
    if n < m {
        lemma_after_batches_stops(entries, batches, responses, n, m - 1);
    }
}

/// The items of the entries, made of the answers to the planned requests.
pub open spec fn assembled(entries: Seq<op::EntryView>, responses: Seq<JsonView>) -> Result<
    Seq<ResolvedView>,
    Seq<Seq<char>>,
> {
    match sdk::grouped(entries, entries.len() as int) {
        Err(e) => Err(e),
        Ok(groups) => {
            let batches = sdk::all_chunks(groups);
            if responses.len() != batches.len() {
                Err(seq!["desktop SDK item batch was incomplete"@])
            } else {
                match after_batches(entries, batches, responses, batches.len() as int) {
                    Err(e) => Err(e),
                    Ok(places) => seqs::collected(places, sdk::place_reader()),
                }
            }
        },
    }
}

/// Whether what stands in a place belongs to its entry.
pub open spec fn belongs(place: Option<ResolvedView>, entry: op::EntryView) -> bool {
    place matches Some(item) ==> item.item_id == entry.id && item.title == entry.title
        && entry.vault is Some && item.vault_id == entry.vault->0.id
}

/// Answers are put in the places of the entries they were asked for, and no place is emptied.
proof fn lemma_placed(
    places: Seq<Option<ResolvedView>>,
    entries: Seq<op::EntryView>,
    batch: BatchView,
    items: Seq<op::ItemView>,
    n: int,
)
    requires
        0 <= n <= items.len(),
        items.len() == batch.indices.len(),
        places.len() == entries.len(),
        is_valid(batch, entries),
        forall|i: int| 0 <= i < places.len() ==> belongs(#[trigger] places[i], entries[i]),
    ensures
        sdk::placed(places, entries, batch, items, n).len() == entries.len(),
        forall|i: int|
            0 <= i < entries.len() ==> belongs(
                #[trigger] sdk::placed(places, entries, batch, items, n)[i],
                entries[i],
            ),
        forall|i: int|
            0 <= i < entries.len() && (places[i] is Some || batch.indices.take(n).contains(i))
                ==> (#[trigger] sdk::placed(places, entries, batch, items, n)[i]) is Some,
    decreases n,
{
    if n > 0 {
        lemma_placed(places, entries, batch, items, n - 1);
        let before = sdk::placed(places, entries, batch, items, n - 1);
        let now = sdk::placed(places, entries, batch, items, n);
        let at = batch.indices[n - 1];
        assert(0 <= at < entries.len());
        assert forall|i: int| 0 <= i < entries.len() implies belongs(
            #[trigger] now[i],
            entries[i],
        ) by {
            assert(belongs(before[i], entries[i]));
        }
        assert forall|i: int|
            0 <= i < entries.len() && (places[i] is Some || batch.indices.take(n).contains(i)) implies (
        #[trigger] now[i]) is Some by {
            if i != at {
                assert(now[i] == before[i]);
                if !(places[i] is Some) {
                    let k = choose|k: int| 0 <= k < n && batch.indices.take(n)[k] == i;
                    assert(batch.indices.take(n - 1)[k] == i);
                }
            }
        }
    }
}

/// The answers to the first requests stand in the places of their entries.
proof fn lemma_after_batches(
    entries: Seq<op::EntryView>,
    batches: Seq<BatchView>,
    responses: Seq<JsonView>,
    n: int,
)
    requires
        0 <= n <= batches.len(),
        forall|b: int| 0 <= b < batches.len() ==> is_valid(#[trigger] batches[b], entries),
        after_batches(entries, batches, responses, n) is Ok,
    ensures
        ({
            let places = after_batches(entries, batches, responses, n)->Ok_0;
            &&& places.len() == entries.len()
            &&& forall|i: int| 0 <= i < places.len() ==> belongs(#[trigger] places[i], entries[i])
            &&& forall|i: int|
                0 <= i < entries.len() && sdk::is_asked(batches.take(n), i) ==> (
                #[trigger] places[i]) is Some
        }),
    decreases n,
{
    if n > 0 {
        lemma_after_batches(entries, batches, responses, n - 1);
        let before = after_batches(entries, batches, responses, n - 1)->Ok_0;
        let batch = batches[n - 1];
        let items = sdk::batch_items(responses[n - 1], batch.vault, batch.indices.len())->Ok_0;
        sdk::lemma_batch_items(responses[n - 1], batch.vault, batch.indices.len());
        lemma_placed(before, entries, batch, items, items.len() as int);
        let places = after_batches(entries, batches, responses, n)->Ok_0;
        assert(batch.indices.take(items.len() as int) =~= batch.indices);
        assert forall|i: int|
            0 <= i < entries.len() && sdk::is_asked(batches.take(n), i) implies (
        #[trigger] places[i]) is Some by {
            let all = batches.take(n);
            let b = choose|b: int|
                0 <= b < all.len() && (#[trigger] all[b]).indices.contains(i);
            if b < n - 1 {
                assert(batches.take(n - 1)[b] == all[b]);
                assert(before[i] is Some);
            } else {
                assert(all[b] == batch);
            }
        }
    }
}

/// What comes out are the selected entries in their order: one item for each, with its identifier,
/// its title and its vault.
pub proof fn law_assembled_in_order(
    entries: Seq<op::EntryView>,
    responses: Seq<JsonView>,
    i: int,
)
    requires
        assembled(entries, responses) is Ok,
        0 <= i < entries.len(),
    ensures
        assembled(entries, responses)->Ok_0.len() == entries.len(),
        assembled(entries, responses)->Ok_0[i].item_id == entries[i].id,
        assembled(entries, responses)->Ok_0[i].title == entries[i].title,
        entries[i].vault matches Some(vault)
            && assembled(entries, responses)->Ok_0[i].vault_id == vault.id,
{
    let groups = sdk::grouped(entries, entries.len() as int)->Ok_0;
    let batches = sdk::all_chunks(groups);
    lemma_grouped_valid(entries, entries.len() as int);
    lemma_all_chunks_valid(groups, entries);
    lemma_after_batches(entries, batches, responses, batches.len() as int);
    let places = after_batches(entries, batches, responses, batches.len() as int)->Ok_0;
    seqs::lemma_collected_item(places, sdk::place_reader(), i);
    assert(belongs(places[i], entries[i]));
}

/// Where every planned request was answered in full, no item is missing.
pub proof fn law_assembled_complete(entries: Seq<op::EntryView>, responses: Seq<JsonView>)
    requires
        sdk::grouped(entries, entries.len() as int) is Ok,
        responses.len() == sdk::all_chunks(
            sdk::grouped(entries, entries.len() as int)->Ok_0,
        ).len(),
        after_batches(
            entries,
            sdk::all_chunks(sdk::grouped(entries, entries.len() as int)->Ok_0),
            responses,
            responses.len() as int,
        ) is Ok,
    ensures
        assembled(entries, responses) is Ok,
{
    let groups = sdk::grouped(entries, entries.len() as int)->Ok_0;
    let batches = sdk::all_chunks(groups);
    lemma_grouped_valid(entries, entries.len() as int);
    lemma_all_chunks_valid(groups, entries);
    lemma_after_batches(entries, batches, responses, batches.len() as int);
    let places = after_batches(entries, batches, responses, batches.len() as int)->Ok_0;
    assert(batches.take(batches.len() as int) =~= batches);
    assert forall|i: int| 0 <= i < places.len() implies (sdk::place_reader())(
        #[trigger] places[i],
    ) is Ok by {
        sdk::law_batches_ask_for_all(entries, i, -1);
    }
    seqs::lemma_collected_ok(places, sdk::place_reader());
}

/// Places without items.
fn empty_places(n: usize) -> (r: Vec<Option<ResolvedItem>>)
    ensures
        r.deep_view() == Seq::new(n as nat, |i: int| None::<ResolvedView>),
        r@.len() == n,
{
    let mut r: Vec<Option<ResolvedItem>> = Vec::new();
    let mut i: usize = 0;
    while i < n
        invariant
            i <= n,
            r@.len() == i,
            forall|k: int| 0 <= k < i ==> (#[trigger] r@[k]) is None,
        decreases n - i,
    {
        r.push(None);
        i += 1;
    }
    assert(r.deep_view() =~= Seq::new(n as nat, |i: int| None::<ResolvedView>));
    r
}

/// The items of the selected entries, in their order, made of the answers to the planned requests.
pub fn assemble_items(selected: &Vec<ItemListEntry>, responses: &Vec<Json>) -> (r: Result<
    Vec<ResolvedItem>,
    Failure,
>)
    ensures
        sdk::told_resolved(r) == assembled(selected.deep_view(), json::jsons(responses@)),
{
    let batches = sdk::plan_item_batches(selected)?;
    let ghost entries = selected.deep_view();
    let ghost all = batches.deep_view();
    let ghost answers = json::jsons(responses@);
    proof {
        lemma_grouped_valid(entries, entries.len() as int);
        lemma_all_chunks_valid(sdk::grouped(entries, entries.len() as int)->Ok_0, entries);
        assert(all.len() == batches@.len());
    }
    if responses.len() != batches.len() {
        return Err(failure::fail("desktop SDK item batch was incomplete"));
    }
    let mut places = empty_places(selected.len());
    let mut i: usize = 0;
    while i < batches.len()
        invariant
            i <= batches@.len() == responses@.len(),
            entries == selected.deep_view(),
            all == batches.deep_view(),
            answers == json::jsons(responses@),
            sdk::grouped(entries, entries.len() as int) is Ok,
            all == sdk::all_chunks(sdk::grouped(entries, entries.len() as int)->Ok_0),
            places@.len() == selected@.len(),
            forall|b: int| 0 <= b < all.len() ==> is_valid(#[trigger] all[b], entries),
            after_batches(entries, all, answers, i as int) == Ok::<
                Seq<Option<ResolvedView>>,
                Seq<Seq<char>>,
            >(places.deep_view()),
        decreases batches@.len() - i,
    {
        let batch: &ItemBatch = &batches[i];
        proof {
            assert(all[i as int] == batch.deep_view());
            assert(answers[i as int] == responses@[i as int]@);
            assert(is_valid(all[i as int], entries));
            assert forall|k: int| 0 <= k < batch.indices@.len() implies (
            #[trigger] batch.indices@[k]) < selected@.len() by {
                assert(batch.deep_view().indices[k] == batch.indices@[k]);
            }
        }
        match sdk::read_batch_items(&responses[i], &batch.vault, batch.indices.len()) {
            Ok(items) => {
                sdk::place_batch(&mut places, selected, batch, items);
            },
            Err(e) => {
                proof {
                    lemma_after_batches_stops(entries, all, answers, i + 1, all.len() as int);
                }
                return Err(e);
            },
        }
        i += 1;
    }
    sdk::finish_batches(places)
}

} // verus!
