//! Finding an item by its title: which way is tried after which.

use vstd::prelude::*;

use crate::failure;
use crate::failure::Failure;
use crate::json::Json;
use crate::op;
use crate::op::{ItemGet, ItemListEntry, ItemVault};
use crate::resolver;
use crate::resolver::{EntryChoice, ResolvedItem, ResolvedView};
use crate::sdk;
use crate::seqs;

verus! {

broadcast use crate::seqs::group_seqs;

/// What to do next in a search: list the items, fetch one, or end.
pub enum FindTurn {
    /// List the items, to fetch the one with the exact title through the SDK.
    ListForSdk,
    /// Fetch an item through the SDK.
    SdkGet { entry: ItemListEntry, vault: ItemVault },
    /// Ask `op` for the item with the title.
    Direct,
    /// List the items, to look for one that fits.
    ListAll,
    /// Fetch an item that fits.
    GetItem { entry: ItemListEntry },
    /// The item is found.
    Found(ResolvedItem),
    /// Several items fit; some of them are shown.
    Ambiguous { candidates: Vec<String>, failure: Failure },
    /// The search failed.
    Failed(Failure),
}

/// The content of a `FindTurn`.
pub enum TurnView {
    ListForSdk,
    SdkGet { entry: op::EntryView, vault: op::VaultView },
    Direct,
    ListAll,
    GetItem { entry: op::EntryView },
    Found(ResolvedView),
    Ambiguous { candidates: Seq<Seq<char>>, chain: Seq<Seq<char>> },
    Failed(Seq<Seq<char>>),
}

impl DeepView for FindTurn {
    type V = TurnView;

    open spec fn deep_view(&self) -> TurnView {
        match self {
            FindTurn::ListForSdk => TurnView::ListForSdk,
            FindTurn::SdkGet { entry, vault } => TurnView::SdkGet {
                entry: entry.deep_view(),
                vault: vault.deep_view(),
            },
            FindTurn::Direct => TurnView::Direct,
            FindTurn::ListAll => TurnView::ListAll,
            FindTurn::GetItem { entry } => TurnView::GetItem { entry: entry.deep_view() },
            FindTurn::Found(item) => TurnView::Found(item.deep_view()),
            FindTurn::Ambiguous { candidates, failure } => TurnView::Ambiguous {
                candidates: seqs::texts(candidates@),
                chain: failure@,
            },
            FindTurn::Failed(failure) => TurnView::Failed(failure@),
        }
    }
}

/// The first step: through the SDK, where it is there.
pub fn start_find(sdk: bool) -> (r: FindTurn)
    ensures
        r.deep_view() == (if sdk {
            TurnView::ListForSdk
        } else {
            TurnView::Direct
        }),
{
    if sdk {
        FindTurn::ListForSdk
    } else {
        FindTurn::Direct
    }
}

/// Which item the SDK is asked for: the only one with exactly that title, if its vault is known.
pub open spec fn sdk_choice(entries: Seq<op::EntryView>, title: Seq<char>) -> TurnView {
    let found = resolver::title_matches(entries, title, false, entries.len() as int);
    if found.len() != 1 {
        TurnView::Direct
    } else {
        match entries[found[0]].vault {
            Some(vault) => TurnView::SdkGet { entry: entries[found[0]], vault },
            None => TurnView::Direct,
        }
    }
}

/// The step after the items were listed for the SDK. Where that does not lead on, `op` is asked.
pub fn after_sdk_list(outcome: Result<Vec<ItemListEntry>, Failure>, title: &str) -> (r: FindTurn)
    ensures
        r.deep_view() == (match outcome {
            Ok(entries) => sdk_choice(entries.deep_view(), title@),
            Err(_) => TurnView::Direct,
        }),
{
    let entries = match outcome {
        Ok(entries) => entries,
        Err(_) => return FindTurn::Direct,
    };
    let found = resolver::find_titles(&entries, title, false);
    assert(resolver::positions(found@).len() == found@.len());
    if found.len() != 1 {
        return FindTurn::Direct;
    }
    let at = found[0];
    assert(resolver::positions(found@)[0] == at);
    assert(entries.deep_view()[at as int] == entries@[at as int].deep_view());
    match &entries[at].vault {
        Some(vault) => FindTurn::SdkGet {
            entry: op::copy_entry(&entries[at]),
            vault: op::copy_vault(vault),
        },
        None => FindTurn::Direct,
    }
}

/// The step after the SDK was asked for an item. Where it failed, `op` is asked.
pub fn after_sdk_get(entry: ItemListEntry, vault: ItemVault, outcome: Result<Json, Failure>) -> (r:
    FindTurn)
    ensures
        r.deep_view() == (match outcome {
            Ok(value) => TurnView::Found(
                ResolvedView {
                    item_id: entry.id@,
                    vault_id: vault.id@,
                    title: entry.title@,
                    item: sdk::item_from(value@, vault.deep_view()),
                },
            ),
            Err(_) => TurnView::Direct,
        }),
{
    match outcome {
        Ok(value) => {
            let item = sdk::sdk_item_get(&value, &vault);
            FindTurn::Found(
                ResolvedItem { item_id: entry.id, vault_id: vault.id, title: entry.title, item },
            )
        },
        Err(_) => FindTurn::Direct,
    }
}

/// What a failure of the direct way leads to: where there is no such item, and the title need not
/// be exact, to a look at all items.
pub open spec fn after_miss(chain: Seq<Seq<char>>, exact: bool) -> TurnView {
    if resolver::is_miss(chain[0]) && !exact {
        TurnView::ListAll
    } else {
        TurnView::Failed(chain)
    }
}

/// What a failure of the direct way leads to.
fn judge_miss(failure: Failure, exact: bool) -> (r: FindTurn)
    ensures
        r.deep_view() == after_miss(failure@, exact),
{
    if resolver::is_op_lookup_miss(&failure) && !exact {
        FindTurn::ListAll
    } else {
        FindTurn::Failed(failure)
    }
}

/// What the answer of `op` leads to.
pub open spec fn direct(item: op::ItemView, title: Seq<char>, exact: bool) -> TurnView {
    match resolver::exact_item(item, title) {
        Ok((item_id, vault_id)) => TurnView::Found(
            ResolvedView { item_id, vault_id, title, item },
        ),
        Err(chain) => after_miss(chain, exact),
    }
}

/// The step after `op` was asked for the item with the title.
pub fn after_direct(outcome: Result<ItemGet, Failure>, title: &str, exact: bool) -> (r: FindTurn)
    ensures
        r.deep_view() == (match outcome {
            Ok(item) => direct(item.deep_view(), title@, exact),
            Err(failure) => after_miss(failure@, exact),
        }),
{
    match outcome {
        Ok(item) => match resolver::check_exact_item(&item, title) {
            Ok((item_id, vault_id)) => FindTurn::Found(
                ResolvedItem { item_id, vault_id, title: title.to_owned(), item },
            ),
            Err(failure) => judge_miss(failure, exact),
        },
        Err(failure) => judge_miss(failure, exact),
    }
}

/// Which of the listed items fits.
pub open spec fn list_choice(entries: Seq<op::EntryView>, title: Seq<char>) -> TurnView {
    let found = resolver::meant(entries, title);
    if found.len() == 0 {
        TurnView::Failed(seq!["No item matched title: "@ + title])
    } else if found.len() == 1 {
        TurnView::GetItem { entry: entries[found[0]] }
    } else {
        TurnView::Ambiguous {
            candidates: resolver::candidate_lines(entries, found),
            chain: seq![
                "Please be more specific or use `opz find <query>` and pass exact title."@,
            ],
        }
    }
}

/// The step after all items were listed.
pub fn after_list(outcome: Result<Vec<ItemListEntry>, Failure>, title: &str) -> (r: FindTurn)
    ensures
        r.deep_view() == (match outcome {
            Ok(entries) => list_choice(entries.deep_view(), title@),
            Err(failure) => TurnView::Failed(failure@),
        }),
{
    let entries = match outcome {
        Ok(entries) => entries,
        Err(failure) => return FindTurn::Failed(failure),
    };
    match resolver::choose_entry(&entries, title) {
        EntryChoice::Found(at) => {
            assert(entries.deep_view()[at as int] == entries@[at as int].deep_view());
            FindTurn::GetItem { entry: op::copy_entry(&entries[at]) }
        },
        EntryChoice::Missing(failure) => FindTurn::Failed(failure),
        EntryChoice::Ambiguous(candidates, failure) => FindTurn::Ambiguous { candidates, failure },
    }
}

/// What an item that was fetched leads to.
pub open spec fn fetched(entry: op::EntryView, item: op::ItemView) -> TurnView {
    let vault = if entry.vault is Some {
        entry.vault
    } else {
        item.vault
    };
    match vault {
        Some(vault) => TurnView::Found(
            ResolvedView { item_id: entry.id, vault_id: vault.id, title: entry.title, item },
        ),
        None => TurnView::Failed(seq!["Vault ID is required. Try specifying --vault."@]),
    }
}

/// The step after an item that fits was fetched.
pub fn after_get(entry: ItemListEntry, outcome: Result<ItemGet, Failure>) -> (r: FindTurn)
    ensures
        r.deep_view() == (match outcome {
            Ok(item) => fetched(entry.deep_view(), item.deep_view()),
            Err(failure) => TurnView::Failed(failure@),
        }),
{
    let item = match outcome {
        Ok(item) => item,
        Err(failure) => return FindTurn::Failed(failure),
    };
    match resolver::resolve_vault_id(entry.vault.as_ref(), item.vault.as_ref()) {
        Some(vault_id) => FindTurn::Found(
            ResolvedItem { item_id: entry.id, vault_id, title: entry.title, item },
        ),
        None => FindTurn::Failed(failure::fail("Vault ID is required. Try specifying --vault.")),
    }
}

/// The entries that fit exactly have the title.
proof fn lemma_title_matches(entries: Seq<op::EntryView>, title: Seq<char>, n: int)
    requires
        0 <= n <= entries.len(),
    ensures
        forall|k: int|
            0 <= k < resolver::title_matches(entries, title, false, n).len() ==> 0 <= (
            #[trigger] resolver::title_matches(entries, title, false, n)[k]) < n
                && entries[resolver::title_matches(entries, title, false, n)[k]].title == title,
    decreases n,
{
    if n > 0 {
        lemma_title_matches(entries, title, n - 1);
    }
}

/// Whatever the SDK, `op` and the list answer, a search by exact title ends in an item with that
/// very title or in a failure: it never asks for the list of all items.
pub proof fn law_exact_title(
    entries: Seq<op::EntryView>,
    item: op::ItemView,
    chain: Seq<Seq<char>>,
    title: Seq<char>,
)
    ensures
        sdk_choice(entries, title) is Direct || (sdk_choice(entries, title) matches TurnView::SdkGet {
            entry,
            vault: _,
        } && entry.title == title),
        direct(item, title, true) is Failed || (direct(item, title, true) matches TurnView::Found(found)
            && found.title == title),
        after_miss(chain, true) == TurnView::Failed(chain),
{
    lemma_title_matches(entries, title, entries.len() as int);
}

/// The vault of the listed item with that identifier, if it is known.
pub open spec fn vault_of(entries: Seq<op::EntryView>, item_id: Seq<char>, from: int) -> Option<
    op::VaultView,
>
    decreases entries.len() - from,
{
    if from < 0 || from >= entries.len() {
        None
    } else if entries[from].id == item_id {
        entries[from].vault
    } else {
        vault_of(entries, item_id, from + 1)
    }
}

/// The vault of the listed item with that identifier: without it the SDK is not asked.
pub fn find_vault(entries: &Vec<ItemListEntry>, item_id: &str) -> (r: Option<ItemVault>)
    ensures
        r.deep_view() == vault_of(entries.deep_view(), item_id@, 0),
{
    let ghost all = entries.deep_view();
    let mut i: usize = 0;
    while i < entries.len()
        invariant
            i <= entries@.len(),
            all == entries.deep_view(),
            vault_of(all, item_id@, 0) == vault_of(all, item_id@, i as int),
        decreases entries@.len() - i,
    {
        assert(all[i as int] == entries@[i as int].deep_view());
        if crate::text::same(&entries[i].id, item_id) {
            return match &entries[i].vault {
                Some(vault) => Some(op::copy_vault(vault)),
                None => None,
            };
        }
        i += 1;
    }
    None
}

} // verus!
