//! Which items belong to which repositories: the requests to the SDK and what comes of them.

use vstd::prelude::*;

use crate::failure;
use crate::failure::Failure;
use crate::json;
use crate::json::Json;
use crate::op;
use crate::op::{ItemGet, ItemVault};
use crate::resolver;
use crate::resolver::{ItemGithubRepositories, RepositoriesView};
use crate::sdk;
use crate::seqs;

verus! {

broadcast use crate::seqs::group_seqs;

/// The texts of lists of strings.
pub open spec fn lists(s: Seq<Vec<String>>) -> Seq<Seq<Seq<char>>> {
    Seq::new(s.len(), |i: int| seqs::texts(s[i]@))
}

/// Identifiers in groups of a hundred, the last group with what is left.
pub open spec fn id_groups(ids: Seq<Seq<char>>) -> Seq<Seq<Seq<char>>>
    decreases ids.len(),
{
    if ids.len() == 0 {
        Seq::empty()
    } else if ids.len() <= 100 {
        seq![ids]
    } else {
        seq![ids.take(100)] + id_groups(ids.skip(100))
    }
}

/// Every identifier is asked for once, in its order, and no request is empty or asks for more
/// than a hundred.
pub proof fn law_each_id_once(ids: Seq<Seq<char>>)
    ensures
        id_groups(ids).flatten() == ids,
        forall|g: int| 0 <= g < id_groups(ids).len() ==> 0 < (#[trigger] id_groups(ids)[g]).len() <= 100,
    decreases ids.len(),
{
    let groups = id_groups(ids);
    if ids.len() == 0 {
        assert(groups.flatten() =~= ids);
    } else if ids.len() <= 100 {
        assert(groups.drop_first() =~= Seq::<Seq<Seq<char>>>::empty());
        assert(groups.drop_first().flatten() =~= Seq::<Seq<char>>::empty());
        assert(groups.flatten() =~= ids + Seq::<Seq<char>>::empty());
        assert(groups.flatten() =~= ids);
    } else {
        let rest = ids.skip(100);
        law_each_id_once(rest);
        assert(groups.drop_first() =~= id_groups(rest));
        assert(groups.flatten() =~= ids.take(100) + rest);
        assert(ids.take(100) + rest =~= ids);
        assert forall|g: int| 0 <= g < groups.len() implies 0 < (#[trigger] groups[g]).len() <= 100 by {
            if g > 0 {
                assert(groups[g] == id_groups(rest)[g - 1]);
            }
        }
    }
}

/// Puts identifiers into groups of at most a hundred.
fn group_ids(ids: &[String]) -> (r: Vec<Vec<String>>)
    ensures
        lists(r@) == id_groups(seqs::texts(ids@)),
{
    let ghost all = seqs::texts(ids@);
    let n = ids.len();
    let mut r: Vec<Vec<String>> = Vec::new();
    let mut from: usize = 0;
    proof {
        assert(all.skip(0) =~= all);
        assert(lists(r@) + id_groups(all) =~= id_groups(all));
    }
    while from < n
        invariant
            from <= n == ids@.len(),
            all == seqs::texts(ids@),
            lists(r@) + id_groups(all.skip(from as int)) == id_groups(all),
        decreases n - from,
    {
        let ghost before = lists(r@);
        let ghost rest = all.skip(from as int);
        let to: usize = if n - from > 100 {
            from + 100
        } else {
            n
        };
        let group = seqs::copy_texts(vstd::slice::slice_subrange(ids, from, to));
        let ghost own = seqs::texts(group@);
        r.push(group);
        proof {
            let after = all.skip(to as int);
            assert(lists(r@) =~= before.push(own));
            assert(own =~= all.subrange(from as int, to as int));
            if n - from > 100 {
                assert(rest.take(100) =~= own);
                assert(rest.skip(100) =~= after);
            } else {
                assert(rest =~= own);
                assert(after =~= Seq::<Seq<char>>::empty());
            }
            assert(id_groups(rest) =~= seq![own] + id_groups(after));
            assert(before + id_groups(rest) =~= lists(r@) + id_groups(after));
        }
        from = to;
    }
    assert(all.skip(n as int) =~= Seq::<Seq<char>>::empty());
    assert(lists(r@) + Seq::<Seq<Seq<char>>>::empty() =~= lists(r@));
    r
}

/// What groups of identifiers came to.
pub open spec fn told_groups(r: Result<Vec<Vec<String>>, Failure>) -> Result<
    Seq<Seq<Seq<char>>>,
    Seq<Seq<char>>,
> {
    match r {
        Ok(v) => Ok(lists(v@)),
        Err(e) => Err(e@),
    }
}

/// The identifiers to ask for in each request, from the overviews of a vault's items.
pub fn plan_index(overviews: &Json) -> (r: Result<Vec<Vec<String>>, Failure>)
    ensures
        told_groups(r) == (match json::items_of(overviews@) {
            Some(items) => match sdk::overview_ids(items) {
                Ok(ids) => Ok(id_groups(ids)),
                Err(e) => Err(e),
            },
            None => Err(seq!["isolated Desktop SDK item list was not an array"@]),
        }),
{
    let items = match overviews.as_array() {
        Some(items) => items,
        None => return Err(failure::fail("isolated Desktop SDK item list was not an array")),
    };
    match sdk::read_overview_ids(items) {
        Ok(ids) => Ok(group_ids(&ids)),
        Err(e) => Err(e),
    }
}

/// What an index came to.
pub open spec fn told_index(r: Result<Vec<ItemGithubRepositories>, Failure>) -> Result<
    Seq<RepositoriesView>,
    Seq<Seq<char>>,
> {
    match r {
        Ok(v) => Ok(v.deep_view()),
        Err(e) => Err(e@),
    }
}

/// The index entries that the answer to one request gives.
pub fn read_index(response: &Json, vault: &ItemVault, asked: usize) -> (r: Result<
    Vec<ItemGithubRepositories>,
    Failure,
>)
    ensures
        told_index(r) == (match sdk::batch_items(response@, vault.deep_view(), asked as nat) {
            Ok(items) => Ok(sdk::index_entries(items)),
            Err(e) => Err(e),
        }),
{
    match sdk::read_batch_items(response, vault, asked) {
        Ok(items) => Ok(sdk::index_repositories(&items)),
        Err(e) => Err(e),
    }
}

/// Takes an item that was read under its listed title into the index, if it belongs to
/// repositories.
pub fn note_repositories(index: &mut Vec<ItemGithubRepositories>, title: &str, item: &ItemGet)
    ensures
        final(index).deep_view() == (if op::item_repos(item.deep_view()).len() == 0 {
            old(index).deep_view()
        } else {
            old(index).deep_view().push(
                RepositoriesView {
                    item_title: title@,
                    repositories: op::item_repos(item.deep_view()),
                },
            )
        }),
{
    let ghost before = index.deep_view();
    let repositories = op::item_github_repositories(item);
    assert(seqs::texts(repositories@).len() == repositories@.len());
    if repositories.len() > 0 {
        let entry = ItemGithubRepositories { item_title: title.to_owned(), repositories };
        let ghost own = entry.deep_view();
        index.push(entry);
        assert(index.deep_view() =~= before.push(own));
    }
}

/// Whether the items have to be searched by their repositories: no item has the title of one,
/// and the variable for it switches the search on.
pub fn needs_scan(found: &[String], value: Option<&str>) -> (r: bool)
    ensures
        r == (found@.len() == 0 && (value matches Some(v) && resolver::is_yes(v@))),
{
    found.len() == 0 && resolver::legacy_autodetect_scan_enabled(value)
}

/// The titles that a detection ends with.
pub open spec fn detected(
    found: Seq<Seq<char>>,
    scanned: Option<Seq<(Seq<char>, Seq<Seq<char>>)>>,
    repositories: Seq<Seq<char>>,
) -> Seq<Seq<char>> {
    seqs::deduped(
        match scanned {
            Some(candidates) => resolver::matching_titles(candidates, repositories),
            None => found,
        },
    )
}

/// The titles found for repositories: by title, or by a search through the candidates.
pub fn settle_detection(
    found: &[String],
    scanned: Option<&Vec<(String, Vec<String>)>>,
    repositories: &[String],
) -> (r: Vec<String>)
    ensures
        seqs::texts(r@) == detected(
            seqs::texts(found@),
            match scanned {
                Some(candidates) => Some(resolver::sections(candidates@)),
                None => None,
            },
            seqs::texts(repositories@),
        ),
{
    match scanned {
        Some(candidates) => seqs::dedupe_preserve_order(
            &resolver::match_item_titles_by_github_repositories(candidates, repositories),
        ),
        None => seqs::dedupe_preserve_order(found),
    }
}

} // verus!
