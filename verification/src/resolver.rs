//! From items to an environment: sections of lines, their merge, and the values behind them.

use vstd::prelude::*;
use vstd::string::*;

use crate::envfile;
use crate::failure;
use crate::failure::Failure;
use crate::json;
use crate::json::{Json, JsonView};
use crate::map::StringMap;
use crate::op;
use crate::op::{ItemGet, ItemListEntry, ItemVault};
use crate::security::SecretValue;
use crate::seqs;
use crate::text;

verus! {

broadcast use crate::seqs::group_seqs;

/// Sections with the views of their titles and lines.
pub open spec fn sections(s: Seq<(String, Vec<String>)>) -> Seq<(Seq<char>, Seq<Seq<char>>)> {
    Seq::new(s.len(), |i: int| (s[i].0@, seqs::texts(s[i].1@)))
}

/// An item that was looked up: its identifier, that of its vault, its title and its fields.
pub struct ResolvedItem {
    pub item_id: String,
    pub vault_id: String,
    pub title: String,
    pub item: ItemGet,
}

/// The content of a `ResolvedItem`.
pub struct ResolvedView {
    pub item_id: Seq<char>,
    pub vault_id: Seq<char>,
    pub title: Seq<char>,
    pub item: op::ItemView,
}

impl DeepView for ResolvedItem {
    type V = ResolvedView;

    open spec fn deep_view(&self) -> ResolvedView {
        ResolvedView {
            item_id: self.item_id@,
            vault_id: self.vault_id@,
            title: self.title@,
            item: self.item.deep_view(),
        }
    }
}

/// The section of an item: its title and the lines for its variables.
pub open spec fn env_section(r: ResolvedView) -> (Seq<char>, Seq<Seq<char>>) {
    (r.title, op::env_lines(r.item, r.vault_id, r.item_id))
}

/// The section of labels of an item: its title and the labels of its variables.
pub open spec fn label_section(r: ResolvedView) -> (Seq<char>, Seq<Seq<char>>) {
    (r.title, op::variable_labels(r.item.fields, false))
}

/// The sections of items.
pub fn collect_item_env_sections(resolved: &Vec<ResolvedItem>) -> (r: Vec<(String, Vec<String>)>)
    ensures
        sections(r@) == Seq::new(
            resolved@.len(),
            |i: int| env_section(resolved@[i].deep_view()),
        ),
{
    let mut r: Vec<(String, Vec<String>)> = Vec::new();
    let mut i: usize = 0;
    while i < resolved.len()
        invariant
            i <= resolved@.len(),
            r@.len() == i,
            forall|j: int|
                0 <= j < i ==> ((#[trigger] r@[j]).0@, seqs::texts(r@[j].1@)) == env_section(
                    resolved@[j].deep_view(),
                ),
        decreases resolved@.len() - i,
    {
        let one = &resolved[i];
        let lines = match op::item_to_env_lines(&one.item, &one.vault_id, &one.item_id) {
            Ok(lines) => lines,
            Err(_) => seqs::no_texts(),
        };
        r.push((one.title.clone(), lines));
        i += 1;
    }
    assert(sections(r@) =~= Seq::new(
        resolved@.len(),
        |i: int| env_section(resolved@[i].deep_view()),
    ));
    r
}

/// The sections of labels of items.
pub fn collect_item_label_sections(resolved: &Vec<ResolvedItem>) -> (r: Vec<(String, Vec<String>)>)
    ensures
        sections(r@) == Seq::new(
            resolved@.len(),
            |i: int| label_section(resolved@[i].deep_view()),
        ),
{
    let mut r: Vec<(String, Vec<String>)> = Vec::new();
    let mut i: usize = 0;
    while i < resolved.len()
        invariant
            i <= resolved@.len(),
            r@.len() == i,
            forall|j: int|
                0 <= j < i ==> ((#[trigger] r@[j]).0@, seqs::texts(r@[j].1@)) == label_section(
                    resolved@[j].deep_view(),
                ),
        decreases resolved@.len() - i,
    {
        let one = &resolved[i];
        let labels = match op::item_to_valid_labels(&one.item) {
            Ok(labels) => labels,
            Err(_) => seqs::no_texts(),
        };
        r.push((one.title.clone(), labels));
        i += 1;
    }
    assert(sections(r@) =~= Seq::new(
        resolved@.len(),
        |i: int| label_section(resolved@[i].deep_view()),
    ));
    r
}

/// The repositories that an item belongs to, with its title.
#[derive(Debug)]
pub struct ItemGithubRepositories {
    pub item_title: String,
    pub repositories: Vec<String>,
}

/// The content of an `ItemGithubRepositories`.
pub struct RepositoriesView {
    pub item_title: Seq<char>,
    pub repositories: Seq<Seq<char>>,
}

impl DeepView for ItemGithubRepositories {
    type V = RepositoriesView;

    open spec fn deep_view(&self) -> RepositoriesView {
        RepositoriesView {
            item_title: self.item_title@,
            repositories: seqs::texts(self.repositories@),
        }
    }
}

/// The repositories of items.
pub fn collect_item_repositories(resolved: &Vec<ResolvedItem>) -> (r: Vec<ItemGithubRepositories>)
    ensures
        r.deep_view() == Seq::new(
            resolved@.len(),
            |i: int|
                RepositoriesView {
                    item_title: resolved@[i].deep_view().title,
                    repositories: op::item_repos(resolved@[i].deep_view().item),
                },
        ),
{
    let mut r: Vec<ItemGithubRepositories> = Vec::new();
    let mut i: usize = 0;
    while i < resolved.len()
        invariant
            i <= resolved@.len(),
            r@.len() == i,
            forall|j: int|
                0 <= j < i ==> (#[trigger] r@[j]).deep_view() == (RepositoriesView {
                    item_title: resolved@[j].deep_view().title,
                    repositories: op::item_repos(resolved@[j].deep_view().item),
                }),
        decreases resolved@.len() - i,
    {
        let one = &resolved[i];
        r.push(
            ItemGithubRepositories {
                item_title: one.title.clone(),
                repositories: op::item_github_repositories(&one.item),
            },
        );
        i += 1;
    }
    assert(r.deep_view() =~= Seq::new(
        resolved@.len(),
        |i: int|
            RepositoriesView {
                item_title: resolved@[i].deep_view().title,
                repositories: op::item_repos(resolved@[i].deep_view().item),
            },
    ));
    r
}

/// The item that stands for the repositories of a working copy, where exactly one matched.
pub fn choose_detected_item(repositories: &[String], matches: &[String]) -> (r: Result<
    Vec<String>,
    Failure,
>)
    ensures
        failure::told_texts(r) == (if matches@.len() == 1 {
            Ok(seq![matches@[0]@])
        } else if matches@.len() == 0 {
            Err(
                seq![
                    "No 1Password item matched git remote repository title: "@ + text::joined(
                        seqs::texts(repositories@),
                        ", "@,
                    )
                        + ". Run `opz migrate`, `opz migrate --new`, or pass an item title explicitly."@,
                ],
            )
        } else {
            Err(
                seq![
                    "Multiple 1Password items matched git remote repository title ("@
                        + text::joined(seqs::texts(repositories@), ", "@) + "): "@ + text::joined(
                        seqs::texts(matches@),
                        ", "@,
                    ) + ". Pass an item title explicitly."@,
                ],
            )
        }),
{
    if matches.len() == 1 {
        let mut only = seqs::no_texts();
        seqs::push_text(&mut only, &matches[0]);
        assert(seqs::texts(only@) =~= seq![matches@[0]@]);
        return Ok(only);
    }
    let names = text::join(repositories, ", ");
    if matches.len() == 0 {
        return Err(
            Failure::new(
                "No 1Password item matched git remote repository title: ".to_owned().concat(
                    &names,
                ).concat(
                    ". Run `opz migrate`, `opz migrate --new`, or pass an item title explicitly.",
                ),
            ),
        );
    }
    Err(
        Failure::new(
            "Multiple 1Password items matched git remote repository title (".to_owned().concat(
                &names,
            ).concat("): ").concat(&text::join(matches, ", ")).concat(
                ". Pass an item title explicitly.",
            ),
        ),
    )
}

/// Whether a failure says that there is no such item.
pub open spec fn is_miss(message: Seq<char>) -> bool {
    ||| text::holds(message, "isn't an item"@)
    ||| text::holds(message, "is not an item"@)
    ||| text::holds(message, "No item matched"@)
    ||| text::holds(message, "No exact item matched"@)
    ||| text::holds(message, "not found"@)
}

/// Whether a failure says that there is no such item.
pub fn is_op_lookup_miss(err: &Failure) -> (r: bool)
    ensures
        err@.len() >= 1,
        r == is_miss(err@[0]),
{
    let message = err.to_string();
    text::contains(&message, "isn't an item") || text::contains(&message, "is not an item")
        || text::contains(&message, "No item matched") || text::contains(
        &message,
        "No exact item matched",
    ) || text::contains(&message, "not found")
}

/// Takes the outcome of one lookup into the titles found so far: a title is added, a miss is
/// passed over, and any other failure ends the search.
pub fn note_title_lookup(found: &mut Vec<String>, outcome: Result<String, Failure>) -> (r: Result<
    (),
    Failure,
>)
    ensures
        match outcome {
            Ok(title) => r is Ok && seqs::texts(final(found)@) == seqs::texts(old(found)@).push(
                title@,
            ),
            Err(e) => seqs::texts(final(found)@) == seqs::texts(old(found)@) && if is_miss(e@[0]) {
                r is Ok
            } else {
                r matches Err(f) && f@ == e@
            },
        },
{
    match outcome {
        Ok(title) => {
            seqs::push_string(found, title);
            Ok(())
        },
        Err(e) => if is_op_lookup_miss(&e) {
            Ok(())
        } else {
            Err(e)
        },
    }
}

/// Whether a value switches something on.
pub open spec fn is_yes(value: Seq<char>) -> bool {
    value == "1"@ || value == "true"@ || value == "TRUE"@ || value == "yes"@ || value == "YES"@
}

/// Whether the search through all items is switched on by the value of its variable.
pub fn legacy_autodetect_scan_enabled(value: Option<&str>) -> (r: bool)
    ensures
        r == (value matches Some(v) && is_yes(v@)),
{
    match value {
        Some(v) => text::same(v, "1") || text::same(v, "true") || text::same(v, "TRUE")
            || text::same(v, "yes") || text::same(v, "YES"),
        None => false,
    }
}

/// Whether a value switches something off.
pub open spec fn is_off(value: Seq<char>) -> bool {
    value == "0"@ || value == "false"@ || value == "FALSE"@ || value == "off"@ || value == "OFF"@
}

/// Whether the desktop SDK is used: not in a test scenario, and unless the value of its variable
/// switches it off.
pub fn desktop_sdk_enabled(test_scenario: bool, value: Option<&str>) -> (r: bool)
    ensures
        r == (!test_scenario && !(value matches Some(v) && is_off(v@))),
{
    if test_scenario {
        return false;
    }
    match value {
        Some(v) => !(text::same(v, "0") || text::same(v, "false") || text::same(v, "FALSE")
            || text::same(v, "off") || text::same(v, "OFF")),
        None => true,
    }
}

/// The account that the value of its variable names, where it names one.
pub fn desktop_sdk_account_from_env(value: Option<&str>) -> (r: Option<String>)
    ensures
        r.deep_view() == (match value {
            Some(v) => if text::trimmed(v@).len() > 0 {
                Some(text::trimmed(v@))
            } else {
                None
            },
            None => None,
        }),
{
    match value {
        Some(v) => {
            let account = text::trim(v);
            if account.unicode_len() > 0 {
                Some(account.to_owned())
            } else {
                None
            }
        },
        None => None,
    }
}

/// The account of a list with exactly one account, where it is not empty.
pub fn desktop_sdk_account_from_list(accounts: &Json) -> (r: Option<String>)
    ensures
        r.deep_view() == (match json::items_of(accounts@) {
            Some(all) => if all.len() == 1 {
                match json::text_field(all[0], "account_uuid"@) {
                    Some(id) => if id.len() > 0 {
                        Some(id)
                    } else {
                        None
                    },
                    None => None,
                }
            } else {
                None
            },
            None => None,
        }),
{
    match accounts.as_array() {
        Some(all) => {
            if all.len() != 1 {
                return None;
            }
            assert(json::jsons(all@)[0] == all@[0]@);
            match all[0].get_str("account_uuid") {
                Some(id) => if id.unicode_len() > 0 {
                    Some(id.to_owned())
                } else {
                    None
                },
                None => None,
            }
        },
        None => None,
    }
}

/// Whether an item with these repositories belongs to one of the wanted ones.
pub open spec fn shares_repository(own: Seq<Seq<char>>, wanted: Seq<Seq<char>>) -> bool {
    exists|i: int|
        0 <= i < op::repo_specs(own).len() && op::repo_specs(wanted).contains(
            #[trigger] op::repo_specs(own)[i],
        )
}

/// The titles of the candidates that belong to one of the wanted repositories.
pub open spec fn matching_titles(
    candidates: Seq<(Seq<char>, Seq<Seq<char>>)>,
    wanted: Seq<Seq<char>>,
) -> Seq<Seq<char>>
    decreases candidates.len(),
{
    if candidates.len() == 0 {
        Seq::empty()
    } else {
        let before = matching_titles(candidates.drop_last(), wanted);
        if shares_repository(candidates.last().1, wanted) {
            before.push(candidates.last().0)
        } else {
            before
        }
    }
}

/// Whether two lists share a text.
fn share_text(a: &[String], b: &[String]) -> (r: bool)
    ensures
        r == exists|i: int|
            0 <= i < a@.len() && seqs::texts(b@).contains(#[trigger] seqs::texts(a@)[i]),
{
    let mut i: usize = 0;
    while i < a.len()
        invariant
            i <= a@.len(),
            forall|j: int| 0 <= j < i ==> !seqs::texts(b@).contains(#[trigger] seqs::texts(a@)[j]),
        decreases a@.len() - i,
    {
        if seqs::has_text(b, &a[i]) {
            assert(seqs::texts(b@).contains(seqs::texts(a@)[i as int]));
            return true;
        }
        i += 1;
    }
    false
}

/// The titles of the candidates that belong to one of the wanted repositories.
pub fn match_item_titles_by_github_repositories(
    candidates: &[(String, Vec<String>)],
    repositories: &[String],
) -> (r: Vec<String>)
    ensures
        seqs::texts(r@) == matching_titles(sections(candidates@), seqs::texts(repositories@)),
{
    let ghost all = sections(candidates@);
    let wanted = op::normalize_repo_specs(repositories);
    let mut r = seqs::no_texts();
    let mut i: usize = 0;
    assert(all.take(0) =~= Seq::<(Seq<char>, Seq<Seq<char>>)>::empty());
    while i < candidates.len()
        invariant
            i <= candidates@.len(),
            all == sections(candidates@),
            seqs::texts(wanted@) == op::repo_specs(seqs::texts(repositories@)),
            seqs::texts(r@) == matching_titles(all.take(i as int), seqs::texts(repositories@)),
        decreases candidates@.len() - i,
    {
        proof {
            assert(all.take(i + 1).drop_last() == all.take(i as int));
        }
        let own = op::normalize_repo_specs(&candidates[i].1);
        assert(seqs::texts(own@).len() == own@.len());
        if share_text(&own, &wanted) {
            seqs::push_text(&mut r, &candidates[i].0);
        }
        i += 1;
    }
    r
}

/// All lines of sections, in order.
pub open spec fn all_lines(s: Seq<(Seq<char>, Seq<Seq<char>>)>) -> Seq<Seq<char>>
    decreases s.len(),
{
    if s.len() == 0 {
        Seq::empty()
    } else {
        all_lines(s.drop_last()) + s.last().1
    }
}

/// The position of the first line at or after `from` with the key.
pub open spec fn line_index(lines: Seq<Seq<char>>, key: Seq<char>, from: int) -> Option<int>
    decreases lines.len() - from,
{
    if from < 0 || from >= lines.len() {
        None
    } else if envfile::env_key(lines[from]) == Some(key) {
        Some(from)
    } else {
        line_index(lines, key, from + 1)
    }
}

/// The lines with one more: in the place of the one with its key, or behind the others. A line
/// without a key is left out.
pub open spec fn with_line(lines: Seq<Seq<char>>, line: Seq<char>) -> Seq<Seq<char>> {
    match envfile::env_key(line) {
        Some(key) => match line_index(lines, key, 0) {
            Some(i) => lines.update(i, line),
            None => lines.push(line),
        },
        None => lines,
    }
}

/// One line for each key: the last line for it, in the place of the first.
pub open spec fn merged_env(lines: Seq<Seq<char>>) -> Seq<Seq<char>>
    decreases lines.len(),
{
    if lines.len() == 0 {
        Seq::empty()
    } else {
        with_line(merged_env(lines.drop_last()), lines.last())
    }
}

/// Puts a line in the place of the one with its key, or behind the others.
fn put_line(lines: &mut Vec<String>, line: &str)
    ensures
        seqs::texts(final(lines)@) == with_line(seqs::texts(old(lines)@), line@),
{
    let ghost all = seqs::texts(lines@);
    let key = match envfile::parse_env_key(line) {
        Some(key) => key,
        None => return,
    };
    let mut i: usize = 0;
    while i < lines.len()
        invariant
            i <= lines@.len(),
            all == seqs::texts(lines@),
            all == seqs::texts(old(lines)@),
            envfile::env_key(line@) == Some(key@),
            line_index(all, key@, 0) == line_index(all, key@, i as int),
        decreases lines@.len() - i,
    {
        assert(all[i as int] == lines@[i as int]@);
        if let Some(own) = envfile::parse_env_key(&lines[i]) {
            if text::same(own, key) {
                lines.set(i, line.to_owned());
                assert(seqs::texts(lines@) =~= all.update(i as int, line@));
                return;
            }
        }
        i += 1;
    }
    seqs::push_text(lines, line);
}

/// Lines of a sequence of sections up to one line of one section.
proof fn lemma_all_lines_step(
    s: Seq<(Seq<char>, Seq<Seq<char>>)>,
    i: int,
    base: Seq<Seq<char>>,
    j: int,
)
    requires
        0 <= i < s.len(),
        0 <= j < s[i].1.len(),
    ensures
        (base + s[i].1.take(j + 1)).drop_last() == base + s[i].1.take(j),
        (base + s[i].1.take(j + 1)).last() == s[i].1[j],
{
    assert((base + s[i].1.take(j + 1)).drop_last() =~= base + s[i].1.take(j));
}

/// One line for each key of the sections: the last line for it, in the place of the first.
pub fn merge_env_lines(s: &[(String, Vec<String>)]) -> (r: Vec<String>)
    ensures
        seqs::texts(r@) == merged_env(all_lines(sections(s@))),
{
    let ghost all = sections(s@);
    let mut merged = seqs::no_texts();
    let mut i: usize = 0;
    assert(all.take(0) =~= Seq::<(Seq<char>, Seq<Seq<char>>)>::empty());
    while i < s.len()
        invariant
            i <= s@.len(),
            all == sections(s@),
            seqs::texts(merged@) == merged_env(all_lines(all.take(i as int))),
        decreases s@.len() - i,
    {
        let ghost base = all_lines(all.take(i as int));
        let lines = &s[i].1;
        let ghost own = seqs::texts(lines@);
        proof {
            assert(all.take(i + 1).drop_last() == all.take(i as int));
            assert(all[i as int].1 == own);
            assert(base + own.take(0) =~= base);
        }
        let mut j: usize = 0;
        while j < lines.len()
            invariant
                i < s@.len(),
                j <= lines@.len(),
                all == sections(s@),
                own == seqs::texts(lines@),
                own == all[i as int].1,
                seqs::texts(merged@) == merged_env(base + own.take(j as int)),
            decreases lines@.len() - j,
        {
            proof {
                lemma_all_lines_step(all, i as int, base, j as int);
            }
            put_line(&mut merged, &lines[j]);
            j += 1;
        }
        i += 1;
    }
    merged
}

/// `line_index` finds the first line with the key, where there is one.
proof fn lemma_line_index(lines: Seq<Seq<char>>, key: Seq<char>, from: int)
    requires
        0 <= from,
    ensures
        match line_index(lines, key, from) {
            Some(i) => from <= i < lines.len() && envfile::env_key(lines[i]) == Some(key),
            None => forall|i: int|
                from <= i < lines.len() ==> envfile::env_key(#[trigger] lines[i]) != Some(key),
        },
    decreases lines.len() - from,
{
    if from < lines.len() && envfile::env_key(lines[from]) != Some(key) {
        lemma_line_index(lines, key, from + 1);
    }
}

/// Whether each line has a key, and no key stands twice.
pub open spec fn one_line_per_key(lines: Seq<Seq<char>>) -> bool {
    &&& forall|i: int| 0 <= i < lines.len() ==> envfile::env_key(#[trigger] lines[i]) is Some
    &&& forall|i: int, j: int|
        0 <= i < j < lines.len() ==> envfile::env_key(#[trigger] lines[i]) != envfile::env_key(
            #[trigger] lines[j],
        )
}

/// A merge has one line for each key, and that is the last line for the key.
pub proof fn law_merged_env_last_wins(lines: Seq<Seq<char>>, key: Seq<char>)
    ensures
        one_line_per_key(merged_env(lines)),
        match envfile::newest(lines, key) {
            Some(line) => merged_env(lines).contains(line),
            None => forall|i: int|
                0 <= i < merged_env(lines).len() ==> envfile::env_key(
                    #[trigger] merged_env(lines)[i],
                ) != Some(key),
        },
    decreases lines.len(),
{
    if lines.len() > 0 {
        let front = lines.drop_last();
        let before = merged_env(front);
        let now = merged_env(lines);
        let line = lines.last();
        law_merged_env_last_wins(front, key);
        if let Some(own) = envfile::env_key(line) {
            lemma_line_index(before, own, 0);
            match line_index(before, own, 0) {
                Some(at) => {
                    assert(now[at] == line);
                    assert forall|i: int, j: int| 0 <= i < j < now.len() implies envfile::env_key(
                        #[trigger] now[i],
                    ) != envfile::env_key(#[trigger] now[j]) by {
                        assert(envfile::env_key(now[i]) == envfile::env_key(before[i]));
                        assert(envfile::env_key(now[j]) == envfile::env_key(before[j]));
                    }
                    assert forall|i: int| 0 <= i < now.len() implies envfile::env_key(
                        #[trigger] now[i],
                    ) is Some by {
                        assert(envfile::env_key(before[i]) is Some);
                    }
                    if own != key {
                        match envfile::newest(front, key) {
                            Some(kept) => {
                                let i = choose|i: int| 0 <= i < before.len() && before[i] == kept;
                                lemma_newest_key(front, key);
                                assert(now[i] == kept);
                            },
                            None => {
                                assert forall|i: int| 0 <= i < now.len() implies envfile::env_key(
                                    #[trigger] now[i],
                                ) != Some(key) by {
                                    assert(envfile::env_key(before[i]) != Some(key));
                                }
                            },
                        }
                    }
                },
                None => {
                    assert(now[before.len() as int] == line);
                    assert forall|i: int| 0 <= i < now.len() implies envfile::env_key(
                        #[trigger] now[i],
                    ) is Some by {
                        if i < before.len() {
                            assert(now[i] == before[i]);
                        }
                    }
                    assert forall|i: int, j: int| 0 <= i < j < now.len() implies envfile::env_key(
                        #[trigger] now[i],
                    ) != envfile::env_key(#[trigger] now[j]) by {
                        assert(now[i] == before[i]);
                        if j < before.len() {
                            assert(now[j] == before[j]);
                        }
                    }
                    if own != key {
                        match envfile::newest(front, key) {
                            Some(kept) => {
                                let i = choose|i: int| 0 <= i < before.len() && before[i] == kept;
                                assert(now[i] == kept);
                            },
                            None => {
                                assert forall|i: int| 0 <= i < now.len() implies envfile::env_key(
                                    #[trigger] now[i],
                                ) != Some(key) by {
                                    if i < before.len() {
                                        assert(now[i] == before[i]);
                                    }
                                }
                            },
                        }
                    }
                },
            }
        }
    }
}

/// The newest line for a key has that key.
proof fn lemma_newest_key(lines: Seq<Seq<char>>, key: Seq<char>)
    ensures
        envfile::newest(lines, key) matches Some(line) ==> envfile::env_key(line) == Some(key),
    decreases lines.len(),
{
    if lines.len() > 0 && envfile::env_key(lines.last()) != Some(key) {
        lemma_newest_key(lines.drop_last(), key);
    }
}

/// The line that the library writes for a variable reads back as that variable and the reference
/// to its field.
pub proof fn law_env_line_reads_back(label: Seq<char>, vault: Seq<char>, item: Seq<char>)
    requires
        crate::pattern::is_name(label),
    ensures
        envfile::env_pair(op::env_line(label, vault, item)) == Some(
            (label, "op://"@ + vault + "/"@ + item + "/"@ + label),
        ),
        envfile::env_key(op::env_line(label, vault, item)) == Some(label),
{
    reveal_strlit("=");
    reveal_strlit("#");
    reveal_strlit("=op://");
    reveal_strlit("op://");
    let line = op::env_line(label, vault, item);
    let n = label.len() as int;
    assert forall|i: int| 0 <= i < n implies line[i] == label[i] && line[i] != '=' by {
        assert(crate::pattern::is_name_char(label[i]));
    }
    assert(crate::pattern::is_name_char(label[0]));
    assert(crate::pattern::is_name_char(label[n - 1]));
    assert(line.last() == label[n - 1]);
    assert(!text::is_white(line[0]) && !text::is_white(line.last()));
    assert(text::trimmed(line) == line);
    assert(!text::begins(line, "#"@)) by {
        if text::begins(line, "#"@) {
            assert(line.subrange(0, 1)[0] == "#"@[0]);
        }
    }
    assert(text::matches_at(line, "="@, n)) by {
        assert(line.subrange(n, n + 1) =~= "="@);
    }
    assert forall|j: int| 0 <= j < n implies !text::matches_at(line, "="@, j) by {
        if text::matches_at(line, "="@, j) {
            assert(line.subrange(j, j + 1)[0] == "="@[0]);
        }
    }
    text::lemma_first_match_is(line, "="@, 0, n);
    assert(line.subrange(0, n) =~= label);
    assert(line.subrange(n + 1, line.len() as int) =~= "op://"@ + vault + "/"@ + item + "/"@
        + label);
}

/// The variables of lines and what each is to be set to.
pub open spec fn references(lines: Seq<Seq<char>>) -> Seq<(Seq<char>, Seq<char>)>
    decreases lines.len(),
{
    if lines.len() == 0 {
        Seq::empty()
    } else {
        let before = references(lines.drop_last());
        match envfile::env_pair(lines.last()) {
            Some(pair) => before.push(pair),
            None => before,
        }
    }
}

/// The variables of lines and what each is to be set to.
pub fn env_references(env_lines: &[String]) -> (r: Vec<(String, String)>)
    ensures
        envfile::pairs(r@) == references(seqs::texts(env_lines@)),
{
    let ghost all = seqs::texts(env_lines@);
    let mut r: Vec<(String, String)> = Vec::new();
    let mut i: usize = 0;
    assert(all.take(0) =~= Seq::<Seq<char>>::empty());
    assert(envfile::pairs(r@) =~= Seq::<(Seq<char>, Seq<char>)>::empty());
    while i < env_lines.len()
        invariant
            i <= env_lines@.len(),
            all == seqs::texts(env_lines@),
            envfile::pairs(r@) == references(all.take(i as int)),
        decreases env_lines@.len() - i,
    {
        let ghost before = envfile::pairs(r@);
        proof {
            assert(all.take(i + 1).drop_last() == all.take(i as int));
        }
        if let Some((key, reference)) = envfile::parse_env_line_kv(&env_lines[i]) {
            r.push((key.to_owned(), reference.to_owned()));
            assert(envfile::pairs(r@) =~= before.push((key@, reference@)));
        }
        i += 1;
    }
    r
}

/// The environment file for a batch: a line for each variable.
pub open spec fn batch_lines(refs: Seq<(Seq<char>, Seq<char>)>) -> Seq<Seq<char>> {
    Seq::new(refs.len(), |i: int| refs[i].0 + "="@ + refs[i].1)
}

/// The environment file for a batch: a line for each variable.
pub fn build_batch_env_file(refs: &[(String, String)]) -> (r: String)
    ensures
        r@ == text::lined(batch_lines(envfile::pairs(refs@))),
{
    let ghost all = envfile::pairs(refs@);
    let mut lines = seqs::no_texts();
    let mut i: usize = 0;
    while i < refs.len()
        invariant
            i <= refs@.len(),
            all == envfile::pairs(refs@),
            seqs::texts(lines@).len() == i,
            forall|j: int|
                0 <= j < i ==> #[trigger] seqs::texts(lines@)[j] == all[j].0 + "="@ + all[j].1,
        decreases refs@.len() - i,
    {
        seqs::push_string(&mut lines, refs[i].0.clone().concat("=").concat(&refs[i].1));
        i += 1;
    }
    assert(seqs::texts(lines@) =~= batch_lines(all));
    text::render_lines(&lines)
}

/// The values that the records of an environment give the wanted variables; of several records
/// for one variable the last counts.
pub open spec fn batch_values(records: Seq<Seq<u8>>, refs: Seq<(Seq<char>, Seq<char>)>) -> Seq<
    (Seq<char>, Seq<char>),
>
    decreases records.len(),
{
    if records.len() == 0 {
        Seq::empty()
    } else {
        let before = batch_values(records.drop_last(), refs);
        if records.last().len() == 0 {
            before
        } else {
            match text::parted(text::lossy(records.last()), "="@) {
                Some((key, value)) => if is_wanted(refs, key) {
                    crate::map::inserted(before, key, value)
                } else {
                    before
                },
                None => before,
            }
        }
    }
}

/// Whether a variable is among those asked for.
pub open spec fn is_wanted(refs: Seq<(Seq<char>, Seq<char>)>, key: Seq<char>) -> bool {
    exists|i: int| 0 <= i < refs.len() && (#[trigger] refs[i]).0 == key
}

/// Whether a variable is among those asked for.
fn wants(refs: &[(String, String)], key: &str) -> (r: bool)
    ensures
        r == is_wanted(envfile::pairs(refs@), key@),
{
    let mut i: usize = 0;
    while i < refs.len()
        invariant
            i <= refs@.len(),
            forall|j: int| 0 <= j < i ==> (#[trigger] envfile::pairs(refs@)[j]).0 != key@,
        decreases refs@.len() - i,
    {
        if text::same(&refs[i].0, key) {
            assert(envfile::pairs(refs@)[i as int].0 == key@);
            return true;
        }
        i += 1;
    }
    false
}

/// What is said of a resolution that did not give all values.
pub open spec fn incomplete(start: Seq<char>, got: nat, asked: nat) -> Seq<char> {
    start + text::decimal(got) + "/"@ + text::decimal(asked) + ")"@
}

/// What is said of a resolution that did not give all values.
fn incomplete_message(start: &str, got: usize, asked: usize) -> (r: String)
    ensures
        r@ == incomplete(start@, got as nat, asked as nat),
{
    start.to_owned().concat(&text::to_decimal(got as u128)).concat("/").concat(
        &text::to_decimal(asked as u128),
    ).concat(")")
}

/// What a resolution came to.
pub open spec fn told_values(r: Result<StringMap<SecretValue>, Failure>) -> Result<
    Seq<(Seq<char>, Seq<char>)>,
    Seq<Seq<char>>,
> {
    match r {
        Ok(m) => Ok(m.deep()),
        Err(e) => Err(e@),
    }
}

/// The values that the output of a batch gives the variables, where it gives as many as were
/// asked for.
pub fn parse_batch_output(refs: &[(String, String)], stdout: &[u8]) -> (r: Result<
    StringMap<SecretValue>,
    Failure,
>)
    ensures
        ({
            let values = batch_values(text::zero_pieces(stdout@), envfile::pairs(refs@));
            told_values(r) == (if values.len() != refs@.len() {
                Err(
                    seq![
                        incomplete("batch resolution was incomplete ("@, values.len(), refs@.len()),
                    ],
                )
            } else {
                Ok(values)
            })
        }),
{
    let records = text::split_zero(stdout);
    let ghost all = text::zero_pieces(stdout@);
    let ghost wanted = envfile::pairs(refs@);
    let mut values = StringMap::without_secrets();
    let mut i: usize = 0;
    assert(all.take(0) =~= Seq::<Seq<u8>>::empty());
    while i < records.len()
        invariant
            i <= records@.len(),
            all == text::byte_views(records@),
            wanted == envfile::pairs(refs@),
            values.deep() == batch_values(all.take(i as int), wanted),
        decreases records@.len() - i,
    {
        proof {
            assert(all.take(i + 1).drop_last() == all.take(i as int));
            assert(all.take(i + 1).last() == records@[i as int]@);
        }
        if records[i].len() > 0 {
            let kv = text::lossy_text(&records[i]);
            if let Some((key, value)) = text::split_once(&kv, "=") {
                if wants(refs, key) {
                    values.insert_secret(key.to_owned(), value.to_owned());
                }
            }
        }
        i += 1;
    }
    assert(values.deep().len() == values@.len());
    if values.len() != refs.len() {
        return Err(
            Failure::new(
                incomplete_message(
                    "batch resolution was incomplete (",
                    values.len(),
                    refs.len(),
                ),
            ),
        );
    }
    Ok(values)
}

/// The values of the first `n` variables; of several values for one variable the last counts.
pub open spec fn zipped(refs: Seq<(Seq<char>, Seq<char>)>, values: Seq<Seq<char>>, n: int) -> Seq<
    (Seq<char>, Seq<char>),
>
    decreases n,
{
    if n <= 0 {
        Seq::empty()
    } else {
        crate::map::inserted(zipped(refs, values, n - 1), refs[n - 1].0, values[n - 1])
    }
}

/// The variables with the values that the desktop SDK resolved for them, where it resolved as
/// many as were asked for.
pub fn pair_sdk_values(refs: &[(String, String)], values: &[String]) -> (r: Result<
    StringMap<SecretValue>,
    Failure,
>)
    ensures
        told_values(r) == (if values@.len() != refs@.len() {
            Err(
                seq![
                    incomplete(
                        "desktop SDK resolution was incomplete ("@,
                        values@.len(),
                        refs@.len(),
                    ),
                ],
            )
        } else {
            Ok(zipped(envfile::pairs(refs@), seqs::texts(values@), refs@.len() as int))
        }),
{
    if values.len() != refs.len() {
        return Err(
            Failure::new(
                incomplete_message(
                    "desktop SDK resolution was incomplete (",
                    values.len(),
                    refs.len(),
                ),
            ),
        );
    }
    let ghost all = envfile::pairs(refs@);
    let ghost given = seqs::texts(values@);
    let mut r = StringMap::without_secrets();
    let mut i: usize = 0;
    while i < refs.len()
        invariant
            i <= refs@.len() == values@.len(),
            all == envfile::pairs(refs@),
            given == seqs::texts(values@),
            r.deep() == zipped(all, given, i as int),
        decreases refs@.len() - i,
    {
        r.insert_secret(refs[i].0.clone(), values[i].clone());
        i += 1;
    }
    Ok(r)
}

/// The texts of a list of strings.
pub open spec fn text_list(items: Seq<JsonView>, e: Seq<Seq<char>>) -> Result<
    Seq<Seq<char>>,
    Seq<Seq<char>>,
> {
    seqs::collected(items, text_reader(e))
}

/// Reads a string, or fails with `e`.
pub open spec fn text_reader(e: Seq<Seq<char>>) -> spec_fn(JsonView) -> Result<
    Seq<char>,
    Seq<Seq<char>>,
> {
    |j: JsonView|
        match json::text_of(j) {
            Some(s) => Ok(s),
            None => Err(e),
        }
}

/// The texts of a list of strings, or a failure with the message.
pub fn read_text_list(items: &Vec<Json>, message: &str) -> (r: Result<Vec<String>, Failure>)
    ensures
        failure::told_texts(r) == text_list(json::jsons(items@), seq![message@]),
{
    let ghost all = json::jsons(items@);
    let ghost f = text_reader(seq![message@]);
    let mut r = seqs::no_texts();
    let mut i: usize = 0;
    assert(all.take(0) =~= Seq::<JsonView>::empty());
    while i < items.len()
        invariant
            i <= items@.len(),
            all == json::jsons(items@),
            f == text_reader(seq![message@]),
            seqs::collected(all.take(i as int), f) == Ok::<Seq<Seq<char>>, Seq<Seq<char>>>(
                seqs::texts(r@),
            ),
        decreases items@.len() - i,
    {
        proof {
            seqs::lemma_collected(all, f, i as int);
            assert(all[i as int] == items@[i as int]@);
        }
        match items[i].as_str() {
            Some(s) => seqs::push_text(&mut r, s),
            None => return Err(failure::fail(message)),
        }
        i += 1;
    }
    Ok(r)
}

/// The values of a response of the desktop SDK.
pub fn sdk_secret_values(response: &Json) -> (r: Result<Vec<String>, Failure>)
    ensures
        failure::told_texts(r) == (match json::items_of(response@) {
            Some(items) => text_list(items, seq!["parse isolated Desktop SDK secret response"@]),
            None => Err(seq!["parse isolated Desktop SDK secret response"@]),
        }),
{
    match response.as_array() {
        Some(items) => read_text_list(items, "parse isolated Desktop SDK secret response"),
        None => Err(failure::fail("parse isolated Desktop SDK secret response")),
    }
}

/// Whether a failure, or one of its causes, is that a command took too long.
pub open spec fn is_timeout(chain: Seq<Seq<char>>) -> bool {
    exists|i: int| 0 <= i < chain.len() && text::holds(#[trigger] chain[i], "timed out after"@)
}

/// Whether a failure, or one of its causes, is that a command took too long.
pub fn is_op_timeout_error(err: &Failure) -> (r: bool)
    ensures
        r == is_timeout(err@),
{
    err.mentions("timed out after")
}

/// Whether secrets may be read one by one after a batch failed: not when it took too long.
pub fn should_fallback_to_op_read(err: &Failure) -> (r: bool)
    ensures
        r == !is_timeout(err@),
{
    !is_op_timeout_error(err)
}

/// What follows an attempt to resolve all variables in one batch.
pub enum BatchStep {
    /// The values are there.
    Done(StringMap<SecretValue>),
    /// Nothing more is tried.
    Stop(Failure),
    /// The secrets are read one by one.
    ReadEach,
}

/// What follows an attempt to resolve all variables in one batch.
pub fn after_batch(outcome: Result<StringMap<SecretValue>, Failure>) -> (r: BatchStep)
    ensures
        match outcome {
            Ok(values) => r == BatchStep::Done(values),
            Err(e) => if is_timeout(e@) {
                r matches BatchStep::Stop(f) && f@ == seq![
                    "batch secret resolution timed out; skipped per-field fallback to avoid waiting once per secret"@,
                ] + e@
            } else {
                r is ReadEach
            },
        },
{
    match outcome {
        Ok(values) => BatchStep::Done(values),
        Err(e) => if should_fallback_to_op_read(&e) {
            BatchStep::ReadEach
        } else {
            BatchStep::Stop(
                e.context(
                    "batch secret resolution timed out; skipped per-field fallback to avoid waiting once per secret".to_owned(),
                ),
            )
        },
    }
}

/// The header of a section.
pub open spec fn section_header(title: Seq<char>) -> Seq<char> {
    "# --- item: "@ + title + " ---\n"@
}

/// Sections under the titles of their items, with a blank line between each two.
pub open spec fn sectioned(s: Seq<(Seq<char>, Seq<Seq<char>>)>) -> Seq<char>
    decreases s.len(),
{
    if s.len() == 0 {
        Seq::empty()
    } else {
        sectioned(s.drop_last()) + (if s.len() > 1 {
            "\n"@
        } else {
            ""@
        }) + section_header(s.last().0) + text::lined(s.last().1)
    }
}

/// Sections under the titles of their items.
pub fn sectioned_env_output_string(s: &[(String, Vec<String>)]) -> (r: String)
    ensures
        r@ == sectioned(sections(s@)),
{
    let ghost all = sections(s@);
    let mut out = String::new();
    let mut i: usize = 0;
    assert(all.take(0) =~= Seq::<(Seq<char>, Seq<Seq<char>>)>::empty());
    while i < s.len()
        invariant
            i <= s@.len(),
            all == sections(s@),
            out@ == sectioned(all.take(i as int)),
        decreases s@.len() - i,
    {
        proof {
            assert(all.take(i + 1).drop_last() == all.take(i as int));
        }
        if i > 0 {
            out.append("\n");
        } else {
            out.append("");
        }
        out.append(&"# --- item: ".to_owned().concat(&s[i].0).concat(" ---\n"));
        out.append(&text::render_lines(&s[i].1));
        i += 1;
    }
    out
}

/// The labels of sections: under the titles of their items, or one after the other.
pub fn show_output_string(s: &[(String, Vec<String>)], with_item: bool) -> (r: String)
    ensures
        r@ == (if with_item {
            sectioned(sections(s@))
        } else {
            unsectioned(sections(s@))
        }),
{
    if with_item {
        return sectioned_env_output_string(s);
    }
    let ghost all = sections(s@);
    let mut out = String::new();
    let mut i: usize = 0;
    assert(all.take(0) =~= Seq::<(Seq<char>, Seq<Seq<char>>)>::empty());
    while i < s.len()
        invariant
            i <= s@.len(),
            all == sections(s@),
            out@ == unsectioned(all.take(i as int)),
        decreases s@.len() - i,
    {
        proof {
            assert(all.take(i + 1).drop_last() == all.take(i as int));
        }
        out.append(&text::render_lines(&s[i].1));
        i += 1;
    }
    out
}

/// The lines of all sections, one after the other.
pub open spec fn unsectioned(s: Seq<(Seq<char>, Seq<Seq<char>>)>) -> Seq<char>
    decreases s.len(),
{
    if s.len() == 0 {
        Seq::empty()
    } else {
        unsectioned(s.drop_last()) + text::lined(s.last().1)
    }
}

/// The vault of an item: as the list of items gives it, or as the item itself does.
pub fn resolve_vault_id(list_vault: Option<&ItemVault>, item_vault: Option<&ItemVault>) -> (r: Option<
    String,
>)
    ensures
        r.deep_view() == (match (list_vault, item_vault) {
            (Some(v), _) => Some(v.id@),
            (None, Some(v)) => Some(v.id@),
            (None, None) => None,
        }),
{
    match list_vault {
        Some(v) => Some(v.id.clone()),
        None => match item_vault {
            Some(v) => Some(v.id.clone()),
            None => None,
        },
    }
}

/// The identifier and the vault of an item that was found by its exact title.
pub open spec fn exact_item(item: op::ItemView, title: Seq<char>) -> Result<
    (Seq<char>, Seq<char>),
    Seq<Seq<char>>,
> {
    match (item.id, item.vault) {
        (None, _) => Err(seq!["Item ID is required for `"@ + title + "`"@]),
        (Some(_), None) => Err(seq!["Vault ID is required. Try specifying --vault."@]),
        (Some(id), Some(vault)) => if item.title is Some && item.title->0 != title {
            Err(seq!["No exact item matched title: "@ + title])
        } else {
            Ok((id, vault.id))
        },
    }
}

/// The identifier and the vault of an item that was found by its exact title.
pub fn check_exact_item(item: &ItemGet, item_title: &str) -> (r: Result<(String, String), Failure>)
    ensures
        match (r, exact_item(item.deep_view(), item_title@)) {
            (Ok((id, vault)), Ok((i, v))) => id@ == i && vault@ == v,
            (Err(e), Err(chain)) => e@ == chain,
            _ => false,
        },
{
    let id = match &item.id {
        Some(id) => id,
        None => return Err(
            Failure::new("Item ID is required for `".to_owned().concat(item_title).concat("`")),
        ),
    };
    let vault = match &item.vault {
        Some(vault) => vault,
        None => return Err(failure::fail("Vault ID is required. Try specifying --vault.")),
    };
    if let Some(title) = &item.title {
        if !text::same(title, item_title) {
            return Err(
                Failure::new("No exact item matched title: ".to_owned().concat(item_title)),
            );
        }
    }
    Ok((id.clone(), vault.id.clone()))
}

/// The positions among the first `n` entries whose title is the one sought, or, for a looser
/// search, holds it up to case.
pub open spec fn title_matches(
    entries: Seq<op::EntryView>,
    title: Seq<char>,
    loose: bool,
    n: int,
) -> Seq<int>
    decreases n,
{
    if n <= 0 {
        Seq::empty()
    } else {
        let before = title_matches(entries, title, loose, n - 1);
        if fits(entries[n - 1].title, title, loose) {
            before.push(n - 1)
        } else {
            before
        }
    }
}

/// Whether a title is the one sought, or, for a looser search, holds it up to case.
pub open spec fn fits(own: Seq<char>, sought: Seq<char>, loose: bool) -> bool {
    if loose {
        text::holds(text::lowercased(own), text::lowercased(sought))
    } else {
        own == sought
    }
}

/// Positions as numbers.
pub open spec fn positions(v: Seq<usize>) -> Seq<int> {
    Seq::new(v.len(), |i: int| v[i] as int)
}

/// The positions of the entries with a fitting title.
pub fn find_titles(entries: &Vec<ItemListEntry>, title: &str, loose: bool) -> (r: Vec<usize>)
    ensures
        positions(r@) == title_matches(entries.deep_view(), title@, loose, entries@.len() as int),
        forall|i: int| 0 <= i < r@.len() ==> (#[trigger] r@[i]) < entries@.len(),
{
    let ghost all = entries.deep_view();
    let sought = if loose {
        text::to_lowercase(title)
    } else {
        title.to_owned()
    };
    let mut r: Vec<usize> = Vec::new();
    let mut i: usize = 0;
    assert(positions(r@) =~= Seq::<int>::empty());
    while i < entries.len()
        invariant
            i <= entries@.len(),
            all == entries.deep_view(),
            sought@ == (if loose {
                text::lowercased(title@)
            } else {
                title@
            }),
            positions(r@) == title_matches(all, title@, loose, i as int),
            forall|j: int| 0 <= j < r@.len() ==> (#[trigger] r@[j]) < entries@.len(),
        decreases entries@.len() - i,
    {
        let ghost before = positions(r@);
        assert(all[i as int].title == entries@[i as int].title@);
        let fit = if loose {
            text::contains(&text::to_lowercase(&entries[i].title), &sought)
        } else {
            text::same(&entries[i].title, &sought)
        };
        if fit {
            r.push(i);
            assert(positions(r@) =~= before.push(i as int));
        }
        i += 1;
    }
    r
}

/// The name of the vault of an entry, or a dash.
pub open spec fn vault_name(entry: op::EntryView) -> Seq<char> {
    match entry.vault {
        Some(v) => v.name,
        None => "-"@,
    }
}

/// The name of the vault of an entry, or a dash.
fn show_vault(entry: &ItemListEntry) -> (r: String)
    ensures
        r@ == vault_name(entry.deep_view()),
{
    match &entry.vault {
        Some(v) => v.name.clone(),
        None => "-".to_owned(),
    }
}

/// The rows for the entries whose titles hold the query up to case.
pub open spec fn find_rows(entries: Seq<op::EntryView>, query: Seq<char>) -> Seq<Seq<char>> {
    let found = title_matches(entries, query, true, entries.len() as int);
    Seq::new(
        found.len(),
        |i: int|
            entries[found[i]].id + "\t"@ + vault_name(entries[found[i]]) + "\t"@
                + entries[found[i]].title,
    )
}

/// The rows for the entries whose titles hold the query up to case.
pub fn find_item_rows(entries: &Vec<ItemListEntry>, query: &str) -> (r: Vec<String>)
    ensures
        seqs::texts(r@) == find_rows(entries.deep_view(), query@),
{
    let ghost all = entries.deep_view();
    let found = find_titles(entries, query, true);
    let ghost at = title_matches(all, query@, true, all.len() as int);
    let mut rows = seqs::no_texts();
    let mut i: usize = 0;
    while i < found.len()
        invariant
            i <= found@.len(),
            all == entries.deep_view(),
            at == positions(found@),
            forall|j: int| 0 <= j < found@.len() ==> (#[trigger] found@[j]) < entries@.len(),
            seqs::texts(rows@).len() == i,
            forall|j: int|
                0 <= j < i ==> #[trigger] seqs::texts(rows@)[j] == all[at[j]].id + "\t"@
                    + vault_name(all[at[j]]) + "\t"@ + all[at[j]].title,
        decreases found@.len() - i,
    {
        let entry = &entries[found[i]];
        assert(all[at[i as int]] == entry.deep_view());
        seqs::push_string(
            &mut rows,
            entry.id.clone().concat("\t").concat(&show_vault(entry)).concat("\t").concat(
                &entry.title,
            ),
        );
        i += 1;
    }
    assert(seqs::texts(rows@) =~= find_rows(all, query@));
    rows
}

/// The entry that a title means, in a list of items.
#[derive(Debug)]
pub enum EntryChoice {
    /// Exactly one entry fits.
    Found(usize),
    /// None fits.
    Missing(Failure),
    /// Several fit; the lines show the first twenty of them.
    Ambiguous(Vec<String>, Failure),
}

/// The positions of the entries that a title means: those with exactly that title, or, where
/// there are none, those whose titles hold it up to case.
pub open spec fn meant(entries: Seq<op::EntryView>, title: Seq<char>) -> Seq<int> {
    let exact = title_matches(entries, title, false, entries.len() as int);
    if exact.len() > 0 {
        exact
    } else {
        title_matches(entries, title, true, entries.len() as int)
    }
}

/// The line that shows a candidate.
pub open spec fn candidate_line(entry: op::EntryView) -> Seq<char> {
    "  "@ + entry.id + "  ["@ + vault_name(entry) + "]  "@ + entry.title
}

/// The lines that show the first twenty candidates.
pub open spec fn candidate_lines(entries: Seq<op::EntryView>, found: Seq<int>) -> Seq<Seq<char>> {
    Seq::new(
        if found.len() < 20 {
            found.len()
        } else {
            20
        },
        |i: int| candidate_line(entries[found[i]]),
    )
}

/// The lines that show the first twenty candidates.
fn show_candidates(entries: &Vec<ItemListEntry>, found: &Vec<usize>) -> (r: Vec<String>)
    requires
        forall|i: int| 0 <= i < found@.len() ==> (#[trigger] found@[i]) < entries@.len(),
    ensures
        seqs::texts(r@) == candidate_lines(entries.deep_view(), positions(found@)),
{
    let ghost all = entries.deep_view();
    let ghost at = positions(found@);
    let mut lines = seqs::no_texts();
    let mut i: usize = 0;
    while i < found.len() && i < 20
        invariant
            i <= found@.len(),
            i <= 20,
            all == entries.deep_view(),
            at == positions(found@),
            forall|j: int| 0 <= j < found@.len() ==> (#[trigger] found@[j]) < entries@.len(),
            seqs::texts(lines@).len() == i,
            forall|j: int|
                0 <= j < i ==> #[trigger] seqs::texts(lines@)[j] == candidate_line(all[at[j]]),
        decreases found@.len() - i,
    {
        let entry = &entries[found[i]];
        assert(all[at[i as int]] == entry.deep_view());
        seqs::push_string(
            &mut lines,
            "  ".to_owned().concat(&entry.id).concat("  [").concat(&show_vault(entry)).concat(
                "]  ",
            ).concat(&entry.title),
        );
        i += 1;
    }
    assert(seqs::texts(lines@) =~= candidate_lines(all, at));
    lines
}

/// The entry that a title means, in a list of items.
pub fn choose_entry(entries: &Vec<ItemListEntry>, item_title: &str) -> (r: EntryChoice)
    ensures
        ({
            let found = meant(entries.deep_view(), item_title@);
            if found.len() == 0 {
                r matches EntryChoice::Missing(e) && e@ == seq![
                    "No item matched title: "@ + item_title@,
                ]
            } else if found.len() == 1 {
                r matches EntryChoice::Found(i) && i == found[0] && i < entries@.len()
            } else {
                r matches EntryChoice::Ambiguous(lines, e) && seqs::texts(lines@)
                    == candidate_lines(entries.deep_view(), found) && e@ == seq![
                    "Please be more specific or use `opz find <query>` and pass exact title."@,
                ]
            }
        }),
{
    let mut found = find_titles(entries, item_title, false);
    if found.len() == 0 {
        found = find_titles(entries, item_title, true);
    }
    assert(positions(found@) == meant(entries.deep_view(), item_title@));
    assert(positions(found@).len() == found@.len());
    if found.len() == 0 {
        return EntryChoice::Missing(
            Failure::new("No item matched title: ".to_owned().concat(item_title)),
        );
    }
    if found.len() == 1 {
        assert(positions(found@)[0] == found@[0]);
        return EntryChoice::Found(found[0]);
    }
    EntryChoice::Ambiguous(
        show_candidates(entries, &found),
        failure::fail("Please be more specific or use `opz find <query>` and pass exact title."),
    )
}

/// What a search finds among the first `n` entries.
proof fn lemma_title_matches(
    entries: Seq<op::EntryView>,
    title: Seq<char>,
    loose: bool,
    n: int,
    i: int,
)
    requires
        0 <= n <= entries.len(),
    ensures
        title_matches(entries, title, loose, n).contains(i) <==> 0 <= i < n && fits(
            entries[i].title,
            title,
            loose,
        ),
        forall|j: int|
            0 <= j < title_matches(entries, title, loose, n).len() ==> 0 <= #[trigger] title_matches(
                entries,
                title,
                loose,
                n,
            )[j] < n,
        forall|j: int, k: int|
            0 <= j < k < title_matches(entries, title, loose, n).len()
                ==> #[trigger] title_matches(entries, title, loose, n)[j]
                < #[trigger] title_matches(entries, title, loose, n)[k],
    decreases n,
{
    if n > 0 {
        lemma_title_matches(entries, title, loose, n - 1, i);
        let before = title_matches(entries, title, loose, n - 1);
        let now = title_matches(entries, title, loose, n);
        if now != before {
            assert(now == before.push(n - 1));
            assert(now[before.len() as int] == n - 1);
            if before.contains(i) {
                let k = choose|k: int| 0 <= k < before.len() && before[k] == i;
                assert(now[k] == i);
            }
            if now.contains(i) {
                let k = choose|k: int| 0 <= k < now.len() && now[k] == i;
                if k < before.len() {
                    assert(before[k] == i);
                }
            }
        }
    }
}

/// A search finds every entry with a fitting title and no other, each once and in the order of the
/// list: an exact search those with the very title, a looser one those whose title in lower case
/// holds the sought text in lower case at some place.
pub proof fn law_title_matches(
    entries: Seq<op::EntryView>,
    title: Seq<char>,
    loose: bool,
    i: int,
)
    requires
        0 <= i < entries.len(),
    ensures
        ({
            let found = title_matches(entries, title, loose, entries.len() as int);
            let own = text::lowercased(entries[i].title);
            let sought = text::lowercased(title);
            &&& !loose ==> (found.contains(i) <==> entries[i].title == title)
            &&& loose ==> (found.contains(i) <==> exists|at: int|
                0 <= at && at + sought.len() <= own.len() && #[trigger] own.subrange(
                    at,
                    at + sought.len(),
                ) == sought)
            &&& forall|j: int| 0 <= j < found.len() ==> 0 <= #[trigger] found[j] < entries.len()
            &&& forall|j: int, k: int|
                0 <= j < k < found.len() ==> #[trigger] found[j] < #[trigger] found[k]
        }),
{
    lemma_title_matches(entries, title, loose, entries.len() as int, i);
    let own = text::lowercased(entries[i].title);
    let sought = text::lowercased(title);
    if loose {
        if text::holds(own, sought) {
            let at = choose|at: int| text::matches_at(own, sought, at);
            assert(own.subrange(at, at + sought.len()) == sought);
        }
        assert forall|at: int|
            0 <= at && at + sought.len() <= own.len() && #[trigger] own.subrange(
                at,
                at + sought.len(),
            ) == sought implies text::holds(own, sought) by {
            assert(text::matches_at(own, sought, at));
        }
    }
}

/// The rows of a search show its entries one by one, in the order of the list: the identifier, the
/// name of the vault or a dash, and the title. The positions of these entries are given back.
pub proof fn law_find_rows(entries: Seq<op::EntryView>, query: Seq<char>) -> (found: Seq<int>)
    ensures
        found.len() == find_rows(entries, query).len(),
        forall|j: int, k: int|
            0 <= j < k < found.len() ==> #[trigger] found[j] < #[trigger] found[k],
        forall|i: int|
            found.contains(i) <==> 0 <= i < entries.len() && #[trigger] text::holds(
                text::lowercased(entries[i].title),
                text::lowercased(query),
            ),
        forall|j: int|
            0 <= j < found.len() ==> 0 <= #[trigger] found[j] < entries.len() && find_rows(
                entries,
                query,
            )[j] == entries[found[j]].id + "\t"@ + (match entries[found[j]].vault {
                Some(vault) => vault.name,
                None => "-"@,
            }) + "\t"@ + entries[found[j]].title,
{
    let n = entries.len() as int;
    let found = title_matches(entries, query, true, n);
    lemma_title_matches(entries, query, true, n, 0);
    assert forall|i: int|
        found.contains(i) <==> 0 <= i < entries.len() && #[trigger] text::holds(
            text::lowercased(entries[i].title),
            text::lowercased(query),
        ) by {
        lemma_title_matches(entries, query, true, n, i);
    }
    found
}

/// A title means the entries with that very title, and only where there are none those whose title
/// holds it up to case.
pub proof fn law_meant(entries: Seq<op::EntryView>, title: Seq<char>, i: int)
    requires
        0 <= i < entries.len(),
    ensures
        meant(entries, title).contains(i) <==> entries[i].title == title || ((forall|k: int|
            0 <= k < entries.len() ==> (#[trigger] entries[k]).title != title) && text::holds(
            text::lowercased(entries[i].title),
            text::lowercased(title),
        )),
        forall|j: int, k: int|
            0 <= j < k < meant(entries, title).len() ==> #[trigger] meant(entries, title)[j]
                < #[trigger] meant(entries, title)[k],
        forall|j: int|
            0 <= j < meant(entries, title).len() ==> 0 <= #[trigger] meant(entries, title)[j]
                < entries.len(),
{
    let n = entries.len() as int;
    let exact = title_matches(entries, title, false, n);
    lemma_title_matches(entries, title, false, n, i);
    lemma_title_matches(entries, title, true, n, i);
    if exact.len() > 0 {
        let k = exact[0];
        assert(exact.contains(k));
        lemma_title_matches(entries, title, false, n, k);
        assert(entries[k].title == title);
    } else {
        assert forall|k: int| 0 <= k < n implies (#[trigger] entries[k]).title != title by {
            lemma_title_matches(entries, title, false, n, k);
        }
    }
}

/// Of candidates the first twenty are shown, one line each: the identifier, the vault between
/// brackets, and the title.
pub proof fn law_candidates_shown(entries: Seq<op::EntryView>, found: Seq<int>, i: int)
    requires
        0 <= i < candidate_lines(entries, found).len(),
    ensures
        candidate_lines(entries, found).len() == found.len() || candidate_lines(
            entries,
            found,
        ).len() == 20 && found.len() > 20,
        candidate_lines(entries, found)[i] == "  "@ + entries[found[i]].id + "  ["@ + (
        match entries[found[i]].vault {
            Some(vault) => vault.name,
            None => "-"@,
        }) + "]  "@ + entries[found[i]].title,
{
}

} // verus!
