//! What holds of the course of a migration and of the steps that are planned.

use vstd::prelude::*;
use vstd::string::*;

use crate::migration;
use crate::migration::{MigrationView, ModeView};
use crate::migration_plan;
use crate::migration_plan::DotenvStep;
use crate::migration_run;
use crate::migration_run::{FileView, PlanView};
use crate::rehearsal;
use crate::rehearsal::{SecretStepView, StepView};
use crate::seqs;
use crate::text;

verus! {

broadcast use crate::seqs::group_seqs;

/// A file is read by its name: `package.json` as a package, a justfile under either spelling as
/// one, and any other as a shell script.
pub proof fn law_script_kind(name: Option<Seq<char>>, content: Seq<char>, mode: ModeView)
    ensures
        name == Some("package.json"@) ==> migration_plan::script_migrated(name, content, mode)
            == migration::package_text_migrated(content, mode),
        name == Some("justfile"@) || name == Some("Justfile"@) ==> migration_plan::script_migrated(
            name,
            content,
            mode,
        ) == Ok::<MigrationView, Seq<Seq<char>>>(migration::just_migrated(content, mode)),
        name != Some("package.json"@) && name != Some("justfile"@) && name != Some("Justfile"@)
            ==> migration_plan::script_migrated(name, content, mode) == Ok::<
            MigrationView,
            Seq<Seq<char>>,
        >(migration::migrated(content, Seq::empty(), mode)),
{
    reveal_strlit("package.json");
    reveal_strlit("justfile");
    reveal_strlit("Justfile");
    assert("package.json"@.len() == 12);
    assert("justfile"@.len() == 8);
    assert("Justfile"@.len() == 8);
}

/// The names of the items of all scripts hold every name that some script has.
proof fn lemma_all_items(found: Seq<MigrationView>, item: Seq<char>)
    ensures
        migration_plan::all_items(found).contains(item) <==> exists|k: int|
            0 <= k < found.len() && (#[trigger] found[k]).items.contains(item),
    decreases found.len(),
{
    if found.len() > 0 {
        let front = found.drop_last();
        lemma_all_items(front, item);
        let a = migration_plan::all_items(front);
        let b = found.last().items;
        assert(migration_plan::all_items(found) == a + b);
        assert forall|k: int|
            0 <= k < found.len() && (#[trigger] found[k]).items.contains(item) implies (a
            + b).contains(item) by {
            if k < front.len() {
                assert(front[k] == found[k]);
                let i = choose|i: int| 0 <= i < a.len() && a[i] == item;
                assert((a + b)[i] == item);
            } else {
                let i = choose|i: int| 0 <= i < b.len() && b[i] == item;
                assert((a + b)[a.len() + i] == item);
            }
        }
        if (a + b).contains(item) {
            let i = choose|i: int| 0 <= i < (a + b).len() && (a + b)[i] == item;
            if i < a.len() {
                assert(a[i] == item);
                let k = choose|k: int|
                    0 <= k < front.len() && (#[trigger] front[k]).items.contains(item);
                assert(found[k].items.contains(item));
            } else {
                assert(b[i - a.len()] == item);
                assert(found[found.len() - 1].items.contains(item));
            }
        }
    }
}

/// A migration is about the items that some script names and the one made of `.env`, about no
/// other, and about each once.
pub proof fn law_migration_items(
    found: Seq<MigrationView>,
    dotenv_item: Option<Seq<char>>,
    item: Seq<char>,
)
    ensures
        migration_plan::migration_items(found, dotenv_item).no_duplicates(),
        migration_plan::migration_items(found, dotenv_item).contains(item) <==> dotenv_item == Some(
            item,
        ) || exists|k: int| 0 <= k < found.len() && (#[trigger] found[k]).items.contains(item),
{
    let all = migration_plan::all_items(found);
    let named = seqs::deduped(all);
    lemma_all_items(found, item);
    seqs::law_deduped(all);
    let listed = match dotenv_item {
        Some(own) => named.push(own),
        None => named,
    };
    seqs::law_deduped(listed);
    if let Some(own) = dotenv_item {
        assert(listed.contains(item) <==> own == item || named.contains(item)) by {
            if own == item {
                assert(listed[named.len() as int] == item);
            }
            if named.contains(item) {
                let i = choose|i: int| 0 <= i < named.len() && named[i] == item;
                assert(listed[i] == item);
            }
            if listed.contains(item) && own != item {
                let i = choose|i: int| 0 <= i < listed.len() && listed[i] == item;
                assert(named[i] == item);
            }
        }
    }
    assert(all.contains(item) <==> named.contains(item));
    assert(listed.contains(item) <==> seqs::deduped(listed).contains(item));
}

/// A migration takes every script that can be migrated and no other, each once and in order, and
/// with what was found in that very script: a script that names an item or uses `.env`, one that
/// comes out otherwise than it was, and, to restore, one with calls of `opz`.
pub proof fn law_surveyed(files: Seq<FileView>, restore: bool, n: int, i: int)
    requires
        0 <= i < n <= files.len(),
        forall|k: int|
            0 <= k < n ==> migration_plan::script_migrated(
                (#[trigger] files[k]).name,
                files[k].content,
                ModeView::Collect,
            ) is Ok,
    ensures
        ({
            let survey = migration_run::surveyed(files, restore, n).0;
            let own = migration_plan::script_migrated(
                files[i].name,
                files[i].content,
                ModeView::Collect,
            )->Ok_0;
            &&& migration_run::surveyed(files, restore, n).1 is None
            &&& survey.which.len() == survey.found.len()
            &&& survey.which.contains(i) <==> own.items.len() > 0 || own.uses_dotenv
                || own.rewritten != files[i].content || (restore && own.detected_opz)
            &&& forall|k: int| 0 <= k < survey.which.len() ==> 0 <= #[trigger] survey.which[k] < n
            &&& forall|k: int, l: int|
                0 <= k < l < survey.which.len() ==> #[trigger] survey.which[k]
                    < #[trigger] survey.which[l]
            &&& forall|k: int|
                0 <= k < survey.which.len() && #[trigger] survey.which[k] == i ==> survey.found[k]
                    == own
        }),
    decreases n,
{
    let survey = migration_run::surveyed(files, restore, n).0;
    let before = migration_run::surveyed(files, restore, n - 1).0;
    if n == 1 {
        assert(migration_run::surveyed(files, restore, 0).1 is None);
    } else if i < n - 1 {
        law_surveyed(files, restore, n - 1, i);
    } else {
        law_surveyed(files, restore, n - 1, 0);
    }
    assert(files[n - 1] == files[n - 1]);
    if survey.which.len() > before.which.len() {
        assert(survey.which == before.which.push(n - 1));
        assert(survey.which[before.which.len() as int] == n - 1);
        assert forall|k: int| 0 <= k < before.which.len() implies #[trigger] before.which[k]
            == survey.which[k] by {}
    }
}

/// Of a script that is not migrated something is said only where it has calls of `opz`, and then
/// its path is.
pub proof fn law_survey_notice(files: Seq<FileView>, restore: bool, n: int)
    requires
        0 <= n < files.len(),
        migration_run::surveyed(files, restore, n).1 is None,
        migration_plan::script_migrated(files[n].name, files[n].content, ModeView::Collect) is Ok,
    ensures
        ({
            let own = migration_plan::script_migrated(
                files[n].name,
                files[n].content,
                ModeView::Collect,
            )->Ok_0;
            let before = migration_run::surveyed(files, restore, n).0.notices;
            let now = migration_run::surveyed(files, restore, n + 1).0.notices;
            let stays = own.items.len() == 0 && !own.uses_dotenv && own.rewritten
                == files[n].content && !(restore && own.detected_opz);
            &&& !(stays && own.detected_opz) ==> now == before
            &&& stays && own.detected_opz ==> now.len() == before.len() + 1 && now.subrange(
                0,
                before.len() as int,
            ) == before && files[n].path.is_prefix_of(now.last())
        }),
{
    let before = migration_run::surveyed(files, restore, n).0.notices;
    let now = migration_run::surveyed(files, restore, n + 1).0.notices;
    if now.len() > before.len() {
        assert(now.subrange(0, before.len() as int) =~= before);
        assert(files[n].path =~= now.last().subrange(0, files[n].path.len() as int));
    }
}

/// A migration without a repository is refused, and so is a restoration with more than one.
pub proof fn law_repositories_wanted(
    repositories: Seq<Seq<char>>,
    found: Seq<MigrationView>,
    dotenv_exists: bool,
    create_new: bool,
    restore: bool,
)
    ensures
        repositories.len() == 0 || (restore && repositories.len() > 1) ==> migration_run::planned(
            repositories,
            found,
            dotenv_exists,
            create_new,
            restore,
        ) is Refused,
        repositories.len() == 1 && found.len() == 0 && !(create_new && dotenv_exists)
            ==> migration_run::planned(repositories, found, dotenv_exists, create_new, restore)
            is Nothing,
        repositories.len() == 1 && create_new && (dotenv_exists || found.len() > 0)
            ==> migration_run::planned(repositories, found, dotenv_exists, create_new, restore)
            is Work,
{
}

/// Work is planned for the first repository. An item is made of `.env` only where a new one is
/// wanted, and then wherever the file is there or some script uses it; it then is among the items.
pub proof fn law_planned_work(
    repositories: Seq<Seq<char>>,
    found: Seq<MigrationView>,
    dotenv_exists: bool,
    create_new: bool,
    restore: bool,
    item: Seq<char>,
)
    ensures
        migration_run::planned(
            repositories,
            found,
            dotenv_exists,
            create_new,
            restore,
        ) matches PlanView::Work { title, dotenv, items, rename } ==> {
            let used = exists|k: int| 0 <= k < found.len() && (#[trigger] found[k]).uses_dotenv;
            let named = exists|k: int|
                0 <= k < found.len() && (#[trigger] found[k]).items.contains(item);
            &&& title == repositories[0]
            &&& dotenv is Create <==> create_new && (dotenv_exists || used)
            &&& dotenv is Skip <==> !create_new && used
            &&& items.contains(item) <==> named || (dotenv is Create && item == title)
            &&& items.no_duplicates()
            &&& rename <==> !restore && !create_new && repositories.len() == 1 && items.len() == 1
                && items[0] != title
        },
{
    law_migration_items(found, Some(repositories[0]), item);
    law_migration_items(found, None, item);
}

/// Where no new item is made, scripts that name two different items cannot be migrated at once.
pub proof fn law_two_items_refused(
    repositories: Seq<Seq<char>>,
    found: Seq<MigrationView>,
    dotenv_exists: bool,
    restore: bool,
    k: int,
    l: int,
    a: Seq<char>,
    b: Seq<char>,
)
    requires
        repositories.len() == 1,
        0 <= k < found.len(),
        0 <= l < found.len(),
        found[k].items.contains(a),
        found[l].items.contains(b),
        a != b,
    ensures
        migration_run::planned(repositories, found, dotenv_exists, false, restore) is Refused,
{
    law_migration_items(found, None, a);
    law_migration_items(found, None, b);
    let items = migration_plan::migration_items(found, None);
    let i = choose|i: int| 0 <= i < items.len() && items[i] == a;
    let j = choose|j: int| 0 <= j < items.len() && items[j] == b;
    assert(i != j);
}

/// Items are looked after one by one, in their order.
pub proof fn law_item_steps(
    a: Seq<Seq<char>>,
    b: Seq<Seq<char>>,
    repositories: Seq<Seq<char>>,
    rename: bool,
    title: Seq<char>,
    dry_run: bool,
)
    ensures
        rehearsal::item_steps(a + b, repositories, rename, title, dry_run)
            == rehearsal::item_steps(a, repositories, rename, title, dry_run)
            + rehearsal::item_steps(b, repositories, rename, title, dry_run),
    decreases b.len(),
{
    let whole = rehearsal::item_steps(a + b, repositories, rename, title, dry_run);
    let first = rehearsal::item_steps(a, repositories, rename, title, dry_run);
    let second = rehearsal::item_steps(b, repositories, rename, title, dry_run);
    if b.len() == 0 {
        assert(a + b =~= a);
        assert(first + second =~= first);
    } else {
        law_item_steps(a, b.drop_last(), repositories, rename, title, dry_run);
        assert((a + b).drop_last() =~= a + b.drop_last());
        assert((a + b).last() == b.last());
        assert(whole =~= first + second);
    }
}

/// The repositories of an item are seen to, and it is renamed where that is wanted; a rehearsal
/// says both.
pub proof fn law_item_step(
    item: Seq<char>,
    repositories: Seq<Seq<char>>,
    rename: bool,
    title: Seq<char>,
)
    ensures
        rehearsal::item_steps(seq![item], repositories, rename, title, false) == seq![
            StepView::Ensure { item, rename },
        ],
        ({
            let steps = rehearsal::item_steps(seq![item], repositories, rename, title, true);
            let first = "Would ensure github_repositories on "@ + item + " includes "@
                + text::joined(repositories, ", "@);
            let second = "Would rename item "@ + item + " to "@ + title;
            &&& steps.len() == if rename { 2int } else { 1int }
            &&& steps[0] == StepView::Say { line: first, aside: false }
            &&& rename ==> steps[1] == StepView::Say { line: second, aside: false }
        }),
{
    reveal_with_fuel(rehearsal::item_steps, 2);
    assert(seq![item].drop_last() =~= Seq::<Seq<char>>::empty());
    assert(seq![item].last() == item);
    let none = rehearsal::item_steps(seq![item].drop_last(), repositories, rename, title, true);
    assert(none == Seq::<StepView>::empty());
    assert(rehearsal::item_steps(seq![item], repositories, rename, title, false) =~= seq![
        StepView::Ensure { item, rename },
    ]);
}

/// Scripts are written one by one, in their order.
pub proof fn law_rewrite_steps(
    a: Seq<(Seq<char>, Seq<char>)>,
    b: Seq<(Seq<char>, Seq<char>)>,
    dry_run: bool,
)
    ensures
        rehearsal::rewrite_steps(a + b, dry_run) == rehearsal::rewrite_steps(a, dry_run)
            + rehearsal::rewrite_steps(b, dry_run),
    decreases b.len(),
{
    if b.len() == 0 {
        assert(a + b =~= a);
        assert(rehearsal::rewrite_steps(a, dry_run) + rehearsal::rewrite_steps(b, dry_run)
            =~= rehearsal::rewrite_steps(a, dry_run));
    } else {
        law_rewrite_steps(a, b.drop_last(), dry_run);
        assert((a + b).drop_last() =~= a + b.drop_last());
        assert((a + b).last() == b.last());
        assert(rehearsal::rewrite_steps(a + b, dry_run) =~= rehearsal::rewrite_steps(a, dry_run)
            + rehearsal::rewrite_steps(b, dry_run));
    }
}

/// A script is written to its own path with what it was rewritten to, and that is said; a
/// rehearsal only says that it would be.
pub proof fn law_rewrite_step(path: Seq<char>, content: Seq<char>)
    ensures
        rehearsal::rewrite_steps(seq![(path, content)], false) == seq![
            StepView::Rewrite { path, content },
            StepView::Say { line: "Rewrote "@ + path, aside: false },
        ],
        rehearsal::rewrite_steps(seq![(path, content)], true) == seq![
            StepView::Say { line: "Would rewrite "@ + path, aside: false },
        ],
{
    reveal_with_fuel(rehearsal::rewrite_steps, 2);
    assert(seq![(path, content)].drop_last() =~= Seq::<(Seq<char>, Seq<char>)>::empty());
    assert(seq![(path, content)].last() == (path, content));
    assert(rehearsal::rewrite_steps(seq![(path, content)].drop_last(), false) == Seq::<
        StepView,
    >::empty());
    assert(rehearsal::rewrite_steps(seq![(path, content)].drop_last(), true) == Seq::<
        StepView,
    >::empty());
    assert(rehearsal::rewrite_steps(seq![(path, content)], false) =~= seq![
        StepView::Rewrite { path, content },
        StepView::Say { line: "Rewrote "@ + path, aside: false },
    ]);
    assert(rehearsal::rewrite_steps(seq![(path, content)], true) =~= seq![
        StepView::Say { line: "Would rewrite "@ + path, aside: false },
    ]);
}

/// Work that is done begins with `.env`, goes on with the items and the scripts, and ends by
/// forgetting what was kept; the item made of `.env` is made before anything else.
pub proof fn law_work_done(
    title: Seq<char>,
    dotenv: DotenvStep,
    items: Seq<Seq<char>>,
    rename: bool,
    repositories: Seq<Seq<char>>,
    rewrites: Seq<(Seq<char>, Seq<char>)>,
)
    ensures
        ({
            let steps = rehearsal::migration_course(
                PlanView::Work { title, dotenv, items, rename },
                repositories,
                rewrites,
                false,
            );
            let middle = rehearsal::item_steps(items, repositories, rename, title, false)
                + rehearsal::rewrite_steps(rewrites, false);
            &&& steps.last() is Forget
            &&& dotenv is Create ==> steps == seq![
                StepView::CreateFromEnv { title },
                StepView::Say { line: "Created item "@ + title + " from .env"@, aside: false },
            ] + middle + seq![StepView::Forget]
            &&& dotenv is Leave ==> steps == middle + seq![StepView::Forget]
            &&& dotenv is Skip ==> steps.len() == middle.len() + 2 && steps[0] is Say
                && steps.subrange(1, steps.len() as int) == middle + seq![StepView::Forget]
        }),
{
    let steps = rehearsal::migration_course(
        PlanView::Work { title, dotenv, items, rename },
        repositories,
        rewrites,
        false,
    );
    let middle = rehearsal::item_steps(items, repositories, rename, title, false)
        + rehearsal::rewrite_steps(rewrites, false);
    if dotenv is Create {
        assert(steps =~= seq![
            StepView::CreateFromEnv { title },
            StepView::Say { line: "Created item "@ + title + " from .env"@, aside: false },
        ] + middle + seq![StepView::Forget]);
    } else if dotenv is Leave {
        assert(steps =~= middle + seq![StepView::Forget]);
    } else {
        assert(steps.subrange(1, steps.len() as int) =~= middle + seq![StepView::Forget]);
    }
}

/// Among the scripts that are taken, one is written to its own path exactly where it changes and,
/// if it uses `.env`, a new item is made, and where it names an item or something else asks for
/// it.
pub proof fn law_script_written(
    files: Seq<FileView>,
    survey: migration_run::SurveyView,
    create_new: bool,
    restore: bool,
    rename: bool,
    title: Seq<char>,
    n: int,
)
    requires
        n >= 0,
        rehearsal::rewritten_scripts(files, survey, create_new, restore, rename, title, n) is Ok,
        rehearsal::rewritten_scripts(files, survey, create_new, restore, rename, title, n + 1)
            is Ok,
    ensures
        ({
            let file = files[survey.which[n]];
            let found = survey.found[n];
            let mode = if restore {
                ModeView::Restore(title)
            } else if rename {
                ModeView::RenameItems(title)
            } else {
                ModeView::Collect
            };
            let own = migration_plan::script_migrated(file.name, file.content, mode);
            let before = rehearsal::rewritten_scripts(
                files,
                survey,
                create_new,
                restore,
                rename,
                title,
                n,
            )->Ok_0;
            let now = rehearsal::rewritten_scripts(
                files,
                survey,
                create_new,
                restore,
                rename,
                title,
                n + 1,
            )->Ok_0;
            let written = own is Ok && (own->Ok_0).rewritten != file.content && (create_new
                || !found.uses_dotenv) && (found.items.len() > 0 || create_new || restore
                || rename);
            &&& own is Ok
            &&& written ==> now == before + seq![(file.path, (own->Ok_0).rewritten)]
            &&& !written ==> now == before
        }),
{
    let file = files[survey.which[n]];
    let mode = rehearsal::mode_of(restore, rename, title);
    let own = migration_plan::script_migrated(file.name, file.content, mode);
    let before = rehearsal::rewritten_scripts(
        files,
        survey,
        create_new,
        restore,
        rename,
        title,
        n,
    )->Ok_0;
    if own is Ok {
        assert(before.push((file.path, (own->Ok_0).rewritten)) =~= before + seq![
            (file.path, (own->Ok_0).rewritten),
        ]);
    }
}

/// Secrets go to a repository one by one, in their order.
pub proof fn law_secrets_sent(
    a: Seq<Seq<char>>,
    b: Seq<Seq<char>>,
    repo: Seq<char>,
    dry_run: bool,
)
    ensures
        rehearsal::sent_to_github(a + b, repo, dry_run) == rehearsal::sent_to_github(
            a,
            repo,
            dry_run,
        ) + rehearsal::sent_to_github(b, repo, dry_run),
    decreases b.len(),
{
    let first = rehearsal::sent_to_github(a, repo, dry_run);
    let second = rehearsal::sent_to_github(b, repo, dry_run);
    if b.len() == 0 {
        assert(a + b =~= a);
        assert(first + second =~= first);
    } else {
        law_secrets_sent(a, b.drop_last(), repo, dry_run);
        assert((a + b).drop_last() =~= a + b.drop_last());
        assert((a + b).last() == b.last());
        assert(rehearsal::sent_to_github(a + b, repo, dry_run) =~= first + second);
    }
}

/// A secret is sent and that is said, with its name and the repository; a rehearsal only says
/// that it would be.
pub proof fn law_secret_sent(name: Seq<char>, repo: Seq<char>)
    ensures
        rehearsal::sent_to_github(seq![name], repo, false) == seq![
            SecretStepView::Send(name),
            SecretStepView::Say("Set GitHub secret "@ + name + " in "@ + repo),
        ],
        rehearsal::sent_to_github(seq![name], repo, true) == seq![
            SecretStepView::Say("Would set GitHub secret "@ + name + " in "@ + repo),
        ],
{
    reveal_with_fuel(rehearsal::sent_to_github, 2);
    assert(seq![name].drop_last() =~= Seq::<Seq<char>>::empty());
    assert(seq![name].last() == name);
    assert(rehearsal::sent_to_github(seq![name], repo, false) =~= seq![
        SecretStepView::Send(name),
        SecretStepView::Say("Set GitHub secret "@ + name + " in "@ + repo),
    ]);
    assert(rehearsal::sent_to_github(seq![name], repo, true) =~= seq![
        SecretStepView::Say("Would set GitHub secret "@ + name + " in "@ + repo),
    ]);
}

/// Of each secret of a worker one line is said, in their order: a rehearsal names the worker too.
pub proof fn law_worker_secret_said(names: Seq<Seq<char>>, target: Seq<char>, i: int)
    requires
        0 <= i < names.len(),
    ensures
        rehearsal::said_of_worker(names, target, true).len() == names.len(),
        rehearsal::said_of_worker(names, target, false).len() == names.len(),
        rehearsal::said_of_worker(names, target, true)[i] == SecretStepView::Say(
            "Would set Cloudflare Worker secret "@ + names[i] + " in "@ + target,
        ),
        rehearsal::said_of_worker(names, target, false)[i] == SecretStepView::Say(
            "Set Cloudflare Worker secret "@ + names[i],
        ),
{
}

} // verus!
