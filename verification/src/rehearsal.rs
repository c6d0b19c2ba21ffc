//! What is done step by step, and what is only said of it in a rehearsal.

use vstd::prelude::*;
use vstd::string::*;

use crate::cloudflare::CloudflareCredentialOptions;
use crate::cloudflare_item::PreparedCredential;
use crate::cloudflare_store;
use crate::cloudflare_store::StorePlan;
use crate::failure::Failure;
use crate::migration::ModeView;
use crate::migration_plan;
use crate::migration_plan::DotenvStep;
use crate::migration_run;
use crate::migration_run::{MigrationPlan, ScriptFile};
use crate::op;
use crate::seqs;
use crate::targets;
use crate::text;

verus! {

broadcast use crate::seqs::group_seqs;

/// A step of a migration.
#[derive(Debug)]
pub enum MigrationStep {
    /// Say a line: on the standard output, or aside, on the standard error.
    Say { line: String, aside: bool },
    /// Make an item with the title of the file `.env`.
    CreateFromEnv { title: String },
    /// Note the repositories on an item, and give it the title where it is renamed.
    Ensure { item: String, rename: bool },
    /// Write a file.
    Rewrite { path: String, content: String },
    /// Drop the lists of items that were kept.
    Forget,
}

/// The content of a `MigrationStep`.
pub enum StepView {
    Say { line: Seq<char>, aside: bool },
    CreateFromEnv { title: Seq<char> },
    Ensure { item: Seq<char>, rename: bool },
    Rewrite { path: Seq<char>, content: Seq<char> },
    Forget,
}

impl DeepView for MigrationStep {
    type V = StepView;

    open spec fn deep_view(&self) -> StepView {
        match self {
            MigrationStep::Say { line, aside } => StepView::Say { line: line@, aside: *aside },
            MigrationStep::CreateFromEnv { title } => StepView::CreateFromEnv { title: title@ },
            MigrationStep::Ensure { item, rename } => StepView::Ensure {
                item: item@,
                rename: *rename,
            },
            MigrationStep::Rewrite { path, content } => StepView::Rewrite {
                path: path@,
                content: content@,
            },
            MigrationStep::Forget => StepView::Forget,
        }
    }
}

/// Lines as steps.
pub open spec fn said(lines: Seq<Seq<char>>) -> Seq<StepView> {
    Seq::new(lines.len(), |i: int| StepView::Say { line: lines[i], aside: false })
}

/// What is said where the use of `.env` is left.
pub open spec fn skipped() -> Seq<char> {
    "Skipped .env-based script migration; pass `--new` to create an item from .env."@
}

/// The steps about the file `.env`.
pub open spec fn dotenv_steps(dotenv: DotenvStep, title: Seq<char>, dry_run: bool) -> Seq<StepView> {
    match dotenv {
        DotenvStep::Create => if dry_run {
            said(seq!["Would create item "@ + title + " from .env"@])
        } else {
            seq![StepView::CreateFromEnv { title }] + said(
                seq!["Created item "@ + title + " from .env"@],
            )
        },
        DotenvStep::Skip => seq![StepView::Say { line: skipped(), aside: true }],
        DotenvStep::Leave => Seq::empty(),
    }
}

/// The lines about an item in a rehearsal.
pub open spec fn item_lines(
    item: Seq<char>,
    repositories: Seq<Seq<char>>,
    rename: bool,
    title: Seq<char>,
) -> Seq<Seq<char>> {
    seq![
        "Would ensure github_repositories on "@ + item + " includes "@ + text::joined(
            repositories,
            ", "@,
        ),
    ] + (if rename {
        seq!["Would rename item "@ + item + " to "@ + title]
    } else {
        Seq::<Seq<char>>::empty()
    })
}

/// The steps about items.
pub open spec fn item_steps(
    items: Seq<Seq<char>>,
    repositories: Seq<Seq<char>>,
    rename: bool,
    title: Seq<char>,
    dry_run: bool,
) -> Seq<StepView>
    decreases items.len(),
{
    if items.len() == 0 {
        Seq::empty()
    } else {
        item_steps(items.drop_last(), repositories, rename, title, dry_run) + (if dry_run {
            said(item_lines(items.last(), repositories, rename, title))
        } else {
            seq![StepView::Ensure { item: items.last(), rename }]
        })
    }
}

/// The steps about scripts: each with its path and what it is rewritten to.
pub open spec fn rewrite_steps(rewrites: Seq<(Seq<char>, Seq<char>)>, dry_run: bool) -> Seq<StepView>
    decreases rewrites.len(),
{
    if rewrites.len() == 0 {
        Seq::empty()
    } else {
        let (path, content) = rewrites.last();
        rewrite_steps(rewrites.drop_last(), dry_run) + (if dry_run {
            said(seq!["Would rewrite "@ + path])
        } else {
            seq![StepView::Rewrite { path, content }] + said(seq!["Rewrote "@ + path])
        })
    }
}

/// The steps of a migration. Where it is refused the failure comes after them.
pub open spec fn migration_course(
    plan: migration_run::PlanView,
    repositories: Seq<Seq<char>>,
    rewrites: Seq<(Seq<char>, Seq<char>)>,
    dry_run: bool,
) -> Seq<StepView> {
    match plan {
        migration_run::PlanView::Nothing(message) => said(seq![message]),
        migration_run::PlanView::Refused { skips_dotenv, chain: _ } => if skips_dotenv {
            dotenv_steps(DotenvStep::Skip, Seq::empty(), dry_run)
        } else {
            Seq::empty()
        },
        migration_run::PlanView::Work { title, dotenv, items, rename } => dotenv_steps(
            dotenv,
            title,
            dry_run,
        ) + item_steps(items, repositories, rename, title, dry_run) + rewrite_steps(
            rewrites,
            dry_run,
        ) + (if dry_run {
            Seq::empty()
        } else {
            seq![StepView::Forget]
        }),
    }
}

/// Puts a step behind the others.
fn push_step(steps: &mut Vec<MigrationStep>, step: MigrationStep)
    ensures
        final(steps).deep_view() == old(steps).deep_view().push(step.deep_view()),
{
    let ghost before = steps.deep_view();
    let ghost own = step.deep_view();
    steps.push(step);
    assert(steps.deep_view() =~= before.push(own));
}

/// Puts a line behind the other steps.
fn push_line(steps: &mut Vec<MigrationStep>, line: String)
    ensures
        final(steps).deep_view() == old(steps).deep_view() + said(seq![line@]),
{
    let ghost before = steps.deep_view();
    let ghost own = line@;
    push_step(steps, MigrationStep::Say { line, aside: false });
    assert(steps.deep_view() =~= before + said(seq![own]));
}

/// Puts lines behind the other steps.
fn push_lines(steps: &mut Vec<MigrationStep>, lines: &Vec<String>)
    ensures
        final(steps).deep_view() == old(steps).deep_view() + said(seqs::texts(lines@)),
{
    let ghost before = steps.deep_view();
    let ghost all = seqs::texts(lines@);
    let mut i: usize = 0;
    assert(before + said(all.take(0)) =~= before);
    while i < lines.len()
        invariant
            i <= lines@.len(),
            all == seqs::texts(lines@),
            steps.deep_view() == before + said(all.take(i as int)),
        decreases lines@.len() - i,
    {
        push_line(steps, lines[i].clone());
        assert(before + said(all.take(i as int)) + said(seq![lines@[i as int]@]) =~= before + said(
            all.take(i + 1),
        ));
        i += 1;
    }
    assert(all.take(i as int) =~= all);
}

/// Puts the steps about the file `.env` behind the others.
fn push_dotenv(steps: &mut Vec<MigrationStep>, dotenv: DotenvStep, title: &str, dry_run: bool)
    ensures
        final(steps).deep_view() == old(steps).deep_view() + dotenv_steps(dotenv, title@, dry_run),
{
    let ghost before = steps.deep_view();
    match dotenv {
        DotenvStep::Create => {
            if !dry_run {
                push_step(steps, MigrationStep::CreateFromEnv { title: title.to_owned() });
            }
            push_line(steps, migration_run::dotenv_line(dry_run, title));
        },
        DotenvStep::Skip => {
            let line = "Skipped .env-based script migration; pass `--new` to create an item from .env.".to_owned();
            push_step(steps, MigrationStep::Say { line, aside: true });
        },
        DotenvStep::Leave => {},
    }
    assert(steps.deep_view() =~= before + dotenv_steps(dotenv, title@, dry_run));
}

/// Puts the steps about items behind the others.
fn push_items(
    steps: &mut Vec<MigrationStep>,
    items: &Vec<String>,
    repositories: &[String],
    rename: bool,
    title: &str,
    dry_run: bool,
)
    ensures
        final(steps).deep_view() == old(steps).deep_view() + item_steps(
            seqs::texts(items@),
            seqs::texts(repositories@),
            rename,
            title@,
            dry_run,
        ),
{
    let ghost before = steps.deep_view();
    let ghost all = seqs::texts(items@);
    let ghost repos = seqs::texts(repositories@);
    let mut i: usize = 0;
    assert(before + item_steps(all.take(0), repos, rename, title@, dry_run) =~= before);
    while i < items.len()
        invariant
            i <= items@.len(),
            all == seqs::texts(items@),
            repos == seqs::texts(repositories@),
            steps.deep_view() == before + item_steps(
                all.take(i as int),
                repos,
                rename,
                title@,
                dry_run,
            ),
        decreases items@.len() - i,
    {
        proof {
            assert(all.take(i + 1).drop_last() =~= all.take(i as int));
            assert(all.take(i + 1).last() == items@[i as int]@);
        }
        if dry_run {
            let lines = migration_plan::rehearsal_lines(&items[i], repositories, rename, title);
            push_lines(steps, &lines);
        } else {
            push_step(steps, MigrationStep::Ensure { item: items[i].clone(), rename });
        }
        assert(steps.deep_view() =~= before + item_steps(
            all.take(i + 1),
            repos,
            rename,
            title@,
            dry_run,
        ));
        i += 1;
    }
    assert(all.take(i as int) =~= all);
}

/// Puts the steps about scripts behind the others.
fn push_rewrites(steps: &mut Vec<MigrationStep>, rewrites: &[(String, String)], dry_run: bool)
    ensures
        final(steps).deep_view() == old(steps).deep_view() + rewrite_steps(
            crate::envfile::pairs(rewrites@),
            dry_run,
        ),
{
    let ghost before = steps.deep_view();
    let ghost all = crate::envfile::pairs(rewrites@);
    let mut i: usize = 0;
    assert(before + rewrite_steps(all.take(0), dry_run) =~= before);
    while i < rewrites.len()
        invariant
            i <= rewrites@.len(),
            all == crate::envfile::pairs(rewrites@),
            steps.deep_view() == before + rewrite_steps(all.take(i as int), dry_run),
        decreases rewrites@.len() - i,
    {
        proof {
            assert(all.take(i + 1).drop_last() =~= all.take(i as int));
            assert(all.take(i + 1).last() == (
                rewrites@[i as int].0@,
                rewrites@[i as int].1@,
            ));
        }
        if !dry_run {
            push_step(
                steps,
                MigrationStep::Rewrite {
                    path: rewrites[i].0.clone(),
                    content: rewrites[i].1.clone(),
                },
            );
        }
        push_line(steps, migration_run::rewrite_line(dry_run, &rewrites[i].0));
        assert(steps.deep_view() =~= before + rewrite_steps(all.take(i + 1), dry_run));
        i += 1;
    }
    assert(all.take(i as int) =~= all);
}

/// Whether all steps only say something.
pub open spec fn only_says(steps: Seq<StepView>) -> bool {
    forall|i: int| 0 <= i < steps.len() ==> #[trigger] steps[i] is Say
}

/// The steps about items in a rehearsal only say something.
proof fn lemma_items_say(
    items: Seq<Seq<char>>,
    repositories: Seq<Seq<char>>,
    rename: bool,
    title: Seq<char>,
)
    ensures
        only_says(item_steps(items, repositories, rename, title, true)),
    decreases items.len(),
{
    if items.len() > 0 {
        lemma_items_say(items.drop_last(), repositories, rename, title);
    }
}

/// The steps about scripts in a rehearsal only say something.
proof fn lemma_rewrites_say(rewrites: Seq<(Seq<char>, Seq<char>)>)
    ensures
        only_says(rewrite_steps(rewrites, true)),
    decreases rewrites.len(),
{
    if rewrites.len() > 0 {
        lemma_rewrites_say(rewrites.drop_last());
    }
}

/// A rehearsal of a migration makes no item, changes none and writes no file: it only says what
/// would be done.
pub proof fn law_migration_rehearsal(
    plan: migration_run::PlanView,
    repositories: Seq<Seq<char>>,
    rewrites: Seq<(Seq<char>, Seq<char>)>,
)
    ensures
        only_says(migration_course(plan, repositories, rewrites, true)),
{
    if let migration_run::PlanView::Work { title, dotenv, items, rename } = plan {
        lemma_items_say(items, repositories, rename, title);
        lemma_rewrites_say(rewrites);
        let a = dotenv_steps(dotenv, title, true);
        let b = item_steps(items, repositories, rename, title, true);
        let c = rewrite_steps(rewrites, true);
        let all = migration_course(plan, repositories, rewrites, true);
        assert forall|i: int| 0 <= i < all.len() implies #[trigger] all[i] is Say by {
            if i < a.len() {
                assert(all[i] == a[i]);
            } else if i < a.len() + b.len() {
                assert(all[i] == b[i - a.len()]);
            } else {
                assert(all[i] == c[i - a.len() - b.len()]);
            }
        }
    }
}

/// The steps of a migration, in which a rehearsal only says what would be done. Where the
/// migration is refused the failure comes after them.
pub fn migration_steps(
    plan: &MigrationPlan,
    repositories: &[String],
    rewrites: &[(String, String)],
    dry_run: bool,
) -> (r: Vec<MigrationStep>)
    ensures
        r.deep_view() == migration_course(
            plan.deep_view(),
            seqs::texts(repositories@),
            crate::envfile::pairs(rewrites@),
            dry_run,
        ),
        dry_run ==> forall|i: int| 0 <= i < r@.len() ==> #[trigger] r@[i] is Say,
{
    let mut steps: Vec<MigrationStep> = Vec::new();
    assert(steps.deep_view() =~= Seq::<StepView>::empty());
    match plan {
        MigrationPlan::Nothing(message) => push_line(&mut steps, message.clone()),
        MigrationPlan::Refused { skips_dotenv, failure: _ } => {
            if *skips_dotenv {
                push_dotenv(&mut steps, DotenvStep::Skip, "", dry_run);
            }
        },
        MigrationPlan::Work { title, dotenv, items, rename } => {
            push_dotenv(&mut steps, *dotenv, title, dry_run);
            push_items(&mut steps, items, repositories, *rename, title, dry_run);
            push_rewrites(&mut steps, rewrites, dry_run);
            if !dry_run {
                push_step(&mut steps, MigrationStep::Forget);
            }
        },
    }
    proof {
        let all = migration_course(
            plan.deep_view(),
            seqs::texts(repositories@),
            crate::envfile::pairs(rewrites@),
            dry_run,
        );
        assert(steps.deep_view() =~= all);
        if dry_run {
            law_migration_rehearsal(
                plan.deep_view(),
                seqs::texts(repositories@),
                crate::envfile::pairs(rewrites@),
            );
            assert forall|i: int| 0 <= i < steps@.len() implies #[trigger] steps@[i] is Say by {
                assert(all[i] == steps@[i].deep_view());
            }
        }
    }
    steps
}

/// How scripts are rewritten.
pub open spec fn mode_of(restore: bool, rename: bool, title: Seq<char>) -> ModeView {
    if restore {
        ModeView::Restore(title)
    } else if rename {
        ModeView::RenameItems(title)
    } else {
        ModeView::Collect
    }
}

/// The scripts among the first `n` that were found that are written, each with its path and what
/// it is rewritten to.
pub open spec fn rewritten_scripts(
    files: Seq<migration_run::FileView>,
    survey: migration_run::SurveyView,
    create_new: bool,
    restore: bool,
    rename: bool,
    title: Seq<char>,
    n: int,
) -> Result<Seq<(Seq<char>, Seq<char>)>, Seq<Seq<char>>>
    decreases n,
{
    if n <= 0 {
        Ok(Seq::empty())
    } else {
        match rewritten_scripts(files, survey, create_new, restore, rename, title, n - 1) {
            Err(e) => Err(e),
            Ok(before) => {
                let file = files[survey.which[n - 1]];
                let found = survey.found[n - 1];
                match migration_plan::script_migrated(
                    file.name,
                    file.content,
                    mode_of(restore, rename, title),
                ) {
                    Err(e) => Err(e),
                    Ok(now) => if now.rewritten != file.content && (!found.uses_dotenv
                        || create_new) && (found.items.len() > 0 || create_new || restore || rename) {
                        Ok(before.push((file.path, now.rewritten)))
                    } else {
                        Ok(before)
                    },
                }
            },
        }
    }
}

/// A failure stays.
proof fn lemma_rewritten_stops(
    files: Seq<migration_run::FileView>,
    survey: migration_run::SurveyView,
    create_new: bool,
    restore: bool,
    rename: bool,
    title: Seq<char>,
    n: int,
    m: int,
)
    requires
        0 <= n <= m,
        rewritten_scripts(files, survey, create_new, restore, rename, title, n) is Err,
    ensures
        rewritten_scripts(files, survey, create_new, restore, rename, title, m)
            == rewritten_scripts(files, survey, create_new, restore, rename, title, n),
    decreases m,
{
    if n < m {
        lemma_rewritten_stops(files, survey, create_new, restore, rename, title, n, m - 1);
    }
}

/// The scripts that are written, each with its path and what it is rewritten to.
pub fn plan_rewrites(
    files: &Vec<ScriptFile>,
    survey: &migration_run::Survey,
    create_new: bool,
    restore: bool,
    rename: bool,
    title: &str,
) -> (r: Result<Vec<(String, String)>, Failure>)
    requires
        survey.which@.len() == survey.found@.len(),
        forall|k: int|
            0 <= k < survey.which@.len() ==> (#[trigger] survey.which@[k]) < files@.len(),
    ensures
        match rewritten_scripts(
            files.deep_view(),
            survey.deep_view(),
            create_new,
            restore,
            rename,
            title@,
            survey.which@.len() as int,
        ) {
            Ok(all) => r matches Ok(rewrites) && crate::envfile::pairs(rewrites@) == all,
            Err(e) => r matches Err(failure) && failure@ == e,
        },
{
    let ghost all = files.deep_view();
    let ghost seen = survey.deep_view();
    let mut rewrites: Vec<(String, String)> = Vec::new();
    let mut i: usize = 0;
    assert(crate::envfile::pairs(rewrites@) =~= Seq::<(Seq<char>, Seq<char>)>::empty());
    while i < survey.which.len()
        invariant
            i <= survey.which@.len() == survey.found@.len(),
            forall|k: int|
                0 <= k < survey.which@.len() ==> (#[trigger] survey.which@[k]) < files@.len(),
            all == files.deep_view(),
            seen == survey.deep_view(),
            rewritten_scripts(all, seen, create_new, restore, rename, title@, i as int) == Ok::<
                Seq<(Seq<char>, Seq<char>)>,
                Seq<Seq<char>>,
            >(crate::envfile::pairs(rewrites@)),
        decreases survey.which@.len() - i,
    {
        let file = &files[survey.which[i]];
        proof {
            assert(all[survey.which@[i as int] as int] == file.deep_view());
            assert(seen.which[i as int] == survey.which@[i as int]);
            assert(seen.found[i as int] == survey.found@[i as int].deep_view());
        }
        let name = match &file.name {
            Some(name) => Some(name.as_str()),
            None => None,
        };
        let ghost before = crate::envfile::pairs(rewrites@);
        match migration_plan::rewrite_script(
            name,
            &file.content,
            &survey.found[i],
            create_new,
            restore,
            rename,
            title,
        ) {
            Err(e) => {
                proof {
                    lemma_rewritten_stops(
                        all,
                        seen,
                        create_new,
                        restore,
                        rename,
                        title@,
                        i + 1,
                        survey.which@.len() as int,
                    );
                }
                return Err(e);
            },
            Ok(Some(content)) => {
                let ghost own = (file.path@, content@);
                rewrites.push((file.path.clone(), content));
                assert(crate::envfile::pairs(rewrites@) =~= before.push(own));
            },
            Ok(None) => {},
        }
        i += 1;
    }
    Ok(rewrites)
}

/// Whether a script can be read does not depend on how it is rewritten.
proof fn lemma_script_readable(name: Option<Seq<char>>, content: Seq<char>, a: ModeView, b: ModeView)
    ensures
        migration_plan::script_migrated(name, content, a) is Ok
            == migration_plan::script_migrated(name, content, b) is Ok,
{
}

/// The scripts that a survey found could be read.
proof fn lemma_survey_readable(files: Seq<migration_run::FileView>, restore: bool, n: int, k: int)
    requires
        0 <= n,
        0 <= k < migration_run::surveyed(files, restore, n).0.which.len(),
    ensures
        ({
            let file = files[migration_run::surveyed(files, restore, n).0.which[k]];
            migration_plan::script_migrated(file.name, file.content, ModeView::Collect) is Ok
        }),
    decreases n,
{
    if n > 0 {
        let before = migration_run::surveyed(files, restore, n - 1).0.which;
        if k < before.len() {
            lemma_survey_readable(files, restore, n - 1, k);
        }
    }
}

/// After a survey that read all scripts, rewriting them does not fail.
pub proof fn law_rewrites_succeed(
    files: Seq<migration_run::FileView>,
    create_new: bool,
    restore: bool,
    rename: bool,
    title: Seq<char>,
    n: int,
)
    requires
        n <= migration_run::surveyed(files, restore, files.len() as int).0.which.len(),
    ensures
        rewritten_scripts(
            files,
            migration_run::surveyed(files, restore, files.len() as int).0,
            create_new,
            restore,
            rename,
            title,
            n,
        ) is Ok,
    decreases n,
{
    if n > 0 {
        let survey = migration_run::surveyed(files, restore, files.len() as int).0;
        law_rewrites_succeed(files, create_new, restore, rename, title, n - 1);
        lemma_survey_readable(files, restore, files.len() as int, n - 1);
        let file = files[survey.which[n - 1]];
        lemma_script_readable(
            file.name,
            file.content,
            ModeView::Collect,
            mode_of(restore, rename, title),
        );
    }
}

/// A step in which a credential is stored.
#[derive(Debug)]
pub enum StoreStep {
    /// Say a line.
    Say(String),
    /// Make a new item.
    Create,
    /// Change an item.
    Update { item_id: String, vault_id: String },
    /// Drop the lists of items that were kept.
    Forget,
    /// Say what was stored.
    Report,
}

/// The steps in which a credential is stored: a rehearsal only says what would be done.
pub fn store_steps(
    plan: &StorePlan,
    options: &CloudflareCredentialOptions,
    prepared: &PreparedCredential,
) -> (r: Vec<StoreStep>)
    ensures
        options.dry_run ==> {
            let lines = cloudflare_store::rehearsal(
                *plan is Update,
                options.vault.deep_view(),
                options.item@,
                prepared@,
            );
            &&& r@.len() == lines.len()
            &&& forall|i: int|
                0 <= i < r@.len() ==> ((#[trigger] r@[i]) matches StoreStep::Say(line) && line@
                    == lines[i])
        },
        !options.dry_run ==> {
            &&& r@.len() == 3
            &&& match *plan {
                StorePlan::Create => r@[0] is Create,
                StorePlan::Update { item_id, vault_id } => r@[0] matches StoreStep::Update {
                    item_id: item,
                    vault_id: vault,
                } && item@ == item_id@ && vault@ == vault_id@,
            }
            &&& r@[1] is Forget
            &&& r@[2] is Report
        },
{
    let mut r: Vec<StoreStep> = Vec::new();
    if options.dry_run {
        let lines = cloudflare_store::rehearse_store(plan, options.vault, options.item, prepared);
        let ghost all = seqs::texts(lines@);
        let mut i: usize = 0;
        assert(all.len() == lines@.len());
        while i < lines.len()
            invariant
                i <= lines@.len(),
                all == seqs::texts(lines@),
                r@.len() == i,
                forall|k: int|
                    0 <= k < i ==> ((#[trigger] r@[k]) matches StoreStep::Say(line) && line@
                        == all[k]),
            decreases lines@.len() - i,
        {
            r.push(StoreStep::Say(lines[i].clone()));
            i += 1;
        }
        return r;
    }
    match plan {
        StorePlan::Create => r.push(StoreStep::Create),
        StorePlan::Update { item_id, vault_id } => r.push(
            StoreStep::Update { item_id: item_id.clone(), vault_id: vault_id.clone() },
        ),
    }
    r.push(StoreStep::Forget);
    r.push(StoreStep::Report);
    r
}

/// A step in which secrets go to a target.
#[derive(Debug)]
pub enum SecretStep {
    /// Say a line.
    Say(String),
    /// Resolve the references.
    Resolve,
    /// Send one secret.
    Send(String),
    /// Send all secrets at once.
    SendAll,
}

/// The content of a `SecretStep`.
pub enum SecretStepView {
    Say(Seq<char>),
    Resolve,
    Send(Seq<char>),
    SendAll,
}

impl DeepView for SecretStep {
    type V = SecretStepView;

    open spec fn deep_view(&self) -> SecretStepView {
        match self {
            SecretStep::Say(line) => SecretStepView::Say(line@),
            SecretStep::Resolve => SecretStepView::Resolve,
            SecretStep::Send(name) => SecretStepView::Send(name@),
            SecretStep::SendAll => SecretStepView::SendAll,
        }
    }
}

/// The steps in which each secret goes to a repository.
pub open spec fn sent_to_github(names: Seq<Seq<char>>, repo: Seq<char>, dry_run: bool) -> Seq<
    SecretStepView,
>
    decreases names.len(),
{
    if names.len() == 0 {
        Seq::empty()
    } else {
        let before = sent_to_github(names.drop_last(), repo, dry_run);
        if dry_run {
            before.push(
                SecretStepView::Say(
                    "Would set GitHub secret "@ + names.last() + " in "@ + repo,
                ),
            )
        } else {
            before.push(SecretStepView::Send(names.last())).push(
                SecretStepView::Say("Set GitHub secret "@ + names.last() + " in "@ + repo),
            )
        }
    }
}

/// The lines about secrets of a worker.
pub open spec fn said_of_worker(names: Seq<Seq<char>>, target: Seq<char>, dry_run: bool) -> Seq<
    SecretStepView,
> {
    Seq::new(
        names.len(),
        |i: int|
            SecretStepView::Say(
                if dry_run {
                    "Would set Cloudflare Worker secret "@ + names[i] + " in "@ + target
                } else {
                    "Set Cloudflare Worker secret "@ + names[i]
                },
            ),
    )
}

/// Puts a step behind the others.
fn push_secret_step(steps: &mut Vec<SecretStep>, step: SecretStep)
    ensures
        final(steps)@ == old(steps)@.push(step),
        final(steps).deep_view() == old(steps).deep_view().push(step.deep_view()),
{
    let ghost before = steps.deep_view();
    let ghost own = step.deep_view();
    steps.push(step);
    assert(steps.deep_view() =~= before.push(own));
}

/// The steps in which secrets go to a repository: after they were resolved each is sent. A
/// rehearsal resolves and sends none, and only says what would be done.
pub fn github_steps(names: &[String], repo: &str, dry_run: bool) -> (r: Vec<SecretStep>)
    ensures
        r.deep_view() == (if dry_run {
            Seq::empty()
        } else {
            seq![SecretStepView::Resolve]
        }) + sent_to_github(seqs::texts(names@), repo@, dry_run),
        dry_run ==> forall|i: int| 0 <= i < r@.len() ==> #[trigger] r@[i] is Say,
{
    let ghost all = seqs::texts(names@);
    let mut r: Vec<SecretStep> = Vec::new();
    assert(r.deep_view() =~= Seq::<SecretStepView>::empty());
    if !dry_run {
        push_secret_step(&mut r, SecretStep::Resolve);
    }
    let ghost start = r.deep_view();
    assert(start =~= (if dry_run {
        Seq::empty()
    } else {
        seq![SecretStepView::Resolve]
    }));
    let mut i: usize = 0;
    assert(start + sent_to_github(all.take(0), repo@, dry_run) =~= start);
    while i < names.len()
        invariant
            i <= names@.len(),
            all == seqs::texts(names@),
            r.deep_view() == start + sent_to_github(all.take(i as int), repo@, dry_run),
            dry_run ==> forall|k: int| 0 <= k < r@.len() ==> #[trigger] r@[k] is Say,
        decreases names@.len() - i,
    {
        proof {
            assert(all.take(i + 1).drop_last() =~= all.take(i as int));
            assert(all.take(i + 1).last() == names@[i as int]@);
        }
        if !dry_run {
            push_secret_step(&mut r, SecretStep::Send(names[i].clone()));
        }
        let line = targets::github_secret_line(dry_run, &names[i], repo);
        push_secret_step(&mut r, SecretStep::Say(line));
        assert(r.deep_view() =~= start + sent_to_github(all.take(i + 1), repo@, dry_run));
        i += 1;
    }
    assert(all.take(i as int) =~= all);
    r
}

/// The steps in which secrets go to a worker: after they were resolved all are sent at once. A
/// rehearsal resolves and sends none, and only says what would be done.
pub fn cloudflare_steps(names: &[String], target: &str, dry_run: bool) -> (r: Vec<SecretStep>)
    ensures
        r.deep_view() == (if dry_run {
            Seq::empty()
        } else {
            seq![SecretStepView::Resolve, SecretStepView::SendAll]
        }) + said_of_worker(seqs::texts(names@), target@, dry_run),
        dry_run ==> forall|i: int| 0 <= i < r@.len() ==> #[trigger] r@[i] is Say,
{
    let ghost all = seqs::texts(names@);
    let mut r: Vec<SecretStep> = Vec::new();
    assert(r.deep_view() =~= Seq::<SecretStepView>::empty());
    if !dry_run {
        push_secret_step(&mut r, SecretStep::Resolve);
        push_secret_step(&mut r, SecretStep::SendAll);
    }
    let ghost start = r.deep_view();
    assert(start =~= (if dry_run {
        Seq::empty()
    } else {
        seq![SecretStepView::Resolve, SecretStepView::SendAll]
    }));
    let mut i: usize = 0;
    let ghost said = said_of_worker(all, target@, dry_run);
    assert(start + said.take(0) =~= start);
    while i < names.len()
        invariant
            i <= names@.len(),
            all == seqs::texts(names@),
            said == said_of_worker(all, target@, dry_run),
            r.deep_view() == start + said.take(i as int),
            dry_run ==> forall|k: int| 0 <= k < r@.len() ==> #[trigger] r@[k] is Say,
        decreases names@.len() - i,
    {
        let line = targets::cloudflare_secret_line(dry_run, &names[i], target);
        assert(all[i as int] == names@[i as int]@);
        assert(said[i as int] == SecretStepView::Say(line@));
        push_secret_step(&mut r, SecretStep::Say(line));
        assert(r.deep_view() =~= start + said.take(i + 1));
        i += 1;
    }
    assert(said.take(i as int) =~= said);
    r
}

/// A step in which repositories are noted on an item.
#[derive(Debug)]
pub enum RepositoryStep {
    /// Say a line.
    Say(String),
    /// Note the repositories.
    Note,
    /// Give the item another title.
    Rename(String),
    /// Drop the lists of items that were kept.
    Forget,
}

/// The content of a `RepositoryStep`.
pub enum RepositoryStepView {
    Say(Seq<char>),
    Note,
    Rename(Seq<char>),
    Forget,
}

impl DeepView for RepositoryStep {
    type V = RepositoryStepView;

    open spec fn deep_view(&self) -> RepositoryStepView {
        match self {
            RepositoryStep::Say(line) => RepositoryStepView::Say(line@),
            RepositoryStep::Note => RepositoryStepView::Note,
            RepositoryStep::Rename(title) => RepositoryStepView::Rename(title@),
            RepositoryStep::Forget => RepositoryStepView::Forget,
        }
    }
}

/// The steps in which repositories are noted on an item. A rehearsal only says what would be done.
pub fn repository_steps(title: &str, repositories: &[String], dry_run: bool) -> (r: Vec<
    RepositoryStep,
>)
    ensures
        ({
            let told = text::joined(seqs::texts(repositories@), ", "@);
            r.deep_view() == (if dry_run {
                seq![
                    RepositoryStepView::Say(
                        "Would set github_repositories on "@ + title@ + " to "@ + told,
                    ),
                ]
            } else {
                seq![
                    RepositoryStepView::Note,
                    RepositoryStepView::Say(
                        "Set github_repositories on "@ + title@ + " to "@ + told,
                    ),
                ]
            })
        }),
{
    let line = op::repositories_report(dry_run, title, repositories);
    let ghost told = line@;
    let mut r: Vec<RepositoryStep> = Vec::new();
    if !dry_run {
        r.push(RepositoryStep::Note);
    }
    r.push(RepositoryStep::Say(line));
    assert(r.deep_view() =~= (if dry_run {
        seq![RepositoryStepView::Say(told)]
    } else {
        seq![RepositoryStepView::Note, RepositoryStepView::Say(told)]
    }));
    r
}

/// The steps in which an item is brought in line with a migration: the repositories are noted on
/// it, and it is renamed where another title is given.
pub fn ensure_steps(title: &str, repositories: &[String], new_title: Option<&str>) -> (r: Vec<
    RepositoryStep,
>)
    ensures
        r.deep_view() == seq![
            RepositoryStepView::Note,
            RepositoryStepView::Say(
                "Set github_repositories on "@ + title@ + " to "@ + text::joined(
                    seqs::texts(repositories@),
                    ", "@,
                ),
            ),
        ] + (match new_title {
            Some(name) => seq![
                RepositoryStepView::Rename(name@),
                RepositoryStepView::Say("Renamed item "@ + title@ + " to "@ + name@),
            ],
            None => Seq::empty(),
        }),
{
    let mut r = repository_steps(title, repositories, false);
    let ghost before = r.deep_view();
    if let Some(name) = new_title {
        r.push(RepositoryStep::Rename(name.to_owned()));
        let line = "Renamed item ".to_owned().concat(title).concat(" to ").concat(name);
        let ghost told = line@;
        r.push(RepositoryStep::Say(line));
        assert(r.deep_view() =~= before + seq![
            RepositoryStepView::Rename(name@),
            RepositoryStepView::Say(told),
        ]);
    }
    assert(r.deep_view() =~= before + (match new_title {
        Some(name) => seq![
            RepositoryStepView::Rename(name@),
            RepositoryStepView::Say("Renamed item "@ + title@ + " to "@ + name@),
        ],
        None => Seq::empty(),
    }));
    r
}

/// The last step after repositories were noted on items; after a rehearsal there is none.
pub fn last_repository_step(dry_run: bool) -> (r: Option<RepositoryStep>)
    ensures
        r.deep_view() == (if dry_run {
            None
        } else {
            Some(RepositoryStepView::Forget)
        }),
{
    if dry_run {
        None
    } else {
        Some(RepositoryStep::Forget)
    }
}

} // verus!
