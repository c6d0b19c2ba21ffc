//! The course of a migration: from the scripts that there are to what is done.

use vstd::prelude::*;
use vstd::string::*;

use crate::failure::Failure;
use crate::migration::{MigrationView, ModeView, ScriptMigration, ScriptMigrationMode};
use crate::migration_plan;
use crate::migration_plan::{DotenvStep, ScriptFinding};
use crate::seqs;
use crate::text;

verus! {

broadcast use crate::seqs::group_seqs;

/// A script: its path, the last part of it, and what it holds.
#[derive(Debug)]
pub struct ScriptFile {
    pub path: String,
    pub name: Option<String>,
    pub content: String,
}

/// The content of a `ScriptFile`.
pub struct FileView {
    pub path: Seq<char>,
    pub name: Option<Seq<char>>,
    pub content: Seq<char>,
}

impl DeepView for ScriptFile {
    type V = FileView;

    open spec fn deep_view(&self) -> FileView {
        FileView { path: self.path@, name: self.name.deep_view(), content: self.content@ }
    }
}

/// What was found in scripts: what is said of some, which of them are migrated, and what these use.
#[verifier::ext_equal]
pub struct SurveyView {
    pub notices: Seq<Seq<char>>,
    pub which: Seq<int>,
    pub found: Seq<MigrationView>,
}

/// Whether a script is migrated.
pub open spec fn is_migratable(content: Seq<char>, found: MigrationView, restore: bool) -> bool {
    found.items.len() > 0 || found.uses_dotenv || found.rewritten != content || (restore
        && found.detected_opz)
}

/// What was found in the first `n` scripts, and the failure at one of them, if there was one.
pub open spec fn surveyed(files: Seq<FileView>, restore: bool, n: int) -> (
    SurveyView,
    Option<Seq<Seq<char>>>,
)
    decreases n,
{
    if n <= 0 {
        (
            SurveyView { notices: Seq::empty(), which: Seq::empty(), found: Seq::empty() },
            None,
        )
    } else {
        let (before, failure) = surveyed(files, restore, n - 1);
        let file = files[n - 1];
        if failure is Some {
            (before, failure)
        } else {
            match migration_plan::script_migrated(file.name, file.content, ModeView::Collect) {
                Err(e) => (before, Some(e)),
                Ok(found) => if is_migratable(file.content, found, restore) {
                    (
                        SurveyView {
                            notices: before.notices,
                            which: before.which.push(n - 1),
                            found: before.found.push(found),
                        },
                        None,
                    )
                } else if found.detected_opz {
                    (
                        SurveyView {
                            notices: before.notices.push(
                                file.path
                                    + " contains opz commands, but no supported migration pattern matched or the usage is already up to date."@,
                            ),
                            which: before.which,
                            found: before.found,
                        },
                        None,
                    )
                } else {
                    (before, None)
                },
            }
        }
    }
}

/// A failure stays.
proof fn lemma_surveyed_stops(files: Seq<FileView>, restore: bool, n: int, m: int)
    requires
        0 <= n <= m,
        surveyed(files, restore, n).1 is Some,
    ensures
        surveyed(files, restore, m) == surveyed(files, restore, n),
    decreases m,
{
    if n < m {
        lemma_surveyed_stops(files, restore, n, m - 1);
    }
}

/// What was found in scripts.
#[derive(Debug)]
pub struct Survey {
    pub notices: Vec<String>,
    pub which: Vec<usize>,
    pub found: Vec<ScriptMigration>,
}

impl DeepView for Survey {
    type V = SurveyView;

    open spec fn deep_view(&self) -> SurveyView {
        SurveyView {
            notices: seqs::texts(self.notices@),
            which: crate::resolver::positions(self.which@),
            found: self.found.deep_view(),
        }
    }
}

/// What was found in scripts, up to the first that cannot be read.
pub fn survey_scripts(files: &Vec<ScriptFile>, restore: bool) -> (r: (Survey, Option<Failure>))
    ensures
        r.0.deep_view() == surveyed(files.deep_view(), restore, files@.len() as int).0,
        match surveyed(files.deep_view(), restore, files@.len() as int).1 {
            Some(e) => r.1 matches Some(failure) && failure@ == e,
            None => r.1 is None,
        },
        r.0.which@.len() == r.0.found@.len(),
        forall|k: int| 0 <= k < r.0.which@.len() ==> (#[trigger] r.0.which@[k]) < files@.len(),
{
    let ghost all = files.deep_view();
    let mut notices = seqs::no_texts();
    let mut which: Vec<usize> = Vec::new();
    let mut found: Vec<ScriptMigration> = Vec::new();
    let mut i: usize = 0;
    assert(crate::resolver::positions(which@) =~= Seq::<int>::empty());
    assert(found.deep_view() =~= Seq::<MigrationView>::empty());
    while i < files.len()
        invariant
            i <= files@.len(),
            all == files.deep_view(),
            surveyed(all, restore, i as int) == (
                SurveyView {
                    notices: seqs::texts(notices@),
                    which: crate::resolver::positions(which@),
                    found: found.deep_view(),
                },
                None::<Seq<Seq<char>>>,
            ),
            which@.len() == found@.len(),
            forall|k: int| 0 <= k < which@.len() ==> (#[trigger] which@[k]) < files@.len(),
        decreases files@.len() - i,
    {
        let file = &files[i];
        assert(all[i as int] == file.deep_view());
        let ghost before_which = crate::resolver::positions(which@);
        let ghost before_found = found.deep_view();
        let name = match &file.name {
            Some(name) => Some(name.as_str()),
            None => None,
        };
        match migration_plan::migrate_script(name, &file.content, ScriptMigrationMode::Collect) {
            Err(e) => {
                proof {
                    lemma_surveyed_stops(all, restore, i + 1, all.len() as int);
                }
                return (Survey { notices, which, found }, Some(e));
            },
            Ok(one) => {
                let ghost own = one.deep_view();
                match migration_plan::classify_script(&file.content, &one, restore) {
                    ScriptFinding::Migratable => {
                        which.push(i);
                        found.push(one);
                        assert(crate::resolver::positions(which@) =~= before_which.push(i as int));
                        assert(found.deep_view() =~= before_found.push(own));
                    },
                    ScriptFinding::UpToDate => {
                        seqs::push_string(
                            &mut notices,
                            migration_plan::up_to_date_line(&file.path),
                        );
                    },
                    ScriptFinding::Unrelated => {},
                }
            },
        }
        i += 1;
    }
    (Survey { notices, which, found }, None)
}

/// What a migration comes to.
#[derive(Debug)]
pub enum MigrationPlan {
    /// Nothing is to be done, for the reason given.
    Nothing(String),
    /// Nothing can be done. Before that it may be said that the use of `.env` is left.
    Refused { skips_dotenv: bool, failure: Failure },
    /// The items to look after, whether an item is made of `.env` first, and whether the item is
    /// renamed to the title.
    Work { title: String, dotenv: DotenvStep, items: Vec<String>, rename: bool },
}

/// The content of a `MigrationPlan`.
pub enum PlanView {
    Nothing(Seq<char>),
    Refused { skips_dotenv: bool, chain: Seq<Seq<char>> },
    Work { title: Seq<char>, dotenv: DotenvStep, items: Seq<Seq<char>>, rename: bool },
}

impl DeepView for MigrationPlan {
    type V = PlanView;

    open spec fn deep_view(&self) -> PlanView {
        match self {
            MigrationPlan::Nothing(message) => PlanView::Nothing(message@),
            MigrationPlan::Refused { skips_dotenv, failure } => PlanView::Refused {
                skips_dotenv: *skips_dotenv,
                chain: failure@,
            },
            MigrationPlan::Work { title, dotenv, items, rename } => PlanView::Work {
                title: title@,
                dotenv: *dotenv,
                items: seqs::texts(items@),
                rename: *rename,
            },
        }
    }
}

/// Whether a script uses `.env`.
pub open spec fn uses_dotenv(found: Seq<MigrationView>) -> bool {
    exists|i: int| 0 <= i < found.len() && (#[trigger] found[i]).uses_dotenv
}

/// What a migration comes to, from what was found in the scripts.
pub open spec fn planned(
    repositories: Seq<Seq<char>>,
    found: Seq<MigrationView>,
    dotenv_exists: bool,
    create_new: bool,
    restore: bool,
) -> PlanView {
    let dotenv = if create_new && (dotenv_exists || uses_dotenv(found)) {
        DotenvStep::Create
    } else if uses_dotenv(found) {
        DotenvStep::Skip
    } else {
        DotenvStep::Leave
    };
    let items = migration_plan::migration_items(
        found,
        if dotenv is Create {
            Some(repositories[0])
        } else {
            None
        },
    );
    if repositories.len() == 0 {
        PlanView::Refused {
            skips_dotenv: false,
            chain: seq!["No GitHub repositories found for migrate"@],
        }
    } else if repositories.len() > 1 && restore {
        PlanView::Refused {
            skips_dotenv: false,
            chain: seq![
                "`opz migrate --restore` requires exactly one git remote repository. Found: "@
                    + text::joined(repositories, ", "@),
            ],
        }
    } else if found.len() == 0 && !create_new {
        PlanView::Nothing("No migratable scripts found."@)
    } else if found.len() == 0 && !dotenv_exists {
        PlanView::Nothing("No migratable scripts or .env file found."@)
    } else if items.len() > 1 && !create_new {
        PlanView::Refused {
            skips_dotenv: dotenv is Skip,
            chain: seq![
                "`opz migrate` found multiple item titles ("@ + text::joined(items, ", "@)
                    + "). Pass explicit items manually or split the migration."@,
            ],
        }
    } else {
        PlanView::Work {
            title: repositories[0],
            dotenv,
            items,
            rename: migration_plan::is_renamed(repositories, items, create_new, restore),
        }
    }
}

/// What a migration comes to, from what was found in the scripts.
pub fn plan_migration(
    repositories: &[String],
    found: &Vec<ScriptMigration>,
    dotenv_exists: bool,
    create_new: bool,
    restore: bool,
) -> (r: MigrationPlan)
    ensures
        r.deep_view() == planned(
            seqs::texts(repositories@),
            found.deep_view(),
            dotenv_exists,
            create_new,
            restore,
        ),
{
    let ghost all = found.deep_view();
    proof {
        assert(all.len() == found@.len());
        assert(uses_dotenv(all) == migration_plan::any_dotenv(found@)) by {
            assert forall|i: int| 0 <= i < found@.len() implies all[i].uses_dotenv
                == #[trigger] found@[i].uses_dotenv by {}
            if uses_dotenv(all) {
                let i = choose|i: int| 0 <= i < all.len() && (#[trigger] all[i]).uses_dotenv;
                assert(found@[i].uses_dotenv);
            }
            if migration_plan::any_dotenv(found@) {
                let i = choose|i: int|
                    0 <= i < found@.len() && (#[trigger] found@[i]).uses_dotenv;
                assert(all[i].uses_dotenv);
            }
        }
    }
    let title = match migration_plan::migration_title(repositories, restore) {
        Ok(title) => title,
        Err(failure) => return MigrationPlan::Refused { skips_dotenv: false, failure },
    };
    if let Some(message) = migration_plan::nothing_to_migrate(
        found.len() > 0,
        create_new,
        dotenv_exists,
    ) {
        return MigrationPlan::Nothing(message.to_owned());
    }
    let dotenv = migration_plan::plan_dotenv(found, create_new, dotenv_exists);
    let dotenv_item = match dotenv {
        DotenvStep::Create => Some(title.as_str()),
        _ => None,
    };
    match migration_plan::plan_items(found, dotenv_item, create_new) {
        Err(failure) => MigrationPlan::Refused {
            skips_dotenv: dotenv == DotenvStep::Skip,
            failure,
        },
        Ok(items) => {
            let rename = migration_plan::plan_rename(repositories, &items, create_new, restore);
            MigrationPlan::Work { title, dotenv, items, rename }
        },
    }
}

/// A migration that makes no new item looks after at most one item, and renames an item only to
/// the one repository that there is.
pub proof fn law_one_item_without_new(
    repositories: Seq<Seq<char>>,
    found: Seq<MigrationView>,
    dotenv_exists: bool,
    restore: bool,
)
    ensures
        planned(repositories, found, dotenv_exists, false, restore) matches PlanView::Work {
            title,
            dotenv,
            items,
            rename,
        } ==> items.len() <= 1 && !(dotenv is Create) && (rename ==> !restore && repositories
            == seq![title] && items.len() == 1 && items[0] != title),
{
    if repositories.len() == 1 {
        assert(repositories =~= seq![repositories[0]]);
    }
}

/// The line about a file `.env` of which an item is made.
pub fn dotenv_line(dry_run: bool, title: &str) -> (r: String)
    ensures
        r@ == (if dry_run {
            "Would create item "@
        } else {
            "Created item "@
        }) + title@ + " from .env"@,
{
    let start = if dry_run {
        "Would create item "
    } else {
        "Created item "
    };
    start.to_owned().concat(title).concat(" from .env")
}

/// The line about a script that is rewritten.
pub fn rewrite_line(dry_run: bool, path: &str) -> (r: String)
    ensures
        r@ == (if dry_run {
            "Would rewrite "@
        } else {
            "Rewrote "@
        }) + path@,
{
    let start = if dry_run {
        "Would rewrite "
    } else {
        "Rewrote "
    };
    start.to_owned().concat(path)
}

} // verus!
