//! What a migration of scripts does, from what was found in them.

use vstd::prelude::*;
use vstd::string::*;

use crate::failure;
use crate::failure::Failure;
use crate::migration;
use crate::migration::{MigrationView, ModeView, ScriptMigration, ScriptMigrationMode};
use crate::seqs;
use crate::text;

verus! {

broadcast use crate::seqs::group_seqs;

/// What the script in a file of that name uses, and what it is rewritten to.
pub open spec fn script_migrated(name: Option<Seq<char>>, content: Seq<char>, mode: ModeView) -> Result<
    MigrationView,
    Seq<Seq<char>>,
> {
    if name == Some("package.json"@) {
        migration::package_text_migrated(content, mode)
    } else if name == Some("justfile"@) || name == Some("Justfile"@) {
        Ok(migration::just_migrated(content, mode))
    } else {
        Ok(migration::migrated(content, Seq::empty(), mode))
    }
}

/// What the script in a file of that name uses, and what it is rewritten to. Collecting leaves the
/// text as it is.
pub fn migrate_script(name: Option<&str>, content: &str, mode: ScriptMigrationMode) -> (r: Result<
    ScriptMigration,
    Failure,
>)
    ensures
        migration::told_migration(r) == script_migrated(
            name.deep_view(),
            content@,
            mode.deep_view(),
        ),
        mode is Collect && r is Ok ==> r->Ok_0.rewritten@ == content@,
{
    match name {
        Some(name) => if text::same(name, "package.json") {
            migration::migrate_package_json_scripts(content, mode)
        } else if text::same(name, "justfile") || text::same(name, "Justfile") {
            migration::migrate_justfile_scripts(content, mode)
        } else {
            migration::migrate_script_text(content, mode)
        },
        None => migration::migrate_script_text(content, mode),
    }
}

/// The title that items get: the first repository.
pub fn migration_title(repositories: &[String], restore: bool) -> (r: Result<String, Failure>)
    ensures
        failure::told_text(r) == (if repositories@.len() == 0 {
            Err(seq!["No GitHub repositories found for migrate"@])
        } else if repositories@.len() > 1 && restore {
            Err(
                seq![
                    "`opz migrate --restore` requires exactly one git remote repository. Found: "@
                        + text::joined(seqs::texts(repositories@), ", "@),
                ],
            )
        } else {
            Ok(repositories@[0]@)
        }),
{
    if repositories.len() == 0 {
        return Err(failure::fail("No GitHub repositories found for migrate"));
    }
    if repositories.len() > 1 && restore {
        return Err(
            Failure::new(
                "`opz migrate --restore` requires exactly one git remote repository. Found: ".to_owned().concat(
                    &text::join(repositories, ", "),
                ),
            ),
        );
    }
    Ok(repositories[0].clone())
}

/// What a script was found to be.
#[derive(Clone, Copy, Debug, PartialEq, Eq, Structural)]
pub enum ScriptFinding {
    Migratable,
    UpToDate,
    Unrelated,
}

/// What a script was found to be.
pub fn classify_script(content: &str, found: &ScriptMigration, restore: bool) -> (r: ScriptFinding)
    ensures
        r == (if found.items@.len() > 0 || found.uses_dotenv || found.rewritten@ != content@ || (
        restore && found.detected_opz) {
            ScriptFinding::Migratable
        } else if found.detected_opz {
            ScriptFinding::UpToDate
        } else {
            ScriptFinding::Unrelated
        }),
{
    if found.items.len() > 0 || found.uses_dotenv || !text::same(&found.rewritten, content) || (
    restore && found.detected_opz) {
        ScriptFinding::Migratable
    } else if found.detected_opz {
        ScriptFinding::UpToDate
    } else {
        ScriptFinding::Unrelated
    }
}

/// The line about a script that needs no migration.
pub fn up_to_date_line(path: &str) -> (r: String)
    ensures
        r@ == path@
            + " contains opz commands, but no supported migration pattern matched or the usage is already up to date."@,
{
    path.to_owned().concat(
        " contains opz commands, but no supported migration pattern matched or the usage is already up to date.",
    )
}

/// The line with which a migration ends early, where there is nothing to do.
pub fn nothing_to_migrate(any_script: bool, create_new: bool, dotenv_exists: bool) -> (r: Option<
    &'static str,
>)
    ensures
        r.deep_view() == (if any_script {
            None
        } else if !create_new {
            Some("No migratable scripts found."@)
        } else if !dotenv_exists {
            Some("No migratable scripts or .env file found."@)
        } else {
            None
        }),
{
    if any_script {
        None
    } else if !create_new {
        Some("No migratable scripts found.")
    } else if !dotenv_exists {
        Some("No migratable scripts or .env file found.")
    } else {
        None
    }
}

/// What becomes of the file `.env`.
#[derive(Clone, Copy, Debug, PartialEq, Eq, Structural)]
pub enum DotenvStep {
    Create,
    Skip,
    Leave,
}

/// Whether a script uses `.env`.
pub open spec fn any_dotenv(found: Seq<ScriptMigration>) -> bool {
    exists|i: int| 0 <= i < found.len() && (#[trigger] found[i]).uses_dotenv
}

/// What becomes of the file `.env`: a new item is made of it where that was asked for and the file
/// or its use is there; else its use is reported and left.
pub fn plan_dotenv(found: &Vec<ScriptMigration>, create_new: bool, dotenv_exists: bool) -> (r:
    DotenvStep)
    ensures
        r == (if create_new && (dotenv_exists || any_dotenv(found@)) {
            DotenvStep::Create
        } else if any_dotenv(found@) {
            DotenvStep::Skip
        } else {
            DotenvStep::Leave
        }),
{
    let mut any = false;
    let mut i: usize = 0;
    while i < found.len()
        invariant
            i <= found@.len(),
            any == (exists|k: int| 0 <= k < i && (#[trigger] found@[k]).uses_dotenv),
        decreases found@.len() - i,
    {
        if found[i].uses_dotenv {
            any = true;
        }
        i += 1;
    }
    if create_new && (dotenv_exists || any) {
        DotenvStep::Create
    } else if any {
        DotenvStep::Skip
    } else {
        DotenvStep::Leave
    }
}

/// The items that all scripts name.
pub open spec fn all_items(found: Seq<MigrationView>) -> Seq<Seq<char>>
    decreases found.len(),
{
    if found.len() == 0 {
        Seq::empty()
    } else {
        all_items(found.drop_last()) + found.last().items
    }
}

/// The items that a migration is about: those that the scripts name and the one made of `.env`,
/// each once.
pub open spec fn migration_items(found: Seq<MigrationView>, dotenv_item: Option<Seq<char>>) -> Seq<
    Seq<char>,
> {
    let named = seqs::deduped(all_items(found));
    seqs::deduped(
        match dotenv_item {
            Some(item) => named.push(item),
            None => named,
        },
    )
}

/// The items that a migration is about, where they are clear.
pub fn plan_items(found: &Vec<ScriptMigration>, dotenv_item: Option<&str>, create_new: bool) -> (r:
    Result<Vec<String>, Failure>)
    ensures
        ({
            let items = migration_items(found.deep_view(), dotenv_item.deep_view());
            failure::told_texts(r) == (if items.len() > 1 && !create_new {
                Err(
                    seq![
                        "`opz migrate` found multiple item titles ("@ + text::joined(items, ", "@)
                            + "). Pass explicit items manually or split the migration."@,
                    ],
                )
            } else {
                Ok(items)
            })
        }),
{
    let ghost all = found.deep_view();
    let mut named = seqs::no_texts();
    let mut i: usize = 0;
    while i < found.len()
        invariant
            i <= found@.len(),
            all == found.deep_view(),
            seqs::texts(named@) == all_items(all.take(i as int)),
        decreases found@.len() - i,
    {
        proof {
            assert(all.take(i + 1).drop_last() == all.take(i as int));
            assert(all.take(i + 1).last() == found@[i as int].deep_view());
        }
        seqs::push_texts(&mut named, &found[i].items);
        i += 1;
    }
    let mut items = seqs::dedupe_preserve_order(&named);
    if let Some(item) = dotenv_item {
        seqs::push_text(&mut items, item);
    }
    let items = seqs::dedupe_preserve_order(&items);
    assert(seqs::texts(items@).len() == items@.len());
    if items.len() > 1 && !create_new {
        return Err(
            Failure::new(
                "`opz migrate` found multiple item titles (".to_owned().concat(
                    &text::join(&items, ", "),
                ).concat("). Pass explicit items manually or split the migration."),
            ),
        );
    }
    Ok(items)
}

/// Whether the item is renamed to the repository: where nothing is restored or created and one
/// item with another title belongs to one repository.
pub open spec fn is_renamed(
    repositories: Seq<Seq<char>>,
    items: Seq<Seq<char>>,
    create_new: bool,
    restore: bool,
) -> bool {
    !restore && !create_new && repositories.len() == 1 && items.len() == 1 && items[0]
        != repositories[0]
}

/// Whether the item is renamed to the repository.
pub fn plan_rename(repositories: &[String], items: &[String], create_new: bool, restore: bool) -> (r:
    bool)
    ensures
        r == is_renamed(
            seqs::texts(repositories@),
            seqs::texts(items@),
            create_new,
            restore,
        ),
{
    !restore && !create_new && repositories.len() == 1 && items.len() == 1 && !text::same(
        &items[0],
        &repositories[0],
    )
}

/// How the scripts are rewritten.
pub fn rewrite_mode<'a>(restore: bool, rename: bool, title: &'a str) -> (r: ScriptMigrationMode<'a>)
    ensures
        r.deep_view() == (if restore {
            ModeView::Restore(title@)
        } else if rename {
            ModeView::RenameItems(title@)
        } else {
            ModeView::Collect
        }),
{
    if restore {
        ScriptMigrationMode::Restore { title }
    } else if rename {
        ScriptMigrationMode::RenameItems { title }
    } else {
        ScriptMigrationMode::Collect
    }
}

/// Whether a rewritten script is written back.
pub fn should_write(
    original: &str,
    rewritten: &str,
    found: &ScriptMigration,
    create_new: bool,
    restore: bool,
    rename: bool,
) -> (r: bool)
    ensures
        r == (rewritten@ != original@ && (!found.uses_dotenv || create_new) && (found.items@.len()
            > 0 || create_new || restore || rename)),
{
    !text::same(rewritten, original) && (!found.uses_dotenv || create_new) && (found.items.len() > 0
        || create_new || restore || rename)
}

/// Without restoring, renaming or creating, scripts are not written: they would be rewritten to
/// themselves.
pub fn rewrite_script(
    name: Option<&str>,
    original: &str,
    found: &ScriptMigration,
    create_new: bool,
    restore: bool,
    rename: bool,
    title: &str,
) -> (r: Result<Option<String>, Failure>)
    ensures
        ({
            let mode = if restore {
                ModeView::Restore(title@)
            } else if rename {
                ModeView::RenameItems(title@)
            } else {
                ModeView::Collect
            };
            match script_migrated(name.deep_view(), original@, mode) {
                Err(e) => r matches Err(failure) && failure@ == e,
                Ok(now) => r matches Ok(text) && text.deep_view() == (if now.rewritten != original@
                    && (!found.uses_dotenv || create_new) && (found.items@.len() > 0 || create_new
                    || restore || rename) {
                    Some(now.rewritten)
                } else {
                    None
                }),
            }
        }),
        !restore && !rename ==> r is Err || r->Ok_0 is None,
{
    let mode = rewrite_mode(restore, rename, title);
    match migrate_script(name, original, mode) {
        Err(e) => Err(e),
        Ok(now) => {
            if should_write(original, &now.rewritten, found, create_new, restore, rename) {
                Ok(Some(now.rewritten))
            } else {
                Ok(None)
            }
        },
    }
}

/// The lines about an item in a rehearsal.
pub fn rehearsal_lines(item: &str, repositories: &[String], rename: bool, title: &str) -> (r: Vec<
    String,
>)
    ensures
        seqs::texts(r@) == seq![
            "Would ensure github_repositories on "@ + item@ + " includes "@ + text::joined(
                seqs::texts(repositories@),
                ", "@,
            ),
        ] + (if rename {
            seq!["Would rename item "@ + item@ + " to "@ + title@]
        } else {
            Seq::<Seq<char>>::empty()
        }),
{
    let mut lines = seqs::no_texts();
    seqs::push_string(
        &mut lines,
        "Would ensure github_repositories on ".to_owned().concat(item).concat(" includes ").concat(
            &text::join(repositories, ", "),
        ),
    );
    if rename {
        seqs::push_string(
            &mut lines,
            "Would rename item ".to_owned().concat(item).concat(" to ").concat(title),
        );
    }
    lines
}

} // verus!
