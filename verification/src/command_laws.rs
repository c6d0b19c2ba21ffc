//! What holds of commands: how they are told apart, planned and started, and which item they are
//! about.

use vstd::prelude::*;
use vstd::string::*;

use crate::cache;
use crate::cache::{CacheEnv, CachePlatform};
use crate::cli;
use crate::cli::{CliCommand, CliTask};
use crate::environment;
use crate::ids;
use crate::lookup;
use crate::lookup::TurnView;
use crate::op;
use crate::process;
use crate::resolver;
use crate::secret_laws;
use crate::text;
use crate::text_laws;

verus! {

broadcast use crate::seqs::group_seqs;

/// A command is started with all its words, in order and as they are: by itself on Windows, and
/// elsewhere behind the four words of a shell that it replaces.
pub proof fn law_child_words(command: Seq<Seq<char>>)
    ensures
        process::child_words(command, true) == command,
        process::child_words(command, false).len() == command.len() + 4,
        process::child_words(command, false).take(4) == seq![
            "sh"@,
            "-c"@,
            "exec \"$@\""@,
            "sh"@,
        ],
        process::child_words(command, false).skip(4) == command,
{
    let words = process::child_words(command, false);
    assert(words.take(4) =~= seq!["sh"@, "-c"@, "exec \"$@\""@, "sh"@]);
    assert(words.skip(4) =~= command);
}

/// The seconds to wait are those that a variable gives as a number above zero, and else the usual
/// ones.
pub proof fn law_seconds(value: Seq<char>, default: nat)
    ensures
        process::seconds(None, default) == default,
        value.len() > 0 && (forall|i: int| 0 <= i < value.len() ==> '0' <= #[trigger] value[i] <= '9')
            ==> process::seconds(Some(value), default) == (if 0 < text::number(value)
            <= 0xffff_ffff_ffff_ffff {
            text::number(value)
        } else {
            default
        }),
        value.len() == 0 || (exists|i: int|
            0 <= i < value.len() && !('0' <= #[trigger] value[i] <= '9') && (i > 0 || value[i]
                != '+')) ==> process::seconds(Some(value), default) == default,
{
    let max = 0xffff_ffff_ffff_ffff as nat;
    if value.len() == 0 || value[0] != '+' {
        text_laws::law_numeral(value, max);
    } else {
        let rest = value.drop_first();
        assert(seq!['+'] + rest =~= value);
        text_laws::law_numeral(rest, max);
        if exists|i: int|
            0 <= i < value.len() && !('0' <= #[trigger] value[i] <= '9') && (i > 0 || value[i]
                != '+') {
            let i = choose|i: int|
                0 <= i < value.len() && !('0' <= #[trigger] value[i] <= '9') && (i > 0 || value[i]
                    != '+');
            assert(rest[i - 1] == value[i]);
        }
    }
    if value.len() > 0 && (forall|i: int|
        0 <= i < value.len() ==> '0' <= #[trigger] value[i] <= '9') {
        assert('0' <= value[0] <= '9');
    }
}

/// Whether an argument is an option without a value that says nothing of the command.
pub open spec fn is_flag(arg: Seq<char>) -> bool {
    &&& arg.len() > 2
    &&& arg[0] == '-'
    &&& arg[1] == '-'
    &&& arg != "--help"@
    &&& arg != "--version"@
    &&& arg != "--vault"@
    &&& arg != "--env-file"@
    &&& arg != "--environment"@
    &&& arg != "--environments"@
}

/// The first argument that is no option names the command; options are passed over, with their
/// values where they take one, and nothing behind the separator counts.
pub proof fn law_hint(args: Seq<Seq<char>>, i: int)
    requires
        0 <= i < args.len(),
    ensures
        is_flag(args[i]) ==> cli::hint(args, i) == cli::hint(args, i + 1),
        args[i] == "--vault"@ || args[i] == "--env-file"@ || args[i] == "--environment"@ || args[i]
            == "--environments"@ ==> cli::hint(args, i) == cli::hint(args, i + 2),
        args[i] == "--"@ ==> cli::hint(args, i) == "run"@,
        args[i] == "--help"@ || args[i] == "-h"@ ==> cli::hint(args, i) == "help"@,
        args[i] == "--version"@ || args[i] == "-V"@ ==> cli::hint(args, i) == "version"@,
        args[i] == "env"@ || args[i] == "environment"@ ==> cli::hint(args, i) == "environment"@,
        args[i] == "find"@ || args[i] == "doctor"@ || args[i] == "plugin"@ || args[i] == "skills"@
            || args[i] == "show"@ || args[i] == "gen"@ || args[i] == "create"@ || args[i]
            == "migrate"@ || args[i] == "note"@ || args[i] == "github-repo"@ || args[i]
            == "github-secret"@ || args[i] == "cloudflare-secret"@ ==> cli::hint(args, i)
            == args[i],
        cli::hint(args, args.len() as int) == "run"@,
{
    reveal_strlit("--");
    reveal_strlit("--help");
    reveal_strlit("-h");
    reveal_strlit("--version");
    reveal_strlit("-V");
    reveal_strlit("--vault");
    reveal_strlit("--env-file");
    reveal_strlit("--environment");
    reveal_strlit("--environments");
    reveal_strlit("env");
    reveal_strlit("environment");
    reveal_strlit("find");
    reveal_strlit("doctor");
    reveal_strlit("plugin");
    reveal_strlit("skills");
    reveal_strlit("show");
    reveal_strlit("gen");
    reveal_strlit("create");
    reveal_strlit("migrate");
    reveal_strlit("note");
    reveal_strlit("github-repo");
    reveal_strlit("github-secret");
    reveal_strlit("cloudflare-secret");
    let arg = args[i];
    assert("--"@.len() == 2 && "-h"@.len() == 2 && "-V"@.len() == 2);
    assert("-h"@[1] == 'h' && "-V"@[1] == 'V' && "--"@[1] == '-');
    assert("--help"@[2] == 'h' && "--version"@[4] == 'r' && "--vault"@[3] == 'a');
    assert("--help"@.len() == 6 && "--version"@.len() == 9 && "--vault"@.len() == 7);
    assert("--env-file"@.len() == 10 && "--environment"@.len() == 13 && "--environments"@.len()
        == 14);
    if text::begins(arg, "--"@) {
        assert(arg.subrange(0, 2)[0] == arg[0] && arg.subrange(0, 2)[1] == arg[1]);
    }
    if arg.len() >= 2 && arg[0] == '-' && arg[1] == '-' {
        assert(arg.subrange(0, 2) =~= "--"@);
    }
    assert("env"@[0] == 'e' && "environment"@[0] == 'e' && "find"@[0] == 'f' && "doctor"@[0] == 'd'
        && "plugin"@[0] == 'p' && "skills"@[0] == 's' && "show"@[0] == 's' && "gen"@[0] == 'g'
        && "create"@[0] == 'c' && "migrate"@[0] == 'm' && "note"@[0] == 'n' && "github-repo"@[0]
        == 'g' && "github-secret"@[0] == 'g' && "cloudflare-secret"@[0] == 'c');
}

/// A word that names no command is an item to run with.
pub proof fn law_item_hint(args: Seq<Seq<char>>, i: int)
    requires
        0 <= i < args.len(),
        args[i].len() > 0,
        args[i][0] != '-',
        !(args[i] == "env"@ || args[i] == "environment"@ || args[i] == "find"@ || args[i]
            == "doctor"@ || args[i] == "plugin"@ || args[i] == "skills"@ || args[i] == "show"@
            || args[i] == "gen"@ || args[i] == "create"@ || args[i] == "migrate"@ || args[i]
            == "note"@ || args[i] == "github-repo"@ || args[i] == "github-secret"@ || args[i]
            == "cloudflare-secret"@),
    ensures
        cli::hint(args, i) == "run"@,
{
    reveal_strlit("--");
    reveal_strlit("--help");
    reveal_strlit("-h");
    reveal_strlit("--version");
    reveal_strlit("-V");
    reveal_strlit("--vault");
    reveal_strlit("--env-file");
    reveal_strlit("--environment");
    reveal_strlit("--environments");
    let arg = args[i];
    assert("--"@[0] == '-' && "--help"@[0] == '-' && "-h"@[0] == '-' && "--version"@[0] == '-'
        && "-V"@[0] == '-' && "--vault"@[0] == '-' && "--env-file"@[0] == '-' && "--environment"@[0]
        == '-' && "--environments"@[0] == '-');
    if text::begins(arg, "--"@) {
        assert(arg.subrange(0, 2)[0] == arg[0]);
    }
}

/// A run needs a command, and hands on its words, the items and the file as they are; with
/// Environments where some are named, and with items where none is.
pub proof fn law_run_planned(
    with_vault: bool,
    env_file: Option<String>,
    environments: Vec<String>,
    items: Vec<String>,
    command: Vec<String>,
)
    ensures
        ({
            let run = cli::planned(
                with_vault,
                CliCommand::Run { env_file, environments, items, command },
            );
            let direct = cli::planned(
                with_vault,
                CliCommand::Direct { env_file, environments, items, command },
            );
            &&& run is Err <==> command@.len() == 0
            &&& direct is Err <==> command@.len() == 0
            &&& run is Ok ==> run->Ok_0 == direct->Ok_0
            &&& run is Ok && environments@.len() > 0 ==> run->Ok_0 == (CliTask::RunEnvironments {
                env_file,
                environments,
                items,
                command,
            })
            &&& run is Ok && environments@.len() == 0 ==> run->Ok_0 == (CliTask::RunItems {
                env_file,
                items,
                command,
            })
        }),
{
}

/// With the titles of items in the names of variables a run is planned as without, but not with
/// Environments.
pub proof fn law_namespaced_run_planned(
    env_file: Option<String>,
    environments: Vec<String>,
    items: Vec<String>,
    command: Vec<String>,
)
    ensures
        ({
            let run = cli::planned_namespaced(
                CliCommand::Run { env_file, environments, items, command },
            );
            let direct = cli::planned_namespaced(
                CliCommand::Direct { env_file, environments, items, command },
            );
            &&& run is Ok <==> command@.len() > 0 && environments@.len() == 0
            &&& direct is Ok <==> command@.len() > 0 && environments@.len() == 0
            &&& run is Ok ==> run->Ok_0 == (CliTask::RunItems { env_file, items, command })
            &&& direct is Ok ==> direct->Ok_0 == (CliTask::RunItems { env_file, items, command })
        }),
{
}

/// The other commands are planned with their arguments as they are. `opz create` is refused, and
/// so is a vault with Environments.
pub proof fn law_others_planned(
    with_vault: bool,
    query: String,
    flag: bool,
    other: bool,
    third: bool,
    text: Option<String>,
    list: Vec<String>,
    items: Vec<String>,
)
    ensures
        cli::planned(with_vault, CliCommand::Find { query }) == Ok::<CliTask, Seq<char>>(
            CliTask::Find { query },
        ),
        cli::planned(with_vault, CliCommand::Note { file: query }) == Ok::<CliTask, Seq<char>>(
            CliTask::Note { file: query },
        ),
        cli::planned(with_vault, CliCommand::Show { with_item: flag, items }) == Ok::<
            CliTask,
            Seq<char>,
        >(CliTask::Show { with_item: flag, items }),
        cli::planned(with_vault, CliCommand::Gen { env_file: text, items }) == Ok::<
            CliTask,
            Seq<char>,
        >(CliTask::Gen { env_file: text, items }),
        cli::planned(
            with_vault,
            CliCommand::Migrate { dry_run: flag, create_new: other, restore: third },
        ) == Ok::<CliTask, Seq<char>>(
            CliTask::Migrate { dry_run: flag, create_new: other, restore: third },
        ),
        cli::planned(
            with_vault,
            CliCommand::GithubRepo { repositories: list, dry_run: flag, items },
        ) == Ok::<CliTask, Seq<char>>(
            CliTask::GithubRepo { repositories: list, dry_run: flag, items },
        ),
        cli::planned(
            with_vault,
            CliCommand::GithubSecret { repository: text, dry_run: flag, items },
        ) == Ok::<CliTask, Seq<char>>(
            CliTask::GithubSecret { repository: text, dry_run: flag, items },
        ),
        cli::planned(with_vault, CliCommand::Doctor) == Ok::<CliTask, Seq<char>>(CliTask::Doctor),
        cli::planned(with_vault, CliCommand::Skills) == Ok::<CliTask, Seq<char>>(CliTask::Skills),
        cli::planned(with_vault, CliCommand::Create) is Err,
{
}

/// Each Environment is named behind an option of its own, in order.
pub proof fn law_flagged(flag: Seq<char>, a: Seq<Seq<char>>, b: Seq<Seq<char>>, one: Seq<char>)
    ensures
        environment::flagged(flag, a + b) == environment::flagged(flag, a) + environment::flagged(
            flag,
            b,
        ),
        environment::flagged(flag, seq![one]) == seq![flag, one],
    decreases b.len(),
{
    reveal_with_fuel(environment::flagged, 2);
    assert(seq![one].drop_last() =~= Seq::<Seq<char>>::empty());
    assert(environment::flagged(flag, seq![one]) =~= seq![flag, one]);
    if b.len() == 0 {
        assert(a + b =~= a);
        assert(environment::flagged(flag, a) + environment::flagged(flag, b)
            =~= environment::flagged(flag, a));
    } else {
        law_flagged(flag, a, b.drop_last(), one);
        assert((a + b).drop_last() =~= a + b.drop_last());
        assert((a + b).last() == b.last());
        assert(environment::flagged(flag, a + b) =~= environment::flagged(flag, a)
            + environment::flagged(flag, b));
    }
}

/// The directory for caches is below what `XDG_CACHE_HOME` names, where it is set to something,
/// and else where the platform keeps caches.
pub proof fn law_cache_dir(platform: CachePlatform, env: CacheEnv)
    ensures
        env.xdg_cache_home is Some && env.xdg_cache_home->0@.len() > 0 ==> cache::cache_dir(
            platform,
            env,
        ) == Some((env.xdg_cache_home->0@, seq!["opz"@])),
        !(env.xdg_cache_home is Some && env.xdg_cache_home->0@.len() > 0) && !(platform is Windows)
            ==> cache::cache_dir(platform, env) == (match env.home {
            Some(home) => if platform is Macos {
                Some((home@, seq!["Library"@, "Caches"@, "dev.opz.opz"@]))
            } else {
                Some((home@, seq![".cache"@, "opz"@]))
            },
            None => None,
        }),
        !(env.xdg_cache_home is Some && env.xdg_cache_home->0@.len() > 0) && platform is Windows
            && env.local_app_data is Some && env.local_app_data->0@.len() > 0 ==> cache::cache_dir(
            platform,
            env,
        ) == Some((env.local_app_data->0@, seq!["opz"@])),
{
}

/// Of the items that were listed the one is taken that is the only one with the very title, or,
/// where none has it, the only one whose title holds it up to case; several are shown, and without
/// any the search fails.
pub proof fn law_list_choice(entries: Seq<op::EntryView>, title: Seq<char>, i: int)
    requires
        0 <= i < entries.len(),
    ensures
        entries[i].title == title && (forall|k: int|
            0 <= k < entries.len() && k != i ==> (#[trigger] entries[k]).title != title)
            ==> lookup::list_choice(entries, title) == (TurnView::GetItem { entry: entries[i] }),
        (forall|k: int| 0 <= k < entries.len() ==> (#[trigger] entries[k]).title != title)
            && text::holds(text::lowercased(entries[i].title), text::lowercased(title)) && (forall|
            k: int,
        |
            0 <= k < entries.len() && k != i ==> !text::holds(
                text::lowercased((#[trigger] entries[k]).title),
                text::lowercased(title),
            )) ==> lookup::list_choice(entries, title) == (TurnView::GetItem { entry: entries[i] }),
        lookup::list_choice(entries, title) is Failed <==> forall|k: int|
            0 <= k < entries.len() ==> (#[trigger] entries[k]).title != title && !text::holds(
                text::lowercased(entries[k].title),
                text::lowercased(title),
            ),
{
    let found = resolver::meant(entries, title);
    assert forall|k: int| 0 <= k < entries.len() implies (found.contains(k) <==> (
    #[trigger] entries[k]).title == title || ((forall|j: int|
        0 <= j < entries.len() ==> (#[trigger] entries[j]).title != title) && text::holds(
        text::lowercased(entries[k].title),
        text::lowercased(title),
    ))) by {
        resolver::law_meant(entries, title, k);
    }
    resolver::law_meant(entries, title, i);
    if found.len() > 0 {
        assert(found.contains(found[0]));
        assert(0 <= found[0] < entries.len());
        assert(entries[found[0]].title == title || text::holds(
            text::lowercased(entries[found[0]].title),
            text::lowercased(title),
        ));
    }
    let exactly = entries[i].title == title && (forall|k: int|
        0 <= k < entries.len() && k != i ==> (#[trigger] entries[k]).title != title);
    let loosely = (forall|k: int| 0 <= k < entries.len() ==> (#[trigger] entries[k]).title != title)
        && text::holds(text::lowercased(entries[i].title), text::lowercased(title)) && (forall|
        k: int,
    |
        0 <= k < entries.len() && k != i ==> !text::holds(
            text::lowercased((#[trigger] entries[k]).title),
            text::lowercased(title),
        ));
    if exactly || loosely {
        assert(found.contains(i));
        assert forall|j: int| 0 <= j < found.len() implies #[trigger] found[j] == i by {
            let k = found[j];
            assert(found.contains(k));
            assert(0 <= k < entries.len());
            if k != i {
                assert(entries[k].title != title);
                assert(found.contains(k) <==> entries[k].title == title || ((forall|j: int|
                    0 <= j < entries.len() ==> (#[trigger] entries[j]).title != title)
                    && text::holds(text::lowercased(entries[k].title), text::lowercased(title))));
            }
        }
        if found.len() > 1 {
            assert(found[0] < found[1]);
        }
        assert(found.len() == 1);
    }
    if forall|k: int| 0 <= k < entries.len() ==> (#[trigger] entries[k]).title != title
        && !text::holds(text::lowercased(entries[k].title), text::lowercased(title)) {
        assert(found.len() == 0);
    }
    if found.len() == 0 {
        assert forall|k: int| 0 <= k < entries.len() implies (#[trigger] entries[k]).title != title
            && !text::holds(text::lowercased(entries[k].title), text::lowercased(title)) by {
            assert(!found.contains(k));
            if entries[k].title != title {
                assert forall|j: int| 0 <= j < entries.len() implies (#[trigger] entries[j]).title
                    != title by {
                    assert(!found.contains(j));
                }
            }
        }
    }
}

/// The identifier for a word is the word in lower case, and each further word stands behind an
/// underscore, whatever stands between them.
pub proof fn law_label_id(label: Seq<char>, run: Seq<char>, word: Seq<char>, fallback: Seq<char>)
    requires
        secret_laws::is_word(word),
        run.len() > 0,
        forall|i: int|
            0 <= i < run.len() ==> !('a' <= #[trigger] run[i] <= 'z' || 'A' <= run[i] <= 'Z' || '0'
                <= run[i] <= '9'),
    ensures
        ids::label_id(word, fallback) == text::lowered(word),
        ids::slug(label).len() > 0 && ids::slug(label).last() != '_' ==> ids::label_id(
            label + run + word,
            fallback,
        ) == ids::slug(label) + seq!['_'] + text::lowered(word) && ids::slug(label + run + word)
            == ids::slug(label) + seq!['_'] + text::lowered(word),
{
    let none = Seq::<char>::empty();
    lemma_slug_word(none, word);
    assert(none + word =~= word);
    assert(none + text::lowered(word) =~= text::lowered(word));
    lemma_id_kept(none, word);
    if ids::slug(label).len() > 0 && ids::slug(label).last() != '_' {
        lemma_slug_run(label, run);
        lemma_slug_word(label + run, word);
        let start = ids::slug(label).push('_');
        assert(start =~= ids::slug(label) + seq!['_']);
        lemma_id_kept(start, word);
    }
}

/// An identifier that ends with a word keeps its end.
proof fn lemma_id_kept(start: Seq<char>, word: Seq<char>)
    requires
        secret_laws::is_word(word),
    ensures
        text::without_trailing(start + text::lowered(word), seq!['_']) == start + text::lowered(word),
{
    let id = start + text::lowered(word);
    let set = seq!['_'];
    assert(set[0] == '_');
    let last = word[word.len() - 1];
    assert('a' <= last <= 'z' || 'A' <= last <= 'Z' || '0' <= last <= '9');
    assert(id.last() == text::lower(last));
    if set.contains(id.last()) {
        assert(set[0] == id.last());
    }
}

/// A word is put in lower case.
proof fn lemma_slug_word(label: Seq<char>, word: Seq<char>)
    requires
        secret_laws::is_word(word),
    ensures
        ids::slug(label + word) == ids::slug(label) + text::lowered(word),
    decreases word.len(),
{
    let all = label + word;
    let less = word.drop_last();
    let last = word[word.len() - 1];
    assert('a' <= last <= 'z' || 'A' <= last <= 'Z' || '0' <= last <= '9');
    assert(all.drop_last() =~= label + less);
    assert(all.last() == last);
    let start = ids::slug(label);
    if less.len() > 0 {
        assert forall|i: int| 0 <= i < less.len() implies 'a' <= #[trigger] less[i] <= 'z' || 'A'
            <= less[i] <= 'Z' || '0' <= less[i] <= '9' by {
            assert(less[i] == word[i]);
        }
        lemma_slug_word(label, less);
        assert((start + text::lowered(less)).push(text::lower(last)) =~= start + text::lowered(
            word,
        ));
    } else {
        assert(label + less =~= label);
        assert(start.push(text::lower(last)) =~= start + text::lowered(word));
    }
}

/// A run of other characters gives one underscore.
proof fn lemma_slug_run(label: Seq<char>, run: Seq<char>)
    requires
        ids::slug(label).len() > 0,
        ids::slug(label).last() != '_',
        run.len() > 0,
        forall|i: int|
            0 <= i < run.len() ==> !('a' <= #[trigger] run[i] <= 'z' || 'A' <= run[i] <= 'Z' || '0'
                <= run[i] <= '9'),
    ensures
        ids::slug(label + run) == ids::slug(label).push('_'),
    decreases run.len(),
{
    let all = label + run;
    let less = run.drop_last();
    let last = run[run.len() - 1];
    assert(!('a' <= last <= 'z' || 'A' <= last <= 'Z' || '0' <= last <= '9'));
    assert(all.drop_last() =~= label + less);
    assert(all.last() == last);
    if less.len() > 0 {
        assert forall|i: int| 0 <= i < less.len() implies !('a' <= #[trigger] less[i] <= 'z' || 'A'
            <= less[i] <= 'Z' || '0' <= less[i] <= '9') by {
            assert(less[i] == run[i]);
        }
        lemma_slug_run(label, less);
    } else {
        assert(label + less =~= label);
    }
}

} // verus!
