//! Storing the fields of items as secrets of repositories and workers.

use vstd::prelude::*;
use vstd::string::*;

use crate::envfile;
use crate::failure;
use crate::failure::Failure;
use crate::json::{Json, JsonView};
use crate::map::StringMap;
use crate::op;
use crate::pattern;
use crate::resolver::{ItemGithubRepositories, RepositoriesView};
use crate::seqs;
use crate::text;

verus! {

broadcast use crate::seqs::group_seqs;

/// The check of the name of a secret.
pub open spec fn secret_name_check(name: Seq<char>, target: Seq<char>) -> Result<
    (),
    Seq<Seq<char>>,
> {
    if pattern::is_name(name) {
        Ok(())
    } else {
        Err(seq!["Invalid "@ + target + " secret name: "@ + name])
    }
}

/// Checks the name of a secret.
pub fn validate_secret_name(name: &str, target_name: &str) -> (r: Result<(), Failure>)
    ensures
        failure::told_unit(r) == secret_name_check(name@, target_name@),
{
    if pattern::matches_name(name) {
        Ok(())
    } else {
        Err(
            Failure::new(
                "Invalid ".to_owned().concat(target_name).concat(" secret name: ").concat(name),
            ),
        )
    }
}

/// The keys of the lines that have one.
pub open spec fn line_keys(lines: Seq<Seq<char>>) -> Seq<Seq<char>>
    decreases lines.len(),
{
    if lines.len() == 0 {
        Seq::empty()
    } else {
        let before = line_keys(lines.drop_last());
        match envfile::env_key(lines.last()) {
            Some(key) => before.push(key),
            None => before,
        }
    }
}

/// The keys of the lines that have one.
fn keys_of_lines(lines: &[String]) -> (r: Vec<String>)
    ensures
        seqs::texts(r@) == line_keys(seqs::texts(lines@)),
{
    let ghost all = seqs::texts(lines@);
    let mut r = seqs::no_texts();
    let mut i: usize = 0;
    while i < lines.len()
        invariant
            i <= lines@.len(),
            all == seqs::texts(lines@),
            seqs::texts(r@) == line_keys(all.take(i as int)),
        decreases lines@.len() - i,
    {
        proof {
            assert(all.take(i + 1).drop_last() == all.take(i as int));
            assert(all.take(i + 1).last() == lines@[i as int]@);
        }
        if let Some(key) = envfile::parse_env_key(&lines[i]) {
            seqs::push_text(&mut r, &key);
        }
        i += 1;
    }
    r
}

/// The check of a name for a target.
pub open spec fn target_name_check(target: Seq<char>) -> spec_fn(Seq<char>) -> Result<
    (),
    Seq<Seq<char>>,
> {
    |name: Seq<char>| secret_name_check(name, target)
}

/// The names of the secrets that lines are for, where all are well formed.
pub open spec fn secret_names(lines: Seq<Seq<char>>, target: Seq<char>) -> Result<
    Seq<Seq<char>>,
    Seq<Seq<char>>,
> {
    match seqs::each(line_keys(lines), target_name_check(target)) {
        Ok(_) => Ok(line_keys(lines)),
        Err(e) => Err(e),
    }
}

/// The names of the secrets that lines are for.
pub fn validate_secret_lines(env_lines: &[String], target_name: &str) -> (r: Result<
    Vec<String>,
    Failure,
>)
    ensures
        failure::told_texts(r) == secret_names(seqs::texts(env_lines@), target_name@),
{
    let names = keys_of_lines(env_lines);
    let ghost all = seqs::texts(names@);
    let ghost f = target_name_check(target_name@);
    let mut i: usize = 0;
    assert(all.take(0) =~= Seq::<Seq<char>>::empty());
    while i < names.len()
        invariant
            i <= names@.len(),
            all == seqs::texts(names@),
            all == line_keys(seqs::texts(env_lines@)),
            f == target_name_check(target_name@),
            seqs::each(all.take(i as int), f) is Ok,
        decreases names@.len() - i,
    {
        proof {
            seqs::lemma_each(all, f, i as int);
            assert(all[i as int] == names@[i as int]@);
        }
        if let Err(e) = validate_secret_name(&names[i], target_name) {
            return Err(e);
        }
        i += 1;
    }
    Ok(names)
}

/// The names of the Worker secrets that lines are for.
pub fn validate_cloudflare_secret_lines(env_lines: &[String]) -> (r: Result<Vec<String>, Failure>)
    ensures
        failure::told_texts(r) == secret_names(seqs::texts(env_lines@), "Cloudflare"@),
{
    validate_secret_lines(env_lines, "Cloudflare")
}

/// The check that GitHub does not reserve a name.
pub open spec fn reserved_check() -> spec_fn(Seq<char>) -> Result<(), Seq<Seq<char>>> {
    |name: Seq<char>|
        if text::begins(text::uppered(name), "GITHUB_"@) {
            Err(seq!["GitHub secret name cannot start with reserved prefix GITHUB_: "@ + name])
        } else {
            Ok(())
        }
}

/// Checks that GitHub does not reserve a name.
fn check_reserved(name: &str) -> (r: Result<(), Failure>)
    ensures
        failure::told_unit(r) == reserved_check()(name@),
{
    if text::starts_with(&text::to_ascii_uppercase(name), "GITHUB_") {
        Err(
            Failure::new(
                "GitHub secret name cannot start with reserved prefix GITHUB_: ".to_owned().concat(
                    name,
                ),
            ),
        )
    } else {
        Ok(())
    }
}

/// Checks the name of a GitHub secret.
pub fn validate_github_secret_name(name: &str) -> (r: Result<(), Failure>)
    ensures
        failure::told_unit(r) == seqs::both(
            secret_name_check(name@, "GitHub"@),
            reserved_check()(name@),
        ),
{
    if let Err(e) = validate_secret_name(name, "GitHub") {
        return Err(e);
    }
    check_reserved(name)
}

/// The names of the GitHub secrets that lines are for.
pub open spec fn github_names(lines: Seq<Seq<char>>) -> Result<Seq<Seq<char>>, Seq<Seq<char>>> {
    match secret_names(lines, "GitHub"@) {
        Err(e) => Err(e),
        Ok(names) => match seqs::each(names, reserved_check()) {
            Err(e) => Err(e),
            Ok(_) => Ok(names),
        },
    }
}

/// The names of the GitHub secrets that lines are for.
pub fn validate_github_secret_lines(env_lines: &[String]) -> (r: Result<Vec<String>, Failure>)
    ensures
        failure::told_texts(r) == github_names(seqs::texts(env_lines@)),
{
    let names = match validate_secret_lines(env_lines, "GitHub") {
        Ok(names) => names,
        Err(e) => return Err(e),
    };
    let ghost all = seqs::texts(names@);
    let ghost f = reserved_check();
    let mut i: usize = 0;
    assert(all.take(0) =~= Seq::<Seq<char>>::empty());
    while i < names.len()
        invariant
            i <= names@.len(),
            all == seqs::texts(names@),
            secret_names(seqs::texts(env_lines@), "GitHub"@) == Ok::<
                Seq<Seq<char>>,
                Seq<Seq<char>>,
            >(all),
            f == reserved_check(),
            seqs::each(all.take(i as int), f) is Ok,
        decreases names@.len() - i,
    {
        proof {
            seqs::lemma_each(all, f, i as int);
            assert(all[i as int] == names@[i as int]@);
        }
        if let Err(e) = check_reserved(&names[i]) {
            return Err(e);
        }
        i += 1;
    }
    Ok(names)
}

/// No GitHub secret gets a name that is reserved or that is not one of a variable.
pub proof fn law_github_names_allowed(lines: Seq<Seq<char>>, i: int)
    requires
        github_names(lines) is Ok,
        0 <= i < github_names(lines)->Ok_0.len(),
    ensures
        pattern::is_name(github_names(lines)->Ok_0[i]),
        !text::begins(text::uppered(github_names(lines)->Ok_0[i]), "GITHUB_"@),
{
    let names = line_keys(lines);
    seqs::lemma_each_ok(names, target_name_check("GitHub"@), i);
    seqs::lemma_each_ok(names, reserved_check(), i);
}

/// Checks that there is a secret to set.
pub fn check_any_secret(names: &[String], target: &str) -> (r: Result<(), Failure>)
    ensures
        failure::told_unit(r) == (if names@.len() == 0 {
            Err(seq!["No valid "@ + target@ + " secret fields found"@])
        } else {
            Ok(())
        }),
{
    if names.len() == 0 {
        Err(
            Failure::new("No valid ".to_owned().concat(target).concat(" secret fields found")),
        )
    } else {
        Ok(())
    }
}

/// The check that an item may go to a repository.
pub open spec fn repository_check(target: Seq<char>, normalized: Seq<char>) -> spec_fn(
    RepositoriesView,
) -> Result<(), Seq<Seq<char>>> {
    |item: RepositoriesView|
        if item.repositories.len() == 0 || op::repo_specs(item.repositories).contains(normalized) {
            Ok(())
        } else {
            Err(
                seq![
                    "GitHub repository mismatch for item `"@ + item.item_title + "`: target `"@
                        + target
                        + "` is not listed in `github_repositories`. Add the repository to the item metadata or pass a matching --repo."@,
                ],
            )
        }
}

/// The titles of the items that name no repository.
pub open spec fn unassigned(items: Seq<RepositoriesView>) -> Seq<Seq<char>>
    decreases items.len(),
{
    if items.len() == 0 {
        Seq::empty()
    } else {
        let before = unassigned(items.drop_last());
        if items.last().repositories.len() == 0 {
            before.push(items.last().item_title)
        } else {
            before
        }
    }
}

/// What is said of items that name no repository.
pub open spec fn unassigned_warning(titles: Seq<Seq<char>>) -> Option<Seq<char>> {
    if titles.len() == 0 {
        None
    } else {
        Some(
            "Warning: item(s) missing `github_repositories` metadata: "@ + text::joined(
                titles,
                ", "@,
            ) + ". Add one owner/repo per line to prevent GitHub secret misdelivery."@,
        )
    }
}

/// What the guard of a repository came to.
pub open spec fn told_guard(r: Result<Option<String>, Failure>) -> Result<
    Option<Seq<char>>,
    Seq<Seq<char>>,
> {
    match r {
        Ok(warning) => Ok(warning.deep_view()),
        Err(e) => Err(e@),
    }
}

/// What the guard of a repository says.
pub open spec fn guarded(target: Seq<char>, items: Seq<RepositoriesView>) -> Result<
    Option<Seq<char>>,
    Seq<Seq<char>>,
> {
    match op::repo_spec(target) {
        None => Err(seq!["Invalid GitHub repository: "@ + target]),
        Some(normalized) => match seqs::each(items, repository_check(target, normalized)) {
            Err(e) => Err(e),
            Ok(_) => Ok(unassigned_warning(unassigned(items))),
        },
    }
}

/// Secrets go to a repository exactly where it is one and every item that names repositories names
/// it.
pub proof fn law_guard(target: Seq<char>, items: Seq<RepositoriesView>)
    ensures
        guarded(target, items) is Ok <==> op::repo_spec(target) is Some && forall|i: int|
            0 <= i < items.len() ==> (#[trigger] items[i]).repositories.len() == 0
                || op::repo_specs(items[i].repositories).contains(op::repo_spec(target)->0),
    decreases items.len(),
{
    if items.len() > 0 && op::repo_spec(target) is Some {
        let front = items.drop_last();
        law_guard(target, front);
        let normalized = op::repo_spec(target)->0;
        assert(repository_check(target, normalized)(items.last()) is Ok
            <==> items.last().repositories.len() == 0 || op::repo_specs(
            items.last().repositories,
        ).contains(normalized));
        assert(forall|i: int| 0 <= i < front.len() ==> #[trigger] items[i] == front[i]);
        assert(forall|i: int| 0 <= i < front.len() ==> #[trigger] front[i] == items[i]);
    }
}

/// Checks that every item which names repositories names the one that its secrets go to. The
/// result is a warning about the items that name none.
pub fn guard_github_secret_repo(resolved_repo: &str, items: &Vec<ItemGithubRepositories>) -> (r:
    Result<Option<String>, Failure>)
    ensures
        told_guard(r) == guarded(resolved_repo@, items.deep_view()),
{
    let normalized = match op::normalize_github_repo_spec(resolved_repo) {
        Some(normalized) => normalized,
        None => return Err(
            Failure::new("Invalid GitHub repository: ".to_owned().concat(resolved_repo)),
        ),
    };
    let ghost all = items.deep_view();
    let ghost f = repository_check(resolved_repo@, normalized@);
    let mut missing = seqs::no_texts();
    let mut i: usize = 0;
    assert(all.take(0) =~= Seq::<RepositoriesView>::empty());
    while i < items.len()
        invariant
            i <= items@.len(),
            all == items.deep_view(),
            f == repository_check(resolved_repo@, normalized@),
            op::repo_spec(resolved_repo@) == Some(normalized@),
            seqs::each(all.take(i as int), f) is Ok,
            seqs::texts(missing@) == unassigned(all.take(i as int)),
        decreases items@.len() - i,
    {
        let item = &items[i];
        proof {
            seqs::lemma_each(all, f, i as int);
            assert(all[i as int] == item.deep_view());
            assert(all.take(i + 1).drop_last() == all.take(i as int));
            assert(item.deep_view().repositories.len() == item.repositories@.len());
        }
        if item.repositories.len() == 0 {
            seqs::push_text(&mut missing, &item.item_title);
        } else {
            let allowed = op::normalize_repo_specs(&item.repositories);
            if !seqs::has_text(&allowed, &normalized) {
                return Err(
                    Failure::new(
                        "GitHub repository mismatch for item `".to_owned().concat(
                            &item.item_title,
                        ).concat("`: target `").concat(resolved_repo).concat(
                            "` is not listed in `github_repositories`. Add the repository to the item metadata or pass a matching --repo.",
                        ),
                    ),
                );
            }
        }
        i += 1;
    }
    assert(seqs::texts(missing@).len() == missing@.len());
    if missing.len() == 0 {
        Ok(None)
    } else {
        Ok(
            Some(
                "Warning: item(s) missing `github_repositories` metadata: ".to_owned().concat(
                    &text::join(&missing, ", "),
                ).concat(". Add one owner/repo per line to prevent GitHub secret misdelivery."),
            ),
        )
    }
}

/// The repository that `gh repo view` printed.
pub fn read_current_repo(success: bool, stdout: &[u8], stderr: &[u8]) -> (r: Result<
    String,
    Failure,
>)
    ensures
        failure::told_text(r) == (if !success {
            Err(seq!["gh repo view failed: "@ + text::lossy(stderr@)])
        } else if !vstd::utf8::valid_utf8(stdout@) {
            Err(
                seq![
                    "gh repo view output was not valid UTF-8"@,
                    text::utf8_refusal(stdout@),
                ],
            )
        } else {
            let repo = text::trimmed(vstd::utf8::decode_utf8(stdout@));
            if repo.len() == 0 {
                Err(seq!["gh repo view returned an empty repository name"@])
            } else {
                Ok(repo)
            }
        }),
{
    if !success {
        return Err(
            Failure::new("gh repo view failed: ".to_owned().concat(&text::lossy_text(stderr))),
        );
    }
    match text::utf8_text(stdout) {
        Err(e) => {
            let ghost reason = e@;
            let failure = Failure::new(e).context(
                "gh repo view output was not valid UTF-8".to_owned(),
            );
            assert(failure@ =~= seq!["gh repo view output was not valid UTF-8"@, reason]);
            Err(failure)
        },
        Ok(printed) => {
            let repo = text::trim(printed);
            if repo.unicode_len() == 0 {
                Err(failure::fail("gh repo view returned an empty repository name"))
            } else {
                Ok(repo.to_owned())
            }
        },
    }
}

/// The arguments of `gh` that set a secret. The secret itself is not among them.
pub fn build_gh_secret_set_args(repo: &str, name: &str) -> (r: Vec<String>)
    ensures
        seqs::texts(r@) == seq!["secret"@, "set"@, name@, "--repo"@, repo@],
{
    let mut args = seqs::no_texts();
    seqs::push_text(&mut args, "secret");
    seqs::push_text(&mut args, "set");
    seqs::push_text(&mut args, name);
    seqs::push_text(&mut args, "--repo");
    seqs::push_text(&mut args, repo);
    assert(seqs::texts(args@) =~= seq!["secret"@, "set"@, name@, "--repo"@, repo@]);
    args
}

/// The line about a secret of a repository.
pub fn github_secret_line(dry_run: bool, name: &str, repo: &str) -> (r: String)
    ensures
        r@ == (if dry_run {
            "Would set GitHub secret "@
        } else {
            "Set GitHub secret "@
        }) + name@ + " in "@ + repo@,
{
    let start = if dry_run {
        "Would set GitHub secret "
    } else {
        "Set GitHub secret "
    };
    start.to_owned().concat(name).concat(" in ").concat(repo)
}

/// The value of a secret among those that were resolved.
pub fn resolved_secret<'a>(values: &'a StringMap<String>, name: &str, kind: &str) -> (r: Result<
    &'a String,
    Failure,
>)
    ensures
        match crate::map::lookup(values.strings(), name@) {
            Some(value) => r matches Ok(found) && found@ == value,
            None => failure::failed(r, "resolved value missing for "@ + kind@ + name@),
        },
{
    match values.get_text(name) {
        Some(value) => Ok(value),
        None => Err(
            Failure::new("resolved value missing for ".to_owned().concat(kind).concat(name)),
        ),
    }
}

/// The worker that secrets go to.
#[derive(Clone, Copy, Debug)]
pub struct CloudflareSecretTarget<'a> {
    pub name: Option<&'a str>,
    pub env: Option<&'a str>,
    pub config: Option<&'a str>,
}

/// How the worker is called.
pub fn cloudflare_target_label(target: CloudflareSecretTarget) -> (r: String)
    ensures
        ({
            let worker = match target.name {
                Some(name) => name@,
                None => "wrangler config default worker"@,
            };
            r@ == (match target.env {
                Some(env) => worker + " ("@ + env@ + ")"@,
                None => worker,
            })
        }),
{
    let worker = match target.name {
        Some(name) => name,
        None => "wrangler config default worker",
    };
    match target.env {
        Some(env) => worker.to_owned().concat(" (").concat(env).concat(")"),
        None => worker.to_owned(),
    }
}

/// An option with its value, where there is one.
pub open spec fn option_args(name: Seq<char>, value: Option<Seq<char>>) -> Seq<Seq<char>> {
    match value {
        Some(v) => seq![name, v],
        None => Seq::empty(),
    }
}

/// Appends an option with its value, where there is one.
fn push_option(args: &mut Vec<String>, name: &str, value: Option<&str>)
    ensures
        seqs::texts(final(args)@) == seqs::texts(old(args)@) + option_args(
            name@,
            value.deep_view(),
        ),
{
    let ghost before = seqs::texts(args@);
    match value {
        Some(v) => {
            seqs::push_text(args, name);
            seqs::push_text(args, v);
            assert(seqs::texts(args@) =~= before + seq![name@, v@]);
        },
        None => {
            assert(before + Seq::<Seq<char>>::empty() =~= before);
        },
    }
}

/// The arguments of `wrangler` that set secrets. No secret is among them.
pub fn build_wrangler_secret_bulk_args(target: CloudflareSecretTarget) -> (r: Vec<String>)
    ensures
        seqs::texts(r@) == seq!["secret"@, "bulk"@] + option_args(
            "--name"@,
            target.name.deep_view(),
        ) + option_args("--env"@, target.env.deep_view()) + option_args(
            "--config"@,
            target.config.deep_view(),
        ),
{
    let mut args = seqs::no_texts();
    seqs::push_text(&mut args, "secret");
    seqs::push_text(&mut args, "bulk");
    assert(seqs::texts(args@) =~= seq!["secret"@, "bulk"@]);
    push_option(&mut args, "--name", target.name);
    push_option(&mut args, "--env", target.env);
    push_option(&mut args, "--config", target.config);
    args
}

/// An object with the values of the first `n` names.
pub open spec fn payload(
    names: Seq<Seq<char>>,
    n: int,
    values: Seq<(Seq<char>, Seq<char>)>,
) -> Result<JsonView, Seq<Seq<char>>>
    decreases n,
{
    if n <= 0 {
        Ok(JsonView::object())
    } else {
        match payload(names, n - 1, values) {
            Err(e) => Err(e),
            Ok(before) => match crate::map::lookup(values, names[n - 1]) {
                Some(value) => Ok(before.with(names[n - 1], JsonView::Text(value))),
                None => Err(seq!["resolved value missing for secret "@ + names[n - 1]]),
            },
        }
    }
}

/// A name without a value is a failure for all.
proof fn lemma_payload_stops(
    names: Seq<Seq<char>>,
    n: int,
    m: int,
    values: Seq<(Seq<char>, Seq<char>)>,
)
    requires
        0 <= n <= m,
        payload(names, n, values) is Err,
    ensures
        payload(names, m, values) == payload(names, n, values),
    decreases m,
{
    if n < m {
        lemma_payload_stops(names, n, m - 1, values);
    }
}

/// An object with the values of names.
pub fn build_secret_object(secret_names: &[String], env_vars: &StringMap<String>) -> (r: Result<
    Json,
    Failure,
>)
    ensures
        crate::process::told_json(r) == payload(
            seqs::texts(secret_names@),
            secret_names@.len() as int,
            env_vars.strings(),
        ),
{
    let ghost all = seqs::texts(secret_names@);
    let ghost values = env_vars.strings();
    let mut object = Json::object();
    let mut i: usize = 0;
    while i < secret_names.len()
        invariant
            i <= secret_names@.len(),
            all == seqs::texts(secret_names@),
            values == env_vars.strings(),
            payload(all, i as int, values) == Ok::<JsonView, Seq<Seq<char>>>(object@),
        decreases secret_names@.len() - i,
    {
        proof {
            assert(all[i as int] == secret_names@[i as int]@);
            if payload(all, i + 1, values) is Err {
                lemma_payload_stops(all, i + 1, all.len() as int, values);
            }
        }
        match resolved_secret(env_vars, &secret_names[i], "secret ") {
            Ok(value) => {
                object = object.with(&secret_names[i], Json::text(value));
            },
            Err(e) => {
                assert("resolved value missing for "@ + "secret "@ + all[i as int]
                    =~= "resolved value missing for secret "@ + all[i as int]) by {
                    reveal_strlit("resolved value missing for ");
                    reveal_strlit("secret ");
                    reveal_strlit("resolved value missing for secret ");
                }
                return Err(e);
            },
        }
        i += 1;
    }
    Ok(object)
}

/// The JSON text with the values of names.
pub fn build_secret_json_payload(secret_names: &[String], env_vars: &StringMap<String>) -> (r: Result<
    String,
    Failure,
>)
    ensures
        failure::told_text(r) == (match payload(
            seqs::texts(secret_names@),
            secret_names@.len() as int,
            env_vars.strings(),
        ) {
            Ok(object) => Ok(crate::json::printed(object)),
            Err(e) => Err(e),
        }),
{
    match build_secret_object(secret_names, env_vars) {
        Ok(object) => Ok(object.print()),
        Err(e) => Err(e),
    }
}

/// The line about a secret of a worker: that it would be set in the target, or that it was set.
pub fn cloudflare_secret_line(dry_run: bool, name: &str, target: &str) -> (r: String)
    ensures
        r@ == (if dry_run {
            "Would set Cloudflare Worker secret "@ + name@ + " in "@ + target@
        } else {
            "Set Cloudflare Worker secret "@ + name@
        }),
{
    if dry_run {
        "Would set Cloudflare Worker secret ".to_owned().concat(name).concat(" in ").concat(target)
    } else {
        "Set Cloudflare Worker secret ".to_owned().concat(name)
    }
}

} // verus!
