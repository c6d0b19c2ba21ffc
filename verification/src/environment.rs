//! Running commands with 1Password Environments.

use vstd::prelude::*;
use vstd::string::*;

use crate::failure;
use crate::failure::Failure;
use crate::seqs;
use crate::text;

verus! {

broadcast use crate::seqs::group_seqs;

/// The check that nothing is combined with an Environment that cannot be.
pub open spec fn environment_check(
    vault: Option<Seq<char>>,
    items: nat,
    env_file: Option<Seq<char>>,
) -> Result<(), Seq<Seq<char>>> {
    if vault is Some {
        Err(
            seq![
                "`--vault "@ + vault->0
                    + "` cannot be combined with `--environment` because 1Password Environments are not vault item lookups. Remove `--vault` or use item-backed `opz run <ITEM> -- <COMMAND>`."@,
            ],
        )
    } else if items > 0 {
        Err(
            seq![
                "`--environment` cannot be combined with item arguments in v1. Use either `opz run --environment <ENV> -- <COMMAND>` or item-backed `opz run <ITEM> -- <COMMAND>`."@,
            ],
        )
    } else if env_file is Some {
        Err(
            seq![
                "`--environment` cannot be combined with `--env-file` in v1 because Environment execution is delegated to `op run`. Remove `--env-file` or use item-backed `opz gen --env-file "@
                    + env_file->0 + "`."@,
            ],
        )
    } else {
        Ok(())
    }
}

/// Checks that nothing is combined with an Environment that cannot be.
pub fn check_environment_run(vault: Option<&str>, items: &[String], env_file: Option<&str>) -> (r:
    Result<(), Failure>)
    ensures
        failure::told_unit(r) == environment_check(
            vault.deep_view(),
            items@.len(),
            env_file.deep_view(),
        ),
{
    if let Some(vault) = vault {
        return Err(
            Failure::new(
                "`--vault ".to_owned().concat(vault).concat(
                    "` cannot be combined with `--environment` because 1Password Environments are not vault item lookups. Remove `--vault` or use item-backed `opz run <ITEM> -- <COMMAND>`.",
                ),
            ),
        );
    }
    if items.len() > 0 {
        return Err(
            failure::fail(
                "`--environment` cannot be combined with item arguments in v1. Use either `opz run --environment <ENV> -- <COMMAND>` or item-backed `opz run <ITEM> -- <COMMAND>`.",
            ),
        );
    }
    if let Some(path) = env_file {
        return Err(
            Failure::new(
                "`--environment` cannot be combined with `--env-file` in v1 because Environment execution is delegated to `op run`. Remove `--env-file` or use item-backed `opz gen --env-file ".to_owned().concat(
                    path,
                ).concat("`."),
            ),
        );
    }
    Ok(())
}

/// The option for Environments that a help text speaks of.
pub open spec fn flag_in(help: Seq<char>) -> Option<Seq<char>> {
    if text::holds(help, "--environments"@) {
        Some("--environments"@)
    } else if text::holds(help, "--environment"@) {
        Some("--environment"@)
    } else {
        None
    }
}

/// The option for Environments that a help text speaks of.
pub fn detect_environment_flag_from_help(help: &str) -> (r: Option<&'static str>)
    ensures
        r.deep_view() == flag_in(help@),
{
    if text::contains(help, "--environments") {
        Some("--environments")
    } else if text::contains(help, "--environment") {
        Some("--environment")
    } else {
        None
    }
}

/// The option for Environments, from what `op run --help` came to.
pub fn environment_flag(success: bool, stdout: &[u8], stderr: &[u8]) -> (r: Result<
    &'static str,
    Failure,
>)
    ensures
        if !success {
            failure::failed(r, "failed to inspect `op run --help`: "@ + text::lossy(stderr@))
        } else {
            match flag_in(text::lossy(stdout@)) {
                Some(flag) => r matches Ok(found) && found@ == flag,
                None => failure::failed(
                    r,
                    "This 1Password CLI does not expose Environment runtime injection in `op run --help`. Use item-backed `opz run <ITEM> -- <COMMAND>`, or use the 1Password MCP server to mount a local .env file for this project."@,
                ),
            }
        },
{
    if !success {
        return Err(
            Failure::new(
                "failed to inspect `op run --help`: ".to_owned().concat(&text::lossy_text(stderr)),
            ),
        );
    }
    match detect_environment_flag_from_help(&text::lossy_text(stdout)) {
        Some(flag) => Ok(flag),
        None => Err(
            failure::fail(
                "This 1Password CLI does not expose Environment runtime injection in `op run --help`. Use item-backed `opz run <ITEM> -- <COMMAND>`, or use the 1Password MCP server to mount a local .env file for this project.",
            ),
        ),
    }
}

/// Each Environment after the option.
pub open spec fn flagged(flag: Seq<char>, environments: Seq<Seq<char>>) -> Seq<Seq<char>>
    decreases environments.len(),
{
    if environments.len() == 0 {
        Seq::empty()
    } else {
        flagged(flag, environments.drop_last()) + seq![flag, environments.last()]
    }
}

/// The arguments of `op` for a run with Environments. No secret is among them.
pub fn build_op_run_environment_args(flag: &str, environments: &[String], command: &[String]) -> (r:
    Vec<String>)
    ensures
        seqs::texts(r@) == seq!["run"@] + flagged(flag@, seqs::texts(environments@)) + seq!["--"@]
            + seqs::texts(command@),
{
    let ghost all = seqs::texts(environments@);
    let mut args = seqs::no_texts();
    seqs::push_text(&mut args, "run");
    let mut i: usize = 0;
    assert(seqs::texts(args@) =~= seq!["run"@] + Seq::<Seq<char>>::empty());
    while i < environments.len()
        invariant
            i <= environments@.len(),
            all == seqs::texts(environments@),
            seqs::texts(args@) == seq!["run"@] + flagged(flag@, all.take(i as int)),
        decreases environments@.len() - i,
    {
        let ghost before = flagged(flag@, all.take(i as int));
        proof {
            assert(all.take(i + 1).drop_last() == all.take(i as int));
            assert(all.take(i + 1).last() == environments@[i as int]@);
        }
        seqs::push_text(&mut args, flag);
        seqs::push_text(&mut args, &environments[i]);
        assert(seqs::texts(args@) =~= seq!["run"@] + (before + seq![
            flag@,
            environments@[i as int]@,
        ]));
        i += 1;
    }
    seqs::push_text(&mut args, "--");
    seqs::push_texts(&mut args, command);
    args
}

} // verus!
