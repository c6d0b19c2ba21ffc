//! Resolving references to secrets: which way is tried after which.

use vstd::prelude::*;

use crate::envfile;
use crate::failure::Failure;
use crate::json::{Json, JsonView};
use crate::map::StringMap;
use crate::resolver;
use crate::resolver::BatchStep;
use crate::sdk;
use crate::security::SecretValue;
use crate::seqs;
use crate::text;

verus! {

broadcast use crate::seqs::group_seqs;

/// What to do next: ask the SDK for all secrets, let `op` run with a file that names them all, read
/// them one by one, or end.
pub enum ResolveTurn {
    Sdk(Json),
    Batch(String),
    ReadEach,
    Done(StringMap<SecretValue>),
    Failed(Failure),
}

/// The content of a `ResolveTurn`.
pub enum TurnView {
    Sdk(JsonView),
    Batch(Seq<char>),
    ReadEach,
    Done(Seq<(Seq<char>, Seq<char>)>),
    Failed(Seq<Seq<char>>),
}

impl DeepView for ResolveTurn {
    type V = TurnView;

    open spec fn deep_view(&self) -> TurnView {
        match self {
            ResolveTurn::Sdk(parameters) => TurnView::Sdk(parameters@),
            ResolveTurn::Batch(file) => TurnView::Batch(file@),
            ResolveTurn::ReadEach => TurnView::ReadEach,
            ResolveTurn::Done(values) => TurnView::Done(values.deep()),
            ResolveTurn::Failed(failure) => TurnView::Failed(failure@),
        }
    }
}

/// The references of variables.
pub open spec fn referred(refs: Seq<(Seq<char>, Seq<char>)>) -> Seq<Seq<char>> {
    Seq::new(refs.len(), |i: int| refs[i].1)
}

/// The request for all secrets.
pub open spec fn sdk_request(refs: Seq<(Seq<char>, Seq<char>)>) -> JsonView {
    JsonView::object().with("references"@, JsonView::Array(sdk::text_values(referred(refs))))
}

/// The step in which `op` runs with a file that names all secrets.
pub open spec fn batch_step(refs: Seq<(Seq<char>, Seq<char>)>) -> TurnView {
    TurnView::Batch(text::lined(resolver::batch_lines(refs)))
}

/// The references of variables.
fn list_references(refs: &[(String, String)]) -> (r: Vec<String>)
    ensures
        seqs::texts(r@) == referred(envfile::pairs(refs@)),
{
    let ghost all = referred(envfile::pairs(refs@));
    let mut r = seqs::no_texts();
    let mut i: usize = 0;
    while i < refs.len()
        invariant
            i <= refs@.len(),
            all == referred(envfile::pairs(refs@)),
            seqs::texts(r@) == all.take(i as int),
        decreases refs@.len() - i,
    {
        seqs::push_text(&mut r, &refs[i].1);
        assert(all.take(i + 1) =~= all.take(i as int).push(refs@[i as int].1@));
        i += 1;
    }
    r
}

/// The first step. Without references there is nothing to resolve.
pub fn start_resolve(refs: &[(String, String)], sdk: bool) -> (r: ResolveTurn)
    ensures
        r.deep_view() == (if refs@.len() == 0 {
            TurnView::Done(Seq::empty())
        } else if sdk {
            TurnView::Sdk(sdk_request(envfile::pairs(refs@)))
        } else {
            batch_step(envfile::pairs(refs@))
        }),
{
    if refs.len() == 0 {
        return ResolveTurn::Done(StringMap::without_secrets());
    }
    if sdk {
        let references = list_references(refs);
        return ResolveTurn::Sdk(Json::object().with("references", sdk::text_array(&references)));
    }
    ResolveTurn::Batch(resolver::build_batch_env_file(refs))
}

/// The values that the SDK gives the variables, if it gives them.
pub open spec fn sdk_values(refs: Seq<(Seq<char>, Seq<char>)>, response: JsonView) -> Option<
    Seq<(Seq<char>, Seq<char>)>,
> {
    match crate::json::items_of(response) {
        None => None,
        Some(items) => match resolver::text_list(
            items,
            seq!["parse isolated Desktop SDK secret response"@],
        ) {
            Ok(values) => if values.len() == refs.len() {
                Some(resolver::zipped(refs, values, refs.len() as int))
            } else {
                None
            },
            Err(_) => None,
        },
    }
}

/// The step after the SDK was asked. Where it did not give all values, `op` is.
pub fn after_sdk(refs: &[(String, String)], outcome: Result<Json, Failure>) -> (r: ResolveTurn)
    ensures
        r.deep_view() == (match outcome {
            Err(_) => batch_step(envfile::pairs(refs@)),
            Ok(response) => match sdk_values(envfile::pairs(refs@), response@) {
                Some(values) => TurnView::Done(values),
                None => batch_step(envfile::pairs(refs@)),
            },
        }),
{
    if let Ok(response) = outcome {
        if let Ok(values) = resolver::sdk_secret_values(&response) {
            assert(seqs::texts(values@).len() == values@.len());
            assert(envfile::pairs(refs@).len() == refs@.len());
            if let Ok(found) = resolver::pair_sdk_values(refs, &values) {
                return ResolveTurn::Done(found);
            }
        }
    }
    ResolveTurn::Batch(resolver::build_batch_env_file(refs))
}

/// What the output of a run of `op` leads to: where it does not give all values, to reading the
/// secrets one by one.
pub open spec fn batch_outcome(refs: Seq<(Seq<char>, Seq<char>)>, stdout: Seq<u8>) -> TurnView {
    let values = resolver::batch_values(text::zero_pieces(stdout), refs);
    if values.len() == refs.len() {
        TurnView::Done(values)
    } else {
        TurnView::ReadEach
    }
}

/// A decimal number is made of digits.
proof fn lemma_decimal_digits(n: nat)
    ensures
        forall|k: int| 0 <= k < text::decimal(n).len() ==> text::is_digit(
            #[trigger] text::decimal(n)[k],
        ),
    decreases n,
{
    let last = text::digit(n % 10);
    assert(text::is_digit(last));
    if n >= 10 {
        lemma_decimal_digits(n / 10);
        assert forall|k: int| 0 <= k < text::decimal(n).len() implies text::is_digit(
            #[trigger] text::decimal(n)[k],
        ) by {
            if k < text::decimal(n / 10).len() {
                assert(text::decimal(n)[k] == text::decimal(n / 10)[k]);
            }
        }
    }
}

/// The message of an incomplete batch speaks of no timeout.
proof fn lemma_incomplete_is_no_timeout(got: nat, asked: nat)
    ensures
        !resolver::is_timeout(
            seq![resolver::incomplete("batch resolution was incomplete ("@, got, asked)],
        ),
{
    let message = resolver::incomplete("batch resolution was incomplete ("@, got, asked);
    let start = "batch resolution was incomplete ("@;
    reveal_strlit("batch resolution was incomplete (");
    reveal_strlit("timed out after");
    reveal_strlit("/");
    reveal_strlit(")");
    lemma_decimal_digits(got);
    lemma_decimal_digits(asked);
    assert forall|k: int| 0 <= k < message.len() implies #[trigger] message[k] != 'd' by {
        if k < start.len() {
            assert(message[k] == start[k]);
        } else if k < start.len() + text::decimal(got).len() {
            assert(message[k] == text::decimal(got)[k - start.len()]);
        } else if k == start.len() + text::decimal(got).len() {
            assert(message[k] == '/');
        } else if k < message.len() - 1 {
            assert(message[k] == text::decimal(asked)[k - start.len() - text::decimal(got).len()
                - 1]);
        }
    }
    if text::holds(message, "timed out after"@) {
        let i = choose|i: int| #[trigger] text::matches_at(message, "timed out after"@, i);
        assert(message.subrange(i, i + 15)[4] == message[i + 4]);
        assert("timed out after"@[4] == 'd');
    }
}

/// The step after a run of `op`. After a timeout no more is tried.
pub fn after_batch_run(refs: &[(String, String)], outcome: Result<Vec<u8>, Failure>) -> (r:
    ResolveTurn)
    ensures
        r.deep_view() == (match outcome {
            Ok(stdout) => batch_outcome(envfile::pairs(refs@), stdout@),
            Err(e) => if resolver::is_timeout(e@) {
                TurnView::Failed(
                    seq![
                        "batch secret resolution timed out; skipped per-field fallback to avoid waiting once per secret"@,
                    ] + e@,
                )
            } else {
                TurnView::ReadEach
            },
        }),
{
    let parsed = match outcome {
        Ok(stdout) => {
            proof {
                lemma_incomplete_is_no_timeout(
                    resolver::batch_values(
                        text::zero_pieces(stdout@),
                        envfile::pairs(refs@),
                    ).len(),
                    refs@.len(),
                );
            }
            resolver::parse_batch_output(refs, &stdout)
        },
        Err(e) => Err(e),
    };
    match resolver::after_batch(parsed) {
        BatchStep::Done(values) => ResolveTurn::Done(values),
        BatchStep::Stop(failure) => ResolveTurn::Failed(failure),
        BatchStep::ReadEach => ResolveTurn::ReadEach,
    }
}

/// Takes note of a secret that was read by itself, or that it could not be read.
pub fn note_read(values: &mut StringMap<SecretValue>, key: &str, outcome: Result<String, Failure>) -> (r:
    Result<(), Failure>)
    ensures
        match outcome {
            Ok(value) => r is Ok && final(values).deep() == crate::map::inserted(
                old(values).deep(),
                key@,
                value@,
            ),
            Err(e) => r == Err::<(), Failure>(e) && final(values).deep() == old(
                values,
            ).deep(),
        },
{
    match outcome {
        Ok(value) => {
            values.insert_secret(key.to_owned(), value);
            Ok(())
        },
        Err(e) => Err(e),
    }
}

/// The keys of entries.
pub open spec fn keys(entries: Seq<(Seq<char>, Seq<char>)>) -> Seq<Seq<char>> {
    Seq::new(entries.len(), |i: int| entries[i].0)
}

/// The values of a batch are in order, and all of them were asked for.
proof fn lemma_batch_values(records: Seq<Seq<u8>>, refs: Seq<(Seq<char>, Seq<char>)>)
    ensures
        crate::map::ordered(resolver::batch_values(records, refs)),
        forall|i: int|
            0 <= i < resolver::batch_values(records, refs).len() ==> resolver::is_wanted(
                refs,
                (#[trigger] resolver::batch_values(records, refs)[i]).0,
            ),
    decreases records.len(),
{
    if records.len() > 0 {
        lemma_batch_values(records.drop_last(), refs);
        let before = resolver::batch_values(records.drop_last(), refs);
        if records.last().len() > 0 {
            if let Some((key, value)) = text::parted(text::lossy(records.last()), "="@) {
                if resolver::is_wanted(refs, key) {
                    crate::map::lemma_inserted_ordered(before, key, value);
                    crate::map::lemma_rank(before, key);
                    let now = crate::map::inserted(before, key, value);
                    assert forall|i: int| 0 <= i < now.len() implies resolver::is_wanted(
                        refs,
                        (#[trigger] now[i]).0,
                    ) by {
                        if now[i].0 != key {
                            assert(exists|j: int| 0 <= j < before.len() && before[j].0 == now[i].0);
                            let j = choose|j: int|
                                0 <= j < before.len() && before[j].0 == now[i].0;
                            assert(resolver::is_wanted(refs, before[j].0));
                        }
                    }
                }
            }
        }
    }
}

/// Keys in order are different.
proof fn lemma_ordered_keys(entries: Seq<(Seq<char>, Seq<char>)>)
    requires
        crate::map::ordered(entries),
    ensures
        keys(entries).no_duplicates(),
{
    assert forall|i: int, j: int|
        0 <= i < keys(entries).len() && 0 <= j < keys(entries).len() && i != j implies keys(
        entries,
    )[i] != keys(entries)[j] by {
        crate::map::lemma_key_index(entries, i);
        crate::map::lemma_key_index(entries, j);
    }
}

/// Whichever run of `op` ends the resolution, every variable that was asked for has a value.
pub proof fn law_batch_resolves_all(
    refs: Seq<(Seq<char>, Seq<char>)>,
    stdout: Seq<u8>,
    i: int,
)
    requires
        0 <= i < refs.len(),
    ensures
        batch_outcome(refs, stdout) matches TurnView::Done(values) ==> crate::map::has_key(
            values,
            refs[i].0,
        ),
{
    let values = resolver::batch_values(text::zero_pieces(stdout), refs);
    if values.len() == refs.len() {
        lemma_batch_values(text::zero_pieces(stdout), refs);
        lemma_ordered_keys(values);
        let found = keys(values).to_set();
        let asked = keys(refs).to_set();
        keys(values).unique_seq_to_set();
        keys(refs).lemma_cardinality_of_set();
        vstd::seq_lib::seq_to_set_is_finite(keys(refs));
        vstd::seq_lib::seq_to_set_is_finite(keys(values));
        assert forall|k: Seq<char>| found.contains(k) implies asked.contains(k) by {
            let n = choose|n: int| 0 <= n < keys(values).len() && keys(values)[n] == k;
            assert(resolver::is_wanted(refs, values[n].0));
            let m = choose|m: int| 0 <= m < refs.len() && (#[trigger] refs[m]).0 == k;
            assert(keys(refs)[m] == k);
        }
        vstd::set_lib::lemma_len_subset(found, asked);
        vstd::set_lib::lemma_subset_equality(found, asked);
        assert(keys(refs)[i] == refs[i].0);
        assert(asked.contains(refs[i].0));
        let n = choose|n: int| 0 <= n < keys(values).len() && keys(values)[n] == refs[i].0;
        crate::map::lemma_key_index(values, n);
    }
}

} // verus!
