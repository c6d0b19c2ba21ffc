//! Cloudflare credentials: what is stored for each preset, and what of an API response is hidden.

use vstd::prelude::*;
use vstd::string::*;

use crate::cloudflare_item::{DestinationField, DestinationView, PreparedCredential, PreparedView};
use crate::failure;
use crate::failure::Failure;
use crate::json;
use crate::json::{Json, JsonView};
use crate::text;

verus! {

broadcast use crate::seqs::group_seqs;

/// What kind of credential is stored.
#[derive(Clone, Copy, Debug, PartialEq, Eq, Structural)]
pub enum CloudflareCredentialPreset {
    /// A Cloudflare API token, as a concealed field.
    ApiToken,
    /// One Worker secret or a JSON object of Worker secrets, as concealed fields.
    WorkerSecret,
    /// A JSON API response, with credential-like fields hidden unless raw storage is asked for.
    ApiResponse,
}

/// How the item is written.
#[derive(Clone, Copy, Debug, PartialEq, Eq, Structural)]
pub enum CloudflareCredentialMode {
    /// Fail when the item already exists.
    Create,
    /// Fail when the item does not exist.
    Update,
    /// Update an existing exact-title item, otherwise create it.
    Upsert,
}

/// What is to be done with the item.
#[derive(Clone, Copy, Debug, PartialEq, Eq, Structural)]
pub enum ItemAction {
    Create,
    Update,
}

/// What the user asked to store, and how.
#[derive(Clone, Debug)]
pub struct CloudflareCredentialOptions<'a> {
    pub vault: Option<&'a str>,
    pub item: &'a str,
    pub section: Option<&'a str>,
    pub field: Option<&'a str>,
    pub preset: CloudflareCredentialPreset,
    pub mode: CloudflareCredentialMode,
    pub file: Option<&'a str>,
    pub stdin: bool,
    pub raw: bool,
    pub dry_run: bool,
    pub command: &'a [String],
}

/// The largest input that is accepted, in bytes: 16 MiB.
pub const MAX_INPUT_BYTES: u64 = 16_777_216;

/// How many sources of input were chosen.
pub open spec fn source_count(options: CloudflareCredentialOptions) -> int {
    (if options.file is Some { 1int } else { 0 }) + (if options.stdin { 1int } else { 0 }) + (
    if options.command@.len() > 0 { 1int } else { 0 })
}

/// Whether the options fit together.
pub fn validate_cloudflare_options(options: &CloudflareCredentialOptions<'_>) -> (r: Result<
    (),
    Failure,
>)
    ensures
        failure::told_unit(r) == (if source_count(*options) != 1 {
            Err(
                seq![
                    "Choose exactly one input source: --stdin, --file <JSON>, or a command after '--'."@,
                ],
            )
        } else if options.raw && options.preset != CloudflareCredentialPreset::ApiResponse {
            Err(seq!["--raw is only valid with --preset api-response."@])
        } else if text::trimmed(options.item@).len() == 0 {
            Err(seq!["--item must not be empty."@])
        } else {
            Ok(())
        }),
{
    let mut count: u8 = 0;
    if options.file.is_some() {
        count += 1;
    }
    if options.stdin {
        count += 1;
    }
    if options.command.len() > 0 {
        count += 1;
    }
    if count != 1 {
        return Err(
            failure::fail(
                "Choose exactly one input source: --stdin, --file <JSON>, or a command after '--'.",
            ),
        );
    }
    if options.raw && options.preset != CloudflareCredentialPreset::ApiResponse {
        return Err(failure::fail("--raw is only valid with --preset api-response."));
    }
    if text::trim(options.item).unicode_len() == 0 {
        return Err(failure::fail("--item must not be empty."));
    }
    Ok(())
}

/// Where the input comes from.
#[derive(Debug)]
pub enum InputSource {
    File(String),
    Stdin,
    Command(String),
}

/// The source to read: the file, where one is named, else standard input, where it is asked for,
/// else the program of the command.
pub fn choose_input_source(options: &CloudflareCredentialOptions<'_>) -> (r: Result<
    InputSource,
    Failure,
>)
    ensures
        match options.file {
            Some(path) => r matches Ok(InputSource::File(p)) && p@ == path@,
            None => if options.stdin {
                r matches Ok(InputSource::Stdin)
            } else if options.command@.len() > 0 {
                r matches Ok(InputSource::Command(p)) && p@ == options.command@[0]@
            } else {
                failure::failed(r, "command input requires a program after '--'"@)
            },
        },
{
    if let Some(path) = options.file {
        return Ok(InputSource::File(path.to_owned()));
    }
    if options.stdin {
        return Ok(InputSource::Stdin);
    }
    if options.command.len() > 0 {
        return Ok(InputSource::Command(options.command[0].clone()));
    }
    Err(failure::fail("command input requires a program after '--'"))
}

/// Whether a file of `len` bytes is small enough to be read.
pub fn check_file_size(len: u64, path: &str) -> (r: Result<(), Failure>)
    ensures
        failure::told_unit(r) == (if len > MAX_INPUT_BYTES {
            Err(seq!["input exceeds 16 MiB limit: "@ + path@])
        } else {
            Ok(())
        }),
{
    if len > MAX_INPUT_BYTES {
        return Err(Failure::new("input exceeds 16 MiB limit: ".to_owned().concat(path)));
    }
    Ok(())
}

/// Whether so many bytes may come from standard input.
pub fn check_stdin_size(len: u64) -> (r: Result<(), Failure>)
    ensures
        failure::told_unit(r) == (if len > MAX_INPUT_BYTES {
            Err(seq!["stdin exceeds 16 MiB limit"@])
        } else {
            Ok(())
        }),
{
    if len > MAX_INPUT_BYTES {
        return Err(failure::fail("stdin exceeds 16 MiB limit"));
    }
    Ok(())
}

/// Whether the output of an input command is accepted: the command succeeded, and its output is
/// small enough. A refusal never repeats what the command printed.
pub fn check_command_output(program: &str, success: bool, status: &str, len: u64) -> (r: Result<
    (),
    Failure,
>)
    ensures
        failure::told_unit(r) == (if !success {
            Err(
                seq![
                    "Cloudflare input command "@ + text::debugged(program@)
                        + " failed with status "@ + status@
                        + " (stderr suppressed to avoid leaking credentials)"@,
                ],
            )
        } else if len > MAX_INPUT_BYTES {
            Err(seq!["command output exceeds 16 MiB limit"@])
        } else {
            Ok(())
        }),
{
    if !success {
        return Err(
            Failure::new(
                "Cloudflare input command ".to_owned().concat(&text::debug_text(program)).concat(
                    " failed with status ",
                ).concat(status).concat(" (stderr suppressed to avoid leaking credentials)"),
            ),
        );
    }
    if len > MAX_INPUT_BYTES {
        return Err(failure::fail("command output exceeds 16 MiB limit"));
    }
    Ok(())
}

/// The secret that plain bytes hold: their text without the line ends at its end.
pub open spec fn plain_secret(input: Seq<u8>) -> Result<Seq<char>, Seq<Seq<char>>> {
    if vstd::utf8::valid_utf8(input) {
        Ok(text::without_trailing(vstd::utf8::decode_utf8(input), seq!['\r', '\n']))
    } else {
        Err(seq!["credential input must be UTF-8"@, text::utf8_refusal(input)])
    }
}

/// The secret that plain bytes hold.
pub fn trim_secret_bytes(input: &[u8]) -> (r: Result<String, Failure>)
    ensures
        failure::told_text(r) == plain_secret(input@),
{
    match text::utf8_text(input) {
        Ok(value) => {
            let set = ['\r', '\n'];
            assert(set@ == seq!['\r', '\n']);
            Ok(text::trim_end_chars(value, &set).to_owned())
        },
        Err(e) => {
            let cause = Failure::new(e);
            let r = cause.context("credential input must be UTF-8".to_owned());
            assert(r@ =~= seq!["credential input must be UTF-8"@, text::utf8_refusal(input@)]);
            Err(r)
        },
    }
}

/// The secret that a JSON value holds: a string itself, and any other value but null as JSON.
pub open spec fn json_secret(value: JsonView) -> Result<Seq<char>, Seq<Seq<char>>> {
    match value {
        JsonView::Text(s) => Ok(s),
        JsonView::Null => Err(seq!["secret value must not be null"@]),
        _ => Ok(json::printed(value)),
    }
}

/// The secret that a JSON value holds.
pub fn json_value_to_secret(value: &Json) -> (r: Result<String, Failure>)
    ensures
        failure::told_text(r) == json_secret(value@),
{
    broadcast use json::lemma_json_view;

    match value {
        Json::Text(s) => Ok(s.clone()),
        Json::Null => Err(failure::fail("secret value must not be null")),
        _ => Ok(value.print()),
    }
}

/// The first of the keys for a token that the object has.
pub open spec fn token_field(value: JsonView, field: Option<Seq<char>>) -> Option<JsonView> {
    if field is Some && json::field(value, field->0) is Some {
        json::field(value, field->0)
    } else if json::field(value, "token"@) is Some {
        json::field(value, "token"@)
    } else if json::field(value, "api_token"@) is Some {
        json::field(value, "api_token"@)
    } else if json::field(value, "apiToken"@) is Some {
        json::field(value, "apiToken"@)
    } else if json::field(value, "value"@) is Some {
        json::field(value, "value"@)
    } else {
        json::field(value, "secret"@)
    }
}

/// The one secret that an input holds: of a JSON object the value for the requested field, for
/// one of the usual keys, or its only value; of any other JSON that value; else the plain text.
pub open spec fn single_secret(
    value: Result<JsonView, Seq<char>>,
    input: Seq<u8>,
    field: Option<Seq<char>>,
) -> Result<Seq<char>, Seq<Seq<char>>> {
    match value {
        Err(_) => plain_secret(input),
        Ok(JsonView::Object(m)) => match token_field(JsonView::Object(m), field) {
            Some(found) => json_secret(found),
            None => if m.len() == 1 {
                json_secret(m[0].1)
            } else {
                Err(
                    seq![
                        "API token JSON must be a scalar or contain token, api_token, apiToken, value, or secret."@,
                    ],
                )
            },
        },
        Ok(other) => json_secret(other),
    }
}

/// The value for the requested field, or for the first of the usual keys that is there.
fn find_token<'a>(value: &'a Json, field: Option<&str>) -> (r: Option<&'a Json>)
    ensures
        match r {
            Some(found) => token_field(value@, field.deep_view()) == Some(found@),
            None => token_field(value@, field.deep_view()) is None,
        },
{
    if let Some(name) = field {
        if let Some(found) = value.get(name) {
            return Some(found);
        }
    }
    if let Some(found) = value.get("token") {
        return Some(found);
    }
    if let Some(found) = value.get("api_token") {
        return Some(found);
    }
    if let Some(found) = value.get("apiToken") {
        return Some(found);
    }
    if let Some(found) = value.get("value") {
        return Some(found);
    }
    value.get("secret")
}

/// The one secret that an input holds, given what its parse as JSON came to.
pub fn secret_from_parsed(
    parsed: &Result<Json, String>,
    input: &[u8],
    requested_field: Option<&str>,
) -> (r: Result<String, Failure>)
    ensures
        failure::told_text(r) == single_secret(
            json::read(*parsed),
            input@,
            requested_field.deep_view(),
        ),
{
    broadcast use json::lemma_json_view;

    let value = match parsed {
        Ok(value) => value,
        Err(_) => return trim_secret_bytes(input),
    };
    match value {
        Json::Object(m) => {
            if let Some(found) = find_token(value, requested_field) {
                return json_value_to_secret(found);
            }
            if m.len() == 1 {
                assert(json::members(m@)[0].1 == m@[0].1@);
                return json_value_to_secret(m.value(0));
            }
            Err(
                failure::fail(
                    "API token JSON must be a scalar or contain token, api_token, apiToken, value, or secret.",
                ),
            )
        },
        _ => json_value_to_secret(value),
    }
}

/// The one secret that an input holds.
pub fn parse_single_secret(input: &[u8], requested_field: Option<&str>) -> (r: Result<
    String,
    Failure,
>)
    ensures
        failure::told_text(r) == single_secret(
            json::parsed_bytes(input@),
            input@,
            requested_field.deep_view(),
        ),
{
    let parsed = json::parse_bytes(input);
    secret_from_parsed(&parsed, input, requested_field)
}

/// Whether a secret may be stored: it is not empty.
pub open spec fn secret_flaw(value: Seq<char>) -> Result<(), Seq<Seq<char>>> {
    if value.len() == 0 {
        Err(seq!["secret value must not be empty"@])
    } else {
        Ok(())
    }
}

/// Whether a secret may be stored.
pub fn ensure_nonempty_secret(value: &str) -> (r: Result<(), Failure>)
    ensures
        failure::told_unit(r) == secret_flaw(value@),
{
    if value.unicode_len() == 0 {
        return Err(failure::fail("secret value must not be empty"));
    }
    Ok(())
}

/// Whether a label may name a section or a field: it is not blank.
pub open spec fn label_flaw(label: Seq<char>) -> Result<(), Seq<Seq<char>>> {
    if text::trimmed(label).len() == 0 {
        Err(seq!["destination field name must not be empty"@])
    } else {
        Ok(())
    }
}

/// Whether a label may name a section or a field.
pub fn validate_destination_label(label: &str) -> (r: Result<(), Failure>)
    ensures
        failure::told_unit(r) == label_flaw(label@),
{
    if text::trim(label).unicode_len() == 0 {
        return Err(failure::fail("destination field name must not be empty"));
    }
    Ok(())
}

/// The fields for an object of secrets, in the order of its keys, or the first flaw among them.
pub open spec fn secret_fields(m: Seq<(Seq<char>, JsonView)>) -> Result<
    Seq<DestinationView>,
    Seq<Seq<char>>,
>
    decreases m.len(),
{
    if m.len() == 0 {
        Ok(Seq::empty())
    } else {
        match secret_fields(m.drop_last()) {
            Err(e) => Err(e),
            Ok(fields) => match json_secret(m.last().1) {
                Err(e) => Err(e),
                Ok(value) => match secret_flaw(value) {
                    Err(e) => Err(e),
                    Ok(()) => Ok(fields.push(DestinationView { label: m.last().0, value })),
                },
            },
        }
    }
}

/// The first flaw among the labels and values of fields.
pub open spec fn fields_flaw(fields: Seq<DestinationView>) -> Result<(), Seq<Seq<char>>>
    decreases fields.len(),
{
    if fields.len() == 0 {
        Ok(())
    } else {
        match fields_flaw(fields.drop_last()) {
            Err(e) => Err(e),
            Ok(()) => match label_flaw(fields.last().label) {
                Err(e) => Err(e),
                Ok(()) => secret_flaw(fields.last().value),
            },
        }
    }
}

/// What is given, or the default.
pub open spec fn given_or(given: Option<Seq<char>>, default: Seq<char>) -> Seq<char> {
    match given {
        Some(s) => s,
        None => default,
    }
}

/// What is given, or the default.
fn or_default(given: Option<&str>, default: &str) -> (r: String)
    ensures
        r@ == given_or(given.deep_view(), default@),
{
    match given {
        Some(s) => s.to_owned(),
        None => default.to_owned(),
    }
}

/// One field, where its value could be had.
pub open spec fn one_field(label: Seq<char>, value: Result<Seq<char>, Seq<Seq<char>>>) -> Result<
    Seq<DestinationView>,
    Seq<Seq<char>>,
> {
    match value {
        Ok(value) => Ok(seq![DestinationView { label, value }]),
        Err(e) => Err(e),
    }
}

/// The fields for Worker secrets, before they are looked over.
pub open spec fn worker_fields(
    value: Result<JsonView, Seq<char>>,
    input: Seq<u8>,
    field: Option<Seq<char>>,
) -> Result<Seq<DestinationView>, Seq<Seq<char>>> {
    match value {
        Err(_) => one_field(given_or(field, "WORKER_SECRET"@), plain_secret(input)),
        Ok(j) => if j is Object && field is None {
            secret_fields(j->Object_0)
        } else {
            one_field(given_or(field, "WORKER_SECRET"@), json_secret(j))
        },
    }
}

/// What is stored for an input, given what its parse as JSON came to.
pub open spec fn prepared_credential(
    preset: CloudflareCredentialPreset,
    section: Option<Seq<char>>,
    field: Option<Seq<char>>,
    raw: bool,
    value: Result<JsonView, Seq<char>>,
    input: Seq<u8>,
) -> Result<PreparedView, Seq<Seq<char>>> {
    match preset {
        CloudflareCredentialPreset::ApiToken => match single_secret(value, input, field) {
            Err(e) => Err(e),
            Ok(secret) => match secret_flaw(secret) {
                Err(e) => Err(e),
                Ok(()) => Ok(
                    PreparedView {
                        section_label: given_or(section, "Cloudflare"@),
                        fields: seq![
                            DestinationView {
                                label: given_or(field, "CLOUDFLARE_API_TOKEN"@),
                                value: secret,
                            },
                        ],
                    },
                ),
            },
        },
        CloudflareCredentialPreset::WorkerSecret => match worker_fields(value, input, field) {
            Err(e) => Err(e),
            Ok(fields) => if fields.len() == 0 {
                Err(seq!["Worker secret JSON object must not be empty."@])
            } else {
                match fields_flaw(fields) {
                    Err(e) => Err(e),
                    Ok(()) => Ok(
                        PreparedView {
                            section_label: given_or(section, "Worker Secrets"@),
                            fields,
                        },
                    ),
                }
            },
        },
        CloudflareCredentialPreset::ApiResponse => match value {
            Err(cause) => Err(seq!["Cloudflare API response input must be valid JSON"@, cause]),
            Ok(j) => Ok(
                PreparedView {
                    section_label: given_or(section, "API Responses"@),
                    fields: seq![
                        DestinationView {
                            label: given_or(field, "response"@),
                            value: json::printed_pretty(
                                if raw {
                                    j
                                } else {
                                    redacted(j)
                                },
                            ),
                        },
                    ],
                },
            ),
        },
    }
}

/// What a preparation came to.
pub open spec fn told_prepared(r: Result<PreparedCredential, Failure>) -> Result<
    PreparedView,
    Seq<Seq<char>>,
> {
    match r {
        Ok(p) => Ok(p@),
        Err(e) => Err(e@),
    }
}

/// What fields came to.
pub open spec fn told_fields(r: Result<Vec<DestinationField>, Failure>) -> Result<
    Seq<DestinationView>,
    Seq<Seq<char>>,
> {
    match r {
        Ok(v) => Ok(crate::cloudflare_item::destinations(v@)),
        Err(e) => Err(e@),
    }
}

/// The fields for an object of secrets.
fn collect_secret_fields(m: &crate::map::StringMap<Json>) -> (r: Result<
    Vec<DestinationField>,
    Failure,
>)
    ensures
        told_fields(r) == secret_fields(json::members(m@)),
{
    let ghost all = json::members(m@);
    let mut fields: Vec<DestinationField> = Vec::new();
    let mut i: usize = 0;
    assert(crate::cloudflare_item::destinations(fields@) =~= Seq::empty());
    assert(all.take(0) =~= Seq::empty());
    while i < m.len()
        invariant
            i <= m@.len(),
            all == json::members(m@),
            secret_fields(all.take(i as int)) == Ok::<Seq<DestinationView>, Seq<Seq<char>>>(
                crate::cloudflare_item::destinations(fields@),
            ),
        decreases m@.len() - i,
    {
        let ghost before = crate::cloudflare_item::destinations(fields@);
        proof {
            assert(all.take(i + 1).drop_last() == all.take(i as int));
            lemma_secret_fields_stop(all, i + 1);
        }
        let value = match json_value_to_secret(m.value(i)) {
            Ok(value) => value,
            Err(e) => return Err(e),
        };
        match ensure_nonempty_secret(&value) {
            Ok(()) => {},
            Err(e) => return Err(e),
        }
        let label = m.key(i).clone();
        let field = DestinationField { label, value };
        let ghost own = field@;
        fields.push(field);
        assert(crate::cloudflare_item::destinations(fields@) =~= before.push(own));
        i += 1;
    }
    Ok(fields)
}

/// A flaw among the first entries is the flaw of all.
proof fn lemma_secret_fields_stop(m: Seq<(Seq<char>, JsonView)>, i: int)
    requires
        0 <= i <= m.len(),
    ensures
        secret_fields(m.take(i)) is Err ==> secret_fields(m) == secret_fields(m.take(i)),
    decreases m.len() - i,
{
    if i < m.len() {
        assert(m.take(i + 1).drop_last() == m.take(i));
        lemma_secret_fields_stop(m, i + 1);
    }
}

/// A flaw among the first fields is the flaw of all.
proof fn lemma_fields_flaw_stop(fields: Seq<DestinationView>, i: int)
    requires
        0 <= i <= fields.len(),
    ensures
        fields_flaw(fields.take(i)) is Err ==> fields_flaw(fields) == fields_flaw(fields.take(i)),
    decreases fields.len() - i,
{
    if i < fields.len() {
        assert(fields.take(i + 1).drop_last() == fields.take(i));
        lemma_fields_flaw_stop(fields, i + 1);
    }
}

/// The first flaw among the labels and values of fields.
fn check_fields(fields: &Vec<DestinationField>) -> (r: Result<(), Failure>)
    ensures
        failure::told_unit(r) == fields_flaw(crate::cloudflare_item::destinations(fields@)),
{
    let ghost all = crate::cloudflare_item::destinations(fields@);
    let mut i: usize = 0;
    while i < fields.len()
        invariant
            i <= fields@.len(),
            all == crate::cloudflare_item::destinations(fields@),
            fields_flaw(all.take(i as int)) is Ok,
        decreases fields@.len() - i,
    {
        proof {
            assert(all.take(i + 1).drop_last() == all.take(i as int));
            lemma_fields_flaw_stop(all, i + 1);
        }
        match validate_destination_label(&fields[i].label) {
            Ok(()) => {},
            Err(e) => return Err(e),
        }
        match ensure_nonempty_secret(&fields[i].value) {
            Ok(()) => {},
            Err(e) => return Err(e),
        }
        i += 1;
    }
    Ok(())
}

/// A list with one field.
fn single_field(label: String, value: String) -> (r: Vec<DestinationField>)
    ensures
        crate::cloudflare_item::destinations(r@) == seq![
            DestinationView { label: label@, value: value@ },
        ],
{
    let mut fields: Vec<DestinationField> = Vec::new();
    let field = DestinationField { label, value };
    let ghost own = field@;
    fields.push(field);
    assert(crate::cloudflare_item::destinations(fields@) =~= seq![own]);
    fields
}

/// The fields for Worker secrets, before they are looked over.
fn collect_worker_fields(parsed: &Result<Json, String>, input: &[u8], field: Option<&str>) -> (r:
    Result<Vec<DestinationField>, Failure>)
    ensures
        told_fields(r) == worker_fields(json::read(*parsed), input@, field.deep_view()),
{
    broadcast use json::lemma_json_view;

    let secret = match parsed {
        Ok(value) => {
            if let Json::Object(m) = value {
                if field.is_none() {
                    return collect_secret_fields(m);
                }
            }
            json_value_to_secret(value)
        },
        Err(_) => trim_secret_bytes(input),
    };
    match secret {
        Ok(value) => Ok(single_field(or_default(field, "WORKER_SECRET"), value)),
        Err(e) => Err(e),
    }
}

/// What is stored for an input, given what its parse as JSON came to.
pub fn prepare_from_parsed(
    preset: CloudflareCredentialPreset,
    section: Option<&str>,
    field: Option<&str>,
    raw: bool,
    parsed: Result<Json, String>,
    input: &[u8],
) -> (r: Result<PreparedCredential, Failure>)
    ensures
        told_prepared(r) == prepared_credential(
            preset,
            section.deep_view(),
            field.deep_view(),
            raw,
            json::read(parsed),
            input@,
        ),
{
    match preset {
        CloudflareCredentialPreset::ApiToken => {
            let value = match secret_from_parsed(&parsed, input, field) {
                Ok(value) => value,
                Err(e) => return Err(e),
            };
            match ensure_nonempty_secret(&value) {
                Ok(()) => {},
                Err(e) => return Err(e),
            }
            Ok(
                PreparedCredential {
                    section_label: or_default(section, "Cloudflare"),
                    fields: single_field(or_default(field, "CLOUDFLARE_API_TOKEN"), value),
                },
            )
        },
        CloudflareCredentialPreset::WorkerSecret => {
            let fields = match collect_worker_fields(&parsed, input, field) {
                Ok(fields) => fields,
                Err(e) => return Err(e),
            };
            if fields.len() == 0 {
                return Err(failure::fail("Worker secret JSON object must not be empty."));
            }
            match check_fields(&fields) {
                Ok(()) => {},
                Err(e) => return Err(e),
            }
            Ok(
                PreparedCredential {
                    section_label: or_default(section, "Worker Secrets"),
                    fields,
                },
            )
        },
        CloudflareCredentialPreset::ApiResponse => {
            let mut value = match parsed {
                Ok(value) => value,
                Err(e) => {
                    let ghost cause = e@;
                    let r = Failure::new(e).context(
                        "Cloudflare API response input must be valid JSON".to_owned(),
                    );
                    assert(r@ =~= seq![
                        "Cloudflare API response input must be valid JSON"@,
                        cause,
                    ]);
                    return Err(r);
                },
            };
            if !raw {
                redact_cloudflare_json(&mut value);
            }
            Ok(
                PreparedCredential {
                    section_label: or_default(section, "API Responses"),
                    fields: single_field(or_default(field, "response"), value.print_pretty()),
                },
            )
        },
    }
}

/// What is stored for an input.
pub fn prepare_cloudflare_credential(
    preset: CloudflareCredentialPreset,
    section: Option<&str>,
    field: Option<&str>,
    raw: bool,
    input: &[u8],
) -> (r: Result<PreparedCredential, Failure>)
    ensures
        told_prepared(r) == prepared_credential(
            preset,
            section.deep_view(),
            field.deep_view(),
            raw,
            json::parsed_bytes(input@),
            input@,
        ),
{
    prepare_from_parsed(preset, section, field, raw, json::parse_bytes(input), input)
}

/// `s` in lower case, with an underscore for each character that is no ASCII letter or digit and
/// before each upper-case letter that follows a lower-case letter or a digit.
pub open spec fn expanded(s: Seq<char>) -> Seq<char>
    decreases s.len(),
{
    if s.len() == 0 {
        Seq::empty()
    } else {
        let c = s.last();
        let before = expanded(s.drop_last());
        let joint = if text::is_upper(c) && s.len() > 1 && (text::is_lower(s[s.len() - 2])
            || text::is_digit(s[s.len() - 2])) {
            before.push('_')
        } else {
            before
        };
        joint.push(
            if text::is_alnum(c) {
                text::lower(c)
            } else {
                '_'
            },
        )
    }
}

/// The words of an identifier, in lower case.
pub open spec fn key_words(s: Seq<char>) -> Seq<Seq<char>> {
    text::filled_parts(text::pieces(expanded(s), seq!['_']))
}

/// The words of an identifier, in lower case.
pub fn identifier_words(value: &str) -> (r: Vec<String>)
    ensures
        crate::seqs::texts(r@) == key_words(value@),
{
    let chars = text::chars_of(value);
    let mut out = String::new();
    let mut previous_lower_or_digit: bool = false;
    let mut i: usize = 0;
    while i < chars.len()
        invariant
            i <= chars.len(),
            chars@ == value@,
            out@ == expanded(value@.take(i as int)),
            previous_lower_or_digit == (i > 0 && (text::is_lower(value@[i - 1])
                || text::is_digit(value@[i - 1]))),
        decreases chars.len() - i,
    {
        let c = chars[i];
        proof {
            assert(value@.take(i + 1).drop_last() == value@.take(i as int));
        }
        if 'A' <= c && c <= 'Z' && previous_lower_or_digit {
            out.push('_');
        }
        if text::is_ascii_alphanumeric(c) {
            out.push(text::to_lower(c));
            previous_lower_or_digit = ('a' <= c && c <= 'z') || ('0' <= c && c <= '9');
        } else {
            out.push('_');
            previous_lower_or_digit = false;
        }
        i += 1;
    }
    let set = ['_'];
    assert(set@ == seq!['_']);
    text::split_filled(&out, &set)
}

/// Whether a word by itself marks a credential.
pub open spec fn is_secret_word(w: Seq<char>) -> bool {
    ||| w == "authorization"@
    ||| w == "cookie"@
    ||| w == "cookies"@
    ||| w == "token"@
    ||| w == "tokens"@
    ||| w == "secret"@
    ||| w == "secrets"@
    ||| w == "key"@
    ||| w == "keys"@
}

/// Whether the words of an identifier, run together, mark a credential.
pub open spec fn is_secret_compound(w: Seq<char>) -> bool {
    ||| text::holds(w, "authorization"@)
    ||| text::holds(w, "cookie"@)
    ||| text::holds(w, "token"@)
    ||| text::holds(w, "secret"@)
    ||| w == "apikey"@
    ||| w == "accesskey"@
    ||| w == "authkey"@
    ||| w == "clientkey"@
    ||| w == "encryptionkey"@
    ||| w == "decryptionkey"@
    ||| w == "masterkey"@
    ||| w == "privatekey"@
    ||| w == "publickey"@
    ||| w == "signingkey"@
}

/// Whether a key of an API response names a credential.
pub open spec fn is_sensitive(key: Seq<char>) -> bool {
    let words = key_words(key);
    ||| exists|i: int| 0 <= i < words.len() && is_secret_word(#[trigger] words[i])
    ||| is_secret_compound(text::joined(words, ""@))
}

/// Whether a word by itself marks a credential.
fn secret_word(w: &str) -> (r: bool)
    ensures
        r == is_secret_word(w@),
{
    text::same(w, "authorization") || text::same(w, "cookie") || text::same(w, "cookies")
        || text::same(w, "token") || text::same(w, "tokens") || text::same(w, "secret")
        || text::same(w, "secrets") || text::same(w, "key") || text::same(w, "keys")
}

/// Whether the words of an identifier, run together, mark a credential.
fn secret_compound(w: &str) -> (r: bool)
    ensures
        r == is_secret_compound(w@),
{
    text::contains(w, "authorization") || text::contains(w, "cookie") || text::contains(w, "token")
        || text::contains(w, "secret") || text::same(w, "apikey") || text::same(w, "accesskey")
        || text::same(w, "authkey") || text::same(w, "clientkey") || text::same(w, "encryptionkey")
        || text::same(w, "decryptionkey") || text::same(w, "masterkey") || text::same(
        w,
        "privatekey",
    ) || text::same(w, "publickey") || text::same(w, "signingkey")
}

/// Whether a key of an API response names a credential.
pub fn is_sensitive_cloudflare_key(key: &str) -> (r: bool)
    ensures
        r == is_sensitive(key@),
{
    let words = identifier_words(key);
    let ghost all = key_words(key@);
    let mut i: usize = 0;
    while i < words.len()
        invariant
            i <= words@.len(),
            all == crate::seqs::texts(words@),
            all == key_words(key@),
            forall|j: int| 0 <= j < i ==> !is_secret_word(#[trigger] all[j]),
        decreases words@.len() - i,
    {
        if secret_word(&words[i]) {
            assert(is_secret_word(all[i as int]));
            return true;
        }
        i += 1;
    }
    secret_compound(&text::join(&words, ""))
}

/// A JSON value with each value under a sensitive key, at any depth, replaced by a mark.
pub open spec fn redacted(j: JsonView) -> JsonView
    decreases j,
{
    match j {
        JsonView::Object(m) => JsonView::Object(
            Seq::new(
                m.len(),
                |i: int|
                    if 0 <= i < m.len() {
                        (
                            m[i].0,
                            if is_sensitive(m[i].0) {
                                JsonView::Text("[REDACTED]"@)
                            } else {
                                redacted(m[i].1)
                            },
                        )
                    } else {
                        arbitrary()
                    },
            ),
        ),
        JsonView::Array(v) => JsonView::Array(
            Seq::new(
                v.len(),
                |i: int|
                    if 0 <= i < v.len() {
                        redacted(v[i])
                    } else {
                        arbitrary()
                    },
            ),
        ),
        _ => j,
    }
}

/// The value with what stands under sensitive keys replaced.
fn redacted_copy(value: &Json) -> (r: Json)
    ensures
        r@ == redacted(value@),
    decreases value,
{
    broadcast use json::lemma_json_view;

    match value {
        Json::Object(m) => {
            let mut entries: Vec<(String, Json)> = Vec::new();
            let mut i: usize = 0;
            proof {
                crate::map::lemma_map_view(*m);
            }
            while i < m.entries.len()
                invariant
                    i <= m.entries@.len(),
                    *value is Object,
                    value->Object_0 == *m,
                    m@ == crate::map::keyed(m.entries@),
                    entries@.len() == i,
                    forall|j: int|
                        0 <= j < i ==> (#[trigger] entries@[j]).0@ == m@[j].0 && entries@[j].1@ == (
                        if is_sensitive(m@[j].0) {
                            JsonView::Text("[REDACTED]"@)
                        } else {
                            redacted(m@[j].1@)
                        }),
                decreases m.entries@.len() - i,
            {
                let key = m.entries[i].0.clone();
                if is_sensitive_cloudflare_key(&key) {
                    entries.push((key, Json::text("[REDACTED]")));
                } else {
                    assert(decreases_to!(value => value->Object_0.entries@[i as int].1));
                    let child = redacted_copy(&m.entries[i].1);
                    entries.push((key, child));
                }
                i += 1;
            }
            let copied = crate::map::StringMap::from_entries(entries, m);
            assert(json::members(copied@) =~= redacted(value@)->Object_0);
            Json::Object(copied)
        },
        Json::Array(v) => {
            let mut items: Vec<Json> = Vec::new();
            let mut i: usize = 0;
            while i < v.len()
                invariant
                    i <= v@.len(),
                    *value is Array,
                    value->Array_0 == *v,
                    items@.len() == i,
                    forall|j: int| 0 <= j < i ==> (#[trigger] items@[j])@ == redacted(v@[j]@),
                decreases v@.len() - i,
            {
                assert(decreases_to!(value => value->Array_0@[i as int]));
                let child = redacted_copy(&v[i]);
                items.push(child);
                i += 1;
            }
            assert(json::jsons(items@) =~= redacted(value@)->Array_0);
            Json::Array(items)
        },
        _ => value.clone(),
    }
}

/// Replaces each value under a sensitive key, at any depth, by a mark.
pub fn redact_cloudflare_json(value: &mut Json)
    ensures
        final(value)@ == redacted(old(value)@),
{
    let copy = redacted_copy(value);
    *value = copy;
}

/// Whether nothing but the mark stands under a sensitive key, at any depth.
pub open spec fn is_clean(j: JsonView) -> bool
    decreases j,
{
    match j {
        JsonView::Object(m) => forall|i: int|
            0 <= i < m.len() ==> if is_sensitive((#[trigger] m[i]).0) {
                m[i].1 == JsonView::Text("[REDACTED]"@)
            } else {
                is_clean(m[i].1)
            },
        JsonView::Array(v) => forall|i: int| 0 <= i < v.len() ==> is_clean(#[trigger] v[i]),
        _ => true,
    }
}

/// Redaction leaves nothing but the mark under any sensitive key.
pub proof fn law_redacted_is_clean(j: JsonView)
    ensures
        is_clean(redacted(j)),
    decreases j,
{
    match j {
        JsonView::Object(m) => {
            let t = redacted(j)->Object_0;
            assert forall|i: int| 0 <= i < t.len() implies if is_sensitive((#[trigger] t[i]).0) {
                t[i].1 == JsonView::Text("[REDACTED]"@)
            } else {
                is_clean(t[i].1)
            } by {
                law_redacted_is_clean(m[i].1);
            }
        },
        JsonView::Array(v) => {
            let t = redacted(j)->Array_0;
            assert forall|i: int| 0 <= i < t.len() implies is_clean(#[trigger] t[i]) by {
                law_redacted_is_clean(v[i]);
            }
        },
        _ => {},
    }
}

/// Redaction changes nothing of a value that is clean already; so a second redaction changes
/// nothing.
pub proof fn law_redacted_keeps_clean(j: JsonView)
    requires
        is_clean(j),
    ensures
        redacted(j) == j,
    decreases j,
{
    match j {
        JsonView::Object(m) => {
            assert forall|i: int| 0 <= i < m.len() implies #[trigger] redacted(j)->Object_0[i]
                == m[i] by {
                if !is_sensitive(m[i].0) {
                    law_redacted_keeps_clean(m[i].1);
                }
            }
            assert(redacted(j)->Object_0 =~= m);
        },
        JsonView::Array(v) => {
            assert forall|i: int| 0 <= i < v.len() implies #[trigger] redacted(j)->Array_0[i]
                == v[i] by {
                law_redacted_keeps_clean(v[i]);
            }
            assert(redacted(j)->Array_0 =~= v);
        },
        _ => {},
    }
}

/// What is done with an item, from the mode and whether it exists.
pub open spec fn item_action(mode: CloudflareCredentialMode, exists: bool) -> Result<
    ItemAction,
    Seq<char>,
> {
    match mode {
        CloudflareCredentialMode::Create => if exists {
            Err("1Password item already exists; use --mode update or --mode upsert."@)
        } else {
            Ok(ItemAction::Create)
        },
        CloudflareCredentialMode::Update => if exists {
            Ok(ItemAction::Update)
        } else {
            Err("1Password item does not exist; use --mode create or --mode upsert."@)
        },
        CloudflareCredentialMode::Upsert => if exists {
            Ok(ItemAction::Update)
        } else {
            Ok(ItemAction::Create)
        },
    }
}

/// What is done with an item, from the mode and whether it exists.
pub fn resolve_item_action(mode: CloudflareCredentialMode, exists: bool) -> (r: Result<
    ItemAction,
    Failure,
>)
    ensures
        match item_action(mode, exists) {
            Ok(action) => r == Ok::<ItemAction, Failure>(action),
            Err(message) => failure::failed(r, message),
        },
{
    match mode {
        CloudflareCredentialMode::Create => if exists {
            Err(
                failure::fail("1Password item already exists; use --mode update or --mode upsert."),
            )
        } else {
            Ok(ItemAction::Create)
        },
        CloudflareCredentialMode::Update => if exists {
            Ok(ItemAction::Update)
        } else {
            Err(
                failure::fail("1Password item does not exist; use --mode create or --mode upsert."),
            )
        },
        CloudflareCredentialMode::Upsert => if exists {
            Ok(ItemAction::Update)
        } else {
            Ok(ItemAction::Create)
        },
    }
}

} // verus!
