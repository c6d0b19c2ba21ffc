//! The line protocol between this program and the child process that holds the 1Password SDK.

use vstd::prelude::*;
use vstd::string::*;

use crate::failure;
use crate::failure::Failure;
use crate::json;
use crate::json::{Json, JsonView};
use crate::process;
use crate::seqs;
use crate::text;

verus! {

broadcast use crate::seqs::group_seqs;

/// The most bytes of a request.
pub const REQUEST_LIMIT: usize = 1048576;

/// The most bytes of a reply.
pub const RESPONSE_LIMIT: usize = 16777216;

/// The number of bytes of a text.
pub open spec fn size(s: Seq<char>) -> nat {
    vstd::utf8::encode_utf8(s).len()
}

/// How long to wait for a reply: ten seconds, if nothing else is given.
pub fn sdk_bridge_timeout(value: Option<&str>) -> (r: u64)
    ensures
        r == process::seconds(value.deep_view(), 10),
        r > 0,
{
    process::timeout_seconds(value, 10)
}

/// The child process: not started, running with the number of the next request, or given up.
#[derive(Debug)]
pub enum SdkBridge {
    Idle,
    Running { next_id: u64 },
    Disabled,
}

/// The number after a number: never zero.
pub open spec fn id_after(id: u64) -> u64 {
    if id == u64::MAX {
        1
    } else {
        (id + 1) as u64
    }
}

impl SdkBridge {
    /// A process that is not started.
    pub fn new() -> (r: SdkBridge)
        ensures
            r == SdkBridge::Idle,
    {
        SdkBridge::Idle
    }

    /// Whether the process has to be started before a request, or that no request is possible.
    pub fn must_start(&self) -> (r: Result<bool, Failure>)
        ensures
            match *self {
                SdkBridge::Disabled => failure::failed(
                    r,
                    "1Password Desktop SDK bridge is disabled for this process"@,
                ),
                SdkBridge::Idle => r == Ok::<bool, Failure>(true),
                SdkBridge::Running { next_id: _ } => r == Ok::<bool, Failure>(false),
            },
    {
        match self {
            SdkBridge::Disabled => Err(
                failure::fail("1Password Desktop SDK bridge is disabled for this process"),
            ),
            SdkBridge::Idle => Ok(true),
            SdkBridge::Running { next_id: _ } => Ok(false),
        }
    }

    /// Takes note that the process was started.
    pub fn started(&mut self)
        ensures
            *final(self) == (SdkBridge::Running { next_id: 1 }),
    {
        *self = SdkBridge::Running { next_id: 1 };
    }

    /// The number for a request to the running process; the next one gets another.
    pub fn take_id(&mut self) -> (r: Result<u64, Failure>)
        ensures
            match *old(self) {
                SdkBridge::Running { next_id } => r == Ok::<u64, Failure>(next_id) && *final(self)
                    == (SdkBridge::Running { next_id: id_after(next_id) }),
                _ => failure::failed(r, "1Password Desktop SDK bridge was unavailable"@)
                    && *final(self) == *old(self),
            },
    {
        match self {
            SdkBridge::Running { next_id } => {
                let id: u64 = *next_id;
                let after: u64 = if id == u64::MAX {
                    1
                } else {
                    id + 1
                };
                *self = SdkBridge::Running { next_id: after };
                Ok(id)
            },
            _ => Err(failure::fail("1Password Desktop SDK bridge was unavailable")),
        }
    }

    /// Takes note of how a request went: after one failure there are no more requests. The result
    /// is whether the process has to be stopped.
    pub fn settle(&mut self, succeeded: bool) -> (r: bool)
        ensures
            r == (!succeeded && *old(self) is Running),
            *final(self) == (if succeeded {
                *old(self)
            } else {
                SdkBridge::Disabled
            }),
    {
        if succeeded {
            return false;
        }
        let running = match self {
            SdkBridge::Running { next_id: _ } => true,
            _ => false,
        };
        *self = SdkBridge::Disabled;
        running
    }
}

/// A request.
pub open spec fn request(
    id: u64,
    account: Seq<char>,
    operation: Seq<char>,
    parameters: JsonView,
) -> JsonView {
    JsonView::object().with("id"@, JsonView::Number(json::number_of(id))).with(
        "account"@,
        JsonView::Text(account),
    ).with("operation"@, JsonView::Text(operation)).with("parameters"@, parameters)
}

/// A request holds what was put into it.
proof fn lemma_request(id: u64, account: Seq<char>, operation: Seq<char>, parameters: JsonView)
    requires
        json::number_u64(json::number_of(id)) == Some(id),
    ensures
        account.len() > 0 ==> asked(request(id, account, operation, parameters)) == (
        RequestView::Serve { id, account, operation, parameters }),
{
    reveal_strlit("id");
    reveal_strlit("account");
    reveal_strlit("operation");
    reveal_strlit("parameters");
    assert("id"@.len() == 2 && "account"@.len() == 7 && "operation"@.len() == 9
        && "parameters"@.len() == 10);
    let number = JsonView::Number(json::number_of(id));
    let first = JsonView::object().with("id"@, number);
    let second = first.with("account"@, JsonView::Text(account));
    let third = second.with("operation"@, JsonView::Text(operation));
    json::lemma_object_ordered();
    json::lemma_with(JsonView::object(), "id"@, number, "id"@);
    json::lemma_with(first, "account"@, JsonView::Text(account), "id"@);
    json::lemma_with(second, "operation"@, JsonView::Text(operation), "id"@);
    json::lemma_with(second, "operation"@, JsonView::Text(operation), "account"@);
    json::lemma_with(third, "parameters"@, parameters, "id"@);
    json::lemma_with(third, "parameters"@, parameters, "account"@);
    json::lemma_with(third, "parameters"@, parameters, "operation"@);
}

/// A request is read back from its line where its parameters are.
proof fn lemma_request_reads_back(
    id: u64,
    account: Seq<char>,
    operation: Seq<char>,
    parameters: JsonView,
)
    requires
        json::number_u64(json::number_of(id)) == Some(id),
        json::reads_back(parameters, 126),
    ensures
        json::reads_back(request(id, account, operation, parameters), 127),
{
    let number = JsonView::Number(json::number_of(id));
    let first = JsonView::object().with("id"@, number);
    let second = first.with("account"@, JsonView::Text(account));
    let third = second.with("operation"@, JsonView::Text(operation));
    json::lemma_object_ordered();
    json::lemma_with(JsonView::object(), "id"@, number, "id"@);
    json::lemma_with(first, "account"@, JsonView::Text(account), "id"@);
    json::lemma_with(second, "operation"@, JsonView::Text(operation), "id"@);
    json::lemma_with_reads_back(JsonView::object(), "id"@, number, 127);
    json::lemma_with_reads_back(first, "account"@, JsonView::Text(account), 127);
    json::lemma_with_reads_back(second, "operation"@, JsonView::Text(operation), 127);
    json::lemma_with_reads_back(third, "parameters"@, parameters, 127);
}

/// The line of a request, without its end. The child reads from it what was put into it, unless
/// the parameters are nested too deep or hold numbers that are no integers.
pub fn build_bridge_request(id: u64, account: &str, operation: &str, parameters: Json) -> (r:
    Result<String, Failure>)
    ensures
        r matches Ok(line) ==> !line@.contains('\n') && (account@.len() > 0 && json::reads_back(
            parameters@,
            126,
        ) ==> heard(line@) == (RequestView::Serve {
            id,
            account: account@,
            operation: operation@,
            parameters: parameters@,
        })),
        failure::told_text(r) == ({
            let line = json::printed(request(id, account@, operation@, parameters@));
            if size(line) > REQUEST_LIMIT {
                Err(seq!["SDK bridge request exceeded the size limit"@])
            } else {
                Ok(line)
            }
        }),
{
    let number = Json::number(id);
    proof {
        lemma_request(id, account@, operation@, parameters@);
        if json::reads_back(parameters@, 126) {
            lemma_request_reads_back(id, account@, operation@, parameters@);
        }
    }
    let line = Json::object().with("id", number).with(
        "account",
        Json::text(account),
    ).with("operation", Json::text(operation)).with("parameters", parameters).print();
    if line.as_str().as_bytes().len() > REQUEST_LIMIT {
        return Err(failure::fail("SDK bridge request exceeded the size limit"));
    }
    Ok(line)
}

/// Why no reply came.
#[derive(Clone, Copy, Debug, PartialEq, Eq, Structural)]
pub enum BridgeSilence {
    Timeout,
    Disconnected,
}

/// What is said when no reply came.
pub fn bridge_silence(silence: BridgeSilence, seconds: u64) -> (r: Failure)
    ensures
        r@ == seq![
            match silence {
                BridgeSilence::Timeout => "1Password Desktop SDK bridge timed out after "@
                    + text::decimal(seconds as nat) + " seconds"@,
                BridgeSilence::Disconnected => "1Password Desktop SDK bridge exited unexpectedly"@,
            },
        ],
{
    match silence {
        BridgeSilence::Timeout => Failure::new(
            "1Password Desktop SDK bridge timed out after ".to_owned().concat(
                &text::to_decimal(seconds as u128),
            ).concat(" seconds"),
        ),
        BridgeSilence::Disconnected => failure::fail(
            "1Password Desktop SDK bridge exited unexpectedly",
        ),
    }
}

/// The value that a reply to a request gives.
pub open spec fn replied(response: JsonView, id: u64) -> Result<JsonView, Seq<Seq<char>>> {
    if json::field(response, "id"@) is None || json::u64_of(json::field(response, "id"@)->0) != Some(
        id,
    ) {
        Err(seq!["SDK bridge response ID did not match request"@])
    } else if json::field(response, "ok"@) is None || json::bool_of(json::field(response, "ok"@)->0)
        != Some(true) {
        Err(seq!["1Password Desktop SDK bridge operation failed"@])
    } else {
        match json::field(response, "value"@) {
            Some(value) => Ok(value),
            None => Err(seq!["SDK bridge response omitted value"@]),
        }
    }
}

/// The value that a reply to a request gives.
pub fn check_bridge_response(response: &Json, id: u64) -> (r: Result<Json, Failure>)
    ensures
        process::told_json(r) == replied(response@, id),
{
    let found_id = match response.get("id") {
        Some(v) => v.as_u64(),
        None => None,
    };
    match found_id {
        Some(found) if found == id => {},
        _ => return Err(failure::fail("SDK bridge response ID did not match request")),
    }
    let ok = match response.get("ok") {
        Some(v) => v.as_bool(),
        None => None,
    };
    match ok {
        Some(true) => {},
        _ => return Err(failure::fail("1Password Desktop SDK bridge operation failed")),
    }
    match response.get("value") {
        Some(value) => Ok(value.clone()),
        None => Err(failure::fail("SDK bridge response omitted value")),
    }
}

/// The value that the line of a reply to a request gives.
pub open spec fn answered(line: Seq<char>, id: u64) -> Result<JsonView, Seq<Seq<char>>> {
    if size(line) > RESPONSE_LIMIT {
        Err(seq!["SDK bridge response exceeded the size limit"@])
    } else {
        match json::parsed(line) {
            Err(e) => Err(seq!["parse SDK bridge response"@, e]),
            Ok(response) => replied(response, id),
        }
    }
}

/// The value that the line of a reply to a request gives.
pub fn read_bridge_response(line: &str, id: u64) -> (r: Result<Json, Failure>)
    ensures
        process::told_json(r) == answered(line@, id),
{
    if line.as_bytes().len() > RESPONSE_LIMIT {
        return Err(failure::fail("SDK bridge response exceeded the size limit"));
    }
    match json::parse(line) {
        Err(e) => {
            let ghost reason = e@;
            let failure = Failure::new(e).context("parse SDK bridge response".to_owned());
            assert(failure@ =~= seq!["parse SDK bridge response"@, reason]);
            Err(failure)
        },
        Ok(response) => check_bridge_response(&response, id),
    }
}

/// What the child does about a line: end, refuse the request, or serve it.
#[derive(Debug)]
pub enum BridgeRequest {
    Stop,
    Refuse { id: u64 },
    Serve { id: u64, account: String, operation: String, parameters: Json },
}

/// The content of a `BridgeRequest`.
pub enum RequestView {
    Stop,
    Refuse { id: u64 },
    Serve { id: u64, account: Seq<char>, operation: Seq<char>, parameters: JsonView },
}

impl DeepView for BridgeRequest {
    type V = RequestView;

    open spec fn deep_view(&self) -> RequestView {
        match self {
            BridgeRequest::Stop => RequestView::Stop,
            BridgeRequest::Refuse { id } => RequestView::Refuse { id: *id },
            BridgeRequest::Serve { id, account, operation, parameters } => RequestView::Serve {
                id: *id,
                account: account@,
                operation: operation@,
                parameters: parameters@,
            },
        }
    }
}

/// What the child does about a request.
pub open spec fn asked(value: JsonView) -> RequestView {
    let id = match json::field(value, "id"@) {
        Some(v) => match json::u64_of(v) {
            Some(id) => id,
            None => 0,
        },
        None => 0,
    };
    match (json::text_field(value, "account"@), json::text_field(value, "operation"@)) {
        (Some(account), Some(operation)) if account.len() > 0 => RequestView::Serve {
            id,
            account,
            operation,
            parameters: match json::field(value, "parameters"@) {
                Some(v) => v,
                None => JsonView::Null,
            },
        },
        _ => RequestView::Refuse { id },
    }
}

/// What the child does about a request.
pub fn read_bridge_request(value: &Json) -> (r: BridgeRequest)
    ensures
        r.deep_view() == asked(value@),
{
    broadcast use json::lemma_json_view;

    let id: u64 = match value.get("id") {
        Some(v) => match v.as_u64() {
            Some(id) => id,
            None => 0,
        },
        None => 0,
    };
    let account = match value.get_str("account") {
        Some(account) => account,
        None => return BridgeRequest::Refuse { id },
    };
    if account.unicode_len() == 0 {
        return BridgeRequest::Refuse { id };
    }
    let operation = match value.get_str("operation") {
        Some(operation) => operation,
        None => return BridgeRequest::Refuse { id },
    };
    let parameters = match value.get("parameters") {
        Some(v) => v.clone(),
        None => Json::Null,
    };
    BridgeRequest::Serve {
        id,
        account: account.to_owned(),
        operation: operation.to_owned(),
        parameters,
    }
}

/// What the child does about a line.
pub open spec fn heard(line: Seq<char>) -> RequestView {
    if size(line) > REQUEST_LIMIT {
        RequestView::Stop
    } else {
        match json::parsed(line) {
            Ok(value) => asked(value),
            Err(_) => RequestView::Stop,
        }
    }
}

/// What the child does about a line.
pub fn read_bridge_line(line: &str) -> (r: BridgeRequest)
    ensures
        r.deep_view() == heard(line@),
{
    if line.as_bytes().len() > REQUEST_LIMIT {
        return BridgeRequest::Stop;
    }
    match json::parse(line) {
        Ok(value) => read_bridge_request(&value),
        Err(_) => BridgeRequest::Stop,
    }
}

/// Whether a client for an account has to be made: the one that there is, if any, is for another.
pub fn needs_client(configured: Option<&str>, account: &str) -> (r: bool)
    ensures
        r == (configured.deep_view() != Some(account@)),
{
    match configured {
        Some(configured) => !text::same(configured, account),
        None => true,
    }
}

/// What the child asks of the SDK.
#[derive(Debug)]
pub enum BridgeOperation {
    VaultsList,
    ItemsList { vault_id: String },
    ItemsGet { vault_id: String, item_id: String },
    ItemsGetAll { vault_id: String, item_ids: Vec<String> },
    ItemsPut { item: Json },
    SecretsResolveAll { references: Vec<String> },
}

/// The content of a `BridgeOperation`.
pub enum OperationView {
    VaultsList,
    ItemsList { vault_id: Seq<char> },
    ItemsGet { vault_id: Seq<char>, item_id: Seq<char> },
    ItemsGetAll { vault_id: Seq<char>, item_ids: Seq<Seq<char>> },
    ItemsPut { item: JsonView },
    SecretsResolveAll { references: Seq<Seq<char>> },
}

impl DeepView for BridgeOperation {
    type V = OperationView;

    open spec fn deep_view(&self) -> OperationView {
        match self {
            BridgeOperation::VaultsList => OperationView::VaultsList,
            BridgeOperation::ItemsList { vault_id } => OperationView::ItemsList {
                vault_id: vault_id@,
            },
            BridgeOperation::ItemsGet { vault_id, item_id } => OperationView::ItemsGet {
                vault_id: vault_id@,
                item_id: item_id@,
            },
            BridgeOperation::ItemsGetAll { vault_id, item_ids } => OperationView::ItemsGetAll {
                vault_id: vault_id@,
                item_ids: seqs::texts(item_ids@),
            },
            BridgeOperation::ItemsPut { item } => OperationView::ItemsPut { item: item@ },
            BridgeOperation::SecretsResolveAll { references } => OperationView::SecretsResolveAll {
                references: seqs::texts(references@),
            },
        }
    }
}

/// A parameter that has to be there and not empty.
pub open spec fn needed(parameters: JsonView, key: Seq<char>) -> Result<Seq<char>, Seq<Seq<char>>> {
    match json::text_field(parameters, key) {
        Some(s) if s.len() > 0 => Ok(s),
        _ => Err(seq!["SDK bridge parameter was missing"@]),
    }
}

/// A parameter that has to be there and not empty.
pub fn required_string(parameters: &Json, key: &str) -> (r: Result<String, Failure>)
    ensures
        failure::told_text(r) == needed(parameters@, key@),
{
    match parameters.get_str(key) {
        Some(s) if s.unicode_len() > 0 => Ok(s.to_owned()),
        _ => Err(failure::fail("SDK bridge parameter was missing")),
    }
}

/// The text of an item, or that it is none.
pub open spec fn item_text(invalid: Seq<char>) -> spec_fn(JsonView) -> Result<
    Seq<char>,
    Seq<Seq<char>>,
> {
    |item: JsonView|
        match json::text_of(item) {
            Some(s) => Ok(s),
            None => Err(seq![invalid]),
        }
}

/// A parameter that is a list of texts.
pub open spec fn needed_list(
    parameters: JsonView,
    key: Seq<char>,
    missing: Seq<char>,
    invalid: Seq<char>,
) -> Result<Seq<Seq<char>>, Seq<Seq<char>>> {
    match json::items_field(parameters, key) {
        Some(items) => seqs::collected(items, item_text(invalid)),
        None => Err(seq![missing]),
    }
}

/// A parameter that is a list of texts.
fn required_list(parameters: &Json, key: &str, missing: &str, invalid: &str) -> (r: Result<
    Vec<String>,
    Failure,
>)
    ensures
        failure::told_texts(r) == needed_list(parameters@, key@, missing@, invalid@),
{
    let items = match parameters.get_array(key) {
        Some(items) => items,
        None => return Err(failure::fail(missing)),
    };
    let ghost all = json::jsons(items@);
    let ghost f = item_text(invalid@);
    let mut r = seqs::no_texts();
    let mut i: usize = 0;
    assert(all.take(0) =~= Seq::<JsonView>::empty());
    while i < items.len()
        invariant
            i <= items@.len(),
            all == json::jsons(items@),
            f == item_text(invalid@),
            json::items_field(parameters@, key@) == Some(all),
            seqs::collected(all.take(i as int), f) == Ok::<Seq<Seq<char>>, Seq<Seq<char>>>(
                seqs::texts(r@),
            ),
        decreases items@.len() - i,
    {
        proof {
            seqs::lemma_collected(all, f, i as int);
            assert(all[i as int] == items@[i as int]@);
        }
        match items[i].as_str() {
            Some(s) => {
                seqs::push_text(&mut r, s);
            },
            None => return Err(failure::fail(invalid)),
        }
        i += 1;
    }
    Ok(r)
}

/// What a request asks of the SDK.
pub open spec fn operation_of(operation: Seq<char>, parameters: JsonView) -> Result<
    OperationView,
    Seq<Seq<char>>,
> {
    if operation == "vaults_list"@ {
        Ok(OperationView::VaultsList)
    } else if operation == "items_list"@ {
        match needed(parameters, "vault_id"@) {
            Ok(vault_id) => Ok(OperationView::ItemsList { vault_id }),
            Err(e) => Err(e),
        }
    } else if operation == "items_get"@ {
        match (needed(parameters, "vault_id"@), needed(parameters, "item_id"@)) {
            (Ok(vault_id), Ok(item_id)) => Ok(OperationView::ItemsGet { vault_id, item_id }),
            (Err(e), _) => Err(e),
            (_, Err(e)) => Err(e),
        }
    } else if operation == "items_get_all"@ {
        match (
            needed(parameters, "vault_id"@),
            needed_list(
                parameters,
                "item_ids"@,
                "item_ids were missing"@,
                "item ID was invalid"@,
            ),
        ) {
            (Ok(vault_id), Ok(item_ids)) => Ok(OperationView::ItemsGetAll { vault_id, item_ids }),
            (Err(e), _) => Err(e),
            (_, Err(e)) => Err(e),
        }
    } else if operation == "items_put"@ {
        match json::field(parameters, "item"@) {
            Some(item) => Ok(OperationView::ItemsPut { item }),
            None => Err(seq!["item was missing"@]),
        }
    } else if operation == "secrets_resolve_all"@ {
        match needed_list(
            parameters,
            "references"@,
            "references were missing"@,
            "secret reference was invalid"@,
        ) {
            Ok(references) => Ok(OperationView::SecretsResolveAll { references }),
            Err(e) => Err(e),
        }
    } else {
        Err(seq!["unknown SDK bridge operation"@])
    }
}

/// What a request asks of the SDK.
pub fn read_bridge_operation(operation: &str, parameters: &Json) -> (r: Result<
    BridgeOperation,
    Failure,
>)
    ensures
        match operation_of(operation@, parameters@) {
            Ok(view) => r matches Ok(found) && found.deep_view() == view,
            Err(e) => r matches Err(failure) && failure@ == e,
        },
{
    if text::same(operation, "vaults_list") {
        Ok(BridgeOperation::VaultsList)
    } else if text::same(operation, "items_list") {
        let vault_id = required_string(parameters, "vault_id")?;
        Ok(BridgeOperation::ItemsList { vault_id })
    } else if text::same(operation, "items_get") {
        let vault_id = required_string(parameters, "vault_id")?;
        let item_id = required_string(parameters, "item_id")?;
        Ok(BridgeOperation::ItemsGet { vault_id, item_id })
    } else if text::same(operation, "items_get_all") {
        let vault_id = required_string(parameters, "vault_id")?;
        let item_ids = required_list(
            parameters,
            "item_ids",
            "item_ids were missing",
            "item ID was invalid",
        )?;
        Ok(BridgeOperation::ItemsGetAll { vault_id, item_ids })
    } else if text::same(operation, "items_put") {
        match parameters.get("item") {
            Some(item) => Ok(BridgeOperation::ItemsPut { item: item.clone() }),
            None => Err(failure::fail("item was missing")),
        }
    } else if text::same(operation, "secrets_resolve_all") {
        let references = required_list(
            parameters,
            "references",
            "references were missing",
            "secret reference was invalid",
        )?;
        Ok(BridgeOperation::SecretsResolveAll { references })
    } else {
        Err(failure::fail("unknown SDK bridge operation"))
    }
}

/// A reply with a value.
pub open spec fn success(id: u64, value: JsonView) -> JsonView {
    JsonView::object().with("id"@, JsonView::Number(json::number_of(id))).with(
        "ok"@,
        JsonView::Bool(true),
    ).with("value"@, value)
}

/// A reply that says only that there is no value.
pub open spec fn refusal(id: u64) -> JsonView {
    JsonView::object().with("id"@, JsonView::Number(json::number_of(id))).with(
        "ok"@,
        JsonView::Bool(false),
    )
}

/// A reply holds what was put into it.
proof fn lemma_replies(id: u64, value: JsonView)
    requires
        json::number_u64(json::number_of(id)) == Some(id),
    ensures
        replied(success(id, value), id) == Ok::<JsonView, Seq<Seq<char>>>(value),
        replied(refusal(id), id) == Err::<JsonView, Seq<Seq<char>>>(
            seq!["1Password Desktop SDK bridge operation failed"@],
        ),
{
    reveal_strlit("id");
    reveal_strlit("ok");
    reveal_strlit("value");
    assert("id"@[0] == 'i' && "ok"@[0] == 'o' && "value"@.len() == 5 && "id"@.len() == 2
        && "ok"@.len() == 2);
    let number = JsonView::Number(json::number_of(id));
    let first = JsonView::object().with("id"@, number);
    let second = first.with("ok"@, JsonView::Bool(true));
    json::lemma_object_ordered();
    json::lemma_with(JsonView::object(), "id"@, number, "id"@);
    json::lemma_with(first, "ok"@, JsonView::Bool(true), "id"@);
    json::lemma_with(first, "ok"@, JsonView::Bool(false), "id"@);
    json::lemma_with(second, "value"@, value, "id"@);
    json::lemma_with(second, "value"@, value, "ok"@);
}

/// A reply is read back from its line where its value is.
proof fn lemma_replies_read_back(id: u64, value: JsonView)
    requires
        json::number_u64(json::number_of(id)) == Some(id),
        json::reads_back(value, 126),
    ensures
        json::reads_back(success(id, value), 127),
        json::reads_back(refusal(id), 127),
{
    let number = JsonView::Number(json::number_of(id));
    let first = JsonView::object().with("id"@, number);
    let second = first.with("ok"@, JsonView::Bool(true));
    json::lemma_object_ordered();
    json::lemma_with(JsonView::object(), "id"@, number, "id"@);
    json::lemma_with(first, "ok"@, JsonView::Bool(true), "id"@);
    json::lemma_with_reads_back(JsonView::object(), "id"@, number, 127);
    json::lemma_with_reads_back(first, "ok"@, JsonView::Bool(true), 127);
    json::lemma_with_reads_back(first, "ok"@, JsonView::Bool(false), 127);
    json::lemma_with_reads_back(second, "value"@, value, 127);
}

/// The line of a reply that says only that there is no value, with its end. It holds the number of
/// the request and nothing else, and is read as a failure.
pub fn bridge_failure(id: u64) -> (r: String)
    ensures
        size(r@) <= RESPONSE_LIMIT ==> answered(r@, id) == Err::<JsonView, Seq<Seq<char>>>(
            seq!["1Password Desktop SDK bridge operation failed"@],
        ),
        r@ == json::printed(refusal(id)) + "\n"@,
{
    broadcast use json::lemma_json_view;

    let ok = Json::Bool(false);
    let number = Json::number(id);
    proof {
        lemma_replies(id, JsonView::Null);
        lemma_replies_read_back(id, JsonView::Null);
    }
    Json::object().with("id", number).with("ok", ok).print().concat("\n")
}

/// The line of a reply with a value, with its end; where it would be too long, of a refusal. The
/// value is read back from the line, unless the line is too long with its end, or the value is
/// nested too deep or holds numbers that are no integers.
pub fn bridge_success(id: u64, value: Json) -> (r: String)
    ensures
        size(json::printed(success(id, value@))) <= RESPONSE_LIMIT && size(r@) <= RESPONSE_LIMIT
            && json::reads_back(value@, 126) ==> answered(r@, id) == Ok::<
            JsonView,
            Seq<Seq<char>>,
        >(value@),
        r@ == (if size(json::printed(success(id, value@))) > RESPONSE_LIMIT {
            json::printed(refusal(id)) + "\n"@
        } else {
            json::printed(success(id, value@)) + "\n"@
        }),
{
    broadcast use json::lemma_json_view;

    let ok = Json::Bool(true);
    let number = Json::number(id);
    proof {
        lemma_replies(id, value@);
        if json::reads_back(value@, 126) {
            lemma_replies_read_back(id, value@);
        }
    }
    let line = Json::object().with("id", number).with("ok", ok).with(
        "value",
        value,
    ).print();
    if line.as_str().as_bytes().len() > RESPONSE_LIMIT {
        return bridge_failure(id);
    }
    line.concat("\n")
}

} // verus!
