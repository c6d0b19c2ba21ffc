//! What holds of requests to the desktop SDK and of the replies to them.

use vstd::prelude::*;
use vstd::string::*;

use crate::json;
use crate::json::JsonView;
use crate::sdk_bridge;
use crate::sdk_bridge::{OperationView, RequestView};
use crate::seqs;

verus! {

broadcast use crate::seqs::group_seqs;

/// The keys of requests and replies differ.
proof fn lemma_keys()
    ensures
        "id"@ != "account"@,
        "id"@ != "operation"@,
        "id"@ != "parameters"@,
        "id"@ != "ok"@,
        "id"@ != "value"@,
        "account"@ != "operation"@,
        "account"@ != "parameters"@,
        "operation"@ != "parameters"@,
        "ok"@ != "value"@,
{
    reveal_strlit("id");
    reveal_strlit("account");
    reveal_strlit("operation");
    reveal_strlit("parameters");
    reveal_strlit("ok");
    reveal_strlit("value");
    assert("id"@[0] == 'i');
    assert("account"@[0] == 'a');
    assert("operation"@[0] == 'o');
    assert("parameters"@[0] == 'p');
    assert("ok"@[0] == 'o' && "ok"@.len() == 2);
    assert("operation"@.len() == 9);
    assert("value"@[0] == 'v');
}

/// A request is understood as it was made: with its number, its account, its operation and its
/// parameters.
pub proof fn law_request_understood(
    id: u64,
    account: Seq<char>,
    operation: Seq<char>,
    parameters: JsonView,
)
    ensures
        json::number_u64(json::number_of(id)) == Some(id) && account.len() > 0
            ==> sdk_bridge::asked(sdk_bridge::request(id, account, operation, parameters))
            == (RequestView::Serve { id, account, operation, parameters }),
        json::number_u64(json::number_of(id)) == Some(id) && account.len() == 0
            ==> sdk_bridge::asked(sdk_bridge::request(id, account, operation, parameters))
            == (RequestView::Refuse { id }),
{
    lemma_keys();
    json::lemma_object_ordered();
    let number = JsonView::Number(json::number_of(id));
    let a = JsonView::object().with("id"@, number);
    json::lemma_with(JsonView::object(), "id"@, number, "id"@);
    let b = a.with("account"@, JsonView::Text(account));
    json::lemma_with(a, "account"@, JsonView::Text(account), "id"@);
    let c = b.with("operation"@, JsonView::Text(operation));
    json::lemma_with(b, "operation"@, JsonView::Text(operation), "id"@);
    json::lemma_with(b, "operation"@, JsonView::Text(operation), "account"@);
    json::lemma_with(c, "parameters"@, parameters, "id"@);
    json::lemma_with(c, "parameters"@, parameters, "account"@);
    json::lemma_with(c, "parameters"@, parameters, "operation"@);
}

/// A reply with a value gives that value to the request with its number and to no other, and one
/// without a value gives none.
pub proof fn law_reply_understood(id: u64, other: u64, value: JsonView)
    ensures
        json::number_u64(json::number_of(id)) == Some(id) ==> {
            &&& sdk_bridge::replied(sdk_bridge::success(id, value), id) == Ok::<
                JsonView,
                Seq<Seq<char>>,
            >(value)
            &&& other != id ==> sdk_bridge::replied(sdk_bridge::success(id, value), other) == Err::<
                JsonView,
                Seq<Seq<char>>,
            >(seq!["SDK bridge response ID did not match request"@])
            &&& sdk_bridge::replied(sdk_bridge::refusal(id), id) == Err::<JsonView, Seq<Seq<char>>>(
                seq!["1Password Desktop SDK bridge operation failed"@],
            )
        },
{
    lemma_keys();
    json::lemma_object_ordered();
    let number = JsonView::Number(json::number_of(id));
    let a = JsonView::object().with("id"@, number);
    json::lemma_with(JsonView::object(), "id"@, number, "id"@);
    let b = a.with("ok"@, JsonView::Bool(true));
    json::lemma_with(a, "ok"@, JsonView::Bool(true), "id"@);
    json::lemma_with(b, "value"@, value, "id"@);
    json::lemma_with(b, "value"@, value, "ok"@);
    json::lemma_with(a, "ok"@, JsonView::Bool(false), "id"@);
}

/// Requests are numbered one after the other and never with zero; after the largest number comes
/// one.
pub proof fn law_next_number(id: u64)
    ensures
        sdk_bridge::id_after(id) != 0,
        id < u64::MAX ==> sdk_bridge::id_after(id) == id + 1,
        id == u64::MAX ==> sdk_bridge::id_after(id) == 1,
{
}

/// A line that is too long stops the child; any other is read.
pub proof fn law_line_heard(line: Seq<char>)
    ensures
        vstd::utf8::encode_utf8(line).len() > 1048576 ==> sdk_bridge::heard(line) is Stop,
        vstd::utf8::encode_utf8(line).len() <= 1048576 && json::parsed(line) is Ok ==> sdk_bridge::heard(
            line,
        ) == sdk_bridge::asked(json::parsed(line)->Ok_0),
{
}

/// A reply that is too long is refused; any other that can be read is.
pub proof fn law_line_answered(line: Seq<char>, id: u64)
    ensures
        vstd::utf8::encode_utf8(line).len() > 16777216 ==> sdk_bridge::answered(line, id) is Err,
        vstd::utf8::encode_utf8(line).len() <= 16777216 && json::parsed(line) is Ok
            ==> sdk_bridge::answered(line, id) == sdk_bridge::replied(json::parsed(line)->Ok_0, id),
{
}

/// The names of the operations differ.
proof fn lemma_operations()
    ensures
        "vaults_list"@ != "items_list"@,
        "vaults_list"@ != "items_get"@,
        "vaults_list"@ != "items_get_all"@,
        "vaults_list"@ != "items_put"@,
        "vaults_list"@ != "secrets_resolve_all"@,
        "items_list"@ != "items_get"@,
        "items_list"@ != "items_get_all"@,
        "items_list"@ != "items_put"@,
        "items_list"@ != "secrets_resolve_all"@,
        "items_get"@ != "items_get_all"@,
        "items_get"@ != "items_put"@,
        "items_get"@ != "secrets_resolve_all"@,
        "items_get_all"@ != "items_put"@,
        "items_get_all"@ != "secrets_resolve_all"@,
        "items_put"@ != "secrets_resolve_all"@,
{
    reveal_strlit("vaults_list");
    reveal_strlit("items_list");
    reveal_strlit("items_get");
    reveal_strlit("items_get_all");
    reveal_strlit("items_put");
    reveal_strlit("secrets_resolve_all");
    assert("vaults_list"@.len() == 11);
    assert("items_list"@.len() == 10);
    assert("items_get"@.len() == 9);
    assert("items_get_all"@.len() == 13);
    assert("items_put"@.len() == 9);
    assert("secrets_resolve_all"@.len() == 19);
    assert("items_get"@[6] == 'g');
    assert("items_put"@[6] == 'p');
}

/// Each operation takes the parameters that it needs and no others: a list of vaults none, a list
/// of items the vault, one item the vault and the item, and a changed item the item itself.
pub proof fn law_operations(parameters: JsonView, vault_id: Seq<char>, item_id: Seq<char>)
    ensures
        sdk_bridge::operation_of("vaults_list"@, parameters) == Ok::<
            OperationView,
            Seq<Seq<char>>,
        >(OperationView::VaultsList),
        json::text_field(parameters, "vault_id"@) == Some(vault_id) && vault_id.len() > 0 ==> {
            &&& sdk_bridge::operation_of("items_list"@, parameters) == Ok::<
                OperationView,
                Seq<Seq<char>>,
            >(OperationView::ItemsList { vault_id })
            &&& json::text_field(parameters, "item_id"@) == Some(item_id) && item_id.len() > 0
                ==> sdk_bridge::operation_of("items_get"@, parameters) == Ok::<
                OperationView,
                Seq<Seq<char>>,
            >(OperationView::ItemsGet { vault_id, item_id })
        },
        json::field(parameters, "item"@) matches Some(item) ==> sdk_bridge::operation_of(
            "items_put"@,
            parameters,
        ) == Ok::<OperationView, Seq<Seq<char>>>(OperationView::ItemsPut { item }),
{
    lemma_operations();
}

/// Lists of identifiers and of references are taken whole and in their order; a list with
/// something else than texts is refused.
pub proof fn law_listed_parameters(
    parameters: JsonView,
    vault_id: Seq<char>,
    items: Seq<JsonView>,
    i: int,
)
    requires
        json::text_field(parameters, "vault_id"@) == Some(vault_id),
        vault_id.len() > 0,
    ensures
        json::items_field(parameters, "item_ids"@) == Some(items) ==> {
            let found = sdk_bridge::operation_of("items_get_all"@, parameters);
            &&& found is Ok <==> forall|k: int| 0 <= k < items.len() ==> #[trigger] items[k] is Text
            &&& found matches Ok(asked) ==> (asked matches OperationView::ItemsGetAll {
                vault_id: own,
                item_ids,
            } && own == vault_id && item_ids.len() == items.len() && (0 <= i < items.len()
                ==> JsonView::Text(item_ids[i]) == items[i]))
        },
        json::items_field(parameters, "references"@) == Some(items) ==> {
            let found = sdk_bridge::operation_of("secrets_resolve_all"@, parameters);
            &&& found is Ok <==> forall|k: int| 0 <= k < items.len() ==> #[trigger] items[k] is Text
            &&& found matches Ok(asked) ==> (asked matches OperationView::SecretsResolveAll {
                references,
            } && references.len() == items.len() && (0 <= i < items.len() ==> JsonView::Text(
                references[i],
            ) == items[i]))
        },
{
    lemma_operations();
    let first = sdk_bridge::item_text("item ID was invalid"@);
    let second = sdk_bridge::item_text("secret reference was invalid"@);
    seqs::law_collected(items, first);
    seqs::law_collected(items, second);
    assert forall|k: int| 0 <= k < items.len() implies (first(#[trigger] items[k]) is Ok
        <==> items[k] is Text) && (second(items[k]) is Ok <==> items[k] is Text) by {}
}

/// An operation without the vault or the item that it needs is refused, and so is one that nobody
/// knows.
pub proof fn law_operation_refused(operation: Seq<char>, parameters: JsonView)
    ensures
        json::text_field(parameters, "vault_id"@) is None && (operation == "items_list"@ || operation
            == "items_get"@ || operation == "items_get_all"@) ==> sdk_bridge::operation_of(
            operation,
            parameters,
        ) is Err,
        operation == "items_get"@ && json::text_field(parameters, "item_id"@) is None
            ==> sdk_bridge::operation_of(operation, parameters) is Err,
        operation != "vaults_list"@ && operation != "items_list"@ && operation != "items_get"@
            && operation != "items_get_all"@ && operation != "items_put"@ && operation
            != "secrets_resolve_all"@ ==> sdk_bridge::operation_of(operation, parameters) is Err,
{
    lemma_operations();
}

} // verus!
