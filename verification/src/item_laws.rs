//! What is written into items is what is read from them.

use vstd::prelude::*;
use vstd::string::*;

use crate::json;
use crate::op;
use crate::pattern;
use crate::repositories;
use crate::sdk;
use crate::text;

verus! {

broadcast use crate::seqs::group_seqs;

/// What stands between repositories in a list.
pub open spec fn list_marks() -> Seq<char> {
    seq![',', '\n', '\r', '\t']
}

/// Whether the repositories can be listed: each is named by its own name, and its name holds
/// nothing that stands between repositories in a list.
pub open spec fn can_list(names: Seq<Seq<char>>) -> bool {
    &&& forall|i: int| 0 <= i < names.len() ==> op::repo_spec(#[trigger] names[i]) == Some(names[i])
    &&& forall|i: int, k: int|
        0 <= i < names.len() && 0 <= k < names[i].len() ==> !list_marks().contains(
            #[trigger] names[i][k],
        )
}

/// Repositories that are written into a list are read from it, in their order.
pub proof fn law_listed_repositories(names: Seq<Seq<char>>)
    requires
        can_list(names),
    ensures
        op::listed_repos(text::joined(names, "\n"@)) == names,
{
    reveal_strlit("\n");
    assert("\n"@ =~= seq!['\n']);
    let set = list_marks();
    assert(set[1] == '\n');
    if names.len() > 0 {
        text::lemma_joined_pieces(names, '\n', set);
        repositories::lemma_own_names(names);
    } else {
        let none = Seq::<char>::empty();
        assert(text::joined(names, "\n"@) =~= none);
        let parts = text::pieces(none, set);
        assert(parts =~= seq![none]);
        assert(parts.drop_last() =~= Seq::<Seq<char>>::empty());
        assert(text::trimmed(none).len() == 0);
        assert(op::repo_spec(parts.last()) is None);
        assert(op::repo_specs(parts.drop_last()) =~= Seq::<Seq<char>>::empty());
        assert(op::repo_specs(parts) =~= names);
    }
}

/// Names of repositories are in lower case, so different ones stay apart whatever the case.
proof fn lemma_lowered_apart(names: Seq<Seq<char>>)
    requires
        forall|i: int|
            0 <= i < names.len() ==> op::repo_spec(#[trigger] names[i]) == Some(names[i]),
        names.no_duplicates(),
    ensures
        op::deduped_lowered(names) == names,
    decreases names.len(),
{
    if names.len() > 0 {
        let front = names.drop_last();
        let last = names.last();
        assert forall|i: int| 0 <= i < front.len() implies op::repo_spec(#[trigger] front[i]) == Some(
            front[i],
        ) by {
            assert(front[i] == names[i]);
        }
        lemma_lowered_apart(front);
        assert(names[names.len() - 1] == last);
        lemma_own_case(last);
        if op::has_lowered(front, last) {
            let i = choose|i: int|
                0 <= i < front.len() && text::lowered(#[trigger] front[i]) == text::lowered(last);
            lemma_own_case(front[i]);
            assert(names[i] == names[names.len() - 1]);
        }
        assert(front.push(last) =~= names);
    }
}

/// The name of a repository is in lower case.
proof fn lemma_own_case(name: Seq<char>)
    requires
        op::repo_spec(name) == Some(name),
    ensures
        text::lowered(name) == name,
{
    repositories::law_repository_shape(name);
    assert forall|i: int| 0 <= i < name.len() implies text::lower(#[trigger] name[i]) == name[i] by {
        assert(!('A' <= name[i] <= 'Z'));
    }
    assert(text::lowered(name) =~= name);
}

/// Fields of which one lists repositories name these and no others.
proof fn lemma_one_list(fields: Seq<op::FieldView>, at: int, value: Seq<char>)
    requires
        0 <= at < fields.len(),
        fields[at].label matches Some(label) && op::is_repositories_label(label),
        op::field_text(fields[at]) == Some(value),
        forall|i: int|
            0 <= i < fields.len() && i != at ==> !((#[trigger] fields[i]).label matches Some(label)
                && op::is_repositories_label(label)),
    ensures
        op::field_repos(fields) == op::listed_repos(value),
    decreases fields.len(),
{
    let front = fields.drop_last();
    if at == fields.len() - 1 {
        lemma_no_list(front);
        assert(Seq::<Seq<char>>::empty() + op::listed_repos(value) =~= op::listed_repos(value));
    } else {
        assert(fields[fields.len() - 1] == fields.last());
        lemma_one_list(front, at, value);
    }
}

/// Fields that list no repositories name none.
proof fn lemma_no_list(fields: Seq<op::FieldView>)
    requires
        forall|i: int|
            0 <= i < fields.len() ==> !((#[trigger] fields[i]).label matches Some(label)
                && op::is_repositories_label(label)),
    ensures
        op::field_repos(fields) == Seq::<Seq<char>>::empty(),
    decreases fields.len(),
{
    if fields.len() > 0 {
        assert(fields[fields.len() - 1] == fields.last());
        lemma_no_list(fields.drop_last());
    }
}

/// The fields of an item that was made of a template.
pub open spec fn stored_fields(template: op::TemplateView) -> Seq<op::FieldView> {
    Seq::new(
        template.fields.len(),
        |i: int|
            op::FieldView {
                label: Some(template.fields[i].label),
                value: Some(json::JsonView::Text(template.fields[i].value)),
            },
    )
}

/// Fields whose labels are all variables give their labels.
proof fn lemma_all_variables(fields: Seq<op::FieldView>)
    requires
        forall|i: int|
            0 <= i < fields.len() ==> op::is_variable(#[trigger] fields[i]) && fields[i].value is Some,
    ensures
        op::variable_labels(fields, true) == Seq::new(fields.len(), |i: int| fields[i].label->0),
        op::variable_labels(fields, false) == Seq::new(fields.len(), |i: int| fields[i].label->0),
    decreases fields.len(),
{
    let labels = Seq::new(fields.len(), |i: int| fields[i].label->0);
    if fields.len() > 0 {
        let front = fields.drop_last();
        lemma_all_variables(front);
        assert(op::is_variable(fields[fields.len() - 1]));
        assert(Seq::new(front.len(), |i: int| front[i].label->0).push(fields.last().label->0)
            =~= labels);
    } else {
        assert(op::variable_labels(fields, true) =~= labels);
        assert(op::variable_labels(fields, false) =~= labels);
    }
}

/// An item that is made of an env file has the variables of the file, in their order, and belongs
/// to the repositories that it was made for.
pub proof fn law_item_of_env_file(
    title: Seq<char>,
    env: Seq<(Seq<char>, Seq<char>)>,
    names: Seq<Seq<char>>,
)
    requires
        forall|i: int|
            0 <= i < env.len() ==> pattern::is_name((#[trigger] env[i]).0) && !op::is_metadata(
                env[i].0,
            ),
        can_list(names),
        names.no_duplicates(),
    ensures
        ({
            let fields = stored_fields(op::api_credential_template(title, env, names));
            &&& op::variable_labels(fields, true) == Seq::new(env.len(), |i: int| env[i].0)
            &&& op::variable_labels(fields, false) == Seq::new(env.len(), |i: int| env[i].0)
            &&& op::deduped_lowered(op::field_repos(fields)) == names
            &&& forall|i: int|
                0 <= i < env.len() ==> op::field_text(#[trigger] fields[i]) == Some(env[i].1)
        }),
{
    let fields = stored_fields(op::api_credential_template(title, env, names));
    let n = env.len() as int;
    let own = fields.take(n);
    assert forall|i: int| 0 <= i < own.len() implies op::is_variable(#[trigger] own[i])
        && own[i].value is Some && own[i].label == Some(env[i].0) by {
        assert(pattern::is_name(env[i].0));
    }
    lemma_all_variables(own);
    assert(Seq::new(own.len(), |i: int| own[i].label->0) =~= Seq::new(
        env.len(),
        |i: int| env[i].0,
    ));
    assert forall|i: int| 0 <= i < own.len() implies !((#[trigger] own[i]).label matches Some(label)
        && op::is_repositories_label(label)) by {
        assert(own[i].label == Some(env[i].0));
        assert(!op::is_metadata(env[i].0));
    }
    if names.len() == 0 {
        assert(own =~= fields);
        lemma_no_list(own);
        assert(op::deduped_lowered(Seq::empty()) =~= names);
    } else {
        assert(fields.drop_last() =~= own);
        let value = text::joined(names, "\n"@);
        assert(fields.last().label == Some("github_repositories"@));
        assert forall|i: int| 0 <= i < fields.len() && i != n implies !(
        (#[trigger] fields[i]).label matches Some(label) && op::is_repositories_label(label)) by {
            assert(fields[i] == own[i]);
        }
        lemma_one_list(fields, n, value);
        law_listed_repositories(names);
        lemma_lowered_apart(names);
    }
}

/// The place of a field with a name.
proof fn lemma_named_index(fields: Seq<json::JsonView>, name: Seq<char>, from: int)
    requires
        0 <= from,
    ensures
        match op::named_index(fields, name, from) {
            Some(p) => from <= p < fields.len() && op::is_named(fields[p], name) && forall|q: int|
                from <= q < p ==> !op::is_named(#[trigger] fields[q], name),
            None => forall|q: int|
                from <= q < fields.len() ==> !op::is_named(#[trigger] fields[q], name),
        },
    decreases fields.len() - from,
{
    if from < fields.len() && !op::is_named(fields[from], name) {
        lemma_named_index(fields, name, from + 1);
    }
}

/// The first field with a name is where `named_index` finds it.
proof fn lemma_named_index_is(fields: Seq<json::JsonView>, name: Seq<char>, from: int, p: int)
    requires
        0 <= from <= p < fields.len(),
        op::is_named(fields[p], name),
        forall|q: int| from <= q < p ==> !op::is_named(#[trigger] fields[q], name),
    ensures
        op::named_index(fields, name, from) == Some(p),
    decreases p - from,
{
    if from < p {
        lemma_named_index_is(fields, name, from + 1, p);
    }
}

/// The field that is added for a name.
spec fn new_field(name: Seq<char>, value: Seq<char>) -> json::JsonView {
    json::JsonView::object().with("id"@, json::JsonView::Text(name)).with(
        "title"@,
        json::JsonView::Text(name),
    ).with("fieldType"@, json::JsonView::Text("Text"@)).with("value"@, json::JsonView::Text(value))
}

/// A field that is added has its name as its title, and the value.
proof fn lemma_new_field(name: Seq<char>, value: Seq<char>)
    ensures
        new_field(name, value) is Object,
        json::well_ordered(new_field(name, value)),
        json::text_field(new_field(name, value), "title"@) == Some(name),
        json::text_field(new_field(name, value), "value"@) == Some(value),
{
    reveal_strlit("title");
    reveal_strlit("fieldType");
    reveal_strlit("value");
    assert("title"@.len() == 5 && "fieldType"@.len() == 9);
    assert("value"@.len() == 5 && "title"@[0] != "value"@[0]);
    json::lemma_object_ordered();
    let blank = json::JsonView::object();
    let called = json::JsonView::Text(name);
    let kind = json::JsonView::Text("Text"@);
    let own = json::JsonView::Text(value);
    let a = blank.with("id"@, called);
    json::lemma_with(blank, "id"@, called, "id"@);
    let b = a.with("title"@, called);
    json::lemma_with(a, "title"@, called, "id"@);
    let c = b.with("fieldType"@, kind);
    json::lemma_with(b, "fieldType"@, kind, "title"@);
    json::lemma_with(c, "value"@, own, "title"@);
}

/// A text field that was set has the value, the others are as they were, and setting it again
/// changes nothing.
pub proof fn law_text_field_set(fields: Seq<json::JsonView>, name: Seq<char>, value: Seq<char>)
    requires
        forall|i: int| 0 <= i < fields.len() ==> json::well_ordered(#[trigger] fields[i]),
    ensures
        ({
            let now = op::with_text_field(fields, name, value);
            let place = op::named_index(now, name, 0);
            &&& place is Some
            &&& place->0 == (match op::named_index(fields, name, 0) {
                Some(i) => i,
                None => fields.len() as int,
            })
            &&& now.len() == (if op::named_index(fields, name, 0) is Some {
                fields.len()
            } else {
                fields.len() + 1
            })
            &&& json::text_field(now[place->0], "value"@) == Some(value)
            &&& forall|i: int|
                0 <= i < fields.len() && i != place->0 ==> #[trigger] now[i] == fields[i]
            &&& forall|key: Seq<char>|
                place->0 < fields.len() && key != "value"@ ==> #[trigger] json::field(
                    now[place->0],
                    key,
                ) == json::field(fields[place->0], key)
            &&& op::with_text_field(now, name, value) == now
        }),
{
    reveal_strlit("id");
    reveal_strlit("title");
    reveal_strlit("value");
    assert("id"@.len() != "value"@.len() && "title"@[0] != "value"@[0]);
    let now = op::with_text_field(fields, name, value);
    let own = json::JsonView::Text(value);
    lemma_named_index(fields, name, 0);
    let p = match op::named_index(fields, name, 0) {
        Some(i) => i,
        None => fields.len() as int,
    };
    match op::named_index(fields, name, 0) {
        Some(i) => {
            assert(fields[i] is Object);
            json::lemma_with(fields[i], "value"@, own, "id"@);
            json::lemma_with(fields[i], "value"@, own, "title"@);
            assert forall|key: Seq<char>| key != "value"@ implies #[trigger] json::field(
                now[i],
                key,
            ) == json::field(fields[i], key) by {
                json::lemma_with(fields[i], "value"@, own, key);
            }
        },
        None => {
            lemma_new_field(name, value);
            assert(now[p] == new_field(name, value));
        },
    }
    assert forall|q: int| 0 <= q < p implies !op::is_named(#[trigger] now[q], name) by {
        assert(now[q] == fields[q]);
    }
    assert(op::is_named(now[p], name));
    lemma_named_index_is(now, name, 0, p);
    json::lemma_with_same(now[p], "value"@, own);
    assert(now.update(p, now[p]) =~= now);
}

/// Repositories that are noted on an item of the SDK are those that it has afterwards. Left out
/// are items with another field for repositories, or whose field for them has another title.
pub proof fn law_noted_repositories(
    item: json::JsonView,
    vault: op::VaultView,
    names: Seq<Seq<char>>,
)
    requires
        json::ordered_throughout(item),
        json::items_field(item, "fields"@) matches Some(fields) && forall|i: int|
            0 <= i < fields.len() ==> ((sdk::field_from(#[trigger] fields[i]).label matches Some(
                label,
            ) && op::is_repositories_label(label)) <==> op::named_index(
                fields,
                "github_repositories"@,
                0,
            ) == Some(i)),
        can_list(names),
        names.no_duplicates(),
    ensures
        ({
            let fields = json::items_field(item, "fields"@)->0;
            let now = item.with(
                "fields"@,
                json::JsonView::Array(
                    op::with_text_field(
                        fields,
                        "github_repositories"@,
                        text::joined(names, "\n"@),
                    ),
                ),
            );
            op::item_repos(sdk::item_from(now, vault)) == names
        }),
{
    let name = "github_repositories"@;
    let value = text::joined(names, "\n"@);
    let fields = json::items_field(item, "fields"@)->0;
    json::lemma_field_ordered(item, "fields"@);
    assert forall|i: int| 0 <= i < fields.len() implies json::well_ordered(#[trigger] fields[i]) by {
        assert(json::ordered_throughout(json::field(item, "fields"@)->0));
        assert(json::ordered_throughout(fields[i]));
    }
    law_text_field_set(fields, name, value);
    lemma_named_index(fields, name, 0);
    let set = op::with_text_field(fields, name, value);
    let now = item.with("fields"@, json::JsonView::Array(set));
    json::lemma_with(item, "fields"@, json::JsonView::Array(set), "fields"@);
    let read = sdk::item_from(now, vault).fields;
    let at = op::named_index(set, name, 0)->0;
    reveal_strlit("title");
    reveal_strlit("label");
    reveal_strlit("value");
    assert("title"@[0] != "value"@[0] && "label"@[0] != "value"@[0]);
    assert(read[at] == sdk::field_from(set[at]));
    assert(read[at].label matches Some(label) && op::is_repositories_label(label)) by {
        if at < fields.len() {
            assert(op::named_index(fields, name, 0) == Some(at));
            assert(json::field(set[at], "title"@) == json::field(fields[at], "title"@));
            assert(json::field(set[at], "label"@) == json::field(fields[at], "label"@));
            assert(sdk::field_from(fields[at]).label is Some);
        } else {
            lemma_new_field(name, value);
            assert(set[at] == new_field(name, value));
        }
    }
    assert forall|i: int| 0 <= i < read.len() && i != at implies !((#[trigger] read[i]).label matches Some(
        label,
    ) && op::is_repositories_label(label)) by {
        assert(set[i] == fields[i]);
        assert(read[i] == sdk::field_from(fields[i]));
    }
    lemma_one_list(read, at, value);
    law_listed_repositories(names);
    lemma_lowered_apart(names);
}

} // verus!
