//! 1Password items: their fields, the environment they describe and the repositories they name.

use vstd::prelude::*;
use vstd::string::*;

use crate::failure;
use crate::failure::Failure;
use crate::json;
use crate::json::{Json, JsonView};
use crate::pattern;
use crate::seqs;
use crate::text;

verus! {

broadcast use crate::seqs::group_seqs;

/// The vault that holds an item.
#[derive(Clone, Debug)]
pub struct ItemVault {
    pub id: String,
    pub name: String,
}

/// The content of an `ItemVault`.
pub struct VaultView {
    pub id: Seq<char>,
    pub name: Seq<char>,
}

impl DeepView for ItemVault {
    type V = VaultView;

    open spec fn deep_view(&self) -> VaultView {
        VaultView { id: self.id@, name: self.name@ }
    }
}

/// An item as a list of items shows it.
#[derive(Debug)]
pub struct ItemListEntry {
    pub id: String,
    pub title: String,
    pub vault: Option<ItemVault>,
}

/// The content of an `ItemListEntry`.
pub struct EntryView {
    pub id: Seq<char>,
    pub title: Seq<char>,
    pub vault: Option<VaultView>,
}

impl DeepView for ItemListEntry {
    type V = EntryView;

    open spec fn deep_view(&self) -> EntryView {
        EntryView { id: self.id@, title: self.title@, vault: self.vault.deep_view() }
    }
}

/// A field of an item.
pub struct ItemField {
    pub label: Option<String>,
    pub value: Option<Json>,
}

/// The content of an `ItemField`.
pub struct FieldView {
    pub label: Option<Seq<char>>,
    pub value: Option<JsonView>,
}

impl DeepView for ItemField {
    type V = FieldView;

    open spec fn deep_view(&self) -> FieldView {
        FieldView { label: self.label.deep_view(), value: self.value.deep_view() }
    }
}

/// An item with its fields.
pub struct ItemGet {
    pub id: Option<String>,
    pub title: Option<String>,
    pub fields: Vec<ItemField>,
    pub vault: Option<ItemVault>,
}

/// The content of an `ItemGet`.
pub struct ItemView {
    pub id: Option<Seq<char>>,
    pub title: Option<Seq<char>>,
    pub fields: Seq<FieldView>,
    pub vault: Option<VaultView>,
}

impl DeepView for ItemGet {
    type V = ItemView;

    open spec fn deep_view(&self) -> ItemView {
        ItemView {
            id: self.id.deep_view(),
            title: self.title.deep_view(),
            fields: self.fields.deep_view(),
            vault: self.vault.deep_view(),
        }
    }
}

/// A field of a new item.
pub struct ItemCreateField {
    pub id: String,
    pub field_type: String,
    pub label: String,
    pub value: String,
    pub purpose: Option<String>,
}

/// The content of an `ItemCreateField`.
pub struct CreateFieldView {
    pub id: Seq<char>,
    pub field_type: Seq<char>,
    pub label: Seq<char>,
    pub value: Seq<char>,
    pub purpose: Option<Seq<char>>,
}

impl DeepView for ItemCreateField {
    type V = CreateFieldView;

    open spec fn deep_view(&self) -> CreateFieldView {
        CreateFieldView {
            id: self.id@,
            field_type: self.field_type@,
            label: self.label@,
            value: self.value@,
            purpose: self.purpose.deep_view(),
        }
    }
}

/// The template of a new item.
pub struct ItemCreateTemplate {
    pub title: String,
    pub category: String,
    pub fields: Vec<ItemCreateField>,
}

/// The content of an `ItemCreateTemplate`.
pub struct TemplateView {
    pub title: Seq<char>,
    pub category: Seq<char>,
    pub fields: Seq<CreateFieldView>,
}

impl DeepView for ItemCreateTemplate {
    type V = TemplateView;

    open spec fn deep_view(&self) -> TemplateView {
        TemplateView {
            title: self.title@,
            category: self.category@,
            fields: self.fields.deep_view(),
        }
    }
}

/// A copy of a vault.
pub fn copy_vault(vault: &ItemVault) -> (r: ItemVault)
    ensures
        r.deep_view() == vault.deep_view(),
{
    ItemVault { id: vault.id.clone(), name: vault.name.clone() }
}

/// A copy of an entry.
pub fn copy_entry(entry: &ItemListEntry) -> (r: ItemListEntry)
    ensures
        r.deep_view() == entry.deep_view(),
{
    let vault = match &entry.vault {
        Some(vault) => Some(copy_vault(vault)),
        None => None,
    };
    ItemListEntry { id: entry.id.clone(), title: entry.title.clone(), vault }
}

/// The arguments that select a vault, where one is given.
pub open spec fn vault_args(vault: Option<Seq<char>>) -> Seq<Seq<char>> {
    match vault {
        Some(v) => seq!["--vault"@, v],
        None => Seq::empty(),
    }
}

/// Appends the arguments that select a vault.
fn push_vault_args(args: &mut Vec<String>, vault: Option<&str>)
    ensures
        seqs::texts(final(args)@) == seqs::texts(old(args)@) + vault_args(vault.deep_view()),
{
    let ghost before = seqs::texts(args@);
    if let Some(v) = vault {
        seqs::push_text(args, "--vault");
        seqs::push_text(args, v);
    }
    assert(seqs::texts(args@) =~= before + vault_args(vault.deep_view()));
}

/// The arguments with which `op` creates an item from a template on its standard input.
pub open spec fn create_args(vault: Option<Seq<char>>) -> Seq<Seq<char>> {
    seq!["item"@, "create"@] + vault_args(vault) + seq!["-"@]
}

/// The arguments with which `op` creates an item from a template on its standard input.
pub fn build_create_item_args(vault: Option<&str>) -> (r: Vec<String>)
    ensures
        seqs::texts(r@) == create_args(vault.deep_view()),
{
    let mut args = seqs::no_texts();
    seqs::push_text(&mut args, "item");
    seqs::push_text(&mut args, "create");
    assert(seqs::texts(args@) =~= seq!["item"@, "create"@]);
    push_vault_args(&mut args, vault);
    seqs::push_text(&mut args, "-");
    assert(seqs::texts(args@) =~= create_args(vault.deep_view()));
    args
}

/// The arguments with which `op` creates a credential item and prints it as JSON.
pub fn build_create_item_json_args(vault: Option<&str>) -> (r: Vec<String>)
    ensures
        seqs::texts(r@) == seq!["item"@, "create"@] + vault_args(vault.deep_view()) + seq![
            "--format=json"@,
            "-"@,
        ],
{
    let mut args = seqs::no_texts();
    seqs::push_text(&mut args, "item");
    seqs::push_text(&mut args, "create");
    assert(seqs::texts(args@) =~= seq!["item"@, "create"@]);
    push_vault_args(&mut args, vault);
    let ghost before = seqs::texts(args@);
    seqs::push_text(&mut args, "--format=json");
    seqs::push_text(&mut args, "-");
    assert(seqs::texts(args@) =~= before + seq!["--format=json"@, "-"@]);
    args
}

/// The arguments with which `op` edits a credential item from a template and prints it as JSON.
pub fn build_edit_item_json_args(vault: Option<&str>, item_id: &str) -> (r: Vec<String>)
    ensures
        seqs::texts(r@) == seq!["item"@, "edit"@, item_id@, "--format=json"@] + vault_args(
            vault.deep_view(),
        ),
{
    let mut args = seqs::no_texts();
    seqs::push_text(&mut args, "item");
    seqs::push_text(&mut args, "edit");
    seqs::push_text(&mut args, item_id);
    seqs::push_text(&mut args, "--format=json");
    assert(seqs::texts(args@) =~= seq!["item"@, "edit"@, item_id@, "--format=json"@]);
    push_vault_args(&mut args, vault);
    args
}

/// The arguments with which `op` prints an item as JSON.
pub fn build_get_item_args(vault: Option<&str>, item: &str) -> (r: Vec<String>)
    ensures
        seqs::texts(r@) == seq!["item"@, "get"@, item@, "--format"@, "json"@] + vault_args(
            vault.deep_view(),
        ),
{
    let mut args = seqs::no_texts();
    seqs::push_text(&mut args, "item");
    seqs::push_text(&mut args, "get");
    seqs::push_text(&mut args, item);
    seqs::push_text(&mut args, "--format");
    seqs::push_text(&mut args, "json");
    assert(seqs::texts(args@) =~= seq!["item"@, "get"@, item@, "--format"@, "json"@]);
    push_vault_args(&mut args, vault);
    args
}

/// The arguments with which `op` lists items as JSON.
pub fn build_list_items_args(vault: Option<&str>) -> (r: Vec<String>)
    ensures
        seqs::texts(r@) == seq!["item"@, "list"@, "--format"@, "json"@] + vault_args(
            vault.deep_view(),
        ),
{
    let mut args = seqs::no_texts();
    seqs::push_text(&mut args, "item");
    seqs::push_text(&mut args, "list");
    seqs::push_text(&mut args, "--format");
    seqs::push_text(&mut args, "json");
    assert(seqs::texts(args@) =~= seq!["item"@, "list"@, "--format"@, "json"@]);
    push_vault_args(&mut args, vault);
    args
}

/// The arguments with which `op` gives an item a new title.
pub fn build_edit_title_args(vault: Option<&str>, item_id: &str, title: &str) -> (r: Vec<String>)
    ensures
        seqs::texts(r@) == seq!["item"@, "edit"@, item_id@, "title="@ + title@] + vault_args(
            vault.deep_view(),
        ),
{
    let mut args = seqs::no_texts();
    seqs::push_text(&mut args, "item");
    seqs::push_text(&mut args, "edit");
    seqs::push_text(&mut args, item_id);
    seqs::push_string(&mut args, "title=".to_owned().concat(title));
    assert(seqs::texts(args@) =~= seq!["item"@, "edit"@, item_id@, "title="@ + title@]);
    push_vault_args(&mut args, vault);
    args
}

/// The arguments with which `op` sets the repositories of an item.
pub fn build_op_item_edit_github_repositories_args(
    vault: Option<&str>,
    item_id: &str,
    repositories: &[String],
) -> (r: Vec<String>)
    ensures
        seqs::texts(r@) == seq!["item"@, "edit"@, item_id@] + vault_args(vault.deep_view()) + seq![
            "github_repositories="@ + text::joined(seqs::texts(repositories@), "\n"@),
        ],
{
    let mut args = seqs::no_texts();
    seqs::push_text(&mut args, "item");
    seqs::push_text(&mut args, "edit");
    seqs::push_text(&mut args, item_id);
    assert(seqs::texts(args@) =~= seq!["item"@, "edit"@, item_id@]);
    push_vault_args(&mut args, vault);
    let ghost before = seqs::texts(args@);
    let assignment = "github_repositories=".to_owned().concat(&text::join(repositories, "\n"));
    let ghost own = assignment@;
    seqs::push_string(&mut args, assignment);
    assert(seqs::texts(args@) =~= before + seq![own]);
    args
}

/// A text field of a new item.
pub open spec fn string_field(label: Seq<char>, value: Seq<char>) -> CreateFieldView {
    CreateFieldView { id: label, field_type: "STRING"@, label, value, purpose: None }
}

/// The template of an API credential with the variables of an environment file, and with the
/// repositories it belongs to, where there are any.
pub open spec fn api_credential_template(
    title: Seq<char>,
    env: Seq<(Seq<char>, Seq<char>)>,
    repositories: Seq<Seq<char>>,
) -> TemplateView {
    let own = Seq::new(env.len(), |i: int| string_field(env[i].0, env[i].1));
    TemplateView {
        title,
        category: "API_CREDENTIAL"@,
        fields: if repositories.len() == 0 {
            own
        } else {
            own.push(string_field("github_repositories"@, text::joined(repositories, "\n"@)))
        },
    }
}

/// A text field of a new item.
fn build_string_field(label: &str, value: &str) -> (r: ItemCreateField)
    ensures
        r.deep_view() == string_field(label@, value@),
{
    ItemCreateField {
        id: label.to_owned(),
        field_type: "STRING".to_owned(),
        label: label.to_owned(),
        value: value.to_owned(),
        purpose: None,
    }
}

/// The template of an API credential.
pub fn build_api_credential_template(
    item_title: &str,
    env_pairs: &[(String, String)],
    github_repositories: &[String],
) -> (r: ItemCreateTemplate)
    ensures
        r.deep_view() == api_credential_template(
            item_title@,
            crate::envfile::pairs(env_pairs@),
            seqs::texts(github_repositories@),
        ),
{
    let ghost env = crate::envfile::pairs(env_pairs@);
    let mut fields: Vec<ItemCreateField> = Vec::new();
    let mut i: usize = 0;
    while i < env_pairs.len()
        invariant
            i <= env_pairs@.len(),
            env == crate::envfile::pairs(env_pairs@),
            fields@.len() == i,
            forall|j: int|
                0 <= j < i ==> (#[trigger] fields@[j]).deep_view() == string_field(env[j].0, env[j].1),
        decreases env_pairs@.len() - i,
    {
        let field = build_string_field(&env_pairs[i].0, &env_pairs[i].1);
        fields.push(field);
        i += 1;
    }
    let ghost own = Seq::new(env.len(), |i: int| string_field(env[i].0, env[i].1));
    assert(fields.deep_view() =~= own);
    if github_repositories.len() > 0 {
        let field = build_string_field("github_repositories", &text::join(github_repositories, "\n"));
        fields.push(field);
        assert(fields.deep_view() =~= own.push(field.deep_view()));
    }
    ItemCreateTemplate {
        title: item_title.to_owned(),
        category: "API_CREDENTIAL".to_owned(),
        fields,
    }
}

/// The body of a note that holds a file: a fenced block with the name of the file.
pub open spec fn note_body(file_name: Seq<char>, content: Seq<char>) -> Seq<char> {
    "```"@ + file_name + "\n"@ + content + (if text::ends(content, "\n"@) {
        ""@
    } else {
        "\n"@
    }) + "```"@
}

/// The body of a note that holds a file.
pub fn build_secure_note_body(file_name: &str, content: &str) -> (r: String)
    ensures
        r@ == note_body(file_name@, content@),
{
    let end = if text::ends_with(content, "\n") {
        ""
    } else {
        "\n"
    };
    "```".to_owned().concat(file_name).concat("\n").concat(content).concat(end).concat("```")
}

/// The template of a note.
pub fn build_secure_note_template(item_title: &str, body: &str) -> (r: ItemCreateTemplate)
    ensures
        r.deep_view() == (TemplateView {
            title: item_title@,
            category: "SECURE_NOTE"@,
            fields: seq![
                CreateFieldView {
                    id: "notesPlain"@,
                    field_type: "STRING"@,
                    label: "notesPlain"@,
                    value: body@,
                    purpose: Some("NOTES"@),
                },
            ],
        }),
{
    let field = ItemCreateField {
        id: "notesPlain".to_owned(),
        field_type: "STRING".to_owned(),
        label: "notesPlain".to_owned(),
        value: body.to_owned(),
        purpose: Some("NOTES".to_owned()),
    };
    let ghost own = field.deep_view();
    let mut fields: Vec<ItemCreateField> = Vec::new();
    fields.push(field);
    assert(fields.deep_view() =~= seq![own]);
    ItemCreateTemplate { title: item_title.to_owned(), category: "SECURE_NOTE".to_owned(), fields }
}

/// The path without what follows a question mark or a hash.
pub open spec fn without_query(s: Seq<char>) -> Seq<char> {
    text::pieces(s, seq!['?', '#'])[0]
}

/// The path without what follows a question mark or a hash.
fn cut_query(s: &str) -> (r: String)
    ensures
        r@ == without_query(s@),
{
    let set = ['?', '#'];
    assert(set@ == seq!['?', '#']);
    let parts = text::split_chars(s, &set);
    assert(seqs::texts(parts@)[0] == parts@[0]@);
    parts[0].clone()
}

/// The last two parts of a path.
pub open spec fn last_two(path: Seq<char>) -> Option<(Seq<char>, Seq<char>)> {
    let n = text::without_suffixes(text::stripped_of(path, '/'), ".git"@);
    let segments = text::filled_parts(text::pieces(n, seq!['/']));
    if segments.len() < 2 {
        None
    } else {
        Some((segments[segments.len() - 2], segments[segments.len() - 1]))
    }
}

/// The last two parts of a path.
fn find_last_two(path: &str) -> (r: Option<(String, String)>)
    ensures
        r.deep_view() == last_two(path@),
{
    let set = ['/'];
    assert(set@ == seq!['/']);
    let segments = text::split_filled(
        text::trim_end_suffixes(text::trim_char(path, '/'), ".git"),
        &set,
    );
    let n = segments.len();
    if n < 2 {
        return None;
    }
    let ghost all = seqs::texts(segments@);
    assert(all[n - 2] == segments@[n - 2]@ && all[n - 1] == segments@[n - 1]@);
    Some((segments[n - 2].clone(), segments[n - 1].clone()))
}

/// The owner and the repository, in lower case, that a text names: a path, a URL, or an address of
/// the form `user@host:path`.
pub open spec fn repo_spec(value: Seq<char>) -> Option<Seq<char>> {
    let trimmed = text::trimmed(value);
    if trimmed.len() == 0 {
        None
    } else {
        let s = text::without_trailing(trimmed, seq!['/']);
        let path = match text::parted(s, "://"@) {
            Some((_, rest)) => match text::parted(rest, "/"@) {
                Some((_, p)) => Some(p),
                None => None,
            },
            None => if s.contains('@') && s.contains(':') {
                match text::parted(s, ":"@) {
                    Some((_, p)) => Some(p),
                    None => None,
                }
            } else {
                Some(s)
            },
        };
        match path {
            None => None,
            Some(p) => match last_two(without_query(p)) {
                Some((owner, repo)) => Some(text::lowered(owner) + "/"@ + text::lowered(repo)),
                None => None,
            },
        }
    }
}

/// The owner and the repository, in lower case, that a text names.
pub fn normalize_github_repo_spec(value: &str) -> (r: Option<String>)
    ensures
        r.deep_view() == repo_spec(value@),
{
    let trimmed = text::trim(value);
    if trimmed.unicode_len() == 0 {
        return None;
    }
    let set = ['/'];
    assert(set@ == seq!['/']);
    let s = text::trim_end_chars(trimmed, &set);
    let path = match text::split_once(s, "://") {
        Some((_, rest)) => match text::split_once(rest, "/") {
            Some((_, p)) => p,
            None => return None,
        },
        None => if text::contains_char(s, '@') && text::contains_char(s, ':') {
            match text::split_once(s, ":") {
                Some((_, p)) => p,
                None => return None,
            }
        } else {
            s
        },
    };
    match find_last_two(&cut_query(path)) {
        Some((owner, repo)) => Some(
            text::to_ascii_lowercase(&owner).concat("/").concat(&text::to_ascii_lowercase(&repo)),
        ),
        None => None,
    }
}

/// The organisation and the repository that the URL of a git remote names.
pub open spec fn remote_repo(url: Seq<char>) -> Option<Seq<char>> {
    let s = without_query(url);
    let path = match text::parted(s, "://"@) {
        Some((_, rest)) => match text::parted(rest, "/"@) {
            Some((host, p)) => if host.len() == 0 {
                None
            } else {
                Some(p)
            },
            None => None,
        },
        None => if s.contains('@') && s.contains(':') {
            match text::parted(s, ":"@) {
                Some((_, p)) => Some(p),
                None => None,
            }
        } else {
            None
        },
    };
    match path {
        None => None,
        Some(p) => match last_two(p) {
            Some((org, repo)) => Some(org + "/"@ + repo),
            None => None,
        },
    }
}

/// The organisation and the repository that the URL of a git remote names.
pub fn extract_org_repo_from_remote_url(url: &str) -> (r: Option<String>)
    ensures
        r.deep_view() == remote_repo(url@),
{
    let stripped = cut_query(url);
    let path = match text::split_once(&stripped, "://") {
        Some((_, rest)) => match text::split_once(rest, "/") {
            Some((host, p)) => {
                if host.unicode_len() == 0 {
                    return None;
                }
                p
            },
            None => return None,
        },
        None => if text::contains_char(&stripped, '@') && text::contains_char(&stripped, ':') {
            match text::split_once(&stripped, ":") {
                Some((_, p)) => p,
                None => return None,
            }
        } else {
            return None;
        },
    };
    match find_last_two(path) {
        Some((org, repo)) => Some(org.concat("/").concat(&repo)),
        None => None,
    }
}

/// The repositories that lines of a key and a URL name, without the lines that name none.
pub open spec fn remote_repos(lines: Seq<Seq<char>>) -> Seq<Seq<char>>
    decreases lines.len(),
{
    if lines.len() == 0 {
        Seq::empty()
    } else {
        let before = remote_repos(lines.drop_last());
        let words = text::words(lines.last());
        if words.len() < 2 {
            before
        } else {
            match remote_repo(words[1]) {
                Some(name) => before.push(name),
                None => before,
            }
        }
    }
}

/// Checks that an env file holds something to store.
pub fn check_env_pairs(pairs: &[(String, String)], path: &str) -> (r: Result<(), Failure>)
    ensures
        failure::told_unit(r) == (if pairs@.len() == 0 {
            Err(seq!["No valid env entries found in "@ + path@])
        } else {
            Ok(())
        }),
{
    if pairs.len() == 0 {
        Err(Failure::new("No valid env entries found in ".to_owned().concat(path)))
    } else {
        Ok(())
    }
}

/// Checks that there is a repository to set.
pub fn check_any_repository(repositories: &[String]) -> (r: Result<(), Failure>)
    ensures
        failure::told_unit(r) == (if repositories@.len() == 0 {
            Err(
                seq![
                    "No GitHub repositories found. Run inside a git repository with a parseable remote, or pass --repo owner/repo."@,
                ],
            )
        } else {
            Ok(())
        }),
{
    if repositories.len() == 0 {
        Err(
            failure::fail(
                "No GitHub repositories found. Run inside a git repository with a parseable remote, or pass --repo owner/repo.",
            ),
        )
    } else {
        Ok(())
    }
}

/// The repositories that the output of `git config --get-regexp` names.
pub fn parse_remote_repo_names(stdout: &str) -> (r: Result<Vec<String>, Failure>)
    ensures
        failure::told_texts(r) == (if remote_repos(text::lines_of(stdout@)).len() == 0 {
            Err(
                seq![
                    "no parseable git remotes found; note requires at least one remote URL like https://host/org/repo.git"@,
                ],
            )
        } else {
            Ok(remote_repos(text::lines_of(stdout@)))
        }),
{
    let lines = text::lines(stdout);
    let ghost all = text::lines_of(stdout@);
    let mut names = seqs::no_texts();
    let mut i: usize = 0;
    while i < lines.len()
        invariant
            i <= lines@.len(),
            all == seqs::texts(lines@),
            seqs::texts(names@) == remote_repos(all.take(i as int)),
        decreases lines@.len() - i,
    {
        proof {
            assert(all.take(i + 1).drop_last() == all.take(i as int));
            assert(all.take(i + 1).last() == lines@[i as int]@);
        }
        let words = text::split_words(&lines[i]);
        if words.len() >= 2 {
            assert(seqs::texts(words@)[1] == words@[1]@);
            if let Some(name) = extract_org_repo_from_remote_url(&words[1]) {
                seqs::push_string(&mut names, name);
            }
        }
        i += 1;
    }
    assert(seqs::texts(names@).len() == names@.len());
    if names.len() == 0 {
        return Err(
            failure::fail(
                "no parseable git remotes found; note requires at least one remote URL like https://host/org/repo.git",
            ),
        );
    }
    Ok(names)
}

/// Why the remotes of a repository could not be read.
pub fn git_remotes_failure(stderr: &str) -> (r: Failure)
    ensures
        r@ == seq![
            "failed to read git remotes: "@ + (if text::trimmed(stderr@).len() == 0 {
                "no remote configured"@
            } else {
                text::trimmed(stderr@)
            }),
        ],
{
    let detail = text::trim(stderr);
    let shown = if detail.unicode_len() == 0 {
        "no remote configured"
    } else {
        detail
    };
    Failure::new("failed to read git remotes: ".to_owned().concat(shown))
}

/// The repositories that the texts name, without those that name none.
pub open spec fn repo_specs(values: Seq<Seq<char>>) -> Seq<Seq<char>>
    decreases values.len(),
{
    if values.len() == 0 {
        Seq::empty()
    } else {
        let before = repo_specs(values.drop_last());
        match repo_spec(values.last()) {
            Some(name) => before.push(name),
            None => before,
        }
    }
}

/// The repositories that the texts name, without those that name none.
pub fn normalize_repo_specs(values: &[String]) -> (r: Vec<String>)
    ensures
        seqs::texts(r@) == repo_specs(seqs::texts(values@)),
{
    let ghost all = seqs::texts(values@);
    let mut names = seqs::no_texts();
    let mut i: usize = 0;
    assert(all.take(0) =~= Seq::<Seq<char>>::empty());
    while i < values.len()
        invariant
            i <= values@.len(),
            all == seqs::texts(values@),
            seqs::texts(names@) == repo_specs(all.take(i as int)),
        decreases values@.len() - i,
    {
        proof {
            assert(all.take(i + 1).drop_last() == all.take(i as int));
        }
        if let Some(name) = normalize_github_repo_spec(&values[i]) {
            seqs::push_string(&mut names, name);
        }
        i += 1;
    }
    names
}

/// The repositories that the texts name, each once.
pub fn dedupe_github_repositories(repos: &[String]) -> (r: Vec<String>)
    ensures
        seqs::texts(r@) == seqs::deduped(repo_specs(seqs::texts(repos@))),
{
    seqs::dedupe_preserve_order(&normalize_repo_specs(repos))
}

/// The repositories of both lists, each once.
pub fn merge_github_repository_lists(existing: &[String], requested: &[String]) -> (r: Vec<String>)
    ensures
        seqs::texts(r@) == seqs::deduped(
            repo_specs(seqs::texts(existing@) + seqs::texts(requested@)),
        ),
{
    let mut repos = seqs::copy_texts(existing);
    seqs::push_texts(&mut repos, requested);
    dedupe_github_repositories(&repos)
}

/// The repositories that were asked for, each once, where every text names one.
pub fn check_requested_repositories(raw_repos: &[String]) -> (r: Result<Vec<String>, Failure>)
    ensures
        failure::told_texts(r) == (if repo_specs(seqs::texts(raw_repos@)).len()
            != raw_repos@.len() {
            Err(
                seq![
                    "Invalid GitHub repository. Expected owner/repo, https://github.com/owner/repo.git, or git@github.com:owner/repo.git"@,
                ],
            )
        } else {
            Ok(seqs::deduped(repo_specs(repo_specs(seqs::texts(raw_repos@)))))
        }),
{
    let normalized = normalize_repo_specs(raw_repos);
    assert(seqs::texts(normalized@).len() == normalized@.len());
    if normalized.len() != raw_repos.len() {
        return Err(
            failure::fail(
                "Invalid GitHub repository. Expected owner/repo, https://github.com/owner/repo.git, or git@github.com:owner/repo.git",
            ),
        );
    }
    Ok(dedupe_github_repositories(&normalized))
}

/// The repositories that a list in a field names; commas, line ends and tabs stand between them.
pub open spec fn listed_repos(value: Seq<char>) -> Seq<Seq<char>> {
    repo_specs(text::pieces(value, seq![',', '\n', '\r', '\t']))
}

/// The repositories that a list in a field names.
pub fn parse_github_repositories_value(value: &str) -> (r: Vec<String>)
    ensures
        seqs::texts(r@) == listed_repos(value@),
{
    let set = [',', '\n', '\r', '\t'];
    assert(set@ =~= seq![',', '\n', '\r', '\t']);
    normalize_repo_specs(&text::split_chars(value, &set))
}

/// The text of a field, where its value is a string.
pub open spec fn field_text(field: FieldView) -> Option<Seq<char>> {
    match field.value {
        Some(value) => json::text_of(value),
        None => None,
    }
}

/// The text of a field, where its value is a string.
pub fn item_field_string_value(field: &ItemField) -> (r: Option<String>)
    ensures
        r.deep_view() == field_text(field.deep_view()),
{
    match &field.value {
        Some(value) => match value.as_str() {
            Some(s) => Some(s.to_owned()),
            None => None,
        },
        None => None,
    }
}

/// Whether a label is the one for repositories.
pub open spec fn is_repositories_label(label: Seq<char>) -> bool {
    text::lowered(label) == text::lowered("github_repositories"@)
}

/// The repositories that the fields of an item list.
pub open spec fn field_repos(fields: Seq<FieldView>) -> Seq<Seq<char>>
    decreases fields.len(),
{
    if fields.len() == 0 {
        Seq::empty()
    } else {
        let before = field_repos(fields.drop_last());
        let f = fields.last();
        if f.label is Some && is_repositories_label(f.label->0) && field_text(f) is Some {
            before + listed_repos(field_text(f)->0)
        } else {
            before
        }
    }
}

/// Whether a text is among the others, up to ASCII case.
pub open spec fn has_lowered(s: Seq<Seq<char>>, x: Seq<char>) -> bool {
    exists|i: int| 0 <= i < s.len() && text::lowered(#[trigger] s[i]) == text::lowered(x)
}

/// The texts, each where it occurs first up to ASCII case.
pub open spec fn deduped_lowered(s: Seq<Seq<char>>) -> Seq<Seq<char>>
    decreases s.len(),
{
    if s.len() == 0 {
        Seq::empty()
    } else {
        let before = deduped_lowered(s.drop_last());
        if has_lowered(before, s.last()) {
            before
        } else {
            before.push(s.last())
        }
    }
}

/// The repositories that an item belongs to, each once.
pub open spec fn item_repos(item: ItemView) -> Seq<Seq<char>> {
    deduped_lowered(field_repos(item.fields))
}

/// The texts, each where it occurs first up to ASCII case.
fn dedupe_lowered(values: &[String]) -> (r: Vec<String>)
    ensures
        seqs::texts(r@) == deduped_lowered(seqs::texts(values@)),
{
    let ghost all = seqs::texts(values@);
    let mut r = seqs::no_texts();
    let mut i: usize = 0;
    assert(all.take(0) =~= Seq::<Seq<char>>::empty());
    while i < values.len()
        invariant
            i <= values@.len(),
            all == seqs::texts(values@),
            seqs::texts(r@) == deduped_lowered(all.take(i as int)),
        decreases values@.len() - i,
    {
        proof {
            assert(all.take(i + 1).drop_last() == all.take(i as int));
        }
        let mut seen: bool = false;
        let mut j: usize = 0;
        while j < r.len() && !seen
            invariant
                i < values@.len(),
                j <= r@.len(),
                all == seqs::texts(values@),
                seen == exists|k: int|
                    0 <= k < j && text::lowered(#[trigger] seqs::texts(r@)[k]) == text::lowered(
                        all[i as int],
                    ),
            decreases r@.len() - j,
        {
            if text::same_ignoring_case(&r[j], &values[i]) {
                assert(text::lowered(seqs::texts(r@)[j as int]) == text::lowered(all[i as int]));
                seen = true;
            }
            j += 1;
        }
        if !seen {
            seqs::push_text(&mut r, &values[i]);
        }
        i += 1;
    }
    r
}

/// The repositories that an item belongs to, each once.
pub fn item_github_repositories(item: &ItemGet) -> (r: Vec<String>)
    ensures
        seqs::texts(r@) == item_repos(item.deep_view()),
{
    let ghost all = item.fields.deep_view();
    let mut found = seqs::no_texts();
    let mut i: usize = 0;
    while i < item.fields.len()
        invariant
            i <= item.fields@.len(),
            all == item.fields.deep_view(),
            seqs::texts(found@) == field_repos(all.take(i as int)),
        decreases item.fields@.len() - i,
    {
        proof {
            assert(all.take(i + 1).drop_last() == all.take(i as int));
            assert(all.take(i + 1).last() == item.fields@[i as int].deep_view());
        }
        let field = &item.fields[i];
        if let Some(label) = &field.label {
            if text::same_ignoring_case(label, "github_repositories") {
                if let Some(value) = item_field_string_value(field) {
                    seqs::push_texts(&mut found, &parse_github_repositories_value(&value));
                }
            }
        }
        i += 1;
    }
    dedupe_lowered(&found)
}

/// Whether a label belongs to the description of a plugin.
pub open spec fn is_plugin_label(label: Seq<char>) -> bool {
    text::begins(text::uppered(label), "OPZ_PLUGIN"@)
}

/// Whether a label belongs to the description of a plugin.
pub fn is_plugin_metadata_label(label: &str) -> (r: bool)
    ensures
        r == is_plugin_label(label@),
{
    text::starts_with(&text::to_ascii_uppercase(label), "OPZ_PLUGIN")
}

/// Whether a label describes the item and is no variable.
pub open spec fn is_metadata(label: Seq<char>) -> bool {
    is_repositories_label(label) || is_plugin_label(label)
}

/// Whether a label describes the item and is no variable.
pub fn is_metadata_label(label: &str) -> (r: bool)
    ensures
        r == is_metadata(label@),
{
    text::same_ignoring_case(label, "github_repositories") || is_plugin_metadata_label(label)
}

/// Whether a field is a variable: its label is a variable name and does not describe the item.
pub open spec fn is_variable(field: FieldView) -> bool {
    field.label matches Some(label) && !is_metadata(label) && pattern::is_name(label)
}

/// The labels of the fields that are variables, and have a value where that is asked for.
pub open spec fn variable_labels(fields: Seq<FieldView>, with_value: bool) -> Seq<Seq<char>>
    decreases fields.len(),
{
    if fields.len() == 0 {
        Seq::empty()
    } else {
        let before = variable_labels(fields.drop_last(), with_value);
        let f = fields.last();
        if is_variable(f) && (!with_value || f.value is Some) {
            before.push(f.label->0)
        } else {
            before
        }
    }
}

/// The labels of the fields that are variables.
fn collect_labels(item: &ItemGet, with_value: bool) -> (r: Vec<String>)
    ensures
        seqs::texts(r@) == variable_labels(item.deep_view().fields, with_value),
{
    let ghost all = item.fields.deep_view();
    let mut labels = seqs::no_texts();
    let mut i: usize = 0;
    while i < item.fields.len()
        invariant
            i <= item.fields@.len(),
            all == item.fields.deep_view(),
            seqs::texts(labels@) == variable_labels(all.take(i as int), with_value),
        decreases item.fields@.len() - i,
    {
        proof {
            assert(all.take(i + 1).drop_last() == all.take(i as int));
            assert(all.take(i + 1).last() == item.fields@[i as int].deep_view());
        }
        let field = &item.fields[i];
        if let Some(label) = &field.label {
            if !is_metadata_label(label) && pattern::matches_name(label) && (!with_value
                || field.value.is_some()) {
                seqs::push_text(&mut labels, label);
            }
        }
        i += 1;
    }
    labels
}

/// The labels of the fields that are variables with a value.
pub fn collect_item_labels(item: &ItemGet) -> (r: Result<Vec<String>, Failure>)
    ensures
        failure::told_texts(r) == Ok::<Seq<Seq<char>>, Seq<Seq<char>>>(
            variable_labels(item.deep_view().fields, true),
        ),
{
    Ok(collect_labels(item, true))
}

/// The labels of the fields that are variables, with a value or without.
pub fn item_to_valid_labels(item: &ItemGet) -> (r: Result<Vec<String>, Failure>)
    ensures
        failure::told_texts(r) == Ok::<Seq<Seq<char>>, Seq<Seq<char>>>(
            variable_labels(item.deep_view().fields, false),
        ),
{
    Ok(collect_labels(item, false))
}

/// The line that sets a variable to the reference to its field.
pub open spec fn env_line(label: Seq<char>, vault: Seq<char>, item: Seq<char>) -> Seq<char> {
    label + "=op://"@ + vault + "/"@ + item + "/"@ + label
}

/// The lines that set the variables of an item to the references to their fields.
pub open spec fn env_lines(item: ItemView, vault: Seq<char>, id: Seq<char>) -> Seq<Seq<char>> {
    let labels = variable_labels(item.fields, true);
    Seq::new(labels.len(), |i: int| env_line(labels[i], vault, id))
}

/// The line that sets a variable to the reference to its field.
pub fn build_env_line(label: &str, vault_id: &str, item_id: &str) -> (r: String)
    ensures
        r@ == env_line(label@, vault_id@, item_id@),
{
    label.to_owned().concat("=op://").concat(vault_id).concat("/").concat(item_id).concat(
        "/",
    ).concat(label)
}

/// The lines that set the variables of an item to the references to their fields.
pub fn item_to_env_lines(item: &ItemGet, vault_id: &str, item_id: &str) -> (r: Result<
    Vec<String>,
    Failure,
>)
    ensures
        failure::told_texts(r) == Ok::<Seq<Seq<char>>, Seq<Seq<char>>>(
            env_lines(item.deep_view(), vault_id@, item_id@),
        ),
{
    let labels = collect_labels(item, true);
    let ghost all = variable_labels(item.deep_view().fields, true);
    let mut out = seqs::no_texts();
    let mut i: usize = 0;
    while i < labels.len()
        invariant
            i <= labels@.len(),
            all == seqs::texts(labels@),
            seqs::texts(out@).len() == i,
            forall|j: int|
                0 <= j < i ==> #[trigger] seqs::texts(out@)[j] == env_line(
                    all[j],
                    vault_id@,
                    item_id@,
                ),
        decreases labels@.len() - i,
    {
        seqs::push_string(&mut out, build_env_line(&labels[i], vault_id, item_id));
        i += 1;
    }
    assert(seqs::texts(out@) =~= env_lines(item.deep_view(), vault_id@, item_id@));
    Ok(out)
}

/// No label that describes an item, and none of a plugin's, ever becomes a variable.
pub proof fn law_metadata_is_no_variable(fields: Seq<FieldView>, with_value: bool, i: int)
    requires
        0 <= i < variable_labels(fields, with_value).len(),
    ensures
        !is_metadata(variable_labels(fields, with_value)[i]),
        pattern::is_name(variable_labels(fields, with_value)[i]),
    decreases fields.len(),
{
    if fields.len() > 0 {
        let before = variable_labels(fields.drop_last(), with_value);
        if i < before.len() {
            law_metadata_is_no_variable(fields.drop_last(), with_value, i);
        }
    }
}

/// How often `x` occurs among the first `n` texts.
pub open spec fn occurrences(s: Seq<Seq<char>>, x: Seq<char>, n: int) -> nat
    decreases n,
{
    if n <= 0 {
        0
    } else {
        occurrences(s, x, n - 1) + (if s[n - 1] == x {
            1nat
        } else {
            0
        })
    }
}

/// The title at `i`: the base itself where it occurs first, then with the number of the
/// occurrence behind it.
pub open spec fn sequenced_title(bases: Seq<Seq<char>>, i: int) -> Seq<char> {
    let n = occurrences(bases, bases[i], i + 1);
    if n == 1 {
        bases[i]
    } else {
        bases[i] + "-"@ + text::decimal(n)
    }
}

/// A text occurs no more often than there are places.
proof fn lemma_occurrences(s: Seq<Seq<char>>, x: Seq<char>, n: int)
    requires
        0 <= n,
    ensures
        occurrences(s, x, n) <= n,
    decreases n,
{
    if n > 0 {
        lemma_occurrences(s, x, n - 1);
    }
}

/// Titles in which no base stands twice: a repeated one carries its number.
pub fn dedupe_titles_with_sequence(base_titles: &[String]) -> (r: Vec<String>)
    ensures
        seqs::texts(r@) == Seq::new(
            base_titles@.len(),
            |i: int| sequenced_title(seqs::texts(base_titles@), i),
        ),
{
    let ghost all = seqs::texts(base_titles@);
    let mut titles = seqs::no_texts();
    let mut i: usize = 0;
    while i < base_titles.len()
        invariant
            i <= base_titles@.len(),
            all == seqs::texts(base_titles@),
            seqs::texts(titles@).len() == i,
            forall|j: int| 0 <= j < i ==> #[trigger] seqs::texts(titles@)[j] == sequenced_title(all, j),
        decreases base_titles@.len() - i,
    {
        let base = &base_titles[i];
        let mut count: u64 = 0;
        let mut j: usize = 0;
        while j <= i
            invariant
                j <= i + 1,
                i < base_titles@.len(),
                i < usize::MAX,
                all == seqs::texts(base_titles@),
                base@ == all[i as int],
                count == occurrences(all, base@, j as int),
                count <= j,
            decreases i + 1 - j,
        {
            if text::same(&base_titles[j], base) {
                count += 1;
            }
            j += 1;
        }
        if count == 1 {
            seqs::push_text(&mut titles, base);
        } else {
            seqs::push_string(
                &mut titles,
                base.clone().concat("-").concat(&text::to_decimal(count as u128)),
            );
        }
        i += 1;
    }
    assert(seqs::texts(titles@) =~= Seq::new(
        base_titles@.len(),
        |i: int| sequenced_title(seqs::texts(base_titles@), i),
    ));
    titles
}

/// Whether `field` is the one with the name, by its title or by its identifier.
pub open spec fn is_named(field: JsonView, name: Seq<char>) -> bool {
    json::text_field(field, "title"@) == Some(name) || json::text_field(field, "id"@) == Some(name)
}

/// The position of the first field at or after `from` with the name.
pub open spec fn named_index(fields: Seq<JsonView>, name: Seq<char>, from: int) -> Option<int>
    decreases fields.len() - from,
{
    if from < 0 || from >= fields.len() {
        None
    } else if is_named(fields[from], name) {
        Some(from)
    } else {
        named_index(fields, name, from + 1)
    }
}

/// The fields with the value for the name: in the first field with that name, or in a new one
/// behind the others.
pub open spec fn with_text_field(fields: Seq<JsonView>, name: Seq<char>, value: Seq<char>) -> Seq<
    JsonView,
> {
    match named_index(fields, name, 0) {
        Some(i) => fields.update(i, fields[i].with("value"@, JsonView::Text(value))),
        None => fields.push(
            JsonView::object().with("id"@, JsonView::Text(name)).with(
                "title"@,
                JsonView::Text(name),
            ).with("fieldType"@, JsonView::Text("Text"@)).with("value"@, JsonView::Text(value)),
        ),
    }
}

/// Whether `field` is the one with the name.
fn is_named_field(field: &Json, name: &str) -> (r: bool)
    ensures
        r == is_named(field@, name@),
{
    let by_title = match field.get_str("title") {
        Some(own) => text::same(own, name),
        None => false,
    };
    let by_id = match field.get_str("id") {
        Some(own) => text::same(own, name),
        None => false,
    };
    by_title || by_id
}

/// Gives a text field of an item of the SDK a value.
pub fn set_sdk_item_text_field(item: &mut Json, field_name: &str, value: &str) -> (r: Result<
    (),
    Failure,
>)
    ensures
        match json::items_field(old(item)@, "fields"@) {
            Some(fields) => r is Ok && final(item)@ == old(item)@.with(
                "fields"@,
                JsonView::Array(with_text_field(fields, field_name@, value@)),
            ),
            None => failure::failed(r, "desktop SDK item fields were malformed"@) && final(item)@
                == old(item)@,
        },
{
    broadcast use json::lemma_json_view;

    let mut fields = match item.get_array("fields") {
        Some(fields) => json::clone_items(fields),
        None => return Err(failure::fail("desktop SDK item fields were malformed")),
    };
    let ghost all = json::jsons(fields@);
    let mut i: usize = 0;
    while i < fields.len() && !is_named_field(&fields[i], field_name)
        invariant
            i <= fields@.len(),
            json::jsons(fields@) == all,
            named_index(all, field_name@, 0) == named_index(all, field_name@, i as int),
        decreases fields@.len() - i,
    {
        assert(all[i as int] == fields@[i as int]@);
        i += 1;
    }
    if i < fields.len() {
        assert(all[i as int] == fields@[i as int]@);
        let stored = fields[i].clone().with("value", Json::text(value));
        let ghost now = stored@;
        fields.set(i, stored);
        assert(json::jsons(fields@) =~= all.update(i as int, now));
    } else {
        let added = Json::object().with("id", Json::text(field_name)).with(
            "title",
            Json::text(field_name),
        ).with("fieldType", Json::text("Text")).with("value", Json::text(value));
        let ghost now = added@;
        fields.push(added);
        assert(json::jsons(fields@) =~= all.push(now));
    }
    let mut whole = Json::Null;
    std::mem::swap(item, &mut whole);
    *item = whole.with("fields", Json::Array(fields));
    Ok(())
}

/// Gives an item of the SDK a title.
pub fn set_sdk_item_title(item: &mut Json, title: &str) -> (r: Result<(), Failure>)
    ensures
        if old(item)@ is Object {
            r is Ok && final(item)@ == old(item)@.with("title"@, JsonView::Text(title@))
        } else {
            failure::failed(r, "desktop SDK item was malformed"@) && final(item)@ == old(item)@
        },
{
    broadcast use json::lemma_json_view;

    let is_object = match &*item {
        Json::Object(_) => true,
        _ => false,
    };
    if !is_object {
        return Err(failure::fail("desktop SDK item was malformed"));
    }
    let mut whole = Json::Null;
    std::mem::swap(item, &mut whole);
    *item = whole.with("title", Json::text(title));
    Ok(())
}

/// What is said of the repositories of an item: that they would be set, or that they were.
pub fn repositories_report(dry_run: bool, title: &str, repositories: &[String]) -> (r: String)
    ensures
        r@ == (if dry_run {
            "Would set github_repositories on "@
        } else {
            "Set github_repositories on "@
        }) + title@ + " to "@ + text::joined(seqs::texts(repositories@), ", "@),
{
    let start = if dry_run {
        "Would set github_repositories on "
    } else {
        "Set github_repositories on "
    };
    start.to_owned().concat(title).concat(" to ").concat(&text::join(repositories, ", "))
}

/// The secret that `op read` printed: its output without white space around it.
pub fn read_secret(stdout: &[u8]) -> (r: Result<String, Failure>)
    ensures
        failure::told_text(r) == (if vstd::utf8::valid_utf8(stdout@) {
            Ok(text::trimmed(vstd::utf8::decode_utf8(stdout@)))
        } else {
            Err(seq![text::utf8_refusal(stdout@)])
        }),
{
    match text::utf8_text(stdout) {
        Ok(s) => Ok(text::trim(s).to_owned()),
        Err(e) => Err(Failure::new(e)),
    }
}

} // verus!
