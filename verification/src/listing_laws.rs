//! What holds of the lists that are read from lines, fields and records: all of them are read, each
//! by itself and in order.

use vstd::prelude::*;
use vstd::string::*;

use crate::env_laws;
use crate::envfile;
use crate::envfile::EntryView;
use crate::json::JsonView;
use crate::op;
use crate::op::FieldView;
use crate::resolver;
use crate::text;
use crate::text_laws;

verus! {

broadcast use crate::seqs::group_seqs;

/// The repositories of remotes are read line by line, and none is left out.
pub proof fn law_remotes_read(a: Seq<Seq<char>>, b: Seq<Seq<char>>)
    ensures
        op::remote_repos(a + b) == op::remote_repos(a) + op::remote_repos(b),
    decreases b.len(),
{
    if b.len() == 0 {
        assert(a + b =~= a);
        assert(op::remote_repos(a) + op::remote_repos(b) =~= op::remote_repos(a));
    } else {
        law_remotes_read(a, b.drop_last());
        assert((a + b).drop_last() =~= a + b.drop_last());
        assert((a + b).last() == b.last());
        assert(op::remote_repos(a + b) =~= op::remote_repos(a) + op::remote_repos(b));
    }
}

/// A line with a key and a URL gives the repository that the URL names, where it names one; what
/// follows the URL is passed over.
pub proof fn law_remote_line(
    before: Seq<char>,
    key: Seq<char>,
    gap: Seq<char>,
    url: Seq<char>,
    rest: Seq<char>,
)
    requires
        text_laws::all_white(before),
        text_laws::all_white(gap),
        gap.len() > 0,
        key.len() > 0,
        text_laws::is_solid(key),
        url.len() > 0,
        text_laws::is_solid(url),
        rest.len() > 0 ==> text::is_white(rest[0]),
    ensures
        op::remote_repos(seq![before + key + (gap + url + rest)]) == (match op::remote_repo(url) {
            Some(name) => seq![name],
            None => Seq::empty(),
        }),
{
    let line = before + key + (gap + url + rest);
    assert((gap + url + rest)[0] == gap[0]);
    text_laws::law_words(before, key, gap + url + rest);
    text_laws::law_words(gap, url, rest);
    let words = text::words(line);
    assert(words =~= seq![key] + (seq![url] + text::words(rest)));
    assert(words.len() >= 2 && words[1] == url);
    reveal_with_fuel(op::remote_repos, 2);
    assert(seq![line].drop_last() =~= Seq::<Seq<char>>::empty());
    if let Some(name) = op::remote_repo(url) {
        assert(Seq::<Seq<char>>::empty().push(name) =~= seq![name]);
    }
}

/// Repositories are read from texts one by one, and none is left out.
pub proof fn law_repositories_read(a: Seq<Seq<char>>, b: Seq<Seq<char>>)
    ensures
        op::repo_specs(a + b) == op::repo_specs(a) + op::repo_specs(b),
    decreases b.len(),
{
    if b.len() == 0 {
        assert(a + b =~= a);
        assert(op::repo_specs(a) + op::repo_specs(b) =~= op::repo_specs(a));
    } else {
        law_repositories_read(a, b.drop_last());
        assert((a + b).drop_last() =~= a + b.drop_last());
        assert((a + b).last() == b.last());
        assert(op::repo_specs(a + b) =~= op::repo_specs(a) + op::repo_specs(b));
    }
}

/// A text gives the repository that it names, where it names one.
pub proof fn law_repository_read(value: Seq<char>)
    ensures
        op::repo_specs(seq![value]) == (match op::repo_spec(value) {
            Some(name) => seq![name],
            None => Seq::empty(),
        }),
{
    reveal_with_fuel(op::repo_specs, 2);
    assert(seq![value].drop_last() =~= Seq::<Seq<char>>::empty());
    if let Some(name) = op::repo_spec(value) {
        assert(Seq::<Seq<char>>::empty().push(name) =~= seq![name]);
    }
}

/// A list in a field is read part by part: commas, line ends and tabs stand between them.
pub proof fn law_listed_repositories_read(a: Seq<char>, c: char, b: Seq<char>)
    requires
        c == ',' || c == '\n' || c == '\r' || c == '\t',
    ensures
        op::listed_repos(a + seq![c] + b) == op::listed_repos(a) + op::listed_repos(b),
        !a.contains(',') && !a.contains('\n') && !a.contains('\r') && !a.contains('\t')
            ==> op::listed_repos(a) == (match op::repo_spec(a) {
            Some(name) => seq![name],
            None => Seq::empty(),
        }),
{
    let set = seq![',', '\n', '\r', '\t'];
    assert(set[0] == ',' && set[1] == '\n' && set[2] == '\r' && set[3] == '\t');
    text::lemma_pieces_apart(a, c, b, set);
    law_repositories_read(text::pieces(a, set), text::pieces(b, set));
    if !a.contains(',') && !a.contains('\n') && !a.contains('\r') && !a.contains('\t') {
        assert forall|i: int| 0 <= i < a.len() implies !set.contains(#[trigger] a[i]) by {
            assert(a.contains(a[i]));
            if set.contains(a[i]) {
                let k = choose|k: int| 0 <= k < set.len() && set[k] == a[i];
            }
        }
        text_laws::law_pieces(a, a, c, b, set);
        law_repository_read(a);
    }
}

/// The repositories of an item are read from its fields one by one, and none is left out.
pub proof fn law_field_repositories_read(a: Seq<FieldView>, b: Seq<FieldView>)
    ensures
        op::field_repos(a + b) == op::field_repos(a) + op::field_repos(b),
    decreases b.len(),
{
    if b.len() == 0 {
        assert(a + b =~= a);
        assert(op::field_repos(a) + op::field_repos(b) =~= op::field_repos(a));
    } else {
        law_field_repositories_read(a, b.drop_last());
        assert((a + b).drop_last() =~= a + b.drop_last());
        assert((a + b).last() == b.last());
        assert(op::field_repos(a + b) =~= op::field_repos(a) + op::field_repos(b));
    }
}

/// A field gives the repositories that its text lists, where its label is `github_repositories`
/// up to ASCII case, and any other field none.
pub proof fn law_field_repositories(field: FieldView)
    ensures
        op::field_repos(seq![field]) == (match (field.label, field.value) {
            (Some(label), Some(JsonView::Text(value))) => if text::lowered(label)
                == "github_repositories"@ {
                op::listed_repos(value)
            } else {
                Seq::empty()
            },
            _ => Seq::empty(),
        }),
{
    reveal_strlit("github_repositories");
    reveal_with_fuel(op::field_repos, 2);
    assert(seq![field].drop_last() =~= Seq::<FieldView>::empty());
    assert(text::lowered("github_repositories"@) =~= "github_repositories"@);
    let none = Seq::<Seq<char>>::empty();
    if field.label is Some && op::field_text(field) is Some {
        let own = op::listed_repos(op::field_text(field)->0);
        assert(none + own =~= own);
    }
}

/// Whether a label is the name of a variable and does not describe the item.
pub open spec fn is_variable_label(label: Seq<char>) -> bool {
    &&& env_laws::is_variable_name(label)
    &&& text::lowered(label) != "github_repositories"@
    &&& !(label.len() >= 10 && text::uppered(label.subrange(0, 10)) == "OPZ_PLUGIN"@)
}

/// The variables of an item are read from its fields one by one, and none is left out.
pub proof fn law_variables_read(a: Seq<FieldView>, b: Seq<FieldView>, with_value: bool)
    ensures
        op::variable_labels(a + b, with_value)
            == op::variable_labels(a, with_value) + op::variable_labels(b, with_value),
    decreases b.len(),
{
    if b.len() == 0 {
        assert(a + b =~= a);
        assert(op::variable_labels(a, with_value) + op::variable_labels(b, with_value)
            =~= op::variable_labels(a, with_value));
    } else {
        law_variables_read(a, b.drop_last(), with_value);
        assert((a + b).drop_last() =~= a + b.drop_last());
        assert((a + b).last() == b.last());
        assert(op::variable_labels(a + b, with_value)
            =~= op::variable_labels(a, with_value) + op::variable_labels(b, with_value));
    }
}

/// A field gives a variable exactly where its label names one, and it has a value where that is
/// asked for.
pub proof fn law_variable_of_field(field: FieldView, with_value: bool)
    ensures
        op::variable_labels(seq![field], with_value) == (match field.label {
            Some(label) => if is_variable_label(label) && (field.value is Some || !with_value) {
                seq![label]
            } else {
                Seq::empty()
            },
            None => Seq::empty(),
        }),
{
    reveal_strlit("github_repositories");
    reveal_strlit("OPZ_PLUGIN");
    reveal_with_fuel(op::variable_labels, 2);
    assert(seq![field].drop_last() =~= Seq::<FieldView>::empty());
    assert(text::lowered("github_repositories"@) =~= "github_repositories"@);
    if let Some(label) = field.label {
        assert(Seq::<Seq<char>>::empty().push(label) =~= seq![label]);
        assert(crate::pattern::is_name(label) == env_laws::is_variable_name(label)) by {
            if crate::pattern::is_name(label) {
                assert forall|i: int| 0 <= i < label.len() implies 'a' <= #[trigger] label[i] <= 'z'
                    || 'A' <= label[i] <= 'Z' || '0' <= label[i] <= '9' || label[i] == '_' by {
                    assert(crate::pattern::is_name_char(label[i]));
                }
            }
            if env_laws::is_variable_name(label) {
                assert forall|i: int| 0 <= i < label.len() implies crate::pattern::is_name_char(
                    #[trigger] label[i],
                ) by {
                    assert('a' <= label[i] <= 'z' || 'A' <= label[i] <= 'Z' || '0' <= label[i]
                        <= '9' || label[i] == '_');
                }
            }
        }
        if label.len() >= 10 {
            assert(text::uppered(label).subrange(0, 10) =~= text::uppered(label.subrange(0, 10)));
        }
    }
}

/// The lines of an item set each of its variables to the reference to its field, in order.
pub proof fn law_env_lines(item: op::ItemView, vault: Seq<char>, id: Seq<char>, i: int)
    requires
        0 <= i < op::variable_labels(item.fields, true).len(),
    ensures
        op::env_lines(item, vault, id).len() == op::variable_labels(item.fields, true).len(),
        op::env_lines(item, vault, id)[i] == op::variable_labels(item.fields, true)[i] + "=op://"@
            + vault + "/"@ + id + "/"@ + op::variable_labels(item.fields, true)[i],
{
}

/// What variables are to be set to is read line by line, and no line is left out.
pub proof fn law_references_read(a: Seq<Seq<char>>, b: Seq<Seq<char>>)
    ensures
        resolver::references(a + b) == resolver::references(a) + resolver::references(b),
    decreases b.len(),
{
    if b.len() == 0 {
        assert(a + b =~= a);
        assert(resolver::references(a) + resolver::references(b) =~= resolver::references(a));
    } else {
        law_references_read(a, b.drop_last());
        assert((a + b).drop_last() =~= a + b.drop_last());
        assert((a + b).last() == b.last());
        assert(resolver::references(a + b) =~= resolver::references(a) + resolver::references(b));
    }
}

/// A line with a key, an equals sign and a value says what the key is to be set to; a blank line,
/// a comment, and a line without an equals sign say nothing.
pub proof fn law_reference_of_line(
    before: Seq<char>,
    key: Seq<char>,
    value: Seq<char>,
    behind: Seq<char>,
)
    requires
        text_laws::all_white(before),
        text_laws::all_white(behind),
        key.len() > 0,
        !key.contains('='),
        !text::is_white(key[0]),
        value.len() > 0 ==> !text::is_white(value.last()),
    ensures
        resolver::references(seq![before + (key + seq!['='] + value) + behind]) == (if key[0]
            == '#' {
            Seq::empty()
        } else {
            seq![(key, value)]
        }),
        envfile::env_pair(before + key + behind) is None || text::is_white(key.last()),
        envfile::env_pair(before) is None,
{
    reveal_strlit("#");
    reveal_strlit("=");
    assert("="@ =~= seq!['=']);
    let own = key + seq!['='] + value;
    let line = before + own + behind;
    assert(own[0] == key[0]);
    if value.len() > 0 {
        assert(own.last() == value.last());
    } else {
        assert(own.last() == '=');
    }
    text_laws::law_trimmed(before, own, behind);
    text_laws::law_parted_by(key, "="@, value);
    assert(own.subrange(0, 1) =~= seq![own[0]]);
    assert("#"@ =~= seq!['#']);
    if text::begins(own, "#"@) {
        assert(own.subrange(0, 1)[0] == own[0]);
    }
    reveal_with_fuel(resolver::references, 2);
    assert(seq![line].drop_last() =~= Seq::<Seq<char>>::empty());
    assert(Seq::<(Seq<char>, Seq<char>)>::empty().push((key, value)) =~= seq![(key, value)]);
    if !text::is_white(key.last()) {
        text_laws::law_trimmed(before, key, behind);
        assert forall|j: int| 0 <= j && j + "="@.len() <= key.len() implies #[trigger] key.subrange(
            j,
            j + "="@.len(),
        ) != "="@ by {
            assert(key.subrange(j, j + 1)[0] == key[j]);
            assert(key.contains(key[j]));
        }
        text_laws::law_not_parted(key, "="@);
    }
    let none = Seq::<char>::empty();
    assert(before =~= before + none + none);
    text_laws::law_trimmed(before, none, none);
}

/// Candidates are taken one by one, and none is left out.
pub proof fn law_candidates_taken(
    a: Seq<(Seq<char>, Seq<Seq<char>>)>,
    b: Seq<(Seq<char>, Seq<Seq<char>>)>,
    wanted: Seq<Seq<char>>,
)
    ensures
        resolver::matching_titles(a + b, wanted)
            == resolver::matching_titles(a, wanted) + resolver::matching_titles(b, wanted),
    decreases b.len(),
{
    if b.len() == 0 {
        assert(a + b =~= a);
        assert(resolver::matching_titles(a, wanted) + resolver::matching_titles(b, wanted)
            =~= resolver::matching_titles(a, wanted));
    } else {
        law_candidates_taken(a, b.drop_last(), wanted);
        assert((a + b).drop_last() =~= a + b.drop_last());
        assert((a + b).last() == b.last());
        assert(resolver::matching_titles(a + b, wanted)
            =~= resolver::matching_titles(a, wanted) + resolver::matching_titles(b, wanted));
    }
}

/// A candidate is taken exactly where one of its repositories and one of the wanted ones name the
/// same repository.
pub proof fn law_candidate_taken(
    title: Seq<char>,
    own: Seq<Seq<char>>,
    wanted: Seq<Seq<char>>,
)
    ensures
        resolver::matching_titles(seq![(title, own)], wanted) == (if exists|x: Seq<char>|
            op::repo_specs(own).contains(x) && #[trigger] op::repo_specs(wanted).contains(x) {
            seq![title]
        } else {
            Seq::empty()
        }),
{
    reveal_with_fuel(resolver::matching_titles, 2);
    let one = seq![(title, own)];
    assert(one.drop_last() =~= Seq::<(Seq<char>, Seq<Seq<char>>)>::empty());
    assert(Seq::<Seq<char>>::empty().push(title) =~= seq![title]);
    let a = op::repo_specs(own);
    let b = op::repo_specs(wanted);
    if exists|x: Seq<char>| a.contains(x) && #[trigger] b.contains(x) {
        let x = choose|x: Seq<char>| a.contains(x) && #[trigger] b.contains(x);
        let i = choose|i: int| 0 <= i < a.len() && a[i] == x;
        assert(b.contains(a[i]));
    }
    if resolver::shares_repository(own, wanted) {
        let i = choose|i: int| 0 <= i < a.len() && b.contains(#[trigger] a[i]);
        assert(a.contains(a[i]));
    }
}

/// The lines of sections follow one another, and none is left out.
pub proof fn law_all_lines(a: Seq<(Seq<char>, Seq<Seq<char>>)>, b: Seq<(Seq<char>, Seq<Seq<char>>)>)
    ensures
        resolver::all_lines(a + b) == resolver::all_lines(a) + resolver::all_lines(b),
    decreases b.len(),
{
    if b.len() == 0 {
        assert(a + b =~= a);
        assert(resolver::all_lines(a) + resolver::all_lines(b) =~= resolver::all_lines(a));
    } else {
        law_all_lines(a, b.drop_last());
        assert((a + b).drop_last() =~= a + b.drop_last());
        assert((a + b).last() == b.last());
        assert(resolver::all_lines(a + b) =~= resolver::all_lines(a) + resolver::all_lines(b));
    }
}

/// Sections without their titles are written one after the other.
pub proof fn law_unsectioned(
    a: Seq<(Seq<char>, Seq<Seq<char>>)>,
    b: Seq<(Seq<char>, Seq<Seq<char>>)>,
)
    ensures
        resolver::unsectioned(a + b) == resolver::unsectioned(a) + resolver::unsectioned(b),
    decreases b.len(),
{
    if b.len() == 0 {
        assert(a + b =~= a);
        assert(resolver::unsectioned(a) + resolver::unsectioned(b) =~= resolver::unsectioned(a));
    } else {
        law_unsectioned(a, b.drop_last());
        assert((a + b).drop_last() =~= a + b.drop_last());
        assert((a + b).last() == b.last());
        assert(resolver::unsectioned(a + b)
            =~= resolver::unsectioned(a) + resolver::unsectioned(b));
    }
}

/// Sections are written one after the other, with a blank line between them, each under the title
/// of its item and with a line feed behind each of its lines.
pub proof fn law_sectioned(
    a: Seq<(Seq<char>, Seq<Seq<char>>)>,
    b: Seq<(Seq<char>, Seq<Seq<char>>)>,
    title: Seq<char>,
    lines: Seq<Seq<char>>,
)
    ensures
        a.len() > 0 && b.len() > 0 ==> resolver::sectioned(a + b) == resolver::sectioned(a) + "\n"@
            + resolver::sectioned(b),
        resolver::sectioned(seq![(title, lines)]) == "# --- item: "@ + title + " ---\n"@
            + text::lined(lines),
        resolver::unsectioned(seq![(title, lines)]) == text::lined(lines),
        resolver::all_lines(seq![(title, lines)]) == lines,
    decreases b.len(),
{
    reveal_strlit("");
    reveal_with_fuel(resolver::sectioned, 2);
    reveal_with_fuel(resolver::unsectioned, 2);
    reveal_with_fuel(resolver::all_lines, 2);
    let one = seq![(title, lines)];
    assert(one.drop_last() =~= Seq::<(Seq<char>, Seq<Seq<char>>)>::empty());
    assert(""@ =~= Seq::<char>::empty());
    assert(resolver::sectioned(one) =~= "# --- item: "@ + title + " ---\n"@ + text::lined(lines));
    assert(resolver::unsectioned(one) =~= text::lined(lines));
    assert(resolver::all_lines(one) =~= lines);
    if a.len() > 0 && b.len() > 0 {
        let front = b.drop_last();
        let all = a + b;
        assert(all.drop_last() =~= a + front);
        assert(all.last() == b.last());
        let tail = "# --- item: "@ + b.last().0 + " ---\n"@ + text::lined(b.last().1);
        if front.len() == 0 {
            assert(a + front =~= a);
            assert(resolver::sectioned(b) =~= tail);
            assert(resolver::sectioned(all) =~= resolver::sectioned(a) + "\n"@ + tail);
        } else {
            law_sectioned(a, front, title, lines);
            assert(resolver::sectioned(b) =~= resolver::sectioned(front) + "\n"@ + tail);
            assert(resolver::sectioned(all) =~= resolver::sectioned(a + front) + "\n"@ + tail);
            assert(resolver::sectioned(all) =~= resolver::sectioned(a) + "\n"@
                + resolver::sectioned(b));
        }
    }
}

/// What is said of the lines of an environment file is said line by line.
pub proof fn law_notices_read(a: Seq<Seq<char>>, b: Seq<Seq<char>>)
    ensures
        envfile::env_notices(a + b) == envfile::env_notices(a) + envfile::env_notices(b),
    decreases b.len(),
{
    if b.len() == 0 {
        assert(a + b =~= a);
        assert(envfile::env_notices(a) + envfile::env_notices(b) =~= envfile::env_notices(a));
    } else {
        law_notices_read(a, b.drop_last());
        assert((a + b).drop_last() =~= a + b.drop_last());
        assert((a + b).last() == b.last());
        assert(envfile::env_notices(a + b) =~= envfile::env_notices(a) + envfile::env_notices(b));
    }
}

/// A line with an invalid key, and one that refers to a secret, is spoken of; no other line is.
pub proof fn law_notice_of_line(line: Seq<char>)
    ensures
        envfile::env_notices(seq![line]) == (match envfile::env_entry(line) {
            EntryView::InvalidKey(key) => seq!["Skipped invalid key in env file: "@ + key],
            EntryView::Reference(key) => seq![
                "Skipped already imported op:// value for key: "@ + key,
            ],
            _ => Seq::empty(),
        }),
{
    reveal_with_fuel(envfile::env_notices, 2);
    assert(seq![line].drop_last() =~= Seq::<Seq<char>>::empty());
    match envfile::env_entry(line) {
        EntryView::InvalidKey(key) => {
            assert(envfile::env_notices(seq![line]) =~= seq![
                "Skipped invalid key in env file: "@ + key,
            ]);
        },
        EntryView::Reference(key) => {
            assert(envfile::env_notices(seq![line]) =~= seq![
                "Skipped already imported op:// value for key: "@ + key,
            ]);
        },
        _ => {},
    }
}

/// The values of variables that were resolved in order: each variable has the value that stands
/// where the variable does, and of several the last.
pub proof fn law_values_in_order(
    refs: Seq<(Seq<char>, Seq<char>)>,
    values: Seq<Seq<char>>,
    n: int,
    i: int,
)
    requires
        0 <= i < n <= refs.len(),
        forall|k: int| i < k < n ==> (#[trigger] refs[k]).0 != refs[i].0,
    ensures
        crate::map::lookup(resolver::zipped(refs, values, n), refs[i].0) == Some(values[i]),
    decreases n,
{
    lemma_zipped_ordered(refs, values, n - 1);
    let before = resolver::zipped(refs, values, n - 1);
    crate::map::lemma_inserted_lookup(before, refs[n - 1].0, values[n - 1], refs[i].0);
    if i < n - 1 {
        assert(refs[n - 1].0 != refs[i].0);
        law_values_in_order(refs, values, n - 1, i);
    }
}

/// Values are kept in the order of their keys.
proof fn lemma_zipped_ordered(refs: Seq<(Seq<char>, Seq<char>)>, values: Seq<Seq<char>>, n: int)
    ensures
        crate::map::ordered(resolver::zipped(refs, values, n)),
    decreases n,
{
    if n > 0 {
        lemma_zipped_ordered(refs, values, n - 1);
        crate::map::lemma_inserted_ordered(
            resolver::zipped(refs, values, n - 1),
            refs[n - 1].0,
            values[n - 1],
        );
    }
}

/// Values of a batch are kept in the order of their keys.
proof fn lemma_batch_ordered(records: Seq<Seq<u8>>, refs: Seq<(Seq<char>, Seq<char>)>)
    ensures
        crate::map::ordered(resolver::batch_values(records, refs)),
    decreases records.len(),
{
    if records.len() > 0 {
        lemma_batch_ordered(records.drop_last(), refs);
        if let Some((key, value)) = text::parted(text::lossy(records.last()), "="@) {
            crate::map::lemma_inserted_ordered(
                resolver::batch_values(records.drop_last(), refs),
                key,
                value,
            );
        }
    }
}

/// Whether a record of an environment gives `key` a value.
pub open spec fn gives(record: Seq<u8>, key: Seq<char>) -> bool {
    record.len() > 0 && (text::parted(text::lossy(record), "="@) matches Some((own, _)) && own
        == key)
}

/// A variable that was asked for gets the value that the last record with its name gives it, and
/// any other none.
pub proof fn law_value_of_record(
    records: Seq<Seq<u8>>,
    refs: Seq<(Seq<char>, Seq<char>)>,
    i: int,
    key: Seq<char>,
)
    requires
        0 <= i < records.len(),
        gives(records[i], key),
        forall|k: int| i < k < records.len() ==> !gives(#[trigger] records[k], key),
    ensures
        crate::map::lookup(resolver::batch_values(records, refs), key) == (if exists|j: int|
            0 <= j < refs.len() && (#[trigger] refs[j]).0 == key {
            Some((text::parted(text::lossy(records[i]), "="@)->0).1)
        } else {
            None
        }),
    decreases records.len(),
{
    let n = records.len() as int;
    let front = records.drop_last();
    let before = resolver::batch_values(front, refs);
    lemma_batch_ordered(front, refs);
    assert(records.last() == records[n - 1]);
    if let Some((own, value)) = text::parted(text::lossy(records[n - 1]), "="@) {
        crate::map::lemma_inserted_lookup(before, own, value, key);
    }
    if i < n - 1 {
        assert(!gives(records[n - 1], key));
        assert(front[i] == records[i]);
        assert forall|k: int| i < k < front.len() implies !gives(#[trigger] front[k], key) by {
            assert(front[k] == records[k]);
        }
        law_value_of_record(front, refs, i, key);
    } else if !resolver::is_wanted(refs, key) {
        law_unasked(front, refs, key);
    }
}

/// A variable that was not asked for, or that no record gives a value, has none.
pub proof fn law_unasked(
    records: Seq<Seq<u8>>,
    refs: Seq<(Seq<char>, Seq<char>)>,
    key: Seq<char>,
)
    requires
        !(exists|j: int| 0 <= j < refs.len() && (#[trigger] refs[j]).0 == key) || forall|k: int|
            0 <= k < records.len() ==> !gives(#[trigger] records[k], key),
    ensures
        crate::map::lookup(resolver::batch_values(records, refs), key) is None,
    decreases records.len(),
{
    if records.len() > 0 {
        let n = records.len() as int;
        let front = records.drop_last();
        let before = resolver::batch_values(front, refs);
        lemma_batch_ordered(front, refs);
        assert(records.last() == records[n - 1]);
        if let Some((own, value)) = text::parted(text::lossy(records[n - 1]), "="@) {
            crate::map::lemma_inserted_lookup(before, own, value, key);
        }
        if resolver::is_wanted(refs, key) {
            assert(!gives(records[n - 1], key));
            assert forall|k: int| 0 <= k < front.len() implies !gives(#[trigger] front[k], key) by {
                assert(front[k] == records[k]);
            }
        }
        law_unasked(front, refs, key);
    }
}

/// What a map holds under a key is the value of the entry with that key.
pub proof fn law_lookup(s: Seq<(Seq<char>, Seq<char>)>, i: int, key: Seq<char>)
    requires
        crate::map::ordered(s),
    ensures
        0 <= i < s.len() ==> crate::map::lookup(s, s[i].0) == Some(s[i].1),
        (forall|k: int| 0 <= k < s.len() ==> (#[trigger] s[k]).0 != key) ==> crate::map::lookup(
            s,
            key,
        ) is None,
{
    if 0 <= i < s.len() {
        crate::map::lemma_key_index(s, i);
    }
}

} // verus!
