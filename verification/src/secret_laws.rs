//! What holds of the names and values of secrets that go elsewhere, and of variables with a
//! namespace.

use vstd::prelude::*;
use vstd::string::*;

use crate::env_laws;
use crate::envfile;
use crate::json;
use crate::json::JsonView;
use crate::namespace;
use crate::resolver::RepositoriesView;
use crate::seqs;
use crate::targets;
use crate::text;
use crate::text_laws;

verus! {

broadcast use crate::seqs::group_seqs;

/// The keys of lines are read line by line, and none is left out.
pub proof fn law_keys_read(a: Seq<Seq<char>>, b: Seq<Seq<char>>)
    ensures
        targets::line_keys(a + b) == targets::line_keys(a) + targets::line_keys(b),
    decreases b.len(),
{
    if b.len() == 0 {
        assert(a + b =~= a);
        assert(targets::line_keys(a) + targets::line_keys(b) =~= targets::line_keys(a));
    } else {
        law_keys_read(a, b.drop_last());
        assert((a + b).drop_last() =~= a + b.drop_last());
        assert((a + b).last() == b.last());
        assert(targets::line_keys(a + b) =~= targets::line_keys(a) + targets::line_keys(b));
    }
}

/// A line with a key and an equals sign has that key; a comment and a blank line have none.
pub proof fn law_key_of_line(
    before: Seq<char>,
    key: Seq<char>,
    value: Seq<char>,
    behind: Seq<char>,
)
    requires
        text_laws::all_white(before),
        text_laws::all_white(behind),
        key.len() > 0,
        !key.contains('='),
        !text::is_white(key[0]),
        value.len() > 0 ==> !text::is_white(value.last()),
    ensures
        targets::line_keys(seq![before + (key + seq!['='] + value) + behind]) == (if key[0] == '#' {
            Seq::empty()
        } else {
            seq![key]
        }),
        targets::line_keys(seq![before]) == Seq::<Seq<char>>::empty(),
{
    reveal_strlit("#");
    reveal_strlit("=");
    assert("="@ =~= seq!['=']);
    let own = key + seq!['='] + value;
    let line = before + own + behind;
    assert(own[0] == key[0]);
    if value.len() > 0 {
        assert(own.last() == value.last());
    } else {
        assert(own.last() == '=');
    }
    text_laws::law_trimmed(before, own, behind);
    text_laws::law_parted_by(key, "="@, value);
    assert(own.subrange(0, 1) =~= seq![own[0]]);
    assert("#"@ =~= seq!['#']);
    if text::begins(own, "#"@) {
        assert(own.subrange(0, 1)[0] == own[0]);
    }
    reveal_with_fuel(targets::line_keys, 2);
    assert(seq![line].drop_last() =~= Seq::<Seq<char>>::empty());
    assert(seq![before].drop_last() =~= Seq::<Seq<char>>::empty());
    assert(Seq::<Seq<char>>::empty().push(key) =~= seq![key]);
    let none = Seq::<char>::empty();
    assert(before =~= before + none + none);
    text_laws::law_trimmed(before, none, none);
}

/// A name is well formed exactly where it is one of ASCII letters, digits and underscores, with no
/// digit first.
proof fn lemma_name(name: Seq<char>)
    ensures
        crate::pattern::is_name(name) == env_laws::is_variable_name(name),
{
    if crate::pattern::is_name(name) {
        assert forall|i: int| 0 <= i < name.len() implies 'a' <= #[trigger] name[i] <= 'z' || 'A'
            <= name[i] <= 'Z' || '0' <= name[i] <= '9' || name[i] == '_' by {
            assert(crate::pattern::is_name_char(name[i]));
        }
    }
    if env_laws::is_variable_name(name) {
        assert forall|i: int| 0 <= i < name.len() implies crate::pattern::is_name_char(
            #[trigger] name[i],
        ) by {
            assert('a' <= name[i] <= 'z' || 'A' <= name[i] <= 'Z' || '0' <= name[i] <= '9'
                || name[i] == '_');
        }
    }
}

/// The secrets of lines are their keys, all of them, exactly where every key is the name of a
/// variable.
pub proof fn law_secret_names(lines: Seq<Seq<char>>, target: Seq<char>)
    ensures
        targets::secret_names(lines, target) is Ok <==> forall|i: int|
            0 <= i < targets::line_keys(lines).len() ==> env_laws::is_variable_name(
                #[trigger] targets::line_keys(lines)[i],
            ),
        targets::secret_names(lines, target) is Ok ==> targets::secret_names(lines, target)->Ok_0
            == targets::line_keys(lines),
{
    let names = targets::line_keys(lines);
    let f = targets::target_name_check(target);
    seqs::law_each(names, f);
    assert forall|i: int| 0 <= i < names.len() implies (f(#[trigger] names[i]) is Ok
        <==> env_laws::is_variable_name(names[i])) by {
        lemma_name(names[i]);
    }
    if forall|i: int| 0 <= i < names.len() ==> env_laws::is_variable_name(#[trigger] names[i]) {
        assert forall|i: int| 0 <= i < names.len() implies f(#[trigger] names[i]) is Ok by {}
    }
    if targets::secret_names(lines, target) is Ok {
        assert forall|i: int| 0 <= i < names.len() implies env_laws::is_variable_name(
            #[trigger] names[i],
        ) by {
            assert(f(names[i]) is Ok);
        }
    }
}

/// The secrets of lines for GitHub are their keys, all of them, exactly where every key is the name
/// of a variable and none begins with `GITHUB_` in any case.
pub proof fn law_github_names(lines: Seq<Seq<char>>)
    ensures
        targets::github_names(lines) is Ok <==> forall|i: int|
            0 <= i < targets::line_keys(lines).len() ==> env_laws::is_variable_name(
                #[trigger] targets::line_keys(lines)[i],
            ) && !(targets::line_keys(lines)[i].len() >= 7 && text::uppered(
                targets::line_keys(lines)[i].subrange(0, 7),
            ) == "GITHUB_"@),
        targets::github_names(lines) is Ok ==> targets::github_names(lines)->Ok_0
            == targets::line_keys(lines),
{
    reveal_strlit("GITHUB_");
    let names = targets::line_keys(lines);
    law_secret_names(lines, "GitHub"@);
    let f = targets::reserved_check();
    seqs::law_each(names, f);
    assert forall|i: int| 0 <= i < names.len() implies (f(#[trigger] names[i]) is Ok <==> !(
    names[i].len() >= 7 && text::uppered(names[i].subrange(0, 7)) == "GITHUB_"@)) by {
        if names[i].len() >= 7 {
            assert(text::uppered(names[i]).subrange(0, 7) =~= text::uppered(
                names[i].subrange(0, 7),
            ));
        }
    }
    if targets::github_names(lines) is Ok {
        assert forall|i: int| 0 <= i < names.len() implies !(names[i].len() >= 7 && text::uppered(
            (#[trigger] names[i]).subrange(0, 7),
        ) == "GITHUB_"@) by {
            assert(f(names[i]) is Ok);
        }
    }
}

/// Items without repositories are found one by one, and none is left out.
pub proof fn law_unassigned_read(a: Seq<RepositoriesView>, b: Seq<RepositoriesView>)
    ensures
        targets::unassigned(a + b) == targets::unassigned(a) + targets::unassigned(b),
    decreases b.len(),
{
    if b.len() == 0 {
        assert(a + b =~= a);
        assert(targets::unassigned(a) + targets::unassigned(b) =~= targets::unassigned(a));
    } else {
        law_unassigned_read(a, b.drop_last());
        assert((a + b).drop_last() =~= a + b.drop_last());
        assert((a + b).last() == b.last());
        assert(targets::unassigned(a + b) =~= targets::unassigned(a) + targets::unassigned(b));
    }
}

/// An item is among those without repositories exactly where it names none.
pub proof fn law_unassigned(item: RepositoriesView)
    ensures
        targets::unassigned(seq![item]) == (if item.repositories.len() == 0 {
            seq![item.item_title]
        } else {
            Seq::empty()
        }),
{
    reveal_with_fuel(targets::unassigned, 2);
    assert(seq![item].drop_last() =~= Seq::<RepositoriesView>::empty());
    assert(Seq::<Seq<char>>::empty().push(item.item_title) =~= seq![item.item_title]);
}

/// An object of secrets holds the value of every name, and is made exactly where every name has a
/// value.
pub proof fn law_payload(
    names: Seq<Seq<char>>,
    n: int,
    values: Seq<(Seq<char>, Seq<char>)>,
    key: Seq<char>,
)
    requires
        0 <= n <= names.len(),
    ensures
        targets::payload(names, n, values) is Ok <==> forall|i: int|
            0 <= i < n ==> crate::map::lookup(values, #[trigger] names[i]) is Some,
        targets::payload(names, n, values) matches Ok(j) ==> j is Object && json::well_ordered(j)
            && json::field(j, key) == (if exists|i: int|
            0 <= i < n && #[trigger] names[i] == key {
            Some(JsonView::Text(crate::map::lookup(values, key)->0))
        } else {
            None
        }),
    decreases n,
{
    if n <= 0 {
        json::lemma_object_ordered();
    } else {
        law_payload(names, n - 1, values, key);
        if let Ok(before) = targets::payload(names, n - 1, values) {
            if let Some(value) = crate::map::lookup(values, names[n - 1]) {
                json::lemma_with(before, names[n - 1], JsonView::Text(value), key);
                if names[n - 1] != key {
                    if exists|i: int| 0 <= i < n && #[trigger] names[i] == key {
                        let i = choose|i: int| 0 <= i < n && #[trigger] names[i] == key;
                        assert(i < n - 1);
                    }
                }
            }
        }
    }
}

/// The namespace of a word is the word in upper case.
pub proof fn law_namespace_of_word(word: Seq<char>)
    requires
        is_word(word),
    ensures
        namespace::folded(word) == (text::uppered(word), false),
        namespace::title_namespace(word) == Ok::<Seq<char>, Seq<Seq<char>>>(text::uppered(word)),
    decreases word.len(),
{
    let front = word.drop_last();
    let last = word[word.len() - 1];
    assert('a' <= last <= 'z' || 'A' <= last <= 'Z' || '0' <= last <= '9');
    if front.len() > 0 {
        assert forall|i: int| 0 <= i < front.len() implies 'a' <= #[trigger] front[i] <= 'z' || 'A'
            <= front[i] <= 'Z' || '0' <= front[i] <= '9' by {
            assert(front[i] == word[i]);
        }
        law_namespace_of_word(front);
    } else {
        assert(front =~= Seq::<char>::empty());
        assert(namespace::folded(front).0 =~= text::uppered(front));
    }
    let name = text::uppered(word);
    assert(text::uppered(front).push(text::upper(last)) =~= name);
    assert(namespace::folded(word).0 =~= name);
    assert('a' <= word[0] <= 'z' || 'A' <= word[0] <= 'Z' || '0' <= word[0] <= '9');
    lemma_not_stripped(name);
}

/// Whether `word` is made of ASCII letters and digits.
pub open spec fn is_word(word: Seq<char>) -> bool {
    word.len() > 0 && forall|i: int|
        0 <= i < word.len() ==> 'a' <= #[trigger] word[i] <= 'z' || 'A' <= word[i] <= 'Z' || '0'
            <= word[i] <= '9'
}

/// What neither begins nor ends with an underscore is not stripped of any.
proof fn lemma_not_stripped(name: Seq<char>)
    requires
        name.len() > 0,
        name[0] != '_',
        name.last() != '_',
    ensures
        text::stripped_of(name, '_') == name,
{
    let set = seq!['_'];
    assert(set[0] == '_');
    if set.contains(name.last()) {
        assert(set[0] == name.last());
    }
}

/// Whether no character of `s` can stand in a variable.
pub open spec fn is_apart(s: Seq<char>) -> bool {
    s.len() > 0 && forall|i: int|
        0 <= i < s.len() ==> !('a' <= #[trigger] s[i] <= 'z' || 'A' <= s[i] <= 'Z' || '0' <= s[i]
            <= '9' || s[i] == '_')
}

/// A run of other characters behind a title gives one underscore.
proof fn lemma_folded_run(title: Seq<char>, run: Seq<char>)
    requires
        !namespace::folded(title).1,
        is_apart(run),
    ensures
        namespace::folded(title + run) == (namespace::folded(title).0.push('_'), true),
    decreases run.len(),
{
    let all = title + run;
    let less = run.drop_last();
    let last = run[run.len() - 1];
    assert(!('a' <= last <= 'z' || 'A' <= last <= 'Z' || '0' <= last <= '9' || last == '_'));
    assert(all.drop_last() =~= title + less);
    assert(all.last() == last);
    if less.len() > 0 {
        assert forall|i: int| 0 <= i < less.len() implies !('a' <= #[trigger] less[i] <= 'z' || 'A'
            <= less[i] <= 'Z' || '0' <= less[i] <= '9' || less[i] == '_') by {
            assert(less[i] == run[i]);
        }
        lemma_folded_run(title, less);
    } else {
        assert(title + less =~= title);
    }
}

/// A word behind a title is put in upper case.
proof fn lemma_folded_word(title: Seq<char>, word: Seq<char>)
    requires
        is_word(word),
    ensures
        namespace::folded(title + word) == (namespace::folded(title).0 + text::uppered(word), false),
    decreases word.len(),
{
    let all = title + word;
    let less = word.drop_last();
    let last = word[word.len() - 1];
    assert('a' <= last <= 'z' || 'A' <= last <= 'Z' || '0' <= last <= '9');
    assert(all.drop_last() =~= title + less);
    assert(all.last() == last);
    let start = namespace::folded(title).0;
    if less.len() > 0 {
        assert forall|i: int| 0 <= i < less.len() implies 'a' <= #[trigger] less[i] <= 'z' || 'A'
            <= less[i] <= 'Z' || '0' <= less[i] <= '9' by {
            assert(less[i] == word[i]);
        }
        lemma_folded_word(title, less);
        assert((start + text::uppered(less)).push(text::upper(last)) =~= start + text::uppered(
            word,
        ));
    } else {
        assert(title + less =~= title);
        assert(start.push(text::upper(last)) =~= start + text::uppered(word));
    }
}

/// A run of other characters and a word behind a title put an underscore and the word in upper case
/// behind its namespace.
pub proof fn law_namespace_goes_on(title: Seq<char>, run: Seq<char>, word: Seq<char>)
    requires
        namespace::folded(title).0.len() > 0,
        namespace::folded(title).0[0] != '_',
        namespace::folded(title).0.last() != '_',
        !namespace::folded(title).1,
        is_apart(run),
        is_word(word),
    ensures
        namespace::title_namespace(title) == Ok::<Seq<char>, Seq<Seq<char>>>(
            namespace::folded(title).0,
        ),
        namespace::title_namespace(title + run + word) == Ok::<Seq<char>, Seq<Seq<char>>>(
            namespace::folded(title).0 + seq!['_'] + text::uppered(word),
        ),
        namespace::folded(title + run + word) == (namespace::folded(title).0 + seq!['_']
            + text::uppered(word), false),
{
    let start = namespace::folded(title).0;
    lemma_not_stripped(start);
    lemma_folded_run(title, run);
    lemma_folded_word(title + run, word);
    let name = start.push('_') + text::uppered(word);
    assert(name =~= start + seq!['_'] + text::uppered(word));
    assert(name[0] == start[0]);
    assert(name.last() == text::upper(word[word.len() - 1]));
    lemma_not_stripped(name);
}

/// Whether a line, or a label, is another one under a namespace: the namespace and two underscores
/// stand before it, and its reference is as it was.
pub open spec fn is_named_line(
    own: Seq<char>,
    named: Seq<char>,
    name: Seq<char>,
    with_values: bool,
) -> bool {
    if with_values {
        envfile::env_pair(own) matches Some((label, reference)) && named == name + "__"@ + label
            + "="@ + reference
    } else {
        named == name + "__"@ + own
    }
}

/// The lines of an item under its namespace.
proof fn lemma_after_lines(
    lines: Seq<Seq<char>>,
    n: int,
    title: Seq<char>,
    name: Seq<char>,
    with_values: bool,
    owners: namespace::Owners,
)
    requires
        0 <= n <= lines.len(),
        namespace::after_lines(lines, n, title, name, with_values, owners) is Ok,
    ensures
        ({
            let out = namespace::after_lines(lines, n, title, name, with_values, owners)->Ok_0.1;
            &&& out.len() == n
            &&& forall|i: int|
                0 <= i < n ==> is_named_line(lines[i], #[trigger] out[i], name, with_values)
        }),
    decreases n,
{
    if n > 0 {
        lemma_after_lines(lines, n - 1, title, name, with_values, owners);
        let before = namespace::after_lines(
            lines,
            n - 1,
            title,
            name,
            with_values,
            owners,
        )->Ok_0.1;
        let out = namespace::after_lines(lines, n, title, name, with_values, owners)->Ok_0.1;
        assert(out.drop_last() =~= before);
        assert forall|i: int| 0 <= i < n implies is_named_line(
            lines[i],
            #[trigger] out[i],
            name,
            with_values,
        ) by {
            if i < n - 1 {
                assert(out[i] == before[i]);
            }
        }
    }
}

/// Sections under the namespaces of their items.
proof fn lemma_after_sections(sections: namespace::Sections, n: int, with_values: bool)
    requires
        0 <= n <= sections.len(),
        namespace::after_sections(sections, n, with_values) is Ok,
    ensures
        ({
            let out = namespace::after_sections(sections, n, with_values)->Ok_0.1;
            &&& out.len() == n
            &&& forall|i: int|
                0 <= i < n ==> is_named(sections[i], #[trigger] out[i], with_values)
        }),
    decreases n,
{
    if n > 0 {
        lemma_after_sections(sections, n - 1, with_values);
        let owners = namespace::after_sections(sections, n - 1, with_values)->Ok_0.0;
        let (title, lines) = sections[n - 1];
        let name = namespace::title_namespace(title)->Ok_0;
        lemma_after_lines(lines, lines.len() as int, title, name, with_values, owners);
        let before = namespace::after_sections(sections, n - 1, with_values)->Ok_0.1;
        let out = namespace::after_sections(sections, n, with_values)->Ok_0.1;
        assert forall|i: int| 0 <= i < n implies is_named(
            sections[i],
            #[trigger] out[i],
            with_values,
        ) by {
            if i < n - 1 {
                assert(out[i] == before[i]);
            }
        }
    }
}

/// Whether a section is another one under the namespace of its item, line by line.
pub open spec fn is_named(
    own: (Seq<char>, Seq<Seq<char>>),
    named: (Seq<char>, Seq<Seq<char>>),
    with_values: bool,
) -> bool {
    &&& named.0 == own.0
    &&& named.1.len() == own.1.len()
    &&& namespace::title_namespace(own.0) is Ok
    &&& forall|i: int|
        0 <= i < own.1.len() ==> is_named_line(
            own.1[i],
            #[trigger] named.1[i],
            namespace::title_namespace(own.0)->Ok_0,
            with_values,
        )
}

/// Sections get the namespaces of their items, all of them and line by line: each variable the
/// namespace and two underscores before its name, and its reference as it was.
pub proof fn law_namespaced(sections: namespace::Sections, with_values: bool, i: int)
    requires
        namespace::namespaced(sections, with_values) is Ok,
        0 <= i < sections.len(),
    ensures
        namespace::namespaced(sections, with_values)->Ok_0.len() == sections.len(),
        is_named(sections[i], namespace::namespaced(sections, with_values)->Ok_0[i], with_values),
{
    lemma_after_sections(sections, sections.len() as int, with_values);
}

/// Whether an argument begins the option for namespaces.
pub open spec fn is_option(arg: Seq<char>) -> bool {
    arg == "--namespace"@ || text::begins(arg, "--namespace="@)
}

/// Arguments up to a place that are no option are kept.
proof fn lemma_kept(args: Seq<Seq<char>>, from: int, to: int, seen: bool)
    requires
        0 <= from <= to <= args.len(),
        forall|i: int| from <= i < to ==> !is_option(#[trigger] args[i]) && args[i] != "--"@,
    ensures
        namespace::stripped(args, from, seen) == (match namespace::stripped(args, to, seen) {
            Ok((kept, found)) => Ok((namespace::range(from, to) + kept, found)),
            Err(e) => Err(e),
        }),
    decreases to - from,
{
    if from < to {
        assert(!is_option(args[from]) && args[from] != "--"@);
        lemma_kept(args, from + 1, to, seen);
        if let Ok((kept, found)) = namespace::stripped(args, to, seen) {
            assert(seq![from] + (namespace::range(from + 1, to) + kept) =~= namespace::range(
                from,
                to,
            ) + kept);
        }
    } else {
        if let Ok((kept, found)) = namespace::stripped(args, to, seen) {
            assert(namespace::range(from, to) + kept =~= kept);
        }
    }
}

/// Arguments without the option are all kept.
pub proof fn law_no_option(args: Seq<Seq<char>>, end: int, seen: bool)
    requires
        0 <= end <= args.len(),
        end < args.len() ==> args[end] == "--"@,
        forall|i: int| 0 <= i < end ==> !is_option(#[trigger] args[i]) && args[i] != "--"@,
    ensures
        namespace::stripped(args, 0, seen) == Ok::<(Seq<int>, bool), Seq<Seq<char>>>(
            (Seq::new(args.len(), |i: int| i), seen),
        ),
{
    lemma_kept(args, 0, end, seen);
    let n = args.len() as int;
    if end < n {
        assert(namespace::range(0, end) + namespace::range(end, n) =~= Seq::new(
            args.len(),
            |i: int| i,
        ));
    } else {
        assert(namespace::range(0, end) + Seq::<int>::empty() =~= Seq::new(
            args.len(),
            |i: int| i,
        ));
    }
}

/// The option is taken out, with its value where that stands by itself, and nothing else is.
pub proof fn law_option_taken(args: Seq<Seq<char>>, at: int, end: int)
    requires
        0 <= at < end <= args.len(),
        end < args.len() ==> args[end] == "--"@,
        args[at] == "--namespace=item-title"@ || args[at] == "--namespace"@ && at + 1 < end
            && args[at + 1] == "item-title"@,
        forall|i: int|
            0 <= i < end && i != at ==> !is_option(#[trigger] args[i]) && args[i] != "--"@,
    ensures
        ({
            let next = if args[at] == "--namespace"@ {
                at + 2
            } else {
                at + 1
            };
            namespace::stripped(args, 0, false) == Ok::<(Seq<int>, bool), Seq<Seq<char>>>(
                (
                    Seq::new(at as nat, |i: int| i) + Seq::new(
                        (args.len() - next) as nat,
                        |i: int| next + i,
                    ),
                    true,
                ),
            )
        }),
{
    reveal_strlit("--namespace=item-title");
    reveal_strlit("--namespace=");
    reveal_strlit("--namespace");
    reveal_strlit("item-title");
    reveal_strlit("--");
    let n = args.len() as int;
    lemma_kept(args, 0, at, false);
    let next = if args[at] == "--namespace"@ {
        at + 2
    } else {
        at + 1
    };
    assert("--namespace"@.len() == 11 && "--namespace=item-title"@.len() == 22 && "--"@.len() == 2);
    if args[at] == "--namespace"@ {
        assert(!text::begins(args[at], "--namespace="@));
    } else {
        assert(args[at].subrange(0, 12) =~= "--namespace="@);
        assert(args[at].subrange(12, 22) =~= "item-title"@);
    }
    assert(args[at] != "--"@);
    lemma_kept(args, next, end, true);
    let tail = Seq::new((n - next) as nat, |i: int| next + i);
    if end < n {
        assert(namespace::range(next, end) + namespace::range(end, n) =~= tail);
    } else {
        assert(namespace::range(next, end) + Seq::<int>::empty() =~= tail);
    }
    assert(namespace::range(0, at) + tail =~= Seq::new(at as nat, |i: int| i) + tail);
}

} // verus!
