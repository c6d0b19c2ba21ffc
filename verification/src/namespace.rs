//! Variables named after the items that they come from.

use vstd::prelude::*;
use vstd::string::*;

use crate::envfile;
use crate::failure;
use crate::failure::Failure;
use crate::resolver;
use crate::seqs;
use crate::text;

verus! {

broadcast use crate::seqs::group_seqs;

/// What is said where the option stands twice.
pub open spec fn twice() -> Seq<Seq<char>> {
    seq!["`--namespace` may only be specified once"@]
}

/// The check of a mode of naming.
pub open spec fn mode_check(value: Seq<char>, already_seen: bool) -> Result<(), Seq<Seq<char>>> {
    if already_seen {
        Err(twice())
    } else if value != "item-title"@ {
        Err(
            seq![
                "Unsupported namespace mode `"@ + value + "`. Supported mode: `item-title`"@,
            ],
        )
    } else {
        Ok(())
    }
}

/// Checks a mode of naming.
pub fn validate_namespace_value(value: &str, already_seen: bool) -> (r: Result<(), Failure>)
    ensures
        failure::told_unit(r) == mode_check(value@, already_seen),
{
    if already_seen {
        return Err(failure::fail("`--namespace` may only be specified once"));
    }
    if !text::same(value, "item-title") {
        return Err(
            Failure::new(
                "Unsupported namespace mode `".to_owned().concat(value).concat(
                    "`. Supported mode: `item-title`",
                ),
            ),
        );
    }
    Ok(())
}

/// The positions from `from` up to `to`.
pub open spec fn range(from: int, to: int) -> Seq<int> {
    Seq::new(
        if from <= to {
            (to - from) as nat
        } else {
            0
        },
        |i: int| from + i,
    )
}

/// The arguments at or after `i` that are kept when the option is taken out, and whether it was
/// found. What follows the separator is kept as it is.
pub open spec fn stripped(args: Seq<Seq<char>>, i: int, seen: bool) -> Result<
    (Seq<int>, bool),
    Seq<Seq<char>>,
>
    decreases args.len() - i + 1,
{
    if i < 0 || i >= args.len() {
        Ok((Seq::empty(), seen))
    } else if args[i] == "--"@ {
        Ok((range(i, args.len() as int), seen))
    } else if text::begins(args[i], "--namespace="@) {
        match mode_check(args[i].subrange("--namespace="@.len() as int, args[i].len() as int), seen) {
            Err(e) => Err(e),
            Ok(_) => stripped(args, i + 1, true),
        }
    } else if args[i] == "--namespace"@ {
        if seen {
            Err(twice())
        } else if i + 1 >= args.len() {
            Err(seq!["`--namespace` requires a value"@])
        } else {
            match mode_check(args[i + 1], false) {
                Err(e) => Err(e),
                Ok(_) => stripped(args, i + 2, true),
            }
        }
    } else {
        match stripped(args, i + 1, seen) {
            Err(e) => Err(e),
            Ok((kept, found)) => Ok((seq![i] + kept, found)),
        }
    }
}

/// Positions as numbers.
pub open spec fn positions(v: Seq<usize>) -> Seq<int> {
    Seq::new(v.len(), |i: int| v[i] as int)
}

/// The positions of the arguments that are kept when the option is taken out, where it is given.
pub fn namespace_positions(args: &[String]) -> (r: Result<Option<Vec<usize>>, Failure>)
    ensures
        match stripped(seqs::texts(args@), 0, false) {
            Err(e) => r matches Err(failure) && failure@ == e,
            Ok((kept, found)) => r matches Ok(result) && (if found {
                result matches Some(v) && positions(v@) == kept && forall|k: int|
                    0 <= k < v@.len() ==> (#[trigger] v@[k]) < args@.len()
            } else {
                result is None
            }),
        },
{
    let ghost all = seqs::texts(args@);
    let ghost whole = stripped(all, 0, false);
    let mut kept: Vec<usize> = Vec::new();
    let mut seen = false;
    let mut i: usize = 0;
    proof {
        assert(positions(kept@) =~= Seq::<int>::empty());
        if whole is Ok {
            assert(positions(kept@) + whole->Ok_0.0 =~= whole->Ok_0.0);
        }
    }
    while i < args.len()
        invariant
            i <= args@.len(),
            all == seqs::texts(args@),
            whole == stripped(all, 0, false),
            forall|k: int| 0 <= k < kept@.len() ==> (#[trigger] kept@[k]) < args@.len(),
            whole == (match stripped(all, i as int, seen) {
                Err(e) => Err(e),
                Ok((rest, found)) => Ok((positions(kept@) + rest, found)),
            }),
        decreases args@.len() - i,
    {
        assert(all[i as int] == args@[i as int]@);
        let arg = &args[i];
        if text::same(arg, "--") {
            let ghost start = positions(kept@);
            let ghost from = i as int;
            while i < args.len()
                invariant
                    from <= i <= args@.len(),
                    forall|k: int| 0 <= k < kept@.len() ==> (#[trigger] kept@[k]) < args@.len(),
                    positions(kept@) == start + range(from, i as int),
                decreases args@.len() - i,
            {
                let ghost before = positions(kept@);
                kept.push(i);
                assert(positions(kept@) =~= before.push(i as int));
                assert(range(from, i + 1) =~= range(from, i as int).push(i as int));
                assert(before.push(i as int) =~= start + range(from, i + 1));
                i += 1;
            }
            return if seen {
                Ok(Some(kept))
            } else {
                Ok(None)
            };
        }
        if let Some(value) = text::strip_prefix(arg, "--namespace=") {
            if let Err(e) = validate_namespace_value(value, seen) {
                return Err(e);
            }
            seen = true;
            i += 1;
            continue;
        }
        if text::same(arg, "--namespace") {
            if seen {
                return Err(failure::fail("`--namespace` may only be specified once"));
            }
            if args.len() - i < 2 {
                return Err(failure::fail("`--namespace` requires a value"));
            }
            assert(all[i + 1] == args@[i + 1]@);
            if let Err(e) = validate_namespace_value(&args[i + 1], false) {
                return Err(e);
            }
            seen = true;
            i += 2;
            continue;
        }
        let ghost before = positions(kept@);
        kept.push(i);
        proof {
            assert(positions(kept@) =~= before.push(i as int));
            if stripped(all, i + 1, seen) is Ok {
                let rest = stripped(all, i + 1, seen)->Ok_0.0;
                assert(before + (seq![i as int] + rest) =~= before.push(i as int) + rest);
            }
        }
        i += 1;
    }
    assert(positions(kept@) + Seq::<int>::empty() =~= positions(kept@));
    if seen {
        Ok(Some(kept))
    } else {
        Ok(None)
    }
}

/// The arguments at positions.
pub open spec fn at(args: Seq<Seq<char>>, places: Seq<int>) -> Seq<Seq<char>> {
    Seq::new(places.len(), |i: int| args[places[i]])
}

/// The arguments without the option, where it is given.
pub fn strip_namespace_args(args: &[String]) -> (r: Result<Option<Vec<String>>, Failure>)
    ensures
        match stripped(seqs::texts(args@), 0, false) {
            Err(e) => r matches Err(failure) && failure@ == e,
            Ok((kept, found)) => r matches Ok(result) && (if found {
                result matches Some(v) && seqs::texts(v@) == at(seqs::texts(args@), kept)
            } else {
                result is None
            }),
        },
{
    let places = match namespace_positions(args) {
        Err(e) => return Err(e),
        Ok(None) => return Ok(None),
        Ok(Some(places)) => places,
    };
    let ghost all = seqs::texts(args@);
    let ghost kept = positions(places@);
    let mut r = seqs::no_texts();
    let mut i: usize = 0;
    while i < places.len()
        invariant
            i <= places@.len(),
            all == seqs::texts(args@),
            kept == positions(places@),
            forall|k: int| 0 <= k < places@.len() ==> (#[trigger] places@[k]) < args@.len(),
            seqs::texts(r@) == at(all, kept).take(i as int),
        decreases places@.len() - i,
    {
        let place = places[i];
        assert(at(all, kept).take(i + 1) =~= at(all, kept).take(i as int).push(
            args@[place as int]@,
        ));
        seqs::push_text(&mut r, &args[place]);
        i += 1;
    }
    Ok(Some(r))
}

/// Everything from the separator on is kept.
pub proof fn law_after_separator_kept(args: Seq<Seq<char>>, i: int, seen: bool, k: int, j: int)
    requires
        0 <= i <= k <= j < args.len(),
        args[k] == "--"@,
        stripped(args, i, seen) is Ok,
    ensures
        stripped(args, i, seen)->Ok_0.0.contains(j),
    decreases args.len() - i,
{
    let kept = stripped(args, i, seen)->Ok_0.0;
    if args[i] == "--"@ {
        assert(kept[j - i] == j);
    } else if text::begins(args[i], "--namespace="@) {
        law_after_separator_kept(args, i + 1, true, k, j);
    } else if args[i] == "--namespace"@ {
        reveal_strlit("--");
        reveal_strlit("item-title");
        assert("--"@.len() == 2 && "item-title"@.len() == 10);
        assert(args[i + 1] == "item-title"@);
        law_after_separator_kept(args, i + 2, true, k, j);
    } else {
        law_after_separator_kept(args, i + 1, seen, k, j);
        let rest = stripped(args, i + 1, seen)->Ok_0.0;
        let m = choose|m: int| 0 <= m < rest.len() && rest[m] == j;
        assert(kept[m + 1] == j);
    }
}

/// Whether a character may stand in the name of a variable.
pub open spec fn is_word(c: char) -> bool {
    text::is_alnum(c) || c == '_'
}

/// A title in upper case with one underscore in place of each run of other characters, and whether
/// it ends with such a run.
pub open spec fn folded(title: Seq<char>) -> (Seq<char>, bool)
    decreases title.len(),
{
    if title.len() == 0 {
        (Seq::empty(), false)
    } else {
        let before = folded(title.drop_last());
        let c = title.last();
        if is_word(c) {
            (before.0.push(text::upper(c)), false)
        } else if before.1 {
            before
        } else {
            (before.0.push('_'), true)
        }
    }
}

/// The prefix for the variables of an item.
pub open spec fn title_namespace(title: Seq<char>) -> Result<Seq<char>, Seq<Seq<char>>> {
    let name = text::stripped_of(folded(title).0, '_');
    if name.len() == 0 {
        Err(seq!["Item title `"@ + title + "` produces an empty environment namespace"@])
    } else {
        Ok(name)
    }
}

/// The prefix for the variables of an item.
pub fn normalize_item_title_namespace(item_title: &str) -> (r: Result<String, Failure>)
    ensures
        failure::told_text(r) == title_namespace(item_title@),
{
    let chars = text::chars_of(item_title);
    let ghost all = item_title@;
    let mut name = String::new();
    let mut replacing = false;
    let mut i: usize = 0;
    assert(name@ =~= Seq::<char>::empty());
    while i < chars.len()
        invariant
            i <= chars@.len(),
            chars@ == all,
            folded(all.take(i as int)) == (name@, replacing),
        decreases chars@.len() - i,
    {
        proof {
            assert(all.take(i + 1).drop_last() == all.take(i as int));
            assert(all.take(i + 1).last() == chars@[i as int]);
        }
        let c = chars[i];
        if text::is_ascii_alphanumeric(c) || c == '_' {
            name.push(text::to_upper(c));
            replacing = false;
        } else if !replacing {
            name.push('_');
            replacing = true;
        }
        i += 1;
    }
    assert(all.take(chars@.len() as int) =~= all);
    let namespace = text::trim_char(&name, '_');
    if namespace.unicode_len() == 0 {
        return Err(
            Failure::new(
                "Item title `".to_owned().concat(item_title).concat(
                    "` produces an empty environment namespace",
                ),
            ),
        );
    }
    Ok(namespace.to_owned())
}

/// The generated variables so far, each with the item that it is for.
pub type Owners = Seq<(Seq<char>, Seq<char>)>;

/// The item that a variable is for, from `from` on.
pub open spec fn owner(owners: Owners, key: Seq<char>, from: int) -> Option<Seq<char>>
    decreases owners.len() - from,
{
    if from < 0 || from >= owners.len() {
        None
    } else if owners[from].0 == key {
        Some(owners[from].1)
    } else {
        owner(owners, key, from + 1)
    }
}

/// What is said where two items come to the same variable.
pub open spec fn collision(key: Seq<char>, first: Seq<char>, second: Seq<char>) -> Seq<char> {
    "Generated environment variable `"@ + key + "` collides between items `"@ + first + "` and `"@
        + second + "` after item-title normalization"@
}

/// Takes note of a variable, where it is new.
pub fn register_namespaced_key(
    generated_by: &mut Vec<(String, String)>,
    item_title: &str,
    generated_key: &str,
) -> (r: Result<(), Failure>)
    ensures
        match owner(envfile::pairs(old(generated_by)@), generated_key@, 0) {
            Some(first) => failure::failed(r, collision(generated_key@, first, item_title@))
                && final(generated_by)@ == old(generated_by)@,
            None => r is Ok && envfile::pairs(final(generated_by)@) == envfile::pairs(
                old(generated_by)@,
            ).push((generated_key@, item_title@)),
        },
{
    let ghost all = envfile::pairs(generated_by@);
    let mut i: usize = 0;
    while i < generated_by.len()
        invariant
            i <= generated_by@.len(),
            all == envfile::pairs(generated_by@),
            generated_by@ == old(generated_by)@,
            owner(all, generated_key@, 0) == owner(all, generated_key@, i as int),
        decreases generated_by@.len() - i,
    {
        assert(all[i as int] == (generated_by@[i as int].0@, generated_by@[i as int].1@));
        if text::same(&generated_by[i].0, generated_key) {
            return Err(
                Failure::new(
                    "Generated environment variable `".to_owned().concat(generated_key).concat(
                        "` collides between items `",
                    ).concat(&generated_by[i].1).concat("` and `").concat(item_title).concat(
                        "` after item-title normalization",
                    ),
                ),
            );
        }
        i += 1;
    }
    generated_by.push((generated_key.to_owned(), item_title.to_owned()));
    assert(envfile::pairs(generated_by@) =~= all.push((generated_key@, item_title@)));
    Ok(())
}

/// The variable for a line or a label of an item, and the line or label with its name.
pub open spec fn named_line(
    line: Seq<char>,
    title: Seq<char>,
    namespace: Seq<char>,
    with_values: bool,
) -> Result<(Seq<char>, Seq<char>), Seq<Seq<char>>> {
    if with_values {
        match envfile::env_pair(line) {
            Some((label, reference)) => Ok(
                (
                    namespace + "__"@ + label,
                    namespace + "__"@ + label + "="@ + reference,
                ),
            ),
            None => Err(
                seq!["Invalid generated environment entry for item `"@ + title + "`"@],
            ),
        }
    } else {
        Ok((namespace + "__"@ + line, namespace + "__"@ + line))
    }
}

/// The variables and the lines after the first `n` lines of an item.
pub open spec fn after_lines(
    lines: Seq<Seq<char>>,
    n: int,
    title: Seq<char>,
    namespace: Seq<char>,
    with_values: bool,
    owners: Owners,
) -> Result<(Owners, Seq<Seq<char>>), Seq<Seq<char>>>
    decreases n,
{
    if n <= 0 {
        Ok((owners, Seq::empty()))
    } else {
        match after_lines(lines, n - 1, title, namespace, with_values, owners) {
            Err(e) => Err(e),
            Ok((before, out)) => match named_line(lines[n - 1], title, namespace, with_values) {
                Err(e) => Err(e),
                Ok((key, line)) => match owner(before, key, 0) {
                    Some(first) => Err(seq![collision(key, first, title)]),
                    None => Ok((before.push((key, title)), out.push(line))),
                },
            },
        }
    }
}

/// A failure at a line is that of the item.
proof fn lemma_lines_stop(
    lines: Seq<Seq<char>>,
    n: int,
    m: int,
    title: Seq<char>,
    namespace: Seq<char>,
    with_values: bool,
    owners: Owners,
)
    requires
        0 <= n <= m,
        after_lines(lines, n, title, namespace, with_values, owners) is Err,
    ensures
        after_lines(lines, m, title, namespace, with_values, owners) == after_lines(
            lines,
            n,
            title,
            namespace,
            with_values,
            owners,
        ),
    decreases m,
{
    if n < m {
        lemma_lines_stop(lines, n, m - 1, title, namespace, with_values, owners);
    }
}

/// Sections of lines under titles.
pub type Sections = Seq<(Seq<char>, Seq<Seq<char>>)>;

/// The variables and the sections after the first `n` sections.
pub open spec fn after_sections(sections: Sections, n: int, with_values: bool) -> Result<
    (Owners, Sections),
    Seq<Seq<char>>,
>
    decreases n,
{
    if n <= 0 {
        Ok((Seq::empty(), Seq::empty()))
    } else {
        match after_sections(sections, n - 1, with_values) {
            Err(e) => Err(e),
            Ok((owners, out)) => {
                let title = sections[n - 1].0;
                let lines = sections[n - 1].1;
                match title_namespace(title) {
                    Err(e) => Err(e),
                    Ok(namespace) => match after_lines(
                        lines,
                        lines.len() as int,
                        title,
                        namespace,
                        with_values,
                        owners,
                    ) {
                        Err(e) => Err(e),
                        Ok((now, named)) => Ok((now, out.push((title, named)))),
                    },
                }
            },
        }
    }
}

/// A failure in a section is that of all.
proof fn lemma_sections_stop(sections: Sections, n: int, m: int, with_values: bool)
    requires
        0 <= n <= m,
        after_sections(sections, n, with_values) is Err,
    ensures
        after_sections(sections, m, with_values) == after_sections(sections, n, with_values),
    decreases m,
{
    if n < m {
        lemma_sections_stop(sections, n, m - 1, with_values);
    }
}

/// The sections with generated names.
pub open spec fn namespaced(sections: Sections, with_values: bool) -> Result<
    Sections,
    Seq<Seq<char>>,
> {
    match after_sections(sections, sections.len() as int, with_values) {
        Ok((_, out)) => Ok(out),
        Err(e) => Err(e),
    }
}

/// What sections came to.
pub open spec fn told_sections(r: Result<Vec<(String, Vec<String>)>, Failure>) -> Result<
    Sections,
    Seq<Seq<char>>,
> {
    match r {
        Ok(v) => Ok(resolver::sections(v@)),
        Err(e) => Err(e@),
    }
}

/// Names a line or a label.
fn name_line(line: &str, title: &str, namespace: &str, with_values: bool) -> (r: Result<
    (String, String),
    Failure,
>)
    ensures
        match named_line(line@, title@, namespace@, with_values) {
            Ok((key, named)) => r matches Ok(pair) && pair.0@ == key && pair.1@ == named,
            Err(e) => r matches Err(failure) && failure@ == e,
        },
{
    if with_values {
        match envfile::parse_env_line_kv(line) {
            Some((label, reference)) => {
                let key = namespace.to_owned().concat("__").concat(&label);
                let named = namespace.to_owned().concat("__").concat(&label).concat("=").concat(
                    &reference,
                );
                Ok((key, named))
            },
            None => Err(
                Failure::new(
                    "Invalid generated environment entry for item `".to_owned().concat(
                        title,
                    ).concat("`"),
                ),
            ),
        }
    } else {
        Ok(
            (
                namespace.to_owned().concat("__").concat(line),
                namespace.to_owned().concat("__").concat(line),
            ),
        )
    }
}

/// Names the lines of an item.
fn name_lines(
    lines: &Vec<String>,
    title: &str,
    namespace: &str,
    with_values: bool,
    owners: &mut Vec<(String, String)>,
) -> (r: Result<Vec<String>, Failure>)
    ensures
        match after_lines(
            seqs::texts(lines@),
            lines@.len() as int,
            title@,
            namespace@,
            with_values,
            envfile::pairs(old(owners)@),
        ) {
            Ok((now, out)) => r matches Ok(v) && seqs::texts(v@) == out && envfile::pairs(
                final(owners)@,
            ) == now,
            Err(e) => r matches Err(failure) && failure@ == e,
        },
{
    let ghost all = seqs::texts(lines@);
    let ghost start = envfile::pairs(owners@);
    let mut out = seqs::no_texts();
    let mut i: usize = 0;
    while i < lines.len()
        invariant
            i <= lines@.len(),
            all == seqs::texts(lines@),
            start == envfile::pairs(old(owners)@),
            after_lines(all, i as int, title@, namespace@, with_values, start) == Ok::<
                (Owners, Seq<Seq<char>>),
                Seq<Seq<char>>,
            >((envfile::pairs(owners@), seqs::texts(out@))),
        decreases lines@.len() - i,
    {
        assert(all[i as int] == lines@[i as int]@);
        proof {
            if after_lines(all, i + 1, title@, namespace@, with_values, start) is Err {
                lemma_lines_stop(
                    all,
                    i + 1,
                    all.len() as int,
                    title@,
                    namespace@,
                    with_values,
                    start,
                );
            }
        }
        let (key, named) = match name_line(&lines[i], title, namespace, with_values) {
            Ok(pair) => pair,
            Err(e) => return Err(e),
        };
        if let Err(e) = register_namespaced_key(owners, title, &key) {
            return Err(e);
        }
        seqs::push_string(&mut out, named);
        i += 1;
    }
    Ok(out)
}

/// Names the lines of all sections.
fn name_sections(sections: &Vec<(String, Vec<String>)>, with_values: bool) -> (r: Result<
    Vec<(String, Vec<String>)>,
    Failure,
>)
    ensures
        told_sections(r) == namespaced(resolver::sections(sections@), with_values),
{
    let ghost all = resolver::sections(sections@);
    let mut owners: Vec<(String, String)> = Vec::new();
    let mut out: Vec<(String, Vec<String>)> = Vec::new();
    let mut i: usize = 0;
    assert(envfile::pairs(owners@) =~= Seq::<(Seq<char>, Seq<char>)>::empty());
    assert(resolver::sections(out@) =~= Seq::<(Seq<char>, Seq<Seq<char>>)>::empty());
    while i < sections.len()
        invariant
            i <= sections@.len(),
            all == resolver::sections(sections@),
            after_sections(all, i as int, with_values) == Ok::<
                (Owners, Sections),
                Seq<Seq<char>>,
            >((envfile::pairs(owners@), resolver::sections(out@))),
        decreases sections@.len() - i,
    {
        let ghost before = resolver::sections(out@);
        assert(all[i as int] == (sections@[i as int].0@, seqs::texts(sections@[i as int].1@)));
        proof {
            if after_sections(all, i + 1, with_values) is Err {
                lemma_sections_stop(all, i + 1, all.len() as int, with_values);
            }
        }
        let title = &sections[i].0;
        let namespace = match normalize_item_title_namespace(title) {
            Ok(namespace) => namespace,
            Err(e) => return Err(e),
        };
        let named = match name_lines(
            &sections[i].1,
            title,
            &namespace,
            with_values,
            &mut owners,
        ) {
            Ok(named) => named,
            Err(e) => return Err(e),
        };
        let ghost own = (title@, seqs::texts(named@));
        out.push((title.clone(), named));
        assert(resolver::sections(out@) =~= before.push(own));
        i += 1;
    }
    Ok(out)
}

/// The lines of items, with variables named after their items.
pub fn namespace_env_sections(sections: &Vec<(String, Vec<String>)>) -> (r: Result<
    Vec<(String, Vec<String>)>,
    Failure,
>)
    ensures
        told_sections(r) == namespaced(resolver::sections(sections@), true),
{
    name_sections(sections, true)
}

/// The labels of items, named after their items.
pub fn namespace_label_sections(sections: &Vec<(String, Vec<String>)>) -> (r: Result<
    Vec<(String, Vec<String>)>,
    Failure,
>)
    ensures
        told_sections(r) == namespaced(resolver::sections(sections@), false),
{
    name_sections(sections, false)
}

/// Whether no variable is generated twice.
pub open spec fn distinct(owners: Owners) -> bool {
    forall|i: int, j: int|
        0 <= i < j < owners.len() ==> (#[trigger] owners[i]).0 != (#[trigger] owners[j]).0
}

/// What has no owner is no variable so far.
proof fn lemma_no_owner(owners: Owners, key: Seq<char>, from: int)
    requires
        0 <= from,
        owner(owners, key, from) is None,
    ensures
        forall|i: int| from <= i < owners.len() ==> (#[trigger] owners[i]).0 != key,
    decreases owners.len() - from,
{
    if from < owners.len() {
        lemma_no_owner(owners, key, from + 1);
    }
}

/// Whether lines are those for variables: their names, with values where there are some.
pub open spec fn lines_fit(lines: Seq<Seq<char>>, owners: Owners, with_values: bool) -> bool {
    lines.len() == owners.len() && forall|i: int|
        0 <= i < lines.len() ==> if with_values {
            text::begins(#[trigger] lines[i], owners[i].0 + "="@)
        } else {
            lines[i] == owners[i].0
        }
}

/// The lines of an item keep the variables distinct and fit them.
proof fn lemma_lines_fit(
    lines: Seq<Seq<char>>,
    n: int,
    title: Seq<char>,
    namespace: Seq<char>,
    with_values: bool,
    owners: Owners,
    done: Seq<Seq<char>>,
)
    requires
        distinct(owners),
        lines_fit(done, owners, with_values),
        after_lines(lines, n, title, namespace, with_values, owners) is Ok,
    ensures
        ({
            let (now, out) = after_lines(
                lines,
                n,
                title,
                namespace,
                with_values,
                owners,
            )->Ok_0;
            distinct(now) && lines_fit(done + out, now, with_values)
        }),
    decreases n,
{
    if n <= 0 {
        assert(done + Seq::<Seq<char>>::empty() =~= done);
    } else {
        lemma_lines_fit(lines, n - 1, title, namespace, with_values, owners, done);
        let (before, out) = after_lines(
            lines,
            n - 1,
            title,
            namespace,
            with_values,
            owners,
        )->Ok_0;
        let (key, line) = named_line(lines[n - 1], title, namespace, with_values)->Ok_0;
        lemma_no_owner(before, key, 0);
        let now = before.push((key, title));
        assert forall|i: int, j: int| 0 <= i < j < now.len() implies (#[trigger] now[i]).0 != (
        #[trigger] now[j]).0 by {
            if j == before.len() {
                assert(now[i] == before[i]);
            } else {
                assert(now[i] == before[i] && now[j] == before[j]);
            }
        }
        let all = done + out.push(line);
        assert(all =~= (done + out).push(line));
        if with_values {
            assert(line.subrange(0, (key + "="@).len() as int) =~= key + "="@);
        }
        assert forall|i: int| 0 <= i < all.len() implies if with_values {
            text::begins(#[trigger] all[i], now[i].0 + "="@)
        } else {
            all[i] == now[i].0
        } by {
            if i < before.len() {
                assert(all[i] == (done + out)[i]);
                assert(now[i] == before[i]);
            }
        }
    }
}

/// All variables that are generated differ, and the lines are those for them, in order.
pub proof fn law_generated_distinct(sections: Sections, n: int, with_values: bool)
    requires
        after_sections(sections, n, with_values) is Ok,
    ensures
        ({
            let (owners, out) = after_sections(sections, n, with_values)->Ok_0;
            distinct(owners) && lines_fit(resolver::all_lines(out), owners, with_values)
        }),
    decreases n,
{
    if n > 0 {
        law_generated_distinct(sections, n - 1, with_values);
        let (before, out) = after_sections(sections, n - 1, with_values)->Ok_0;
        let title = sections[n - 1].0;
        let lines = sections[n - 1].1;
        let namespace = title_namespace(title)->Ok_0;
        lemma_lines_fit(
            lines,
            lines.len() as int,
            title,
            namespace,
            with_values,
            before,
            resolver::all_lines(out),
        );
        let named = after_lines(
            lines,
            lines.len() as int,
            title,
            namespace,
            with_values,
            before,
        )->Ok_0.1;
        assert(out.push((title, named)).drop_last() =~= out);
    }
}

} // verus!
