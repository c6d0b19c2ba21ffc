//! What holds of generated paths.

use vstd::prelude::*;
use vstd::string::*;

use crate::paths;
use crate::paths::{PartKind, PartView};
use crate::text;

verus! {

broadcast use crate::seqs::group_seqs;

/// How long the prefix of a path is.
spec fn lead(path: Seq<char>, windows: bool) -> int {
    match paths::prefix_of(path, windows) {
        Some((_, n)) => n,
        None => 0,
    }
}

/// The prefix of a path, as a part.
spec fn head(path: Seq<char>, windows: bool) -> Seq<PartView> {
    match paths::prefix_of(path, windows) {
        Some((prefix, _)) => seq![prefix],
        None => Seq::empty(),
    }
}

/// Whether a path has a verbatim prefix.
pub open spec fn is_verbatim(path: Seq<char>, windows: bool) -> bool {
    paths::prefix_of(path, windows) matches Some((prefix, _)) && prefix.kind.is_verbatim()
}

/// What parts a path behind its prefix.
spec fn marks_of(path: Seq<char>, windows: bool) -> Seq<char> {
    if is_verbatim(path, windows) {
        paths::strict_separators()
    } else {
        paths::separators(windows)
    }
}

/// The root.
spec fn root() -> PartView {
    paths::named(PartKind::Root, Seq::empty())
}

/// The names as parts.
pub open spec fn name_parts(names: Seq<Seq<char>>) -> Seq<PartView> {
    Seq::new(names.len(), |i: int| paths::named(PartKind::Name, names[i]))
}

/// Whether `name` can be the name of a file: it is not empty, holds no separator, stands neither
/// for the current directory nor for the one above, and does not begin with a drive.
pub open spec fn is_name(name: Seq<char>, windows: bool) -> bool {
    &&& name.len() > 0
    &&& name != "."@
    &&& name != ".."@
    &&& forall|i: int| 0 <= i < name.len() ==> !paths::separators(windows).contains(#[trigger] name[i])
    &&& paths::prefix_of(name, windows) is None
}

/// Whether all of these can be names of files.
pub open spec fn are_names(names: Seq<Seq<char>>, windows: bool) -> bool {
    forall|i: int| 0 <= i < names.len() ==> is_name(#[trigger] names[i], windows)
}

/// A word ends at the same place in another text that agrees with the first so far and goes no
/// further, or goes on with a separator.
proof fn lemma_word_same(s: Seq<char>, t: Seq<char>, from: int, set: Seq<char>)
    requires
        0 <= from <= s.len(),
        paths::word_stop(s, from, set) <= t.len(),
        forall|i: int|
            from <= i < paths::word_stop(s, from, set) ==> #[trigger] t[i] == s[i],
        t.len() > paths::word_stop(s, from, set) ==> set.contains(
            t[paths::word_stop(s, from, set)],
        ),
    ensures
        from <= paths::word_stop(s, from, set) <= s.len(),
        paths::word_stop(t, from, set) == paths::word_stop(s, from, set),
        paths::word(t, from, set) == paths::word(s, from, set),
    decreases s.len() - from,
{
    paths::lemma_word_stop(s, from, set);
    let e = paths::word_stop(s, from, set);
    if from < s.len() && !set.contains(s[from]) {
        paths::lemma_word_stop(s, from + 1, set);
        assert(t[from] == s[from]);
        lemma_word_same(s, t, from + 1, set);
    }
    assert(t.subrange(from, e) =~= s.subrange(from, e));
}

/// A word that ends before the text does ends at a separator.
proof fn lemma_word_ended(s: Seq<char>, from: int, set: Seq<char>)
    requires
        0 <= from <= s.len(),
        paths::word_stop(s, from, set) < s.len(),
    ensures
        set.contains(s[paths::word_stop(s, from, set)]),
    decreases s.len() - from,
{
    if from < s.len() && !set.contains(s[from]) {
        lemma_word_ended(s, from + 1, set);
    }
}

/// The separators are the two slashes.
proof fn lemma_marks()
    ensures
        paths::separators(true).contains('/'),
        paths::separators(true).contains('\\'),
        paths::separators(false).contains('/'),
        paths::strict_separators().contains('\\'),
        forall|c: char| #[trigger] paths::separators(true).contains(c) ==> c == '/' || c == '\\',
        forall|c: char| #[trigger] paths::separators(false).contains(c) ==> c == '/',
        forall|c: char| #[trigger] paths::strict_separators().contains(c) ==> c == '\\',
{
    assert(paths::separators(true)[0] == '/' && paths::separators(true)[1] == '\\');
    assert(paths::separators(false)[0] == '/');
    assert(paths::strict_separators()[0] == '\\');
}

/// Whether the prefix of `s` is that of `t` too, as far as what follows it goes: where it is
/// followed by anything, a separator comes first.
spec fn follows_prefix(s: Seq<char>, t: Seq<char>) -> bool {
    let (prefix, n) = paths::windows_prefix(s)->0;
    &&& paths::windows_prefix(s) is Some
    &&& n <= t.len()
    &&& forall|i: int| 0 <= i < n ==> #[trigger] t[i] == s[i]
    &&& t.len() > n ==> (if prefix.kind.is_verbatim() {
        t[n] == '\\'
    } else {
        paths::separators(true).contains(t[n])
    })
    &&& prefix.kind == PartKind::Verbatim && t.len() > n ==> s.len() > n || prefix.name != "UNC"@
    &&& prefix.kind == PartKind::VerbatimUnc && prefix.share.len() == 0 ==> t.len() <= n + 1
}

/// A verbatim prefix stays what it is when a separator follows it.
proof fn lemma_verbatim_same(s: Seq<char>, t: Seq<char>)
    requires
        follows_prefix(s, t),
        (paths::windows_prefix(s)->0).0.kind.is_verbatim(),
    ensures
        paths::windows_prefix(t) == paths::windows_prefix(s),
{
    reveal_strlit("\\\\?\\");
    reveal_strlit("UNC");
    lemma_marks();
    paths::lemma_prefix_length(s);
    let marks = paths::separators(true);
    let strict = paths::strict_separators();
    let (prefix, n) = paths::windows_prefix(s)->0;
    assert(text::begins(s, "\\\\?\\"@));
    let start = s.subrange(0, 4);
    assert(start[0] == s[0] && start[1] == s[1] && start[2] == s[2] && start[3] == s[3]);
    assert(n >= 4) by {
        if s.len() >= 8 {
            paths::lemma_word_stop(s, 8, strict);
        }
        paths::lemma_word_stop(s, 4, strict);
    }
    assert(t.subrange(0, 4) =~= start);
    assert(text::begins(t, "\\\\?\\"@));
    let is_unc = s.len() >= 8 && s.subrange(4, 7) == "UNC"@ && marks.contains(s[7]);
    if s.len() >= 7 {
        let part = s.subrange(4, 7);
        assert(part[0] == s[4] && part[1] == s[5] && part[2] == s[6]);
    }
    if t.len() >= 7 {
        let part = t.subrange(4, 7);
        assert(part[0] == t[4] && part[1] == t[5] && part[2] == t[6]);
    }
    assert("UNC"@[0] == 'U' && "UNC"@[1] == 'N' && "UNC"@[2] == 'C');
    if is_unc {
        paths::lemma_word_stop(s, 8, strict);
        let server = paths::word(s, 8, strict);
        let e = 8 + server.len() as int;
        assert(t.subrange(4, 7) =~= s.subrange(4, 7));
        if prefix.share.len() > 0 {
            paths::lemma_word_stop(s, e + 1, strict);
            lemma_word_ended(s, 8, strict);
            assert(t[e] == s[e]);
            lemma_word_same(s, t, 8, strict);
            lemma_word_same(s, t, e + 1, strict);
        } else {
            assert(n == e);
            lemma_word_same(s, t, 8, strict);
            assert(paths::word(s, e + 1, strict) =~= Seq::<char>::empty());
            assert(paths::word(t, e + 1, strict) =~= Seq::<char>::empty());
        }
    } else if prefix.kind == PartKind::VerbatimDisk {
        assert(paths::drive_at(s, 4));
        assert(t[4] == s[4] && t[5] == s[5]);
        assert(t.subrange(4, 5) =~= s.subrange(4, 5));
        if t.len() >= 8 && t.subrange(4, 7) == "UNC"@ {
            assert(t[5] == 'N');
        }
    } else {
        let name = paths::word(s, 4, strict);
        paths::lemma_word_stop(s, 4, strict);
        if s.len() > n {
            lemma_word_ended(s, 4, strict);
        }
        lemma_word_same(s, t, 4, strict);
        if t.len() >= 8 && t.subrange(4, 7) == "UNC"@ && marks.contains(t[7]) {
            if n == 7 {
                assert(s.subrange(4, 7) =~= "UNC"@);
                assert(name =~= s.subrange(4, 7));
            } else if n > 7 {
                assert(s[7] == t[7]);
                assert(s.subrange(4, 7) =~= "UNC"@);
            }
            assert(false);
        }
        if paths::drive_at(t, 4) && (t.len() == 6 || marks.contains(t[6])) {
            if n > 6 {
                assert(s[6] == t[6]);
            }
            assert(false);
        }
    }
}

/// A prefix stays what it is when a separator follows it.
proof fn lemma_prefix_same(s: Seq<char>, t: Seq<char>)
    requires
        follows_prefix(s, t),
    ensures
        paths::windows_prefix(t) == paths::windows_prefix(s),
{
    reveal_strlit("\\\\?\\");
    lemma_marks();
    paths::lemma_prefix_length(s);
    let marks = paths::separators(true);
    let (prefix, n) = paths::windows_prefix(s)->0;
    assert(t[0] == s[0] && t[1] == s[1]);
    if prefix.kind.is_verbatim() {
        lemma_verbatim_same(s, t);
    } else if prefix.kind == PartKind::Disk {
        assert(t.subrange(0, 1) =~= s.subrange(0, 1));
    } else {
        if prefix.kind == PartKind::Device {
            paths::lemma_word_stop(s, 4, marks);
            lemma_word_same(s, t, 4, marks);
        } else {
            paths::lemma_word_stop(s, 2, marks);
            let e = 2 + paths::word(s, 2, marks).len() as int;
            paths::lemma_word_stop(s, e + 1, marks);
            lemma_word_ended(s, 2, marks);
            assert(t[e] == s[e]);
            lemma_word_same(s, t, 2, marks);
            lemma_word_same(s, t, e + 1, marks);
        }
        assert(n >= 4);
        assert(t[2] == s[2] && t[3] == s[3]);
        assert(s.subrange(0, 4) =~= t.subrange(0, 4));
        assert(text::begins(t, "\\\\?\\"@) == text::begins(s, "\\\\?\\"@));
    }
}

/// Parts between separators are names, parents, or the current directory.
proof fn lemma_inner(pieces: Seq<Seq<char>>, verbatim: bool, i: int)
    requires
        0 <= i < paths::inner_parts(pieces, verbatim).len(),
    ensures
        ({
            let part = paths::inner_parts(pieces, verbatim)[i];
            ||| part == paths::named(PartKind::Parent, Seq::empty()) && pieces.contains(".."@)
            ||| part == paths::named(PartKind::Current, Seq::empty()) && (verbatim || pieces[0]
                == "."@)
            ||| part == paths::named(PartKind::Name, part.name) && part.name.len() > 0 && part.name
                != "."@ && part.name != ".."@ && pieces.contains(part.name)
        }),
    decreases pieces.len(),
{
    if pieces.len() > 0 {
        let front = pieces.drop_last();
        let before = paths::inner_parts(front, verbatim);
        if i < before.len() {
            lemma_inner(front, verbatim, i);
            let part = before[i];
            if front.contains(".."@) {
                let k = choose|k: int| 0 <= k < front.len() && front[k] == ".."@;
                assert(pieces[k] == ".."@);
            }
            if front.contains(part.name) {
                let k = choose|k: int| 0 <= k < front.len() && front[k] == part.name;
                assert(pieces[k] == part.name);
            }
            assert(front[0] == pieces[0]);
        } else {
            assert(pieces[pieces.len() - 1] == pieces.last());
        }
    }
}

/// The parts of names are the names.
proof fn lemma_inner_names(names: Seq<Seq<char>>, before: Seq<Seq<char>>, verbatim: bool)
    requires
        forall|i: int|
            0 <= i < names.len() ==> (#[trigger] names[i]).len() > 0 && names[i] != "."@ && names[i]
                != ".."@,
    ensures
        paths::inner_parts(before + names, verbatim) == paths::inner_parts(before, verbatim)
            + name_parts(names),
    decreases names.len(),
{
    let all = before + names;
    if names.len() == 0 {
        assert(all =~= before);
        assert(paths::inner_parts(before, verbatim) + name_parts(names) =~= paths::inner_parts(
            before,
            verbatim,
        ));
    } else {
        let front = names.drop_last();
        assert(all.drop_last() =~= before + front);
        assert(all.last() == names[names.len() - 1]);
        assert forall|i: int| 0 <= i < front.len() implies (#[trigger] front[i]).len() > 0
            && front[i] != "."@ && front[i] != ".."@ by {
            assert(front[i] == names[i]);
        }
        lemma_inner_names(front, before, verbatim);
        assert((paths::inner_parts(before, verbatim) + name_parts(front)).push(
            paths::named(PartKind::Name, names.last()),
        ) =~= paths::inner_parts(before, verbatim) + name_parts(names));
    }
}

/// Leaving the current directory out goes part by part.
proof fn lemma_without_current(a: Seq<PartView>, b: Seq<PartView>)
    ensures
        paths::without_current(a + b) == paths::without_current(a) + paths::without_current(b),
    decreases b.len(),
{
    if b.len() == 0 {
        assert(a + b =~= a);
        assert(paths::without_current(a) + paths::without_current(b) =~= paths::without_current(a));
    } else {
        lemma_without_current(a, b.drop_last());
        assert((a + b).drop_last() =~= a + b.drop_last());
        assert((a + b).last() == b.last());
        assert(paths::without_current(a + b) =~= paths::without_current(a) + paths::without_current(
            b,
        ));
    }
}

/// Where nothing goes up, what is left between separators without the current directory are names.
proof fn lemma_only_names(parts: Seq<PartView>) -> (names: Seq<Seq<char>>)
    requires
        forall|i: int|
            0 <= i < parts.len() ==> #[trigger] parts[i] == paths::named(
                PartKind::Current,
                Seq::empty(),
            ) || parts[i] == paths::named(PartKind::Name, parts[i].name),
    ensures
        paths::without_current(parts) == name_parts(names),
        forall|i: int|
            0 <= i < names.len() ==> exists|k: int|
                0 <= k < parts.len() && parts[k] == paths::named(
                    PartKind::Name,
                    #[trigger] names[i],
                ),
        names.len() <= parts.len(),
        (forall|i: int| 0 <= i < parts.len() ==> (#[trigger] parts[i]).kind == PartKind::Name)
            ==> name_parts(names) == parts,
    decreases parts.len(),
{
    if parts.len() == 0 {
        let names = Seq::<Seq<char>>::empty();
        assert(name_parts(names) =~= parts);
        names
    } else {
        let front = parts.drop_last();
        let last = parts.last();
        assert(parts[parts.len() - 1] == last);
        let before = lemma_only_names(front);
        let names = if last.kind == PartKind::Current {
            before
        } else {
            before.push(last.name)
        };
        assert forall|i: int| 0 <= i < names.len() implies exists|k: int|
            0 <= k < parts.len() && parts[k] == paths::named(PartKind::Name, #[trigger] names[i]) by {
            if i < before.len() {
                assert(names[i] == before[i]);
                let k = choose|k: int|
                    0 <= k < front.len() && front[k] == paths::named(PartKind::Name, before[i]);
                assert(parts[k] == paths::named(PartKind::Name, names[i]));
            } else {
                assert(parts[parts.len() - 1] == paths::named(PartKind::Name, names[i]));
            }
        }
        assert(name_parts(before).push(paths::named(PartKind::Name, last.name)) =~= name_parts(
            before.push(last.name),
        ));
        if forall|i: int| 0 <= i < parts.len() ==> (#[trigger] parts[i]).kind == PartKind::Name {
            assert forall|i: int| 0 <= i < front.len() implies (#[trigger] front[i]).kind
                == PartKind::Name by {
                assert(front[i] == parts[i]);
            }
            assert(front.push(last) =~= parts);
        }
        names
    }
}

/// The text of a path with the prefix of another, its root and names.
spec fn path_with(path: Seq<char>, names: Seq<Seq<char>>, windows: bool) -> Seq<char> {
    paths::prefix_text(path, windows) + paths::written_separator(windows) + text::joined(
        names,
        paths::written_separator(windows),
    )
}

/// The parts of a path with the prefix of another, its root and names.
spec fn parts_with(path: Seq<char>, names: Seq<Seq<char>>, windows: bool) -> Seq<PartView> {
    head(path, windows).push(root()) + name_parts(names)
}

/// Whether a path has a prefix to which a root and names can be put: on Windows it has one, a
/// verbatim one goes on with a backslash, and one for a share names the share, where there are
/// names.
spec fn can_extend(path: Seq<char>, names: Seq<Seq<char>>, windows: bool) -> bool {
    windows ==> {
        let (prefix, n) = paths::windows_prefix(path)->0;
        &&& paths::windows_prefix(path) is Some
        &&& prefix.kind == PartKind::Verbatim ==> path.len() > n
        &&& prefix.kind == PartKind::VerbatimUnc && prefix.share.len() == 0 ==> names.len() == 0
    }
}

/// The character that a platform writes between names.
spec fn mark(windows: bool) -> char {
    if windows {
        '\\'
    } else {
        '/'
    }
}

/// The separator that a platform writes is one character.
proof fn lemma_mark(windows: bool)
    ensures
        paths::written_separator(windows) == seq![mark(windows)],
        paths::separators(windows).contains(mark(windows)),
        windows ==> paths::strict_separators().contains(mark(windows)),
{
    reveal_strlit("/");
    reveal_strlit("\\");
    lemma_marks();
    assert(paths::written_separator(windows) =~= seq![mark(windows)]);
}

/// A path put together of a prefix, the root and names is read so again.
proof fn lemma_reads_back(path: Seq<char>, names: Seq<Seq<char>>, windows: bool)
    requires
        can_extend(path, names, windows),
        are_names(names, windows),
    ensures
        ({
            let t = path_with(path, names, windows);
            &&& paths::path_parts(t, windows) == parts_with(path, names, windows)
            &&& paths::prefix_of(t, windows) == paths::prefix_of(path, windows)
            &&& paths::prefix_text(t, windows) == paths::prefix_text(path, windows)
        }),
{
    lemma_marks();
    lemma_mark(windows);
    let t = path_with(path, names, windows);
    let c = mark(windows);
    let n = lead(path, windows);
    let set = marks_of(path, windows);
    let verbatim = is_verbatim(path, windows);
    let prefix = paths::prefix_text(path, windows);
    if windows {
        paths::lemma_prefix_length(path);
        assert(prefix.len() == n);
        assert(t[n] == c);
        assert forall|i: int| 0 <= i < n implies #[trigger] t[i] == path[i] by {
            assert(t[i] == prefix[i]);
        }
        if names.len() == 0 {
            assert(t.len() == n + 1);
        }
        lemma_prefix_same(path, t);
        assert(t.take(n) =~= prefix);
    }
    let rest = t.skip(n);
    let tail = text::joined(names, seq![c]);
    assert(rest =~= Seq::empty() + seq![c] + tail);
    assert(set.contains(c));
    text::lemma_pieces_apart(Seq::empty(), c, tail, set);
    let blank = seq![Seq::<char>::empty()];
    assert(text::pieces(Seq::empty(), set) =~= blank);
    let inner = paths::inner_parts(text::pieces(rest, set), verbatim);
    reveal_with_fuel(paths::inner_parts, 3);
    assert(blank.drop_last() =~= Seq::<Seq<char>>::empty());
    assert(paths::inner_parts(blank, verbatim) =~= Seq::<PartView>::empty());
    if names.len() > 0 {
        assert forall|i: int, k: int| 0 <= i < names.len() && 0 <= k < names[i].len() implies
            !set.contains(#[trigger] names[i][k]) by {
            assert(is_name(names[i], windows));
            assert(!paths::separators(windows).contains(names[i][k]));
        }
        assert forall|i: int| 0 <= i < names.len() implies (#[trigger] names[i]).len() > 0
            && names[i] != "."@ && names[i] != ".."@ by {
            assert(is_name(names[i], windows));
        }
        text::lemma_joined_pieces(names, c, set);
        lemma_inner_names(names, blank, verbatim);
        assert(inner =~= name_parts(names));
    } else {
        assert(tail =~= Seq::<char>::empty());
        assert(text::pieces(rest, set) =~= blank.push(Seq::empty()));
        assert(blank.push(Seq::<char>::empty()).drop_last() =~= blank);
        assert(inner =~= name_parts(names));
    }
    assert(rest[0] == c);
    if !windows {
        assert(rest =~= t);
    }
    assert(paths::path_parts(t, windows) =~= parts_with(path, names, windows));
}

/// The last character of names that were joined is that of the last name.
proof fn lemma_joined_last(names: Seq<Seq<char>>, sep: Seq<char>)
    requires
        names.len() > 0,
        names.last().len() > 0,
    ensures
        text::joined(names, sep).len() > 0,
        text::joined(names, sep).last() == names.last().last(),
{
}

/// Names behind parts are put to them as they are.
proof fn lemma_settled_names(
    parts: Seq<PartView>,
    more: Seq<PartView>,
    names: Seq<Seq<char>>,
)
    ensures
        paths::settled(parts, more + name_parts(names)) == paths::settled(parts, more) + name_parts(
            names,
        ),
    decreases names.len(),
{
    let all = more + name_parts(names);
    if names.len() == 0 {
        assert(all =~= more);
        assert(paths::settled(parts, more) + name_parts(names) =~= paths::settled(parts, more));
    } else {
        let front = names.drop_last();
        lemma_settled_names(parts, more, front);
        assert(all.drop_last() =~= more + name_parts(front));
        assert(all.last() == paths::named(PartKind::Name, names.last()));
        assert((paths::settled(parts, more) + name_parts(front)).push(all.last())
            =~= paths::settled(parts, more) + name_parts(names));
    }
}

/// Names behind no other parts are put to the parts as they are.
proof fn lemma_settled_only_names(parts: Seq<PartView>, names: Seq<Seq<char>>)
    ensures
        paths::settled(parts, name_parts(names)) == parts + name_parts(names),
{
    let none = Seq::<PartView>::empty();
    lemma_settled_names(parts, none, names);
    assert(none + name_parts(names) =~= name_parts(names));
}

/// The text of a verbatim prefix, the root and names.
proof fn lemma_settled_text(prefix: Seq<char>, own: PartView, names: Seq<Seq<char>>)
    requires
        own.kind.is_verbatim(),
    ensures
        paths::settled_text(prefix, seq![own, root()] + name_parts(names)) == prefix + "\\"@
            + text::joined(names, "\\"@),
    decreases names.len(),
{
    let start = seq![own, root()];
    let all = start + name_parts(names);
    if names.len() == 0 {
        reveal_with_fuel(paths::settled_text, 3);
        assert(all =~= start);
        assert(start.drop_last() =~= seq![own]);
        assert(seq![own].drop_last() =~= Seq::<PartView>::empty());
        assert(paths::settled_text(prefix, seq![own]) =~= prefix);
        assert(paths::settled_text(prefix, start) =~= prefix + "\\"@);
        assert(prefix + "\\"@ + text::joined(names, "\\"@) =~= prefix + "\\"@);
    } else {
        let front = names.drop_last();
        lemma_settled_text(prefix, own, front);
        assert(all.drop_last() =~= start + name_parts(front));
        assert(all.last() == paths::named(PartKind::Name, names.last()));
        let before = prefix + "\\"@ + text::joined(front, "\\"@);
        if names.len() == 1 {
            assert(all[all.len() - 2] == root());
            assert(before =~= prefix + "\\"@);
            assert(text::joined(names, "\\"@) == names.last());
        } else {
            assert(all[all.len() - 2] == name_parts(names)[names.len() - 2]);
            assert(before + "\\"@ + names.last() =~= prefix + "\\"@ + (text::joined(front, "\\"@)
                + "\\"@ + names.last()));
        }
    }
}

/// The parts of a relative path made of names, the first of which is no prefix.
proof fn lemma_relative(names: Seq<Seq<char>>)
    requires
        names.len() > 0,
        are_names(names, true),
    ensures
        ({
            let t = text::joined(names, "/"@);
            &&& t.len() > 0
            &&& paths::prefix_of(t, true) is None
            &&& paths::path_parts(t, true) == name_parts(names)
            &&& t[0] == names[0][0]
        }),
{
    reveal_strlit("/");
    assert("/"@ =~= seq!['/']);
    lemma_marks();
    let set = paths::separators(true);
    let t = text::joined(names, seq!['/']);
    lemma_joined_first(names);
    let first = names[0];
    assert(is_name(first, true));
    assert(!set.contains(first[0]));
    if paths::drive_at(t, 0) {
        if first.len() >= 2 {
            assert(paths::drive_at(first, 0));
        }
        assert(false);
    }
    assert forall|i: int, k: int| 0 <= i < names.len() && 0 <= k < names[i].len() implies
        !set.contains(#[trigger] names[i][k]) by {
        assert(is_name(names[i], true));
    }
    assert forall|i: int| 0 <= i < names.len() implies (#[trigger] names[i]).len() > 0 && names[i]
        != "."@ && names[i] != ".."@ by {
        assert(is_name(names[i], true));
    }
    text::lemma_joined_pieces(names, '/', set);
    let none = Seq::<Seq<char>>::empty();
    lemma_inner_names(names, none, false);
    assert(none + names =~= names);
    assert(paths::inner_parts(none, false) + name_parts(names) =~= name_parts(names));
}

/// What names that were joined begin with: the first name, and a separator where it is short.
proof fn lemma_joined_first(names: Seq<Seq<char>>)
    requires
        names.len() > 0,
        names[0].len() > 0,
    ensures
        ({
            let t = text::joined(names, seq!['/']);
            &&& t.len() >= names[0].len()
            &&& forall|i: int| 0 <= i < names[0].len() ==> #[trigger] t[i] == names[0][i]
            &&& t.len() > names[0].len() ==> t[names[0].len() as int] == '/'
        }),
    decreases names.len(),
{
    if names.len() > 1 {
        let front = names.drop_last();
        lemma_joined_first(front);
    }
}

/// Putting a name behind a path of names gives the path with that name.
proof fn lemma_extended(path: Seq<char>, names: Seq<Seq<char>>, windows: bool)
    requires
        names.len() > 0,
        can_extend(path, names, windows),
        are_names(names, windows),
    ensures
        paths::extended(
            path_with(path, names.drop_last(), windows),
            names.last(),
            windows,
        ) == path_with(path, names, windows),
{
    lemma_marks();
    lemma_mark(windows);
    reveal_strlit("/");
    let front = names.drop_last();
    let name = names.last();
    let t = path_with(path, front, windows);
    let c = mark(windows);
    assert(is_name(names[names.len() - 1], windows));
    assert forall|i: int| 0 <= i < front.len() implies is_name(#[trigger] front[i], windows) by {
        assert(front[i] == names[i]);
    }
    lemma_reads_back(path, front, windows);
    assert(!paths::separators(windows).contains(name[0]));
    if !windows {
        assert(!text::begins(name, "/"@)) by {
            if text::begins(name, "/"@) {
                assert(name.subrange(0, 1)[0] == name[0]);
            }
        }
    }
    if is_verbatim(path, windows) {
        let own = (paths::windows_prefix(path)->0).0;
        let one = seq![name];
        assert(are_names(one, true));
        lemma_relative(one);
        assert(text::joined(one, "/"@) == name);
        let parts = paths::path_parts(t, true);
        lemma_settled_only_names(parts, one);
        assert(parts + name_parts(one) =~= seq![own, root()] + name_parts(names));
        lemma_settled_text(paths::prefix_text(path, true), own, names);
    } else {
        assert(t.len() > lead(path, windows)) by {
            if windows {
                paths::lemma_prefix_length(path);
            }
        }
        let prefix = paths::prefix_text(path, windows);
        if front.len() == 0 {
            assert(t =~= prefix + seq![c]);
            assert(t.last() == c);
            assert(text::joined(names, seq![c]) == name);
            assert(path_with(path, names, windows) =~= t + name);
        } else {
            assert(is_name(front[front.len() - 1], windows));
            lemma_joined_last(front, seq![c]);
            let last = front.last();
            assert(t.last() == last[last.len() - 1]);
            assert(!paths::separators(windows).contains(t.last()));
            assert(t + seq![c] + name =~= prefix + seq![c] + (text::joined(front, seq![c]) + seq![c]
                + name));
        }
    }
}

/// Putting the root behind a prefix.
proof fn lemma_rooted(path: Seq<char>, windows: bool)
    requires
        can_extend(path, Seq::empty(), windows),
    ensures
        paths::assembled(
            paths::prefix_text(path, windows),
            head(path, windows).push(root()),
            windows,
        ) == path_with(path, Seq::empty(), windows),
{
    lemma_marks();
    lemma_mark(windows);
    reveal_strlit("/");
    reveal_strlit("\\");
    let prefix = paths::prefix_text(path, windows);
    let none = Seq::<Seq<char>>::empty();
    let c = mark(windows);
    let all = head(path, windows).push(root());
    assert(all.drop_last() =~= head(path, windows));
    assert(path_with(path, none, windows) =~= prefix + seq![c]);
    reveal_with_fuel(paths::assembled, 3);
    if windows {
        lemma_prefix_alone(path);
        let own = head(path, true);
        assert(own.drop_last() =~= Seq::<PartView>::empty());
        assert(paths::assembled(prefix, own, true) == prefix);
        assert("\\"@.len() == 1);
        assert(paths::prefix_of("\\"@, true) is None);
        if is_verbatim(path, true) {
            let part = own[0];
            let slash = paths::path_parts("\\"@, true);
            let set = paths::separators(true);
            let blank = Seq::<char>::empty();
            assert("\\"@ =~= blank + seq!['\\'] + blank);
            text::lemma_pieces_apart(blank, '\\', blank, set);
            assert(text::pieces(blank, set) =~= seq![blank]);
            let two = seq![blank, blank];
            assert(text::pieces("\\"@, set) =~= two);
            reveal_with_fuel(paths::inner_parts, 3);
            assert(two.drop_last() =~= seq![blank]);
            assert(two.drop_last().drop_last() =~= Seq::<Seq<char>>::empty());
            assert(paths::inner_parts(two, false) =~= Seq::<PartView>::empty());
            assert(slash =~= seq![root()]);
            assert(slash.drop_last() =~= Seq::<PartView>::empty());
            reveal_with_fuel(paths::settled, 2);
            assert(paths::path_parts(prefix, true) == own);
            assert(own.take(1) =~= own);
            assert(paths::settled(own, slash) =~= seq![part, root()]);
            lemma_settled_text(prefix, part, none);
            assert(seq![part, root()] + name_parts(none) =~= seq![part, root()]);
        }
    } else {
        assert(prefix =~= Seq::<char>::empty());
        assert("/"@.subrange(0, 1) =~= "/"@);
        assert(prefix + seq![c] =~= "/"@);
    }
}

/// A prefix by itself is a path of one part, with a root where it implies one.
proof fn lemma_prefix_alone(path: Seq<char>)
    requires
        paths::windows_prefix(path) is Some,
    ensures
        ({
            let prefix = paths::prefix_text(path, true);
            &&& paths::windows_prefix(prefix) == paths::windows_prefix(path)
            &&& paths::prefix_text(prefix, true) == prefix
            &&& is_verbatim(path, true) ==> paths::path_parts(prefix, true) == head(path, true)
        }),
{
    lemma_marks();
    paths::lemma_prefix_length(path);
    let (own, n) = paths::windows_prefix(path)->0;
    let prefix = path.take(n);
    lemma_prefix_same(path, prefix);
    assert(prefix.take(n) =~= prefix);
    if own.kind.is_verbatim() {
        let set = paths::strict_separators();
        let rest = prefix.skip(n);
        assert(rest =~= Seq::<char>::empty());
        let blank = seq![Seq::<char>::empty()];
        assert(text::pieces(rest, set) =~= blank);
        assert(blank.drop_last() =~= Seq::<Seq<char>>::empty());
        reveal_with_fuel(paths::inner_parts, 2);
        assert(paths::inner_parts(blank, true) =~= Seq::<PartView>::empty());
        assert(paths::path_parts(prefix, true) =~= seq![own]);
    }
}

/// Putting a prefix, the root and names together gives the path of them.
proof fn lemma_assembled(path: Seq<char>, names: Seq<Seq<char>>, windows: bool)
    requires
        can_extend(path, names, windows),
        are_names(names, windows),
    ensures
        paths::assembled(
            paths::prefix_text(path, windows),
            parts_with(path, names, windows),
            windows,
        ) == path_with(path, names, windows),
    decreases names.len(),
{
    let start = head(path, windows).push(root());
    let all = parts_with(path, names, windows);
    if names.len() == 0 {
        assert(all =~= start);
        assert(names =~= Seq::empty());
        lemma_rooted(path, windows);
    } else {
        let front = names.drop_last();
        assert forall|i: int| 0 <= i < front.len() implies is_name(#[trigger] front[i], windows) by {
            assert(front[i] == names[i]);
        }
        lemma_assembled(path, front, windows);
        assert(all.drop_last() =~= parts_with(path, front, windows));
        assert(all.last() == paths::named(PartKind::Name, names.last()));
        lemma_extended(path, names, windows);
    }
}

/// Whether the names in a path can be names of files.
pub open spec fn has_plain_names(path: Seq<char>, windows: bool) -> bool {
    forall|i: int|
        0 <= i < paths::path_parts(path, windows).len() && (#[trigger] paths::path_parts(
            path,
            windows,
        )[i]).kind == PartKind::Name ==> is_name(paths::path_parts(path, windows)[i].name, windows)
}

/// Whether a path begins with a verbatim prefix for a server without a share.
pub open spec fn lacks_share(path: Seq<char>, windows: bool) -> bool {
    paths::prefix_of(path, windows) matches Some((prefix, _)) && prefix.kind == PartKind::VerbatimUnc
        && prefix.share.len() == 0
}

/// Whether a path holds a name.
pub open spec fn has_names(path: Seq<char>, windows: bool) -> bool {
    exists|i: int|
        0 <= i < paths::path_parts(path, windows).len() && (#[trigger] paths::path_parts(
            path,
            windows,
        )[i]).kind == PartKind::Name
}

/// An absolute path that does not go up is its prefix, the root, where it has one, and names with
/// the current directory among them.
proof fn lemma_absolute(path: Seq<char>, windows: bool) -> (r: (bool, Seq<PartView>))
    requires
        paths::is_absolute(paths::path_parts(path, windows), windows),
        !paths::goes_up(paths::path_parts(path, windows)),
        has_plain_names(path, windows),
    ensures
        windows ==> paths::windows_prefix(path) is Some,
        paths::path_parts(path, windows) == (if r.0 {
            head(path, windows).push(root()) + r.1
        } else {
            head(path, windows) + r.1
        }),
        forall|i: int|
            0 <= i < r.1.len() ==> (#[trigger] r.1[i] == paths::named(
                PartKind::Current,
                Seq::empty(),
            ) && is_verbatim(path, windows)) || (r.1[i] == paths::named(
                PartKind::Name,
                r.1[i].name,
            ) && is_name(r.1[i].name, windows)),
        !r.0 ==> is_verbatim(path, windows) && r.1.len() == 0,
        r.0 && is_verbatim(path, windows) ==> path.len() > lead(path, windows) && path[lead(
            path,
            windows,
        )] == '\\',
        r.1 == paths::inner_parts(
            text::pieces(path.skip(lead(path, windows)), marks_of(path, windows)),
            is_verbatim(path, windows),
        ),
{
    lemma_marks();
    reveal_strlit(".");
    let n = lead(path, windows);
    let set = marks_of(path, windows);
    let verbatim = is_verbatim(path, windows);
    let rest = path.skip(n);
    let pieces = text::pieces(rest, set);
    let all = paths::path_parts(path, windows);
    let inner = paths::inner_parts(pieces, verbatim);
    if windows {
        paths::lemma_prefix_length(path);
        assert(paths::windows_prefix(path) is Some) by {
            if paths::windows_prefix(path) is None && inner.len() > 0 {
                lemma_inner(pieces, verbatim, 0);
            }
        }
    } else {
        assert(rest =~= path);
    }
    let h = head(path, windows);
    let implied = windows && !verbatim && h[0].kind != PartKind::Disk;
    let rooted = implied || (rest.len() > 0 && set.contains(rest[0]));
    assert(all =~= (if rooted {
        h.push(root()) + inner
    } else {
        h + inner
    }));
    let from = if rooted {
        h.len() + 1int
    } else {
        h.len() as int
    };
    assert(!rooted ==> verbatim) by {
        if !rooted && !verbatim {
            if inner.len() > 0 {
                lemma_inner(pieces, verbatim, 0);
                assert(all[from] == inner[0]);
            }
        }
    }
    lemma_prefix_end(path, windows);
    if rest.len() > 0 {
        assert(rest[0] == path[n]);
    }
    if rest.len() > 0 && set.contains(rest[0]) {
        let tail = rest.skip(1);
        assert(rest =~= Seq::empty() + seq![rest[0]] + tail);
        text::lemma_pieces_apart(Seq::empty(), rest[0], tail, set);
        assert(text::pieces(Seq::empty(), set) =~= seq![Seq::<char>::empty()]);
        assert(pieces[0].len() == 0);
    } else if rest.len() == 0 {
        assert(rest =~= Seq::<char>::empty());
        assert(pieces =~= seq![Seq::<char>::empty()]);
        assert(pieces.drop_last() =~= Seq::<Seq<char>>::empty());
        reveal_with_fuel(paths::inner_parts, 2);
        assert(inner =~= Seq::<PartView>::empty());
    }
    assert("."@.len() == 1);
    assert forall|i: int| 0 <= i < inner.len() implies (#[trigger] inner[i] == paths::named(
        PartKind::Current,
        Seq::empty(),
    ) && verbatim) || (inner[i] == paths::named(PartKind::Name, inner[i].name) && is_name(
        inner[i].name,
        windows,
    )) by {
        lemma_inner(pieces, verbatim, i);
        assert(all[from + i] == inner[i]);
    }
    if !rooted && rest.len() > 0 {
        reveal_strlit("..");
        assert("."@[0] == '.' && ".."@[0] == '.');
        // A drive behind a verbatim prefix goes on with a slash: the first name would hold it.
        lemma_first_piece(rest, set);
        let first = pieces[0];
        assert(first[0] == rest[0]);
        lemma_inner_first(pieces, verbatim);
        assert(inner[0] == paths::named(PartKind::Name, first));
        assert(is_name(first, windows));
        assert(false);
    }
    (rooted, inner)
}

/// A text that begins with no separator has a first piece that begins as it does.
proof fn lemma_first_piece(s: Seq<char>, set: Seq<char>)
    requires
        s.len() > 0,
        !set.contains(s[0]),
    ensures
        text::pieces(s, set).len() > 0,
        text::pieces(s, set)[0].len() > 0,
        text::pieces(s, set)[0][0] == s[0],
    decreases s.len(),
{
    let front = s.drop_last();
    text::lemma_pieces_nonempty(front, set);
    if front.len() == 0 {
        assert(front =~= Seq::<char>::empty());
        assert(text::pieces(front, set) =~= seq![Seq::<char>::empty()]);
        assert(s.last() == s[0]);
    } else {
        lemma_first_piece(front, set);
    }
}

/// The first piece, where it is a name, is the first part.
proof fn lemma_inner_first(pieces: Seq<Seq<char>>, verbatim: bool)
    requires
        pieces.len() > 0,
        pieces[0].len() > 0,
        pieces[0] != "."@,
        pieces[0] != ".."@,
    ensures
        paths::inner_parts(pieces, verbatim).len() > 0,
        paths::inner_parts(pieces, verbatim)[0] == paths::named(PartKind::Name, pieces[0]),
    decreases pieces.len(),
{
    let front = pieces.drop_last();
    if front.len() == 0 {
        assert(front =~= Seq::<Seq<char>>::empty());
        assert(paths::inner_parts(front, verbatim) =~= Seq::<PartView>::empty());
    } else {
        lemma_inner_first(front, verbatim);
    }
}

/// A prefix is followed by a separator; only a drive need not be.
proof fn lemma_prefix_end(path: Seq<char>, windows: bool)
    ensures
        paths::prefix_of(path, windows) matches Some((prefix, n)) ==> {
            &&& 2 <= n <= path.len()
            &&& path.len() > n && prefix.kind != PartKind::Disk ==> (if prefix.kind.is_verbatim()
                && prefix.kind != PartKind::VerbatimDisk {
                path[n] == '\\'
            } else {
                path[n] == '\\' || path[n] == '/'
            })
        },
{
    lemma_marks();
    reveal_strlit("\\\\?\\");
    paths::lemma_prefix_length(path);
    if let Some((prefix, n)) = paths::prefix_of(path, windows) {
        let marks = paths::separators(true);
        let strict = paths::strict_separators();
        if path.len() > n && prefix.kind != PartKind::Disk {
            match prefix.kind {
                PartKind::VerbatimUnc => {
                    paths::lemma_word_stop(path, 8, strict);
                    let e = 8 + prefix.name.len() as int;
                    lemma_word_ended(path, 8, strict);
                    if prefix.share.len() > 0 {
                        paths::lemma_word_stop(path, e + 1, strict);
                        lemma_word_ended(path, e + 1, strict);
                    }
                },
                PartKind::Verbatim => {
                    paths::lemma_word_stop(path, 4, strict);
                    lemma_word_ended(path, 4, strict);
                },
                PartKind::Device => {
                    paths::lemma_word_stop(path, 4, marks);
                    lemma_word_ended(path, 4, marks);
                },
                PartKind::Unc => {
                    paths::lemma_word_stop(path, 2, marks);
                    let e = 2 + prefix.name.len() as int;
                    paths::lemma_word_stop(path, e + 1, marks);
                    lemma_word_ended(path, e + 1, marks);
                },
                _ => {},
            }
        }
    }
}

/// A part of a path: the prefix, the root, the directory above, the current one, or a name, which
/// holds no separator.
proof fn lemma_part(path: Seq<char>, windows: bool, i: int)
    requires
        0 <= i < paths::path_parts(path, windows).len(),
    ensures
        ({
            let part = paths::path_parts(path, windows)[i];
            if i < head(path, windows).len() {
                part == head(path, windows)[i] && part.kind.is_prefix()
            } else {
                ||| part == root()
                ||| part == paths::named(PartKind::Parent, Seq::empty())
                ||| part == paths::named(PartKind::Current, Seq::empty())
                ||| part == paths::named(PartKind::Name, part.name) && is_piece(
                    part.name,
                    marks_of(path, windows),
                )
            }
        }),
{
    let n = lead(path, windows);
    let set = marks_of(path, windows);
    let h = head(path, windows);
    let verbatim = is_verbatim(path, windows);
    if windows {
        paths::lemma_prefix_length(path);
    }
    let rest = path.skip(n);
    if h.len() == 0 {
        assert(rest =~= path);
    }
    let pieces = text::pieces(rest, set);
    let inner = paths::inner_parts(pieces, verbatim);
    let all = paths::path_parts(path, windows);
    let from = all.len() - inner.len();
    assert(all =~= h + inner || all =~= h.push(root()) + inner);
    if i >= from {
        assert(all[i] == inner[i - from]);
        lemma_inner(pieces, verbatim, i - from);
        let name = inner[i - from].name;
        if inner[i - from].kind == PartKind::Name {
            let k = choose|k: int| 0 <= k < pieces.len() && pieces[k] == name;
            text::lemma_pieces_chars(rest, set, k);
            assert forall|j: int| 0 <= j < name.len() implies !set.contains(#[trigger] name[j]) by {
                assert(!set.contains(pieces[k][j]));
            }
        }
    }
}

/// Whether a text is a name between separators.
spec fn is_piece(name: Seq<char>, set: Seq<char>) -> bool {
    &&& name.len() > 0
    &&& name != "."@
    &&& name != ".."@
    &&& forall|i: int| 0 <= i < name.len() ==> !set.contains(#[trigger] name[i])
}

/// Whether a part behind a prefix does not go up, and is a name without a backslash, where it is
/// one.
spec fn is_tame(part: PartView) -> bool {
    match part.kind {
        PartKind::Root => true,
        PartKind::Current => true,
        PartKind::Name => is_piece(part.name, paths::strict_separators()),
        _ => false,
    }
}

/// Whether parts are a prefix and what does not go up.
spec fn are_tame(parts: Seq<PartView>, own: PartView) -> bool {
    &&& parts.len() > 0
    &&& parts[0] == own
    &&& own.kind.is_verbatim()
    &&& forall|i: int| 1 <= i < parts.len() ==> is_tame(#[trigger] parts[i])
}

/// Putting parts without a prefix to such parts gives such parts.
proof fn lemma_settled_tame(parts: Seq<PartView>, more: Seq<PartView>, own: PartView)
    requires
        are_tame(parts, own),
        forall|i: int|
            0 <= i < more.len() ==> is_tame(#[trigger] more[i]) || more[i].kind == PartKind::Parent,
    ensures
        are_tame(paths::settled(parts, more), own),
    decreases more.len(),
{
    if more.len() > 0 {
        let front = more.drop_last();
        assert forall|i: int| 0 <= i < front.len() implies is_tame(#[trigger] front[i])
            || front[i].kind == PartKind::Parent by {
            assert(front[i] == more[i]);
        }
        lemma_settled_tame(parts, front, own);
        assert(more[more.len() - 1] == more.last());
        let before = paths::settled(parts, front);
        let after = paths::settled(parts, more);
        assert forall|i: int| 1 <= i < after.len() implies is_tame(#[trigger] after[i]) by {
            if i < before.len() {
                assert(is_tame(before[i]));
            }
        }
    }
}

/// The text of such parts goes on behind the prefix with a backslash, and does not go up.
proof fn lemma_tame_text(prefix: Seq<char>, parts: Seq<PartView>, own: PartView) -> (u: Seq<char>)
    requires
        are_tame(parts, own),
    ensures
        paths::settled_text(prefix, parts) == prefix + u,
        u.len() > 0 ==> u[0] == '\\',
        parts.len() > 1 ==> u.len() > 0,
        !text::pieces(u, paths::strict_separators()).contains(".."@),
        parts.last().kind == PartKind::Root ==> text::pieces(u, paths::strict_separators()).last()
            == Seq::<char>::empty(),
    decreases parts.len(),
{
    lemma_marks();
    lemma_mark(true);
    reveal_strlit("\\");
    reveal_strlit(".");
    reveal_strlit("..");
    assert("."@.len() == 1 && ".."@.len() == 2);
    let strict = paths::strict_separators();
    let blank = Seq::<char>::empty();
    assert(text::pieces(blank, strict) =~= seq![blank]);
    let front = parts.drop_last();
    let last = parts.last();
    if parts.len() == 1 {
        reveal_with_fuel(paths::settled_text, 2);
        assert(front =~= Seq::<PartView>::empty());
        assert(paths::settled_text(prefix, parts) =~= prefix + blank);
        blank
    } else {
        assert(is_tame(parts[parts.len() - 1]));
        assert forall|i: int| 1 <= i < front.len() implies is_tame(#[trigger] front[i]) by {
            assert(front[i] == parts[i]);
        }
        let before = lemma_tame_text(prefix, front, own);
        let pieces = text::pieces(before, strict);
        text::lemma_pieces_nonempty(before, strict);
        let text = paths::part_text(last, prefix, true);
        assert(parts[parts.len() - 2] == front.last());
        assert(is_tame(front.last()) || front.last() == own) by {
            assert(front[front.len() - 1] == parts[parts.len() - 2]);
        }
        if last.kind == PartKind::Root {
            let u = before + seq!['\\'];
            assert(u =~= before + seq!['\\'] + blank);
            text::lemma_pieces_apart(before, '\\', blank, strict);
            lemma_without(pieces, blank);
            assert(paths::settled_text(prefix, parts) =~= prefix + u);
            u
        } else {
            assert(text != ".."@);
            assert forall|i: int| 0 <= i < text.len() implies !strict.contains(#[trigger] text[i]) by {
                if last.kind == PartKind::Current {
                    assert(text[i] == '.');
                }
            }
            if front.last().kind == PartKind::Root {
                let u = before + text;
                text::lemma_pieces_appended(before, text, strict);
                assert(blank + text =~= text);
                let above = pieces.drop_last();
                assert(!above.contains(".."@)) by {
                    if above.contains(".."@) {
                        let k = choose|k: int| 0 <= k < above.len() && above[k] == ".."@;
                        assert(pieces[k] == ".."@);
                    }
                }
                lemma_without(above, text);
                assert(above.push(text) =~= above + seq![text]);
                assert(paths::settled_text(prefix, parts) =~= prefix + u);
                u
            } else {
                let u = before + seq!['\\'] + text;
                text::lemma_pieces_apart(before, '\\', text, strict);
                text::lemma_pieces_appended(blank, text, strict);
                assert(blank + text =~= text);
                assert(text::pieces(text, strict) =~= seq![text]);
                lemma_without(pieces, text);
                assert(paths::settled_text(prefix, parts) =~= prefix + u);
                u
            }
        }
    }
}

/// Pieces without the one that goes up stay without it when another piece follows.
proof fn lemma_without(pieces: Seq<Seq<char>>, last: Seq<char>)
    requires
        !pieces.contains(".."@),
        last != ".."@,
    ensures
        !(pieces + seq![last]).contains(".."@),
{
    let all = pieces + seq![last];
    if all.contains(".."@) {
        let k = choose|k: int| 0 <= k < all.len() && all[k] == ".."@;
        if k < pieces.len() {
            assert(pieces[k] == ".."@);
        }
    }
}

/// What stands behind a backslash goes up nowhere, where the whole does not.
proof fn lemma_behind(u: Seq<char>, from: int)
    requires
        !text::pieces(u, paths::strict_separators()).contains(".."@),
        0 <= from <= u.len(),
        from < u.len() ==> u[from] == '\\',
    ensures
        !text::pieces(u.skip(from), paths::strict_separators()).contains(".."@),
{
    reveal_strlit("..");
    lemma_marks();
    let strict = paths::strict_separators();
    let blank = Seq::<char>::empty();
    assert(text::pieces(blank, strict) =~= seq![blank]);
    let rest = u.skip(from);
    assert(".."@.len() == 2);
    if from < u.len() {
        let above = u.take(from);
        let below = u.skip(from + 1);
        assert(u =~= above + seq!['\\'] + below);
        text::lemma_pieces_apart(above, '\\', below, strict);
        assert(rest =~= blank + seq!['\\'] + below);
        text::lemma_pieces_apart(blank, '\\', below, strict);
        let pieces = text::pieces(below, strict);
        let all = text::pieces(above, strict) + pieces;
        if text::pieces(rest, strict).contains(".."@) {
            let now = seq![blank] + pieces;
            let k = choose|k: int| 0 <= k < now.len() && now[k] == ".."@;
            assert(k > 0);
            assert(all[text::pieces(above, strict).len() + k - 1] == ".."@);
        }
    } else {
        assert(rest =~= blank);
        if seq![blank].contains(".."@) {
            assert(seq![blank][0] == ".."@);
        }
    }
}

/// Whether a path has a verbatim prefix to which more can be put, and does not go up.
spec fn stays_down(path: Seq<char>) -> bool {
    &&& is_verbatim(path, true)
    &&& (paths::windows_prefix(path)->0).0.kind == PartKind::Verbatim ==> (paths::windows_prefix(
        path,
    )->0).0.name != "UNC"@
    &&& !paths::goes_up(paths::path_parts(path, true))
}

/// Putting a part without a prefix behind such a path gives such a path.
proof fn lemma_stays_down(path: Seq<char>, part: Seq<char>)
    requires
        stays_down(path),
        part.len() > 0,
        paths::windows_prefix(part) is None,
    ensures
        stays_down(paths::extended(path, part, true)),
{
    lemma_marks();
    let strict = paths::strict_separators();
    let (own, n) = paths::windows_prefix(path)->0;
    let prefix = paths::prefix_text(path, true);
    paths::lemma_prefix_length(path);
    let parts = paths::path_parts(path, true);
    let more = paths::path_parts(part, true);
    assert(are_tame(parts, own)) by {
        assert(parts[0] == own);
        assert forall|i: int| 1 <= i < parts.len() implies is_tame(#[trigger] parts[i]) by {
            lemma_part(path, true, i);
        }
    }
    assert forall|i: int| 0 <= i < more.len() implies is_tame(#[trigger] more[i]) || more[i].kind
        == PartKind::Parent by {
        lemma_part(part, true, i);
        let name = more[i].name;
        if more[i].kind == PartKind::Name {
            assert forall|k: int| 0 <= k < name.len() implies !strict.contains(#[trigger] name[k]) by {
                assert(!paths::separators(true).contains(name[k]));
            }
        }
    }
    lemma_settled_tame(parts, more, own);
    let u = lemma_tame_text(prefix, paths::settled(parts, more), own);
    let made = paths::extended(path, part, true);
    assert(made == prefix + u);
    lemma_grown(path, u);
}

/// A verbatim prefix followed by a backslash and what does not go up is a path that does not go
/// up, though the first name may come to be the share that the prefix lacks.
proof fn lemma_grown(path: Seq<char>, u: Seq<char>)
    requires
        stays_down(path),
        u.len() > 0 ==> u[0] == '\\',
        !text::pieces(u, paths::strict_separators()).contains(".."@),
    ensures
        stays_down(paths::prefix_text(path, true) + u),
{
    lemma_marks();
    let strict = paths::strict_separators();
    let (own, n) = paths::windows_prefix(path)->0;
    paths::lemma_prefix_length(path);
    let made = paths::prefix_text(path, true) + u;
    assert forall|i: int| 0 <= i < n implies #[trigger] made[i] == path[i] by {}
    if u.len() > 0 {
        assert(made[n] == u[0]);
    }
    let m = if lacks_share(path, true) {
        lemma_share_grown(path, u)
    } else {
        lemma_prefix_same(path, made);
        n
    };
    assert(made.skip(m) =~= u.skip(m - n));
    lemma_behind(u, m - n);
    let rest = made.skip(m);
    let pieces = text::pieces(rest, strict);
    let all = paths::path_parts(made, true);
    if paths::goes_up(all) {
        let i = choose|i: int| 0 <= i < all.len() && (#[trigger] all[i]).kind == PartKind::Parent;
        let inner = paths::inner_parts(pieces, true);
        let from = all.len() - inner.len();
        paths::lemma_prefix_length(made);
        if i >= from {
            assert(all[i] == inner[i - from]);
            lemma_inner(pieces, true, i - from);
        }
        assert(false);
    }
}

/// The prefix for a server without a share, with more behind it.
proof fn lemma_share_grown(path: Seq<char>, u: Seq<char>) -> (m: int)
    requires
        lacks_share(path, true),
        u.len() > 0 ==> u[0] == '\\',
    ensures
        ({
            let n = (paths::windows_prefix(path)->0).1;
            let made = paths::prefix_text(path, true) + u;
            &&& n <= m <= made.len()
            &&& m < made.len() ==> made[m] == '\\'
            &&& paths::windows_prefix(made) is Some
            &&& (paths::windows_prefix(made)->0).0.kind == PartKind::VerbatimUnc
            &&& (paths::windows_prefix(made)->0).1 == m
        }),
{
    reveal_strlit("\\\\?\\");
    reveal_strlit("UNC");
    lemma_marks();
    let strict = paths::strict_separators();
    let marks = paths::separators(true);
    let (own, n) = paths::windows_prefix(path)->0;
    paths::lemma_prefix_length(path);
    let made = paths::prefix_text(path, true) + u;
    assert(n >= 8) by {
        paths::lemma_word_stop(path, 8, strict);
    }
    assert forall|i: int| 0 <= i < n implies #[trigger] made[i] == path[i] by {}
    assert(made.subrange(0, 4) =~= path.subrange(0, 4));
    assert(made.subrange(4, 7) =~= path.subrange(4, 7));
    assert(made[7] == path[7] && made[0] == path[0] && made[1] == path[1]);
    paths::lemma_word_stop(path, 8, strict);
    if u.len() > 0 {
        assert(made[n] == u[0]);
    }
    lemma_word_same(path, made, 8, strict);
    if n + 1 <= made.len() {
        paths::lemma_word_stop(made, n + 1, strict);
        let share = paths::word(made, n + 1, strict);
        if n + 1 + share.len() < made.len() {
            lemma_word_ended(made, n + 1, strict);
        }
    }
    (paths::windows_prefix(made)->0).1
}

/// Whether no name in a path has a prefix of its own, such as a drive.
pub open spec fn has_no_inner_prefix(path: Seq<char>, windows: bool) -> bool {
    forall|i: int|
        0 <= i < paths::path_parts(path, windows).len() && (#[trigger] paths::path_parts(
            path,
            windows,
        )[i]).kind == PartKind::Name ==> paths::prefix_of(
            paths::path_parts(path, windows)[i].name,
            windows,
        ) is None
}

/// What is put together of the parts of a path with a verbatim prefix does not go up.
proof fn lemma_assembled_down(path: Seq<char>, parts: Seq<PartView>)
    requires
        is_verbatim(path, true),
        (paths::windows_prefix(path)->0).0.kind == PartKind::Verbatim ==> (paths::windows_prefix(
            path,
        )->0).0.name != "UNC"@,
        parts.len() > 0,
        parts[0] == (paths::windows_prefix(path)->0).0,
        forall|i: int|
            1 <= i < parts.len() ==> #[trigger] parts[i] == root() || parts[i].kind
                == PartKind::Name && parts[i].name.len() > 0 && paths::windows_prefix(parts[i].name)
                is None,
    ensures
        stays_down(paths::assembled(paths::prefix_text(path, true), parts, true)),
    decreases parts.len(),
{
    let prefix = paths::prefix_text(path, true);
    let front = parts.drop_last();
    let last = parts.last();
    if parts.len() == 1 {
        reveal_with_fuel(paths::assembled, 2);
        paths::lemma_prefix_length(path);
        lemma_prefix_alone(path);
        assert(front =~= Seq::<PartView>::empty());
        assert(paths::assembled(prefix, parts, true) == prefix);
    } else {
        assert forall|i: int| 1 <= i < front.len() implies #[trigger] front[i] == root()
            || front[i].kind == PartKind::Name && front[i].name.len() > 0 && paths::windows_prefix(
            front[i].name,
        ) is None by {
            assert(front[i] == parts[i]);
        }
        lemma_assembled_down(path, front);
        assert(last == parts[parts.len() - 1]);
        let text = paths::part_text(last, prefix, true);
        assert(text.len() > 0 && paths::windows_prefix(text) is None) by {
            lemma_mark(true);
            if last == root() {
                assert(text.len() == 1);
            }
        }
        lemma_stays_down(paths::assembled(prefix, front, true), text);
    }
}

/// Leaving the current directory out leaves each other part, in order.
proof fn lemma_among(parts: Seq<PartView>, i: int)
    requires
        0 <= i < paths::without_current(parts).len(),
    ensures
        parts.contains(paths::without_current(parts)[i]),
        paths::without_current(parts)[i].kind != PartKind::Current,
    decreases parts.len(),
{
    if parts.len() > 0 {
        let front = parts.drop_last();
        let before = paths::without_current(front);
        if i < before.len() {
            lemma_among(front, i);
            let k = choose|k: int| 0 <= k < front.len() && front[k] == before[i];
            assert(parts[k] == before[i]);
        } else {
            assert(parts[parts.len() - 1] == paths::without_current(parts)[i]);
        }
    }
}

/// A generated path lies below its workspace, and does not go up. Left out are paths in which a
/// name has a prefix of its own.
pub proof fn law_generated_path_below(workspace: Seq<char>, path: Seq<char>, windows: bool)
    requires
        has_no_inner_prefix(path, windows),
        paths::generated_path(workspace, path, windows) is Ok,
    ensures
        ({
            let made = paths::path_parts(
                paths::generated_path(workspace, path, windows)->Ok_0,
                windows,
            );
            &&& paths::lies_below(made, paths::path_parts(workspace, windows))
            &&& !paths::goes_up(made)
        }),
{
    lemma_marks();
    let all = paths::path_parts(path, windows);
    if is_verbatim(path, windows) {
        lemma_verbatim_below(path);
    } else {
        assert(has_plain_names(path, windows)) by {
            assert forall|i: int|
                0 <= i < all.len() && (#[trigger] all[i]).kind == PartKind::Name implies is_name(
                all[i].name,
                windows,
            ) by {
                lemma_part(path, windows, i);
            }
        }
        law_generated_path_kept(workspace, path, windows);
    }
}

/// A path with a verbatim prefix, put together anew, does not go up.
proof fn lemma_verbatim_below(path: Seq<char>)
    requires
        is_verbatim(path, true),
        has_no_inner_prefix(path, true),
        !paths::goes_up(paths::path_parts(path, true)),
    ensures
        !paths::goes_up(
            paths::path_parts(
                paths::assembled(
                    paths::prefix_text(path, true),
                    paths::without_current(paths::path_parts(path, true)),
                    true,
                ),
                true,
            ),
        ),
{
    reveal_strlit("UNC");
    reveal_strlit("\\\\?\\");
    lemma_marks();
    let all = paths::path_parts(path, true);
    let prefix = paths::prefix_text(path, true);
    let (own, n) = paths::windows_prefix(path)->0;
    paths::lemma_prefix_length(path);
    let rest = path.skip(n);
    let inner = paths::rest_parts(rest, paths::strict_separators(), true, false);
    let one = seq![own];
    assert(paths::without_current(one) =~= one) by {
        reveal_with_fuel(paths::without_current, 2);
        assert(one.drop_last() =~= Seq::<PartView>::empty());
    }
    lemma_without_current(one, inner);
    let parts = paths::without_current(all);
    assert(parts =~= one + paths::without_current(inner));
    assert forall|i: int| 1 <= i < parts.len() implies #[trigger] parts[i] == root()
        || parts[i].kind == PartKind::Name && parts[i].name.len() > 0 && paths::windows_prefix(
        parts[i].name,
    ) is None by {
        lemma_among(inner, i - 1);
        let part = parts[i];
        let k = choose|k: int| 0 <= k < inner.len() && inner[k] == part;
        assert(all[k + 1] == part);
        lemma_part(path, true, k + 1);
    }
    if path.len() == n {
        lemma_prefix_alone(path);
        assert(path.take(n) =~= path);
        assert(all =~= one);
        reveal_with_fuel(paths::assembled, 2);
        assert(one.drop_last() =~= Seq::<PartView>::empty());
        assert(paths::assembled(prefix, one, true) == prefix);
    } else {
        assert(own.kind == PartKind::Verbatim ==> own.name != "UNC"@) by {
            if own.kind == PartKind::Verbatim && own.name == "UNC"@ {
                lemma_prefix_end(path, true);
                paths::lemma_word_stop(path, 4, paths::strict_separators());
                assert("UNC"@.len() == 3);
                assert(path.subrange(4, 7) =~= own.name);
            }
        }
        lemma_assembled_down(path, parts);
    }
}

/// A generated path has the parts of the text that it was made of, but for the current directory,
/// and does not go up; and it is accepted exactly where these lie below the workspace. Left out are
/// paths with names that no file can have, and names on a server without a share behind a verbatim
/// prefix.
pub proof fn law_generated_path_kept(workspace: Seq<char>, path: Seq<char>, windows: bool)
    requires
        paths::is_absolute(paths::path_parts(path, windows), windows),
        !paths::goes_up(paths::path_parts(path, windows)),
        has_plain_names(path, windows),
        lacks_share(path, windows) ==> !has_names(path, windows),
    ensures
        ({
            let parts = paths::without_current(paths::path_parts(path, windows));
            let made = paths::generated_path(workspace, path, windows);
            &&& made is Ok == paths::lies_below(parts, paths::path_parts(workspace, windows))
            &&& made is Ok ==> paths::path_parts(made->Ok_0, windows) == parts
            &&& !paths::goes_up(parts)
        }),
{
    let all = paths::path_parts(path, windows);
    let prefix = paths::prefix_text(path, windows);
    let (rooted, inner) = lemma_absolute(path, windows);
    let names = lemma_only_names(inner);
    let h = head(path, windows);
    let parts = paths::without_current(all);
    assert(paths::without_current(h) =~= h) by {
        reveal_with_fuel(paths::without_current, 2);
        if windows {
            paths::lemma_prefix_length(path);
            assert(h.drop_last() =~= Seq::<PartView>::empty());
        }
    }
    assert(are_names(names, windows)) by {
        assert forall|i: int| 0 <= i < names.len() implies is_name(#[trigger] names[i], windows) by {
            let k = choose|k: int|
                0 <= k < inner.len() && inner[k] == paths::named(PartKind::Name, names[i]);
            assert(inner[k].name == names[i]);
        }
    }
    if rooted {
        let start = h.push(root());
        assert(names.len() > 0 ==> has_names(path, windows)) by {
            if names.len() > 0 {
                let k = choose|k: int|
                    0 <= k < inner.len() && inner[k] == paths::named(PartKind::Name, names[0]);
                assert(all[start.len() + k].kind == PartKind::Name);
            }
        }
        lemma_without_current(start, inner);
        assert(start.drop_last() =~= h);
        assert(paths::without_current(start) =~= start);
        assert(parts == parts_with(path, names, windows));
        lemma_assembled(path, names, windows);
        lemma_reads_back(path, names, windows);
    } else {
        lemma_without_current(h, inner);
        assert(inner =~= Seq::<PartView>::empty());
        assert(all =~= h);
        assert(parts =~= h);
        lemma_prefix_alone(path);
        reveal_with_fuel(paths::assembled, 2);
        assert(h.drop_last() =~= Seq::<PartView>::empty());
        assert(paths::assembled(prefix, h, windows) == prefix) by {
            paths::lemma_prefix_length(path);
        }
    }
    if paths::goes_up(parts) {
        let i = choose|i: int|
            0 <= i < parts.len() && (#[trigger] parts[i]).kind == PartKind::Parent;
        if rooted {
            let start = h.push(root());
            if i >= start.len() {
                assert(parts[i] == name_parts(names)[i - start.len()]);
            } else if i < h.len() {
                assert(parts[i] == h[i]);
                assert(all[i] == h[i]);
            } else {
                assert(parts[i] == root());
            }
        } else {
            assert(all[i] == parts[i]);
        }
        assert(false);
    }
}

/// A path made of a workspace and names below it is accepted, and its parts are those of the
/// workspace and the names. Left out are workspaces with names that no file can have, and behind a
/// verbatim prefix those with the current directory in them, without a share, without a root, or
/// with a backslash behind their last name.
pub proof fn law_names_below_accepted(
    workspace: Seq<char>,
    names: Seq<Seq<char>>,
    windows: bool,
)
    requires
        paths::is_absolute(paths::path_parts(workspace, windows), windows),
        !paths::goes_up(paths::path_parts(workspace, windows)),
        has_plain_names(workspace, windows),
        is_verbatim(workspace, windows) ==> {
            let parts = paths::path_parts(workspace, windows);
            &&& !lacks_share(workspace, windows)
            &&& parts.last().kind == PartKind::Root || (parts.last().kind == PartKind::Name
                && workspace.last() != '\\')
            &&& paths::without_current(parts) == parts
        },
        names.len() > 0,
        are_names(names, windows),
    ensures
        ({
            let path = workspace + "/"@ + text::joined(names, "/"@);
            let made = paths::generated_path(workspace, path, windows);
            &&& made is Ok
            &&& paths::path_parts(made->Ok_0, windows) == paths::path_parts(workspace, windows)
                + name_parts(names)
        }),
{
    let first = paths::path_parts(workspace, windows);
    let path = workspace + "/"@ + text::joined(names, "/"@);
    let parts = first + name_parts(names);
    assert(parts.take(first.len() as int) =~= first);
    if is_verbatim(workspace, windows) {
        if first.last().kind == PartKind::Root {
            lemma_root_accepted(workspace, names);
        } else {
            lemma_verbatim_accepted(workspace, names);
        }
    } else {
        lemma_names_follow(workspace, names, windows);
        assert(paths::without_current(parts) == parts) by {
            lemma_without_current(first, name_parts(names));
            lemma_names_stay(names);
            let (rooted, inner) = lemma_absolute(workspace, windows);
            let own = lemma_only_names(inner);
            assert(inner =~= name_parts(own));
            lemma_names_stay(own);
            let h = head(workspace, windows);
            let start = h.push(root());
            lemma_without_current(start, inner);
            reveal_with_fuel(paths::without_current, 3);
            assert(start.drop_last() =~= h);
            if windows {
                paths::lemma_prefix_length(workspace);
                assert(h.drop_last() =~= Seq::<PartView>::empty());
            }
            assert(paths::without_current(start) =~= start);
        }
        assert(!paths::goes_up(parts)) by {
            if paths::goes_up(parts) {
                let i = choose|i: int|
                    0 <= i < parts.len() && (#[trigger] parts[i]).kind == PartKind::Parent;
                if i < first.len() {
                    assert(first[i].kind == PartKind::Parent);
                } else {
                    assert(parts[i] == name_parts(names)[i - first.len()]);
                }
            }
        }
        assert(has_plain_names(path, windows)) by {
            assert forall|i: int|
                0 <= i < parts.len() && (#[trigger] parts[i]).kind == PartKind::Name implies is_name(
                parts[i].name,
                windows,
            ) by {
                if i < first.len() {
                    assert(first[i] == parts[i]);
                } else {
                    assert(parts[i] == name_parts(names)[i - first.len()]);
                    assert(is_name(names[i - first.len()], windows));
                }
            }
        }
        assert(paths::is_absolute(parts, windows)) by {
            assert(parts[0] == first[0]);
            if first.len() > 1 {
                assert(parts[1] == first[1]);
            }
        }
        assert(!lacks_share(path, windows));
        law_generated_path_kept(workspace, path, windows);
    }
}

/// Names are no current directory.
proof fn lemma_names_stay(names: Seq<Seq<char>>)
    ensures
        paths::without_current(name_parts(names)) == name_parts(names),
    decreases names.len(),
{
    if names.len() > 0 {
        let front = names.drop_last();
        lemma_names_stay(front);
        assert(name_parts(names).drop_last() =~= name_parts(front));
        assert(name_parts(front).push(name_parts(names).last()) =~= name_parts(names));
    } else {
        assert(name_parts(names) =~= Seq::<PartView>::empty());
    }
}

/// What follows an absolute path behind a slash leaves its prefix as it is, where that is not
/// verbatim.
proof fn lemma_prefix_follows(workspace: Seq<char>, tail: Seq<char>, windows: bool)
    requires
        paths::is_absolute(paths::path_parts(workspace, windows), windows),
        !paths::goes_up(paths::path_parts(workspace, windows)),
        has_plain_names(workspace, windows),
        !is_verbatim(workspace, windows),
    ensures
        windows ==> paths::windows_prefix(workspace) is Some,
        paths::prefix_of(workspace + seq!['/'] + tail, windows) == paths::prefix_of(
            workspace,
            windows,
        ),
{
    if windows {
        lemma_marks();
        assert(paths::windows_prefix(workspace) is Some) by {
            let (rooted, inner) = lemma_absolute(workspace, windows);
        }
        let path = workspace + seq!['/'] + tail;
        let (own, n) = paths::windows_prefix(workspace)->0;
        lemma_prefix_end(workspace, windows);
        if own.kind == PartKind::Disk {
            lemma_disk_root(workspace);
        }
        if workspace.len() > n {
            assert(path[n] == workspace[n]);
        } else {
            assert(path[n] == '/');
        }
        lemma_prefix_same(workspace, path);
    }
}

/// Names behind a path that has no verbatim prefix are its last parts.
#[verifier::rlimit(30)]
proof fn lemma_names_follow(workspace: Seq<char>, names: Seq<Seq<char>>, windows: bool)
    requires
        paths::is_absolute(paths::path_parts(workspace, windows), windows),
        !paths::goes_up(paths::path_parts(workspace, windows)),
        has_plain_names(workspace, windows),
        !is_verbatim(workspace, windows),
        names.len() > 0,
        are_names(names, windows),
    ensures
        ({
            let path = workspace + "/"@ + text::joined(names, "/"@);
            &&& paths::path_parts(path, windows) == paths::path_parts(workspace, windows)
                + name_parts(names)
            &&& paths::prefix_of(path, windows) == paths::prefix_of(workspace, windows)
        }),
{
    reveal_strlit("/");
    assert("/"@ =~= seq!['/']);
    lemma_marks();
    let n = lead(workspace, windows);
    let set = paths::separators(windows);
    let tail = text::joined(names, seq!['/']);
    let path = workspace + "/"@ + tail;
    assert(0 <= n <= workspace.len()) by {
        lemma_prefix_end(workspace, windows);
    }
    lemma_prefix_follows(workspace, tail, windows);
    let rest = workspace.skip(n);
    assert(path.skip(n) =~= rest + seq!['/'] + tail);
    text::lemma_pieces_apart(rest, '/', tail, set);
    assert forall|i: int, k: int| 0 <= i < names.len() && 0 <= k < names[i].len() implies
        !set.contains(#[trigger] names[i][k]) by {
        assert(is_name(names[i], windows));
    }
    assert forall|i: int| 0 <= i < names.len() implies (#[trigger] names[i]).len() > 0 && names[i]
        != "."@ && names[i] != ".."@ by {
        assert(is_name(names[i], windows));
    }
    text::lemma_joined_pieces(names, '/', set);
    lemma_inner_names(names, text::pieces(rest, set), false);
    if rest.len() > 0 {
        assert(path.skip(n)[0] == rest[0]);
    } else {
        assert(path.skip(n)[0] == '/');
    }
    if windows {
        let own = (paths::windows_prefix(workspace)->0).0;
        if own.kind == PartKind::Disk {
            lemma_disk_root(workspace);
        }
    } else {
        assert(workspace.skip(0) =~= workspace);
        assert(path.skip(0) =~= path);
        lemma_unix_root(workspace);
    }
    assert(paths::path_parts(path, windows) =~= paths::path_parts(workspace, windows) + name_parts(
        names,
    ));
}

/// An absolute path with a drive has a separator behind it.
proof fn lemma_disk_root(path: Seq<char>)
    requires
        paths::is_absolute(paths::path_parts(path, true), true),
        paths::windows_prefix(path) matches Some((prefix, _)) && prefix.kind == PartKind::Disk,
    ensures
        path.len() > 2,
        paths::separators(true).contains(path[2]),
{
    paths::lemma_prefix_length(path);
    let (own, n) = paths::windows_prefix(path)->0;
    let all = paths::path_parts(path, true);
    let rest = path.skip(n);
    let set = paths::separators(true);
    let inner = paths::inner_parts(text::pieces(rest, set), false);
    if !(rest.len() > 0 && set.contains(rest[0])) {
        assert(all =~= seq![own] + inner);
        if inner.len() > 0 {
            assert(all[1] == inner[0]);
            lemma_inner(text::pieces(rest, set), false, 0);
        }
    }
    assert(rest[0] == path[n]);
}

/// An absolute path elsewhere begins with a separator.
proof fn lemma_unix_root(path: Seq<char>)
    requires
        paths::is_absolute(paths::path_parts(path, false), false),
    ensures
        path.len() > 0,
        paths::separators(false).contains(path[0]),
{
    let set = paths::separators(false);
    let inner = paths::inner_parts(text::pieces(path, set), false);
    if !(path.len() > 0 && set.contains(path[0])) {
        if inner.len() > 0 {
            lemma_inner(text::pieces(path, set), false, 0);
        }
    }
}

/// Names behind a workspace with a verbatim prefix are worked out of its last name.
#[verifier::rlimit(40)]
proof fn lemma_verbatim_accepted(workspace: Seq<char>, names: Seq<Seq<char>>)
    requires
        paths::is_absolute(paths::path_parts(workspace, true), true),
        !paths::goes_up(paths::path_parts(workspace, true)),
        has_plain_names(workspace, true),
        is_verbatim(workspace, true),
        !lacks_share(workspace, true),
        workspace.last() != '\\',
        paths::path_parts(workspace, true).last().kind == PartKind::Name,
        paths::without_current(paths::path_parts(workspace, true)) == paths::path_parts(
            workspace,
            true,
        ),
        names.len() > 0,
        are_names(names, true),
    ensures
        ({
            let path = workspace + "/"@ + text::joined(names, "/"@);
            let made = paths::generated_path(workspace, path, true);
            &&& made is Ok
            &&& paths::path_parts(made->Ok_0, true) == paths::path_parts(workspace, true)
                + name_parts(names)
        }),
{
    reveal_strlit("/");
    assert("/"@ =~= seq!['/']);
    lemma_marks();
    let first = paths::path_parts(workspace, true);
    let (rooted, inner) = lemma_absolute(workspace, true);
    let n = lead(workspace, true);
    let strict = paths::strict_separators();
    let own = lemma_verbatim_names(workspace);
    let h = head(workspace, true);
    let start = h.push(root());
    let w = own.last();
    let above = own.drop_last();
    let tail = text::joined(names, seq!['/']);
    let path = workspace + "/"@ + tail;
    let whole = w + seq!['/'] + tail;
    let longer = above.push(whole);
    // The parts of the path: those of the workspace, with all names in the last one.
    lemma_verbatim_path(workspace, own, names);
    let parts = paths::path_parts(path, true);
    assert(parts == start + name_parts(longer));
    assert(paths::windows_prefix(path) == paths::windows_prefix(workspace));
    let prefix = paths::prefix_text(path, true);
    assert(prefix == paths::prefix_text(workspace, true)) by {
        paths::lemma_prefix_length(workspace);
        assert(path.take(n) =~= workspace.take(n));
    }
    assert(paths::is_absolute(parts, true)) by {
        assert(parts[0] == first[0]);
    }
    assert(!paths::goes_up(parts)) by {
        if paths::goes_up(parts) {
            let i = choose|i: int|
                0 <= i < parts.len() && (#[trigger] parts[i]).kind == PartKind::Parent;
            if i >= start.len() {
                assert(parts[i] == name_parts(longer)[i - start.len()]);
            } else if i < h.len() {
                assert(parts[i] == h[i]);
            } else {
                assert(parts[i] == root());
            }
        }
    }
    assert(paths::without_current(parts) == parts) by {
        lemma_without_current(start, name_parts(longer));
        lemma_names_stay(longer);
        reveal_with_fuel(paths::without_current, 3);
        assert(start.drop_last() =~= h);
        assert(h.drop_last() =~= Seq::<PartView>::empty());
        assert(paths::without_current(start) =~= start);
    }
    // Putting them together works the names out.
    let all = own + names;
    assert forall|i: int| 0 <= i < all.len() implies is_name(#[trigger] all[i], true) by {
        if i < own.len() {
            assert(is_name(own[i], true));
        } else {
            assert(is_name(names[i - own.len()], true));
        }
    }
    assert forall|i: int| 0 <= i < above.len() implies is_name(#[trigger] above[i], true) by {
        assert(above[i] == own[i]);
    }
    assert(parts.drop_last() =~= parts_with(workspace, above, true));
    assert(parts.last() == paths::named(PartKind::Name, whole));
    lemma_assembled(workspace, above, true);
    lemma_reads_back(workspace, above, true);
    let t = path_with(workspace, above, true);
    let some = seq![w] + names;
    assert forall|i: int| 0 <= i < some.len() implies is_name(#[trigger] some[i], true) by {
        if i == 0 {
            assert(is_name(own[own.len() - 1], true));
        } else {
            assert(is_name(names[i - 1], true));
        }
    }
    lemma_relative(some);
    lemma_joined_front(w, names, '/');
    assert(text::joined(some, "/"@) == whole);
    let up = paths::path_parts(t, true);
    lemma_settled_only_names(up, some);
    let part = h[0];
    assert(above + some =~= all);
    assert(up + name_parts(some) =~= seq![part, root()] + name_parts(all));
    lemma_settled_text(prefix, part, all);
    let made = paths::assembled(prefix, parts, true);
    assert(made == path_with(workspace, all, true));
    lemma_reads_back(workspace, all, true);
    let read = paths::path_parts(made, true);
    assert(read =~= first + name_parts(names));
    assert(read.take(first.len() as int) =~= first);
}

/// Names behind a root with a verbatim prefix are worked out of the one piece that they form.
#[verifier::rlimit(40)]
proof fn lemma_root_accepted(workspace: Seq<char>, names: Seq<Seq<char>>)
    requires
        paths::is_absolute(paths::path_parts(workspace, true), true),
        !paths::goes_up(paths::path_parts(workspace, true)),
        has_plain_names(workspace, true),
        is_verbatim(workspace, true),
        !lacks_share(workspace, true),
        paths::path_parts(workspace, true).last().kind == PartKind::Root,
        names.len() > 0,
        are_names(names, true),
    ensures
        ({
            let path = workspace + "/"@ + text::joined(names, "/"@);
            let made = paths::generated_path(workspace, path, true);
            &&& made is Ok
            &&& paths::path_parts(made->Ok_0, true) == paths::path_parts(workspace, true)
                + name_parts(names)
        }),
{
    reveal_strlit("/");
    assert("/"@ =~= seq!['/']);
    lemma_marks();
    let first = paths::path_parts(workspace, true);
    let (rooted, inner) = lemma_absolute(workspace, true);
    let h = head(workspace, true);
    let start = h.push(root());
    let none = Seq::<Seq<char>>::empty();
    let n = lead(workspace, true);
    paths::lemma_prefix_length(workspace);
    assert(rooted && inner.len() == 0) by {
        if inner.len() > 0 {
            assert(first.last() == inner[inner.len() - 1]);
        } else if !rooted {
            assert(first =~= h);
        }
    }
    assert(first =~= start);
    let tail = text::joined(names, seq!['/']);
    let path = workspace + "/"@ + tail;
    let whole = seq!['/'] + tail;
    lemma_root_path(workspace, names);
    let parts = paths::path_parts(path, true);
    assert(parts == start.push(paths::named(PartKind::Name, whole)));
    let prefix = paths::prefix_text(path, true);
    assert(prefix == paths::prefix_text(workspace, true)) by {
        assert(path.take(n) =~= workspace.take(n));
    }
    assert(!paths::goes_up(parts)) by {
        if paths::goes_up(parts) {
            let i = choose|i: int|
                0 <= i < parts.len() && (#[trigger] parts[i]).kind == PartKind::Parent;
            if i < h.len() {
                assert(parts[i] == h[i]);
            } else if i == h.len() {
                assert(parts[i] == root());
            }
        }
    }
    assert(paths::without_current(parts) == parts) by {
        reveal_with_fuel(paths::without_current, 4);
        assert(parts.drop_last() =~= start);
        assert(start.drop_last() =~= h);
        assert(h.drop_last() =~= Seq::<PartView>::empty());
        assert(paths::without_current(start) =~= start);
    }
    assert(parts.drop_last() =~= parts_with(workspace, none, true));
    lemma_assembled(workspace, none, true);
    lemma_reads_back(workspace, none, true);
    let t = path_with(workspace, none, true);
    let up = paths::path_parts(t, true);
    let own = h[0];
    assert(up =~= seq![own, root()]);
    lemma_below_root(names);
    let more = seq![root()];
    lemma_settled_names(up, more, names);
    assert(paths::settled(up, more) =~= seq![own, root()]) by {
        reveal_with_fuel(paths::settled, 2);
        assert(more.drop_last() =~= Seq::<PartView>::empty());
        assert(up.take(1) =~= seq![own]);
    }
    lemma_settled_text(prefix, own, names);
    let made = paths::assembled(prefix, parts, true);
    assert(parts.last() == paths::named(PartKind::Name, whole));
    assert(made == path_with(workspace, names, true));
    lemma_reads_back(workspace, names, true);
    let read = paths::path_parts(made, true);
    assert(read =~= first + name_parts(names));
    assert(read.take(first.len() as int) =~= first);
}

/// The parts of a path behind such a root: what follows is one name.
proof fn lemma_root_path(workspace: Seq<char>, names: Seq<Seq<char>>)
    requires
        is_verbatim(workspace, true),
        !lacks_share(workspace, true),
        workspace.len() > lead(workspace, true),
        workspace[lead(workspace, true)] == '\\',
        paths::inner_parts(
            text::pieces(workspace.skip(lead(workspace, true)), paths::strict_separators()),
            true,
        ).len() == 0,
        names.len() > 0,
        are_names(names, true),
    ensures
        ({
            let whole = seq!['/'] + text::joined(names, seq!['/']);
            let path = workspace + seq!['/'] + text::joined(names, seq!['/']);
            &&& paths::windows_prefix(path) == paths::windows_prefix(workspace)
            &&& paths::path_parts(path, true) == head(workspace, true).push(root()).push(
                paths::named(PartKind::Name, whole),
            )
        }),
{
    lemma_marks();
    let n = lead(workspace, true);
    let strict = paths::strict_separators();
    let tail = text::joined(names, seq!['/']);
    let whole = seq!['/'] + tail;
    let path = workspace + seq!['/'] + tail;
    assert(path =~= workspace + whole);
    paths::lemma_prefix_length(workspace);
    assert(path[n] == workspace[n]);
    lemma_prefix_same(workspace, path);
    let rest = workspace.skip(n);
    assert(path.skip(n) =~= rest + whole);
    lemma_joined_clean(names);
    assert forall|i: int| 0 <= i < whole.len() implies !strict.contains(#[trigger] whole[i]) by {
        if i > 0 {
            assert(whole[i] == tail[i - 1]);
        }
    }
    let pieces = text::pieces(rest, strict);
    text::lemma_pieces_nonempty(rest, strict);
    text::lemma_pieces_appended(rest, whole, strict);
    let front = pieces.drop_last();
    assert(pieces.last().len() == 0);
    assert(pieces.last() + whole =~= whole);
    let now = front.push(whole);
    assert(now.drop_last() =~= front);
    reveal_strlit(".");
    reveal_strlit("..");
    assert(whole[0] == '/');
    assert("."@[0] == '.' && ".."@[0] == '.');
    assert(paths::inner_parts(front, true) =~= Seq::<PartView>::empty());
    assert(paths::inner_parts(now, true) =~= seq![paths::named(PartKind::Name, whole)]);
    assert(path.skip(n)[0] == rest[0]);
    assert(paths::path_parts(path, true) =~= head(workspace, true).push(root()).push(
        paths::named(PartKind::Name, whole),
    ));
}

/// The parts of a path of names behind the root.
proof fn lemma_below_root(names: Seq<Seq<char>>)
    requires
        names.len() > 0,
        are_names(names, true),
    ensures
        ({
            let t = seq!['/'] + text::joined(names, seq!['/']);
            &&& paths::prefix_of(t, true) is None
            &&& paths::path_parts(t, true) == seq![root()] + name_parts(names)
        }),
{
    lemma_marks();
    let set = paths::separators(true);
    let tail = text::joined(names, seq!['/']);
    let t = seq!['/'] + tail;
    assert(is_name(names[0], true));
    lemma_joined_first(names);
    assert(!set.contains(names[0][0]));
    assert(t[1] == names[0][0]);
    assert(paths::windows_prefix(t) is None);
    assert(t =~= Seq::empty() + seq!['/'] + tail);
    text::lemma_pieces_apart(Seq::empty(), '/', tail, set);
    let blank = seq![Seq::<char>::empty()];
    assert(text::pieces(Seq::empty(), set) =~= blank);
    assert forall|i: int, k: int| 0 <= i < names.len() && 0 <= k < names[i].len() implies
        !set.contains(#[trigger] names[i][k]) by {
        assert(is_name(names[i], true));
    }
    assert forall|i: int| 0 <= i < names.len() implies (#[trigger] names[i]).len() > 0 && names[i]
        != "."@ && names[i] != ".."@ by {
        assert(is_name(names[i], true));
    }
    text::lemma_joined_pieces(names, '/', set);
    lemma_inner_names(names, blank, false);
    reveal_with_fuel(paths::inner_parts, 2);
    assert(blank.drop_last() =~= Seq::<Seq<char>>::empty());
    assert(paths::inner_parts(blank, false) =~= Seq::<PartView>::empty());
    assert(paths::path_parts(t, true) =~= seq![root()] + name_parts(names));
}

/// Joining with one more part in front.
proof fn lemma_joined_front(a: Seq<char>, names: Seq<Seq<char>>, c: char)
    requires
        names.len() > 0,
    ensures
        text::joined(seq![a] + names, seq![c]) == a + seq![c] + text::joined(names, seq![c]),
    decreases names.len(),
{
    let all = seq![a] + names;
    if names.len() == 1 {
        assert(all.drop_last() =~= seq![a]);
        assert(text::joined(seq![a], seq![c]) == a);
    } else {
        let front = names.drop_last();
        lemma_joined_front(a, front, c);
        assert(all.drop_last() =~= seq![a] + front);
        assert(a + seq![c] + text::joined(front, seq![c]) + seq![c] + names.last() =~= a + seq![c]
            + (text::joined(front, seq![c]) + seq![c] + names.last()));
    }
}

/// The names of a workspace behind a verbatim prefix; the last of them is its last piece.
proof fn lemma_verbatim_names(workspace: Seq<char>) -> (own: Seq<Seq<char>>)
    requires
        paths::is_absolute(paths::path_parts(workspace, true), true),
        !paths::goes_up(paths::path_parts(workspace, true)),
        has_plain_names(workspace, true),
        is_verbatim(workspace, true),
        !lacks_share(workspace, true),
        paths::path_parts(workspace, true).last().kind == PartKind::Name,
        paths::without_current(paths::path_parts(workspace, true)) == paths::path_parts(
            workspace,
            true,
        ),
    ensures
        own.len() > 0,
        are_names(own, true),
        can_extend(workspace, own, true),
        workspace.len() > lead(workspace, true),
        workspace[lead(workspace, true)] == '\\',
        paths::path_parts(workspace, true) == head(workspace, true).push(root()) + name_parts(own),
        paths::inner_parts(
            text::pieces(workspace.skip(lead(workspace, true)), paths::strict_separators()),
            true,
        ) == name_parts(own),
{
    let first = paths::path_parts(workspace, true);
    let (rooted, inner) = lemma_absolute(workspace, true);
    let own = lemma_only_names(inner);
    let h = head(workspace, true);
    let start = h.push(root());
    paths::lemma_prefix_length(workspace);
    assert(rooted) by {
        if !rooted {
            assert(first =~= h);
            assert(first.last() == h[0]);
        }
    }
    lemma_without_current(start, inner);
    reveal_with_fuel(paths::without_current, 3);
    assert(start.drop_last() =~= h);
    assert(h.drop_last() =~= Seq::<PartView>::empty());
    assert(paths::without_current(start) =~= start);
    assert(first == start + inner);
    assert(start + paths::without_current(inner) == start + inner);
    assert(paths::without_current(inner) =~= inner) by {
        let a = start + paths::without_current(inner);
        let b = start + inner;
        assert(a.len() == b.len());
        assert forall|i: int| 0 <= i < inner.len() implies #[trigger] paths::without_current(
            inner,
        )[i] == inner[i] by {
            assert(a[start.len() + i] == b[start.len() + i]);
        }
    }
    assert(inner == name_parts(own));
    assert(own.len() > 0) by {
        if own.len() == 0 {
            assert(inner.len() == 0);
            assert(first =~= start);
            assert(first.last() == root());
        }
    }
    assert forall|i: int| 0 <= i < own.len() implies is_name(#[trigger] own[i], true) by {
        let k = choose|k: int|
            0 <= k < inner.len() && inner[k] == paths::named(PartKind::Name, own[i]);
        assert(inner[k].name == own[i]);
    }
    own
}

/// The parts of a path behind such a workspace: the names that follow are in the last one.
proof fn lemma_verbatim_path(workspace: Seq<char>, own: Seq<Seq<char>>, names: Seq<Seq<char>>)
    requires
        is_verbatim(workspace, true),
        own.len() > 0,
        are_names(own, true),
        can_extend(workspace, own, true),
        workspace.len() > lead(workspace, true),
        workspace[lead(workspace, true)] == '\\',
        workspace.last() != '\\',
        paths::inner_parts(
            text::pieces(workspace.skip(lead(workspace, true)), paths::strict_separators()),
            true,
        ) == name_parts(own),
        names.len() > 0,
        are_names(names, true),
    ensures
        ({
            let tail = text::joined(names, seq!['/']);
            let path = workspace + seq!['/'] + tail;
            &&& paths::windows_prefix(path) == paths::windows_prefix(workspace)
            &&& paths::path_parts(path, true) == head(workspace, true).push(root()) + name_parts(
                own.drop_last().push(own.last() + seq!['/'] + tail),
            )
        }),
{
    lemma_marks();
    let n = lead(workspace, true);
    let strict = paths::strict_separators();
    let tail = text::joined(names, seq!['/']);
    let more = seq!['/'] + tail;
    let path = workspace + seq!['/'] + tail;
    assert(path =~= workspace + more);
    paths::lemma_prefix_length(workspace);
    assert(path[n] == workspace[n]);
    lemma_prefix_same(workspace, path);
    let rest = workspace.skip(n);
    assert(path.skip(n) =~= rest + more);
    lemma_joined_clean(names);
    assert forall|i: int| 0 <= i < more.len() implies !strict.contains(#[trigger] more[i]) by {
        if i > 0 {
            assert(more[i] == tail[i - 1]);
        }
    }
    let pieces = text::pieces(rest, strict);
    text::lemma_pieces_nonempty(rest, strict);
    text::lemma_pieces_appended(rest, more, strict);
    let front = pieces.drop_last();
    let last = pieces.last();
    // The last piece is the last name.
    assert(rest.last() == workspace.last());
    assert(!strict.contains(rest.last()));
    assert(last.len() > 0 && last.last() == rest.last());
    let inner = paths::inner_parts(pieces, true);
    let before = paths::inner_parts(front, true);
    assert(inner.len() > 0);
    assert(inner.last() == name_parts(own).last());
    assert(last == own.last() && before =~= name_parts(own.drop_last())) by {
        assert(inner =~= name_parts(own));
        if last == "."@ {
            assert(inner.last().kind == PartKind::Current);
        } else if last == ".."@ {
            assert(inner.last().kind == PartKind::Parent);
        }
        assert(inner == before.push(paths::named(PartKind::Name, last)));
        assert(inner.last().name == last);
        assert(inner.drop_last() =~= before);
        assert(name_parts(own).drop_last() =~= name_parts(own.drop_last()));
    }
    let whole = last + more;
    assert(whole =~= own.last() + seq!['/'] + tail);
    let now = front.push(whole);
    assert(now.drop_last() =~= front);
    reveal_strlit(".");
    reveal_strlit("..");
    assert(whole[last.len() as int] == '/');
    assert("."@.len() == 1 && ".."@.len() == 2 && ".."@[1] == '.' && "."@[0] == '.');
    assert(whole != "."@);
    assert(whole != ".."@) by {
        if whole == ".."@ {
            assert(last.len() == 1);
            assert(whole[1] == '/');
        }
    }
    let longer = own.drop_last().push(whole);
    assert(paths::inner_parts(now, true) == before.push(paths::named(PartKind::Name, whole)));
    assert(before.push(paths::named(PartKind::Name, whole)) =~= name_parts(longer));
    assert(path.skip(n)[0] == rest[0]);
    assert(paths::path_parts(path, true) =~= head(workspace, true).push(root()) + name_parts(
        longer,
    ));
}

/// Names that were joined with a slash hold no backslash.
proof fn lemma_joined_clean(names: Seq<Seq<char>>)
    requires
        are_names(names, true),
    ensures
        forall|i: int|
            0 <= i < text::joined(names, seq!['/']).len() ==> !paths::strict_separators().contains(
                #[trigger] text::joined(names, seq!['/'])[i],
            ),
    decreases names.len(),
{
    lemma_marks();
    if names.len() > 0 {
        let front = names.drop_last();
        let last = names.last();
        assert(is_name(names[names.len() - 1], true));
        assert forall|i: int| 0 <= i < front.len() implies is_name(#[trigger] front[i], true) by {
            assert(front[i] == names[i]);
        }
        lemma_joined_clean(front);
        let head = text::joined(front, seq!['/']);
        let t = text::joined(names, seq!['/']);
        assert forall|i: int| 0 <= i < t.len() implies !paths::strict_separators().contains(
            #[trigger] t[i],
        ) by {
            if names.len() == 1 {
                assert(!paths::separators(true).contains(last[i]));
            } else if i < head.len() {
                assert(t[i] == head[i]);
            } else if i > head.len() {
                assert(t[i] == last[i - head.len() - 1]);
                assert(!paths::separators(true).contains(last[i - head.len() - 1]));
            }
        }
    }
}

} // verus!
