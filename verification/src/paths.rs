//! Paths, as they are read on Windows and elsewhere.

use vstd::prelude::*;
use vstd::string::*;

use crate::failure;
use crate::failure::Failure;
use crate::seqs;
use crate::text;

verus! {

broadcast use crate::seqs::group_seqs;

/// What a part of a path is. The first six are prefixes, which only Windows knows:
/// `\\?\name`, `\\?\UNC\server\share`, `\\?\C:`, `\\.\name`, `\\server\share` and `C:`.
#[derive(Debug, Clone, Copy, PartialEq, Eq, Structural)]
pub enum PartKind {
    Verbatim,
    VerbatimUnc,
    VerbatimDisk,
    Device,
    Unc,
    Disk,
    Root,
    Current,
    Parent,
    Name,
}

impl PartKind {
    /// The place of the kind in the order of parts.
    pub open spec fn rank(self) -> int {
        match self {
            PartKind::Verbatim => 0,
            PartKind::VerbatimUnc => 1,
            PartKind::VerbatimDisk => 2,
            PartKind::Device => 3,
            PartKind::Unc => 4,
            PartKind::Disk => 5,
            PartKind::Root => 6,
            PartKind::Current => 7,
            PartKind::Parent => 8,
            PartKind::Name => 9,
        }
    }

    /// Whether parts of the kind are prefixes.
    pub open spec fn is_prefix(self) -> bool {
        self.rank() <= 5
    }

    /// Whether only the backslash parts what follows a prefix of the kind.
    pub open spec fn is_verbatim(self) -> bool {
        self.rank() <= 2
    }

    /// The place of the kind in the order of parts.
    pub fn order(self) -> (r: u8)
        ensures
            r == self.rank(),
    {
        match self {
            PartKind::Verbatim => 0,
            PartKind::VerbatimUnc => 1,
            PartKind::VerbatimDisk => 2,
            PartKind::Device => 3,
            PartKind::Unc => 4,
            PartKind::Disk => 5,
            PartKind::Root => 6,
            PartKind::Current => 7,
            PartKind::Parent => 8,
            PartKind::Name => 9,
        }
    }
}

/// A part of a path: its kind, its name, where it has one, and the share of a server.
#[derive(Debug)]
pub struct PathPart {
    pub kind: PartKind,
    pub name: String,
    pub share: String,
}

/// The content of a part.
pub struct PartView {
    pub kind: PartKind,
    pub name: Seq<char>,
    pub share: Seq<char>,
}

impl View for PathPart {
    type V = PartView;

    open spec fn view(&self) -> PartView {
        PartView { kind: self.kind, name: self.name@, share: self.share@ }
    }
}

/// The contents of parts.
pub open spec fn views(parts: Seq<PathPart>) -> Seq<PartView> {
    Seq::new(parts.len(), |i: int| parts[i]@)
}

/// A part of a kind, with a name.
pub open spec fn named(kind: PartKind, name: Seq<char>) -> PartView {
    PartView { kind, name, share: Seq::empty() }
}

/// A part of a kind, with a name.
fn build_part(kind: PartKind, name: String) -> (r: PathPart)
    ensures
        r@ == named(kind, name@),
{
    let share = String::new();
    assert(share@ =~= Seq::empty());
    PathPart { kind, name, share }
}

/// A part that its kind says all of.
fn build_mark(kind: PartKind) -> (r: PathPart)
    ensures
        r@ == named(kind, Seq::empty()),
{
    let name = String::new();
    assert(name@ =~= Seq::empty());
    build_part(kind, name)
}

/// What parts a path: on Windows the slash and the backslash, elsewhere the slash.
pub open spec fn separators(windows: bool) -> Seq<char> {
    if windows {
        seq!['/', '\\']
    } else {
        seq!['/']
    }
}

/// What parts a path behind a verbatim prefix.
pub open spec fn strict_separators() -> Seq<char> {
    seq!['\\']
}

/// Where the word that starts at `from` ends: at a separator, or with the text.
pub open spec fn word_stop(s: Seq<char>, from: int, set: Seq<char>) -> int
    decreases s.len() - from,
{
    if from < 0 || from >= s.len() || set.contains(s[from]) {
        from
    } else {
        word_stop(s, from + 1, set)
    }
}

/// The word that starts at `from`.
pub open spec fn word(s: Seq<char>, from: int, set: Seq<char>) -> Seq<char> {
    if 0 <= from <= s.len() {
        s.subrange(from, word_stop(s, from, set))
    } else {
        Seq::empty()
    }
}

/// A word ends in the text.
pub(crate) proof fn lemma_word_stop(s: Seq<char>, from: int, set: Seq<char>)
    requires
        0 <= from <= s.len(),
    ensures
        from <= word_stop(s, from, set) <= s.len(),
        word(s, from, set).len() == word_stop(s, from, set) - from,
    decreases s.len() - from,
{
    if from < s.len() && !set.contains(s[from]) {
        lemma_word_stop(s, from + 1, set);
    }
}

/// Whether a drive, a letter and a colon, stands at `at`.
pub open spec fn drive_at(s: Seq<char>, at: int) -> bool {
    &&& 0 <= at
    &&& at + 2 <= s.len()
    &&& text::is_lower(s[at]) || text::is_upper(s[at])
    &&& s[at + 1] == ':'
}

/// The name of the drive at `at`: its letter in upper case.
pub open spec fn drive_name(s: Seq<char>, at: int) -> Seq<char> {
    text::uppered(s.subrange(at, at + 1))
}

/// The prefix of a text that begins with `\\?\`, and its length.
pub open spec fn verbatim_prefix(s: Seq<char>) -> (PartView, int) {
    let strict = strict_separators();
    if s.len() >= 8 && s.subrange(4, 7) == "UNC"@ && separators(true).contains(s[7]) {
        let server = word(s, 8, strict);
        let share = word(s, 8 + server.len() + 1int, strict);
        (
            PartView { kind: PartKind::VerbatimUnc, name: server, share },
            if share.len() > 0 {
                8 + server.len() + 1int + share.len()
            } else {
                8int + server.len()
            },
        )
    } else if drive_at(s, 4) && (s.len() == 6 || separators(true).contains(s[6])) {
        (named(PartKind::VerbatimDisk, drive_name(s, 4)), 6)
    } else {
        let name = word(s, 4, strict);
        (named(PartKind::Verbatim, name), 4 + name.len() as int)
    }
}

/// The prefix of a path on Windows, and its length.
pub open spec fn windows_prefix(s: Seq<char>) -> Option<(PartView, int)> {
    let marks = separators(true);
    if s.len() >= 2 && marks.contains(s[0]) && marks.contains(s[1]) {
        if text::begins(s, "\\\\?\\"@) {
            Some(verbatim_prefix(s))
        } else if s.len() >= 4 && s[2] == '.' && marks.contains(s[3]) {
            let name = word(s, 4, marks);
            Some((named(PartKind::Device, name), 4 + name.len() as int))
        } else {
            let server = word(s, 2, marks);
            let share = word(s, 2 + server.len() + 1int, marks);
            if server.len() > 0 && share.len() > 0 {
                Some(
                    (
                        PartView { kind: PartKind::Unc, name: server, share },
                        2 + server.len() + 1int + share.len(),
                    ),
                )
            } else {
                None
            }
        }
    } else if drive_at(s, 0) {
        Some((named(PartKind::Disk, drive_name(s, 0)), 2))
    } else {
        None
    }
}

/// The prefix of a path, and its length.
pub open spec fn prefix_of(s: Seq<char>, windows: bool) -> Option<(PartView, int)> {
    if windows {
        windows_prefix(s)
    } else {
        None
    }
}

/// A prefix is no longer than the path.
pub(crate) proof fn lemma_prefix_length(s: Seq<char>)
    ensures
        windows_prefix(s) matches Some((prefix, n)) ==> 2 <= n <= s.len() && prefix.kind.is_prefix(),
{
    let marks = separators(true);
    let strict = strict_separators();
    reveal_strlit("\\\\?\\");
    if s.len() >= 2 && marks.contains(s[0]) && marks.contains(s[1]) {
        if text::begins(s, "\\\\?\\"@) {
            if s.len() >= 8 {
                lemma_word_stop(s, 8, strict);
                let server = word(s, 8, strict);
                if 8 + server.len() + 1int <= s.len() {
                    lemma_word_stop(s, 8 + server.len() + 1int, strict);
                }
            }
            lemma_word_stop(s, 4, strict);
        } else if s.len() >= 4 && s[2] == '.' && marks.contains(s[3]) {
            lemma_word_stop(s, 4, marks);
        } else {
            lemma_word_stop(s, 2, marks);
            let server = word(s, 2, marks);
            if 2 + server.len() + 1int <= s.len() {
                lemma_word_stop(s, 2 + server.len() + 1int, marks);
            }
        }
    }
}

/// The parts between separators: names, parents, and the current directory only where it stands
/// first or behind a verbatim prefix.
pub open spec fn inner_parts(pieces: Seq<Seq<char>>, verbatim: bool) -> Seq<PartView>
    decreases pieces.len(),
{
    if pieces.len() == 0 {
        Seq::empty()
    } else {
        let before = inner_parts(pieces.drop_last(), verbatim);
        let last = pieces.last();
        if last.len() == 0 {
            before
        } else if last == "."@ {
            if verbatim || pieces.len() == 1 {
                before.push(named(PartKind::Current, Seq::empty()))
            } else {
                before
            }
        } else if last == ".."@ {
            before.push(named(PartKind::Parent, Seq::empty()))
        } else {
            before.push(named(PartKind::Name, last))
        }
    }
}

/// The parts of what follows a prefix, with the root first, where a separator stands there or the
/// prefix implies it.
pub open spec fn rest_parts(rest: Seq<char>, set: Seq<char>, verbatim: bool, implied: bool) -> Seq<
    PartView,
> {
    let inner = inner_parts(text::pieces(rest, set), verbatim);
    if implied || (rest.len() > 0 && set.contains(rest[0])) {
        seq![named(PartKind::Root, Seq::empty())] + inner
    } else {
        inner
    }
}

/// The parts of a path.
pub open spec fn path_parts(s: Seq<char>, windows: bool) -> Seq<PartView> {
    match prefix_of(s, windows) {
        None => rest_parts(s, separators(windows), false, false),
        Some((prefix, n)) => if prefix.kind.is_verbatim() {
            seq![prefix] + rest_parts(s.skip(n), strict_separators(), true, false)
        } else {
            seq![prefix] + rest_parts(
                s.skip(n),
                separators(true),
                false,
                prefix.kind != PartKind::Disk,
            )
        },
    }
}

/// The separators of a platform.
fn platform_separators(windows: bool) -> (r: Vec<char>)
    ensures
        r@ == separators(windows),
{
    let mut r: Vec<char> = Vec::new();
    r.push('/');
    if windows {
        r.push('\\');
    }
    assert(r@ =~= separators(windows));
    r
}

/// The separator behind a verbatim prefix.
fn only_backslash() -> (r: Vec<char>)
    ensures
        r@ == strict_separators(),
{
    let mut r: Vec<char> = Vec::new();
    r.push('\\');
    assert(r@ =~= strict_separators());
    r
}

/// The word that starts at `from`.
fn read_word(chars: &Vec<char>, from: usize, set: &Vec<char>) -> (r: String)
    ensures
        r@ == word(chars@, from as int, set@),
        r@.len() <= chars@.len(),
        from <= chars@.len() ==> from + r@.len() <= chars@.len(),
{
    if from > chars.len() {
        let r = String::new();
        assert(r@ =~= Seq::empty());
        return r;
    }
    let mut i: usize = from;
    while i < chars.len() && !text::among(set, chars[i])
        invariant
            from <= i <= chars@.len(),
            word_stop(chars@, from as int, set@) == word_stop(chars@, i as int, set@),
        decreases chars@.len() - i,
    {
        i += 1;
    }
    text::string_of(chars, from, i)
}

/// Whether a drive stands at `at`.
fn is_drive_at(chars: &Vec<char>, at: usize) -> (r: bool)
    requires
        at <= 4,
    ensures
        r == drive_at(chars@, at as int),
{
    chars.len() >= at + 2 && (('a' <= chars[at] && chars[at] <= 'z') || ('A' <= chars[at]
        && chars[at] <= 'Z')) && chars[at + 1] == ':'
}

/// The name of the drive at `at`.
fn read_drive(chars: &Vec<char>, at: usize) -> (r: String)
    requires
        at < 5,
        at < chars@.len(),
    ensures
        r@ == drive_name(chars@, at as int),
{
    text::to_ascii_uppercase(&text::string_of(chars, at, at + 1))
}

/// The prefix of a text that begins with `\\?\`, and its length.
fn read_verbatim_prefix(chars: &Vec<char>) -> (r: (PathPart, usize))
    requires
        text::begins(chars@, "\\\\?\\"@),
    ensures
        (r.0@, r.1 as int) == verbatim_prefix(chars@),
{
    proof {
        reveal_strlit("\\\\?\\");
        reveal_strlit("UNC");
    }
    let ghost s = chars@;
    let strict = only_backslash();
    let marks = platform_separators(true);
    let n = chars.len();
    let is_unc = n >= 8 && chars[4] == 'U' && chars[5] == 'N' && chars[6] == 'C' && text::among(
        &marks,
        chars[7],
    );
    proof {
        if n >= 8 {
            let part = s.subrange(4, 7);
            assert(part[0] == s[4] && part[1] == s[5] && part[2] == s[6]);
            if s[4] == 'U' && s[5] == 'N' && s[6] == 'C' {
                assert(part =~= "UNC"@);
            }
        }
    }
    if is_unc {
        let server = read_word(chars, 8, &strict);
        let at: usize = 8 + server.as_str().unicode_len();
        if at == n {
            let share = String::new();
            assert(share@ =~= word(s, at + 1, strict@));
            return (PathPart { kind: PartKind::VerbatimUnc, name: server, share }, at);
        }
        let share = read_word(chars, at + 1, &strict);
        let more = share.as_str().unicode_len();
        let length: usize = if more > 0 {
            at + 1 + more
        } else {
            at
        };
        (PathPart { kind: PartKind::VerbatimUnc, name: server, share }, length)
    } else if is_drive_at(chars, 4) && (n == 6 || text::among(&marks, chars[6])) {
        (build_part(PartKind::VerbatimDisk, read_drive(chars, 4)), 6)
    } else {
        let name = read_word(chars, 4, &strict);
        let length: usize = 4 + name.as_str().unicode_len();
        (build_part(PartKind::Verbatim, name), length)
    }
}

/// The prefix of a path on Windows, and its length.
fn read_windows_prefix(path: &str, chars: &Vec<char>) -> (r: Option<(PathPart, usize)>)
    requires
        chars@ == path@,
    ensures
        match (r, windows_prefix(path@)) {
            (Some((part, n)), Some((prefix, m))) => part@ == prefix && n == m,
            (None, None) => true,
            _ => false,
        },
{
    let ghost s = path@;
    let marks = platform_separators(true);
    let n = chars.len();
    if n >= 2 && text::among(&marks, chars[0]) && text::among(&marks, chars[1]) {
        if text::starts_with(path, "\\\\?\\") {
            Some(read_verbatim_prefix(chars))
        } else if n >= 4 && chars[2] == '.' && text::among(&marks, chars[3]) {
            let name = read_word(chars, 4, &marks);
            let length: usize = 4 + name.as_str().unicode_len();
            Some((build_part(PartKind::Device, name), length))
        } else {
            let server = read_word(chars, 2, &marks);
            let at: usize = 2 + server.as_str().unicode_len();
            if at == n {
                assert(word(s, at + 1, marks@).len() == 0);
                return None;
            }
            let share = read_word(chars, at + 1, &marks);
            let more = share.as_str().unicode_len();
            if at > 2 && more > 0 {
                Some((PathPart { kind: PartKind::Unc, name: server, share }, at + 1 + more))
            } else {
                None
            }
        }
    } else if is_drive_at(chars, 0) {
        Some((build_part(PartKind::Disk, read_drive(chars, 0)), 2))
    } else {
        None
    }
}

/// Puts a part behind the others.
fn push_part(parts: &mut Vec<PathPart>, part: PathPart)
    ensures
        views(final(parts)@) == views(old(parts)@).push(part@),
{
    let ghost before = views(parts@);
    let ghost own = part@;
    parts.push(part);
    assert(views(parts@) =~= before.push(own));
}

/// The parts of what follows a prefix, behind the parts that there are.
fn read_rest(parts: &mut Vec<PathPart>, rest: &str, set: &Vec<char>, verbatim: bool, implied: bool)
    ensures
        views(final(parts)@) == views(old(parts)@) + rest_parts(rest@, set@, verbatim, implied),
{
    let ghost first = views(parts@);
    if implied || (rest.unicode_len() > 0 && text::among(set, rest.get_char(0))) {
        push_part(parts, build_mark(PartKind::Root));
    }
    let ghost start = views(parts@);
    let pieces = text::split_chars(rest, set);
    let ghost all = text::pieces(rest@, set@);
    let mut i: usize = 0;
    assert(start + inner_parts(all.take(0), verbatim) =~= start);
    while i < pieces.len()
        invariant
            i <= pieces@.len(),
            all == seqs::texts(pieces@),
            views(parts@) == start + inner_parts(all.take(i as int), verbatim),
        decreases pieces@.len() - i,
    {
        proof {
            assert(all.take(i + 1).drop_last() == all.take(i as int));
            assert(all.take(i + 1).last() == pieces@[i as int]@);
        }
        let ghost before = inner_parts(all.take(i as int), verbatim);
        if pieces[i].as_str().unicode_len() > 0 {
            if text::same(&pieces[i], ".") {
                if verbatim || i == 0 {
                    push_part(parts, build_mark(PartKind::Current));
                    assert(views(parts@) =~= start + before.push(
                        named(PartKind::Current, Seq::empty()),
                    ));
                }
            } else if text::same(&pieces[i], "..") {
                push_part(parts, build_mark(PartKind::Parent));
                assert(views(parts@) =~= start + before.push(
                    named(PartKind::Parent, Seq::empty()),
                ));
            } else {
                push_part(parts, build_part(PartKind::Name, pieces[i].clone()));
                assert(views(parts@) =~= start + before.push(
                    named(PartKind::Name, pieces@[i as int]@),
                ));
            }
        }
        i += 1;
    }
    proof {
        assert(all.take(i as int) =~= all);
        assert(views(parts@) =~= first + rest_parts(rest@, set@, verbatim, implied));
    }
}

/// The parts of a path.
pub fn split_path(path: &str, windows: bool) -> (r: Vec<PathPart>)
    ensures
        views(r@) == path_parts(path@, windows),
        r@.len() == path_parts(path@, windows).len(),
{
    let mut parts: Vec<PathPart> = Vec::new();
    assert(views(parts@) =~= Seq::empty());
    let found = if windows {
        read_windows_prefix(path, &text::chars_of(path))
    } else {
        None
    };
    match found {
        None => {
            read_rest(&mut parts, path, &platform_separators(windows), false, false);
        },
        Some((prefix, n)) => {
            proof {
                lemma_prefix_length(path@);
            }
            let ghost own = prefix@;
            let kind = prefix.kind;
            let rest = path.substring_char(n, path.unicode_len());
            assert(rest@ =~= path@.skip(n as int));
            push_part(&mut parts, prefix);
            assert(views(parts@) =~= seq![own]);
            if kind.order() <= 2 {
                read_rest(&mut parts, rest, &only_backslash(), true, false);
            } else {
                read_rest(
                    &mut parts,
                    rest,
                    &platform_separators(true),
                    false,
                    kind != PartKind::Disk,
                );
            }
        },
    }
    assert(views(parts@) =~= path_parts(path@, windows));
    assert(views(parts@).len() == parts@.len());
    parts
}

/// The last part of a path, where it is a name.
pub open spec fn base_name(path: Seq<char>, windows: bool) -> Option<Seq<char>> {
    let parts = path_parts(path, windows);
    if parts.len() == 0 || parts.last().kind != PartKind::Name {
        None
    } else {
        Some(parts.last().name)
    }
}

/// The last part of a path, where it is a name.
pub fn file_name(path: &str, windows: bool) -> (r: Option<String>)
    ensures
        r.deep_view() == base_name(path@, windows),
{
    let mut parts = split_path(path, windows);
    let ghost all = views(parts@);
    match parts.pop() {
        Some(part) => {
            assert(all.last() == part@);
            if part.kind == PartKind::Name {
                Some(part.name)
            } else {
                None
            }
        },
        None => None,
    }
}

/// Whether a path is absolute: on Windows it has a prefix and a root, elsewhere a root.
pub open spec fn is_absolute(parts: Seq<PartView>, windows: bool) -> bool {
    if windows {
        parts.len() > 0 && parts[0].kind.is_prefix() && (parts[0].kind != PartKind::Disk
            || parts.len() > 1 && parts[1].kind == PartKind::Root)
    } else {
        parts.len() > 0 && parts[0].kind == PartKind::Root
    }
}

/// Whether a path is absolute.
fn leads_from_root(parts: &Vec<PathPart>, windows: bool) -> (r: bool)
    ensures
        r == is_absolute(views(parts@), windows),
{
    if parts.len() == 0 {
        return false;
    }
    if windows {
        parts[0].kind.order() <= 5 && (parts[0].kind != PartKind::Disk || parts.len() > 1
            && parts[1].kind == PartKind::Root)
    } else {
        parts[0].kind == PartKind::Root
    }
}

/// Whether one of the parts leads up.
pub open spec fn goes_up(parts: Seq<PartView>) -> bool {
    exists|i: int| 0 <= i < parts.len() && (#[trigger] parts[i]).kind == PartKind::Parent
}

/// Whether one of the parts leads up.
fn has_parent(parts: &Vec<PathPart>) -> (r: bool)
    ensures
        r == goes_up(views(parts@)),
{
    let ghost all = views(parts@);
    let mut i: usize = 0;
    while i < parts.len()
        invariant
            i <= parts@.len(),
            all == views(parts@),
            forall|k: int| 0 <= k < i ==> (#[trigger] all[k]).kind != PartKind::Parent,
        decreases parts@.len() - i,
    {
        assert(all[i as int] == parts@[i as int]@);
        if parts[i].kind == PartKind::Parent {
            return true;
        }
        i += 1;
    }
    false
}

/// Whether a path leads out of the directory that it starts from: it is absolute, has a prefix, or
/// goes up.
pub open spec fn leads_out(path: Seq<char>, windows: bool) -> bool {
    let parts = path_parts(path, windows);
    is_absolute(parts, windows) || goes_up(parts) || (parts.len() > 0 && parts[0].kind.is_prefix())
}

/// Whether a path in a registry leads out of it.
pub fn registry_path_escapes(path: &str, windows: bool) -> (r: bool)
    ensures
        r == leads_out(path@, windows),
{
    let parts = split_path(path, windows);
    leads_from_root(&parts, windows) || has_parent(&parts) || (parts.len() > 0
        && parts[0].kind.order() <= 5)
}

/// The parts without those that stand for the current directory.
pub open spec fn without_current(parts: Seq<PartView>) -> Seq<PartView>
    decreases parts.len(),
{
    if parts.len() == 0 {
        Seq::empty()
    } else {
        let before = without_current(parts.drop_last());
        if parts.last().kind == PartKind::Current {
            before
        } else {
            before.push(parts.last())
        }
    }
}

/// The parts without those that stand for the current directory.
fn drop_current(parts: Vec<PathPart>) -> (r: Vec<PathPart>)
    ensures
        views(r@) == without_current(views(parts@)),
{
    let ghost all = views(parts@);
    let mut rest = parts;
    let mut r: Vec<PathPart> = Vec::new();
    let ghost mut n: int = 0;
    assert(views(r@) =~= without_current(all.take(0)));
    assert(views(rest@) =~= all.skip(0));
    while rest.len() > 0
        invariant
            0 <= n <= all.len(),
            views(rest@) == all.skip(n),
            views(r@) == without_current(all.take(n)),
        decreases rest@.len(),
    {
        let ghost left = views(rest@);
        assert(left.len() == rest@.len());
        let part = rest.remove(0);
        proof {
            assert(left[0] == part@);
            assert(all.skip(n)[0] == all[n]);
            assert forall|k: int| 0 <= k < rest@.len() implies #[trigger] views(rest@)[k]
                == all.skip(n + 1)[k] by {
                assert(views(rest@)[k] == left[k + 1]);
            }
            assert(views(rest@) =~= all.skip(n + 1));
            assert(all.take(n + 1).drop_last() =~= all.take(n));
        }
        if part.kind != PartKind::Current {
            push_part(&mut r, part);
        }
        proof {
            n = n + 1;
        }
    }
    assert(all.take(n) =~= all);
    r
}

/// The names among the parts.
pub open spec fn names_of(parts: Seq<PartView>) -> Seq<Seq<char>>
    decreases parts.len(),
{
    if parts.len() == 0 {
        Seq::empty()
    } else {
        let before = names_of(parts.drop_last());
        if parts.last().kind == PartKind::Name {
            before.push(parts.last().name)
        } else {
            before
        }
    }
}

/// The names among the parts from `from` to `to`.
fn collect_names(parts: &Vec<PathPart>, from: usize, to: usize) -> (r: Vec<String>)
    requires
        from <= to <= parts@.len(),
    ensures
        seqs::texts(r@) == names_of(views(parts@).subrange(from as int, to as int)),
{
    let ghost all = views(parts@);
    let mut r = seqs::no_texts();
    let mut i: usize = from;
    assert(all.subrange(from as int, from as int) =~= Seq::<PartView>::empty());
    while i < to
        invariant
            from <= i <= to <= parts@.len(),
            all == views(parts@),
            seqs::texts(r@) == names_of(all.subrange(from as int, i as int)),
        decreases to - i,
    {
        proof {
            let now = all.subrange(from as int, i + 1);
            assert(now.drop_last() =~= all.subrange(from as int, i as int));
            assert(now.last() == parts@[i as int]@);
        }
        if parts[i].kind == PartKind::Name {
            seqs::push_text(&mut r, &parts[i].name);
        }
        i += 1;
    }
    r
}

/// Whether a path lies properly below a directory: the parts of the directory come first.
pub open spec fn lies_below(path: Seq<PartView>, workspace: Seq<PartView>) -> bool {
    workspace.len() < path.len() && path.take(workspace.len() as int) == workspace
}

/// Whether two parts are the same.
fn same_part(a: &PathPart, b: &PathPart) -> (r: bool)
    ensures
        r == (a@ == b@),
{
    a.kind == b.kind && text::same(&a.name, &b.name) && text::same(&a.share, &b.share)
}

/// Whether a path lies properly below a directory.
fn is_below(path: &Vec<PathPart>, workspace: &Vec<PathPart>) -> (r: bool)
    ensures
        r == lies_below(views(path@), views(workspace@)),
{
    let ghost p = views(path@);
    let ghost w = views(workspace@);
    if workspace.len() >= path.len() {
        return false;
    }
    let mut i: usize = 0;
    while i < workspace.len()
        invariant
            i <= workspace@.len() < path@.len(),
            p == views(path@),
            w == views(workspace@),
            forall|k: int| 0 <= k < i ==> (#[trigger] p[k]) == w[k],
        decreases workspace@.len() - i,
    {
        if !same_part(&path[i], &workspace[i]) {
            assert(p.take(w.len() as int)[i as int] != w[i as int]);
            return false;
        }
        assert(p[i as int] == w[i as int]);
        i += 1;
    }
    assert(p.take(w.len() as int) =~= w);
    true
}

/// The separator that a platform writes.
pub open spec fn written_separator(windows: bool) -> Seq<char> {
    if windows {
        "\\"@
    } else {
        "/"@
    }
}

/// The prefix of a path as it is written.
pub open spec fn prefix_text(path: Seq<char>, windows: bool) -> Seq<char> {
    match prefix_of(path, windows) {
        Some((_, n)) => path.take(n),
        None => Seq::empty(),
    }
}

/// The prefix of a path as it is written.
fn written_prefix(path: &str, windows: bool) -> (r: String)
    ensures
        r@ == prefix_text(path@, windows),
{
    if windows {
        if let Some((_, n)) = read_windows_prefix(path, &text::chars_of(path)) {
            proof {
                lemma_prefix_length(path@);
            }
            let r = path.substring_char(0, n).to_owned();
            assert(r@ =~= path@.take(n as int));
            return r;
        }
    }
    let r = String::new();
    assert(r@ =~= Seq::empty());
    r
}

/// The text of a part; a prefix is as it was written.
pub open spec fn part_text(part: PartView, prefix: Seq<char>, windows: bool) -> Seq<char> {
    match part.kind {
        PartKind::Root => written_separator(windows),
        PartKind::Current => "."@,
        PartKind::Parent => ".."@,
        PartKind::Name => part.name,
        _ => prefix,
    }
}

/// The text of a part.
fn render_part(part: &PathPart, prefix: &str, windows: bool) -> (r: String)
    ensures
        r@ == part_text(part@, prefix@, windows),
{
    match part.kind {
        PartKind::Root => if windows {
            "\\".to_owned()
        } else {
            "/".to_owned()
        },
        PartKind::Current => ".".to_owned(),
        PartKind::Parent => "..".to_owned(),
        PartKind::Name => part.name.clone(),
        _ => prefix.to_owned(),
    }
}

/// The parts behind a verbatim prefix after more parts followed: a root leaves only the prefix
/// before it, the current directory is left out, and the parent takes the name before it away.
pub open spec fn settled(parts: Seq<PartView>, more: Seq<PartView>) -> Seq<PartView>
    decreases more.len(),
{
    if more.len() == 0 {
        parts
    } else {
        let before = settled(parts, more.drop_last());
        let last = more.last();
        match last.kind {
            PartKind::Root => if before.len() > 0 {
                before.take(1).push(last)
            } else {
                before.push(last)
            },
            PartKind::Current => before,
            PartKind::Parent => if before.len() > 0 && before.last().kind == PartKind::Name {
                before.drop_last()
            } else {
                before
            },
            _ => before.push(last),
        }
    }
}

/// A copy of a part.
fn copy_part(part: &PathPart) -> (r: PathPart)
    ensures
        r@ == part@,
{
    PathPart { kind: part.kind, name: part.name.clone(), share: part.share.clone() }
}

/// The parts behind a verbatim prefix after more parts followed.
fn settle(parts: Vec<PathPart>, more: &Vec<PathPart>) -> (r: Vec<PathPart>)
    ensures
        views(r@) == settled(views(parts@), views(more@)),
{
    let ghost start = views(parts@);
    let ghost all = views(more@);
    let mut r = parts;
    let mut i: usize = 0;
    assert(all.take(0) =~= Seq::<PartView>::empty());
    while i < more.len()
        invariant
            i <= more@.len(),
            all == views(more@),
            views(r@) == settled(start, all.take(i as int)),
        decreases more@.len() - i,
    {
        let ghost before = views(r@);
        proof {
            assert(all.take(i + 1).drop_last() =~= all.take(i as int));
            assert(all.take(i + 1).last() == more@[i as int]@);
            assert(before.len() == r@.len());
        }
        match more[i].kind {
            PartKind::Root => {
                if r.len() > 0 {
                    r.truncate(1);
                    assert(views(r@) =~= before.take(1));
                }
                push_part(&mut r, copy_part(&more[i]));
            },
            PartKind::Current => {},
            PartKind::Parent => {
                if r.len() > 0 && r[r.len() - 1].kind == PartKind::Name {
                    let _ = r.pop();
                    assert(views(r@) =~= before.drop_last());
                }
            },
            _ => push_part(&mut r, copy_part(&more[i])),
        }
        i += 1;
    }
    assert(all.take(i as int) =~= all);
    r
}

/// The text of parts behind a verbatim prefix, with a backslash before each that follows neither
/// the root nor a drive; the root is one itself.
pub open spec fn settled_text(prefix: Seq<char>, parts: Seq<PartView>) -> Seq<char>
    decreases parts.len(),
{
    if parts.len() == 0 {
        Seq::empty()
    } else {
        let before = settled_text(prefix, parts.drop_last());
        let own = part_text(parts.last(), prefix, true);
        if parts.len() > 1 && parts.last().kind != PartKind::Root && parts[parts.len() - 2].kind
            != PartKind::Root && parts[parts.len() - 2].kind != PartKind::Disk {
            before + "\\"@ + own
        } else {
            before + own
        }
    }
}

/// The text of parts behind a verbatim prefix.
fn render_settled(prefix: &str, parts: &Vec<PathPart>) -> (r: String)
    ensures
        r@ == settled_text(prefix@, views(parts@)),
{
    let ghost all = views(parts@);
    let mut r = String::new();
    let mut i: usize = 0;
    assert(r@ =~= settled_text(prefix@, all.take(0)));
    while i < parts.len()
        invariant
            i <= parts@.len(),
            all == views(parts@),
            r@ == settled_text(prefix@, all.take(i as int)),
        decreases parts@.len() - i,
    {
        proof {
            assert(all.take(i + 1).drop_last() =~= all.take(i as int));
            assert(all.take(i + 1).last() == parts@[i as int]@);
            if i > 0 {
                assert(all.take(i + 1)[i - 1] == parts@[i - 1]@);
            }
        }
        if i > 0 && parts[i].kind != PartKind::Root && parts[i - 1].kind != PartKind::Root
            && parts[i - 1].kind != PartKind::Disk {
            r = r.concat("\\");
        }
        r = r.concat(&render_part(&parts[i], prefix, true));
        i += 1;
    }
    assert(all.take(i as int) =~= all);
    r
}

/// Whether a separator goes between a path and what is put behind it: not after one, and not
/// after a drive alone.
pub open spec fn wants_separator(path: Seq<char>, windows: bool) -> bool {
    &&& path.len() > 0
    &&& !separators(windows).contains(path.last())
    &&& !(prefix_of(path, windows) matches Some((prefix, n)) && n == path.len() && prefix.kind
        == PartKind::Disk)
}

/// A path with a part put behind it. A part with a prefix, or one that is absolute, takes the place
/// of the path. Behind a verbatim prefix what the part stands for is worked out; else a part with a
/// root takes the place of all but the prefix.
pub open spec fn extended(path: Seq<char>, part: Seq<char>, windows: bool) -> Seq<char> {
    if prefix_of(part, windows) is Some || (!windows && text::begins(part, "/"@)) {
        part
    } else if prefix_of(path, windows) is Some && (prefix_of(path, windows)->0).0.kind.is_verbatim()
        && part.len() > 0 {
        settled_text(
            prefix_text(path, windows),
            settled(path_parts(path, windows), path_parts(part, windows)),
        )
    } else if part.len() > 0 && separators(windows).contains(part[0]) {
        prefix_text(path, windows) + part
    } else if wants_separator(path, windows) {
        path + written_separator(windows) + part
    } else {
        path + part
    }
}

/// A path with a part put behind it.
pub fn extend_path(path: &str, part: &str, windows: bool) -> (r: String)
    ensures
        r@ == extended(path@, part@, windows),
{
    let marks = platform_separators(windows);
    if !windows {
        if text::starts_with(part, "/") {
            return part.to_owned();
        }
        proof {
            reveal_strlit("/");
            if part@.len() > 0 && marks@.contains(part@[0]) {
                assert(part@.subrange(0, 1) =~= "/"@);
            }
        }
        let n = path.unicode_len();
        if n > 0 && !text::among(&marks, path.get_char(n - 1)) {
            return path.to_owned().concat("/").concat(part);
        }
        return path.to_owned().concat(part);
    }
    if read_windows_prefix(part, &text::chars_of(part)).is_some() {
        return part.to_owned();
    }
    let prefix = written_prefix(path, true);
    let found = read_windows_prefix(path, &text::chars_of(path));
    proof {
        lemma_prefix_length(path@);
    }
    let m = part.unicode_len();
    let mut only_drive: bool = false;
    if let Some((own, length)) = &found {
        if own.kind.order() <= 2 && m > 0 {
            let parts = settle(split_path(path, true), &split_path(part, true));
            return render_settled(&prefix, &parts);
        }
        only_drive = *length == path.unicode_len() && own.kind == PartKind::Disk;
    }
    if m > 0 && text::among(&marks, part.get_char(0)) {
        return prefix.concat(part);
    }
    let n = path.unicode_len();
    if n > 0 && !text::among(&marks, path.get_char(n - 1)) && !only_drive {
        path.to_owned().concat("\\").concat(part)
    } else {
        path.to_owned().concat(part)
    }
}

/// The path that parts make up when each is put behind the ones before it.
pub open spec fn assembled(prefix: Seq<char>, parts: Seq<PartView>, windows: bool) -> Seq<char>
    decreases parts.len(),
{
    if parts.len() == 0 {
        Seq::empty()
    } else {
        extended(
            assembled(prefix, parts.drop_last(), windows),
            part_text(parts.last(), prefix, windows),
            windows,
        )
    }
}

/// The path that parts make up when each is put behind the ones before it.
fn assemble(prefix: &str, parts: &Vec<PathPart>, windows: bool) -> (r: String)
    ensures
        r@ == assembled(prefix@, views(parts@), windows),
{
    let ghost all = views(parts@);
    let mut r = String::new();
    let mut i: usize = 0;
    assert(r@ =~= assembled(prefix@, all.take(0), windows));
    while i < parts.len()
        invariant
            i <= parts@.len(),
            all == views(parts@),
            r@ == assembled(prefix@, all.take(i as int), windows),
        decreases parts@.len() - i,
    {
        proof {
            assert(all.take(i + 1).drop_last() =~= all.take(i as int));
            assert(all.take(i + 1).last() == parts@[i as int]@);
        }
        r = extend_path(&r, &render_part(&parts[i], prefix, windows), windows);
        i += 1;
    }
    assert(all.take(i as int) =~= all);
    r
}

/// A generated path put together anew from its parts, where it lies below the workspace.
pub open spec fn generated_path(workspace: Seq<char>, path: Seq<char>, windows: bool) -> Result<
    Seq<char>,
    Seq<Seq<char>>,
> {
    let parts = path_parts(path, windows);
    let made = assembled(prefix_text(path, windows), without_current(parts), windows);
    if !is_absolute(parts, windows) {
        Err(seq!["generated plugin path must be absolute"@])
    } else if goes_up(parts) {
        Err(seq!["generated plugin path contains parent traversal"@])
    } else if lies_below(path_parts(made, windows), path_parts(workspace, windows)) {
        Ok(made)
    } else {
        Err(seq!["generated plugin path escapes workspace"@])
    }
}

/// A generated path put together anew from its parts, where it lies below the workspace.
pub fn normalize_generated_path(workspace: &str, rendered: &str, windows: bool) -> (r: Result<
    String,
    Failure,
>)
    ensures
        failure::told_text(r) == generated_path(workspace@, rendered@, windows),
{
    let parts = split_path(rendered, windows);
    if !leads_from_root(&parts, windows) {
        return Err(failure::fail("generated plugin path must be absolute"));
    }
    if has_parent(&parts) {
        return Err(failure::fail("generated plugin path contains parent traversal"));
    }
    let made = assemble(&written_prefix(rendered, windows), &drop_current(parts), windows);
    if is_below(&split_path(&made, windows), &split_path(workspace, windows)) {
        Ok(made)
    } else {
        Err(failure::fail("generated plugin path escapes workspace"))
    }
}

/// The directories between a workspace and a file below it, from the outermost one.
pub open spec fn between(workspace: Seq<PartView>, path: Seq<PartView>) -> Seq<Seq<char>> {
    if lies_below(path, workspace) {
        names_of(path.subrange(workspace.len() as int, path.len() - 1))
    } else {
        Seq::empty()
    }
}

/// The directories between a workspace and a file below it, from the outermost one.
pub fn directories_below(workspace: &str, path: &str, windows: bool) -> (r: Vec<String>)
    ensures
        seqs::texts(r@) == between(path_parts(workspace@, windows), path_parts(path@, windows)),
{
    let parts = split_path(path, windows);
    let above = split_path(workspace, windows);
    if is_below(&parts, &above) {
        collect_names(&parts, above.len(), parts.len() - 1)
    } else {
        seqs::no_texts()
    }
}

/// Whether a part comes before another: by its kind, then by its name and its share.
pub open spec fn part_before(a: PartView, b: PartView) -> bool {
    a.kind.rank() < b.kind.rank() || (a.kind == b.kind && (text::before(a.name, b.name) || (a.name
        == b.name && text::before(a.share, b.share))))
}

/// Whether a path comes before another: at the first part in which they differ, or because it ends
/// first.
pub open spec fn path_before(a: Seq<PartView>, b: Seq<PartView>) -> bool
    decreases a.len(),
{
    if b.len() == 0 {
        false
    } else if a.len() == 0 {
        true
    } else if a[0] == b[0] {
        path_before(a.drop_first(), b.drop_first())
    } else {
        part_before(a[0], b[0])
    }
}

/// Whether a part comes before another.
fn part_comes_first(a: &PathPart, b: &PathPart) -> (r: bool)
    ensures
        r == part_before(a@, b@),
{
    a.kind.order() < b.kind.order() || (a.kind == b.kind && (text::comes_before(&a.name, &b.name)
        || (text::same(&a.name, &b.name) && text::comes_before(&a.share, &b.share))))
}

/// Whether a path comes before another.
pub fn comes_first(a: &Vec<PathPart>, b: &Vec<PathPart>) -> (r: bool)
    ensures
        r == path_before(views(a@), views(b@)),
{
    let ghost s = views(a@);
    let ghost t = views(b@);
    let mut i: usize = 0;
    assert(s.skip(0) =~= s);
    assert(t.skip(0) =~= t);
    while i < a.len() && i < b.len()
        invariant
            i <= a@.len(),
            i <= b@.len(),
            s == views(a@),
            t == views(b@),
            path_before(s, t) == path_before(s.skip(i as int), t.skip(i as int)),
        decreases a@.len() - i,
    {
        proof {
            assert(s.skip(i as int)[0] == a@[i as int]@);
            assert(t.skip(i as int)[0] == b@[i as int]@);
            assert(s.skip(i as int).drop_first() =~= s.skip(i + 1));
            assert(t.skip(i as int).drop_first() =~= t.skip(i + 1));
        }
        if !same_part(&a[i], &b[i]) {
            return part_comes_first(&a[i], &b[i]);
        }
        i += 1;
    }
    assert(s.skip(i as int).len() == a@.len() - i);
    assert(t.skip(i as int).len() == b@.len() - i);
    i < b.len()
}

/// No path comes before itself.
pub proof fn lemma_path_irreflexive(a: Seq<PartView>)
    ensures
        !path_before(a, a),
    decreases a.len(),
{
    if a.len() > 0 {
        lemma_path_irreflexive(a.drop_first());
    }
}

/// What comes before a part that comes before a third comes before that one.
proof fn lemma_part_transitive(a: PartView, b: PartView, c: PartView)
    requires
        part_before(a, b),
        part_before(b, c),
    ensures
        part_before(a, c),
        a != c,
{
    if a.kind == b.kind && b.kind == c.kind {
        if text::before(a.name, b.name) && text::before(b.name, c.name) {
            text::lemma_before_transitive(a.name, b.name, c.name);
        }
        if text::before(a.share, b.share) && text::before(b.share, c.share) {
            text::lemma_before_transitive(a.share, b.share, c.share);
        }
    }
    text::lemma_before_irreflexive(a.name);
    text::lemma_before_irreflexive(a.share);
}

/// What comes before a path that comes before a third comes before that one.
pub proof fn lemma_path_transitive(a: Seq<PartView>, b: Seq<PartView>, c: Seq<PartView>)
    requires
        path_before(a, b),
        path_before(b, c),
    ensures
        path_before(a, c),
    decreases a.len(),
{
    if a.len() > 0 {
        if a[0] == b[0] && b[0] == c[0] {
            lemma_path_transitive(a.drop_first(), b.drop_first(), c.drop_first());
        } else if a[0] != b[0] && b[0] != c[0] {
            lemma_part_transitive(a[0], b[0], c[0]);
        }
    }
}

} // verus!
