//! One repository, however it is written.

use vstd::prelude::*;

use crate::op;
use crate::seqs;
use crate::text;

verus! {

broadcast use crate::seqs::group_seqs;

/// The repositories of two lists are those of the one and those of the other.
proof fn lemma_specs_added(a: Seq<Seq<char>>, b: Seq<Seq<char>>)
    ensures
        op::repo_specs(a + b) == op::repo_specs(a) + op::repo_specs(b),
    decreases b.len(),
{
    if b.len() == 0 {
        assert(a + b =~= a);
        assert(op::repo_specs(a) + op::repo_specs(b) =~= op::repo_specs(a));
    } else {
        lemma_specs_added(a, b.drop_last());
        assert((a + b).drop_last() =~= a + b.drop_last());
        assert((a + b).last() == b.last());
        assert(op::repo_specs(a + b) =~= op::repo_specs(a) + op::repo_specs(b));
    }
}

/// A merge of lists has the repositories of both, and each once.
pub proof fn law_merge_has_both(existing: Seq<Seq<char>>, requested: Seq<Seq<char>>, name: Seq<char>)
    ensures
        seqs::deduped(op::repo_specs(existing + requested)).contains(name) <==> op::repo_specs(
            existing,
        ).contains(name) || op::repo_specs(requested).contains(name),
        seqs::deduped(op::repo_specs(existing + requested)).no_duplicates(),
{
    lemma_specs_added(existing, requested);
    let a = op::repo_specs(existing);
    let b = op::repo_specs(requested);
    seqs::law_deduped(a + b);
    if a.contains(name) {
        let i = choose|i: int| 0 <= i < a.len() && a[i] == name;
        assert((a + b)[i] == name);
    }
    if b.contains(name) {
        let i = choose|i: int| 0 <= i < b.len() && b[i] == name;
        assert((a + b)[a.len() + i] == name);
    }
}

/// Whether `c` may stand in the name of an owner or of a repository.
pub open spec fn is_part_char(c: char) -> bool {
    text::is_alnum(c) || c == '-' || c == '_' || c == '.'
}

/// Whether `s` is the name of an owner or of a repository.
pub open spec fn is_part(s: Seq<char>) -> bool {
    &&& s.len() > 0
    &&& forall|i: int| 0 <= i < s.len() ==> is_part_char(#[trigger] s[i])
}

/// An owner and a repository as a path.
pub open spec fn path_of(owner: Seq<char>, repo: Seq<char>) -> Seq<char> {
    owner + "/"@ + repo
}

/// What holds none of the separators is one piece.
proof fn lemma_one_piece(s: Seq<char>, set: Seq<char>)
    requires
        forall|i: int| 0 <= i < s.len() ==> !set.contains(#[trigger] s[i]),
    ensures
        text::pieces(s, set) == seq![s],
    decreases s.len(),
{
    if s.len() > 0 {
        let front = s.drop_last();
        assert forall|i: int| 0 <= i < front.len() implies !set.contains(#[trigger] front[i]) by {
            assert(front[i] == s[i]);
        }
        lemma_one_piece(front, set);
        assert(!set.contains(s[s.len() - 1]));
        assert(seq![front].last().push(s.last()) =~= s);
        assert(text::pieces(s, set) =~= seq![s]);
    } else {
        assert(s =~= Seq::empty());
    }
}

/// What holds one separator is two pieces.
proof fn lemma_two_pieces(a: Seq<char>, c: char, b: Seq<char>)
    requires
        !a.contains(c),
        !b.contains(c),
    ensures
        text::pieces(a + seq![c] + b, seq![c]) == seq![a, b],
    decreases b.len(),
{
    let s = a + seq![c] + b;
    let set = seq![c];
    assert(set[0] == c);
    if b.len() == 0 {
        assert(s.drop_last() =~= a);
        assert(s.last() == c);
        assert(set.contains(c));
        assert forall|i: int| 0 <= i < a.len() implies !set.contains(#[trigger] a[i]) by {
            assert(a.contains(a[i]));
        }
        lemma_one_piece(a, set);
        assert(b =~= Seq::empty());
        assert(text::pieces(s, set) =~= seq![a, b]);
    } else {
        let front = b.drop_last();
        assert forall|x: char| front.contains(x) implies b.contains(x) by {
            let i = choose|i: int| 0 <= i < front.len() && front[i] == x;
            assert(b[i] == x);
        }
        lemma_two_pieces(a, c, front);
        assert(s.drop_last() =~= a + seq![c] + front);
        assert(s.last() == b.last());
        assert(b.contains(b.last()));
        assert(!set.contains(s.last()));
        let before = seq![a, front];
        assert(before.last().push(s.last()) =~= b);
        assert(text::pieces(s, set) =~= seq![a, b]);
    }
}

/// Whether `c` can stand in a part of a path that no query follows.
pub open spec fn is_plain_char(c: char) -> bool {
    c != '/' && c != '?' && c != '#'
}

/// Whether `s` is such a part.
pub open spec fn is_plain(s: Seq<char>) -> bool {
    &&& s.len() > 0
    &&& forall|i: int| 0 <= i < s.len() ==> is_plain_char(#[trigger] s[i])
}

/// Names are parts of paths.
proof fn lemma_part_plain(s: Seq<char>)
    requires
        is_part(s),
    ensures
        is_plain(s),
{
    assert forall|i: int| 0 <= i < s.len() implies is_plain_char(#[trigger] s[i]) by {
        assert(is_part_char(s[i]));
    }
}

/// An owner and a repository are the last two parts of their path, with the usual suffix or
/// without it.
proof fn lemma_last_two(owner: Seq<char>, repo: Seq<char>)
    requires
        is_plain(owner),
        is_plain(repo),
        !text::ends(repo, ".git"@),
    ensures
        op::last_two(op::without_query(path_of(owner, repo))) == Some((owner, repo)),
        op::last_two(op::without_query(path_of(owner, repo) + ".git"@)) == Some((owner, repo)),
{
    reveal_strlit("/");
    reveal_strlit(".git");
    let path = path_of(owner, repo);
    let longer = path + ".git"@;
    let n = owner.len() as int;
    assert(path[n] == '/');
    assert forall|i: int| 0 <= i < longer.len() implies #[trigger] longer[i] == '/' || is_plain_char(
        longer[i],
    ) by {
        if i < n {
            assert(longer[i] == owner[i]);
        } else if n < i < path.len() {
            assert(longer[i] == repo[i - n - 1]);
        }
    }
    let query = seq!['?', '#'];
    assert forall|i: int| 0 <= i < longer.len() implies !query.contains(#[trigger] longer[i]) by {
        if query.contains(longer[i]) {
            let k = choose|k: int| 0 <= k < query.len() && query[k] == longer[i];
        }
    }
    assert forall|i: int| 0 <= i < path.len() implies !query.contains(#[trigger] path[i]) by {
        assert(path[i] == longer[i]);
    }
    lemma_one_piece(path, query);
    lemma_one_piece(longer, query);
    assert(op::without_query(path) == path);
    assert(op::without_query(longer) == longer);

    // Neither begins or ends with a slash.
    assert(path[0] == owner[0] && longer[0] == owner[0]);
    assert(path.last() == repo.last() && longer.last() == 't');
    assert(is_plain_char(owner[0]) && is_plain_char(repo[repo.len() - 1]));
    let slash = seq!['/'];
    assert(forall|c: char| slash.contains(c) ==> c == '/');
    assert(text::stripped_of(path, '/') == path);
    assert(text::stripped_of(longer, '/') == longer);

    // The suffix goes, and nothing else.
    if text::ends(path, ".git"@) {
        let tail = path.subrange(path.len() - 4, path.len() as int);
        if repo.len() >= 4 {
            assert(repo.subrange(repo.len() - 4, repo.len() as int) =~= tail);
        } else {
            assert(tail[3 - repo.len()] == '/');
        }
        assert(false);
    }
    assert(text::without_suffixes(path, ".git"@) == path);
    assert(longer.subrange(longer.len() - 4, longer.len() as int) =~= ".git"@);
    assert(longer.subrange(0, longer.len() - 4) =~= path);
    assert(text::without_suffixes(longer, ".git"@) == path);

    // What is left are the two parts.
    assert forall|i: int| 0 <= i < owner.len() implies #[trigger] owner[i] != '/' by {
        assert(is_plain_char(owner[i]));
    }
    assert forall|i: int| 0 <= i < repo.len() implies #[trigger] repo[i] != '/' by {
        assert(is_plain_char(repo[i]));
    }
    lemma_two_pieces(owner, '/', repo);
    assert(path =~= owner + seq!['/'] + repo);
    let parts = seq![owner, repo];
    assert(parts.drop_last() =~= seq![owner]);
    assert(parts.drop_last().drop_last() =~= Seq::<Seq<char>>::empty());
    reveal_with_fuel(text::filled_parts, 3);
    assert(text::filled_parts(seq![owner]) =~= seq![owner]);
    assert(text::filled_parts(parts) =~= parts);
}

/// A repository has the same name as a path, as a URL and as an address for SSH, whatever the case
/// of its letters: owner and repository in lower case. Left out are repositories whose own name
/// ends in `.git`.
pub proof fn law_repository_forms(owner: Seq<char>, repo: Seq<char>)
    requires
        is_part(owner),
        is_part(repo),
        !text::ends(repo, ".git"@),
    ensures
        op::repo_spec(path_of(owner, repo)) == Some(
            path_of(text::lowered(owner), text::lowered(repo)),
        ),
        op::repo_spec("https://github.com/"@ + path_of(owner, repo) + ".git"@) == Some(
            path_of(text::lowered(owner), text::lowered(repo)),
        ),
        op::repo_spec("git@github.com:"@ + path_of(owner, repo) + ".git"@) == Some(
            path_of(text::lowered(owner), text::lowered(repo)),
        ),
{
    lemma_part_plain(owner);
    lemma_part_plain(repo);
    lemma_last_two(owner, repo);
    lemma_plain_form(owner, repo);
    lemma_url_form(owner, repo);
    lemma_ssh_form(owner, repo);
}

/// What has no white space at its ends and no slash at its end is not trimmed.
proof fn lemma_untrimmed(s: Seq<char>)
    requires
        s.len() > 0,
        !text::is_white(s[0]),
        !text::is_white(s.last()),
        s.last() != '/',
    ensures
        text::without_trailing(text::trimmed(s), seq!['/']) == s,
        text::trimmed(s) == s,
{
    let slash = seq!['/'];
    assert(forall|c: char| slash.contains(c) ==> c == '/');
}

/// The characters of a path with the usual suffix.
proof fn lemma_path_chars(owner: Seq<char>, repo: Seq<char>)
    requires
        is_part(owner),
        is_part(repo),
    ensures
        forall|i: int|
            #![trigger (path_of(owner, repo) + ".git"@)[i]]
            0 <= i < (path_of(owner, repo) + ".git"@).len() ==> {
                let c = (path_of(owner, repo) + ".git"@)[i];
                c == '/' || is_part_char(c)
            },
        forall|i: int|
            #![trigger path_of(owner, repo)[i]]
            0 <= i < path_of(owner, repo).len() ==> path_of(owner, repo)[i] == '/' || is_part_char(
                path_of(owner, repo)[i],
            ),
        is_part_char(path_of(owner, repo)[0]),
        is_part_char(path_of(owner, repo).last()),
        path_of(owner, repo).len() > 0,
{
    reveal_strlit("/");
    reveal_strlit(".git");
    let path = path_of(owner, repo);
    let longer = path + ".git"@;
    let n = owner.len() as int;
    assert forall|i: int| 0 <= i < path.len() implies #[trigger] path[i] == '/' || is_part_char(
        path[i],
    ) by {
        if i < n {
            assert(path[i] == owner[i]);
        } else if n < i {
            assert(path[i] == repo[i - n - 1]);
        }
    }
    assert forall|i: int| 0 <= i < longer.len() implies #[trigger] longer[i] == '/' || is_part_char(
        longer[i],
    ) by {
        if i < path.len() {
            assert(longer[i] == path[i]);
        }
    }
    assert(path[0] == owner[0]);
    assert(path.last() == repo[repo.len() - 1]);
}

/// A path names its repository.
proof fn lemma_plain_form(owner: Seq<char>, repo: Seq<char>)
    requires
        is_part(owner),
        is_part(repo),
        op::last_two(op::without_query(path_of(owner, repo))) == Some((owner, repo)),
    ensures
        op::repo_spec(path_of(owner, repo)) == Some(
            path_of(text::lowered(owner), text::lowered(repo)),
        ),
{
    reveal_strlit("://");
    let s = path_of(owner, repo);
    lemma_path_chars(owner, repo);
    lemma_untrimmed(s);
    text::lemma_first_match(s, "://"@, 0);
    if let Some(i) = text::first_match(s, "://"@, 0) {
        assert(s.subrange(i, i + 3)[0] == s[i]);
    }
    if s.contains('@') {
        let i = choose|i: int| 0 <= i < s.len() && s[i] == '@';
    }
}

/// A URL names its repository.
proof fn lemma_url_form(owner: Seq<char>, repo: Seq<char>)
    requires
        is_part(owner),
        is_part(repo),
        op::last_two(op::without_query(path_of(owner, repo) + ".git"@)) == Some((owner, repo)),
    ensures
        op::repo_spec("https://github.com/"@ + path_of(owner, repo) + ".git"@) == Some(
            path_of(text::lowered(owner), text::lowered(repo)),
        ),
{
    reveal_strlit("://");
    reveal_strlit("/");
    reveal_strlit(".git");
    reveal_strlit("https://github.com/");
    let path = path_of(owner, repo) + ".git"@;
    let head = "https://github.com/"@;
    let s = head + path_of(owner, repo) + ".git"@;
    assert(s =~= head + path);
    lemma_path_chars(owner, repo);
    assert(s.last() == 't' && s[0] == 'h');
    lemma_untrimmed(s);
    assert(s.subrange(5, 8) =~= "://"@);
    assert forall|j: int| 0 <= j < 5 implies !text::matches_at(s, "://"@, j) by {
        if text::matches_at(s, "://"@, j) {
            assert(s.subrange(j, j + 3)[0] == s[j]);
            assert(s[j] == head[j]);
        }
    }
    text::lemma_first_match_is(s, "://"@, 0, 5);
    let rest = s.subrange(8, s.len() as int);
    assert(rest.subrange(10, 11) =~= "/"@);
    assert forall|j: int| 0 <= j < 10 implies !text::matches_at(rest, "/"@, j) by {
        if text::matches_at(rest, "/"@, j) {
            assert(rest.subrange(j, j + 1)[0] == rest[j]);
            assert(rest[j] == head[j + 8]);
        }
    }
    text::lemma_first_match_is(rest, "/"@, 0, 10);
    assert(rest.subrange(11, rest.len() as int) =~= path);
}

/// An address for SSH names its repository.
proof fn lemma_ssh_form(owner: Seq<char>, repo: Seq<char>)
    requires
        is_part(owner),
        is_part(repo),
        op::last_two(op::without_query(path_of(owner, repo) + ".git"@)) == Some((owner, repo)),
    ensures
        op::repo_spec("git@github.com:"@ + path_of(owner, repo) + ".git"@) == Some(
            path_of(text::lowered(owner), text::lowered(repo)),
        ),
{
    reveal_strlit("://");
    reveal_strlit(":");
    reveal_strlit(".git");
    reveal_strlit("git@github.com:");
    let path = path_of(owner, repo) + ".git"@;
    let head = "git@github.com:"@;
    let s = head + path_of(owner, repo) + ".git"@;
    assert(s =~= head + path);
    lemma_path_chars(owner, repo);
    assert(s.last() == 't' && s[0] == 'g' && s[3] == '@' && s[14] == ':');
    assert(s[15] == path_of(owner, repo)[0]);
    lemma_untrimmed(s);
    assert forall|j: int| 0 <= j < s.len() && #[trigger] s[j] == ':' implies j == 14 by {
        if j < 15 {
            assert(s[j] == head[j]);
        } else {
            assert(s[j] == path[j - 15]);
        }
    }
    text::lemma_first_match(s, "://"@, 0);
    if let Some(i) = text::first_match(s, "://"@, 0) {
        assert(s.subrange(i, i + 3)[0] == s[i]);
        assert(s.subrange(i, i + 3)[1] == s[i + 1]);
    }
    assert(s.contains('@'));
    assert(s.contains(':'));
    assert(s.subrange(14, 15) =~= ":"@);
    assert forall|j: int| 0 <= j < 14 implies !text::matches_at(s, ":"@, j) by {
        if text::matches_at(s, ":"@, j) {
            assert(s.subrange(j, j + 1)[0] == s[j]);
        }
    }
    text::lemma_first_match_is(s, ":"@, 0, 14);
    assert(s.subrange(15, s.len() as int) =~= path);
}

/// Whether no question mark and no hash stands in `s`.
spec fn is_unqueried(s: Seq<char>) -> bool {
    forall|i: int| 0 <= i < s.len() ==> #[trigger] s[i] != '?' && s[i] != '#'
}

/// Stripping leaves no other characters.
proof fn lemma_leading_unqueried(s: Seq<char>, c: char)
    requires
        is_unqueried(s),
    ensures
        is_unqueried(text::without_leading(s, c)),
    decreases s.len(),
{
    if s.len() > 0 && s[0] == c {
        assert forall|i: int| 0 <= i < s.drop_first().len() implies #[trigger] s.drop_first()[i]
            != '?' && s.drop_first()[i] != '#' by {
            assert(s.drop_first()[i] == s[i + 1]);
        }
        lemma_leading_unqueried(s.drop_first(), c);
    }
}

/// Stripping leaves no other characters.
proof fn lemma_trailing_unqueried(s: Seq<char>, set: Seq<char>)
    requires
        is_unqueried(s),
    ensures
        is_unqueried(text::without_trailing(s, set)),
    decreases s.len(),
{
    if s.len() > 0 && set.contains(s.last()) {
        assert forall|i: int| 0 <= i < s.drop_last().len() implies #[trigger] s.drop_last()[i]
            != '?' && s.drop_last()[i] != '#' by {
            assert(s.drop_last()[i] == s[i]);
        }
        lemma_trailing_unqueried(s.drop_last(), set);
    }
}

/// Taking suffixes off leaves no other characters.
proof fn lemma_suffixes_unqueried(s: Seq<char>, p: Seq<char>)
    requires
        is_unqueried(s),
    ensures
        is_unqueried(text::without_suffixes(s, p)),
    decreases s.len(),
{
    if p.len() > 0 && text::ends(s, p) {
        let front = s.subrange(0, s.len() - p.len());
        assert forall|i: int| 0 <= i < front.len() implies #[trigger] front[i] != '?' && front[i]
            != '#' by {
            assert(front[i] == s[i]);
        }
        lemma_suffixes_unqueried(front, p);
    }
}

/// The parts that are left are filled, and were there.
proof fn lemma_filled_parts(parts: Seq<Seq<char>>, i: int)
    requires
        0 <= i < text::filled_parts(parts).len(),
    ensures
        text::filled_parts(parts)[i].len() > 0,
        parts.contains(text::filled_parts(parts)[i]),
    decreases parts.len(),
{
    if parts.len() > 0 {
        let front = parts.drop_last();
        let before = text::filled_parts(front);
        if i < before.len() {
            lemma_filled_parts(front, i);
            let k = choose|k: int| 0 <= k < front.len() && front[k] == before[i];
            assert(parts[k] == before[i]);
        } else {
            assert(parts[parts.len() - 1] == parts.last());
        }
    }
}

/// The last two parts of a path without its query are plain.
proof fn lemma_parts_plain(path: Seq<char>)
    requires
        op::last_two(op::without_query(path)) is Some,
    ensures
        op::last_two(op::without_query(path)) matches Some((owner, repo)) ==> is_plain(owner)
            && is_plain(repo),
{
    let query = seq!['?', '#'];
    let slash = seq!['/'];
    assert(query[0] == '?' && query[1] == '#' && slash[0] == '/');
    let cut = op::without_query(path);
    text::lemma_pieces_nonempty(path, query);
    text::lemma_pieces_chars(path, query, 0);
    assert forall|i: int| 0 <= i < cut.len() implies #[trigger] cut[i] != '?' && cut[i] != '#' by {
        assert(!query.contains(cut[i]));
    }
    lemma_leading_unqueried(cut, '/');
    lemma_trailing_unqueried(text::without_leading(cut, '/'), slash);
    let stripped = text::stripped_of(cut, '/');
    lemma_suffixes_unqueried(stripped, ".git"@);
    let n = text::without_suffixes(stripped, ".git"@);
    let parts = text::pieces(n, slash);
    let segments = text::filled_parts(parts);
    assert forall|i: int| 0 <= i < segments.len() implies is_plain(#[trigger] segments[i]) by {
        lemma_filled_parts(parts, i);
        let k = choose|k: int| 0 <= k < parts.len() && parts[k] == segments[i];
        text::lemma_pieces_chars(n, slash, k);
        let part = parts[k];
        assert forall|j: int| 0 <= j < part.len() implies is_plain_char(#[trigger] part[j]) by {
            assert(n.contains(part[j]) && !slash.contains(part[j]));
            let at = choose|at: int| 0 <= at < n.len() && n[at] == part[j];
            assert(n[at] != '?' && n[at] != '#');
        }
    }
}

/// Whether exactly one slash stands in `s`, with something on both sides.
pub open spec fn has_one_slash(s: Seq<char>) -> bool {
    exists|i: int|
        0 < i < s.len() - 1 && #[trigger] s[i] == '/' && (forall|j: int|
            0 <= j < s.len() && j != i ==> #[trigger] s[j] != '/')
}

/// What names a repository is an owner and a repository: two plain parts in lower case.
proof fn lemma_spec_parts(value: Seq<char>) -> (parts: (Seq<char>, Seq<char>))
    requires
        op::repo_spec(value) is Some,
    ensures
        is_plain(parts.0),
        is_plain(parts.1),
        op::repo_spec(value) == Some(path_of(text::lowered(parts.0), text::lowered(parts.1))),
{
    let s = text::without_trailing(text::trimmed(value), seq!['/']);
    let path = match text::parted(s, "://"@) {
        Some((_, rest)) => (text::parted(rest, "/"@)->0).1,
        None => if s.contains('@') && s.contains(':') {
            (text::parted(s, ":"@)->0).1
        } else {
            s
        },
    };
    lemma_parts_plain(path);
    op::last_two(op::without_query(path))->0
}

/// A plain part in lower case is plain, has no ASCII capital, and is itself in lower case.
proof fn lemma_lowered_plain(s: Seq<char>)
    requires
        is_plain(s),
    ensures
        is_plain(text::lowered(s)),
        forall|i: int| 0 <= i < s.len() ==> !('A' <= #[trigger] text::lowered(s)[i] <= 'Z'),
        text::lowered(text::lowered(s)) == text::lowered(s),
{
    let t = text::lowered(s);
    assert forall|i: int| 0 <= i < t.len() implies is_plain_char(#[trigger] t[i]) && !('A' <= t[i]
        <= 'Z') by {
        assert(is_plain_char(s[i]));
        assert(t[i] == text::lower(s[i]));
    }
    assert(text::lowered(t) =~= t);
}

/// Whatever text names a repository, the name has exactly one slash with something on both sides,
/// no ASCII capital, no question mark and no hash.
pub proof fn law_repository_shape(value: Seq<char>)
    requires
        op::repo_spec(value) is Some,
    ensures
        ({
            let name = op::repo_spec(value)->0;
            &&& has_one_slash(name)
            &&& forall|i: int|
                0 <= i < name.len() ==> #[trigger] name[i] != '?' && name[i] != '#' && !('A'
                    <= name[i] <= 'Z')
        }),
{
    reveal_strlit("/");
    let (owner, repo) = lemma_spec_parts(value);
    let a = text::lowered(owner);
    let b = text::lowered(repo);
    lemma_lowered_plain(owner);
    lemma_lowered_plain(repo);
    let name = path_of(a, b);
    let n = a.len() as int;
    assert(name[n] == '/');
    assert forall|i: int| 0 <= i < name.len() && i != n implies is_plain_char(#[trigger] name[i])
        && !('A' <= name[i] <= 'Z') by {
        if i < n {
            assert(name[i] == a[i]);
        } else {
            assert(name[i] == b[i - n - 1]);
        }
    }
    assert forall|j: int| 0 <= j < name.len() && j != n implies #[trigger] name[j] != '/' by {
        assert(is_plain_char(name[j]));
    }
    assert(has_one_slash(name));
}

/// The name of a repository names itself. Left out are names that begin or end with white space,
/// that end in `.git`, or that hold both an at sign and a colon.
pub proof fn law_repository_again(value: Seq<char>)
    requires
        op::repo_spec(value) is Some,
        ({
            let name = op::repo_spec(value)->0;
            &&& !text::is_white(name[0])
            &&& !text::is_white(name.last())
            &&& !text::ends(name, ".git"@)
            &&& !(name.contains('@') && name.contains(':'))
        }),
    ensures
        op::repo_spec(op::repo_spec(value)->0) == op::repo_spec(value),
{
    reveal_strlit("/");
    reveal_strlit(".git");
    reveal_strlit("://");
    let (owner, repo) = lemma_spec_parts(value);
    let a = text::lowered(owner);
    let b = text::lowered(repo);
    lemma_lowered_plain(owner);
    lemma_lowered_plain(repo);
    let name = path_of(a, b);
    let n = a.len() as int;
    if text::ends(b, ".git"@) {
        assert(name.subrange(name.len() - 4, name.len() as int) =~= b.subrange(
            b.len() - 4,
            b.len() as int,
        ));
    }
    lemma_last_two(a, b);
    assert(name.last() == b[b.len() - 1]);
    assert(is_plain_char(b[b.len() - 1]));
    lemma_untrimmed(name);
    text::lemma_first_match(name, "://"@, 0);
    if let Some(i) = text::first_match(name, "://"@, 0) {
        let part = name.subrange(i, i + 3);
        assert(part[1] == name[i + 1] && part[2] == name[i + 2]);
        assert forall|j: int| 0 <= j < name.len() && j != n implies #[trigger] name[j] != '/' by {
            if j < n {
                assert(name[j] == a[j] && is_plain_char(a[j]));
            } else {
                assert(name[j] == b[j - n - 1] && is_plain_char(b[j - n - 1]));
            }
        }
        assert(false);
    }
}

/// What is there already is not put in again.
proof fn lemma_deduped_known(s: Seq<Seq<char>>, more: Seq<Seq<char>>)
    requires
        s.no_duplicates(),
        forall|i: int| 0 <= i < more.len() ==> s.contains(#[trigger] more[i]),
    ensures
        seqs::deduped(s + more) == s,
    decreases more.len(),
{
    if more.len() == 0 {
        assert(s + more =~= s);
        seqs::law_deduped_keeps_distinct(s);
    } else {
        let front = more.drop_last();
        assert forall|i: int| 0 <= i < front.len() implies s.contains(#[trigger] front[i]) by {
            assert(front[i] == more[i]);
        }
        lemma_deduped_known(s, front);
        assert((s + more).drop_last() =~= s + front);
        assert((s + more).last() == more[more.len() - 1]);
    }
}

/// Names that name themselves are the repositories that they name.
pub proof fn lemma_own_names(names: Seq<Seq<char>>)
    requires
        forall|i: int|
            0 <= i < names.len() ==> op::repo_spec(#[trigger] names[i]) == Some(names[i]),
    ensures
        op::repo_specs(names) == names,
    decreases names.len(),
{
    if names.len() > 0 {
        let front = names.drop_last();
        assert forall|i: int| 0 <= i < front.len() implies op::repo_spec(#[trigger] front[i]) == Some(
            front[i],
        ) by {
            assert(front[i] == names[i]);
        }
        lemma_own_names(front);
        assert(names[names.len() - 1] == names.last());
        assert(front.push(names.last()) =~= names);
    }
}

/// Merging the same repositories once more into a merged list leaves it as it is, where each name
/// in it names itself.
pub proof fn law_merge_lists_twice(existing: Seq<Seq<char>>, requested: Seq<Seq<char>>)
    requires
        forall|i: int|
            0 <= i < op::repo_specs(existing + requested).len() ==> op::repo_spec(
                #[trigger] op::repo_specs(existing + requested)[i],
            ) == Some(op::repo_specs(existing + requested)[i]),
    ensures
        ({
            let once = seqs::deduped(op::repo_specs(existing + requested));
            seqs::deduped(op::repo_specs(once + requested)) == once
        }),
{
    let all = op::repo_specs(existing + requested);
    let once = seqs::deduped(all);
    let more = op::repo_specs(requested);
    seqs::law_deduped(all);
    lemma_specs_added(existing, requested);
    lemma_specs_added(once, requested);
    assert forall|i: int| 0 <= i < once.len() implies op::repo_spec(#[trigger] once[i]) == Some(
        once[i],
    ) by {
        assert(once.contains(once[i]));
        let k = choose|k: int| 0 <= k < all.len() && all[k] == once[i];
        assert(op::repo_spec(all[k]) == Some(all[k]));
    }
    lemma_own_names(once);
    assert forall|i: int| 0 <= i < more.len() implies once.contains(#[trigger] more[i]) by {
        let at = op::repo_specs(existing).len() + i;
        assert(all[at] == more[i]);
        assert(all.contains(more[i]));
    }
    lemma_deduped_known(once, more);
}

} // verus!
