//! What holds of the repositories that URLs and addresses name.

use vstd::prelude::*;
use vstd::string::*;

use crate::op;
use crate::text;
use crate::text_laws;

verus! {

broadcast use crate::seqs::group_seqs;

/// Whether neither a question mark nor a hash stands in `s`.
pub open spec fn is_unqueried(s: Seq<char>) -> bool {
    !s.contains('?') && !s.contains('#')
}

/// Whether `s` can be the name of an owner or a repository in a URL.
pub open spec fn is_segment(s: Seq<char>) -> bool {
    s.len() > 0 && !s.contains('/') && is_unqueried(s)
}

/// Whether `s` ends with `.git`.
pub open spec fn ends_in_git(s: Seq<char>) -> bool {
    s.len() >= 4 && s.subrange(s.len() - 4, s.len() as int) == ".git"@
}

/// Whether all of `s` are slashes.
pub open spec fn all_slashes(s: Seq<char>) -> bool {
    forall|i: int| 0 <= i < s.len() ==> #[trigger] s[i] == '/'
}

/// What holds none of the separators is one piece.
proof fn lemma_whole_piece(s: Seq<char>, set: Seq<char>)
    requires
        forall|i: int| 0 <= i < s.len() ==> !set.contains(#[trigger] s[i]),
    ensures
        text::pieces(s, set) == seq![s],
{
    let none = Seq::<char>::empty();
    text::lemma_pieces_appended(none, s, set);
    assert(text::pieces(none, set) =~= seq![none]);
    assert(none + s =~= s);
    assert(seq![none].drop_last().push(s) =~= seq![s]);
}

/// A text without a query is kept, and a query behind it goes.
proof fn lemma_query(s: Seq<char>, c: char, query: Seq<char>)
    requires
        is_unqueried(s),
        c == '?' || c == '#',
    ensures
        op::without_query(s) == s,
        op::without_query(s + seq![c] + query) == s,
{
    let set = seq!['?', '#'];
    assert(set[0] == '?' && set[1] == '#');
    assert forall|i: int| 0 <= i < s.len() implies !set.contains(#[trigger] s[i]) by {
        assert(s.contains(s[i]));
        if set.contains(s[i]) {
            let k = choose|k: int| 0 <= k < set.len() && set[k] == s[i];
        }
    }
    lemma_whole_piece(s, set);
    assert(set.contains(c));
    text::lemma_pieces_apart(s, c, query, set);
}

/// Parts that are not empty are picked out one after the other.
proof fn lemma_filled_apart(a: Seq<Seq<char>>, b: Seq<Seq<char>>)
    ensures
        text::filled_parts(a + b) == text::filled_parts(a) + text::filled_parts(b),
    decreases b.len(),
{
    if b.len() == 0 {
        assert(a + b =~= a);
        assert(text::filled_parts(a) + text::filled_parts(b) =~= text::filled_parts(a));
    } else {
        lemma_filled_apart(a, b.drop_last());
        assert((a + b).drop_last() =~= a + b.drop_last());
        assert((a + b).last() == b.last());
        assert(text::filled_parts(a + b) =~= text::filled_parts(a) + text::filled_parts(b));
    }
}

/// Taking slashes off the front of a path leaves a path that ends the same way.
proof fn lemma_leading_slashes(above: Seq<char>, own: Seq<char>) -> (left: Seq<char>)
    requires
        own.len() > 0,
        own[0] != '/',
        above.len() > 0 ==> above.last() == '/',
    ensures
        text::without_leading(above + own, '/') == left + own,
        left.len() > 0 ==> left.last() == '/' && left[0] != '/',
    decreases above.len(),
{
    let s = above + own;
    if above.len() == 0 {
        assert(s =~= own);
        assert(above + own =~= own);
        above
    } else if above[0] == '/' {
        let less = above.drop_first();
        assert(s[0] == '/');
        assert(s.drop_first() =~= less + own);
        if less.len() > 0 {
            assert(less.last() == above.last());
        }
        lemma_leading_slashes(less, own)
    } else {
        assert(s[0] == above[0]);
        above
    }
}

/// Taking slashes off the end of a path leaves what stood before them.
proof fn lemma_trailing_slashes(s: Seq<char>, slashes: Seq<char>)
    requires
        s.len() > 0,
        s.last() != '/',
        all_slashes(slashes),
    ensures
        text::without_trailing(s + slashes, seq!['/']) == s,
    decreases slashes.len(),
{
    let set = seq!['/'];
    assert(set[0] == '/');
    let all = s + slashes;
    if slashes.len() == 0 {
        assert(all =~= s);
        if set.contains(s.last()) {
            assert(set[0] == s.last());
        }
    } else {
        let less = slashes.drop_last();
        assert(slashes[slashes.len() - 1] == '/');
        assert(all.last() == '/');
        assert(all.drop_last() =~= s + less);
        assert forall|i: int| 0 <= i < less.len() implies #[trigger] less[i] == '/' by {
            assert(less[i] == slashes[i]);
        }
        lemma_trailing_slashes(s, less);
    }
}

/// The suffix `.git` goes, and no more, where the name before it does not end so.
proof fn lemma_suffix(base: Seq<char>, suffixed: bool)
    requires
        !ends_in_git(base),
    ensures
        text::without_suffixes(
            base + (if suffixed {
                ".git"@
            } else {
                Seq::empty()
            }),
            ".git"@,
        ) == base,
{
    reveal_strlit(".git");
    let git = ".git"@;
    assert(!text::ends(base, git));
    assert(text::without_suffixes(base, git) == base);
    if suffixed {
        let s = base + git;
        assert(s.subrange(s.len() - 4, s.len() as int) =~= git);
        assert(s.subrange(0, s.len() - 4) =~= base);
    } else {
        assert(base + Seq::<char>::empty() =~= base);
    }
}

/// A path ends in `.git` only where its last part does.
proof fn lemma_git_ending(left: Seq<char>, owner: Seq<char>, repo: Seq<char>)
    requires
        repo.len() > 0,
        !ends_in_git(repo),
    ensures
        !ends_in_git(left + (owner + seq!['/'] + repo)),
{
    reveal_strlit(".git");
    let git = ".git"@;
    let base = left + (owner + seq!['/'] + repo);
    if ends_in_git(base) {
        let end = base.subrange(base.len() - 4, base.len() as int);
        if repo.len() >= 4 {
            assert(repo.subrange(repo.len() - 4, repo.len() as int) =~= end);
        } else {
            assert(end[3 - repo.len()] == '/');
            assert(git[3 - repo.len()] != '/');
        }
    }
}

/// The last two filled parts between slashes.
proof fn lemma_last_parts(left: Seq<char>, owner: Seq<char>, repo: Seq<char>)
    requires
        left.len() > 0 ==> left.last() == '/',
        is_segment(owner),
        is_segment(repo),
    ensures
        ({
            let all = text::filled_parts(
                text::pieces(left + (owner + seq!['/'] + repo), seq!['/']),
            );
            &&& all.len() >= 2
            &&& all[all.len() - 2] == owner
            &&& all[all.len() - 1] == repo
        }),
{
    let own = owner + seq!['/'] + repo;
    let base = left + own;
    let set = seq!['/'];
    assert(set[0] == '/');
    assert forall|i: int| 0 <= i < owner.len() implies !set.contains(#[trigger] owner[i]) by {
        assert(owner.contains(owner[i]));
        if set.contains(owner[i]) {
            assert(set[0] == owner[i]);
        }
    }
    assert forall|i: int| 0 <= i < repo.len() implies !set.contains(#[trigger] repo[i]) by {
        assert(repo.contains(repo[i]));
        if set.contains(repo[i]) {
            assert(set[0] == repo[i]);
        }
    }
    lemma_whole_piece(owner, set);
    lemma_whole_piece(repo, set);
    text::lemma_pieces_apart(owner, '/', repo, set);
    let two = seq![owner, repo];
    assert(text::pieces(own, set) =~= two);
    assert(text::filled_parts(two) =~= two) by {
        reveal_with_fuel(text::filled_parts, 3);
        assert(two.drop_last() =~= seq![owner]);
        assert(seq![owner].drop_last() =~= Seq::<Seq<char>>::empty());
    }
    if left.len() > 0 {
        let up = left.drop_last();
        assert(base =~= up + seq!['/'] + own);
        text::lemma_pieces_apart(up, '/', own, set);
        lemma_filled_apart(text::pieces(up, set), two);
    } else {
        assert(base =~= own);
    }
}

/// The last two parts of a path, with the usual suffix or without it, and with or without slashes
/// at its end.
proof fn lemma_path_ends(
    above: Seq<char>,
    owner: Seq<char>,
    repo: Seq<char>,
    suffixed: bool,
    slashes: Seq<char>,
)
    requires
        above.len() > 0 ==> above.last() == '/',
        is_segment(owner),
        is_segment(repo),
        !ends_in_git(repo),
        all_slashes(slashes),
    ensures
        op::last_two(
            above + (owner + seq!['/'] + repo) + (if suffixed {
                ".git"@
            } else {
                Seq::empty()
            }) + slashes,
        ) == Some((owner, repo)),
{
    reveal_strlit(".git");
    let own = owner + seq!['/'] + repo;
    let suffix = if suffixed {
        ".git"@
    } else {
        Seq::empty()
    };
    let tail = own + suffix;
    let path = above + own + suffix + slashes;
    assert(path =~= above + (tail + slashes));
    assert(owner.contains(owner[0]) && repo.contains(repo[repo.len() - 1]));
    assert((tail + slashes)[0] == owner[0]);
    let left = lemma_leading_slashes(above, tail + slashes);
    let s = left + tail;
    assert(left + (tail + slashes) =~= s + slashes);
    assert(s.last() == tail.last());
    if suffixed {
        assert(tail.last() == 't');
    } else {
        assert(tail.last() == repo[repo.len() - 1]);
    }
    lemma_trailing_slashes(s, slashes);
    assert(text::stripped_of(path, '/') == s);
    let base = left + own;
    assert(s =~= base + suffix);
    lemma_git_ending(left, owner, repo);
    lemma_suffix(base, suffixed);
    lemma_last_parts(left, owner, repo);
}

/// What stands at the end of a URL or an address: a path to a repository, with the usual suffix or
/// without it, and slashes.
pub open spec fn repository_path(
    above: Seq<char>,
    owner: Seq<char>,
    repo: Seq<char>,
    suffixed: bool,
    slashes: Seq<char>,
) -> Seq<char> {
    above + (owner + seq!['/'] + repo) + (if suffixed {
        ".git"@
    } else {
        Seq::empty()
    }) + slashes
}

/// A path to a repository has no query.
proof fn lemma_path_unqueried(
    above: Seq<char>,
    owner: Seq<char>,
    repo: Seq<char>,
    suffixed: bool,
    slashes: Seq<char>,
)
    requires
        is_unqueried(above),
        is_segment(owner),
        is_segment(repo),
        all_slashes(slashes),
    ensures
        is_unqueried(repository_path(above, owner, repo, suffixed, slashes)),
        repository_path(above, owner, repo, suffixed, slashes).len() > 0,
{
    reveal_strlit(".git");
    let slash = seq!['/'];
    let suffix = if suffixed {
        ".git"@
    } else {
        Seq::empty()
    };
    assert(is_unqueried(slash) && is_unqueried(suffix) && is_unqueried(slashes)) by {
        assert(forall|i: int| 0 <= i < suffix.len() ==> suffix[i] != '?' && suffix[i] != '#');
    }
    lemma_unqueried(owner, slash);
    lemma_unqueried(owner + slash, repo);
    lemma_unqueried(above, owner + slash + repo);
    lemma_unqueried(above + (owner + slash + repo), suffix);
    lemma_unqueried(above + (owner + slash + repo) + suffix, slashes);
}

/// Texts without a query make up one.
proof fn lemma_unqueried(a: Seq<char>, b: Seq<char>)
    requires
        is_unqueried(a),
        is_unqueried(b),
    ensures
        is_unqueried(a + b),
{
    let s = a + b;
    if s.contains('?') || s.contains('#') {
        let k = if s.contains('?') {
            choose|k: int| 0 <= k < s.len() && s[k] == '?'
        } else {
            choose|k: int| 0 <= k < s.len() && s[k] == '#'
        };
        if k < a.len() {
            assert(a[k] == s[k]);
        } else {
            assert(b[k - a.len()] == s[k]);
        }
    }
}

/// What stands behind the host in a URL.
proof fn lemma_url(scheme: Seq<char>, host: Seq<char>, path: Seq<char>)
    requires
        !scheme.contains(':'),
        !host.contains('/'),
    ensures
        ({
            let s = scheme + "://"@ + (host + "/"@ + path);
            &&& text::parted(s, "://"@) == Some((scheme, host + "/"@ + path))
            &&& text::parted(host + "/"@ + path, "/"@) == Some((host, path))
        }),
{
    reveal_strlit("://");
    reveal_strlit("/");
    text_laws::law_parted_by(scheme, "://"@, host + "/"@ + path);
    text_laws::law_parted_by(host, "/"@, path);
}

/// The URL of a remote names its repository: the last two parts of its path, without the suffix
/// `.git`, whether it is there or not, and without slashes and a query at its end. Any scheme will
/// do, and any host.
pub proof fn law_remote_url(
    scheme: Seq<char>,
    host: Seq<char>,
    above: Seq<char>,
    owner: Seq<char>,
    repo: Seq<char>,
    suffixed: bool,
    slashes: Seq<char>,
    c: char,
    query: Seq<char>,
)
    requires
        !scheme.contains(':'),
        is_unqueried(scheme),
        host.len() > 0,
        !host.contains('/'),
        is_unqueried(host),
        above.len() > 0 ==> above.last() == '/',
        is_unqueried(above),
        is_segment(owner),
        is_segment(repo),
        !ends_in_git(repo),
        all_slashes(slashes),
        c == '?' || c == '#',
    ensures
        ({
            let url = scheme + "://"@ + (host + "/"@ + repository_path(
                above,
                owner,
                repo,
                suffixed,
                slashes,
            ));
            &&& op::remote_repo(url) == Some(owner + "/"@ + repo)
            &&& op::remote_repo(url + seq![c] + query) == Some(owner + "/"@ + repo)
        }),
{
    reveal_strlit("://");
    reveal_strlit("/");
    let path = repository_path(above, owner, repo, suffixed, slashes);
    let url = scheme + "://"@ + (host + "/"@ + path);
    lemma_path_unqueried(above, owner, repo, suffixed, slashes);
    assert(is_unqueried("://"@) && is_unqueried("/"@));
    lemma_unqueried(host, "/"@);
    lemma_unqueried(host + "/"@, path);
    lemma_unqueried(scheme, "://"@);
    lemma_unqueried(scheme + "://"@, host + "/"@ + path);
    lemma_query(url, c, query);
    lemma_url(scheme, host, path);
    lemma_path_ends(above, owner, repo, suffixed, slashes);
}

/// Two slashes stand nowhere behind a colon in an address.
proof fn lemma_address(user: Seq<char>, host: Seq<char>, path: Seq<char>)
    requires
        !user.contains(':'),
        !host.contains(':'),
        !path.contains(':'),
        path.len() > 0,
        path[0] != '/',
    ensures
        ({
            let s = user + "@"@ + host + ":"@ + path;
            &&& text::parted(s, "://"@) is None
            &&& s.contains('@')
            &&& s.contains(':')
            &&& text::parted(s, ":"@) == Some((user + "@"@ + host, path))
        }),
{
    reveal_strlit("://");
    reveal_strlit(":");
    reveal_strlit("@");
    let head = user + "@"@ + host;
    let s = user + "@"@ + host + ":"@ + path;
    let n = head.len() as int;
    assert(s[user.len() as int] == '@');
    assert(s[n] == ':');
    assert(!head.contains(':')) by {
        if head.contains(':') {
            let k = choose|k: int| 0 <= k < head.len() && head[k] == ':';
            if k < user.len() {
                assert(user[k] == ':');
            } else if k > user.len() {
                assert(host[k - user.len() - 1] == ':');
            }
        }
    }
    assert forall|j: int| 0 <= j && j + "://"@.len() <= s.len() implies #[trigger] s.subrange(
        j,
        j + "://"@.len(),
    ) != "://"@ by {
        let part = s.subrange(j, j + 3);
        assert(part[0] == s[j] && part[1] == s[j + 1]);
        if s[j] == ':' {
            if j < n {
                assert(head[j] == ':');
            } else if j > n {
                assert(path[j - n - 1] == ':');
            } else {
                assert(s[j + 1] == path[0]);
            }
        }
    }
    text_laws::law_not_parted(s, "://"@);
    text_laws::law_parted_by(head, ":"@, path);
}

/// The address of a remote, with a user, a host and a path behind a colon, names its repository in
/// the same way.
pub proof fn law_remote_address(
    user: Seq<char>,
    host: Seq<char>,
    above: Seq<char>,
    owner: Seq<char>,
    repo: Seq<char>,
    suffixed: bool,
    slashes: Seq<char>,
    c: char,
    query: Seq<char>,
)
    requires
        !user.contains(':'),
        is_unqueried(user),
        !host.contains(':'),
        is_unqueried(host),
        above.len() > 0 ==> above.last() == '/' && above[0] != '/',
        is_unqueried(above),
        !above.contains(':'),
        is_segment(owner),
        !owner.contains(':'),
        is_segment(repo),
        !repo.contains(':'),
        !ends_in_git(repo),
        all_slashes(slashes),
        c == '?' || c == '#',
    ensures
        ({
            let address = user + "@"@ + host + ":"@ + repository_path(
                above,
                owner,
                repo,
                suffixed,
                slashes,
            );
            &&& op::remote_repo(address) == Some(owner + "/"@ + repo)
            &&& op::remote_repo(address + seq![c] + query) == Some(owner + "/"@ + repo)
        }),
{
    reveal_strlit("@");
    reveal_strlit(":");
    reveal_strlit("/");
    let path = repository_path(above, owner, repo, suffixed, slashes);
    let address = user + "@"@ + host + ":"@ + path;
    lemma_path_unqueried(above, owner, repo, suffixed, slashes);
    assert(is_unqueried("@"@) && is_unqueried(":"@));
    lemma_unqueried(user, "@"@);
    lemma_unqueried(user + "@"@, host);
    lemma_unqueried(user + "@"@ + host, ":"@);
    lemma_unqueried(user + "@"@ + host + ":"@, path);
    lemma_query(address, c, query);
    lemma_path_start(above, owner, repo, suffixed, slashes);
    lemma_address(user, host, path);
    lemma_path_ends(above, owner, repo, suffixed, slashes);
}

/// A path to a repository begins with no slash and holds no colon, where its parts do not.
proof fn lemma_path_start(
    above: Seq<char>,
    owner: Seq<char>,
    repo: Seq<char>,
    suffixed: bool,
    slashes: Seq<char>,
)
    requires
        above.len() > 0 ==> above[0] != '/',
        !above.contains(':'),
        is_segment(owner),
        !owner.contains(':'),
        is_segment(repo),
        !repo.contains(':'),
        all_slashes(slashes),
    ensures
        repository_path(above, owner, repo, suffixed, slashes)[0] != '/',
        !repository_path(above, owner, repo, suffixed, slashes).contains(':'),
{
    reveal_strlit(".git");
    let path = repository_path(above, owner, repo, suffixed, slashes);
    assert(owner.contains(owner[0]));
    if above.len() > 0 {
        assert(path[0] == above[0]);
    } else {
        assert(path[0] == owner[0]);
    }
    let own = owner + seq!['/'] + repo;
    let suffix = if suffixed {
        ".git"@
    } else {
        Seq::empty()
    };
    if path.contains(':') {
        let k = choose|k: int| 0 <= k < path.len() && path[k] == ':';
        let a = above.len() as int;
        let b = a + own.len();
        let d = b + suffix.len();
        if k < a {
            assert(above[k] == ':');
        } else if k < b {
            assert(own[k - a] == ':');
            if k - a < owner.len() {
                assert(owner[k - a] == ':');
            } else if k - a > owner.len() {
                assert(repo[k - a - owner.len() - 1] == ':');
            }
        } else if k < d {
            assert(suffix[k - b] == ':');
        } else {
            assert(slashes[k - d] == ':');
        }
    }
}

/// A text with neither a scheme nor a user names no remote.
pub proof fn law_no_remote(s: Seq<char>)
    requires
        is_unqueried(s),
        forall|j: int| 0 <= j && j + 3 <= s.len() ==> #[trigger] s.subrange(j, j + 3) != "://"@,
        !s.contains('@') || !s.contains(':'),
    ensures
        op::remote_repo(s) is None,
{
    reveal_strlit("://");
    lemma_query(s, '?', Seq::empty());
    text_laws::law_not_parted(s, "://"@);
}

/// A URL names its repository in lower case, with the suffix `.git` or without it.
pub proof fn law_url_spec(
    scheme: Seq<char>,
    host: Seq<char>,
    above: Seq<char>,
    owner: Seq<char>,
    repo: Seq<char>,
    suffixed: bool,
    slashes: Seq<char>,
)
    requires
        scheme.len() > 0,
        !text::is_white(scheme[0]),
        !scheme.contains(':'),
        !host.contains('/'),
        above.len() > 0 ==> above.last() == '/',
        is_unqueried(above),
        is_segment(owner),
        is_segment(repo),
        !text::is_white(repo.last()),
        !ends_in_git(repo),
        all_slashes(slashes),
    ensures
        op::repo_spec(
            scheme + "://"@ + (host + "/"@ + repository_path(above, owner, repo, suffixed, slashes)),
        ) == Some(text::lowered(owner) + "/"@ + text::lowered(repo)),
{
    reveal_strlit("://");
    reveal_strlit("/");
    reveal_strlit(".git");
    let none = Seq::<char>::empty();
    let path = repository_path(above, owner, repo, suffixed, none);
    let s = scheme + "://"@ + (host + "/"@ + path);
    let value = scheme + "://"@ + (host + "/"@ + repository_path(
        above,
        owner,
        repo,
        suffixed,
        slashes,
    ));
    assert(value =~= s + slashes);
    lemma_path_tail(above, owner, repo, suffixed);
    assert(s.last() == path.last());
    lemma_untrimmed(s, slashes);
    lemma_url(scheme, host, path);
    lemma_path_unqueried(above, owner, repo, suffixed, none);
    lemma_query(path, '?', none);
    lemma_path_ends(above, owner, repo, suffixed, none);
}

/// An address for SSH names its repository in lower case, with the suffix `.git` or without it.
pub proof fn law_address_spec(
    user: Seq<char>,
    host: Seq<char>,
    above: Seq<char>,
    owner: Seq<char>,
    repo: Seq<char>,
    suffixed: bool,
    slashes: Seq<char>,
)
    requires
        user.len() > 0,
        !text::is_white(user[0]),
        !user.contains(':'),
        !host.contains(':'),
        above.len() > 0 ==> above.last() == '/' && above[0] != '/',
        is_unqueried(above),
        !above.contains(':'),
        is_segment(owner),
        !owner.contains(':'),
        is_segment(repo),
        !repo.contains(':'),
        !text::is_white(repo.last()),
        !ends_in_git(repo),
        all_slashes(slashes),
    ensures
        op::repo_spec(
            user + "@"@ + host + ":"@ + repository_path(above, owner, repo, suffixed, slashes),
        ) == Some(text::lowered(owner) + "/"@ + text::lowered(repo)),
{
    reveal_strlit("@");
    reveal_strlit(":");
    let none = Seq::<char>::empty();
    let path = repository_path(above, owner, repo, suffixed, none);
    let s = user + "@"@ + host + ":"@ + path;
    let value = user + "@"@ + host + ":"@ + repository_path(above, owner, repo, suffixed, slashes);
    assert(value =~= s + slashes);
    lemma_path_tail(above, owner, repo, suffixed);
    assert(s.last() == path.last());
    lemma_untrimmed(s, slashes);
    lemma_path_start(above, owner, repo, suffixed, none);
    lemma_address(user, host, path);
    lemma_path_unqueried(above, owner, repo, suffixed, none);
    lemma_query(path, '?', none);
    lemma_path_ends(above, owner, repo, suffixed, none);
}

/// A path to a repository without slashes at its end ends with a character of a name.
proof fn lemma_path_tail(above: Seq<char>, owner: Seq<char>, repo: Seq<char>, suffixed: bool)
    requires
        is_segment(repo),
        !text::is_white(repo.last()),
    ensures
        repository_path(above, owner, repo, suffixed, Seq::empty()).len() > 0,
        !text::is_white(repository_path(above, owner, repo, suffixed, Seq::empty()).last()),
        repository_path(above, owner, repo, suffixed, Seq::empty()).last() != '/',
{
    reveal_strlit(".git");
    let path = repository_path(above, owner, repo, suffixed, Seq::empty());
    assert(repo.contains(repo[repo.len() - 1]));
    if suffixed {
        assert(path.last() == 't');
    } else {
        assert(path.last() == repo.last());
    }
}

/// Only slashes are taken off the end of a value.
proof fn lemma_untrimmed(s: Seq<char>, slashes: Seq<char>)
    requires
        s.len() > 0,
        !text::is_white(s[0]),
        !text::is_white(s.last()),
        s.last() != '/',
        all_slashes(slashes),
    ensures
        text::trimmed(s + slashes).len() > 0,
        text::without_trailing(text::trimmed(s + slashes), seq!['/']) == s,
{
    let none = Seq::<char>::empty();
    let all = s + slashes;
    assert(all[0] == s[0]);
    if slashes.len() > 0 {
        assert(all.last() == slashes[slashes.len() - 1]);
    } else {
        assert(all =~= s);
    }
    assert(none + all + none =~= all);
    text_laws::law_trimmed(none, all, none);
    lemma_trailing_slashes(s, slashes);
}

} // verus!
