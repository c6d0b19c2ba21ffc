//! What the titles of notes and the prefixes of variables look like.

use vstd::prelude::*;

use crate::ids;
use crate::namespace;
use crate::op;
use crate::text;

verus! {

broadcast use crate::seqs::group_seqs;

/// A base with a number behind it.
pub open spec fn numbered(base: Seq<char>, n: nat) -> Seq<char> {
    base + "-"@ + text::decimal(n)
}

/// Titles with numbers tell their bases and their numbers.
proof fn lemma_numbered(a: Seq<char>, m: nat, b: Seq<char>, n: nat)
    requires
        numbered(a, m) == numbered(b, n),
    ensures
        a == b,
        m == n,
{
    reveal_strlit("-");
    ids::lemma_decimal(m);
    ids::lemma_decimal(n);
    let s = numbered(a, m);
    let t = numbered(b, n);
    let x = text::decimal(m);
    let y = text::decimal(n);
    assert(s.len() == a.len() + 1 + x.len() && t.len() == b.len() + 1 + y.len());
    assert(s[a.len() as int] == '-' && t[b.len() as int] == '-');
    if a.len() < b.len() {
        let k = b.len() - a.len() - 1;
        assert(s[b.len() as int] == x[k]);
        assert(text::is_digit(x[k]));
    } else if b.len() < a.len() {
        let k = a.len() - b.len() - 1;
        assert(t[a.len() as int] == y[k]);
        assert(text::is_digit(y[k]));
    }
    assert(s.subrange(0, a.len() as int) =~= a);
    assert(t.subrange(0, b.len() as int) =~= b);
    assert(s.subrange(a.len() + 1int, s.len() as int) =~= x);
    assert(t.subrange(b.len() + 1int, t.len() as int) =~= y);
}

/// A later place counts no fewer occurrences.
proof fn lemma_occurrences_grow(s: Seq<Seq<char>>, x: Seq<char>, m: int, n: int)
    requires
        0 <= m <= n,
    ensures
        op::occurrences(s, x, m) <= op::occurrences(s, x, n),
    decreases n,
{
    if m < n {
        lemma_occurrences_grow(s, x, m, n - 1);
    }
}

/// All titles differ. Left out are bases of which one is another with the number that the other
/// would get where it is repeated: there two titles are the same.
pub proof fn law_titles_differ(bases: Seq<Seq<char>>, i: int, j: int)
    requires
        0 <= i < j < bases.len(),
        forall|a: int, b: int, n: nat|
            0 <= a < bases.len() && 0 <= b < bases.len() && 2 <= n <= op::occurrences(
                bases,
                bases[b],
                bases.len() as int,
            ) ==> #[trigger] bases[a] != #[trigger] numbered(bases[b], n),
    ensures
        op::sequenced_title(bases, i) != op::sequenced_title(bases, j),
{
    let m = op::occurrences(bases, bases[i], i + 1);
    let n = op::occurrences(bases, bases[j], j + 1);
    lemma_occurrences_grow(bases, bases[i], i + 1, bases.len() as int);
    lemma_occurrences_grow(bases, bases[j], j + 1, bases.len() as int);
    lemma_occurrences_grow(bases, bases[i], 0, i);
    lemma_occurrences_grow(bases, bases[j], 0, j);
    if op::sequenced_title(bases, i) == op::sequenced_title(bases, j) {
        if bases[i] == bases[j] {
            lemma_occurrences_grow(bases, bases[i], i + 1, j);
            assert(m < n);
            if m == 1 {
                reveal_strlit("-");
                assert(numbered(bases[j], n).len() > bases[j].len());
            } else {
                lemma_numbered(bases[i], m, bases[j], n);
            }
        } else if m > 1 && n > 1 {
            lemma_numbered(bases[i], m, bases[j], n);
        } else if m > 1 {
            assert(bases[j] != numbered(bases[i], m));
        } else if n > 1 {
            assert(bases[i] != numbered(bases[j], n));
        }
    }
}

/// Whether `c` may stand in the prefix of variables.
pub open spec fn is_prefix_char(c: char) -> bool {
    text::is_upper(c) || text::is_digit(c) || c == '_'
}

/// What is stripped of a character has what it had, and the character at neither end.
proof fn lemma_stripped(s: Seq<char>, c: char)
    ensures
        text::stripped_of(s, c).len() > 0 ==> text::stripped_of(s, c)[0] != c
            && text::stripped_of(s, c).last() != c,
        forall|x: char| text::stripped_of(s, c).contains(x) ==> #[trigger] s.contains(x),
    decreases s.len(),
{
    if s.len() > 0 && s[0] == c {
        lemma_stripped(s.drop_first(), c);
        assert(text::stripped_of(s, c) == text::stripped_of(s.drop_first(), c));
        assert forall|x: char| text::stripped_of(s, c).contains(x) implies #[trigger] s.contains(
            x,
        ) by {
            assert(s.drop_first().contains(x));
            let i = choose|i: int| 0 <= i < s.drop_first().len() && s.drop_first()[i] == x;
            assert(s[i + 1] == x);
        }
    } else {
        lemma_trailing(s, c);
    }
}

/// What is stripped of a character at its end keeps its beginning.
proof fn lemma_trailing(s: Seq<char>, c: char)
    ensures
        text::without_trailing(s, seq![c]).len() > 0 ==> text::without_trailing(s, seq![c])[0]
            == s[0] && text::without_trailing(s, seq![c]).last() != c,
        forall|x: char|
            text::without_trailing(s, seq![c]).contains(x) ==> #[trigger] s.contains(x),
    decreases s.len(),
{
    let set = seq![c];
    assert(set[0] == c);
    if s.len() > 0 && set.contains(s.last()) {
        lemma_trailing(s.drop_last(), c);
        assert forall|x: char| text::without_trailing(s, set).contains(x) implies #[trigger] s.contains(
            x,
        ) by {
            assert(s.drop_last().contains(x));
            let i = choose|i: int| 0 <= i < s.drop_last().len() && s.drop_last()[i] == x;
            assert(s[i] == x);
        }
    }
}

/// A title in upper case holds upper-case letters, digits and underscores.
proof fn lemma_folded(title: Seq<char>)
    ensures
        forall|i: int|
            0 <= i < namespace::folded(title).0.len() ==> is_prefix_char(
                #[trigger] namespace::folded(title).0[i],
            ),
    decreases title.len(),
{
    if title.len() > 0 {
        lemma_folded(title.drop_last());
        let before = namespace::folded(title.drop_last()).0;
        let now = namespace::folded(title).0;
        let c = title.last();
        if namespace::is_word(c) {
            assert(is_prefix_char(text::upper(c)));
        }
        assert forall|i: int| 0 <= i < now.len() implies is_prefix_char(#[trigger] now[i]) by {
            if i < before.len() {
                assert(now[i] == before[i]);
            }
        }
    }
}

/// The prefix for the variables of an item consists of upper-case letters, digits and underscores,
/// and no underscore stands at its ends.
pub proof fn law_prefix_shape(title: Seq<char>)
    ensures
        namespace::title_namespace(title) matches Ok(name) ==> {
            &&& name.len() > 0
            &&& name[0] != '_'
            &&& name.last() != '_'
            &&& forall|i: int| 0 <= i < name.len() ==> is_prefix_char(#[trigger] name[i])
        },
{
    if let Ok(name) = namespace::title_namespace(title) {
        let s = namespace::folded(title).0;
        lemma_folded(title);
        lemma_stripped(s, '_');
        assert forall|i: int| 0 <= i < name.len() implies is_prefix_char(#[trigger] name[i]) by {
            assert(name.contains(name[i]));
            assert(s.contains(name[i]));
            let k = choose|k: int| 0 <= k < s.len() && s[k] == name[i];
            assert(is_prefix_char(s[k]));
        }
    }
}

/// Stripping a character takes no other away.
proof fn lemma_stripped_keeps(s: Seq<char>, c: char, x: char)
    requires
        x != c,
        s.contains(x),
    ensures
        text::stripped_of(s, c).contains(x),
    decreases s.len(),
{
    let at = choose|at: int| 0 <= at < s.len() && s[at] == x;
    if s[0] == c {
        assert(s.drop_first()[at - 1] == x);
        lemma_stripped_keeps(s.drop_first(), c, x);
    } else {
        lemma_trailing_keeps(s, c, x);
    }
}

/// Stripping a character at the end takes no other away.
proof fn lemma_trailing_keeps(s: Seq<char>, c: char, x: char)
    requires
        x != c,
        s.contains(x),
    ensures
        text::without_trailing(s, seq![c]).contains(x),
    decreases s.len(),
{
    let set = seq![c];
    assert(set[0] == c);
    let at = choose|at: int| 0 <= at < s.len() && s[at] == x;
    if set.contains(s.last()) {
        assert(s.drop_last()[at] == x);
        lemma_trailing_keeps(s.drop_last(), c, x);
    }
}

/// Whether an ASCII letter or a digit stands in `s`.
pub open spec fn has_letter_or_digit(s: Seq<char>) -> bool {
    exists|i: int| 0 <= i < s.len() && text::is_alnum(#[trigger] s[i])
}

/// Whether something other than an underscore stands in `s`.
spec fn has_other(s: Seq<char>) -> bool {
    exists|i: int| 0 <= i < s.len() && #[trigger] s[i] != '_'
}

/// Letters and digits alone are more than underscores in a title in upper case.
proof fn lemma_folded_other(title: Seq<char>)
    ensures
        has_other(namespace::folded(title).0) == has_letter_or_digit(title),
    decreases title.len(),
{
    if title.len() > 0 {
        let front = title.drop_last();
        let c = title.last();
        let before = namespace::folded(front).0;
        let now = namespace::folded(title).0;
        lemma_folded_other(front);
        assert(title[title.len() - 1] == c);
        if has_letter_or_digit(front) {
            let i = choose|i: int| 0 <= i < front.len() && text::is_alnum(#[trigger] front[i]);
            assert(title[i] == front[i]);
        }
        if has_letter_or_digit(title) && !text::is_alnum(c) {
            let i = choose|i: int| 0 <= i < title.len() && text::is_alnum(#[trigger] title[i]);
            assert(front[i] == title[i]);
        }
        if has_other(before) {
            let i = choose|i: int| 0 <= i < before.len() && #[trigger] before[i] != '_';
            assert(now[i] == before[i]);
        }
        if text::is_alnum(c) {
            assert(now[before.len() as int] != '_');
        } else if has_other(now) {
            let i = choose|i: int| 0 <= i < now.len() && #[trigger] now[i] != '_';
            assert(before[i] == now[i]);
        }
    }
}

/// What holds upper-case letters, digits and underscores is its own form in upper case.
proof fn lemma_folded_own(name: Seq<char>)
    requires
        forall|i: int| 0 <= i < name.len() ==> is_prefix_char(#[trigger] name[i]),
    ensures
        namespace::folded(name).0 == name,
    decreases name.len(),
{
    if name.len() > 0 {
        let front = name.drop_last();
        assert forall|i: int| 0 <= i < front.len() implies is_prefix_char(#[trigger] front[i]) by {
            assert(front[i] == name[i]);
        }
        lemma_folded_own(front);
        assert(is_prefix_char(name[name.len() - 1]));
        assert(front.push(name.last()) =~= name);
    }
}

/// A title gives a prefix exactly where it holds an ASCII letter or a digit, and a prefix is its
/// own prefix.
pub proof fn law_prefix_given(title: Seq<char>)
    ensures
        namespace::title_namespace(title) is Ok == has_letter_or_digit(title),
        namespace::title_namespace(title) matches Ok(name) ==> namespace::title_namespace(name)
            == namespace::title_namespace(title),
{
    let s = namespace::folded(title).0;
    lemma_folded_other(title);
    lemma_stripped(s, '_');
    let name = text::stripped_of(s, '_');
    if has_other(s) {
        let i = choose|i: int| 0 <= i < s.len() && #[trigger] s[i] != '_';
        assert(s.contains(s[i]));
        lemma_stripped_keeps(s, '_', s[i]);
    }
    if name.len() > 0 {
        assert(name.contains(name[0]));
        assert(s.contains(name[0]));
        let k = choose|k: int| 0 <= k < s.len() && s[k] == name[0];
        assert(s[k] != '_');
        law_prefix_shape(title);
        lemma_folded_own(name);
        let set = seq!['_'];
        assert(forall|c: char| set.contains(c) ==> c == '_');
        assert(text::stripped_of(name, '_') == name);
    }
}

} // verus!
