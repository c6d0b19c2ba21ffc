//! Text operations over sequences of characters.
//!
//! Every function here works on the characters of a string; the specification
//! functions say what each operation yields, and the executable functions of
//! the same name are proved to compute it.

use vstd::prelude::*;
use vstd::string::*;

verus! {

broadcast use crate::seqs::group_seqs;

/// `String::push` appends one character.
pub assume_specification[ String::push ](s: &mut String, c: char)
    ensures
        final(s)@ == old(s)@.push(c),
;

/// The characters of `s`, in order.
pub fn chars_of(s: &str) -> (r: Vec<char>)
    ensures
        r@ == s@,
{
    let mut r: Vec<char> = Vec::new();
    for c in it: s.chars()
        invariant
            r@ == s@.take(it.index() as int),
            it.seq() == s@,
    {
        r.push(c);
    }
    r
}

/// The string made of the characters `from..to`.
pub fn string_of(chars: &[char], from: usize, to: usize) -> (r: String)
    requires
        from <= to <= chars@.len(),
    ensures
        r@ == chars@.subrange(from as int, to as int),
{
    let mut r = String::new();
    let mut i: usize = from;
    while i < to
        invariant
            from <= i <= to <= chars@.len(),
            r@ == chars@.subrange(from as int, i as int),
        decreases to - i,
    {
        r.push(chars[i]);
        i += 1;
    }
    r
}

/// The Unicode `White_Space` property.
pub open spec fn is_white(c: char) -> bool {
    let u = c as u32;
    ||| 0x9 <= u <= 0xD
    ||| u == 0x20
    ||| u == 0x85
    ||| u == 0xA0
    ||| u == 0x1680
    ||| 0x2000 <= u <= 0x200A
    ||| u == 0x2028
    ||| u == 0x2029
    ||| u == 0x202F
    ||| u == 0x205F
    ||| u == 0x3000
}

/// Whether `c` is white space.
pub fn is_whitespace(c: char) -> (r: bool)
    ensures
        r == is_white(c),
{
    let u: u32 = c as u32;
    (0x9 <= u && u <= 0xD) || u == 0x20 || u == 0x85 || u == 0xA0 || u == 0x1680 || (0x2000 <= u
        && u <= 0x200A) || u == 0x2028 || u == 0x2029 || u == 0x202F || u == 0x205F || u == 0x3000
}

/// `s` without its leading white space.
pub open spec fn trimmed_start(s: Seq<char>) -> Seq<char>
    decreases s.len(),
{
    if s.len() > 0 && is_white(s[0]) {
        trimmed_start(s.drop_first())
    } else {
        s
    }
}

/// `s` without its trailing white space.
pub open spec fn trimmed_end(s: Seq<char>) -> Seq<char>
    decreases s.len(),
{
    if s.len() > 0 && is_white(s.last()) {
        trimmed_end(s.drop_last())
    } else {
        s
    }
}

/// `s` without leading and trailing white space.
pub open spec fn trimmed(s: Seq<char>) -> Seq<char> {
    trimmed_end(trimmed_start(s))
}

/// `s` without its leading white space.
pub fn trim_start(s: &str) -> (r: &str)
    ensures
        r@ == trimmed_start(s@),
{
    let chars = chars_of(s);
    let mut i: usize = 0;
    while i < chars.len() && is_whitespace(chars[i])
        invariant
            i <= chars.len(),
            chars@ == s@,
            trimmed_start(s@) == trimmed_start(s@.subrange(i as int, s@.len() as int)),
        decreases chars.len() - i,
    {
        proof {
            let rest = s@.subrange(i as int, s@.len() as int);
            assert(rest.drop_first() == s@.subrange(i + 1, s@.len() as int));
        }
        i += 1;
    }
    s.substring_char(i, chars.len())
}

/// `s` without its trailing white space.
pub fn trim_end(s: &str) -> (r: &str)
    ensures
        r@ == trimmed_end(s@),
{
    let chars = chars_of(s);
    let mut j: usize = chars.len();
    while j > 0 && is_whitespace(chars[j - 1])
        invariant
            j <= chars.len(),
            chars@ == s@,
            trimmed_end(s@) == trimmed_end(s@.subrange(0, j as int)),
        decreases j,
    {
        proof {
            let rest = s@.subrange(0, j as int);
            assert(rest.drop_last() == s@.subrange(0, j - 1));
        }
        j -= 1;
    }
    s.substring_char(0, j)
}

/// `s` without leading and trailing white space.
pub fn trim(s: &str) -> (r: &str)
    ensures
        r@ == trimmed(s@),
{
    trim_end(trim_start(s))
}

/// Whether `p` stands in `s` at position `i`.
pub open spec fn matches_at(s: Seq<char>, p: Seq<char>, i: int) -> bool {
    0 <= i && i + p.len() <= s.len() && s.subrange(i, i + p.len()) == p
}

/// Whether `p` stands anywhere in `s`.
pub open spec fn holds(s: Seq<char>, p: Seq<char>) -> bool {
    exists|i: int| matches_at(s, p, i)
}

/// The first position at or after `from` where `p` stands in `s`.
pub open spec fn first_match(s: Seq<char>, p: Seq<char>, from: int) -> Option<int>
    decreases s.len() - from + 1,
{
    if from > s.len() {
        None
    } else if matches_at(s, p, from) {
        Some(from)
    } else {
        first_match(s, p, from + 1)
    }
}

/// Whether `s` begins with `p`.
pub open spec fn begins(s: Seq<char>, p: Seq<char>) -> bool {
    p.len() <= s.len() && s.subrange(0, p.len() as int) == p
}

/// Whether `s` ends with `p`.
pub open spec fn ends(s: Seq<char>, p: Seq<char>) -> bool {
    p.len() <= s.len() && s.subrange(s.len() - p.len(), s.len() as int) == p
}

/// `s` without the prefix `p`, where it has that prefix.
pub open spec fn after_prefix(s: Seq<char>, p: Seq<char>) -> Option<Seq<char>> {
    if begins(s, p) {
        Some(s.subrange(p.len() as int, s.len() as int))
    } else {
        None
    }
}

/// `s` without the suffix `p`, where it has that suffix.
pub open spec fn before_suffix(s: Seq<char>, p: Seq<char>) -> Option<Seq<char>> {
    if ends(s, p) {
        Some(s.subrange(0, s.len() - p.len()))
    } else {
        None
    }
}

/// What stands before and after the first `p` in `s`.
pub open spec fn parted(s: Seq<char>, p: Seq<char>) -> Option<(Seq<char>, Seq<char>)> {
    match first_match(s, p, 0) {
        Some(i) => Some((s.subrange(0, i), s.subrange(i + p.len(), s.len() as int))),
        None => None,
    }
}

/// `first_match` finds a match, and no earlier one exists.
pub proof fn lemma_first_match(s: Seq<char>, p: Seq<char>, from: int)
    requires
        0 <= from,
    ensures
        match first_match(s, p, from) {
            Some(i) => from <= i && matches_at(s, p, i) && (forall|j: int|
                from <= j < i ==> !matches_at(s, p, j)),
            None => forall|j: int| from <= j ==> !matches_at(s, p, j),
        },
    decreases s.len() - from + 1,
{
    if from > s.len() {
    } else if matches_at(s, p, from) {
    } else {
        lemma_first_match(s, p, from + 1);
    }
}

/// Where `first_match` points when a first match is known.
pub proof fn lemma_first_match_is(s: Seq<char>, p: Seq<char>, from: int, i: int)
    requires
        0 <= from <= i,
        matches_at(s, p, i),
        forall|j: int| from <= j < i ==> !matches_at(s, p, j),
    ensures
        first_match(s, p, from) == Some(i),
{
    lemma_first_match(s, p, from);
}

/// `first_match` finds nothing exactly when nothing is there.
pub proof fn lemma_first_match_none(s: Seq<char>, p: Seq<char>)
    ensures
        first_match(s, p, 0) is None <==> !holds(s, p),
{
    lemma_first_match(s, p, 0);
}

/// Whether `p` stands at position `i` of `s`.
fn match_at(s: &[char], p: &[char], i: usize) -> (r: bool)
    ensures
        r == matches_at(s@, p@, i as int),
{
    if p.len() > s.len() || i > s.len() - p.len() {
        return false;
    }
    let mut k: usize = 0;
    while k < p.len()
        invariant
            k <= p@.len(),
            p@.len() == p.len(),
            i + p.len() <= s.len(),
            forall|j: int| 0 <= j < k ==> s@[i + j] == p@[j],
        decreases p@.len() - k,
    {
        if s[i + k] != p[k] {
            assert(s@.subrange(i as int, i + p@.len())[k as int] != p@[k as int]);
            return false;
        }
        k += 1;
    }
    assert(s@.subrange(i as int, i + p@.len()) =~= p@);
    true
}

/// The first position at or after `from` where `p` stands in `s`.
fn find_from(s: &[char], p: &[char], from: usize) -> (r: Option<usize>)
    requires
        from <= s@.len(),
    ensures
        match r {
            Some(i) => first_match(s@, p@, from as int) == Some(i as int) && from <= i
                && matches_at(s@, p@, i as int) && i + p.len() <= s.len(),
            None => first_match(s@, p@, from as int) is None,
        },
{
    let mut i: usize = from;
    while i < s.len()
        invariant
            from <= i <= s@.len(),
            first_match(s@, p@, from as int) == first_match(s@, p@, i as int),
        decreases s@.len() - i,
    {
        if match_at(s, p, i) {
            return Some(i);
        }
        i += 1;
    }
    if match_at(s, p, i) {
        return Some(i);
    }
    assert(first_match(s@, p@, i + 1) is None);
    None
}

/// Whether `p` stands anywhere in `s`.
pub fn contains(s: &str, p: &str) -> (r: bool)
    ensures
        r == holds(s@, p@),
{
    let chars = chars_of(s);
    let pattern = chars_of(p);
    proof {
        lemma_first_match_none(s@, p@);
    }
    find_from(&chars, &pattern, 0).is_some()
}

/// Whether `c` occurs in `s`.
pub fn contains_char(s: &str, c: char) -> (r: bool)
    ensures
        r == s@.contains(c),
{
    let chars = chars_of(s);
    let mut i: usize = 0;
    while i < chars.len()
        invariant
            i <= chars.len(),
            chars@ == s@,
            forall|j: int| 0 <= j < i ==> s@[j] != c,
        decreases chars.len() - i,
    {
        if chars[i] == c {
            assert(s@[i as int] == c);
            return true;
        }
        i += 1;
    }
    false
}

/// Whether `s` begins with `p`.
pub fn starts_with(s: &str, p: &str) -> (r: bool)
    ensures
        r == begins(s@, p@),
{
    match_at(&chars_of(s), &chars_of(p), 0)
}

/// Whether `s` ends with `p`.
pub fn ends_with(s: &str, p: &str) -> (r: bool)
    ensures
        r == ends(s@, p@),
{
    let chars = chars_of(s);
    let pattern = chars_of(p);
    if pattern.len() > chars.len() {
        return false;
    }
    match_at(&chars, &pattern, chars.len() - pattern.len())
}

/// `s` without the prefix `p`, where it has that prefix.
pub fn strip_prefix<'a>(s: &'a str, p: &str) -> (r: Option<&'a str>)
    ensures
        r.deep_view() == after_prefix(s@, p@),
{
    if starts_with(s, p) {
        Some(s.substring_char(p.unicode_len(), s.unicode_len()))
    } else {
        None
    }
}

/// `s` without the suffix `p`, where it has that suffix.
pub fn strip_suffix<'a>(s: &'a str, p: &str) -> (r: Option<&'a str>)
    ensures
        r.deep_view() == before_suffix(s@, p@),
{
    if ends_with(s, p) {
        Some(s.substring_char(0, s.unicode_len() - p.unicode_len()))
    } else {
        None
    }
}

/// What stands before and after the first `p` in `s`.
pub fn split_once<'a>(s: &'a str, p: &str) -> (r: Option<(&'a str, &'a str)>)
    ensures
        r.deep_view() == parted(s@, p@),
{
    let chars = chars_of(s);
    let pattern = chars_of(p);
    match find_from(&chars, &pattern, 0) {
        Some(i) => Some(
            (s.substring_char(0, i), s.substring_char(i + pattern.len(), chars.len())),
        ),
        None => None,
    }
}

/// Whether the two strings hold the same characters.
pub fn same(a: &str, b: &str) -> (r: bool)
    ensures
        r == (a@ == b@),
{
    let x = chars_of(a);
    let y = chars_of(b);
    if x.len() != y.len() {
        return false;
    }
    let mut i: usize = 0;
    while i < x.len()
        invariant
            i <= x.len(),
            x@ == a@,
            y@ == b@,
            x.len() == y.len(),
            forall|j: int| 0 <= j < i ==> a@[j] == b@[j],
        decreases x.len() - i,
    {
        if x[i] != y[i] {
            assert(a@[i as int] != b@[i as int]);
            return false;
        }
        i += 1;
    }
    assert(a@ =~= b@);
    true
}

/// `s` without the leading characters that are `c`.
pub open spec fn without_leading(s: Seq<char>, c: char) -> Seq<char>
    decreases s.len(),
{
    if s.len() > 0 && s[0] == c {
        without_leading(s.drop_first(), c)
    } else {
        s
    }
}

/// `s` without the trailing characters that are among `set`.
pub open spec fn without_trailing(s: Seq<char>, set: Seq<char>) -> Seq<char>
    decreases s.len(),
{
    if s.len() > 0 && set.contains(s.last()) {
        without_trailing(s.drop_last(), set)
    } else {
        s
    }
}

/// `s` without all repetitions of the suffix `p`.
pub open spec fn without_suffixes(s: Seq<char>, p: Seq<char>) -> Seq<char>
    decreases s.len(),
{
    if p.len() > 0 && ends(s, p) {
        without_suffixes(s.subrange(0, s.len() - p.len()), p)
    } else {
        s
    }
}

/// `s` without the leading and trailing characters that are `c`.
pub open spec fn stripped_of(s: Seq<char>, c: char) -> Seq<char> {
    without_trailing(without_leading(s, c), seq![c])
}

/// `s` without the leading characters that are `c`.
pub fn trim_start_char(s: &str, c: char) -> (r: &str)
    ensures
        r@ == without_leading(s@, c),
{
    let chars = chars_of(s);
    let mut i: usize = 0;
    while i < chars.len() && chars[i] == c
        invariant
            i <= chars.len(),
            chars@ == s@,
            without_leading(s@, c) == without_leading(s@.subrange(i as int, s@.len() as int), c),
        decreases chars.len() - i,
    {
        proof {
            let rest = s@.subrange(i as int, s@.len() as int);
            assert(rest.drop_first() == s@.subrange(i + 1, s@.len() as int));
        }
        i += 1;
    }
    s.substring_char(i, chars.len())
}

/// Whether `c` is among `set`.
pub fn among(set: &[char], c: char) -> (r: bool)
    ensures
        r == set@.contains(c),
{
    let mut i: usize = 0;
    while i < set.len()
        invariant
            i <= set@.len(),
            forall|j: int| 0 <= j < i ==> set@[j] != c,
        decreases set@.len() - i,
    {
        if set[i] == c {
            assert(set@[i as int] == c);
            return true;
        }
        i += 1;
    }
    false
}

/// `s` without the trailing characters that are among `set`.
pub fn trim_end_chars<'a>(s: &'a str, set: &[char]) -> (r: &'a str)
    ensures
        r@ == without_trailing(s@, set@),
{
    let chars = chars_of(s);
    let mut j: usize = chars.len();
    while j > 0 && among(set, chars[j - 1])
        invariant
            j <= chars.len(),
            chars@ == s@,
            without_trailing(s@, set@) == without_trailing(s@.subrange(0, j as int), set@),
        decreases j,
    {
        proof {
            let rest = s@.subrange(0, j as int);
            assert(rest.drop_last() == s@.subrange(0, j - 1));
        }
        j -= 1;
    }
    s.substring_char(0, j)
}

/// `s` without all repetitions of the suffix `p`.
pub fn trim_end_suffixes<'a>(s: &'a str, p: &str) -> (r: &'a str)
    ensures
        r@ == without_suffixes(s@, p@),
{
    let mut cut: &'a str = s;
    if p.unicode_len() == 0 {
        return cut;
    }
    while ends_with(cut, p)
        invariant
            p@.len() > 0,
            without_suffixes(s@, p@) == without_suffixes(cut@, p@),
        decreases cut@.len(),
    {
        cut = cut.substring_char(0, cut.unicode_len() - p.unicode_len());
    }
    cut
}

/// `s` without the leading and trailing characters that are `c`.
pub fn trim_char(s: &str, c: char) -> (r: &str)
    ensures
        r@ == stripped_of(s@, c),
{
    let set = [c];
    assert(set@ == seq![c]);
    trim_end_chars(trim_start_char(s, c), &set)
}

/// The parts of `s` between the characters that are among `set`.
pub open spec fn pieces(s: Seq<char>, set: Seq<char>) -> Seq<Seq<char>>
    decreases s.len(),
{
    if s.len() == 0 {
        seq![Seq::empty()]
    } else {
        let before = pieces(s.drop_last(), set);
        if set.contains(s.last()) {
            before.push(Seq::empty())
        } else {
            before.drop_last().push(before.last().push(s.last()))
        }
    }
}

/// There is always at least one piece.
pub proof fn lemma_pieces_nonempty(s: Seq<char>, set: Seq<char>)
    ensures
        pieces(s, set).len() >= 1,
    decreases s.len(),
{
    if s.len() > 0 {
        lemma_pieces_nonempty(s.drop_last(), set);
    }
}

/// A piece is made of characters of the text that are no separators.
pub proof fn lemma_pieces_chars(s: Seq<char>, set: Seq<char>, i: int)
    requires
        0 <= i < pieces(s, set).len(),
    ensures
        forall|k: int|
            0 <= k < pieces(s, set)[i].len() ==> s.contains(#[trigger] pieces(s, set)[i][k])
                && !set.contains(pieces(s, set)[i][k]),
    decreases s.len(),
{
    if s.len() > 0 {
        let front = s.drop_last();
        let before = pieces(front, set);
        let all = pieces(s, set);
        lemma_pieces_nonempty(front, set);
        assert(s[s.len() - 1] == s.last());
        if i < before.len() {
            lemma_pieces_chars(front, set, i);
        }
        assert forall|k: int| 0 <= k < all[i].len() implies s.contains(#[trigger] all[i][k])
            && !set.contains(all[i][k]) by {
            if i < before.len() && k < before[i].len() {
                let c = before[i][k];
                assert(all[i][k] == c);
                assert(front.contains(c) && !set.contains(c));
                let at = choose|at: int| 0 <= at < front.len() && front[at] == c;
                assert(s[at] == c);
            }
        }
    }
}

/// What holds no separator goes to the last piece.
pub proof fn lemma_pieces_appended(s: Seq<char>, more: Seq<char>, set: Seq<char>)
    requires
        forall|i: int| 0 <= i < more.len() ==> !set.contains(#[trigger] more[i]),
    ensures
        pieces(s + more, set) == pieces(s, set).drop_last().push(pieces(s, set).last() + more),
    decreases more.len(),
{
    let all = pieces(s, set);
    lemma_pieces_nonempty(s, set);
    if more.len() == 0 {
        assert(s + more =~= s);
        assert(all.last() + more =~= all.last());
        assert(all =~= all.drop_last().push(all.last()));
    } else {
        let front = more.drop_last();
        assert forall|i: int| 0 <= i < front.len() implies !set.contains(#[trigger] front[i]) by {
            assert(more[i] == front[i]);
        }
        lemma_pieces_appended(s, front, set);
        assert((s + more).drop_last() =~= s + front);
        assert(!set.contains(more[more.len() - 1]));
        let before = pieces(s + front, set);
        assert(before.drop_last() =~= all.drop_last());
        assert((all.last() + front).push(more.last()) =~= all.last() + more);
    }
}

/// The parts of `s` between the characters that are among `set`.
pub fn split_chars(s: &str, set: &[char]) -> (r: Vec<String>)
    ensures
        crate::seqs::texts(r@) == pieces(s@, set@),
        r@.len() >= 1,
{
    let chars = chars_of(s);
    let mut done: Vec<String> = Vec::new();
    let mut current = String::new();
    let mut i: usize = 0;
    assert(pieces(s@.take(0), set@) =~= crate::seqs::texts(done@).push(current@));
    while i < chars.len()
        invariant
            i <= chars.len(),
            chars@ == s@,
            pieces(s@.take(i as int), set@) == crate::seqs::texts(done@).push(current@),
        decreases chars.len() - i,
    {
        let ghost before = crate::seqs::texts(done@).push(current@);
        proof {
            assert(s@.take(i + 1).drop_last() == s@.take(i as int));
        }
        if among(set, chars[i]) {
            done.push(current);
            current = String::new();
            assert(crate::seqs::texts(done@).push(current@) =~= before.push(Seq::empty()));
        } else {
            current.push(chars[i]);
            assert(crate::seqs::texts(done@).push(current@) =~= before.drop_last().push(
                before.last().push(s@[i as int]),
            ));
        }
        i += 1;
    }
    let ghost kept = crate::seqs::texts(done@);
    let ghost last = current@;
    done.push(current);
    assert(crate::seqs::texts(done@) =~= kept.push(last));
    done
}

/// The position of the first white space character at or after `i`.
pub open spec fn word_end(s: Seq<char>, i: int) -> int
    decreases s.len() - i,
{
    if i < 0 || i >= s.len() || is_white(s[i]) {
        i
    } else {
        word_end(s, i + 1)
    }
}

/// A word ends between its start and the end of the text.
pub proof fn lemma_word_end(s: Seq<char>, i: int)
    requires
        0 <= i <= s.len(),
    ensures
        i <= word_end(s, i) <= s.len(),
        i < s.len() && !is_white(s[i]) ==> i < word_end(s, i),
    decreases s.len() - i,
{
    if i < s.len() && !is_white(s[i]) {
        lemma_word_end(s, i + 1);
    }
}

/// Trimming never lengthens a text.
pub proof fn lemma_trimmed_start(s: Seq<char>)
    ensures
        trimmed_start(s).len() <= s.len(),
        trimmed_start(s).len() > 0 ==> !is_white(trimmed_start(s)[0]),
    decreases s.len(),
{
    if s.len() > 0 && is_white(s[0]) {
        lemma_trimmed_start(s.drop_first());
    }
}

/// The words of `s`: its parts between white space.
pub open spec fn words(s: Seq<char>) -> Seq<Seq<char>>
    decreases s.len(),
{
    let t = trimmed_start(s);
    let n = word_end(t, 0);
    if t.len() == 0 || t.len() > s.len() || n <= 0 || n > t.len() {
        Seq::empty()
    } else {
        seq![t.subrange(0, n)] + words(t.subrange(n, t.len() as int))
    }
}

/// The words of `s`: its parts between white space.
pub fn split_words(s: &str) -> (r: Vec<String>)
    ensures
        crate::seqs::texts(r@) == words(s@),
{
    let mut r: Vec<String> = Vec::new();
    let mut rest: &str = s;
    assert(crate::seqs::texts(r@) + words(rest@) =~= words(s@));
    loop
        invariant
            crate::seqs::texts(r@) + words(rest@) == words(s@),
        ensures
            crate::seqs::texts(r@) == words(s@),
        decreases rest@.len(),
    {
        let t = trim_start(rest);
        proof {
            lemma_trimmed_start(rest@);
        }
        let chars = chars_of(t);
        if chars.len() == 0 {
            assert(words(rest@) =~= Seq::empty());
            assert(crate::seqs::texts(r@) + words(rest@) =~= crate::seqs::texts(r@));
            break;
        }
        let mut n: usize = 0;
        while n < chars.len() && !is_whitespace(chars[n])
            invariant
                n <= chars.len(),
                chars@ == t@,
                word_end(t@, 0) == word_end(t@, n as int),
            decreases chars.len() - n,
        {
            n += 1;
        }
        proof {
            lemma_word_end(t@, 0);
        }
        let ghost before = crate::seqs::texts(r@);
        let word = t.substring_char(0, n).to_owned();
        let ghost w = word@;
        r.push(word);
        assert(crate::seqs::texts(r@) =~= before.push(w));
        let after = t.substring_char(n, chars.len());
        assert(before + words(rest@) =~= before.push(w) + words(after@));
        rest = after;
    }
    r
}

/// A line without its carriage return, where it ends with one.
pub open spec fn without_return(s: Seq<char>) -> Seq<char> {
    if s.len() > 0 && s.last() == '\r' {
        s.drop_last()
    } else {
        s
    }
}

/// The lines of `s`: the parts that a line feed, or a carriage return and a line feed, ends,
/// and what follows the last of them, where anything does.
pub open spec fn lines_of(s: Seq<char>) -> Seq<Seq<char>> {
    let parts = pieces(s, seq!['\n']);
    let ended = Seq::new((parts.len() - 1) as nat, |i: int| without_return(parts[i]));
    if parts.last().len() > 0 {
        ended.push(parts.last())
    } else {
        ended
    }
}

/// The lines of `s`.
pub fn lines(s: &str) -> (r: Vec<String>)
    ensures
        crate::seqs::texts(r@) == lines_of(s@),
{
    let set = ['\n'];
    assert(set@ == seq!['\n']);
    let parts = split_chars(s, &set);
    let ghost all = pieces(s@, seq!['\n']);
    let mut r: Vec<String> = Vec::new();
    let mut i: usize = 0;
    while i < parts.len() - 1
        invariant
            parts@.len() >= 1,
            i <= parts@.len() - 1,
            crate::seqs::texts(parts@) == all,
            r@.len() == i,
            forall|j: int| 0 <= j < i ==> r@[j]@ == without_return(all[j]),
        decreases parts@.len() - i,
    {
        assert(all[i as int] == parts@[i as int]@);
        let n = parts[i].as_str().unicode_len();
        if n > 0 && parts[i].as_str().get_char(n - 1) == '\r' {
            let kept = parts[i].as_str().substring_char(0, n - 1).to_owned();
            assert(kept@ =~= without_return(all[i as int]));
            r.push(kept);
        } else {
            let kept = parts[i].clone();
            r.push(kept);
        }
        i += 1;
    }
    let last = parts[parts.len() - 1].clone();
    assert(last@ == all.last());
    if last.as_str().unicode_len() > 0 {
        r.push(last);
    }
    assert(crate::seqs::texts(r@) =~= lines_of(s@));
    r
}

/// `s` with each occurrence of `p`, from the left and without overlap, replaced by `to`.
pub open spec fn replaced(s: Seq<char>, p: Seq<char>, to: Seq<char>) -> Seq<char>
    decreases s.len(),
{
    match first_match(s, p, 0) {
        Some(i) => if p.len() > 0 && 0 <= i && i + p.len() <= s.len() {
            s.subrange(0, i) + to + replaced(s.subrange(i + p.len(), s.len() as int), p, to)
        } else {
            s
        },
        None => s,
    }
}

/// `s` with each occurrence of the non-empty `p` replaced by `to`.
pub fn replace(s: &str, p: &str, to: &str) -> (r: String)
    requires
        p@.len() > 0,
    ensures
        r@ == replaced(s@, p@, to@),
{
    let mut r = String::new();
    let mut rest: &str = s;
    assert(r@ + replaced(rest@, p@, to@) =~= replaced(s@, p@, to@));
    loop
        invariant_except_break
            r@ + replaced(rest@, p@, to@) == replaced(s@, p@, to@),
        invariant
            p@.len() > 0,
        ensures
            r@ == replaced(s@, p@, to@),
        decreases rest@.len(),
    {
        let ghost done = r@;
        match split_once(rest, p) {
            Some((before, after)) => {
                proof {
                    lemma_first_match(rest@, p@, 0);
                }
                r.append(before);
                r.append(to);
                assert(r@ + replaced(after@, p@, to@) =~= done + replaced(rest@, p@, to@));
                rest = after;
            },
            None => {
                r.append(rest);
                break;
            },
        }
    }
    r
}

/// `s` with its first occurrence of `p`, where there is one, replaced by `to`.
pub open spec fn replaced_once(s: Seq<char>, p: Seq<char>, to: Seq<char>) -> Seq<char> {
    match parted(s, p) {
        Some((before, after)) => before + to + after,
        None => s,
    }
}

/// `s` with its first occurrence of `p`, where there is one, replaced by `to`.
pub fn replace_once(s: &str, p: &str, to: &str) -> (r: String)
    ensures
        r@ == replaced_once(s@, p@, to@),
{
    match split_once(s, p) {
        Some((before, after)) => before.to_owned().concat(to).concat(after),
        None => s.to_owned(),
    }
}

/// The parts, with `sep` between each two.
pub open spec fn joined(parts: Seq<Seq<char>>, sep: Seq<char>) -> Seq<char>
    decreases parts.len(),
{
    if parts.len() == 0 {
        Seq::empty()
    } else if parts.len() == 1 {
        parts[0]
    } else {
        joined(parts.drop_last(), sep) + sep + parts.last()
    }
}

/// The parts, with `sep` between each two.
pub fn join(parts: &[String], sep: &str) -> (r: String)
    ensures
        r@ == joined(crate::seqs::texts(parts@), sep@),
{
    let ghost all = crate::seqs::texts(parts@);
    let mut r = String::new();
    let mut i: usize = 0;
    while i < parts.len()
        invariant
            i <= parts@.len(),
            all == crate::seqs::texts(parts@),
            r@ == joined(all.take(i as int), sep@),
        decreases parts@.len() - i,
    {
        proof {
            assert(all.take(i + 1).drop_last() == all.take(i as int));
        }
        if i > 0 {
            r.append(sep);
            r.append(parts[i].as_str());
        } else {
            r = parts[i].clone();
        }
        i += 1;
    }
    r
}

/// `c` in lower case, where it is an ASCII letter.
pub open spec fn lower(c: char) -> char {
    if 'A' <= c <= 'Z' {
        ((c as u32) + 32) as char
    } else {
        c
    }
}

/// `c` in upper case, where it is an ASCII letter.
pub open spec fn upper(c: char) -> char {
    if 'a' <= c <= 'z' {
        ((c as u32) - 32) as char
    } else {
        c
    }
}

/// `s` with its ASCII letters in lower case.
pub open spec fn lowered(s: Seq<char>) -> Seq<char> {
    Seq::new(s.len(), |i: int| lower(s[i]))
}

/// `s` with its ASCII letters in upper case.
pub open spec fn uppered(s: Seq<char>) -> Seq<char> {
    Seq::new(s.len(), |i: int| upper(s[i]))
}

/// `c` in lower case, where it is an ASCII letter.
pub fn to_lower(c: char) -> (r: char)
    ensures
        r == lower(c),
{
    if 'A' <= c && c <= 'Z' {
        ((c as u8) + 32) as char
    } else {
        c
    }
}

/// `c` in upper case, where it is an ASCII letter.
pub fn to_upper(c: char) -> (r: char)
    ensures
        r == upper(c),
{
    if 'a' <= c && c <= 'z' {
        ((c as u8) - 32) as char
    } else {
        c
    }
}

/// `s` with its ASCII letters in lower case.
pub fn to_ascii_lowercase(s: &str) -> (r: String)
    ensures
        r@ == lowered(s@),
{
    let chars = chars_of(s);
    let mut r = String::new();
    let mut i: usize = 0;
    while i < chars.len()
        invariant
            i <= chars.len(),
            chars@ == s@,
            r@ == lowered(s@.take(i as int)),
        decreases chars.len() - i,
    {
        r.push(to_lower(chars[i]));
        i += 1;
        assert(r@ =~= lowered(s@.take(i as int)));
    }
    r
}

/// `s` with its ASCII letters in upper case.
pub fn to_ascii_uppercase(s: &str) -> (r: String)
    ensures
        r@ == uppered(s@),
{
    let chars = chars_of(s);
    let mut r = String::new();
    let mut i: usize = 0;
    while i < chars.len()
        invariant
            i <= chars.len(),
            chars@ == s@,
            r@ == uppered(s@.take(i as int)),
        decreases chars.len() - i,
    {
        r.push(to_upper(chars[i]));
        i += 1;
        assert(r@ =~= uppered(s@.take(i as int)));
    }
    r
}

/// Whether the strings are equal up to the case of ASCII letters.
pub fn same_ignoring_case(a: &str, b: &str) -> (r: bool)
    ensures
        r == (lowered(a@) == lowered(b@)),
{
    same(&to_ascii_lowercase(a), &to_ascii_lowercase(b))
}

/// Whether `c` is an ASCII letter in lower case.
pub open spec fn is_lower(c: char) -> bool {
    'a' <= c <= 'z'
}

/// Whether `c` is an ASCII letter in upper case.
pub open spec fn is_upper(c: char) -> bool {
    'A' <= c <= 'Z'
}

/// Whether `c` is an ASCII digit.
pub open spec fn is_digit(c: char) -> bool {
    '0' <= c <= '9'
}

/// Whether `c` is an ASCII letter or digit.
pub open spec fn is_alnum(c: char) -> bool {
    is_lower(c) || is_upper(c) || is_digit(c)
}

/// Whether `c` is an ASCII letter or digit.
pub fn is_ascii_alphanumeric(c: char) -> (r: bool)
    ensures
        r == is_alnum(c),
{
    ('a' <= c && c <= 'z') || ('A' <= c && c <= 'Z') || ('0' <= c && c <= '9')
}

/// The digit that stands for `d`, below sixteen.
pub open spec fn digit(d: nat) -> char {
    if d < 10 {
        (48 + d) as char
    } else {
        (87 + d) as char
    }
}

/// The digit that stands for `d`.
pub fn digit_char(d: u8) -> (r: char)
    requires
        d < 16,
    ensures
        r == digit(d as nat),
{
    if d < 10 {
        (48 + d) as char
    } else {
        (87 + d) as char
    }
}

/// `n` in decimal notation.
pub open spec fn decimal(n: nat) -> Seq<char>
    decreases n,
{
    if n < 10 {
        seq![digit(n)]
    } else {
        decimal(n / 10).push(digit(n % 10))
    }
}

/// `n` in decimal notation.
pub fn to_decimal(n: u128) -> (r: String)
    ensures
        r@ == decimal(n as nat),
    decreases n,
{
    if n < 10 {
        let mut r = String::new();
        r.push(digit_char(n as u8));
        assert(r@ =~= decimal(n as nat));
        r
    } else {
        let mut r = to_decimal(n / 10);
        r.push(digit_char((n % 10) as u8));
        r
    }
}

/// An integer in decimal notation.
pub open spec fn signed_decimal(n: int) -> Seq<char> {
    if n < 0 {
        "-"@ + decimal((-n) as nat)
    } else {
        decimal(n as nat)
    }
}

/// An integer in decimal notation.
pub fn to_signed_decimal(n: i64) -> (r: String)
    ensures
        r@ == signed_decimal(n as int),
{
    if n < 0 {
        let m: u128 = (-(n as i128)) as u128;
        "-".to_owned().concat(&to_decimal(m))
    } else {
        to_decimal(n as u128)
    }
}

/// The lowest `width` hexadecimal digits of `n`.
pub open spec fn hex(n: nat, width: nat) -> Seq<char>
    decreases width,
{
    if width == 0 {
        Seq::empty()
    } else {
        hex(n / 16, (width - 1) as nat).push(digit(n % 16))
    }
}

/// The lowest `width` hexadecimal digits of `n`.
pub fn to_hex(n: u64, width: u8) -> (r: String)
    ensures
        r@ == hex(n as nat, width as nat),
    decreases width,
{
    if width == 0 {
        String::new()
    } else {
        let mut r = to_hex(n / 16, width - 1);
        r.push(digit_char((n % 16) as u8));
        r
    }
}

/// Whether every character of `s` is an ASCII digit.
pub open spec fn all_digits(s: Seq<char>) -> bool {
    forall|i: int| 0 <= i < s.len() ==> is_digit(#[trigger] s[i])
}

/// The number that the digits of `s` denote.
pub open spec fn number(s: Seq<char>) -> nat
    decreases s.len(),
{
    if s.len() == 0 {
        0
    } else {
        number(s.drop_last()) * 10 + ((s.last() as u32) - 48) as nat
    }
}

/// The digits of a numeral, after an optional plus sign.
pub open spec fn unsigned(s: Seq<char>) -> Seq<char> {
    if s.len() > 0 && s[0] == '+' {
        s.drop_first()
    } else {
        s
    }
}

/// The number up to `max` that `s` denotes: digits, after an optional plus sign.
pub open spec fn numeral(s: Seq<char>, max: nat) -> Option<nat> {
    let digits = unsigned(s);
    if digits.len() > 0 && all_digits(digits) && number(digits) <= max {
        Some(number(digits))
    } else {
        None
    }
}

/// A longer numeral denotes no smaller number.
pub proof fn lemma_number_grows(s: Seq<char>, i: int)
    requires
        0 <= i <= s.len(),
        all_digits(s),
    ensures
        number(s.take(i)) <= number(s),
    decreases s.len() - i,
{
    if i < s.len() {
        assert(s.take(i + 1).drop_last() == s.take(i));
        assert(is_digit(s[i]));
        lemma_number_grows(s, i + 1);
    } else {
        assert(s.take(i) == s);
    }
}

/// The number up to `max` that `s` denotes.
pub fn parse_number(s: &str, max: u64) -> (r: Option<u64>)
    ensures
        match r {
            Some(n) => numeral(s@, max as nat) == Some(n as nat),
            None => numeral(s@, max as nat) is None,
        },
{
    let chars = chars_of(s);
    let mut start: usize = 0;
    if chars.len() > 0 && chars[0] == '+' {
        start = 1;
    }
    let ghost digits = unsigned(s@);
    assert(digits =~= s@.subrange(start as int, s@.len() as int));
    if start == chars.len() {
        return None;
    }
    let mut n: u64 = 0;
    let mut i: usize = start;
    while i < chars.len()
        invariant
            start <= i <= chars.len(),
            chars@ == s@,
            digits == s@.subrange(start as int, s@.len() as int),
            digits == unsigned(s@),
            n == number(digits.take(i - start)),
            n <= max,
            forall|j: int| 0 <= j < i - start ==> is_digit(digits[j]),
        decreases chars.len() - i,
    {
        let c = chars[i];
        assert(c == digits[i - start]);
        if !('0' <= c && c <= '9') {
            assert(!is_digit(digits[i - start]));
            return None;
        }
        let d: u64 = (c as u64) - 48;
        proof {
            let t = digits.take(i - start + 1);
            assert(t.drop_last() == digits.take(i - start));
            assert(number(t) == number(digits.take(i - start)) * 10 + d);
            if all_digits(digits) {
                lemma_number_grows(digits, i - start + 1);
            }
        }
        if n > max / 10 || (n == max / 10 && d > max % 10) {
            assert(n * 10 + d > max);
            return None;
        }
        assert(n * 10 + d <= max);
        n = n * 10 + d;
        i += 1;
    }
    assert(digits.take(digits.len() as int) == digits);
    Some(n)
}

/// Whether `a` comes before `b` in the order of their characters.
pub open spec fn before(a: Seq<char>, b: Seq<char>) -> bool
    decreases a.len(),
{
    if b.len() == 0 {
        false
    } else if a.len() == 0 {
        true
    } else if a[0] != b[0] {
        a[0] < b[0]
    } else {
        before(a.drop_first(), b.drop_first())
    }
}

/// Nothing comes before itself.
pub proof fn lemma_before_irreflexive(a: Seq<char>)
    ensures
        !before(a, a),
    decreases a.len(),
{
    if a.len() > 0 {
        lemma_before_irreflexive(a.drop_first());
    }
}

/// Of two different texts one comes before the other.
pub proof fn lemma_before_total(a: Seq<char>, b: Seq<char>)
    ensures
        a == b || before(a, b) || before(b, a),
    decreases a.len(),
{
    if a.len() > 0 && b.len() > 0 && a[0] == b[0] {
        lemma_before_total(a.drop_first(), b.drop_first());
        if a.drop_first() == b.drop_first() {
            assert(a =~= seq![a[0]] + a.drop_first());
            assert(b =~= seq![b[0]] + b.drop_first());
        }
    } else if a.len() == 0 && b.len() == 0 {
        assert(a =~= b);
    }
}

/// The order is transitive.
pub proof fn lemma_before_transitive(a: Seq<char>, b: Seq<char>, c: Seq<char>)
    requires
        before(a, b),
        before(b, c),
    ensures
        before(a, c),
    decreases a.len(),
{
    if a.len() > 0 && b.len() > 0 && c.len() > 0 && a[0] == b[0] && b[0] == c[0] {
        lemma_before_transitive(a.drop_first(), b.drop_first(), c.drop_first());
    }
}

/// Whether `a` comes before `b` in the order of their characters.
pub fn comes_before(a: &str, b: &str) -> (r: bool)
    ensures
        r == before(a@, b@),
{
    let x = chars_of(a);
    let y = chars_of(b);
    let mut i: usize = 0;
    assert(x@.subrange(0, x@.len() as int) == a@ && y@.subrange(0, y@.len() as int) == b@);
    while i < x.len() && i < y.len()
        invariant
            i <= x.len(),
            i <= y.len(),
            before(a@, b@) == before(
                x@.subrange(i as int, x@.len() as int),
                y@.subrange(i as int, y@.len() as int),
            ),
        decreases x.len() - i,
    {
        proof {
            let p = x@.subrange(i as int, x@.len() as int);
            let q = y@.subrange(i as int, y@.len() as int);
            assert(p.drop_first() == x@.subrange(i + 1, x@.len() as int));
            assert(q.drop_first() == y@.subrange(i + 1, y@.len() as int));
        }
        if x[i] != y[i] {
            return x[i] < y[i];
        }
        i += 1;
    }
    i < y.len()
}

/// The text that the `Debug` format of a string gives.
pub uninterp spec fn debugged(s: Seq<char>) -> Seq<char>;

/// The `Debug` format of `str`: the text in quotes, with escapes; it depends on the text alone.
#[verifier::external_body]
pub(crate) fn debug_text(s: &str) -> (r: String)
    ensures
        r@ == debugged(s@),
{
    format!("{:?}", s)
}

/// The message with which `std::str::from_utf8` refuses bytes.
pub uninterp spec fn utf8_refusal(bytes: Seq<u8>) -> Seq<char>;

/// `std::str::from_utf8`: the text that the bytes encode, where they are UTF-8, and otherwise a
/// message that depends on the bytes alone.
#[verifier::external_body]
pub(crate) fn utf8_text(bytes: &[u8]) -> (r: Result<&str, String>)
    ensures
        match r {
            Ok(s) => vstd::utf8::valid_utf8(bytes@) && s@ == vstd::utf8::decode_utf8(bytes@),
            Err(e) => !vstd::utf8::valid_utf8(bytes@) && e@ == utf8_refusal(bytes@),
        },
{
    std::str::from_utf8(bytes).map_err(|e| e.to_string())
}

/// The parts that are not empty.
pub open spec fn filled_parts(parts: Seq<Seq<char>>) -> Seq<Seq<char>>
    decreases parts.len(),
{
    if parts.len() == 0 {
        Seq::empty()
    } else if parts.last().len() == 0 {
        filled_parts(parts.drop_last())
    } else {
        filled_parts(parts.drop_last()).push(parts.last())
    }
}

/// The parts of `s` between the characters that are among `set`, without the empty ones.
pub fn split_filled(s: &str, set: &[char]) -> (r: Vec<String>)
    ensures
        crate::seqs::texts(r@) == filled_parts(pieces(s@, set@)),
{
    let parts = split_chars(s, set);
    let ghost all = crate::seqs::texts(parts@);
    let mut r: Vec<String> = Vec::new();
    let mut i: usize = 0;
    assert(crate::seqs::texts(r@) =~= filled_parts(all.take(0)));
    while i < parts.len()
        invariant
            i <= parts@.len(),
            all == crate::seqs::texts(parts@),
            crate::seqs::texts(r@) == filled_parts(all.take(i as int)),
        decreases parts@.len() - i,
    {
        let ghost before = crate::seqs::texts(r@);
        proof {
            assert(all.take(i + 1).drop_last() == all.take(i as int));
        }
        if parts[i].as_str().unicode_len() > 0 {
            let kept = parts[i].clone();
            r.push(kept);
            assert(crate::seqs::texts(r@) =~= before.push(all[i as int]));
        }
        i += 1;
    }
    r
}

/// The lines, each with a line feed behind it.
pub open spec fn lined(parts: Seq<Seq<char>>) -> Seq<char>
    decreases parts.len(),
{
    if parts.len() == 0 {
        Seq::empty()
    } else {
        lined(parts.drop_last()) + parts.last() + "\n"@
    }
}

/// Splitting a text at a separator parts what lies on either side alike.
pub proof fn lemma_pieces_apart(a: Seq<char>, c: char, b: Seq<char>, set: Seq<char>)
    requires
        set.contains(c),
    ensures
        pieces(a + seq![c] + b, set) == pieces(a, set) + pieces(b, set),
    decreases b.len(),
{
    let whole = a + seq![c] + b;
    let left = pieces(a, set);
    let right = pieces(b, set);
    lemma_pieces_nonempty(b, set);
    if b.len() == 0 {
        assert(whole =~= a + seq![c]);
        assert(whole.drop_last() =~= a);
        assert(left.push(Seq::<char>::empty()) =~= left + right);
    } else {
        let front = b.drop_last();
        lemma_pieces_apart(a, c, front, set);
        lemma_pieces_nonempty(front, set);
        assert(whole.drop_last() =~= a + seq![c] + front);
        let before = left + pieces(front, set);
        if set.contains(b.last()) {
            assert(before.push(Seq::<char>::empty()) =~= left + right);
        } else {
            assert(before.drop_last().push(before.last().push(b.last())) =~= left + right);
        }
    }
}

/// Splitting names that were joined gives them back.
pub proof fn lemma_joined_pieces(names: Seq<Seq<char>>, c: char, set: Seq<char>)
    requires
        set.contains(c),
        names.len() > 0,
        forall|i: int, k: int|
            0 <= i < names.len() && 0 <= k < names[i].len() ==> !set.contains(
                #[trigger] names[i][k],
            ),
    ensures
        pieces(joined(names, seq![c]), set) == names,
    decreases names.len(),
{
    let last = names.last();
    assert forall|k: int| 0 <= k < last.len() implies !set.contains(#[trigger] last[k]) by {
        assert(!set.contains(names[names.len() - 1][k]));
    }
    lemma_pieces_appended(Seq::empty(), last, set);
    assert(Seq::<char>::empty() + last =~= last);
    assert(pieces(Seq::empty(), set) =~= seq![Seq::<char>::empty()]);
    assert(pieces(last, set) =~= seq![last]);
    if names.len() == 1 {
        assert(seq![last] =~= names);
    } else {
        let front = names.drop_last();
        assert forall|i: int, k: int| 0 <= i < front.len() && 0 <= k < front[i].len() implies
            !set.contains(#[trigger] front[i][k]) by {
            assert(!set.contains(names[i][k]));
        }
        lemma_joined_pieces(front, c, set);
        lemma_pieces_apart(joined(front, seq![c]), c, last, set);
        assert(front + seq![last] =~= names);
    }
}

/// Lines that hold no line feed are the pieces of their text.
proof fn lemma_lined_pieces(parts: Seq<Seq<char>>)
    requires
        forall|i: int| 0 <= i < parts.len() ==> !(#[trigger] parts[i]).contains('\n'),
    ensures
        pieces(lined(parts), seq!['\n']) == parts.push(Seq::empty()),
    decreases parts.len(),
{
    let set = seq!['\n'];
    assert(set[0] == '\n');
    if parts.len() == 0 {
        assert(pieces(lined(parts), set) =~= parts.push(Seq::empty()));
    } else {
        let front = parts.drop_last();
        let last = parts.last();
        lemma_lined_pieces(front);
        assert(!parts[parts.len() - 1].contains('\n'));
        assert forall|i: int| 0 <= i < last.len() implies !set.contains(#[trigger] last[i]) by {
            assert(last.contains(last[i]));
        }
        let head = lined(front);
        lemma_pieces_appended(head, last, set);
        assert(Seq::<char>::empty() + last =~= last);
        assert(front.push(Seq::empty()).drop_last().push(last) =~= parts);
        reveal_strlit("\n");
        let whole = head + last + "\n"@;
        assert(whole.drop_last() =~= head + last);
        assert(whole.last() == '\n');
    }
}

/// Lines that hold neither a line feed nor a carriage return are read back from their text.
pub proof fn lemma_lined_lines(parts: Seq<Seq<char>>)
    requires
        forall|i: int|
            0 <= i < parts.len() ==> !(#[trigger] parts[i]).contains('\n') && !parts[i].contains(
                '\r',
            ),
    ensures
        lines_of(lined(parts)) == parts,
{
    lemma_lined_pieces(parts);
    let all = parts.push(Seq::empty());
    let ended = Seq::new((all.len() - 1) as nat, |i: int| without_return(all[i]));
    assert forall|i: int| 0 <= i < ended.len() implies #[trigger] ended[i] == parts[i] by {
        assert(all[i] == parts[i]);
        if parts[i].len() > 0 {
            assert(parts[i].contains(parts[i].last()));
        }
    }
    assert(ended =~= parts);
}

/// The lines, each with a line feed behind it.
pub fn render_lines(lines: &[String]) -> (r: String)
    ensures
        r@ == lined(crate::seqs::texts(lines@)),
{
    let ghost all = crate::seqs::texts(lines@);
    let mut r = String::new();
    let mut i: usize = 0;
    while i < lines.len()
        invariant
            i <= lines@.len(),
            all == crate::seqs::texts(lines@),
            r@ == lined(all.take(i as int)),
        decreases lines@.len() - i,
    {
        proof {
            assert(all.take(i + 1).drop_last() == all.take(i as int));
        }
        r.append(&lines[i]);
        r.append("\n");
        i += 1;
    }
    r
}

/// The text that `String::from_utf8_lossy` makes of bytes.
pub uninterp spec fn lossy(bytes: Seq<u8>) -> Seq<char>;

/// `String::from_utf8_lossy`: the text that the bytes encode, where they are UTF-8; what it puts
/// in for other bytes is left to its name.
#[verifier::external_body]
pub(crate) fn lossy_text(bytes: &[u8]) -> (r: String)
    ensures
        r@ == lossy(bytes@),
        vstd::utf8::valid_utf8(bytes@) ==> r@ == vstd::utf8::decode_utf8(bytes@),
{
    String::from_utf8_lossy(bytes).into_owned()
}

/// The text that `str::to_lowercase` makes of a text.
pub uninterp spec fn lowercased(s: Seq<char>) -> Seq<char>;

/// `str::to_lowercase`: the text in lower case by the rules of Unicode.
#[verifier::external_body]
pub(crate) fn to_lowercase(s: &str) -> (r: String)
    ensures
        r@ == lowercased(s@),
{
    s.to_lowercase()
}

/// The parts of `bytes` between those that are zero.
pub open spec fn zero_pieces(bytes: Seq<u8>) -> Seq<Seq<u8>>
    decreases bytes.len(),
{
    if bytes.len() == 0 {
        seq![Seq::empty()]
    } else {
        let before = zero_pieces(bytes.drop_last());
        if bytes.last() == 0 {
            before.push(Seq::empty())
        } else {
            before.drop_last().push(before.last().push(bytes.last()))
        }
    }
}

/// The views of byte strings.
pub open spec fn byte_views(v: Seq<Vec<u8>>) -> Seq<Seq<u8>> {
    Seq::new(v.len(), |i: int| v[i]@)
}

/// The parts of `bytes` between those that are zero.
pub fn split_zero(bytes: &[u8]) -> (r: Vec<Vec<u8>>)
    ensures
        byte_views(r@) == zero_pieces(bytes@),
{
    let mut done: Vec<Vec<u8>> = Vec::new();
    let mut current: Vec<u8> = Vec::new();
    let mut i: usize = 0;
    assert(zero_pieces(bytes@.take(0)) =~= byte_views(done@).push(current@));
    while i < bytes.len()
        invariant
            i <= bytes@.len(),
            zero_pieces(bytes@.take(i as int)) == byte_views(done@).push(current@),
        decreases bytes@.len() - i,
    {
        let ghost before = byte_views(done@).push(current@);
        proof {
            assert(bytes@.take(i + 1).drop_last() == bytes@.take(i as int));
        }
        if bytes[i] == 0 {
            done.push(current);
            current = Vec::new();
            assert(byte_views(done@).push(current@) =~= before.push(Seq::empty()));
        } else {
            current.push(bytes[i]);
            assert(byte_views(done@).push(current@) =~= before.drop_last().push(
                before.last().push(bytes@[i as int]),
            ));
        }
        i += 1;
    }
    let ghost kept = byte_views(done@);
    let ghost last = current@;
    done.push(current);
    assert(byte_views(done@) =~= kept.push(last));
    done
}

/// The message with which `str::parse::<u64>` refuses a text.
pub uninterp spec fn u64_refusal(s: Seq<char>) -> Seq<char>;

/// `str::parse::<u64>` reads a number in decimal notation, with digits alone or a plus sign before
/// them, that is not above `u64::MAX`. The message of a refusal depends on the text alone.
#[verifier::external_body]
pub(crate) fn read_u64(s: &str) -> (r: Result<u64, String>)
    ensures
        match r {
            Ok(n) => numeral(s@, u64::MAX as nat) == Some(n as nat),
            Err(e) => numeral(s@, u64::MAX as nat) is None && e@ == u64_refusal(s@),
        },
{
    s.parse::<u64>().map_err(|e| e.to_string())
}

/// The message with which `str::parse::<u32>` refuses a text.
pub uninterp spec fn u32_refusal(s: Seq<char>) -> Seq<char>;

/// `str::parse::<u32>` reads a number in decimal notation, with digits alone or a plus sign before
/// them, that is not above `u32::MAX`. The message of a refusal depends on the text alone.
#[verifier::external_body]
pub(crate) fn read_u32(s: &str) -> (r: Result<u32, String>)
    ensures
        match r {
            Ok(n) => numeral(s@, u32::MAX as nat) == Some(n as nat),
            Err(e) => numeral(s@, u32::MAX as nat) is None && e@ == u32_refusal(s@),
        },
{
    s.parse::<u32>().map_err(|e| e.to_string())
}

} // verus!
