//! What holds of the operations on texts.

use vstd::prelude::*;
use vstd::string::*;

use crate::text;

verus! {

broadcast use crate::seqs::group_seqs;

/// Whether all of `s` is white space.
pub open spec fn all_white(s: Seq<char>) -> bool {
    forall|i: int| 0 <= i < s.len() ==> text::is_white(#[trigger] s[i])
}

/// Whether `s` is empty, or neither begins nor ends with white space.
pub open spec fn is_tight(s: Seq<char>) -> bool {
    s.len() > 0 ==> !text::is_white(s[0]) && !text::is_white(s.last())
}

/// White space before a text is taken off, and nothing more.
pub proof fn law_trimmed_start(before: Seq<char>, s: Seq<char>)
    requires
        all_white(before),
        s.len() > 0 ==> !text::is_white(s[0]),
    ensures
        text::trimmed_start(before + s) == s,
    decreases before.len(),
{
    let all = before + s;
    if before.len() == 0 {
        assert(all =~= s);
    } else {
        assert(all[0] == before[0]);
        let more = before.drop_first();
        assert forall|i: int| 0 <= i < more.len() implies text::is_white(#[trigger] more[i]) by {
            assert(more[i] == before[i + 1]);
        }
        assert(all.drop_first() =~= more + s);
        law_trimmed_start(more, s);
    }
}

/// White space behind a text is taken off, and nothing more.
pub proof fn law_trimmed_end(s: Seq<char>, behind: Seq<char>)
    requires
        all_white(behind),
        s.len() > 0 ==> !text::is_white(s.last()),
    ensures
        text::trimmed_end(s + behind) == s,
    decreases behind.len(),
{
    let all = s + behind;
    if behind.len() == 0 {
        assert(all =~= s);
    } else {
        assert(all.last() == behind.last());
        assert(text::is_white(behind[behind.len() - 1]));
        let less = behind.drop_last();
        assert forall|i: int| 0 <= i < less.len() implies text::is_white(#[trigger] less[i]) by {
            assert(less[i] == behind[i]);
        }
        assert(all.drop_last() =~= s + less);
        law_trimmed_end(s, less);
    }
}

/// White space around a text is taken off, and nothing more.
pub proof fn law_trimmed(before: Seq<char>, s: Seq<char>, behind: Seq<char>)
    requires
        all_white(before),
        all_white(behind),
        is_tight(s),
    ensures
        text::trimmed(before + s + behind) == s,
{
    let rest = s + behind;
    assert(before + s + behind =~= before + rest);
    if s.len() > 0 {
        assert(rest[0] == s[0]);
        law_trimmed_start(before, rest);
        law_trimmed_end(s, behind);
    } else {
        let all = before + s + behind;
        let none = Seq::<char>::empty();
        assert(all =~= all + none);
        assert forall|i: int| 0 <= i < all.len() implies text::is_white(#[trigger] all[i]) by {
            if i < before.len() {
                assert(all[i] == before[i]);
            } else {
                assert(all[i] == behind[i - before.len()]);
            }
        }
        law_trimmed_start(all, none);
        assert(s =~= none);
    }
}

/// A text is parted at the first place where the other stands.
pub proof fn law_parted(a: Seq<char>, p: Seq<char>, b: Seq<char>)
    requires
        forall|j: int|
            0 <= j < a.len() ==> #[trigger] (a + p + b).subrange(j, j + p.len()) != p,
    ensures
        text::parted(a + p + b, p) == Some((a, b)),
{
    let s = a + p + b;
    let n = a.len() as int;
    assert(s.subrange(n, n + p.len()) =~= p);
    assert forall|j: int| 0 <= j < n implies !text::matches_at(s, p, j) by {
        assert(s.subrange(j, j + p.len()) != p);
    }
    text::lemma_first_match_is(s, p, 0, n);
    assert(s.subrange(0, n) =~= a);
    assert(s.subrange(n + p.len(), s.len() as int) =~= b);
}

/// A text is parted behind what does not hold the first character of the other.
pub proof fn law_parted_by(a: Seq<char>, p: Seq<char>, b: Seq<char>)
    requires
        p.len() > 0,
        !a.contains(p[0]),
    ensures
        text::parted(a + p + b, p) == Some((a, b)),
{
    let s = a + p + b;
    assert forall|j: int| 0 <= j < a.len() implies #[trigger] s.subrange(j, j + p.len()) != p by {
        assert(s.subrange(j, j + p.len())[0] == s[j]);
        assert(s[j] == a[j]);
        assert(a.contains(a[j]));
    }
    law_parted(a, p, b);
}

/// A text in which the other does not stand is not parted.
pub proof fn law_not_parted(s: Seq<char>, p: Seq<char>)
    requires
        forall|j: int|
            0 <= j && j + p.len() <= s.len() ==> #[trigger] s.subrange(j, j + p.len()) != p,
    ensures
        text::parted(s, p) is None,
        !text::holds(s, p),
{
    text::lemma_first_match(s, p, 0);
    if let Some(i) = text::first_match(s, p, 0) {
        assert(s.subrange(i, i + p.len()) != p);
    }
    if text::holds(s, p) {
        let i = choose|i: int| text::matches_at(s, p, i);
        assert(s.subrange(i, i + p.len()) != p);
    }
}

/// The first place where a text stands is replaced, and all else is kept.
pub proof fn law_replaced_once(a: Seq<char>, p: Seq<char>, b: Seq<char>, to: Seq<char>)
    requires
        forall|j: int|
            0 <= j < a.len() ==> #[trigger] (a + p + b).subrange(j, j + p.len()) != p,
    ensures
        text::replaced_once(a + p + b, p, to) == a + to + b,
{
    law_parted(a, p, b);
}

/// Whether no white space stands in `s`.
pub open spec fn is_solid(s: Seq<char>) -> bool {
    forall|i: int| 0 <= i < s.len() ==> !text::is_white(#[trigger] s[i])
}

/// A word reaches up to the next white space.
proof fn lemma_word_reaches(s: Seq<char>, from: int, to: int)
    requires
        0 <= from <= to <= s.len(),
        forall|i: int| from <= i < to ==> !text::is_white(#[trigger] s[i]),
        to < s.len() ==> text::is_white(s[to]),
    ensures
        text::word_end(s, from) == to,
    decreases to - from,
{
    if from < to {
        assert(!text::is_white(s[from]));
        lemma_word_reaches(s, from + 1, to);
    }
}

/// The words of a text are taken one after the other: what stands before the first white space
/// behind a word is that word, and the rest is taken apart by itself.
pub proof fn law_words(before: Seq<char>, word: Seq<char>, rest: Seq<char>)
    requires
        all_white(before),
        word.len() > 0,
        is_solid(word),
        rest.len() > 0 ==> text::is_white(rest[0]),
    ensures
        text::words(before + word + rest) == seq![word] + text::words(rest),
{
    let s = before + word + rest;
    let t = word + rest;
    assert(s =~= before + t);
    assert(t[0] == word[0]);
    law_trimmed_start(before, t);
    let n = word.len() as int;
    assert forall|i: int| 0 <= i < n implies !text::is_white(#[trigger] t[i]) by {
        assert(t[i] == word[i]);
    }
    if rest.len() > 0 {
        assert(t[n] == rest[0]);
    }
    lemma_word_reaches(t, 0, n);
    assert(t.subrange(0, n) =~= word);
    assert(t.subrange(n, t.len() as int) =~= rest);
}

/// White space holds no words.
pub proof fn law_no_words(s: Seq<char>)
    requires
        all_white(s),
    ensures
        text::words(s) == Seq::<Seq<char>>::empty(),
{
    let none = Seq::<char>::empty();
    assert(s + none =~= s);
    law_trimmed_start(s, none);
}

/// A text without the separator is one piece, and pieces are taken one after the other: what stands
/// before and behind a separator is taken apart by itself.
pub proof fn law_pieces(s: Seq<char>, a: Seq<char>, c: char, b: Seq<char>, set: Seq<char>)
    requires
        forall|i: int| 0 <= i < s.len() ==> !set.contains(#[trigger] s[i]),
        set.contains(c),
    ensures
        text::pieces(s, set) == seq![s],
        text::pieces(a + seq![c] + b, set) == text::pieces(a, set) + text::pieces(b, set),
{
    let none = Seq::<char>::empty();
    text::lemma_pieces_appended(none, s, set);
    assert(text::pieces(none, set) =~= seq![none]);
    assert(none + s =~= s);
    assert(seq![none].drop_last().push(s) =~= seq![s]);
    text::lemma_pieces_apart(a, c, b, set);
}

/// A line is what stands before a line feed, without a carriage return before it; the rest is taken
/// apart by itself. What no line feed ends is a line too, where it is not empty, with all its
/// characters.
pub proof fn law_lines(line: Seq<char>, rest: Seq<char>)
    requires
        !line.contains('\n'),
    ensures
        text::lines_of(line + seq!['\n'] + rest) == seq![
            if line.len() > 0 && line.last() == '\r' {
                line.drop_last()
            } else {
                line
            },
        ] + text::lines_of(rest),
        line.len() > 0 ==> text::lines_of(line) == seq![line],
        text::lines_of(Seq::empty()) == Seq::<Seq<char>>::empty(),
{
    let set = seq!['\n'];
    assert(set[0] == '\n');
    assert forall|i: int| 0 <= i < line.len() implies !set.contains(#[trigger] line[i]) by {
        assert(line.contains(line[i]));
        if set.contains(line[i]) {
            assert(set[0] == line[i]);
        }
    }
    law_pieces(line, line, '\n', rest, set);
    text::lemma_pieces_nonempty(rest, set);
    let own = text::pieces(rest, set);
    let all = seq![line] + own;
    assert(text::pieces(line + seq!['\n'] + rest, set) == all);
    assert(all.last() == own.last());
    let head = if line.len() > 0 && line.last() == '\r' {
        line.drop_last()
    } else {
        line
    };
    assert(text::lines_of(line + seq!['\n'] + rest) =~= seq![head] + text::lines_of(rest));
    assert(seq![line].last() == line);
    if line.len() > 0 {
        assert(text::lines_of(line) =~= seq![line]);
    }
    let none = Seq::<char>::empty();
    assert(text::pieces(none, set) =~= seq![none]);
    assert(text::lines_of(none) =~= Seq::<Seq<char>>::empty());
}

/// Lines are written one after the other, each with a line feed behind it.
pub proof fn law_lined(a: Seq<Seq<char>>, b: Seq<Seq<char>>, line: Seq<char>)
    ensures
        text::lined(a + b) == text::lined(a) + text::lined(b),
        text::lined(seq![line]) == line + "\n"@,
    decreases b.len(),
{
    reveal_with_fuel(text::lined, 2);
    assert(seq![line].drop_last() =~= Seq::<Seq<char>>::empty());
    assert(text::lined(seq![line]) =~= line + "\n"@);
    if b.len() == 0 {
        assert(a + b =~= a);
        assert(text::lined(a) + text::lined(b) =~= text::lined(a));
    } else {
        law_lined(a, b.drop_last(), line);
        assert((a + b).drop_last() =~= a + b.drop_last());
        assert((a + b).last() == b.last());
        assert(text::lined(a + b) =~= text::lined(a) + text::lined(b));
    }
}

/// Parts are joined one after the other, with the separator between each two.
pub proof fn law_joined(a: Seq<Seq<char>>, b: Seq<Seq<char>>, part: Seq<char>, sep: Seq<char>)
    ensures
        text::joined(seq![part], sep) == part,
        text::joined(Seq::empty(), sep) == Seq::<char>::empty(),
        a.len() > 0 && b.len() > 0 ==> text::joined(a + b, sep) == text::joined(a, sep) + sep
            + text::joined(b, sep),
    decreases b.len(),
{
    if a.len() > 0 && b.len() > 0 {
        let all = a + b;
        let front = b.drop_last();
        assert(all.drop_last() =~= a + front);
        assert(all.last() == b.last());
        if front.len() == 0 {
            assert(a + front =~= a);
            assert(text::joined(b, sep) == b.last());
        } else {
            law_joined(a, front, part, sep);
            assert(text::joined(all, sep) =~= text::joined(a, sep) + sep + text::joined(b, sep));
        }
    }
}

/// Putting a text into lower or upper case changes its ASCII letters, one by one, and no other
/// character.
pub proof fn law_case(s: Seq<char>, i: int)
    requires
        0 <= i < s.len(),
    ensures
        text::lowered(s).len() == s.len(),
        text::uppered(s).len() == s.len(),
        'A' <= s[i] <= 'Z' ==> text::lowered(s)[i] as int == s[i] as int + 32,
        !('A' <= s[i] <= 'Z') ==> text::lowered(s)[i] == s[i],
        'a' <= s[i] <= 'z' ==> text::uppered(s)[i] as int == s[i] as int - 32,
        !('a' <= s[i] <= 'z') ==> text::uppered(s)[i] == s[i],
{
}

/// A number in decimal notation is digits that denote it, without a zero before them.
pub proof fn law_decimal(n: nat)
    ensures
        text::decimal(n).len() > 0,
        forall|i: int|
            0 <= i < text::decimal(n).len() ==> '0' <= #[trigger] text::decimal(n)[i] <= '9',
        text::number(text::decimal(n)) == n,
        text::decimal(n).len() > 1 ==> text::decimal(n)[0] != '0',
    decreases n,
{
    reveal_with_fuel(text::number, 2);
    let s = text::decimal(n);
    if n < 10 {
        assert(s.drop_last() =~= Seq::<char>::empty());
    } else {
        let front = text::decimal(n / 10);
        law_decimal(n / 10);
        assert(s.drop_last() =~= front);
        assert(s[0] == front[0]);
        if front.len() == 1 {
            assert(n / 10 >= 1);
            if n / 10 >= 10 {
                assert(text::decimal(n / 10 / 10).len() > 0) by {
                    law_decimal(n / 10 / 10);
                }
            }
            assert(n / 10 < 10);
        }
    }
}

/// The number that digits denote: each is worth ten times what the next one is.
pub proof fn law_number(s: Seq<char>, c: char)
    requires
        '0' <= c <= '9',
    ensures
        text::number(s.push(c)) == text::number(s) * 10 + (c as int - 48),
        text::number(Seq::empty()) == 0,
{
    assert(s.push(c).drop_last() =~= s);
}

/// A text is read as a number exactly where it is digits, after at most one plus sign, and the
/// number is not too large.
pub proof fn law_numeral(s: Seq<char>, max: nat)
    ensures
        text::numeral(seq!['+'] + s, max) == (if s.len() > 0 && (forall|i: int|
            0 <= i < s.len() ==> '0' <= #[trigger] s[i] <= '9') && text::number(s) <= max {
            Some(text::number(s))
        } else {
            None
        }),
        s.len() == 0 || s[0] != '+' ==> text::numeral(s, max) == text::numeral(seq!['+'] + s, max),
{
    let signed = seq!['+'] + s;
    assert(signed[0] == '+');
    assert(signed.drop_first() =~= s);
    assert(text::all_digits(s) == (forall|i: int|
        0 <= i < s.len() ==> '0' <= #[trigger] s[i] <= '9')) by {
        if text::all_digits(s) {
            assert forall|i: int| 0 <= i < s.len() implies '0' <= #[trigger] s[i] <= '9' by {
                assert(text::is_digit(s[i]));
            }
        }
    }
}

/// All places where a text stands are replaced, from the left: what stands before the first of them
/// is kept, and what stands behind it is taken by itself. Where the text stands nowhere, nothing
/// changes.
pub proof fn law_replaced(a: Seq<char>, p: Seq<char>, b: Seq<char>, to: Seq<char>)
    requires
        p.len() > 0,
    ensures
        (forall|j: int| 0 <= j < a.len() ==> #[trigger] (a + p + b).subrange(j, j + p.len()) != p)
            ==> text::replaced(a + p + b, p, to) == a + to + text::replaced(b, p, to),
        (forall|j: int|
            0 <= j && j + p.len() <= a.len() ==> #[trigger] a.subrange(j, j + p.len()) != p)
            ==> text::replaced(a, p, to) == a,
{
    let s = a + p + b;
    if forall|j: int| 0 <= j < a.len() ==> #[trigger] s.subrange(j, j + p.len()) != p {
        let n = a.len() as int;
        assert(s.subrange(n, n + p.len()) =~= p);
        assert forall|j: int| 0 <= j < n implies !text::matches_at(s, p, j) by {
            assert(s.subrange(j, j + p.len()) != p);
        }
        text::lemma_first_match_is(s, p, 0, n);
        assert(s.subrange(0, n) =~= a);
        assert(s.subrange(n + p.len(), s.len() as int) =~= b);
    }
    if forall|j: int|
        0 <= j && j + p.len() <= a.len() ==> #[trigger] a.subrange(j, j + p.len()) != p {
        law_not_parted(a, p);
        text::lemma_first_match_none(a, p);
    }
}

/// One text comes before another where it is a shorter beginning of it, or where the first
/// characters that differ stand in that order.
pub proof fn law_before(a: Seq<char>, x: Seq<char>, y: Seq<char>)
    ensures
        text::before(a + x, a + y) == text::before(x, y),
        text::before(Seq::empty(), y) == (y.len() > 0),
        !text::before(x, Seq::empty()),
        x.len() > 0 && y.len() > 0 && x[0] != y[0] ==> text::before(x, y) == (x[0] < y[0]),
    decreases a.len(),
{
    if a.len() == 0 {
        assert(a + x =~= x);
        assert(a + y =~= y);
    } else {
        let less = a.drop_first();
        assert((a + x).drop_first() =~= less + x);
        assert((a + y).drop_first() =~= less + y);
        assert((a + x)[0] == (a + y)[0]);
        law_before(less, x, y);
    }
}

} // verus!
