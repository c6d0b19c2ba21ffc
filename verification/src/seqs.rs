//! Facts about sequences that the rest of the library relies on.

use vstd::prelude::*;
use vstd::string::*;

verus! {

/// The views of a sequence of strings.
pub open spec fn texts(s: Seq<String>) -> Seq<Seq<char>> {
    Seq::new(s.len(), |i: int| s[i]@)
}

/// A sequence cut at neither end is the sequence itself.
pub broadcast proof fn lemma_whole<A>(s: Seq<A>)
    ensures
        #[trigger] s.subrange(0, s.len() as int) == s,
{
}

/// Taking all of a sequence leaves it as it is.
pub broadcast proof fn lemma_take_whole<A>(s: Seq<A>)
    ensures
        #[trigger] s.take(s.len() as int) == s,
{
}

/// Dropping the element that was appended last undoes the append.
pub broadcast proof fn lemma_push_drop<A>(s: Seq<A>, a: A)
    ensures
        #[trigger] s.push(a).drop_last() == s,
{
}

pub broadcast group group_seqs {
    lemma_whole,
    lemma_take_whole,
    lemma_push_drop,
}

/// Appends a text to a list of strings.
pub fn push_text(v: &mut Vec<String>, s: &str)
    ensures
        texts(final(v)@) == texts(old(v)@).push(s@),
        final(v)@.len() == old(v)@.len() + 1,
{
    let ghost before = texts(v@);
    v.push(s.to_owned());
    assert(texts(v@) =~= before.push(s@));
}

/// Appends a string to a list of strings.
pub fn push_string(v: &mut Vec<String>, s: String)
    ensures
        texts(final(v)@) == texts(old(v)@).push(s@),
        final(v)@.len() == old(v)@.len() + 1,
{
    let ghost before = texts(v@);
    let ghost own = s@;
    v.push(s);
    assert(texts(v@) =~= before.push(own));
}

/// A list of strings without any.
pub fn no_texts() -> (r: Vec<String>)
    ensures
        texts(r@) == Seq::<Seq<char>>::empty(),
{
    let r: Vec<String> = Vec::new();
    assert(texts(r@) =~= Seq::<Seq<char>>::empty());
    r
}

/// Appends copies of the strings of `other`.
pub fn push_texts(v: &mut Vec<String>, other: &[String])
    ensures
        texts(final(v)@) == texts(old(v)@) + texts(other@),
{
    let ghost before = texts(v@);
    let mut i: usize = 0;
    assert(before + texts(other@).take(0) =~= before);
    while i < other.len()
        invariant
            i <= other@.len(),
            texts(v@) == before + texts(other@).take(i as int),
        decreases other@.len() - i,
    {
        push_text(v, &other[i]);
        i += 1;
        assert(texts(v@) =~= before + texts(other@).take(i as int));
    }
    assert(texts(other@).take(other@.len() as int) =~= texts(other@));
}

/// A copy of a list of strings.
pub fn copy_texts(other: &[String]) -> (r: Vec<String>)
    ensures
        texts(r@) == texts(other@),
{
    let mut r = no_texts();
    push_texts(&mut r, other);
    assert(texts(r@) =~= texts(other@));
    r
}

/// The texts of `s`, each where it occurs first.
pub open spec fn deduped(s: Seq<Seq<char>>) -> Seq<Seq<char>>
    decreases s.len(),
{
    if s.len() == 0 {
        Seq::empty()
    } else {
        let before = deduped(s.drop_last());
        if before.contains(s.last()) {
            before
        } else {
            before.push(s.last())
        }
    }
}

/// Whether a list of strings holds `s`.
pub fn has_text(v: &[String], s: &str) -> (r: bool)
    ensures
        r == texts(v@).contains(s@),
{
    let mut i: usize = 0;
    while i < v.len()
        invariant
            i <= v@.len(),
            forall|j: int| 0 <= j < i ==> #[trigger] texts(v@)[j] != s@,
        decreases v@.len() - i,
    {
        if crate::text::same(&v[i], s) {
            assert(texts(v@)[i as int] == s@);
            return true;
        }
        i += 1;
    }
    false
}

/// The strings of `values`, each where it occurs first.
pub fn dedupe_preserve_order(values: &[String]) -> (r: Vec<String>)
    ensures
        texts(r@) == deduped(texts(values@)),
{
    let ghost all = texts(values@);
    let mut r = no_texts();
    let mut i: usize = 0;
    assert(all.take(0) =~= Seq::<Seq<char>>::empty());
    while i < values.len()
        invariant
            i <= values@.len(),
            all == texts(values@),
            texts(r@) == deduped(all.take(i as int)),
        decreases values@.len() - i,
    {
        proof {
            assert(all.take(i + 1).drop_last() =~= all.take(i as int));
        }
        if !has_text(&r, &values[i]) {
            push_text(&mut r, &values[i]);
        }
        i += 1;
    }
    assert(all.take(all.len() as int) =~= all);
    r
}

/// Deduplication keeps each text once and loses none.
pub proof fn law_deduped(s: Seq<Seq<char>>)
    ensures
        deduped(s).no_duplicates(),
        forall|x: Seq<char>| #[trigger] deduped(s).contains(x) <==> s.contains(x),
    decreases s.len(),
{
    if s.len() > 0 {
        let front = s.drop_last();
        let before = deduped(front);
        law_deduped(front);
        assert forall|x: Seq<char>| #[trigger] deduped(s).contains(x) implies s.contains(x) by {
            if before.contains(x) {
                let i = choose|i: int| 0 <= i < front.len() && front[i] == x;
                assert(s[i] == x);
            } else {
                assert(s[s.len() - 1] == x);
            }
        }
        assert forall|x: Seq<char>| s.contains(x) implies #[trigger] deduped(s).contains(x) by {
            let i = choose|i: int| 0 <= i < s.len() && s[i] == x;
            if i < s.len() - 1 {
                assert(front[i] == x);
                assert(before.contains(x));
                let j = choose|j: int| 0 <= j < before.len() && before[j] == x;
                assert(deduped(s)[j] == x);
            } else if !before.contains(s.last()) {
                assert(deduped(s)[before.len() as int] == x);
            }
        }
    }
}

/// What follows in a list does not change what deduplication makes of its beginning: each text
/// stands where it occurs first.
pub proof fn law_deduped_in_order(a: Seq<Seq<char>>, b: Seq<Seq<char>>)
    ensures
        deduped(a).len() <= deduped(a + b).len(),
        deduped(a + b).take(deduped(a).len() as int) == deduped(a),
    decreases b.len(),
{
    if b.len() == 0 {
        assert(a + b =~= a);
        assert(deduped(a).take(deduped(a).len() as int) =~= deduped(a));
    } else {
        law_deduped_in_order(a, b.drop_last());
        assert((a + b).drop_last() =~= a + b.drop_last());
        let before = deduped(a + b.drop_last());
        let n = deduped(a).len() as int;
        assert(deduped(a + b).take(n) =~= before.take(n));
    }
}

/// A list without repetitions is its own deduplication; so deduplicating twice is the same as
/// once.
pub proof fn law_deduped_keeps_distinct(s: Seq<Seq<char>>)
    requires
        s.no_duplicates(),
    ensures
        deduped(s) == s,
    decreases s.len(),
{
    if s.len() > 0 {
        let front = s.drop_last();
        law_deduped_keeps_distinct(front);
        assert(!front.contains(s.last())) by {
            if front.contains(s.last()) {
                let i = choose|i: int| 0 <= i < front.len() && front[i] == s.last();
                assert(s[i] == s[s.len() - 1]);
            }
        }
        assert(front.push(s.last()) =~= s);
    } else {
        assert(deduped(s) =~= s);
    }
}

/// What a function gives for all elements, in order, or its first failure.
pub open spec fn collected<A, B, E>(s: Seq<A>, f: spec_fn(A) -> Result<B, E>) -> Result<Seq<B>, E>
    decreases s.len(),
{
    if s.len() == 0 {
        Ok(Seq::empty())
    } else {
        match collected(s.drop_last(), f) {
            Err(e) => Err(e),
            Ok(done) => match f(s.last()) {
                Err(e) => Err(e),
                Ok(b) => Ok(done.push(b)),
            },
        }
    }
}

/// One element more; and a failure among the first elements is that of all.
pub proof fn lemma_collected<A, B, E>(s: Seq<A>, f: spec_fn(A) -> Result<B, E>, i: int)
    requires
        0 <= i < s.len(),
    ensures
        collected(s.take(i + 1), f) == (match collected(s.take(i), f) {
            Err(e) => Err(e),
            Ok(done) => match f(s[i]) {
                Err(e) => Err(e),
                Ok(b) => Ok(done.push(b)),
            },
        }),
        collected(s.take(i + 1), f) is Err ==> collected(s, f) == collected(s.take(i + 1), f),
{
    assert(s.take(i + 1).drop_last() =~= s.take(i));
    lemma_collected_stops(s, f, i + 1);
}

/// A list of results holds the result of every item.
pub proof fn lemma_collected_item<A, B, E>(s: Seq<A>, f: spec_fn(A) -> Result<B, E>, i: int)
    requires
        collected(s, f) is Ok,
        0 <= i < s.len(),
    ensures
        collected(s, f)->Ok_0.len() == s.len(),
        f(s[i]) == Ok::<B, E>(collected(s, f)->Ok_0[i]),
    decreases s.len(),
{
    if s.len() > 1 {
        let k = if i < s.len() - 1 {
            i
        } else {
            0
        };
        lemma_collected_item(s.drop_last(), f, k);
        assert(s.drop_last()[k] == s[k]);
    } else {
        assert(collected(s.drop_last(), f) == Ok::<Seq<B>, E>(Seq::empty()));
    }
    assert(s.last() == s[s.len() - 1]);
}

/// A list of results is there where the result of every item is.
pub proof fn lemma_collected_ok<A, B, E>(s: Seq<A>, f: spec_fn(A) -> Result<B, E>)
    requires
        forall|i: int| 0 <= i < s.len() ==> f(#[trigger] s[i]) is Ok,
    ensures
        collected(s, f) is Ok,
    decreases s.len(),
{
    if s.len() > 0 {
        assert forall|i: int| 0 <= i < s.drop_last().len() implies f(
            #[trigger] s.drop_last()[i],
        ) is Ok by {
            assert(s.drop_last()[i] == s[i]);
        }
        lemma_collected_ok(s.drop_last(), f);
        assert(s.last() == s[s.len() - 1]);
    }
}

proof fn lemma_collected_stops<A, B, E>(s: Seq<A>, f: spec_fn(A) -> Result<B, E>, i: int)
    requires
        0 <= i <= s.len(),
    ensures
        collected(s.take(i), f) is Err ==> collected(s, f) == collected(s.take(i), f),
    decreases s.len() - i,
{
    if i < s.len() {
        assert(s.take(i + 1).drop_last() =~= s.take(i));
        lemma_collected_stops(s, f, i + 1);
    } else {
        assert(s.take(i) =~= s);
    }
}

/// The first failure of a check among all elements, if there is one.
pub open spec fn each<A, E>(s: Seq<A>, f: spec_fn(A) -> Result<(), E>) -> Result<(), E>
    decreases s.len(),
{
    if s.len() == 0 {
        Ok(())
    } else {
        match each(s.drop_last(), f) {
            Err(e) => Err(e),
            Ok(_) => f(s.last()),
        }
    }
}

/// One element more; and a failure among the first elements is that of all.
pub proof fn lemma_each<A, E>(s: Seq<A>, f: spec_fn(A) -> Result<(), E>, i: int)
    requires
        0 <= i < s.len(),
    ensures
        each(s.take(i + 1), f) == (match each(s.take(i), f) {
            Err(e) => Err(e),
            Ok(_) => f(s[i]),
        }),
        each(s.take(i + 1), f) is Err ==> each(s, f) == each(s.take(i + 1), f),
{
    assert(s.take(i + 1).drop_last() =~= s.take(i));
    lemma_each_stops(s, f, i + 1);
}

proof fn lemma_each_stops<A, E>(s: Seq<A>, f: spec_fn(A) -> Result<(), E>, i: int)
    requires
        0 <= i <= s.len(),
    ensures
        each(s.take(i), f) is Err ==> each(s, f) == each(s.take(i), f),
    decreases s.len() - i,
{
    if i < s.len() {
        assert(s.take(i + 1).drop_last() =~= s.take(i));
        lemma_each_stops(s, f, i + 1);
    } else {
        assert(s.take(i) =~= s);
    }
}

/// Where a check fails for none of the elements, it fails for no one of them.
pub proof fn lemma_each_ok<A, E>(s: Seq<A>, f: spec_fn(A) -> Result<(), E>, i: int)
    requires
        each(s, f) is Ok,
        0 <= i < s.len(),
    ensures
        f(s[i]) is Ok,
    decreases s.len(),
{
    if i < s.len() - 1 {
        lemma_each_ok(s.drop_last(), f, i);
    }
}

/// The failure of the first check, or else what the second came to.
pub open spec fn both<E>(first: Result<(), E>, second: Result<(), E>) -> Result<(), E> {
    match first {
        Err(e) => Err(e),
        Ok(_) => second,
    }
}

/// A check of all elements passes exactly where it passes for each of them, and fails as it does for
/// one of them.
pub proof fn law_each<A, E>(s: Seq<A>, f: spec_fn(A) -> Result<(), E>)
    ensures
        each(s, f) is Ok <==> forall|i: int| 0 <= i < s.len() ==> f(#[trigger] s[i]) is Ok,
        each(s, f) is Err ==> exists|i: int|
            0 <= i < s.len() && f(#[trigger] s[i]) is Err && f(s[i])->Err_0 == each(s, f)->Err_0 && (
            forall|k: int| 0 <= k < i ==> f(#[trigger] s[k]) is Ok),
    decreases s.len(),
{
    if s.len() > 0 {
        let front = s.drop_last();
        let n = front.len() as int;
        law_each(front, f);
        assert(s[n] == s.last());
        assert forall|i: int| 0 <= i < n implies #[trigger] front[i] == s[i] by {}
        if each(front, f) is Ok {
            assert forall|i: int| 0 <= i < n implies f(#[trigger] s[i]) is Ok by {
                assert(front[i] == s[i]);
            }
        } else {
            let i = choose|i: int|
                0 <= i < front.len() && f(#[trigger] front[i]) is Err && f(front[i])->Err_0 == each(
                    front,
                    f,
                )->Err_0 && (forall|k: int| 0 <= k < i ==> f(#[trigger] front[k]) is Ok);
            assert(front[i] == s[i]);
            assert forall|k: int| 0 <= k < i implies f(#[trigger] s[k]) is Ok by {
                assert(front[k] == s[k]);
            }
        }
    }
}

/// All elements are converted exactly where each of them can be, one by one and in order.
pub proof fn law_collected<A, B, E>(s: Seq<A>, f: spec_fn(A) -> Result<B, E>)
    ensures
        collected(s, f) is Ok <==> forall|i: int| 0 <= i < s.len() ==> f(#[trigger] s[i]) is Ok,
        collected(s, f) matches Ok(out) ==> out.len() == s.len() && forall|i: int|
            0 <= i < s.len() ==> f(#[trigger] s[i]) is Ok && out[i] == f(s[i])->Ok_0,
        collected(s, f) is Err ==> exists|i: int|
            0 <= i < s.len() && f(#[trigger] s[i]) is Err && f(s[i])->Err_0 == collected(
                s,
                f,
            )->Err_0,
    decreases s.len(),
{
    if s.len() > 0 {
        let front = s.drop_last();
        let n = front.len() as int;
        law_collected(front, f);
        assert(s[n] == s.last());
        assert forall|i: int| 0 <= i < n implies #[trigger] front[i] == s[i] by {}
        if collected(front, f) is Ok {
            assert forall|i: int| 0 <= i < n implies f(#[trigger] s[i]) is Ok && (collected(
                front,
                f,
            )->Ok_0)[i] == f(s[i])->Ok_0 by {
                assert(front[i] == s[i]);
            }
        } else {
            let i = choose|i: int|
                0 <= i < front.len() && f(#[trigger] front[i]) is Err && f(front[i])->Err_0
                    == collected(front, f)->Err_0;
            assert(front[i] == s[i]);
        }
    }
}

} // verus!
