//! Why a redacted text holds none of its secrets.
//!
//! Beside a text stands, for each of its characters, whether it is the text's own or belongs to a
//! mark. Replacing secrets by marks leaves no secret that is made of own characters, and a secret
//! that has nothing in common with the mark cannot be made of others.

use vstd::prelude::*;

use crate::security;
use crate::text;

verus! {

broadcast use crate::seqs::group_seqs;

/// Whether `s`, put `d` characters after the start of `m`, overlaps it and agrees with it there.
pub open spec fn agrees(s: Seq<char>, m: Seq<char>, d: int) -> bool {
    &&& -s.len() < d < m.len()
    &&& forall|k: int| 0 <= k < s.len() && 0 <= d + k < m.len() ==> #[trigger] s[k] == m[d + k]
}

/// Whether `s` and `m` can overlap in a text.
pub open spec fn meets(s: Seq<char>, m: Seq<char>) -> bool {
    exists|d: int| agrees(s, m, d)
}

/// Whether the `n` characters from `p` on are the text's own.
spec fn plain(own: Seq<bool>, p: int, n: int) -> bool {
    forall|k: int| p <= k < p + n ==> #[trigger] own[k]
}

/// Whether a mark stands at `q` and covers the place `i`.
spec fn covers(t: Seq<char>, own: Seq<bool>, m: Seq<char>, q: int, i: int) -> bool {
    &&& q <= i < q + m.len()
    &&& text::matches_at(t, m, q)
    &&& forall|k: int| q <= k < q + m.len() ==> !#[trigger] own[k]
}

/// Whether every character that is not the text's own belongs to a whole mark.
spec fn marked(t: Seq<char>, own: Seq<bool>, m: Seq<char>) -> bool {
    &&& own.len() == t.len()
    &&& forall|i: int|
        0 <= i < t.len() && !#[trigger] own[i] ==> exists|q: int| covers(t, own, m, q, i)
}

/// Whether `u` is nowhere made of the text's own characters.
spec fn clean(t: Seq<char>, own: Seq<bool>, u: Seq<char>) -> bool {
    forall|p: int| #[trigger] text::matches_at(t, u, p) ==> !plain(own, p, u.len() as int)
}

/// What has nothing in common with the mark is made of the text's own characters.
proof fn lemma_plain(t: Seq<char>, own: Seq<bool>, m: Seq<char>, s: Seq<char>, p: int)
    requires
        marked(t, own, m),
        !meets(s, m),
        text::matches_at(t, s, p),
    ensures
        plain(own, p, s.len() as int),
{
    assert forall|k: int| p <= k < p + s.len() implies #[trigger] own[k] by {
        if !own[k] {
            let q = choose|q: int| covers(t, own, m, q, k);
            let d = p - q;
            assert forall|x: int| 0 <= x < s.len() && 0 <= d + x < m.len() implies #[trigger] s[x]
                == m[d + x] by {
                assert(t.subrange(p, p + s.len())[x] == t[p + x]);
                assert(t.subrange(q, q + m.len())[d + x] == t[p + x]);
            }
            assert(agrees(s, m, d));
        }
    }
}

/// Both sides of own characters that are cut out stay as they are.
proof fn lemma_cut_marked(t: Seq<char>, own: Seq<bool>, m: Seq<char>, i: int, j: int)
    requires
        marked(t, own, m),
        0 <= i < j <= t.len(),
        plain(own, i, j - i),
    ensures
        marked(t.subrange(0, i), own.subrange(0, i), m),
        marked(t.subrange(j, t.len() as int), own.subrange(j, t.len() as int), m),
{
    let a = t.subrange(0, i);
    let oa = own.subrange(0, i);
    assert forall|x: int| 0 <= x < a.len() && !#[trigger] oa[x] implies exists|q: int|
        covers(a, oa, m, q, x) by {
        assert(!own[x]);
        let q = choose|q: int| covers(t, own, m, q, x);
        if q + m.len() > i {
            assert(own[i]);
        }
        assert(a.subrange(q, q + m.len()) =~= t.subrange(q, q + m.len()));
        assert(covers(a, oa, m, q, x));
    }
    let b = t.subrange(j, t.len() as int);
    let ob = own.subrange(j, t.len() as int);
    assert forall|x: int| 0 <= x < b.len() && !#[trigger] ob[x] implies exists|q: int|
        covers(b, ob, m, q, x) by {
        let at = x + j;
        assert(!own[at]);
        let q = choose|q: int| covers(t, own, m, q, at);
        if q < j {
            assert(own[j - 1]);
        }
        assert(b.subrange(q - j, q - j + m.len()) =~= t.subrange(q, q + m.len()));
        assert(covers(b, ob, m, q - j, x));
    }
}

/// What is clean is clean on both sides of a cut.
proof fn lemma_cut_clean(t: Seq<char>, own: Seq<bool>, u: Seq<char>, i: int, j: int)
    requires
        own.len() == t.len(),
        clean(t, own, u),
        0 <= i <= j <= t.len(),
    ensures
        clean(t.subrange(0, i), own.subrange(0, i), u),
        clean(t.subrange(j, t.len() as int), own.subrange(j, t.len() as int), u),
{
    let a = t.subrange(0, i);
    let oa = own.subrange(0, i);
    assert forall|p: int| #[trigger] text::matches_at(a, u, p) implies !plain(
        oa,
        p,
        u.len() as int,
    ) by {
        assert(a.subrange(p, p + u.len()) =~= t.subrange(p, p + u.len()));
        assert(text::matches_at(t, u, p));
        let k = choose|k: int| p <= k < p + u.len() && !#[trigger] own[k];
        assert(!oa[k]);
    }
    let b = t.subrange(j, t.len() as int);
    let ob = own.subrange(j, t.len() as int);
    assert forall|p: int| #[trigger] text::matches_at(b, u, p) implies !plain(
        ob,
        p,
        u.len() as int,
    ) by {
        assert(b.subrange(p, p + u.len()) =~= t.subrange(p + j, p + j + u.len()));
        assert(text::matches_at(t, u, p + j));
        let k = choose|k: int| p + j <= k < p + j + u.len() && !#[trigger] own[k];
        assert(!ob[k - j]);
    }
}

/// Characters of a mark.
spec fn foreign(m: Seq<char>) -> Seq<bool> {
    Seq::new(m.len(), |k: int| false)
}

/// Two texts with a mark between them.
proof fn lemma_joined_marked(
    a: Seq<char>,
    oa: Seq<bool>,
    b: Seq<char>,
    ob: Seq<bool>,
    m: Seq<char>,
)
    requires
        marked(a, oa, m),
        marked(b, ob, m),
    ensures
        marked(a + m + b, oa + foreign(m) + ob, m),
{
    let t = a + m + b;
    let own = oa + foreign(m) + ob;
    let n = a.len() + m.len();
    assert forall|x: int| 0 <= x < t.len() && !#[trigger] own[x] implies exists|q: int|
        covers(t, own, m, q, x) by {
        if x < a.len() {
            assert(!oa[x]);
            let q = choose|q: int| covers(a, oa, m, q, x);
            assert(t.subrange(q, q + m.len()) =~= a.subrange(q, q + m.len()));
            assert(covers(t, own, m, q, x));
        } else if x < n {
            let q = a.len() as int;
            assert(t.subrange(q, q + m.len()) =~= m);
            assert(covers(t, own, m, q, x));
        } else {
            let at = x - n;
            assert(!ob[at]);
            let q = choose|q: int| covers(b, ob, m, q, at);
            assert(t.subrange(q + n, q + n + m.len()) =~= b.subrange(q, q + m.len()));
            assert forall|k: int| q + n <= k < q + n + m.len() implies !#[trigger] own[k] by {
                assert(!ob[k - n]);
            }
            assert(covers(t, own, m, q + n, x));
        }
    }
}

/// A mark between two clean texts makes nothing of own characters.
proof fn lemma_joined_clean(
    a: Seq<char>,
    oa: Seq<bool>,
    b: Seq<char>,
    ob: Seq<bool>,
    m: Seq<char>,
    u: Seq<char>,
)
    requires
        oa.len() == a.len(),
        ob.len() == b.len(),
        m.len() > 0,
        u.len() > 0,
        clean(a, oa, u),
        clean(b, ob, u),
    ensures
        clean(a + m + b, oa + foreign(m) + ob, u),
{
    let t = a + m + b;
    let own = oa + foreign(m) + ob;
    let n = a.len() + m.len();
    assert forall|p: int| #[trigger] text::matches_at(t, u, p) implies !plain(
        own,
        p,
        u.len() as int,
    ) by {
        if p + u.len() <= a.len() {
            assert(a.subrange(p, p + u.len()) =~= t.subrange(p, p + u.len()));
            assert(text::matches_at(a, u, p));
            let k = choose|k: int| p <= k < p + u.len() && !#[trigger] oa[k];
            assert(!own[k]);
        } else if p >= n {
            assert(b.subrange(p - n, p - n + u.len()) =~= t.subrange(p, p + u.len()));
            assert(text::matches_at(b, u, p - n));
            let k = choose|k: int| p - n <= k < p - n + u.len() && !#[trigger] ob[k];
            assert(!own[k + n]);
        } else if p < a.len() {
            assert(!own[a.len() as int]);
        } else {
            assert(!own[p]);
        }
    }
}

/// For each character of a text with marks in place of `s`, whether it is the text's own.
spec fn traced(t: Seq<char>, own: Seq<bool>, s: Seq<char>, m: Seq<char>) -> Seq<bool>
    decreases t.len(),
{
    match text::first_match(t, s, 0) {
        Some(i) => if s.len() > 0 && 0 <= i && i + s.len() <= t.len() {
            own.subrange(0, i) + foreign(m) + traced(
                t.subrange(i + s.len(), t.len() as int),
                own.subrange(i + s.len(), t.len() as int),
                s,
                m,
            )
        } else {
            own
        },
        None => own,
    }
}

/// Putting marks in place of a secret keeps the marks whole and leaves the secret nowhere.
proof fn lemma_replaced(t: Seq<char>, own: Seq<bool>, s: Seq<char>, m: Seq<char>)
    requires
        marked(t, own, m),
        s.len() > 0,
        m.len() > 0,
        !meets(s, m),
    ensures
        marked(text::replaced(t, s, m), traced(t, own, s, m), m),
        clean(text::replaced(t, s, m), traced(t, own, s, m), s),
    decreases t.len(),
{
    text::lemma_first_match(t, s, 0);
    if let Some(i) = text::first_match(t, s, 0) {
        let j = i + s.len();
        let a = t.subrange(0, i);
        let oa = own.subrange(0, i);
        let rest = t.subrange(j, t.len() as int);
        let own_rest = own.subrange(j, t.len() as int);
        lemma_plain(t, own, m, s, i);
        lemma_cut_marked(t, own, m, i, j);
        lemma_replaced(rest, own_rest, s, m);
        let b = text::replaced(rest, s, m);
        let ob = traced(rest, own_rest, s, m);
        assert forall|p: int| #[trigger] text::matches_at(a, s, p) implies !plain(
            oa,
            p,
            s.len() as int,
        ) by {
            assert(a.subrange(p, p + s.len()) =~= t.subrange(p, p + s.len()));
            assert(text::matches_at(t, s, p));
        }
        lemma_joined_marked(a, oa, b, ob, m);
        lemma_joined_clean(a, oa, b, ob, m, s);
    } else {
        assert(forall|p: int| 0 <= p ==> !text::matches_at(t, s, p));
    }
}

/// Putting marks in place of a secret makes nothing else of own characters.
proof fn lemma_stays_clean(t: Seq<char>, own: Seq<bool>, s: Seq<char>, m: Seq<char>, u: Seq<char>)
    requires
        own.len() == t.len(),
        m.len() > 0,
        u.len() > 0,
        clean(t, own, u),
    ensures
        traced(t, own, s, m).len() == text::replaced(t, s, m).len(),
        clean(text::replaced(t, s, m), traced(t, own, s, m), u),
    decreases t.len(),
{
    text::lemma_first_match(t, s, 0);
    if let Some(i) = text::first_match(t, s, 0) {
        if s.len() > 0 {
            let j = i + s.len();
            let rest = t.subrange(j, t.len() as int);
            let own_rest = own.subrange(j, t.len() as int);
            lemma_cut_clean(t, own, u, i, j);
            lemma_stays_clean(rest, own_rest, s, m, u);
            lemma_joined_clean(
                t.subrange(0, i),
                own.subrange(0, i),
                text::replaced(rest, s, m),
                traced(rest, own_rest, s, m),
                m,
                u,
            );
        }
    }
}

/// For each character of a redacted text, whether it is the text's own.
spec fn traced_all(t: Seq<char>, secrets: Seq<Seq<char>>) -> Seq<bool>
    decreases secrets.len(),
{
    if secrets.len() == 0 {
        Seq::new(t.len(), |k: int| true)
    } else {
        traced(
            security::redacted(t, secrets.drop_last()),
            traced_all(t, secrets.drop_last()),
            secrets.last(),
            "[REDACTED]"@,
        )
    }
}

/// No secret is anywhere in a redacted text.
proof fn lemma_redacted(t: Seq<char>, secrets: Seq<Seq<char>>)
    requires
        forall|i: int|
            0 <= i < secrets.len() ==> (#[trigger] secrets[i]).len() > 0 && !meets(
                secrets[i],
                "[REDACTED]"@,
            ),
    ensures
        marked(security::redacted(t, secrets), traced_all(t, secrets), "[REDACTED]"@),
        forall|i: int|
            0 <= i < secrets.len() ==> clean(
                security::redacted(t, secrets),
                traced_all(t, secrets),
                #[trigger] secrets[i],
            ),
    decreases secrets.len(),
{
    reveal_strlit("[REDACTED]");
    if secrets.len() > 0 {
        let front = secrets.drop_last();
        let s = secrets.last();
        assert forall|i: int| 0 <= i < front.len() implies (#[trigger] front[i]).len() > 0 && !meets(
            front[i],
            "[REDACTED]"@,
        ) by {
            assert(front[i] == secrets[i]);
        }
        lemma_redacted(t, front);
        let before = security::redacted(t, front);
        let own = traced_all(t, front);
        assert(secrets[secrets.len() - 1] == s);
        lemma_replaced(before, own, s, "[REDACTED]"@);
        assert forall|i: int| 0 <= i < secrets.len() implies clean(
            security::redacted(t, secrets),
            traced_all(t, secrets),
            #[trigger] secrets[i],
        ) by {
            if i < front.len() {
                assert(front[i] == secrets[i]);
                lemma_stays_clean(before, own, s, "[REDACTED]"@, secrets[i]);
            }
        }
    }
}

/// A redacted text holds none of its secrets. Left out are secrets that can overlap the mark that
/// is put in their place: such a one can come about anew from the mark and the text beside it.
pub proof fn law_redacted_holds_no_secret(t: Seq<char>, values: Seq<Seq<char>>, x: Seq<char>)
    requires
        values.contains(x),
        x.len() > 0,
        forall|i: int|
            0 <= i < values.len() && (#[trigger] values[i]).len() > 0 ==> !meets(
                values[i],
                "[REDACTED]"@,
            ),
    ensures
        !text::holds(security::redacted(t, security::secrets_of(values)), x),
{
    let secrets = security::secrets_of(values);
    assert forall|i: int| 0 <= i < secrets.len() implies (#[trigger] secrets[i]).len() > 0 && !meets(
        secrets[i],
        "[REDACTED]"@,
    ) by {
        security::law_secrets(values, secrets[i]);
        assert(secrets.contains(secrets[i]));
        let j = choose|j: int| 0 <= j < values.len() && values[j] == secrets[i];
        assert(values[j].len() > 0);
    }
    lemma_redacted(t, secrets);
    security::law_secrets(values, x);
    let i = choose|i: int| 0 <= i < secrets.len() && secrets[i] == x;
    let own = traced_all(t, secrets);
    let r = security::redacted(t, secrets);
    assert(clean(r, own, secrets[i]));
    assert forall|p: int| !text::matches_at(r, x, p) by {
        if text::matches_at(r, x, p) {
            lemma_plain(r, own, "[REDACTED]"@, x, p);
        }
    }
}

} // verus!
