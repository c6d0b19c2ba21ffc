//! Identifiers derived from labels, and identifiers that are not taken yet.

use vstd::prelude::*;
use vstd::string::*;

use crate::text;

verus! {

/// The 64-bit FNV-1a hash of `bytes`.
pub open spec fn fnv(bytes: Seq<u8>) -> u64
    decreases bytes.len(),
{
    if bytes.len() == 0 {
        0xcbf29ce484222325
    } else {
        (fnv(bytes.drop_last()) ^ (bytes.last() as u64)).wrapping_mul(0x100000001b3)
    }
}

/// The hash of a text in sixteen hexadecimal digits.
pub open spec fn hex_hash(s: Seq<char>) -> Seq<char> {
    text::hex(fnv(vstd::utf8::encode_utf8(s)) as nat, 16)
}

/// The hash of `input` in sixteen hexadecimal digits, the same in every run.
pub fn stable_hex_hash(input: &str) -> (r: String)
    ensures
        r@ == hex_hash(input@),
{
    let bytes = input.as_bytes();
    let mut hash: u64 = 0xcbf29ce484222325;
    let mut i: usize = 0;
    while i < bytes.len()
        invariant
            i <= bytes@.len(),
            hash == fnv(bytes@.take(i as int)),
        decreases bytes@.len() - i,
    {
        proof {
            assert(bytes@.take(i + 1).drop_last() == bytes@.take(i as int));
        }
        hash = (hash ^ (bytes[i] as u64)).wrapping_mul(0x100000001b3);
        i += 1;
    }
    assert(bytes@.take(bytes@.len() as int) == bytes@);
    text::to_hex(hash, 16)
}

/// The ASCII letters and digits of `s` in lower case, with one underscore for each gap between
/// them and for one after them.
pub open spec fn slug(s: Seq<char>) -> Seq<char>
    decreases s.len(),
{
    if s.len() == 0 {
        Seq::empty()
    } else {
        let before = slug(s.drop_last());
        let c = s.last();
        if text::is_alnum(c) {
            before.push(text::lower(c))
        } else if before.len() > 0 && before.last() != '_' {
            before.push('_')
        } else {
            before
        }
    }
}

/// The identifier for a label: its slug, or the fallback and a hash where no letter or digit is
/// in it.
pub open spec fn label_id(value: Seq<char>, fallback: Seq<char>) -> Seq<char> {
    let id = text::without_trailing(slug(value), seq!['_']);
    if id.len() == 0 {
        fallback + "_"@ + hex_hash(value).subrange(0, 8)
    } else {
        id
    }
}

/// The identifier for a label.
pub fn stable_id(value: &str, fallback: &str) -> (r: String)
    ensures
        r@ == label_id(value@, fallback@),
{
    let chars = text::chars_of(value);
    let mut id = String::new();
    let mut previous_separator: bool = false;
    let mut i: usize = 0;
    assert(slug(value@.take(0)) =~= id@);
    while i < chars.len()
        invariant
            i <= chars.len(),
            chars@ == value@,
            id@ == slug(value@.take(i as int)),
            previous_separator ==> id@.len() > 0,
            id@.len() > 0 ==> previous_separator == (id@.last() == '_'),
        decreases chars.len() - i,
    {
        let c = chars[i];
        proof {
            assert(value@.take(i + 1).drop_last() == value@.take(i as int));
        }
        if text::is_ascii_alphanumeric(c) {
            id.push(text::to_lower(c));
            previous_separator = false;
        } else if !previous_separator && id.as_str().unicode_len() > 0 {
            id.push('_');
            previous_separator = true;
        }
        i += 1;
    }
    assert(value@.take(value@.len() as int) == value@);
    let set = ['_'];
    assert(set@ == seq!['_']);
    let kept = text::trim_end_chars(&id, &set);
    if kept.unicode_len() == 0 {
        let hash = stable_hex_hash(value);
        proof {
            lemma_hex_len(fnv(vstd::utf8::encode_utf8(value@)) as nat, 16);
        }
        fallback.to_owned().concat("_").concat(hash.as_str().substring_char(0, 8))
    } else {
        kept.to_owned()
    }
}

/// A number of `width` hexadecimal digits has that many.
pub proof fn lemma_hex_len(n: nat, width: nat)
    ensures
        text::hex(n, width).len() == width,
    decreases width,
{
    if width > 0 {
        lemma_hex_len(n / 16, (width - 1) as nat);
    }
}

/// An identifier is never empty, whatever the label.
pub proof fn law_label_id_nonempty(value: Seq<char>, fallback: Seq<char>)
    ensures
        label_id(value, fallback).len() > 0,
{
    lemma_hex_len(fnv(vstd::utf8::encode_utf8(value)) as nat, 16);
    assert(hex_hash(value).subrange(0, 8).len() == 8);
}

/// The `n`th candidate for an identifier: the base itself, then the base with `_2`, `_3` and so
/// on behind it.
pub open spec fn candidate(base: Seq<char>, n: nat) -> Seq<char> {
    if n <= 1 {
        base
    } else {
        base + "_"@ + text::decimal(n)
    }
}

/// The number of the first candidate from the `n`th on that is not among `used`.
pub open spec fn free_number(used: Seq<Option<Seq<char>>>, base: Seq<char>, n: nat) -> nat
    decreases used.len() + 2 - n,
{
    if n > used.len() + 1 || !used.contains(Some(candidate(base, n))) {
        n
    } else {
        free_number(used, base, n + 1)
    }
}

/// The first candidate that is not among `used`.
pub open spec fn fresh_id(used: Seq<Option<Seq<char>>>, base: Seq<char>) -> Seq<char> {
    candidate(base, free_number(used, base, 1))
}

/// Decimal notation denotes the number it was made of.
pub proof fn lemma_decimal(n: nat)
    ensures
        text::decimal(n).len() >= 1,
        text::all_digits(text::decimal(n)),
        text::number(text::decimal(n)) == n,
    decreases n,
{
    let d = text::decimal(n);
    if n < 10 {
        assert(d.drop_last() =~= Seq::empty());
        assert(text::number(d.drop_last()) == 0);
    } else {
        lemma_decimal(n / 10);
        assert(d.drop_last() =~= text::decimal(n / 10));
        assert forall|i: int| 0 <= i < d.len() implies text::is_digit(#[trigger] d[i]) by {
            if i < d.len() - 1 {
                assert(d[i] == text::decimal(n / 10)[i]);
            }
        }
    }
}

/// Different numbers give different candidates.
pub proof fn lemma_candidates_differ(base: Seq<char>, m: nat, n: nat)
    requires
        1 <= m < n,
    ensures
        candidate(base, m) != candidate(base, n),
{
    reveal_strlit("_");
    lemma_decimal(n);
    if m == 1 {
        assert(candidate(base, n).len() > base.len());
    } else {
        lemma_decimal(m);
        let a = candidate(base, m);
        let b = candidate(base, n);
        if a == b {
            let k = base.len() + 1;
            assert(a.subrange(k as int, a.len() as int) =~= text::decimal(m));
            assert(b.subrange(k as int, b.len() as int) =~= text::decimal(n));
        }
    }
}

/// Among more candidates than there are identifiers in use, one is free.
proof fn lemma_one_is_free(used: Seq<Option<Seq<char>>>, base: Seq<char>)
    ensures
        exists|n: nat|
            1 <= n <= used.len() + 1 && !used.contains(Some(#[trigger] candidate(base, n))),
{
    if forall|n: nat|
        1 <= n <= used.len() + 1 ==> used.contains(Some(#[trigger] candidate(base, n))) {
        let all = Seq::new(used.len() + 1, |i: int| Some(candidate(base, (i + 1) as nat)));
        assert forall|i: int, j: int| 0 <= i < j < all.len() implies all[i] != all[j] by {
            lemma_candidates_differ(base, (i + 1) as nat, (j + 1) as nat);
        }
        assert(all.no_duplicates());
        all.unique_seq_to_set();
        used.lemma_cardinality_of_set();
        assert(all.to_set().subset_of(used.to_set())) by {
            assert forall|x: Option<Seq<char>>| all.to_set().contains(x) implies used.to_set().contains(
                x,
            ) by {
                let i = choose|i: int| 0 <= i < all.len() && all[i] == x;
                assert(used.contains(Some(candidate(base, (i + 1) as nat))));
            }
        }
        vstd::seq_lib::seq_to_set_is_finite(used);
        vstd::set_lib::lemma_len_subset(all.to_set(), used.to_set());
    }
}

/// The first free candidate is free, and every candidate before it is taken.
pub proof fn lemma_free_number(used: Seq<Option<Seq<char>>>, base: Seq<char>, n: nat)
    requires
        1 <= n <= used.len() + 2,
        forall|m: nat| 1 <= m < n ==> used.contains(Some(#[trigger] candidate(base, m))),
    ensures
        n <= free_number(used, base, n) <= used.len() + 1,
        !used.contains(Some(candidate(base, free_number(used, base, n)))),
    decreases used.len() + 2 - n,
{
    lemma_one_is_free(used, base);
    if n <= used.len() + 1 && used.contains(Some(candidate(base, n))) {
        lemma_free_number(used, base, n + 1);
    }
}

/// A fresh identifier is not in use.
pub proof fn law_fresh_id_is_free(used: Seq<Option<Seq<char>>>, base: Seq<char>)
    ensures
        !used.contains(Some(fresh_id(used, base))),
{
    lemma_free_number(used, base, 1);
}

/// Whether `id` is among `used`.
fn taken(used: &[Option<String>], id: &str) -> (r: bool)
    ensures
        r == used_ids(used@).contains(Some(id@)),
{
    let mut i: usize = 0;
    while i < used.len()
        invariant
            i <= used@.len(),
            forall|j: int| 0 <= j < i ==> #[trigger] used_ids(used@)[j] != Some(id@),
        decreases used@.len() - i,
    {
        assert(used_ids(used@)[i as int] == used@[i as int].deep_view());
        if let Some(other) = &used[i] {
            if text::same(other, id) {
                assert(used_ids(used@)[i as int] == Some(id@));
                return true;
            }
        }
        i += 1;
    }
    false
}

/// The views of identifiers in use.
pub open spec fn used_ids(used: Seq<Option<String>>) -> Seq<Option<Seq<char>>> {
    Seq::new(used.len(), |i: int| used[i].deep_view())
}

/// The first candidate for an identifier that is not in use.
pub fn free_id(used: &[Option<String>], base: &str) -> (r: String)
    ensures
        r@ == fresh_id(used_ids(used@), base@),
{
    let ghost ids = used_ids(used@);
    let mut id = base.to_owned();
    let mut suffix: u128 = 1;
    proof {
        lemma_free_number(ids, base@, 1);
    }
    while taken(used, &id)
        invariant
            ids == used_ids(used@),
            1 <= suffix <= free_number(ids, base@, 1) <= used.len() + 1,
            id@ == candidate(base@, suffix as nat),
            free_number(ids, base@, 1) == free_number(ids, base@, suffix as nat),
            !ids.contains(Some(candidate(base@, free_number(ids, base@, 1)))),
        decreases used.len() + 1 - suffix,
    {
        suffix += 1;
        id = base.to_owned().concat("_").concat(&text::to_decimal(suffix));
    }
    id
}

} // verus!
