//! Maps from strings, kept in the order of their keys.

use vstd::prelude::*;
use vstd::string::*;

use crate::text;

verus! {

/// A map from strings. Its entries stand in the order of their keys, each key once.
#[derive(Debug)]
pub struct StringMap<V> {
    pub(crate) entries: Vec<(String, V)>,
}

impl<V> View for StringMap<V> {
    type V = Seq<(Seq<char>, V)>;

    closed spec fn view(&self) -> Seq<(Seq<char>, V)> {
        keyed(self.entries@)
    }
}

/// The entries with the views of their keys.
pub open spec fn keyed<V>(entries: Seq<(String, V)>) -> Seq<(Seq<char>, V)> {
    Seq::new(entries.len(), |i: int| (entries[i].0@, entries[i].1))
}

/// A map shows its entries.
pub(crate) proof fn lemma_map_view<V>(m: StringMap<V>)
    ensures
        m@ == keyed(m.entries@),
{
}

/// Whether the keys stand in order, each once.
pub open spec fn ordered<V>(s: Seq<(Seq<char>, V)>) -> bool {
    forall|i: int, j: int|
        0 <= i < j < s.len() ==> text::before(#[trigger] s[i].0, #[trigger] s[j].0)
}

/// Whether `s` has an entry for `k`.
pub open spec fn has_key<V>(s: Seq<(Seq<char>, V)>, k: Seq<char>) -> bool {
    exists|i: int| 0 <= i < s.len() && #[trigger] s[i].0 == k
}

/// Where the entry for `k` stands.
pub open spec fn key_index<V>(s: Seq<(Seq<char>, V)>, k: Seq<char>) -> int {
    choose|i: int| 0 <= i < s.len() && #[trigger] s[i].0 == k
}

/// What `s` holds for `k`.
pub open spec fn lookup<V>(s: Seq<(Seq<char>, V)>, k: Seq<char>) -> Option<V> {
    if has_key(s, k) {
        Some(s[key_index(s, k)].1)
    } else {
        None
    }
}

/// How many entries stand before the place of `k`.
pub open spec fn rank<V>(s: Seq<(Seq<char>, V)>, k: Seq<char>) -> int
    decreases s.len(),
{
    if s.len() == 0 || !text::before(s[0].0, k) {
        0
    } else {
        1 + rank(s.drop_first(), k)
    }
}

/// `s` with `v` for `k`: in place of what it held for `k`, or at the place of `k`.
pub open spec fn inserted<V>(s: Seq<(Seq<char>, V)>, k: Seq<char>, v: V) -> Seq<(Seq<char>, V)> {
    if has_key(s, k) {
        s.update(key_index(s, k), (k, v))
    } else {
        s.insert(rank(s, k), (k, v))
    }
}

/// In an ordered map a key stands at one place only.
pub proof fn lemma_key_index<V>(s: Seq<(Seq<char>, V)>, i: int)
    requires
        ordered(s),
        0 <= i < s.len(),
    ensures
        has_key(s, s[i].0),
        key_index(s, s[i].0) == i,
        lookup(s, s[i].0) == Some(s[i].1),
{
    let k = s[i].0;
    let j = key_index(s, k);
    if i < j {
        text::lemma_before_irreflexive(k);
        assert(text::before(s[i].0, s[j].0));
    }
    if j < i {
        text::lemma_before_irreflexive(k);
        assert(text::before(s[j].0, s[i].0));
    }
}

/// The rank splits the entries into those before `k` and the rest.
pub proof fn lemma_rank<V>(s: Seq<(Seq<char>, V)>, k: Seq<char>)
    requires
        ordered(s),
    ensures
        0 <= rank(s, k) <= s.len(),
        forall|i: int| 0 <= i < rank(s, k) ==> text::before(#[trigger] s[i].0, k),
        forall|i: int| rank(s, k) <= i < s.len() ==> !text::before(#[trigger] s[i].0, k),
    decreases s.len(),
{
    if s.len() > 0 {
        if text::before(s[0].0, k) {
            let t = s.drop_first();
            lemma_rank(t, k);
            assert forall|i: int| 0 <= i < rank(s, k) implies text::before(
                #[trigger] s[i].0,
                k,
            ) by {
                if i > 0 {
                    assert(s[i] == t[i - 1]);
                }
            }
            assert forall|i: int| rank(s, k) <= i < s.len() implies !text::before(
                #[trigger] s[i].0,
                k,
            ) by {
                assert(s[i] == t[i - 1]);
            }
        } else {
            assert forall|i: int| 0 <= i < s.len() implies !text::before(
                #[trigger] s[i].0,
                k,
            ) by {
                if i > 0 && text::before(s[i].0, k) {
                    text::lemma_before_transitive(s[0].0, s[i].0, k);
                }
            }
        }
    }
}

/// An insertion keeps the keys in order.
pub proof fn lemma_inserted_ordered<V>(s: Seq<(Seq<char>, V)>, k: Seq<char>, v: V)
    requires
        ordered(s),
    ensures
        ordered(inserted(s, k, v)),
{
    lemma_rank(s, k);
    let t = inserted(s, k, v);
    if has_key(s, k) {
        let at = key_index(s, k);
        assert forall|i: int, j: int| 0 <= i < j < t.len() implies text::before(
            #[trigger] t[i].0,
            #[trigger] t[j].0,
        ) by {
            assert(t[i].0 == s[i].0 && t[j].0 == s[j].0);
        }
    } else {
        let r = rank(s, k);
        assert forall|i: int, j: int| 0 <= i < j < t.len() implies text::before(
            #[trigger] t[i].0,
            #[trigger] t[j].0,
        ) by {
            if i == r {
                assert(t[j] == s[j - 1]);
                text::lemma_before_total(s[j - 1].0, k);
                assert(s[j - 1].0 != k);
            } else if j == r {
                assert(t[i] == s[i]);
            } else {
                let a = if i < r { i } else { i - 1 };
                let b = if j < r { j } else { j - 1 };
                assert(t[i] == s[a] && t[j] == s[b]);
            }
        }
    }
}

/// What a map holds after an insertion: the new value for its key, and for every other key what
/// it held before.
pub proof fn lemma_inserted_lookup<V>(s: Seq<(Seq<char>, V)>, k: Seq<char>, v: V, other: Seq<char>)
    requires
        ordered(s),
    ensures
        lookup(inserted(s, k, v), k) == Some(v),
        other != k ==> lookup(inserted(s, k, v), other) == lookup(s, other),
{
    lemma_rank(s, k);
    lemma_inserted_ordered(s, k, v);
    let t = inserted(s, k, v);
    let at = if has_key(s, k) { key_index(s, k) } else { rank(s, k) };
    assert(t[at] == (k, v));
    lemma_key_index(t, at);
    if other != k {
        if has_key(s, other) {
            let i = key_index(s, other);
            let j = if has_key(s, k) || i < at { i } else { i + 1 };
            assert(t[j] == s[i]);
            lemma_key_index(t, j);
        } else if has_key(t, other) {
            let j = key_index(t, other);
            let i = if has_key(s, k) || j < at { j } else { j - 1 };
            assert(t[j] == s[i]);
        }
    }
}

/// Of an ordered map without its last entry, each key but the last one's keeps what it had.
proof fn lemma_front_lookup<V>(s: Seq<(Seq<char>, V)>, k: Seq<char>)
    requires
        ordered(s),
        s.len() > 0,
    ensures
        ordered(s.drop_last()),
        lookup(s.drop_last(), k) == (if k == s.last().0 {
            None
        } else {
            lookup(s, k)
        }),
{
    let t = s.drop_last();
    assert forall|i: int, j: int| 0 <= i < j < t.len() implies text::before(
        #[trigger] t[i].0,
        #[trigger] t[j].0,
    ) by {
        assert(t[i] == s[i] && t[j] == s[j]);
    }
    if has_key(t, k) {
        let i = key_index(t, k);
        assert(s[i] == t[i]);
        lemma_key_index(s, i);
        lemma_key_index(t, i);
        lemma_key_index(s, s.len() - 1);
    } else if has_key(s, k) {
        let i = key_index(s, k);
        if i < t.len() {
            assert(t[i].0 == k);
        }
    }
}

/// Ordered maps that hold the same for every key are the same.
pub proof fn lemma_same_map<V>(s: Seq<(Seq<char>, V)>, t: Seq<(Seq<char>, V)>)
    requires
        ordered(s),
        ordered(t),
        forall|k: Seq<char>| #[trigger] lookup(s, k) == lookup(t, k),
    ensures
        s == t,
    decreases s.len(),
{
    if t.len() > 0 {
        lemma_key_index(t, t.len() - 1);
        assert(lookup(s, t.last().0) == lookup(t, t.last().0));
    }
    if s.len() > 0 {
        lemma_key_index(s, s.len() - 1);
        assert(lookup(s, s.last().0) == lookup(t, s.last().0));
        let a = s.last().0;
        let b = t.last().0;
        let i = key_index(s, b);
        let j = key_index(t, a);
        if a != b {
            assert(text::before(s[i].0, s[s.len() - 1].0));
            assert(text::before(t[j].0, t[t.len() - 1].0));
            text::lemma_before_transitive(a, b, a);
            text::lemma_before_irreflexive(a);
        }
        assert(s.last() == t.last());
        assert forall|k: Seq<char>| #[trigger]
            lookup(s.drop_last(), k) == lookup(t.drop_last(), k) by {
            lemma_front_lookup(s, k);
            lemma_front_lookup(t, k);
            assert(lookup(s, k) == lookup(t, k));
        }
        lemma_front_lookup(s, a);
        lemma_front_lookup(t, a);
        lemma_same_map(s.drop_last(), t.drop_last());
        assert(s =~= s.drop_last().push(s.last()));
        assert(t =~= t.drop_last().push(t.last()));
    } else {
        assert(s =~= t);
    }
}

impl<V> StringMap<V> {
    #[verifier::type_invariant]
    pub(crate) closed spec fn in_order(self) -> bool {
        ordered(keyed(self.entries@))
    }

    /// A map without entries.
    pub fn new() -> (r: StringMap<V>)
        ensures
            r@ == Seq::<(Seq<char>, V)>::empty(),
    {
        let r = StringMap { entries: Vec::new() };
        assert(r@ =~= Seq::<(Seq<char>, V)>::empty());
        r
    }

    /// Keys stand in order, each once.
    pub(crate) fn check_order(&self)
        ensures
            ordered(self@),
    {
        proof {
            use_type_invariant(self);
        }
    }

    /// A map with the keys of `other` and new values for them.
    pub(crate) fn from_entries<W>(entries: Vec<(String, V)>, other: &StringMap<W>) -> (r:
        StringMap<V>)
        requires
            entries@.len() == other@.len(),
            forall|i: int| 0 <= i < entries@.len() ==> #[trigger] entries@[i].0@ == other@[i].0,
        ensures
            r@ == keyed(entries@),
    {
        proof {
            use_type_invariant(other);
            let s = keyed(entries@);
            assert forall|i: int, j: int| 0 <= i < j < s.len() implies text::before(
                #[trigger] s[i].0,
                #[trigger] s[j].0,
            ) by {
                assert(s[i].0 == entries@[i].0@ && s[j].0 == entries@[j].0@);
                assert(text::before(other@[i].0, other@[j].0));
            }
        }
        StringMap { entries }
    }

    /// A map with the given entries.
    pub(crate) fn from_ordered(entries: Vec<(String, V)>) -> (r: StringMap<V>)
        requires
            ordered(keyed(entries@)),
        ensures
            r@ == keyed(entries@),
    {
        StringMap { entries }
    }

    /// The number of entries.
    pub fn len(&self) -> (r: usize)
        ensures
            r == self@.len(),
    {
        self.entries.len()
    }

    /// The key of the entry at `i`.
    pub fn key(&self, i: usize) -> (r: &String)
        requires
            i < self@.len(),
        ensures
            r@ == self@[i as int].0,
    {
        &self.entries[i].0
    }

    /// The value of the entry at `i`.
    pub fn value(&self, i: usize) -> (r: &V)
        requires
            i < self@.len(),
        ensures
            *r == self@[i as int].1,
    {
        &self.entries[i].1
    }

    /// Where the entry for `k` stands.
    pub fn find(&self, k: &str) -> (r: Option<usize>)
        ensures
            match r {
                Some(i) => i < self@.len() && self@[i as int].0 == k@ && has_key(self@, k@)
                    && key_index(self@, k@) == i && lookup(self@, k@) == Some(self@[i as int].1),
                None => !has_key(self@, k@) && lookup(self@, k@) is None,
            },
    {
        proof {
            use_type_invariant(self);
        }
        let mut i: usize = 0;
        while i < self.entries.len()
            invariant
                i <= self.entries@.len(),
                ordered(self@),
                forall|j: int| 0 <= j < i ==> #[trigger] self@[j].0 != k@,
            decreases self.entries@.len() - i,
        {
            if text::same(&self.entries[i].0, k) {
                proof {
                    lemma_key_index(self@, i as int);
                }
                return Some(i);
            }
            i += 1;
        }
        None
    }

    /// What the map holds for `k`.
    pub fn get(&self, k: &str) -> (r: Option<&V>)
        ensures
            match r {
                Some(v) => lookup(self@, k@) == Some(*v),
                None => lookup(self@, k@) is None,
            },
    {
        match self.find(k) {
            Some(i) => Some(&self.entries[i].1),
            None => None,
        }
    }

    /// Whether the map has an entry for `k`.
    pub fn contains_key(&self, k: &str) -> (r: bool)
        ensures
            r == has_key(self@, k@),
    {
        self.find(k).is_some()
    }

    /// Puts `v` in for `k`.
    pub fn insert(&mut self, k: String, v: V)
        ensures
            final(self)@ == inserted(old(self)@, k@, v),
    {
        proof {
            use_type_invariant(&*self);
            lemma_rank(self@, k@);
            lemma_inserted_ordered(self@, k@, v);
        }
        let ghost before = self@;
        let found = self.find(&k);
        let mut entries: Vec<(String, V)> = Vec::new();
        std::mem::swap(&mut entries, &mut self.entries);
        match found {
            Some(i) => {
                entries.set(i, (k, v));
            },
            None => {
                let mut at: usize = 0;
                while at < entries.len() && text::comes_before(&entries[at].0, &k)
                    invariant
                        at <= entries@.len(),
                        keyed(entries@) == before,
                        0 <= rank(before, k@) <= before.len(),
                        forall|i: int|
                            rank(before, k@) <= i < before.len() ==> !text::before(
                                #[trigger] before[i].0,
                                k@,
                            ),
                        at <= rank(before, k@),
                    decreases entries@.len() - at,
                {
                    assert(before[at as int].0 == entries@[at as int].0@);
                    at += 1;
                }
                assert(at == rank(before, k@)) by {
                    if at < rank(before, k@) {
                        assert(before[at as int].0 == entries@[at as int].0@);
                    }
                }
                entries.insert(at, (k, v));
            },
        }
        assert(keyed(entries@) =~= inserted(before, k@, v));
        self.entries = entries;
    }
}

/// The entries with the deep views of their values.
pub open spec fn deep_entries<V: DeepView>(s: Seq<(Seq<char>, V)>) -> Seq<(Seq<char>, V::V)> {
    Seq::new(s.len(), |i: int| (s[i].0, s[i].1.deep_view()))
}

/// Keys stand among the views as in the map.
pub proof fn lemma_deep_entries<V: DeepView>(s: Seq<(Seq<char>, V)>, k: Seq<char>)
    requires
        ordered(s),
    ensures
        ordered(deep_entries(s)),
        has_key(deep_entries(s), k) == has_key(s, k),
        has_key(s, k) ==> key_index(deep_entries(s), k) == key_index(s, k),
        lookup(deep_entries(s), k) == (match lookup(s, k) {
            Some(v) => Some(v.deep_view()),
            None => None,
        }),
{
    let t = deep_entries(s);
    assert forall|i: int, j: int| 0 <= i < j < t.len() implies text::before(
        #[trigger] t[i].0,
        #[trigger] t[j].0,
    ) by {
        assert(t[i].0 == s[i].0 && t[j].0 == s[j].0);
    }
    if has_key(s, k) {
        let i = key_index(s, k);
        assert(t[i].0 == k);
        lemma_key_index(t, i);
    } else if has_key(t, k) {
        let i = key_index(t, k);
        assert(s[i].0 == k);
    }
}

/// Ranks are the same with the views.
proof fn lemma_deep_rank<V: DeepView>(s: Seq<(Seq<char>, V)>, k: Seq<char>)
    ensures
        rank(deep_entries(s), k) == rank(s, k),
    decreases s.len(),
{
    if s.len() > 0 {
        assert(deep_entries(s).drop_first() =~= deep_entries(s.drop_first()));
        lemma_deep_rank(s.drop_first(), k);
    }
}

impl<V: DeepView> StringMap<V> {
    /// The entries with the deep views of their values.
    pub open spec fn deep(&self) -> Seq<(Seq<char>, V::V)> {
        deep_entries(self@)
    }

    /// What the map holds for `k`.
    pub fn get_deep(&self, k: &str) -> (r: Option<&V>)
        ensures
            match r {
                Some(v) => lookup(self.deep(), k@) == Some(v.deep_view()),
                None => lookup(self.deep(), k@) is None,
            },
            has_key(self.deep(), k@) == r is Some,
            has_key(self@, k@) == r is Some,
            r is Some ==> lookup(self@, k@) == Some(*r->0),
    {
        proof {
            use_type_invariant(self);
            lemma_deep_entries(self@, k@);
        }
        self.get(k)
    }

    /// Puts `v` in for `k`.
    pub fn insert_deep(&mut self, k: String, v: V)
        ensures
            final(self).deep() == inserted(old(self).deep(), k@, v.deep_view()),
    {
        proof {
            use_type_invariant(&*self);
            lemma_deep_entries(self@, k@);
            lemma_deep_rank(self@, k@);
            lemma_rank(self@, k@);
            assert(deep_entries(inserted(self@, k@, v)) =~= inserted(
                deep_entries(self@),
                k@,
                v.deep_view(),
            ));
        }
        self.insert(k, v);
    }
}

impl StringMap<String> {
    /// The entries with the views of their values.
    pub open spec fn strings(&self) -> Seq<(Seq<char>, Seq<char>)> {
        self.deep()
    }

    /// What the map holds for `k`.
    pub fn get_text(&self, k: &str) -> (r: Option<&String>)
        ensures
            r.deep_view() == lookup(self.strings(), k@),
            has_key(self.strings(), k@) == r is Some,
    {
        self.get_deep(k)
    }

    /// Puts `v` in for `k`.
    pub fn insert_text(&mut self, k: String, v: String)
        ensures
            final(self).strings() == inserted(old(self).strings(), k@, v@),
    {
        self.insert_deep(k, v);
    }

    /// A map of strings without entries.
    pub fn empty_text() -> (r: StringMap<String>)
        ensures
            r.strings() == Seq::<(Seq<char>, Seq<char>)>::empty(),
    {
        let r = StringMap::new();
        assert(r.strings() =~= Seq::<(Seq<char>, Seq<char>)>::empty());
        r
    }

    /// A copy of the map.
    pub fn copy_text(&self) -> (r: StringMap<String>)
        ensures
            r.strings() == self.strings(),
    {
        proof {
            lemma_map_view(*self);
        }
        let mut entries: Vec<(String, String)> = Vec::new();
        let mut i: usize = 0;
        while i < self.entries.len()
            invariant
                i <= self.entries@.len(),
                self@ == keyed(self.entries@),
                entries@.len() == i,
                forall|j: int|
                    0 <= j < i ==> (#[trigger] entries@[j]).0@ == self@[j].0 && entries@[j].1@
                        == self@[j].1@,
            decreases self.entries@.len() - i,
        {
            entries.push((self.entries[i].0.clone(), self.entries[i].1.clone()));
            i += 1;
        }
        let r = StringMap::from_entries(entries, self);
        assert(r.strings() =~= self.strings());
        r
    }
}

} // verus!
