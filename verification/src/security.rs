//! Keeping secrets out of what is printed.

use vstd::prelude::*;
use vstd::string::*;

use crate::envfile;
use crate::map::StringMap;
use crate::op;
use crate::op::ItemCreateTemplate;
use crate::pattern;
use crate::seqs;
use crate::text;

verus! {

broadcast use crate::seqs::group_seqs;

/// A secret. What is shown of it is a mark in its place.
#[derive(Clone)]
pub struct SecretValue {
    value: String,
}

impl View for SecretValue {
    type V = Seq<char>;

    closed spec fn view(&self) -> Seq<char> {
        self.value@
    }
}

impl SecretValue {
    /// A secret.
    pub fn new(value: String) -> (r: SecretValue)
        ensures
            r@ == value@,
    {
        SecretValue { value }
    }

    /// The secret itself.
    pub fn expose(&self) -> (r: &str)
        ensures
            r@ == self@,
    {
        self.value.as_str()
    }

    /// What is shown of a secret.
    pub fn to_string(&self) -> (r: String)
        ensures
            r@ == "[REDACTED]"@,
    {
        "[REDACTED]".to_owned()
    }
}

impl DeepView for SecretValue {
    type V = Seq<char>;

    open spec fn deep_view(&self) -> Seq<char> {
        self.view()
    }
}

impl StringMap<SecretValue> {
    /// A map without secrets.
    pub fn without_secrets() -> (r: StringMap<SecretValue>)
        ensures
            r.deep() == Seq::<(Seq<char>, Seq<char>)>::empty(),
    {
        let r: StringMap<SecretValue> = StringMap::new();
        assert(r.deep() =~= Seq::<(Seq<char>, Seq<char>)>::empty());
        r
    }

    /// Puts a secret under a key.
    pub fn insert_secret(&mut self, key: String, value: String)
        ensures
            final(self).deep() == crate::map::inserted(old(self).deep(), key@, value@),
    {
        self.insert_deep(key, SecretValue::new(value));
    }

    /// The secrets themselves.
    pub fn expose_all(&self) -> (r: StringMap<String>)
        ensures
            r.strings() == self.deep(),
    {
        let ghost all = self.deep();
        let mut entries: Vec<(String, String)> = Vec::new();
        let mut i: usize = 0;
        while i < self.len()
            invariant
                i <= self@.len(),
                entries@.len() == i,
                forall|k: int|
                    0 <= k < i ==> (#[trigger] entries@[k]).0@ == self@[k].0 && entries@[k].1@
                        == self@[k].1@,
            decreases self@.len() - i,
        {
            let value = self.value(i).expose().to_owned();
            entries.push((self.key(i).clone(), value));
            i += 1;
        }
        let r = StringMap::from_entries(entries, self);
        assert(r.strings() =~= all);
        r
    }
}

/// How many bytes a text takes.
pub open spec fn size(s: Seq<char>) -> nat {
    vstd::utf8::encode_utf8(s).len()
}

/// The place of something among others that are sorted from the largest: after all that are no
/// smaller.
pub open spec fn place_by<A>(s: Seq<A>, key: spec_fn(A) -> nat, one: A, from: int) -> int
    decreases s.len() - from,
{
    if from < 0 || from >= s.len() || key(s[from]) < key(one) {
        from
    } else {
        place_by(s, key, one, from + 1)
    }
}

/// From the largest to the smallest; what is as large as another stays in its order.
pub open spec fn largest_first<A>(s: Seq<A>, key: spec_fn(A) -> nat) -> Seq<A>
    decreases s.len(),
{
    if s.len() == 0 {
        s
    } else {
        let before = largest_first(s.drop_last(), key);
        before.insert(place_by(before, key, s.last(), 0), s.last())
    }
}

/// The place is one among the others.
proof fn lemma_place_by<A>(s: Seq<A>, key: spec_fn(A) -> nat, one: A, from: int)
    requires
        0 <= from <= s.len(),
    ensures
        from <= place_by(s, key, one, from) <= s.len(),
        forall|i: int| from <= i < place_by(s, key, one, from) ==> key(#[trigger] s[i]) >= key(one),
        place_by(s, key, one, from) < s.len() ==> key(s[place_by(s, key, one, from)]) < key(one),
    decreases s.len() - from,
{
    if from < s.len() && key(s[from]) >= key(one) {
        lemma_place_by(s, key, one, from + 1);
    }
}

/// What is sorted goes from the largest to the smallest, and it is what there was.
pub proof fn law_largest_first<A>(s: Seq<A>, key: spec_fn(A) -> nat)
    ensures
        forall|i: int, j: int|
            0 <= i < j < largest_first(s, key).len() ==> key(#[trigger] largest_first(s, key)[i])
                >= key(#[trigger] largest_first(s, key)[j]),
        largest_first(s, key).to_multiset() == s.to_multiset(),
    decreases s.len(),
{
    broadcast use vstd::seq_lib::group_to_multiset_ensures;

    if s.len() > 0 {
        let front = s.drop_last();
        let one = s.last();
        law_largest_first(front, key);
        let before = largest_first(front, key);
        let now = largest_first(s, key);
        let at = place_by(before, key, one, 0);
        lemma_place_by(before, key, one, 0);
        assert forall|i: int, j: int| 0 <= i < j < now.len() implies key(#[trigger] now[i]) >= key(
            #[trigger] now[j],
        ) by {
            let a = if i < at { i } else { i - 1 };
            let b = if j < at { j } else { j - 1 };
            if i == at {
                assert(now[j] == before[b]);
                if at < b {
                    assert(key(before[at]) >= key(before[b]));
                }
            } else if j == at {
                assert(now[i] == before[a]);
            } else {
                assert(now[i] == before[a] && now[j] == before[b]);
            }
        }
        assert(s =~= front.push(one));
        assert(before.insert(at, one).to_multiset() =~= before.to_multiset().insert(one));
        assert(front.push(one).to_multiset() =~= front.to_multiset().insert(one));
    }
}

/// The texts that are not empty.
pub open spec fn nonempty(s: Seq<Seq<char>>) -> Seq<Seq<char>>
    decreases s.len(),
{
    if s.len() == 0 {
        Seq::empty()
    } else {
        let before = nonempty(s.drop_last());
        if s.last().len() > 0 {
            before.push(s.last())
        } else {
            before
        }
    }
}

/// The size of a text.
pub open spec fn by_size() -> spec_fn(Seq<char>) -> nat {
    |s: Seq<char>| size(s)
}

/// The secrets to look for: each that is not empty, once, and the longest first.
pub open spec fn secrets_of(values: Seq<Seq<char>>) -> Seq<Seq<char>> {
    largest_first(seqs::deduped(nonempty(values)), by_size())
}

/// A text with a mark in place of every secret.
pub open spec fn redacted(s: Seq<char>, secrets: Seq<Seq<char>>) -> Seq<char>
    decreases secrets.len(),
{
    if secrets.len() == 0 {
        s
    } else {
        text::replaced(redacted(s, secrets.drop_last()), secrets.last(), "[REDACTED]"@)
    }
}

/// What is nowhere in a text is not replaced in it.
proof fn lemma_nothing_replaced(s: Seq<char>, p: Seq<char>, to: Seq<char>)
    requires
        !text::holds(s, p),
    ensures
        text::replaced(s, p, to) == s,
{
    text::lemma_first_match(s, p, 0);
    if let Some(i) = text::first_match(s, p, 0) {
        assert(text::matches_at(s, p, i));
    }
}

/// A text without secrets is left as it is.
pub proof fn law_clean_text_stays(s: Seq<char>, secrets: Seq<Seq<char>>)
    requires
        forall|i: int| 0 <= i < secrets.len() ==> !text::holds(s, #[trigger] secrets[i]),
    ensures
        redacted(s, secrets) == s,
    decreases secrets.len(),
{
    if secrets.len() > 0 {
        let front = secrets.drop_last();
        assert forall|i: int| 0 <= i < front.len() implies !text::holds(s, #[trigger] front[i]) by {
            assert(front[i] == secrets[i]);
        }
        law_clean_text_stays(s, front);
        assert(!text::holds(s, secrets[secrets.len() - 1]));
        lemma_nothing_replaced(s, secrets.last(), "[REDACTED]"@);
    }
}

/// The secrets to look for in what is printed.
pub struct Redactor {
    secrets: Vec<String>,
}

impl View for Redactor {
    type V = Seq<Seq<char>>;

    closed spec fn view(&self) -> Seq<Seq<char>> {
        seqs::texts(self.secrets@)
    }
}

/// The texts that are not empty.
fn keep_nonempty(values: &[String]) -> (r: Vec<String>)
    ensures
        seqs::texts(r@) == nonempty(seqs::texts(values@)),
{
    let ghost all = seqs::texts(values@);
    let mut r = seqs::no_texts();
    let mut i: usize = 0;
    while i < values.len()
        invariant
            i <= values@.len(),
            all == seqs::texts(values@),
            seqs::texts(r@) == nonempty(all.take(i as int)),
        decreases values@.len() - i,
    {
        proof {
            assert(all.take(i + 1).drop_last() == all.take(i as int));
            assert(all.take(i + 1).last() == values@[i as int]@);
        }
        if values[i].as_str().unicode_len() > 0 {
            seqs::push_text(&mut r, &values[i]);
        }
        i += 1;
    }
    r
}

/// From the longest to the shortest.
fn sort_longest_first(values: &[String]) -> (r: Vec<String>)
    ensures
        seqs::texts(r@) == largest_first(seqs::texts(values@), by_size()),
{
    let ghost all = seqs::texts(values@);
    let ghost key = by_size();
    let mut r = seqs::no_texts();
    let mut i: usize = 0;
    assert(all.take(0) =~= Seq::<Seq<char>>::empty());
    while i < values.len()
        invariant
            i <= values@.len(),
            all == seqs::texts(values@),
            key == by_size(),
            seqs::texts(r@) == largest_first(all.take(i as int), key),
        decreases values@.len() - i,
    {
        proof {
            assert(all.take(i + 1).drop_last() == all.take(i as int));
            assert(all.take(i + 1).last() == values@[i as int]@);
        }
        let one = &values[i];
        let ghost before = seqs::texts(r@);
        let length = one.as_str().as_bytes().len();
        let mut at: usize = 0;
        while at < r.len() && r[at].as_str().as_bytes().len() >= length
            invariant
                at <= r@.len(),
                before == seqs::texts(r@),
                key == by_size(),
                length == size(one@),
                place_by(before, key, one@, 0) == place_by(before, key, one@, at as int),
            decreases r@.len() - at,
        {
            assert(before[at as int] == r@[at as int]@);
            at += 1;
        }
        proof {
            if at < r@.len() {
                assert(before[at as int] == r@[at as int]@);
            }
        }
        r.insert(at, one.clone());
        assert(seqs::texts(r@) =~= before.insert(at as int, one@));
        i += 1;
    }
    r
}

impl Redactor {
    /// No secret that is looked for is empty.
    #[verifier::type_invariant]
    spec fn all_filled(self) -> bool {
        forall|i: int| 0 <= i < self.secrets@.len() ==> (#[trigger] self.secrets@[i])@.len() > 0
    }

    /// Looks for secrets.
    pub fn new(values: Vec<SecretValue>) -> (r: Redactor)
        ensures
            r@ == secrets_of(Seq::new(values@.len(), |i: int| values@[i]@)),
    {
        let ghost all = Seq::new(values@.len(), |i: int| values@[i]@);
        let mut own = seqs::no_texts();
        let mut i: usize = 0;
        while i < values.len()
            invariant
                i <= values@.len(),
                all == Seq::new(values@.len(), |i: int| values@[i]@),
                seqs::texts(own@) == all.take(i as int),
            decreases values@.len() - i,
        {
            assert(all.take(i + 1) =~= all.take(i as int).push(values@[i as int]@));
            seqs::push_text(&mut own, values[i].expose());
            i += 1;
        }
        Redactor::from_strings(&own)
    }

    /// Looks for texts.
    pub fn from_strings(values: &[String]) -> (r: Redactor)
        ensures
            r@ == secrets_of(seqs::texts(values@)),
    {
        let kept = keep_nonempty(values);
        let distinct = seqs::dedupe_preserve_order(&kept);
        let secrets = sort_longest_first(&distinct);
        proof {
            let all = secrets_of(seqs::texts(values@));
            lemma_secrets_nonempty(seqs::texts(values@));
            assert(seqs::texts(secrets@) == all);
            assert forall|i: int| 0 <= i < secrets@.len() implies (#[trigger] secrets@[i])@.len() > 0 by {
                assert(all[i] == secrets@[i]@);
                assert(all[i].len() > 0);
            }
        }
        Redactor { secrets }
    }

    /// A text with a mark in place of every secret.
    pub fn redact(&self, s: &str) -> (r: String)
        ensures
            r@ == redacted(s@, self@),
    {
        proof {
            use_type_invariant(self);
        }
        let ghost all = self@;
        let mut r = s.to_owned();
        let mut i: usize = 0;
        while i < self.secrets.len()
            invariant
                i <= self.secrets@.len(),
                all == self@,
                forall|i: int|
                    0 <= i < self.secrets@.len() ==> (#[trigger] self.secrets@[i])@.len() > 0,
                r@ == redacted(s@, all.take(i as int)),
            decreases self.secrets@.len() - i,
        {
            proof {
                assert(all.take(i + 1).drop_last() == all.take(i as int));
                assert(all.take(i + 1).last() == self.secrets@[i as int]@);
            }
            r = text::replace(&r, &self.secrets[i], "[REDACTED]");
            i += 1;
        }
        r
    }

    /// Output with a mark in place of every secret.
    pub fn redact_output(&self, bytes: &[u8]) -> (r: String)
        ensures
            r@ == redacted(text::lossy(bytes@), self@),
    {
        self.redact(&text::lossy_text(bytes))
    }

    /// What is shown of the secrets themselves: how many there are.
    pub fn to_string(&self) -> (r: String)
        ensures
            r@ == "Redactor { secret_count: "@ + text::decimal(self@.len()) + " }"@,
    {
        assert(self@.len() == self.secrets@.len());
        "Redactor { secret_count: ".to_owned().concat(
            &text::to_decimal(self.secrets.len() as u128),
        ).concat(" }")
    }
}

/// What is kept is not empty.
proof fn lemma_nonempty(s: Seq<Seq<char>>, x: Seq<char>)
    requires
        nonempty(s).contains(x),
    ensures
        x.len() > 0,
    decreases s.len(),
{
    if s.len() > 0 {
        let before = nonempty(s.drop_last());
        let i = choose|i: int| 0 <= i < nonempty(s).len() && nonempty(s)[i] == x;
        if i < before.len() {
            assert(before[i] == x);
            lemma_nonempty(s.drop_last(), x);
        }
    }
}

/// No secret that is looked for is empty.
proof fn lemma_secrets_nonempty(values: Seq<Seq<char>>)
    ensures
        forall|i: int| 0 <= i < secrets_of(values).len() ==> (#[trigger] secrets_of(values)[i]).len() > 0,
{
    broadcast use vstd::seq_lib::group_to_multiset_ensures;

    let kept = nonempty(values);
    let distinct = seqs::deduped(kept);
    let sorted = secrets_of(values);
    seqs::law_deduped(kept);
    law_largest_first(distinct, by_size());
    assert forall|i: int| 0 <= i < sorted.len() implies (#[trigger] sorted[i]).len() > 0 by {
        let x = sorted[i];
        assert(sorted.contains(x));
        assert(sorted.to_multiset().contains(x));
        assert(distinct.contains(x));
        assert(kept.contains(x));
        lemma_nonempty(values, x);
    }
}

/// The secrets that are looked for are those that were given and are not empty, each once, and no
/// one comes before a longer one.
pub proof fn law_secrets(values: Seq<Seq<char>>, x: Seq<char>)
    ensures
        secrets_of(values).contains(x) <==> values.contains(x) && x.len() > 0,
        secrets_of(values).no_duplicates(),
        forall|i: int, j: int|
            0 <= i < j < secrets_of(values).len() ==> size(#[trigger] secrets_of(values)[i]) >= size(
                #[trigger] secrets_of(values)[j],
            ),
{
    broadcast use vstd::seq_lib::group_to_multiset_ensures;

    let kept = nonempty(values);
    let distinct = seqs::deduped(kept);
    let sorted = secrets_of(values);
    seqs::law_deduped(kept);
    law_largest_first(distinct, by_size());
    lemma_kept(values, x);
    assert(sorted.contains(x) <==> sorted.to_multiset().contains(x));
    assert(distinct.contains(x) <==> distinct.to_multiset().contains(x));
    distinct.lemma_multiset_has_no_duplicates();
    sorted.lemma_multiset_has_no_duplicates_conv();
    assert forall|i: int, j: int| 0 <= i < j < sorted.len() implies size(#[trigger] sorted[i])
        >= size(#[trigger] sorted[j]) by {
        assert(by_size()(sorted[i]) >= by_size()(sorted[j]));
    }
}

/// What is not empty is kept, and nothing else.
proof fn lemma_kept(s: Seq<Seq<char>>, x: Seq<char>)
    ensures
        nonempty(s).contains(x) <==> s.contains(x) && x.len() > 0,
    decreases s.len(),
{
    if s.len() > 0 {
        let front = s.drop_last();
        let before = nonempty(front);
        let now = nonempty(s);
        lemma_kept(front, x);
        if now.contains(x) {
            lemma_nonempty(s, x);
            let i = choose|i: int| 0 <= i < now.len() && now[i] == x;
            if i < before.len() {
                assert(before[i] == x);
                assert(before.contains(x));
                let k = choose|k: int| 0 <= k < front.len() && front[k] == x;
                assert(s[k] == x);
            } else {
                assert(s[s.len() - 1] == x);
            }
        }
        if s.contains(x) && x.len() > 0 {
            let k = choose|k: int| 0 <= k < s.len() && s[k] == x;
            if k < front.len() {
                assert(front[k] == x);
                let i = choose|i: int| 0 <= i < before.len() && before[i] == x;
                assert(now[i] == x);
            } else {
                assert(now[before.len() as int] == x);
            }
        }
    }
}

/// The names and values of the fields of a new item: each field under its label and, where it
/// differs, under its identifier.
pub open spec fn template_secrets(fields: Seq<op::CreateFieldView>) -> Seq<(Seq<char>, Seq<char>)>
    decreases fields.len(),
{
    if fields.len() == 0 {
        Seq::empty()
    } else {
        let before = template_secrets(fields.drop_last());
        let field = fields.last();
        if field.value.len() == 0 {
            before
        } else if field.id == field.label {
            before.push((field.label, field.value))
        } else {
            before.push((field.label, field.value)).push((field.id, field.value))
        }
    }
}

/// The size of the value of a pair.
pub open spec fn by_value_size() -> spec_fn((Seq<char>, Seq<char>)) -> nat {
    |pair: (Seq<char>, Seq<char>)| size(pair.1)
}

/// Pairs, each once where it follows itself.
pub open spec fn collapsed(s: Seq<(Seq<char>, Seq<char>)>) -> Seq<(Seq<char>, Seq<char>)>
    decreases s.len(),
{
    if s.len() == 0 {
        s
    } else {
        let before = collapsed(s.drop_last());
        if before.len() > 0 && before.last() == s.last() {
            before
        } else {
            before.push(s.last())
        }
    }
}

/// The names and values to mask in what is printed of a new item, those with long values first.
pub open spec fn sensitive_fields(fields: Seq<op::CreateFieldView>) -> Seq<(Seq<char>, Seq<char>)> {
    collapsed(largest_first(template_secrets(fields), by_value_size()))
}

/// Appends a pair.
fn push_pair(v: &mut Vec<(String, String)>, a: &str, b: &str)
    ensures
        envfile::pairs(final(v)@) == envfile::pairs(old(v)@).push((a@, b@)),
{
    let ghost before = envfile::pairs(v@);
    v.push((a.to_owned(), b.to_owned()));
    assert(envfile::pairs(v@) =~= before.push((a@, b@)));
}

/// Pairs from the longest value to the shortest.
fn sort_pairs(values: &Vec<(String, String)>) -> (r: Vec<(String, String)>)
    ensures
        envfile::pairs(r@) == largest_first(envfile::pairs(values@), by_value_size()),
{
    let ghost all = envfile::pairs(values@);
    let ghost key = by_value_size();
    let mut r: Vec<(String, String)> = Vec::new();
    let mut i: usize = 0;
    assert(all.take(0) =~= Seq::<(Seq<char>, Seq<char>)>::empty());
    assert(envfile::pairs(r@) =~= Seq::<(Seq<char>, Seq<char>)>::empty());
    while i < values.len()
        invariant
            i <= values@.len(),
            all == envfile::pairs(values@),
            key == by_value_size(),
            envfile::pairs(r@) == largest_first(all.take(i as int), key),
        decreases values@.len() - i,
    {
        proof {
            assert(all.take(i + 1).drop_last() == all.take(i as int));
            assert(all.take(i + 1).last() == all[i as int]);
            assert(all[i as int] == (values@[i as int].0@, values@[i as int].1@));
        }
        let ghost before = envfile::pairs(r@);
        let ghost own = all[i as int];
        let length = values[i].1.as_str().as_bytes().len();
        let mut at: usize = 0;
        while at < r.len() && r[at].1.as_str().as_bytes().len() >= length
            invariant
                at <= r@.len(),
                before == envfile::pairs(r@),
                key == by_value_size(),
                length == size(own.1),
                place_by(before, key, own, 0) == place_by(before, key, own, at as int),
            decreases r@.len() - at,
        {
            assert(before[at as int].1 == r@[at as int].1@);
            at += 1;
        }
        proof {
            if at < r@.len() {
                assert(before[at as int].1 == r@[at as int].1@);
            }
        }
        r.insert(at, (values[i].0.clone(), values[i].1.clone()));
        assert(envfile::pairs(r@) =~= before.insert(at as int, own));
        i += 1;
    }
    r
}

/// The names and values to mask in what is printed of a new item.
pub fn collect_create_stdout_sensitive_fields(template: &ItemCreateTemplate) -> (r: Vec<
    (String, String),
>)
    ensures
        envfile::pairs(r@) == sensitive_fields(template.deep_view().fields),
{
    let ghost all = template.deep_view().fields;
    let mut found: Vec<(String, String)> = Vec::new();
    let mut i: usize = 0;
    assert(envfile::pairs(found@) =~= Seq::<(Seq<char>, Seq<char>)>::empty());
    while i < template.fields.len()
        invariant
            i <= template.fields@.len(),
            all == template.deep_view().fields,
            all.len() == template.fields@.len(),
            envfile::pairs(found@) == template_secrets(all.take(i as int)),
        decreases template.fields@.len() - i,
    {
        let field = &template.fields[i];
        proof {
            assert(all.take(i + 1).drop_last() == all.take(i as int));
            assert(all.take(i + 1).last() == field.deep_view());
        }
        if field.value.as_str().unicode_len() > 0 {
            push_pair(&mut found, &field.label, &field.value);
            if !text::same(&field.id, &field.label) {
                push_pair(&mut found, &field.id, &field.value);
            }
        }
        i += 1;
    }
    let sorted = sort_pairs(&found);
    let ghost ranked = envfile::pairs(sorted@);
    let mut r: Vec<(String, String)> = Vec::new();
    let mut j: usize = 0;
    assert(ranked.take(0) =~= Seq::<(Seq<char>, Seq<char>)>::empty());
    assert(envfile::pairs(r@) =~= Seq::<(Seq<char>, Seq<char>)>::empty());
    while j < sorted.len()
        invariant
            j <= sorted@.len(),
            ranked == envfile::pairs(sorted@),
            envfile::pairs(r@) == collapsed(ranked.take(j as int)),
        decreases sorted@.len() - j,
    {
        proof {
            assert(ranked.take(j + 1).drop_last() == ranked.take(j as int));
            assert(ranked.take(j + 1).last() == (sorted@[j as int].0@, sorted@[j as int].1@));
            assert(envfile::pairs(r@).len() == r@.len());
        }
        let repeated = if r.len() > 0 {
            let last = &r[r.len() - 1];
            assert(envfile::pairs(r@).last() == (last.0@, last.1@));
            text::same(&last.0, &sorted[j].0) && text::same(&last.1, &sorted[j].1)
        } else {
            false
        };
        if !repeated {
            push_pair(&mut r, &sorted[j].0, &sorted[j].1);
        }
        j += 1;
    }
    r
}

/// The pattern for a line that shows the value of a field.
pub open spec fn field_pattern(name: Seq<char>, value: Seq<char>) -> Seq<char> {
    (if value.contains('\n') {
        "(?ms)"@
    } else {
        "(?m)"@
    }) + "(^\\s*"@ + pattern::regex_escaped(name) + "(?:\\s*\\[[^\\]]+\\])?\\s*[:=]\\s*)"@
        + pattern::regex_escaped(value) + "(\\s*$)"@
}

/// The pattern for a line that shows the value of a field, from the name and the value as patterns.
pub fn build_field_pattern(escaped_name: &str, escaped_value: &str, many_lines: bool) -> (r: String)
    ensures
        r@ == (if many_lines {
            "(?ms)"@
        } else {
            "(?m)"@
        }) + "(^\\s*"@ + escaped_name@ + "(?:\\s*\\[[^\\]]+\\])?\\s*[:=]\\s*)"@ + escaped_value@
            + "(\\s*$)"@,
{
    let start = if many_lines {
        "(?ms)"
    } else {
        "(?m)"
    };
    start.to_owned().concat("(^\\s*").concat(escaped_name).concat(
        "(?:\\s*\\[[^\\]]+\\])?\\s*[:=]\\s*)",
    ).concat(escaped_value).concat("(\\s*$)")
}

/// What is printed of a new item, with a mask over the values of its fields.
pub open spec fn masked(s: Seq<char>, fields: Seq<(Seq<char>, Seq<char>)>) -> Seq<char>
    decreases fields.len(),
{
    if fields.len() == 0 {
        s
    } else {
        let before = masked(s, fields.drop_last());
        let own = field_pattern(fields.last().0, fields.last().1);
        if pattern::regex_refusal(own) is Some {
            before
        } else {
            pattern::regex_replaced(own, before, "$1***$2"@)
        }
    }
}

/// What is printed of a new item, with a mask over the values of its fields.
pub fn mask_create_stdout(stdout: &str, sensitive: &[(String, String)]) -> (r: String)
    ensures
        r@ == masked(stdout@, envfile::pairs(sensitive@)),
{
    let ghost all = envfile::pairs(sensitive@);
    let mut r = stdout.to_owned();
    let mut i: usize = 0;
    while i < sensitive.len()
        invariant
            i <= sensitive@.len(),
            all == envfile::pairs(sensitive@),
            r@ == masked(stdout@, all.take(i as int)),
        decreases sensitive@.len() - i,
    {
        proof {
            assert(all.take(i + 1).drop_last() == all.take(i as int));
            assert(all.take(i + 1).last() == (sensitive@[i as int].0@, sensitive@[i as int].1@));
        }
        let own = build_field_pattern(
            &pattern::escape(&sensitive[i].0),
            &pattern::escape(&sensitive[i].1),
            text::contains_char(&sensitive[i].1, '\n'),
        );
        if let Ok(re) = pattern::compile(&own) {
            r = pattern::replace_all(&re, &r, "$1***$2");
        }
        i += 1;
    }
    r
}

/// The values of pairs.
pub open spec fn values_of(pairs: Seq<(Seq<char>, Seq<char>)>) -> Seq<Seq<char>> {
    Seq::new(pairs.len(), |i: int| pairs[i].1)
}

/// What is printed of a new item, with a mark in place of the values of its fields wherever they
/// stand.
pub fn redact_create_stdout(stdout: &str, sensitive: &[(String, String)]) -> (r: String)
    ensures
        r@ == redacted(stdout@, secrets_of(values_of(envfile::pairs(sensitive@)))),
{
    let ghost all = values_of(envfile::pairs(sensitive@));
    let mut values = seqs::no_texts();
    let mut i: usize = 0;
    while i < sensitive.len()
        invariant
            i <= sensitive@.len(),
            all == values_of(envfile::pairs(sensitive@)),
            all.len() == sensitive@.len(),
            seqs::texts(values@) == all.take(i as int),
        decreases sensitive@.len() - i,
    {
        assert(all.take(i + 1) =~= all.take(i as int).push(sensitive@[i as int].1@));
        seqs::push_text(&mut values, &sensitive[i].1);
        i += 1;
    }
    Redactor::from_strings(&values).redact(stdout)
}

} // verus!
