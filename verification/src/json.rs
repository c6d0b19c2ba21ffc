//! JSON values.
//!
//! `Json` holds what `serde_json::Value` holds, as a value of this library: logic reads and
//! changes it here, and `serde_json` parses and prints it.

use vstd::prelude::*;
use vstd::string::*;

use crate::map::StringMap;
use crate::text;

verus! {

/// The number of a JSON value, as `serde_json` represents it.
#[verifier::external_type_specification]
#[verifier::external_body]
pub struct ExJsonNumber(serde_json::Number);

/// A JSON value of `serde_json`.
#[verifier::external_type_specification]
#[verifier::external_body]
pub struct ExJsonValue(serde_json::Value);

/// A JSON value.
#[derive(Debug)]
pub enum Json {
    Null,
    Bool(bool),
    Number(serde_json::Number),
    Text(String),
    Array(Vec<Json>),
    Object(StringMap<Json>),
}

/// The mathematical content of a JSON value. The entries of an object stand in the order of
/// their keys.
pub enum JsonView {
    Null,
    Bool(bool),
    Number(serde_json::Number),
    Text(Seq<char>),
    Array(Seq<JsonView>),
    Object(Seq<(Seq<char>, JsonView)>),
}

impl JsonView {
    /// An object without entries.
    pub open spec fn object() -> JsonView {
        JsonView::Object(Seq::empty())
    }

    /// The object with `v` for `key`; a value that is no object as it is.
    #[verifier::opaque]
    pub open spec fn with(self, key: Seq<char>, v: JsonView) -> JsonView {
        match self {
            JsonView::Object(m) => JsonView::Object(crate::map::inserted(m, key, v)),
            _ => self,
        }
    }
}

impl View for Json {
    type V = JsonView;

    closed spec fn view(&self) -> JsonView {
        content(*self)
    }
}

impl DeepView for Json {
    type V = JsonView;

    open spec fn deep_view(&self) -> JsonView {
        self.view()
    }
}

/// The content of a value.
spec fn content(j: Json) -> JsonView
    decreases j,
{
    match j {
        Json::Null => JsonView::Null,
        Json::Bool(b) => JsonView::Bool(b),
        Json::Number(n) => JsonView::Number(n),
        Json::Text(s) => JsonView::Text(s@),
        Json::Array(v) => JsonView::Array(
            Seq::new(
                v@.len(),
                |i: int|
                    if 0 <= i < v@.len() {
                        content(v@[i])
                    } else {
                        arbitrary()
                    },
            ),
        ),
        Json::Object(m) => JsonView::Object(
            Seq::new(
                m.entries@.len(),
                |i: int|
                    if 0 <= i < m.entries@.len() {
                        (m.entries@[i].0@, content(m.entries@[i].1))
                    } else {
                        arbitrary()
                    },
            ),
        ),
    }
}

/// The contents of a list of values.
pub open spec fn jsons(s: Seq<Json>) -> Seq<JsonView> {
    Seq::new(s.len(), |i: int| s[i]@)
}

/// The contents of the entries of an object.
pub open spec fn members(s: Seq<(Seq<char>, Json)>) -> Seq<(Seq<char>, JsonView)> {
    Seq::new(s.len(), |i: int| (s[i].0, s[i].1@))
}

/// What each kind of value holds.
pub broadcast proof fn lemma_json_view(j: Json)
    ensures
        match j {
            Json::Null => #[trigger] j@ == JsonView::Null,
            Json::Bool(b) => j@ == JsonView::Bool(b),
            Json::Number(n) => j@ == JsonView::Number(n),
            Json::Text(s) => j@ == JsonView::Text(s@),
            Json::Array(v) => j@ == JsonView::Array(jsons(v@)),
            Json::Object(m) => j@ == JsonView::Object(members(m@)),
        },
{
    match j {
        Json::Array(v) => {
            assert(j@->Array_0 =~= jsons(v@));
        },
        Json::Object(m) => {
            crate::map::lemma_map_view(m);
            assert(j@->Object_0 =~= members(m@));
        },
        _ => {},
    }
}

/// The value of the field `key`, where `j` is an object that has it.
pub open spec fn field(j: JsonView, key: Seq<char>) -> Option<JsonView> {
    match j {
        JsonView::Object(m) => crate::map::lookup(m, key),
        _ => None,
    }
}

/// Whether the entries of an object stand in order; so they do in every `Json`.
#[verifier::opaque]
pub open spec fn well_ordered(j: JsonView) -> bool {
    j matches JsonView::Object(m) ==> crate::map::ordered(m)
}

/// An object without entries is ordered.
pub proof fn lemma_object_ordered()
    ensures
        JsonView::object() is Object,
        well_ordered(JsonView::object()),
{
    reveal(well_ordered);
}

/// What an entry of an object is after another one was put in.
pub proof fn lemma_with(j: JsonView, key: Seq<char>, v: JsonView, other: Seq<char>)
    requires
        j is Object,
        well_ordered(j),
    ensures
        j.with(key, v) is Object,
        well_ordered(j.with(key, v)),
        field(j.with(key, v), key) == Some(v),
        other != key ==> field(j.with(key, v), other) == field(j, other),
{
    reveal(well_ordered);
    reveal(JsonView::with);
    let m = j->Object_0;
    crate::map::lemma_inserted_ordered(m, key, v);
    crate::map::lemma_inserted_lookup(m, key, v, other);
}

/// Objects that hold the same under every key are the same.
pub proof fn lemma_same_object(a: JsonView, b: JsonView)
    requires
        a is Object,
        b is Object,
        well_ordered(a),
        well_ordered(b),
        forall|k: Seq<char>| #[trigger] field(a, k) == field(b, k),
    ensures
        a == b,
{
    reveal(well_ordered);
    let s = a->Object_0;
    let t = b->Object_0;
    assert forall|k: Seq<char>| #[trigger]
        crate::map::lookup(s, k) == crate::map::lookup(t, k) by {
        assert(field(a, k) == field(b, k));
    }
    crate::map::lemma_same_map(s, t);
}

/// An object that holds a value already is the same with it.
pub proof fn lemma_with_same(j: JsonView, key: Seq<char>, v: JsonView)
    requires
        j is Object,
        well_ordered(j),
        field(j, key) == Some(v),
    ensures
        j.with(key, v) == j,
{
    lemma_with(j, key, v, key);
    assert forall|k: Seq<char>| #[trigger] field(j.with(key, v), k) == field(j, k) by {
        lemma_with(j, key, v, k);
    }
    lemma_same_object(j.with(key, v), j);
}

/// Whether the entries of a value, and of every value in it, stand in order; so they do in every
/// `Json`.
pub open spec fn ordered_throughout(j: JsonView) -> bool
    decreases j,
{
    &&& well_ordered(j)
    &&& match j {
        JsonView::Array(items) => forall|i: int|
            0 <= i < items.len() ==> ordered_throughout(#[trigger] items[i]),
        JsonView::Object(m) => forall|i: int|
            0 <= i < m.len() ==> ordered_throughout((#[trigger] m[i]).1),
        _ => true,
    }
}

/// What is ordered throughout holds only such values.
pub proof fn lemma_field_ordered(j: JsonView, key: Seq<char>)
    requires
        ordered_throughout(j),
    ensures
        field(j, key) matches Some(v) ==> ordered_throughout(v),
{
}

/// An object is read back with another entry where the entry's value is.
pub proof fn lemma_with_reads_back(j: JsonView, key: Seq<char>, v: JsonView, depth: int)
    requires
        j is Object,
        well_ordered(j),
        reads_back(j, depth),
        reads_back(v, depth - 1),
    ensures
        reads_back(j.with(key, v), depth),
{
    reveal(well_ordered);
    reveal(JsonView::with);
    let m = j->Object_0;
    crate::map::lemma_rank(m, key);
    let now = crate::map::inserted(m, key, v);
    assert(j.with(key, v) == JsonView::Object(now));
    let at = if crate::map::has_key(m, key) {
        crate::map::key_index(m, key)
    } else {
        crate::map::rank(m, key)
    };
    assert forall|i: int| 0 <= i < now.len() implies reads_back((#[trigger] now[i]).1, depth - 1) by {
        if crate::map::has_key(m, key) {
            if i != at {
                assert(now[i] == m[i]);
            }
        } else if i < at {
            assert(now[i] == m[i]);
        } else if i > at {
            assert(now[i] == m[i - 1]);
        }
    }
}

/// The text of a string.
pub open spec fn text_of(j: JsonView) -> Option<Seq<char>> {
    match j {
        JsonView::Text(s) => Some(s),
        _ => None,
    }
}

/// The items of an array.
pub open spec fn items_of(j: JsonView) -> Option<Seq<JsonView>> {
    match j {
        JsonView::Array(v) => Some(v),
        _ => None,
    }
}

/// The entries, where `j` is an object.
pub open spec fn entries_of(j: JsonView) -> Option<Seq<(Seq<char>, JsonView)>> {
    match j {
        JsonView::Object(entries) => Some(entries),
        _ => None,
    }
}

/// The truth value, where `j` is one.
pub open spec fn bool_of(j: JsonView) -> Option<bool> {
    match j {
        JsonView::Bool(b) => Some(b),
        _ => None,
    }
}

/// The unsigned number, where `j` is one.
pub open spec fn u64_of(j: JsonView) -> Option<u64> {
    match j {
        JsonView::Number(n) => number_u64(n),
        _ => None,
    }
}

/// The signed number, where `j` is one.
pub open spec fn i64_of(j: JsonView) -> Option<i64> {
    match j {
        JsonView::Number(n) => number_i64(n),
        _ => None,
    }
}

/// The text of the field `key`, where it is a string.
pub open spec fn text_field(j: JsonView, key: Seq<char>) -> Option<Seq<char>> {
    match field(j, key) {
        Some(v) => text_of(v),
        None => None,
    }
}

/// The items of the field `key`, where it is an array.
pub open spec fn items_field(j: JsonView, key: Seq<char>) -> Option<Seq<JsonView>> {
    match field(j, key) {
        Some(v) => items_of(v),
        None => None,
    }
}

/// Keys stand in an object as in its map.
pub proof fn lemma_members(s: Seq<(Seq<char>, Json)>, k: Seq<char>)
    requires
        crate::map::ordered(s),
    ensures
        crate::map::ordered(members(s)),
        crate::map::has_key(members(s), k) == crate::map::has_key(s, k),
        crate::map::has_key(s, k) ==> crate::map::key_index(members(s), k)
            == crate::map::key_index(s, k),
        crate::map::lookup(members(s), k) == (match crate::map::lookup(s, k) {
            Some(j) => Some(j@),
            None => None,
        }),
{
    let t = members(s);
    assert forall|i: int, j: int| 0 <= i < j < t.len() implies text::before(
        #[trigger] t[i].0,
        #[trigger] t[j].0,
    ) by {
        assert(t[i].0 == s[i].0 && t[j].0 == s[j].0);
    }
    if crate::map::has_key(s, k) {
        let i = crate::map::key_index(s, k);
        assert(t[i].0 == k);
        crate::map::lemma_key_index(t, i);
    } else if crate::map::has_key(t, k) {
        let i = crate::map::key_index(t, k);
        assert(s[i].0 == k);
    }
}

/// Ranks in an object are those in its map.
proof fn lemma_members_rank(s: Seq<(Seq<char>, Json)>, k: Seq<char>)
    ensures
        crate::map::rank(members(s), k) == crate::map::rank(s, k),
    decreases s.len(),
{
    if s.len() > 0 {
        assert(members(s).drop_first() =~= members(s.drop_first()));
        lemma_members_rank(s.drop_first(), k);
    }
}

/// An insertion into an object's map is the insertion into the object.
pub proof fn lemma_members_inserted(s: Seq<(Seq<char>, Json)>, k: Seq<char>, v: Json)
    requires
        crate::map::ordered(s),
    ensures
        members(crate::map::inserted(s, k, v)) == crate::map::inserted(members(s), k, v@),
{
    lemma_members(s, k);
    lemma_members_rank(s, k);
    crate::map::lemma_rank(s, k);
    assert(members(crate::map::inserted(s, k, v)) =~= crate::map::inserted(members(s), k, v@));
}

/// What `serde_json::Number::as_u64` gives.
pub uninterp spec fn number_u64(n: serde_json::Number) -> Option<u64>;

/// What `serde_json::Number::as_i64` gives.
pub uninterp spec fn number_i64(n: serde_json::Number) -> Option<i64>;

/// What `serde_json::Number::from` makes of an integer.
pub uninterp spec fn number_of(n: u64) -> serde_json::Number;

/// The content of a `serde_json::Value`: the value itself, with each object's entries in the
/// order of their keys.
pub uninterp spec fn value_view(v: serde_json::Value) -> JsonView;

/// What `serde_json::from_str` reads from a text, or the message with which it refuses the text.
pub uninterp spec fn parsed(text: Seq<char>) -> Result<JsonView, Seq<char>>;

/// What `serde_json::from_slice` reads from bytes, or the message with which it refuses them.
pub uninterp spec fn parsed_bytes(bytes: Seq<u8>) -> Result<JsonView, Seq<char>>;

/// The text that `serde_json::to_string` prints for a value.
pub uninterp spec fn printed(j: JsonView) -> Seq<char>;

/// The text that `serde_json::to_string_pretty` prints for a value.
pub uninterp spec fn printed_pretty(j: JsonView) -> Seq<char>;

/// `serde_json::Number::as_u64` depends on the number alone.
pub assume_specification[ serde_json::Number::as_u64 ](n: &serde_json::Number) -> (r: Option<u64>)
    ensures
        r == number_u64(*n),
;

/// `serde_json::Number::as_i64` depends on the number alone.
pub assume_specification[ serde_json::Number::as_i64 ](n: &serde_json::Number) -> (r: Option<i64>)
    ensures
        r == number_i64(*n),
;

/// `serde_json::Number`'s `clone` gives the same number.
pub assume_specification[ <serde_json::Number as std::clone::Clone>::clone ](
    n: &serde_json::Number,
) -> (r: serde_json::Number)
    ensures
        r == *n,
;

/// `serde_json::Number::from` makes a number of an integer, from which `as_u64` gives the integer
/// back.
#[verifier::external_body]
fn number(n: u64) -> (r: serde_json::Number)
    ensures
        r == number_of(n),
        number_u64(r) == Some(n),
{
    serde_json::Number::from(n)
}

/// `serde_json::from_str` reads a value from a text, or refuses the text with a message; both
/// depend on the text alone.
#[verifier::external_body]
fn read_text(text: &str) -> (r: Result<serde_json::Value, String>)
    ensures
        match r {
            Ok(v) => parsed(text@) == Ok::<JsonView, Seq<char>>(value_view(v)),
            Err(e) => parsed(text@) == Err::<JsonView, Seq<char>>(e@),
        },
{
    serde_json::from_str(text).map_err(|e| e.to_string())
}

/// `serde_json::from_slice` reads a value from bytes, or refuses them with a message; both depend
/// on the bytes alone.
#[verifier::external_body]
fn read_bytes(bytes: &[u8]) -> (r: Result<serde_json::Value, String>)
    ensures
        match r {
            Ok(v) => parsed_bytes(bytes@) == Ok::<JsonView, Seq<char>>(value_view(v)),
            Err(e) => parsed_bytes(bytes@) == Err::<JsonView, Seq<char>>(e@),
        },
{
    serde_json::from_slice(bytes).map_err(|e| e.to_string())
}

/// Moves a `serde_json::Value` into a `Json` of the same content. `serde_json` keeps the entries
/// of an object in the order of their keys, each key once.
#[verifier::external_body]
fn json_of(v: serde_json::Value) -> (r: Json)
    ensures
        r@ == value_view(v),
{
    match v {
        serde_json::Value::Null => Json::Null,
        serde_json::Value::Bool(b) => Json::Bool(b),
        serde_json::Value::Number(n) => Json::Number(n),
        serde_json::Value::String(s) => Json::Text(s),
        serde_json::Value::Array(items) => Json::Array(items.into_iter().map(json_of).collect()),
        serde_json::Value::Object(map) => Json::Object(StringMap {
            entries: map.into_iter().map(|(k, v)| (k, json_of(v))).collect(),
        }),
    }
}

/// Copies a `Json` into a `serde_json::Value` of the same content.
#[verifier::external_body]
fn value_of(j: &Json) -> (r: serde_json::Value)
    ensures
        value_view(r) == j@,
{
    match j {
        Json::Null => serde_json::Value::Null,
        Json::Bool(b) => serde_json::Value::Bool(*b),
        Json::Number(n) => serde_json::Value::Number(n.clone()),
        Json::Text(s) => serde_json::Value::String(s.clone()),
        Json::Array(items) => serde_json::Value::Array(items.iter().map(value_of).collect()),
        Json::Object(map) => serde_json::Value::Object(
            map.entries.iter().map(|(k, v)| (k.clone(), value_of(v))).collect(),
        ),
    }
}

/// Whether a value is read back as it was printed: its numbers are integers, and it is nested at
/// most `depth` times.
pub open spec fn reads_back(j: JsonView, depth: int) -> bool
    decreases j,
{
    match j {
        JsonView::Number(n) => number_u64(n) is Some || number_i64(n) is Some,
        JsonView::Array(items) => depth > 0 && forall|i: int|
            0 <= i < items.len() ==> reads_back(#[trigger] items[i], depth - 1),
        JsonView::Object(entries) => depth > 0 && forall|i: int|
            0 <= i < entries.len() ==> reads_back((#[trigger] entries[i]).1, depth - 1),
        _ => true,
    }
}

/// `serde_json::to_string` prints a value; it never refuses a `serde_json::Value`. It prints no
/// line feed, and `serde_json::from_str` reads the value back from the text, with a line feed
/// behind it or without one, where the numbers are integers and the value is nested less often
/// than the limit of 128.
#[verifier::external_body]
fn print_value(v: &serde_json::Value) -> (r: String)
    ensures
        r@ == printed(value_view(*v)),
        !r@.contains('\n'),
        (reads_back(value_view(*v), 127) ==> {
            &&& parsed(r@) == Ok::<JsonView, Seq<char>>(value_view(*v))
            &&& parsed(r@ + "\n"@) == Ok::<JsonView, Seq<char>>(value_view(*v))
        }),
{
    serde_json::to_string(v).expect("a JSON value prints")
}

/// `serde_json::to_string_pretty` prints a value over several lines; it never refuses a
/// `serde_json::Value`.
#[verifier::external_body]
fn print_value_pretty(v: &serde_json::Value) -> (r: String)
    ensures
        r@ == printed_pretty(value_view(*v)),
{
    serde_json::to_string_pretty(v).expect("a JSON value prints")
}

impl Clone for Json {
    fn clone(&self) -> (r: Json)
        ensures
            r@ == self@,
        decreases self,
    {
        broadcast use lemma_json_view;

        match self {
            Json::Null => Json::Null,
            Json::Bool(b) => Json::Bool(*b),
            Json::Number(n) => Json::Number(n.clone()),
            Json::Text(s) => Json::Text(s.clone()),
            Json::Array(v) => {
                let mut items: Vec<Json> = Vec::new();
                let mut i: usize = 0;
                while i < v.len()
                    invariant
                        i <= v@.len(),
                        *self is Array,
                        self->Array_0 == *v,
                        items@.len() == i,
                        forall|j: int| 0 <= j < i ==> #[trigger] items@[j]@ == v@[j]@,
                    decreases v@.len() - i,
                {
                    assert(decreases_to!(self => self->Array_0@[i as int]));
                    let copy = v[i].clone();
                    items.push(copy);
                    i += 1;
                }
                assert(jsons(items@) =~= jsons(v@));
                Json::Array(items)
            },
            Json::Object(m) => {
                let mut entries: Vec<(String, Json)> = Vec::new();
                let mut i: usize = 0;
                while i < m.entries.len()
                    invariant
                        i <= m.entries@.len(),
                        *self is Object,
                        self->Object_0 == *m,
                        entries@.len() == i,
                        forall|j: int|
                            0 <= j < i ==> #[trigger] entries@[j].0@ == m.entries@[j].0@
                                && entries@[j].1@ == m.entries@[j].1@,
                    decreases m.entries@.len() - i,
                {
                    assert(decreases_to!(self => self->Object_0.entries@[i as int].1));
                    let copy = m.entries[i].1.clone();
                    entries.push((m.entries[i].0.clone(), copy));
                    i += 1;
                }
                proof {
                    crate::map::lemma_map_view(*m);
                }
                let copied = StringMap::from_entries(entries, m);
                assert(members(copied@) =~= members(m@));
                Json::Object(copied)
            },
        }
    }
}

/// Every value is ordered throughout.
pub fn check_ordered(j: &Json)
    ensures
        ordered_throughout(j@),
    decreases j,
{
    broadcast use lemma_json_view;

    reveal(well_ordered);
    match j {
        Json::Array(v) => {
            let mut i: usize = 0;
            while i < v.len()
                invariant
                    i <= v@.len(),
                    *j is Array,
                    j->Array_0 == *v,
                    forall|k: int| 0 <= k < i ==> ordered_throughout(#[trigger] v@[k]@),
                decreases v@.len() - i,
            {
                assert(decreases_to!(j => j->Array_0@[i as int]));
                check_ordered(&v[i]);
                i += 1;
            }
            assert(j@ == JsonView::Array(jsons(v@)));
            assert forall|k: int| 0 <= k < jsons(v@).len() implies ordered_throughout(
                #[trigger] jsons(v@)[k],
            ) by {
                assert(ordered_throughout(v@[k]@));
            }
        },
        Json::Object(m) => {
            m.check_order();
            let mut i: usize = 0;
            while i < m.entries.len()
                invariant
                    i <= m.entries@.len(),
                    *j is Object,
                    j->Object_0 == *m,
                    forall|k: int|
                        0 <= k < i ==> ordered_throughout((#[trigger] m.entries@[k]).1@),
                decreases m.entries@.len() - i,
            {
                assert(decreases_to!(j => j->Object_0.entries@[i as int].1));
                check_ordered(&m.entries[i].1);
                i += 1;
            }
            proof {
                crate::map::lemma_map_view(*m);
                let all = members(m@);
                lemma_members(m@, Seq::empty());
                assert(j@ == JsonView::Object(all));
                assert forall|k: int| 0 <= k < all.len() implies ordered_throughout(
                    (#[trigger] all[k]).1,
                ) by {
                    assert(ordered_throughout(m.entries@[k].1@));
                }
            }
        },
        _ => {},
    }
}

/// A copy of the values.
pub fn clone_items(items: &[Json]) -> (r: Vec<Json>)
    ensures
        jsons(r@) == jsons(items@),
{
    let mut r: Vec<Json> = Vec::new();
    let mut i: usize = 0;
    while i < items.len()
        invariant
            i <= items@.len(),
            r@.len() == i,
            forall|j: int| 0 <= j < i ==> #[trigger] r@[j]@ == items@[j]@,
        decreases items@.len() - i,
    {
        let copy = items[i].clone();
        r.push(copy);
        i += 1;
    }
    assert(jsons(r@) =~= jsons(items@));
    r
}

/// What a parse came to.
pub open spec fn read(r: Result<Json, String>) -> Result<JsonView, Seq<char>> {
    match r {
        Ok(j) => Ok(j@),
        Err(e) => Err(e@),
    }
}

/// The value that `text` denotes, or why it is not JSON.
pub fn parse(text: &str) -> (r: Result<Json, String>)
    ensures
        read(r) == parsed(text@),
{
    match read_text(text) {
        Ok(v) => Ok(json_of(v)),
        Err(e) => Err(e),
    }
}

/// The value that `bytes` denote, or why they are not JSON.
pub fn parse_bytes(bytes: &[u8]) -> (r: Result<Json, String>)
    ensures
        read(r) == parsed_bytes(bytes@),
{
    match read_bytes(bytes) {
        Ok(v) => Ok(json_of(v)),
        Err(e) => Err(e),
    }
}

impl Json {
    /// The value on one line. It is read back from the line unless it is nested too deep or holds
    /// numbers that are no integers.
    pub fn print(&self) -> (r: String)
        ensures
            r@ == printed(self@),
            !r@.contains('\n'),
            reads_back(self@, 127) ==> parsed(r@) == Ok::<JsonView, Seq<char>>(self@) && parsed(
                r@ + "\n"@,
            ) == Ok::<JsonView, Seq<char>>(self@),
    {
        print_value(&value_of(self))
    }

    /// The value over several lines.
    pub fn print_pretty(&self) -> (r: String)
        ensures
            r@ == printed_pretty(self@),
    {
        print_value_pretty(&value_of(self))
    }

    /// The value of the field `key`, where this is an object that has it.
    pub fn get(&self, key: &str) -> (r: Option<&Json>)
        ensures
            match r {
                Some(j) => field(self@, key@) == Some(j@),
                None => field(self@, key@) is None,
            },
    {
        broadcast use lemma_json_view;

        match self {
            Json::Object(m) => {
                m.check_order();
                proof {
                    lemma_members(m@, key@);
                }
                m.get(key)
            },
            _ => None,
        }
    }

    /// The text, where this is a string.
    pub fn as_str(&self) -> (r: Option<&str>)
        ensures
            r.deep_view() == text_of(self@),
    {
        broadcast use lemma_json_view;

        match self {
            Json::Text(s) => Some(s.as_str()),
            _ => None,
        }
    }

    /// The items, where this is an array.
    pub fn as_array(&self) -> (r: Option<&Vec<Json>>)
        ensures
            match r {
                Some(v) => items_of(self@) == Some(jsons(v@)),
                None => items_of(self@) is None,
            },
    {
        broadcast use lemma_json_view;

        match self {
            Json::Array(v) => Some(v),
            _ => None,
        }
    }

    /// The text of the field `key`, where it is a string.
    pub fn get_str(&self, key: &str) -> (r: Option<&str>)
        ensures
            r.deep_view() == text_field(self@, key@),
    {
        match self.get(key) {
            Some(v) => v.as_str(),
            None => None,
        }
    }

    /// The items of the field `key`, where it is an array.
    pub fn get_array(&self, key: &str) -> (r: Option<&Vec<Json>>)
        ensures
            match r {
                Some(v) => items_field(self@, key@) == Some(jsons(v@)),
                None => items_field(self@, key@) is None,
            },
    {
        match self.get(key) {
            Some(v) => v.as_array(),
            None => None,
        }
    }

    /// The entries, where the value is an object.
    pub fn as_object(&self) -> (r: Option<&StringMap<Json>>)
        ensures
            match r {
                Some(m) => entries_of(self@) == Some(members(m@)),
                None => entries_of(self@) is None,
            },
    {
        broadcast use lemma_json_view;

        match self {
            Json::Object(m) => Some(m),
            _ => None,
        }
    }

    /// The truth value, where the value is one.
    pub fn as_bool(&self) -> (r: Option<bool>)
        ensures
            r == bool_of(self@),
    {
        broadcast use lemma_json_view;

        match self {
            Json::Bool(b) => Some(*b),
            _ => None,
        }
    }

    /// The unsigned number, where the value is one.
    pub fn as_u64(&self) -> (r: Option<u64>)
        ensures
            r == u64_of(self@),
    {
        broadcast use lemma_json_view;

        match self {
            Json::Number(n) => n.as_u64(),
            _ => None,
        }
    }

    /// The signed number, where the value is one.
    pub fn as_i64(&self) -> (r: Option<i64>)
        ensures
            r == i64_of(self@),
    {
        broadcast use lemma_json_view;

        match self {
            Json::Number(n) => n.as_i64(),
            _ => None,
        }
    }

    /// An object without entries.
    pub fn object() -> (r: Json)
        ensures
            r@ == JsonView::object(),
    {
        broadcast use lemma_json_view;

        let r = Json::Object(StringMap::new());
        assert(r@->Object_0 =~= Seq::<(Seq<char>, JsonView)>::empty());
        r
    }

    /// The object with `v` for `key`; a value that is no object as it is.
    pub fn with(self, key: &str, v: Json) -> (r: Json)
        ensures
            r@ == self@.with(key@, v@),
    {
        broadcast use lemma_json_view;

        proof {
            reveal(JsonView::with);
        }
        match self {
            Json::Object(m) => {
                let mut m = m;
                m.check_order();
                proof {
                    lemma_members_inserted(m@, key@, v);
                }
                m.insert(key.to_owned(), v);
                Json::Object(m)
            },
            other => other,
        }
    }

    /// A string.
    pub fn text(s: &str) -> (r: Json)
        ensures
            r@ == JsonView::Text(s@),
    {
        broadcast use lemma_json_view;

        Json::Text(s.to_owned())
    }

    /// A whole number.
    pub fn number(n: u64) -> (r: Json)
        ensures
            r@ == JsonView::Number(number_of(n)),
            number_u64(number_of(n)) == Some(n),
    {
        broadcast use lemma_json_view;

        Json::Number(number(n))
    }
}

} // verus!
