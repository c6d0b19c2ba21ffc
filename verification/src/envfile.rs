//! Environment files: what a line says, what a file holds, and how new lines are merged into one.

use vstd::prelude::*;
use vstd::string::*;

use crate::ids;
use crate::pattern;
use crate::seqs;
use crate::text;

verus! {

broadcast use crate::seqs::group_seqs;

/// The key of a line: what stands before its first equals sign, in a line that is neither blank
/// nor a comment.
pub open spec fn env_key(line: Seq<char>) -> Option<Seq<char>> {
    let t = text::trimmed(line);
    if t.len() == 0 || text::begins(t, "#"@) {
        None
    } else {
        match text::parted(t, "="@) {
            Some((key, _)) => Some(key),
            None => Some(t),
        }
    }
}

/// The key and the value of a line that is neither blank nor a comment and has an equals sign.
pub open spec fn env_pair(line: Seq<char>) -> Option<(Seq<char>, Seq<char>)> {
    let t = text::trimmed(line);
    if t.len() == 0 || text::begins(t, "#"@) {
        None
    } else {
        text::parted(t, "="@)
    }
}

/// The key of a line.
pub fn parse_env_key(line: &str) -> (r: Option<&str>)
    ensures
        r.deep_view() == env_key(line@),
{
    let trimmed = text::trim(line);
    if trimmed.unicode_len() == 0 || text::starts_with(trimmed, "#") {
        return None;
    }
    match text::split_once(trimmed, "=") {
        Some((key, _)) => Some(key),
        None => Some(trimmed),
    }
}

/// The key and the value of a line.
pub fn parse_env_line_kv(line: &str) -> (r: Option<(&str, &str)>)
    ensures
        r.deep_view() == env_pair(line@),
{
    let trimmed = text::trim(line);
    if trimmed.unicode_len() == 0 || text::starts_with(trimmed, "#") {
        return None;
    }
    text::split_once(trimmed, "=")
}

/// Whether a value refers to a secret in 1Password.
pub open spec fn is_reference(value: Seq<char>) -> bool {
    text::begins(value, "op://"@)
}

/// Whether a value refers to a secret in 1Password.
pub fn is_op_reference(value: &str) -> (r: bool)
    ensures
        r == is_reference(value@),
{
    text::starts_with(value, "op://")
}

/// Where in a value the reader stands: outside quotes, inside single or double quotes, or behind a
/// backslash inside double quotes.
#[derive(Clone, Copy, PartialEq, Eq, Structural)]
pub enum Quoting {
    Plain,
    Single,
    Double,
    Escaped,
}

/// Where the reader stands after one more character.
pub open spec fn quoting_after(state: Quoting, c: char) -> Quoting {
    match state {
        Quoting::Plain => if c == '"' {
            Quoting::Double
        } else if c == '\'' {
            Quoting::Single
        } else {
            Quoting::Plain
        },
        Quoting::Single => if c == '\'' {
            Quoting::Plain
        } else {
            Quoting::Single
        },
        Quoting::Double => if c == '\\' {
            Quoting::Escaped
        } else if c == '"' {
            Quoting::Plain
        } else {
            Quoting::Double
        },
        Quoting::Escaped => Quoting::Double,
    }
}

/// Where the reader stands after `s`.
pub open spec fn quoting(s: Seq<char>) -> Quoting
    decreases s.len(),
{
    if s.len() == 0 {
        Quoting::Plain
    } else {
        quoting_after(quoting(s.drop_last()), s.last())
    }
}

/// Whether a comment begins at `i`: a hash outside quotes, at the start or behind white space.
pub open spec fn is_comment_start(s: Seq<char>, i: int) -> bool {
    &&& 0 <= i < s.len()
    &&& s[i] == '#'
    &&& quoting(s.take(i)) == Quoting::Plain
    &&& (i == 0 || text::is_white(s[i - 1]))
}

/// Where the first comment at or after `i` begins.
pub open spec fn comment_start(s: Seq<char>, i: int) -> Option<int>
    decreases s.len() - i,
{
    if i < 0 || i >= s.len() {
        None
    } else if is_comment_start(s, i) {
        Some(i)
    } else {
        comment_start(s, i + 1)
    }
}

/// A value without the comment behind it.
pub open spec fn uncommented(s: Seq<char>) -> Seq<char> {
    match comment_start(s, 0) {
        Some(i) => text::trimmed_end(s.subrange(0, i)),
        None => s,
    }
}

/// A value without the comment behind it.
pub fn strip_inline_comment(value: &str) -> (r: &str)
    ensures
        r@ == uncommented(value@),
{
    let chars = text::chars_of(value);
    let mut state = Quoting::Plain;
    let mut i: usize = 0;
    while i < chars.len()
        invariant
            i <= chars.len(),
            chars@ == value@,
            state == quoting(value@.take(i as int)),
            comment_start(value@, 0) == comment_start(value@, i as int),
        decreases chars.len() - i,
    {
        let c = chars[i];
        if state == Quoting::Plain && c == '#' && (i == 0 || text::is_whitespace(chars[i - 1])) {
            assert(comment_start(value@, i as int) == Some(i as int));
            return text::trim_end(value.substring_char(0, i));
        }
        proof {
            assert(value@.take(i + 1).drop_last() == value@.take(i as int));
        }
        state = match state {
            Quoting::Plain => if c == '"' {
                Quoting::Double
            } else if c == '\'' {
                Quoting::Single
            } else {
                Quoting::Plain
            },
            Quoting::Single => if c == '\'' {
                Quoting::Plain
            } else {
                Quoting::Single
            },
            Quoting::Double => if c == '\\' {
                Quoting::Escaped
            } else if c == '"' {
                Quoting::Plain
            } else {
                Quoting::Double
            },
            Quoting::Escaped => Quoting::Double,
        };
        i += 1;
    }
    value
}

/// Whether `s` stands between two quotes of the kind `q`.
pub open spec fn is_quoted(s: Seq<char>, q: char) -> bool {
    s.len() >= 2 && s[0] == q && s.last() == q
}

/// The value of a line: without a comment, without white space around it and without the quotes
/// around it.
pub open spec fn env_value(raw: Seq<char>) -> Seq<char> {
    let v = text::trimmed(uncommented(raw));
    if is_quoted(v, '"') || is_quoted(v, '\'') {
        v.subrange(1, v.len() - 1)
    } else {
        v
    }
}

/// The value of a line.
pub fn normalize_env_value(raw_value: &str) -> (r: String)
    ensures
        r@ == env_value(raw_value@),
{
    let value = text::trim(strip_inline_comment(raw_value));
    let n = value.unicode_len();
    if n >= 2 {
        let first = value.get_char(0);
        let last = value.get_char(n - 1);
        if (first == '"' && last == '"') || (first == '\'' && last == '\'') {
            return value.substring_char(1, n - 1).to_owned();
        }
    }
    value.to_owned()
}

/// What a line of an environment file says.
pub enum EntryView {
    /// Nothing: it is blank, a comment, or has no equals sign.
    Nothing,
    /// A value for a key that is no variable name.
    InvalidKey(Seq<char>),
    /// A reference to a secret that is in 1Password already.
    Reference(Seq<char>),
    /// A value for a variable.
    Value(Seq<char>, Seq<char>),
}

/// What a line of an environment file says.
pub enum EnvEntry {
    Nothing,
    InvalidKey(String),
    Reference(String),
    Value(String, String),
}

impl View for EnvEntry {
    type V = EntryView;

    open spec fn view(&self) -> EntryView {
        match self {
            EnvEntry::Nothing => EntryView::Nothing,
            EnvEntry::InvalidKey(k) => EntryView::InvalidKey(k@),
            EnvEntry::Reference(k) => EntryView::Reference(k@),
            EnvEntry::Value(k, v) => EntryView::Value(k@, v@),
        }
    }
}

/// A line without a leading `export`.
pub open spec fn unexported(line: Seq<char>) -> Seq<char> {
    match text::after_prefix(line, "export"@) {
        Some(rest) => if rest.len() > 0 && text::is_white(rest[0]) {
            text::trimmed_start(rest)
        } else {
            line
        },
        None => line,
    }
}

/// What a line of an environment file says.
pub open spec fn env_entry(raw: Seq<char>) -> EntryView {
    let line = text::trimmed(raw);
    if line.len() == 0 || text::begins(line, "#"@) {
        EntryView::Nothing
    } else {
        match text::parted(unexported(line), "="@) {
            None => EntryView::Nothing,
            Some((raw_key, raw_value)) => {
                let key = text::trimmed(raw_key);
                if !pattern::is_name(key) {
                    EntryView::InvalidKey(key)
                } else if is_reference(env_value(raw_value)) {
                    EntryView::Reference(key)
                } else {
                    EntryView::Value(key, env_value(raw_value))
                }
            },
        }
    }
}

/// What a line of an environment file says.
pub fn read_env_entry(raw_line: &str) -> (r: EnvEntry)
    ensures
        r@ == env_entry(raw_line@),
{
    let line = text::trim(raw_line);
    if line.unicode_len() == 0 || text::starts_with(line, "#") {
        return EnvEntry::Nothing;
    }
    let normalized = match text::strip_prefix(line, "export") {
        Some(rest) => if rest.unicode_len() > 0 && text::is_whitespace(rest.get_char(0)) {
            text::trim_start(rest)
        } else {
            line
        },
        None => line,
    };
    match text::split_once(normalized, "=") {
        None => EnvEntry::Nothing,
        Some((raw_key, raw_value)) => {
            let key = text::trim(raw_key);
            if !pattern::matches_name(key) {
                return EnvEntry::InvalidKey(key.to_owned());
            }
            let value = normalize_env_value(raw_value);
            if is_op_reference(&value) {
                return EnvEntry::Reference(key.to_owned());
            }
            EnvEntry::Value(key.to_owned(), value)
        },
    }
}

/// Pairs with the views of their strings.
pub open spec fn pairs(v: Seq<(String, String)>) -> Seq<(Seq<char>, Seq<char>)> {
    Seq::new(v.len(), |i: int| (v[i].0@, v[i].1@))
}

/// The position of the first pair at or after `from` with the key.
pub open spec fn pair_index(s: Seq<(Seq<char>, Seq<char>)>, key: Seq<char>, from: int) -> Option<int>
    decreases s.len() - from,
{
    if from < 0 || from >= s.len() {
        None
    } else if s[from].0 == key {
        Some(from)
    } else {
        pair_index(s, key, from + 1)
    }
}

/// The pairs with the given one behind them, in place of an earlier one with its key.
pub open spec fn with_pair(s: Seq<(Seq<char>, Seq<char>)>, key: Seq<char>, value: Seq<char>) -> Seq<
    (Seq<char>, Seq<char>),
> {
    match pair_index(s, key, 0) {
        Some(i) => s.remove(i).push((key, value)),
        None => s.push((key, value)),
    }
}

/// The pairs that lines hold: for each key the last value, where that value stands.
pub open spec fn env_pairs(lines: Seq<Seq<char>>) -> Seq<(Seq<char>, Seq<char>)>
    decreases lines.len(),
{
    if lines.len() == 0 {
        Seq::empty()
    } else {
        let before = env_pairs(lines.drop_last());
        match env_entry(lines.last()) {
            EntryView::Value(key, value) => with_pair(before, key, value),
            _ => before,
        }
    }
}

/// What is said of the lines that were passed over.
pub open spec fn env_notices(lines: Seq<Seq<char>>) -> Seq<Seq<char>>
    decreases lines.len(),
{
    if lines.len() == 0 {
        Seq::empty()
    } else {
        let before = env_notices(lines.drop_last());
        match env_entry(lines.last()) {
            EntryView::InvalidKey(key) => before.push("Skipped invalid key in env file: "@ + key),
            EntryView::Reference(key) => before.push(
                "Skipped already imported op:// value for key: "@ + key,
            ),
            _ => before,
        }
    }
}

/// The pairs that a file holds, and what is said of the lines that were passed over.
pub fn parse_env_text(content: &str) -> (r: (Vec<(String, String)>, Vec<String>))
    ensures
        pairs(r.0@) == env_pairs(text::lines_of(content@)),
        seqs::texts(r.1@) == env_notices(text::lines_of(content@)),
{
    let lines = text::lines(content);
    let ghost all = text::lines_of(content@);
    let mut found: Vec<(String, String)> = Vec::new();
    let mut notices = seqs::no_texts();
    let mut i: usize = 0;
    assert(pairs(found@) =~= env_pairs(all.take(0)));
    while i < lines.len()
        invariant
            i <= lines@.len(),
            all == seqs::texts(lines@),
            pairs(found@) == env_pairs(all.take(i as int)),
            seqs::texts(notices@) == env_notices(all.take(i as int)),
        decreases lines@.len() - i,
    {
        proof {
            assert(all.take(i + 1).drop_last() == all.take(i as int));
            assert(all.take(i + 1).last() == lines@[i as int]@);
        }
        match read_env_entry(&lines[i]) {
            EnvEntry::Nothing => {},
            EnvEntry::InvalidKey(key) => {
                seqs::push_string(
                    &mut notices,
                    "Skipped invalid key in env file: ".to_owned().concat(&key),
                );
            },
            EnvEntry::Reference(key) => {
                seqs::push_string(
                    &mut notices,
                    "Skipped already imported op:// value for key: ".to_owned().concat(&key),
                );
            },
            EnvEntry::Value(key, value) => {
                put_pair(&mut found, key, value);
            },
        }
        i += 1;
    }
    (found, notices)
}

/// Puts a pair behind the others, in place of an earlier one with its key.
fn put_pair(found: &mut Vec<(String, String)>, key: String, value: String)
    ensures
        pairs(final(found)@) == with_pair(pairs(old(found)@), key@, value@),
{
    let ghost before = pairs(found@);
    let mut i: usize = 0;
    while i < found.len() && !text::same(&found[i].0, &key)
        invariant
            i <= found@.len(),
            before == pairs(found@),
            pair_index(before, key@, 0) == pair_index(before, key@, i as int),
        decreases found@.len() - i,
    {
        assert(before[i as int].0 == found@[i as int].0@);
        i += 1;
    }
    if i < found.len() {
        assert(before[i as int].0 == found@[i as int].0@);
        let _ = found.remove(i);
        assert(pairs(found@) =~= before.remove(i as int));
    }
    let ghost kept = pairs(found@);
    let ghost own = (key@, value@);
    found.push((key, value));
    assert(pairs(found@) =~= kept.push(own));
}

/// Whether no key occurs twice.
pub open spec fn distinct_keys(s: Seq<(Seq<char>, Seq<char>)>) -> bool {
    forall|i: int, j: int| 0 <= i < j < s.len() ==> (#[trigger] s[i]).0 != (#[trigger] s[j]).0
}

/// `pair_index` finds the first pair with the key, where there is one.
pub(crate) proof fn lemma_pair_index(s: Seq<(Seq<char>, Seq<char>)>, key: Seq<char>, from: int)
    requires
        0 <= from,
    ensures
        match pair_index(s, key, from) {
            Some(i) => from <= i < s.len() && s[i].0 == key,
            None => forall|i: int| from <= i < s.len() ==> (#[trigger] s[i]).0 != key,
        },
    decreases s.len() - from,
{
    if from < s.len() && s[from].0 != key {
        lemma_pair_index(s, key, from + 1);
    }
}

/// The value that the last line with a value for `key` gives it.
pub open spec fn last_value(lines: Seq<Seq<char>>, key: Seq<char>) -> Option<Seq<char>>
    decreases lines.len(),
{
    if lines.len() == 0 {
        None
    } else {
        match env_entry(lines.last()) {
            EntryView::Value(k, v) => if k == key {
                Some(v)
            } else {
                last_value(lines.drop_last(), key)
            },
            _ => last_value(lines.drop_last(), key),
        }
    }
}

/// A file gives each key once, with the value of the last line for it.
pub proof fn law_env_pairs_last_wins(lines: Seq<Seq<char>>, key: Seq<char>)
    ensures
        distinct_keys(env_pairs(lines)),
        match last_value(lines, key) {
            Some(v) => env_pairs(lines).contains((key, v)),
            None => forall|i: int| 0 <= i < env_pairs(lines).len() ==> (#[trigger] env_pairs(lines)[i]).0
                != key,
        },
    decreases lines.len(),
{
    if lines.len() > 0 {
        let front = lines.drop_last();
        let before = env_pairs(front);
        law_env_pairs_last_wins(front, key);
        if let EntryView::Value(k, v) = env_entry(lines.last()) {
            let now = env_pairs(lines);
            lemma_pair_index(before, k, 0);
            match pair_index(before, k, 0) {
                Some(at) => {
                    let kept = before.remove(at);
                    assert forall|i: int| 0 <= i < kept.len() implies (#[trigger] kept[i]).0 != k by {
                        let j = if i < at { i } else { i + 1 };
                        assert(kept[i] == before[j]);
                        assert(before[at].0 == k);
                    }
                    assert forall|i: int, j: int| 0 <= i < j < now.len() implies (
                    #[trigger] now[i]).0 != (#[trigger] now[j]).0 by {
                        let a = if i < at { i } else { i + 1 };
                        assert(now[i] == kept[i] && kept[i] == before[a]);
                        if j < kept.len() {
                            let b = if j < at { j } else { j + 1 };
                            assert(now[j] == kept[j] && kept[j] == before[b]);
                        }
                    }
                    if k == key {
                        assert(now[kept.len() as int] == (key, v));
                    } else if let Some(w) = last_value(front, key) {
                        let a = choose|a: int| 0 <= a < before.len() && before[a] == (key, w);
                        let i = if a < at { a } else { a - 1 };
                        assert(now[i] == before[a]);
                    } else {
                        assert forall|i: int| 0 <= i < now.len() implies (#[trigger] now[i]).0
                            != key by {
                            if i < kept.len() {
                                let a = if i < at { i } else { i + 1 };
                                assert(now[i] == before[a]);
                            }
                        }
                    }
                },
                None => {
                    if k == key {
                        assert(now[before.len() as int] == (key, v));
                    } else if let Some(w) = last_value(front, key) {
                        let a = choose|a: int| 0 <= a < before.len() && before[a] == (key, w);
                        assert(now[a] == before[a]);
                    } else {
                        assert forall|i: int| 0 <= i < now.len() implies (#[trigger] now[i]).0
                            != key by {
                            if i < before.len() {
                                assert(now[i] == before[i]);
                            }
                        }
                    }
                },
            }
        }
    }
}

/// How many lines give a variable a plain value that is not empty.
pub open spec fn plaintext_count(lines: Seq<Seq<char>>) -> nat
    decreases lines.len(),
{
    if lines.len() == 0 {
        0
    } else {
        plaintext_count(lines.drop_last()) + (match env_entry(lines.last()) {
            EntryView::Value(_, v) => if v.len() > 0 {
                1nat
            } else {
                0
            },
            _ => 0,
        })
    }
}

/// There are no more plain values than lines.
proof fn lemma_plaintext_count(lines: Seq<Seq<char>>)
    ensures
        plaintext_count(lines) <= lines.len(),
    decreases lines.len(),
{
    if lines.len() > 0 {
        lemma_plaintext_count(lines.drop_last());
    }
}

/// How many lines of a file give a variable a plain value that is not empty.
pub fn count_plaintext_env_entries(content: &str) -> (r: usize)
    ensures
        r == plaintext_count(text::lines_of(content@)),
{
    let lines = text::lines(content);
    let ghost all = text::lines_of(content@);
    let mut count: usize = 0;
    let mut i: usize = 0;
    while i < lines.len()
        invariant
            i <= lines@.len(),
            all == seqs::texts(lines@),
            count == plaintext_count(all.take(i as int)),
            count <= i,
        decreases lines@.len() - i,
    {
        proof {
            assert(all.take(i + 1).drop_last() == all.take(i as int));
            assert(all.take(i + 1).last() == lines@[i as int]@);
        }
        if let EnvEntry::Value(_, value) = read_env_entry(&lines[i]) {
            if value.as_str().unicode_len() > 0 {
                count += 1;
            }
        }
        i += 1;
    }
    count
}

/// The last of the lines with the key.
pub open spec fn newest(lines: Seq<Seq<char>>, key: Seq<char>) -> Option<Seq<char>>
    decreases lines.len(),
{
    if lines.len() == 0 {
        None
    } else if env_key(lines.last()) == Some(key) {
        Some(lines.last())
    } else {
        newest(lines.drop_last(), key)
    }
}

/// What becomes of a line that a file has already: the new line for its key, where there is one.
pub open spec fn rewritten_line(line: Seq<char>, new: Seq<Seq<char>>) -> Seq<char> {
    match env_key(line) {
        Some(key) => match newest(new, key) {
            Some(replacement) => replacement,
            None => line,
        },
        None => line,
    }
}

/// Whether one of the lines has the key.
pub open spec fn key_present(lines: Seq<Seq<char>>, key: Seq<char>) -> bool {
    exists|i: int| 0 <= i < lines.len() && env_key(#[trigger] lines[i]) == Some(key)
}

/// The new lines whose keys the file does not have.
pub open spec fn appended(old_lines: Seq<Seq<char>>, new: Seq<Seq<char>>) -> Seq<Seq<char>>
    decreases new.len(),
{
    if new.len() == 0 {
        Seq::empty()
    } else {
        let before = appended(old_lines, new.drop_last());
        match env_key(new.last()) {
            Some(key) => if key_present(old_lines, key) {
                before
            } else {
                before.push(new.last())
            },
            None => before,
        }
    }
}

/// The lines of a file after a merge: each old line in its place, with its new value where its key
/// has one, and behind them the new lines for other keys.
pub open spec fn merged_lines(old_lines: Seq<Seq<char>>, new: Seq<Seq<char>>) -> Seq<Seq<char>> {
    Seq::new(old_lines.len(), |i: int| rewritten_line(old_lines[i], new)) + appended(old_lines, new)
}

/// The last of the lines with the key.
fn find_newest<'a>(lines: &'a [String], key: &str) -> (r: Option<&'a String>)
    ensures
        match r {
            Some(line) => newest(seqs::texts(lines@), key@) == Some(line@),
            None => newest(seqs::texts(lines@), key@) is None,
        },
{
    let ghost all = seqs::texts(lines@);
    let mut n: usize = lines.len();
    while n > 0
        invariant
            n <= lines@.len(),
            all == seqs::texts(lines@),
            newest(all, key@) == newest(all.take(n as int), key@),
        decreases n,
    {
        proof {
            assert(all.take(n as int).drop_last() == all.take(n - 1));
            assert(all.take(n as int).last() == lines@[n - 1]@);
        }
        if let Some(own) = parse_env_key(&lines[n - 1]) {
            if text::same(own, key) {
                return Some(&lines[n - 1]);
            }
        }
        n -= 1;
    }
    None
}

/// Whether one of the lines has the key.
fn find_key(lines: &[String], key: &str) -> (r: bool)
    ensures
        r == key_present(seqs::texts(lines@), key@),
{
    let ghost all = seqs::texts(lines@);
    let mut i: usize = 0;
    while i < lines.len()
        invariant
            i <= lines@.len(),
            all == seqs::texts(lines@),
            forall|j: int| 0 <= j < i ==> env_key(#[trigger] all[j]) != Some(key@),
        decreases lines@.len() - i,
    {
        assert(all[i as int] == lines@[i as int]@);
        if let Some(own) = parse_env_key(&lines[i]) {
            if text::same(own, key) {
                assert(env_key(all[i as int]) == Some(key@));
                return true;
            }
        }
        i += 1;
    }
    false
}

/// The lines of a file after a merge.
fn merge_lines(old_lines: &[String], new: &[String]) -> (r: Vec<String>)
    ensures
        seqs::texts(r@) == merged_lines(seqs::texts(old_lines@), seqs::texts(new@)),
{
    let ghost had = seqs::texts(old_lines@);
    let ghost fresh = seqs::texts(new@);
    let mut r = seqs::no_texts();
    let mut i: usize = 0;
    while i < old_lines.len()
        invariant
            i <= old_lines@.len(),
            had == seqs::texts(old_lines@),
            fresh == seqs::texts(new@),
            seqs::texts(r@).len() == i,
            forall|j: int|
                0 <= j < i ==> #[trigger] seqs::texts(r@)[j] == rewritten_line(had[j], fresh),
        decreases old_lines@.len() - i,
    {
        assert(had[i as int] == old_lines@[i as int]@);
        let replacement = match parse_env_key(&old_lines[i]) {
            Some(key) => find_newest(new, key),
            None => None,
        };
        match replacement {
            Some(line) => seqs::push_text(&mut r, line),
            None => seqs::push_text(&mut r, &old_lines[i]),
        }
        i += 1;
    }
    let ghost front = Seq::new(had.len(), |i: int| rewritten_line(had[i], fresh));
    assert(seqs::texts(r@) =~= front + appended(had, fresh.take(0)));
    let mut k: usize = 0;
    while k < new.len()
        invariant
            k <= new@.len(),
            had == seqs::texts(old_lines@),
            fresh == seqs::texts(new@),
            seqs::texts(r@) == front + appended(had, fresh.take(k as int)),
        decreases new@.len() - k,
    {
        proof {
            assert(fresh.take(k + 1).drop_last() == fresh.take(k as int));
            assert(fresh.take(k + 1).last() == new@[k as int]@);
        }
        let ghost before = appended(had, fresh.take(k as int));
        if let Some(key) = parse_env_key(&new[k]) {
            if !find_key(old_lines, key) {
                seqs::push_text(&mut r, &new[k]);
                assert(seqs::texts(r@) =~= front + before.push(fresh[k as int]));
            }
        }
        k += 1;
    }
    r
}

/// The lines that a file has; none where there is no file.
pub open spec fn existing_lines(existing: Option<Seq<char>>) -> Seq<Seq<char>> {
    match existing {
        Some(content) => text::lines_of(content),
        None => Seq::empty(),
    }
}

/// The content of an environment file after new lines were merged into what it held.
pub fn merge_env_file(existing: Option<&str>, new_lines: &[String]) -> (r: String)
    ensures
        r@ == text::lined(
            merged_lines(existing_lines(existing.deep_view()), seqs::texts(new_lines@)),
        ),
{
    let lines = match existing {
        Some(content) => text::lines(content),
        None => seqs::no_texts(),
    };
    text::render_lines(&merge_lines(&lines, new_lines))
}

/// A merge keeps every old line whose key has no new line, blank lines and comments among them,
/// in its place.
pub proof fn law_merge_keeps_other_lines(old_lines: Seq<Seq<char>>, new: Seq<Seq<char>>, i: int)
    requires
        0 <= i < old_lines.len(),
        env_key(old_lines[i]) is None || newest(new, env_key(old_lines[i])->0) is None,
    ensures
        merged_lines(old_lines, new)[i] == old_lines[i],
{
}

/// `newest` finds a line with the key, and finds one whenever there is one.
proof fn lemma_newest(lines: Seq<Seq<char>>, key: Seq<char>)
    ensures
        match newest(lines, key) {
            Some(line) => lines.contains(line) && env_key(line) == Some(key),
            None => !key_present(lines, key),
        },
    decreases lines.len(),
{
    if lines.len() > 0 {
        let front = lines.drop_last();
        if env_key(lines.last()) == Some(key) {
            assert(lines[lines.len() - 1] == lines.last());
        } else {
            lemma_newest(front, key);
            match newest(front, key) {
                Some(line) => {
                    let i = choose|i: int| 0 <= i < front.len() && front[i] == line;
                    assert(lines[i] == line);
                },
                None => {
                    if key_present(lines, key) {
                        let i = choose|i: int|
                            0 <= i < lines.len() && env_key(#[trigger] lines[i]) == Some(key);
                        assert(front[i] == lines[i]);
                    }
                },
            }
        }
    }
}

/// What is appended are new lines, and every new line for a key that the file lacks is appended.
proof fn lemma_appended(old_lines: Seq<Seq<char>>, new: Seq<Seq<char>>, line: Seq<char>)
    ensures
        appended(old_lines, new).contains(line) <==> (new.contains(line) && env_key(line) is Some
            && !key_present(old_lines, env_key(line)->0)),
    decreases new.len(),
{
    if new.len() > 0 {
        let front = new.drop_last();
        let before = appended(old_lines, front);
        let now = appended(old_lines, new);
        lemma_appended(old_lines, front, line);
        let adds = env_key(new.last()) is Some && !key_present(old_lines, env_key(new.last())->0);
        if new.contains(line) && !front.contains(line) {
            let i = choose|i: int| 0 <= i < new.len() && new[i] == line;
            if i < front.len() {
                assert(front[i] == line);
            }
            assert(line == new.last());
        }
        if front.contains(line) {
            let i = choose|i: int| 0 <= i < front.len() && front[i] == line;
            assert(new[i] == line);
        }
        assert(new[new.len() - 1] == new.last());
        if adds {
            assert(now == before.push(new.last()));
            if before.contains(line) {
                let i = choose|i: int| 0 <= i < before.len() && before[i] == line;
                assert(now[i] == line);
            }
            assert(now[before.len() as int] == new.last());
            if now.contains(line) && !before.contains(line) {
                let i = choose|i: int| 0 <= i < now.len() && now[i] == line;
                if i < before.len() {
                    assert(before[i] == line);
                }
            }
        }
    }
}

/// After a merge the file gives every new key a line of the new lines, and no line of the file
/// that had a new key keeps its old value.
pub proof fn law_merge_takes_new_keys(old_lines: Seq<Seq<char>>, new: Seq<Seq<char>>, key: Seq<char>)
    requires
        key_present(new, key),
    ensures
        exists|i: int|
            0 <= i < merged_lines(old_lines, new).len() && env_key(
                #[trigger] merged_lines(old_lines, new)[i],
            ) == Some(key) && new.contains(merged_lines(old_lines, new)[i]),
        forall|i: int|
            0 <= i < old_lines.len() && env_key(#[trigger] old_lines[i]) == Some(key)
                ==> newest(new, key) == Some(merged_lines(old_lines, new)[i]),
{
    let all = merged_lines(old_lines, new);
    lemma_newest(new, key);
    let line = newest(new, key)->0;
    if key_present(old_lines, key) {
        let i = choose|i: int|
            0 <= i < old_lines.len() && env_key(#[trigger] old_lines[i]) == Some(key);
        assert(all[i] == line);
    } else {
        lemma_appended(old_lines, new, line);
        let tail = appended(old_lines, new);
        let i = choose|i: int| 0 <= i < tail.len() && tail[i] == line;
        assert(all[old_lines.len() + i] == line);
    }
}

/// Whether no two of the lines have the same key.
pub open spec fn one_line_per_key(lines: Seq<Seq<char>>) -> bool {
    forall|i: int, j: int|
        0 <= i < j < lines.len() && env_key(#[trigger] lines[i]) is Some ==> env_key(
            #[trigger] lines[j],
        ) != env_key(lines[i])
}

/// New lines, none of which the file lacks, are not appended.
proof fn lemma_nothing_appended(old_lines: Seq<Seq<char>>, new: Seq<Seq<char>>)
    requires
        forall|i: int|
            0 <= i < new.len() && env_key(#[trigger] new[i]) is Some ==> key_present(
                old_lines,
                env_key(new[i])->0,
            ),
    ensures
        appended(old_lines, new) == Seq::<Seq<char>>::empty(),
    decreases new.len(),
{
    if new.len() > 0 {
        let front = new.drop_last();
        assert forall|i: int| 0 <= i < front.len() && env_key(#[trigger] front[i]) is Some implies
            key_present(old_lines, env_key(front[i])->0) by {
            assert(front[i] == new[i]);
        }
        lemma_nothing_appended(old_lines, front);
        assert(new[new.len() - 1] == new.last());
    }
}

/// Merging the same lines, whose keys are different, once more changes nothing.
pub proof fn law_merge_lines_twice(old_lines: Seq<Seq<char>>, new: Seq<Seq<char>>)
    requires
        one_line_per_key(new),
    ensures
        merged_lines(merged_lines(old_lines, new), new) == merged_lines(old_lines, new),
{
    let all = merged_lines(old_lines, new);
    let tail = appended(old_lines, new);
    assert forall|i: int| 0 <= i < new.len() && env_key(#[trigger] new[i]) is Some implies
        key_present(all, env_key(new[i])->0) by {
        let key = env_key(new[i])->0;
        assert(key_present(new, key));
        law_merge_takes_new_keys(old_lines, new, key);
        let at = choose|at: int|
            0 <= at < all.len() && env_key(#[trigger] all[at]) == Some(key) && new.contains(all[at]);
        assert(env_key(all[at]) == Some(key));
    }
    lemma_nothing_appended(all, new);
    assert forall|i: int| 0 <= i < all.len() implies rewritten_line(#[trigger] all[i], new)
        == all[i] by {
        if let Some(key) = env_key(all[i]) {
            lemma_newest(new, key);
            if i < old_lines.len() {
                if let Some(own) = env_key(old_lines[i]) {
                    lemma_newest(new, own);
                }
            } else {
                let line = all[i];
                assert(line == tail[i - old_lines.len()]);
                assert(tail.contains(line));
                lemma_appended(old_lines, new, line);
                let a = choose|a: int| 0 <= a < new.len() && new[a] == line;
                assert(env_key(new[a]) == Some(key));
                assert(key_present(new, key));
                let b = choose|b: int| 0 <= b < new.len() && new[b] == newest(new, key)->0;
                assert(env_key(new[b]) == Some(key));
                if a < b {
                    assert(env_key(new[b]) != env_key(new[a]));
                } else if b < a {
                    assert(env_key(new[a]) != env_key(new[b]));
                }
            }
        }
    }
    assert(merged_lines(all, new) =~= all);
}

/// Whether `s` holds neither a line feed nor a carriage return.
pub open spec fn is_one_line(s: Seq<char>) -> bool {
    !s.contains('\n') && !s.contains('\r')
}

/// The lines of a text without carriage returns hold no line breaks.
proof fn lemma_lines_single(s: Seq<char>)
    requires
        !s.contains('\r'),
    ensures
        forall|i: int|
            0 <= i < text::lines_of(s).len() ==> is_one_line(#[trigger] text::lines_of(s)[i]),
{
    let set = seq!['\n'];
    assert(set[0] == '\n');
    let parts = text::pieces(s, set);
    let all = text::lines_of(s);
    text::lemma_pieces_nonempty(s, set);
    assert forall|i: int| 0 <= i < all.len() implies is_one_line(#[trigger] all[i]) by {
        text::lemma_pieces_chars(s, set, i);
        let part = parts[i];
        assert forall|c: char| part.contains(c) implies c != '\n' && c != '\r' by {
            let k = choose|k: int| 0 <= k < part.len() && part[k] == c;
            assert(s.contains(part[k]) && !set.contains(part[k]));
        }
        if part.len() > 0 {
            assert(part.contains(part.last()));
        }
        assert(all[i] == part);
    }
}

/// Writing the same lines once more into the file that they were merged into leaves it as it is,
/// where their keys are different, they hold no line breaks, and the file held no carriage return.
pub proof fn law_merge_file_twice(existing: Option<Seq<char>>, new: Seq<Seq<char>>)
    requires
        one_line_per_key(new),
        forall|i: int| 0 <= i < new.len() ==> is_one_line(#[trigger] new[i]),
        existing matches Some(content) ==> !content.contains('\r'),
    ensures
        ({
            let content = text::lined(merged_lines(existing_lines(existing), new));
            text::lined(merged_lines(existing_lines(Some(content)), new)) == content
        }),
{
    let had = existing_lines(existing);
    let all = merged_lines(had, new);
    let tail = appended(had, new);
    if let Some(content) = existing {
        lemma_lines_single(content);
    }
    assert forall|i: int| 0 <= i < all.len() implies is_one_line(#[trigger] all[i]) by {
        if i < had.len() {
            assert(is_one_line(had[i]));
            if let Some(key) = env_key(had[i]) {
                lemma_newest(new, key);
                if let Some(line) = newest(new, key) {
                    let k = choose|k: int| 0 <= k < new.len() && new[k] == line;
                    assert(is_one_line(new[k]));
                }
            }
        } else {
            let line = all[i];
            assert(line == tail[i - had.len()]);
            assert(tail.contains(line));
            lemma_appended(had, new, line);
            let k = choose|k: int| 0 <= k < new.len() && new[k] == line;
            assert(is_one_line(new[k]));
        }
    }
    assert forall|i: int| 0 <= i < all.len() implies !(#[trigger] all[i]).contains('\n')
        && !all[i].contains('\r') by {
        assert(is_one_line(all[i]));
    }
    text::lemma_lined_lines(all);
    law_merge_lines_twice(had, new);
}

/// The name of a temporary environment file: of the process, the time and the attempt.
pub fn temp_env_file_name(process: u32, time: &str, attempt: u32) -> (r: String)
    ensures
        r@ == "opz-env-"@ + text::decimal(process as nat) + "-"@ + ids::hex_hash(time@) + "-"@
            + text::decimal(attempt as nat) + ".env"@,
{
    "opz-env-".to_owned().concat(&text::to_decimal(process as u128)).concat("-").concat(
        &ids::stable_hex_hash(time),
    ).concat("-").concat(&text::to_decimal(attempt as u128)).concat(".env")
}

} // verus!
