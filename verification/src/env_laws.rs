//! What holds of the lines of environment files.

use vstd::prelude::*;
use vstd::string::*;

use crate::envfile;
use crate::envfile::{EntryView, Quoting};
use crate::text;
use crate::text_laws;

verus! {

broadcast use crate::seqs::group_seqs;

/// Where nothing begins a comment, none is found.
proof fn lemma_no_comment(s: Seq<char>, from: int)
    requires
        0 <= from,
        forall|i: int| from <= i < s.len() ==> !(#[trigger] envfile::is_comment_start(s, i)),
    ensures
        envfile::comment_start(s, from) is None,
    decreases s.len() - from,
{
    if from < s.len() {
        assert(!envfile::is_comment_start(s, from));
        lemma_no_comment(s, from + 1);
    }
}

/// The first comment is found.
proof fn lemma_first_comment(s: Seq<char>, from: int, at: int)
    requires
        0 <= from <= at,
        envfile::is_comment_start(s, at),
        forall|i: int| from <= i < at ==> !(#[trigger] envfile::is_comment_start(s, i)),
    ensures
        envfile::comment_start(s, from) == Some(at),
    decreases at - from,
{
    if from < at {
        assert(!envfile::is_comment_start(s, from));
        lemma_first_comment(s, from + 1, at);
    }
}

/// Outside quotes, what holds no quotes leaves the reader there.
proof fn lemma_plain_stays(s: Seq<char>)
    requires
        !s.contains('"'),
        !s.contains('\''),
    ensures
        envfile::quoting(s) == Quoting::Plain,
    decreases s.len(),
{
    if s.len() > 0 {
        let front = s.drop_last();
        assert(s.contains(s[s.len() - 1]));
        assert(!front.contains('"') && !front.contains('\'')) by {
            if front.contains('"') {
                let k = choose|k: int| 0 <= k < front.len() && front[k] == '"';
                assert(s[k] == '"');
            }
            if front.contains('\'') {
                let k = choose|k: int| 0 <= k < front.len() && front[k] == '\'';
                assert(s[k] == '\'');
            }
        }
        lemma_plain_stays(front);
    }
}

/// The quoting inside quotes of the kind `q`.
spec fn inside(q: char) -> Quoting {
    if q == '"' {
        Quoting::Double
    } else {
        Quoting::Single
    }
}

/// Whether `v` can stand between quotes of the kind `q` without an end or an escape in it.
pub open spec fn is_unbroken(v: Seq<char>, q: char) -> bool {
    !v.contains(q) && (q == '"' ==> !v.contains('\\'))
}

/// Behind white space, a quote and what does not end it the reader stands inside the quotes.
proof fn lemma_quoting_inside(before: Seq<char>, q: char, v: Seq<char>)
    requires
        text_laws::all_white(before),
        q == '"' || q == '\'',
        is_unbroken(v, q),
    ensures
        envfile::quoting(before) == Quoting::Plain,
        envfile::quoting(before + seq![q] + v) == inside(q),
    decreases v.len(),
{
    assert(!before.contains('"') && !before.contains('\'')) by {
        if before.contains('"') {
            let k = choose|k: int| 0 <= k < before.len() && before[k] == '"';
            assert(text::is_white(before[k]));
        }
        if before.contains('\'') {
            let k = choose|k: int| 0 <= k < before.len() && before[k] == '\'';
            assert(text::is_white(before[k]));
        }
    }
    lemma_plain_stays(before);
    let s = before + seq![q] + v;
    if v.len() == 0 {
        assert(s.drop_last() =~= before);
        assert(s.last() == q);
    } else {
        let front = v.drop_last();
        assert(v.contains(v[v.len() - 1]));
        assert(is_unbroken(front, q)) by {
            if front.contains(q) {
                let k = choose|k: int| 0 <= k < front.len() && front[k] == q;
                assert(v[k] == q);
            }
            if front.contains('\\') {
                let k = choose|k: int| 0 <= k < front.len() && front[k] == '\\';
                assert(v[k] == '\\');
            }
        }
        lemma_quoting_inside(before, q, front);
        assert(s.drop_last() =~= before + seq![q] + front);
        assert(s.last() == v.last());
    }
}

/// Behind quotes that were closed the reader stands outside, through what holds no quotes.
proof fn lemma_quoting_closed(before: Seq<char>, q: char, v: Seq<char>, more: Seq<char>)
    requires
        text_laws::all_white(before),
        q == '"' || q == '\'',
        is_unbroken(v, q),
        text_laws::all_white(more),
    ensures
        envfile::quoting(before + seq![q] + v + seq![q] + more) == Quoting::Plain,
    decreases more.len(),
{
    let s = before + seq![q] + v + seq![q] + more;
    if more.len() == 0 {
        assert(s.drop_last() =~= before + seq![q] + v);
        assert(s.last() == q);
        lemma_quoting_inside(before, q, v);
    } else {
        let less = more.drop_last();
        assert forall|i: int| 0 <= i < less.len() implies text::is_white(#[trigger] less[i]) by {
            assert(less[i] == more[i]);
        }
        assert(text::is_white(more[more.len() - 1]));
        lemma_quoting_closed(before, q, v, less);
        assert(s.drop_last() =~= before + seq![q] + v + seq![q] + less);
        assert(s.last() == more.last());
    }
}

/// Whether `v` holds no hash at its start or behind white space.
pub open spec fn has_no_comment(v: Seq<char>) -> bool {
    forall|i: int| 0 <= i < v.len() && #[trigger] v[i] == '#' ==> i > 0 && !text::is_white(v[i - 1])
}

/// Whether `v` stands between two quotes of one kind.
pub open spec fn is_enclosed(v: Seq<char>) -> bool {
    v.len() >= 2 && (v[0] == '"' && v.last() == '"' || v[0] == '\'' && v.last() == '\'')
}

/// A value without quotes around it is kept as it is, whatever characters it holds; only white
/// space around it goes. Left out are a hash at its start or behind white space, which begins a
/// comment.
pub proof fn law_bare_value(before: Seq<char>, v: Seq<char>, behind: Seq<char>)
    requires
        text_laws::all_white(before),
        text_laws::all_white(behind),
        text_laws::is_tight(v),
        has_no_comment(v),
        !is_enclosed(v),
    ensures
        envfile::env_value(before + v + behind) == v,
{
    let s = before + v + behind;
    assert forall|i: int| 0 <= i < s.len() implies !(#[trigger] envfile::is_comment_start(s, i)) by {
        if s[i] == '#' {
            if i < before.len() {
                assert(text::is_white(before[i]));
            } else if i < before.len() + v.len() {
                let k = i - before.len();
                assert(v[k] == '#');
                assert(s[i - 1] == v[k - 1]);
            } else {
                assert(text::is_white(behind[i - before.len() - v.len()]));
            }
        }
    }
    lemma_no_comment(s, 0);
    text_laws::law_trimmed(before, v, behind);
}

/// A value between quotes is what stands between them, with all its white space; a hash in it
/// begins no comment, where neither a quote nor an escape stands before it.
pub proof fn law_quoted_value(before: Seq<char>, q: char, v: Seq<char>, behind: Seq<char>)
    requires
        text_laws::all_white(before),
        text_laws::all_white(behind),
        q == '"' || q == '\'',
        !v.contains('#') || is_unbroken(v, q),
    ensures
        envfile::env_value(before + (seq![q] + v + seq![q]) + behind) == v,
{
    let own = seq![q] + v + seq![q];
    let s = before + own + behind;
    let n = before.len();
    assert forall|i: int| 0 <= i < s.len() implies !(#[trigger] envfile::is_comment_start(s, i)) by {
        if s[i] == '#' {
            if i < n {
                assert(text::is_white(before[i]));
            } else if i < n + own.len() {
                let k = i - n;
                assert(own[k] == '#');
                assert(v[k - 1] == '#');
                assert(v.contains('#'));
                let front = v.take(k - 1);
                assert(is_unbroken(front, q)) by {
                    if front.contains(q) {
                        let j = choose|j: int| 0 <= j < front.len() && front[j] == q;
                        assert(v[j] == q);
                    }
                    if front.contains('\\') {
                        let j = choose|j: int| 0 <= j < front.len() && front[j] == '\\';
                        assert(v[j] == '\\');
                    }
                }
                lemma_quoting_inside(before, q, front);
                assert(s.take(i) =~= before + seq![q] + front);
            } else {
                assert(text::is_white(behind[i - n - own.len()]));
            }
        }
    }
    lemma_no_comment(s, 0);
    text_laws::law_trimmed(before, own, behind);
    assert(own[0] == q && own.last() == q);
    assert(own.subrange(1, own.len() - 1) =~= v);
}

/// A comment behind a value and white space goes, with the white space.
pub proof fn law_comment_dropped(before: Seq<char>, v: Seq<char>, gap: Seq<char>, comment: Seq<char>)
    requires
        text_laws::all_white(before),
        text_laws::all_white(gap),
        gap.len() > 0,
        text_laws::is_tight(v),
        has_no_comment(v),
        !v.contains('"'),
        !v.contains('\''),
    ensures
        envfile::env_value(before + v + gap + seq!['#'] + comment) == v,
{
    let head = before + v + gap;
    let s = head + seq!['#'] + comment;
    let n = head.len() as int;
    assert(s[n] == '#');
    assert(s[n - 1] == gap[gap.len() - 1]);
    assert(s.take(n) =~= head);
    assert(!head.contains('"') && !head.contains('\'')) by {
        if head.contains('"') || head.contains('\'') {
            let k = if head.contains('"') {
                choose|k: int| 0 <= k < head.len() && head[k] == '"'
            } else {
                choose|k: int| 0 <= k < head.len() && head[k] == '\''
            };
            if k < before.len() {
                assert(text::is_white(before[k]));
            } else if k < before.len() + v.len() {
                assert(v[k - before.len()] == head[k]);
            } else {
                assert(text::is_white(gap[k - before.len() - v.len()]));
            }
        }
    }
    lemma_plain_stays(head);
    assert(envfile::is_comment_start(s, n));
    assert forall|i: int| 0 <= i < n implies !(#[trigger] envfile::is_comment_start(s, i)) by {
        if s[i] == '#' {
            if i < before.len() {
                assert(text::is_white(before[i]));
            } else if i < before.len() + v.len() {
                let k = i - before.len();
                assert(v[k] == '#');
                assert(s[i - 1] == v[k - 1]);
            } else {
                assert(text::is_white(gap[i - before.len() - v.len()]));
            }
        }
    }
    lemma_first_comment(s, 0, n);
    assert(s.subrange(0, n) =~= head);
    lemma_end_then_all(before, v, gap);
    assert(!is_enclosed(v)) by {
        if is_enclosed(v) {
            assert(v.contains(v[0]));
        }
    }
}

/// A comment behind a quoted value and white space goes, with the white space.
pub proof fn law_comment_dropped_behind_quotes(
    before: Seq<char>,
    q: char,
    v: Seq<char>,
    gap: Seq<char>,
    comment: Seq<char>,
)
    requires
        text_laws::all_white(before),
        text_laws::all_white(gap),
        gap.len() > 0,
        q == '"' || q == '\'',
        is_unbroken(v, q),
    ensures
        envfile::env_value(before + (seq![q] + v + seq![q]) + gap + seq!['#'] + comment) == v,
{
    let own = seq![q] + v + seq![q];
    let head = before + own + gap;
    let s = head + seq!['#'] + comment;
    let n = head.len() as int;
    assert(s[n] == '#');
    assert(s[n - 1] == gap[gap.len() - 1]);
    assert(s.take(n) =~= before + seq![q] + v + seq![q] + gap);
    lemma_quoting_closed(before, q, v, gap);
    assert(envfile::is_comment_start(s, n));
    assert forall|i: int| 0 <= i < n implies !(#[trigger] envfile::is_comment_start(s, i)) by {
        if s[i] == '#' {
            if i < before.len() {
                assert(text::is_white(before[i]));
            } else if i < before.len() + own.len() {
                let k = i - before.len();
                assert(own[k] == '#');
                let front = v.take(k - 1);
                assert(is_unbroken(front, q)) by {
                    if front.contains(q) {
                        let j = choose|j: int| 0 <= j < front.len() && front[j] == q;
                        assert(v[j] == q);
                    }
                    if front.contains('\\') {
                        let j = choose|j: int| 0 <= j < front.len() && front[j] == '\\';
                        assert(v[j] == '\\');
                    }
                }
                lemma_quoting_inside(before, q, front);
                assert(s.take(i) =~= before + seq![q] + front);
            } else {
                assert(text::is_white(gap[i - before.len() - own.len()]));
            }
        }
    }
    lemma_first_comment(s, 0, n);
    assert(s.subrange(0, n) =~= head);
    assert(own[0] == q && own.last() == q);
    lemma_end_then_all(before, own, gap);
    assert(own.subrange(1, own.len() - 1) =~= v);
}

/// Trimming the end first makes no difference.
proof fn lemma_end_then_all(before: Seq<char>, v: Seq<char>, gap: Seq<char>)
    requires
        text_laws::all_white(before),
        text_laws::all_white(gap),
        text_laws::is_tight(v),
    ensures
        text::trimmed(text::trimmed_end(before + v + gap)) == v,
{
    let none = Seq::<char>::empty();
    if v.len() > 0 {
        let s = before + v;
        assert(s.last() == v.last());
        text_laws::law_trimmed_end(s, gap);
        assert(s =~= s + none);
        text_laws::law_trimmed(before, v, none);
    } else {
        let all = before + v + gap;
        assert forall|i: int| 0 <= i < all.len() implies text::is_white(#[trigger] all[i]) by {
            if i < before.len() {
                assert(all[i] == before[i]);
            } else {
                assert(all[i] == gap[i - before.len()]);
            }
        }
        assert(all =~= none + all);
        text_laws::law_trimmed_end(none, all);
        assert(v =~= none);
        assert(none =~= none + none + none);
        text_laws::law_trimmed(none, none, none);
    }
}

/// Whether `name` is the name of a variable: ASCII letters, digits and underscores, with no digit
/// first.
pub open spec fn is_variable_name(name: Seq<char>) -> bool {
    &&& name.len() > 0
    &&& !('0' <= name[0] <= '9')
    &&& forall|i: int|
        0 <= i < name.len() ==> 'a' <= #[trigger] name[i] <= 'z' || 'A' <= name[i] <= 'Z' || '0'
            <= name[i] <= '9' || name[i] == '_'
}

/// What a name, an equals sign and a value say, with or without `export` before them.
proof fn lemma_assignment(exported: Seq<char>, name: Seq<char>, gap: Seq<char>, raw: Seq<char>)
    requires
        is_variable_name(name),
        text_laws::all_white(gap),
        text_laws::all_white(exported),
        exported.len() == 0 ==> name != "export"@ || gap.len() == 0,
    ensures
        ({
            let own = name + gap + seq!['='] + raw;
            let line = if exported.len() > 0 {
                "export"@ + exported + own
            } else {
                own
            };
            &&& envfile::unexported(line) == own
            &&& text::parted(own, "="@) == Some((name + gap, raw))
            &&& text::trimmed(name + gap) == name
            &&& !text::is_white(line[0])
            &&& line[0] != '#'
            &&& line.len() > 0
            &&& crate::pattern::is_name(name)
        }),
{
    reveal_strlit("export");
    reveal_strlit("=");
    assert("="@ =~= seq!['=']);
    let own = name + gap + seq!['='] + raw;
    assert forall|i: int| 0 <= i < name.len() implies crate::pattern::is_name_char(
        #[trigger] name[i],
    ) && !text::is_white(name[i]) by {
        assert('a' <= name[i] <= 'z' || 'A' <= name[i] <= 'Z' || '0' <= name[i] <= '9' || name[i]
            == '_');
    }
    assert(own[0] == name[0]);
    let left = name + gap;
    assert(!left.contains('=')) by {
        if left.contains('=') {
            let k = choose|k: int| 0 <= k < left.len() && left[k] == '=';
            if k < name.len() {
                assert(name[k] == '=');
            } else {
                assert(text::is_white(gap[k - name.len()]));
            }
        }
    }
    text_laws::law_parted_by(left, seq!['='], raw);
    let none = Seq::<char>::empty();
    assert(!text::is_white(name[name.len() - 1]));
    assert(left =~= none + name + gap);
    text_laws::law_trimmed(none, name, gap);
    let word = "export"@;
    if exported.len() > 0 {
        let line = word + exported + own;
        assert(line.subrange(0, 6) =~= word);
        let rest = line.subrange(6, line.len() as int);
        assert(rest =~= exported + own);
        assert(rest[0] == exported[0]);
        text_laws::law_trimmed_start(exported, own);
        assert(line[0] == word[0]);
    } else if text::begins(own, word) {
        let rest = own.subrange(6, own.len() as int);
        assert(own.subrange(0, 6) == word);
        assert forall|i: int| 0 <= i < 6 implies #[trigger] own[i] == word[i] by {
            assert(own.subrange(0, 6)[i] == own[i]);
        }
        let n = name.len() as int;
        if n < 6 {
            if gap.len() > 0 {
                assert(own[n] == gap[0]);
                assert(text::is_white(gap[0]));
            } else {
                assert(own[n] == '=');
            }
            assert(false);
        } else if n == 6 {
            assert(name =~= word);
            assert(own[6] == '=');
        } else {
            assert(own[6] == name[6]);
        }
        assert(!text::is_white(rest[0]));
    }
}

/// A line with a name, an equals sign and a value gives the name the value, with or without
/// `export` and white space around each of them. Only a value that refers to a secret is passed
/// over. Left out is a variable `export` with white space behind it, which is read as the word.
pub proof fn law_assignment_read(
    before: Seq<char>,
    exported: Seq<char>,
    name: Seq<char>,
    gap: Seq<char>,
    raw: Seq<char>,
    behind: Seq<char>,
)
    requires
        is_variable_name(name),
        text_laws::all_white(before),
        text_laws::all_white(exported),
        text_laws::all_white(gap),
        text_laws::all_white(behind),
        raw.len() > 0 ==> !text::is_white(raw.last()),
        exported.len() == 0 ==> name != "export"@ || gap.len() == 0,
    ensures
        ({
            let own = name + gap + seq!['='] + raw;
            let line = if exported.len() > 0 {
                "export"@ + exported + own
            } else {
                own
            };
            let value = envfile::env_value(raw);
            envfile::env_entry(before + line + behind) == (if value.len() >= 5 && value.subrange(
                0,
                5,
            ) == "op://"@ {
                EntryView::Reference(name)
            } else {
                EntryView::Value(name, value)
            })
        }),
{
    reveal_strlit("#");
    reveal_strlit("op://");
    let own = name + gap + seq!['='] + raw;
    let line = if exported.len() > 0 {
        "export"@ + exported + own
    } else {
        own
    };
    lemma_assignment(exported, name, gap, raw);
    assert(line.last() == own.last());
    if raw.len() > 0 {
        assert(own.last() == raw.last());
    } else {
        assert(own.last() == '=');
    }
    text_laws::law_trimmed(before, line, behind);
    if text::begins(line, "#"@) {
        assert(line.subrange(0, 1)[0] == line[0]);
    }
}

/// A name, an equals sign and a value without white space, hash and quotes are read as they stand,
/// but for references.
pub proof fn law_plain_assignment(name: Seq<char>, v: Seq<char>)
    requires
        is_variable_name(name),
        forall|i: int|
            0 <= i < v.len() ==> !text::is_white(#[trigger] v[i]) && v[i] != '#' && v[i] != '"'
                && v[i] != '\'',
    ensures
        envfile::env_value(v) == v,
        envfile::env_entry(name + "="@ + v) == (if v.len() >= 5 && v.subrange(0, 5) == "op://"@ {
            EntryView::Reference(name)
        } else {
            EntryView::Value(name, v)
        }),
{
    reveal_strlit("=");
    assert("="@ =~= seq!['=']);
    let none = Seq::<char>::empty();
    assert(none + v + none =~= v);
    law_bare_value(none, v, none);
    let own = name + none + seq!['='] + v;
    assert(name + "="@ + v =~= own);
    assert(none + own + none =~= own);
    law_assignment_read(none, none, name, none, v, none);
}

/// A blank line, and one whose first character is a hash, says nothing.
pub proof fn law_comment_line(before: Seq<char>, comment: Seq<char>)
    requires
        text_laws::all_white(before),
    ensures
        envfile::env_entry(before) == EntryView::Nothing,
        envfile::env_entry(before + seq!['#'] + comment) == EntryView::Nothing,
{
    reveal_strlit("#");
    let none = Seq::<char>::empty();
    assert(before =~= before + none + none);
    text_laws::law_trimmed(before, none, none);
    let own = seq!['#'] + comment;
    assert(before + seq!['#'] + comment =~= before + own);
    text_laws::law_trimmed_start(before, own);
    lemma_end_kept(own);
    let t = text::trimmed_end(own);
    assert(t.subrange(0, 1) =~= "#"@);
}

/// Trimming its end keeps the first character of a text that is not white space.
proof fn lemma_end_kept(s: Seq<char>)
    requires
        s.len() > 0,
        !text::is_white(s[0]),
    ensures
        text::trimmed_end(s).len() > 0,
        text::trimmed_end(s)[0] == s[0],
    decreases s.len(),
{
    if text::is_white(s.last()) {
        assert(s.len() > 1);
        lemma_end_kept(s.drop_last());
    }
}

/// Behind the last line for a key nothing changes its value.
proof fn lemma_last_value(lines: Seq<Seq<char>>, i: int, key: Seq<char>, value: Seq<char>)
    requires
        0 <= i < lines.len(),
        envfile::env_entry(lines[i]) == EntryView::Value(key, value),
        forall|k: int|
            i < k < lines.len() ==> (envfile::env_entry(#[trigger] lines[k]) matches EntryView::Value(
                other,
                _,
            ) ==> other != key),
    ensures
        envfile::last_value(lines, key) == Some(value),
    decreases lines.len(),
{
    let n = lines.len() as int;
    if i < n - 1 {
        let front = lines.drop_last();
        assert(lines.last() == lines[n - 1]);
        assert forall|k: int| i < k < front.len() implies (envfile::env_entry(
            #[trigger] front[k],
        ) matches EntryView::Value(other, _) ==> other != key) by {
            assert(front[k] == lines[k]);
        }
        assert(front[i] == lines[i]);
        lemma_last_value(front, i, key, value);
    }
}

/// A line that gives a key a value is heard, unless a later one gives the key another.
pub proof fn law_value_heard(lines: Seq<Seq<char>>, i: int, key: Seq<char>, value: Seq<char>)
    requires
        0 <= i < lines.len(),
        envfile::env_entry(lines[i]) == EntryView::Value(key, value),
        forall|k: int|
            i < k < lines.len() ==> (envfile::env_entry(#[trigger] lines[k]) matches EntryView::Value(
                other,
                _,
            ) ==> other != key),
    ensures
        envfile::env_pairs(lines).contains((key, value)),
{
    lemma_last_value(lines, i, key, value);
    envfile::law_env_pairs_last_wins(lines, key);
}

/// Each pair comes from a line, and no key has two of them. The line is given back.
pub proof fn law_pair_from_line(lines: Seq<Seq<char>>, j: int) -> (i: int)
    requires
        0 <= j < envfile::env_pairs(lines).len(),
    ensures
        0 <= i < lines.len(),
        envfile::env_entry(lines[i]) == EntryView::Value(
            envfile::env_pairs(lines)[j].0,
            envfile::env_pairs(lines)[j].1,
        ),
        forall|k: int|
            0 <= k < envfile::env_pairs(lines).len() && k != j ==> (#[trigger] envfile::env_pairs(
                lines,
            )[k]).0 != envfile::env_pairs(lines)[j].0,
    decreases lines.len(),
{
    let all = envfile::env_pairs(lines);
    let n = lines.len() as int;
    envfile::law_env_pairs_last_wins(lines, all[j].0);
    assert forall|k: int| 0 <= k < all.len() && k != j implies (#[trigger] all[k]).0 != all[j].0 by {
        if k < j {
            assert(all[k].0 != all[j].0);
        } else {
            assert(all[j].0 != all[k].0);
        }
    }
    let front = lines.drop_last();
    let before = envfile::env_pairs(front);
    assert(lines.last() == lines[n - 1]);
    match envfile::env_entry(lines[n - 1]) {
        EntryView::Value(key, value) => {
            envfile::lemma_pair_index(before, key, 0);
            let kept = match envfile::pair_index(before, key, 0) {
                Some(at) => before.remove(at),
                None => before,
            };
            assert(all == kept.push((key, value)));
            if j < kept.len() {
                let from = match envfile::pair_index(before, key, 0) {
                    Some(at) => if j < at {
                        j
                    } else {
                        j + 1
                    },
                    None => j,
                };
                assert(kept[j] == before[from]);
                let i = law_pair_from_line(front, from);
                assert(front[i] == lines[i]);
                i
            } else {
                n - 1
            }
        },
        _ => {
            let i = law_pair_from_line(front, j);
            assert(front[i] == lines[i]);
            i
        },
    }
}

} // verus!
