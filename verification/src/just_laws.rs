//! What holds of the values that a `justfile` gives names to.

use vstd::prelude::*;
use vstd::string::*;

use crate::migration;
use crate::migration::ModeView;
use crate::migration_laws;
use crate::text;
use crate::text_laws;

verus! {

broadcast use crate::seqs::group_seqs;

/// A letter or an underscore alone is an identifier, and an identifier may go on with letters,
/// digits, underscores and hyphens, but with nothing else.
pub proof fn law_identifier(name: Seq<char>, c: char)
    ensures
        migration::is_identifier(seq![c]) <==> 'a' <= c <= 'z' || 'A' <= c <= 'Z' || c == '_',
        name.len() > 0 ==> (migration::is_identifier(name + seq![c]) <==> migration::is_identifier(
            name,
        ) && ('a' <= c <= 'z' || 'A' <= c <= 'Z' || '0' <= c <= '9' || c == '_' || c == '-')),
        !migration::is_identifier(Seq::empty()),
{
    let all = name + seq![c];
    assert(seq![c][0] == c);
    if name.len() > 0 {
        assert(all[name.len() as int] == c);
        assert forall|i: int| 0 <= i < name.len() implies #[trigger] all[i] == name[i] by {}
        if migration::is_identifier(all) {
            assert forall|i: int| 1 <= i < name.len() implies text::is_alnum(#[trigger] name[i])
                || name[i] == '_' || name[i] == '-' by {
                assert(all[i] == name[i]);
            }
        }
    }
}

/// A quoted value is what stands between its quotes, double or single ones, with the white space
/// around them taken off.
pub proof fn law_quoted(
    before: Seq<char>,
    value: Seq<char>,
    behind: Seq<char>,
    values: Seq<(Seq<char>, Seq<char>)>,
)
    requires
        text_laws::all_white(before),
        text_laws::all_white(behind),
    ensures
        migration::just_value(before + (seq!['"'] + value + seq!['"']) + behind, values) == Some(
            value,
        ),
        migration::just_value(before + (seq!['\''] + value + seq!['\'']) + behind, values) == Some(
            value,
        ),
{
    reveal_strlit("\"");
    reveal_strlit("'");
    assert("\""@ =~= seq!['"']);
    assert("'"@ =~= seq!['\'']);
    let double = seq!['"'] + value + seq!['"'];
    let single = seq!['\''] + value + seq!['\''];
    text_laws::law_trimmed(before, double, behind);
    text_laws::law_trimmed(before, single, behind);
    lemma_unquoted(value, '"');
    lemma_unquoted(value, '\'');
    assert(single.subrange(0, 1)[0] == '\'');
    assert(!text::begins(single, "\""@));
}

/// What stands between two quotes is taken out.
proof fn lemma_unquoted(value: Seq<char>, q: char)
    ensures
        migration::unquoted(seq![q] + value + seq![q], seq![q]) == Some(value),
{
    let all = seq![q] + value + seq![q];
    let rest = value + seq![q];
    assert(all.subrange(0, 1) =~= seq![q]);
    assert(all.subrange(1, all.len() as int) =~= rest);
    assert(rest.subrange(rest.len() - 1, rest.len() as int) =~= seq![q]);
    assert(rest.subrange(0, rest.len() - 1) =~= value);
}

/// A value that is not quoted is the name of another one, and stands for what that one has.
pub proof fn law_named(
    before: Seq<char>,
    name: Seq<char>,
    behind: Seq<char>,
    values: Seq<(Seq<char>, Seq<char>)>,
)
    requires
        text_laws::all_white(before),
        text_laws::all_white(behind),
        text_laws::is_tight(name),
        name.len() == 0 || name[0] != '"' && name[0] != '\'',
    ensures
        migration::just_value(before + name + behind, values) == crate::map::lookup(values, name),
{
    reveal_strlit("\"");
    reveal_strlit("'");
    text_laws::law_trimmed(before, name, behind);
    if name.len() > 0 {
        assert(name.subrange(0, 1)[0] == name[0]);
        assert("\""@[0] == '"');
        assert("'"@[0] == '\'');
    }
}

/// An assignment gives a name the value behind it, where the name is an identifier and the value
/// is known; a line without `:=` assigns nothing.
pub proof fn law_assignment(
    name: Seq<char>,
    gap: Seq<char>,
    value: Seq<char>,
    values: Seq<(Seq<char>, Seq<char>)>,
    other: Seq<char>,
)
    requires
        migration::is_identifier(name),
        text_laws::all_white(gap),
    ensures
        migration::just_assignment(name + gap + ":="@ + value, values) == (
        match migration::just_value(text::trimmed(value), values) {
            Some(own) => Some((name, own)),
            None => None,
        }),
        !other.contains(':') ==> migration::just_assignment(other, values) is None,
{
    reveal_strlit(":=");
    assert(":="@[0] == ':');
    let start = name + gap;
    assert(!start.contains(':')) by {
        if start.contains(':') {
            let i = choose|i: int| 0 <= i < start.len() && start[i] == ':';
            if i < name.len() {
                assert(name[i] == ':');
            } else {
                assert(gap[i - name.len()] == ':');
            }
        }
    }
    text_laws::law_parted_by(start, ":="@, value);
    assert(text_laws::all_white(Seq::<char>::empty()));
    assert(text_laws::is_tight(name)) by {
        let last = name[name.len() - 1];
        assert(name.last() == last);
    }
    text_laws::law_trimmed(Seq::empty(), name, gap);
    assert(Seq::<char>::empty() + name + gap =~= start);
    if !other.contains(':') {
        assert forall|j: int|
            0 <= j && j + ":="@.len() <= other.len() implies #[trigger] other.subrange(
            j,
            j + ":="@.len(),
        ) != ":="@ by {
            assert(other.subrange(j, j + ":="@.len())[0] == other[j]);
        }
        text_laws::law_not_parted(other, ":="@);
    }
}

/// A line stands at the top level where it is neither blank nor a comment and begins with no white
/// space.
pub proof fn law_top_level(line: Seq<char>)
    ensures
        line.len() > 0 && !text::is_white(line[0]) ==> (migration::is_top_level(line) <==> line[0]
            != '#'),
        line.len() > 0 && (line[0] == ' ' || line[0] == '\t') ==> !migration::is_top_level(line),
        line.len() == 0 ==> !migration::is_top_level(line),
{
    reveal_strlit("#");
    assert("#"@[0] == '#');
    if line.len() > 0 && !text::is_white(line[0]) {
        assert(text_laws::all_white(Seq::<char>::empty()));
        text_laws::law_trimmed_start(Seq::empty(), line);
        assert(Seq::<char>::empty() + line =~= line);
        assert(text::trimmed_start(line) == line);
        lemma_kept_first(line);
        assert(line.subrange(0, 1)[0] == line[0]);
        assert(line.subrange(0, 1) =~= seq![line[0]]);
        assert("#"@ =~= seq!['#']);
    }
}

/// A text that begins with no white space is not blank.
proof fn lemma_kept_first(line: Seq<char>)
    requires
        line.len() > 0,
        !text::is_white(line[0]),
    ensures
        text::trimmed(line).len() > 0,
    decreases line.len(),
{
    assert(text_laws::all_white(Seq::<char>::empty()));
    text_laws::law_trimmed_start(Seq::empty(), line);
    assert(Seq::<char>::empty() + line =~= line);
    lemma_kept_end(line);
}

/// What is before the white space at the end of a text is kept.
proof fn lemma_kept_end(line: Seq<char>)
    requires
        line.len() > 0,
        !text::is_white(line[0]),
    ensures
        text::trimmed_end(line).len() > 0,
    decreases line.len(),
{
    if line.len() > 1 && text::is_white(line.last()) {
        lemma_kept_end(line.drop_last());
    }
}

/// The values that are known stay in order, each under one name.
proof fn lemma_globals_ordered(lines: Seq<Seq<char>>, detected: bool, mode: ModeView)
    ensures
        crate::map::ordered(migration::just_state(lines, detected, mode).globals),
    decreases lines.len(),
{
    if lines.len() > 0 {
        lemma_globals_ordered(lines.drop_last(), detected, mode);
        let globals = migration::just_state(lines.drop_last(), detected, mode).globals;
        if let Some((name, value)) = migration::just_assignment(lines.last(), globals) {
            crate::map::lemma_inserted_ordered(globals, name, value);
        }
    }
}

/// Behind an assignment at the top level its name has its value, and every other name has what an
/// assignment before gave it.
pub proof fn law_assigned_value(
    lines: Seq<Seq<char>>,
    detected: bool,
    mode: ModeView,
    i: int,
    name: Seq<char>,
    gap: Seq<char>,
    blank: Seq<char>,
    value: Seq<char>,
    behind: Seq<char>,
)
    requires
        0 <= i < lines.len(),
        migration::is_identifier(name),
        text_laws::all_white(gap),
        text_laws::all_white(blank),
        text_laws::all_white(behind),
        lines[i] == name + gap + ":="@ + (blank + (seq!['"'] + value + seq!['"']) + behind),
    ensures
        crate::map::lookup(migration_laws::just_values(lines, detected, mode, i), name) == Some(value),
{
    reveal_strlit(":=");
    let line = lines[i];
    let start = lines.take(i + 1);
    assert(start.drop_last() =~= lines.take(i));
    assert(start.last() == line);
    let globals = migration::just_state(lines.take(i), detected, mode).globals;
    lemma_globals_ordered(lines.take(i), detected, mode);
    let quoted = seq!['"'] + value + seq!['"'];
    law_assignment(name, gap, blank + quoted + behind, globals, Seq::empty());
    text_laws::law_trimmed(blank, quoted, behind);
    assert(text_laws::all_white(Seq::<char>::empty()));
    law_quoted(Seq::empty(), value, Seq::empty(), globals);
    assert(Seq::<char>::empty() + quoted + Seq::<char>::empty() =~= quoted);
    assert(line[0] == name[0]);
    law_top_level(line);
    assert(migration::is_top_level(line));
    crate::map::lemma_inserted_lookup(globals, name, value, name);
    let at = (name + gap).len() as int;
    assert(line.subrange(at, at + 2) =~= ":="@);
    assert(text::matches_at(line, ":="@, at));
    assert(text::holds(line, ":="@));
}

/// In the recipe that a line begins the global values hold, and those that its parameters have by
/// default.
pub proof fn law_recipe_head(
    header: Seq<char>,
    rest: Seq<char>,
    globals: Seq<(Seq<char>, Seq<char>)>,
)
    requires
        !header.contains(':'),
        rest.len() == 0 || rest[0] != '=',
        !rest.contains(':'),
        text::words(header).len() > 0,
    ensures
        migration::recipe_values(header + seq![':'] + rest, globals) == Some(
            migration::with_parameters(globals, text::words(header).drop_first()),
        ),
{
    reveal_strlit(":=");
    reveal_strlit(":");
    assert(":"@ =~= seq![':']);
    let line = header + seq![':'] + rest;
    text_laws::law_parted_by(header, ":"@, rest);
    if text::holds(line, ":="@) {
        let at = choose|at: int| text::matches_at(line, ":="@, at);
        let cut = line.subrange(at, at + 2);
        assert(cut[0] == ':' && cut[1] == '=');
        assert(line[at] == ':' && line[at + 1] == '=');
        if at < header.len() {
            assert(header[at] == ':');
        } else if at == header.len() {
            assert(rest[0] == '=');
        } else {
            assert(rest[at - header.len() - 1] == ':');
        }
    }
}

/// A parameter with a default gives its name that value over the others; a word without one
/// changes nothing.
pub proof fn law_parameter(
    values: Seq<(Seq<char>, Seq<char>)>,
    words: Seq<Seq<char>>,
    name: Seq<char>,
    value: Seq<char>,
    other: Seq<char>,
)
    requires
        crate::map::ordered(values),
        migration::is_identifier(name),
    ensures
        crate::map::lookup(
            migration::with_parameters(
                values,
                words + seq![name + seq!['='] + (seq!['"'] + value + seq!['"'])],
            ),
            name,
        ) == Some(value),
        other != name ==> crate::map::lookup(
            migration::with_parameters(
                values,
                words + seq![name + seq!['='] + (seq!['"'] + value + seq!['"'])],
            ),
            other,
        ) == crate::map::lookup(migration::with_parameters(values, words), other),
        !other.contains('=') ==> migration::with_parameters(values, words + seq![other])
            == migration::with_parameters(values, words),
        migration::with_parameters(values, Seq::empty()) == values,
{
    reveal_strlit("=");
    assert("="@ =~= seq!['=']);
    let quoted = seq!['"'] + value + seq!['"'];
    let word = name + seq!['='] + quoted;
    let all = words + seq![word];
    assert(all.last() == word);
    assert(all.drop_last() =~= words);
    let before = migration::with_parameters(values, words);
    assert(!name.contains('=')) by {
        if name.contains('=') {
            let i = choose|i: int| 0 <= i < name.len() && name[i] == '=';
            assert(name[i] == '=');
        }
    }
    text_laws::law_parted_by(name, "="@, quoted);
    assert(text_laws::all_white(Seq::<char>::empty()));
    law_quoted(Seq::empty(), value, Seq::empty(), before);
    assert(Seq::<char>::empty() + quoted + Seq::<char>::empty() =~= quoted);
    lemma_parameters_ordered(values, words);
    crate::map::lemma_inserted_lookup(before, name, value, other);
    if !other.contains('=') {
        assert forall|j: int| 0 <= j && j + "="@.len() <= other.len() implies #[trigger] other.subrange(
            j,
            j + "="@.len(),
        ) != "="@ by {
            assert(other.subrange(j, j + "="@.len())[0] == other[j]);
        }
        text_laws::law_not_parted(other, "="@);
        let more = words + seq![other];
        assert(more.last() == other);
        assert(more.drop_last() =~= words);
    }
}

/// The values of a recipe stay in order.
proof fn lemma_parameters_ordered(values: Seq<(Seq<char>, Seq<char>)>, words: Seq<Seq<char>>)
    requires
        crate::map::ordered(values),
    ensures
        crate::map::ordered(migration::with_parameters(values, words)),
    decreases words.len(),
{
    if words.len() > 0 {
        lemma_parameters_ordered(values, words.drop_last());
        let before = migration::with_parameters(values, words.drop_last());
        if let Some((name, value)) = text::parted(words.last(), "="@) {
            if let Some(own) = migration::just_value(value, before) {
                crate::map::lemma_inserted_ordered(before, name, own);
            }
        }
    }
}

} // verus!
