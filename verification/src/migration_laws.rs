//! What holds of migrated scripts.

use vstd::prelude::*;
use vstd::string::*;

use crate::json;
use crate::json::JsonView;
use crate::migration;
use crate::migration::{ModeView, Place, Values};
use crate::pattern;
use crate::seqs;
use crate::text;
use crate::text_laws;

verus! {

broadcast use crate::seqs::group_seqs;

/// A text of gaps and parts, taken apart at one of the parts.
proof fn lemma_interleaved_at(gaps: Seq<Seq<char>>, parts: Seq<Seq<char>>, j: int)
    requires
        gaps.len() == parts.len() + 1,
        0 <= j < parts.len(),
    ensures
        pattern::interleaved(gaps, parts) == pattern::interleaved(gaps.take(j + 1), parts.take(j))
            + parts[j] + pattern::interleaved(gaps.skip(j + 1), parts.skip(j + 1)),
    decreases parts.len(),
{
    let n = parts.len() as int;
    let left = pattern::interleaved(gaps.take(j + 1), parts.take(j));
    if j == n - 1 {
        assert(gaps.drop_last() =~= gaps.take(j + 1));
        assert(parts.drop_last() =~= parts.take(j));
        assert(gaps.skip(j + 1)[0] == gaps.last());
        assert(pattern::interleaved(gaps.skip(j + 1), parts.skip(j + 1)) == gaps.last());
    } else {
        let g = gaps.drop_last();
        let p = parts.drop_last();
        lemma_interleaved_at(g, p, j);
        assert(g.take(j + 1) =~= gaps.take(j + 1));
        assert(p.take(j) =~= parts.take(j));
        let right = pattern::interleaved(g.skip(j + 1), p.skip(j + 1));
        let gs = gaps.skip(j + 1);
        let ps = parts.skip(j + 1);
        assert(gs.drop_last() =~= g.skip(j + 1));
        assert(ps.drop_last() =~= p.skip(j + 1));
        assert(gs.last() == gaps.last() && ps.last() == parts.last());
        assert(pattern::interleaved(gs, ps) == right + parts.last() + gaps.last());
        assert(left + parts[j] + right + parts.last() + gaps.last() =~= left + parts[j] + (right
            + parts.last() + gaps.last()));
    }
}

/// The literals at their places, each the one that a script is rewritten to, where the script is
/// among the first `n`, and else the one that it had.
pub open spec fn literals(
    scripts: Seq<(Seq<char>, JsonView)>,
    order: Seq<int>,
    mode: ModeView,
    n: int,
) -> Seq<Seq<char>> {
    Seq::new(
        order.len(),
        |j: int|
            json::printed(
                if order[j] < n {
                    JsonView::Text(
                        migration::migrated(
                            scripts[order[j]].1->Text_0,
                            Seq::empty(),
                            mode,
                        ).rewritten,
                    )
                } else {
                    scripts[order[j]].1
                },
            ),
    )
}

/// Whether `part` stands in `s` at no place before `at`.
pub open spec fn stands_first_at(s: Seq<char>, part: Seq<char>, at: int) -> bool {
    forall|j: int| 0 <= j < at ==> #[trigger] s.subrange(j, j + part.len()) != part
}

/// The turn of a script whose literal has a place.
proof fn lemma_script_step(
    scripts: Seq<(Seq<char>, JsonView)>,
    mode: ModeView,
    gaps: Seq<Seq<char>>,
    order: Seq<int>,
    j: int,
)
    requires
        gaps.len() == order.len() + 1,
        0 <= j < order.len(),
        scripts[order[j]].1 is Text,
        forall|j: int, k: int|
            0 <= j < k < order.len() ==> #[trigger] order[j] != #[trigger] order[k],
        stands_first_at(
            pattern::interleaved(gaps, literals(scripts, order, mode, order[j])),
            json::printed(scripts[order[j]].1),
            pattern::interleaved(
                gaps.take(j + 1),
                literals(scripts, order, mode, order[j]).take(j),
            ).len() as int,
        ),
    ensures
        ({
            let script = scripts[order[j]].1->Text_0;
            let here = migration::migrated(script, Seq::empty(), mode).rewritten;
            let before = pattern::interleaved(gaps, literals(scripts, order, mode, order[j]));
            pattern::interleaved(gaps, literals(scripts, order, mode, order[j] + 1)) == (if here
                == script {
                before
            } else {
                text::replaced_once(
                    before,
                    json::printed(JsonView::Text(script)),
                    json::printed(JsonView::Text(here)),
                )
            })
        }),
{
    let k = order[j];
    let old_parts = literals(scripts, order, mode, k);
    let new_parts = literals(scripts, order, mode, k + 1);
    let own = scripts[k].1;
    let script = own->Text_0;
    let here = migration::migrated(script, Seq::empty(), mode).rewritten;
    let from = json::printed(own);
    let to = json::printed(JsonView::Text(here));
    assert(own == JsonView::Text(script));
    assert(old_parts[j] == from);
    assert(new_parts[j] == to);
    assert forall|i: int| 0 <= i < order.len() && i != j implies #[trigger] old_parts[i]
        == new_parts[i] by {
        if i < j {
            assert(order[i] != order[j]);
        } else {
            assert(order[j] != order[i]);
        }
    }
    let a = pattern::interleaved(gaps.take(j + 1), old_parts.take(j));
    let b = pattern::interleaved(gaps.skip(j + 1), old_parts.skip(j + 1));
    lemma_interleaved_at(gaps, old_parts, j);
    lemma_interleaved_at(gaps, new_parts, j);
    assert(old_parts.take(j) =~= new_parts.take(j));
    assert(old_parts.skip(j + 1) =~= new_parts.skip(j + 1));
    if here == script {
        assert(new_parts =~= old_parts);
    } else {
        text_laws::law_replaced_once(a, from, b, to);
    }
}

/// The turn of a script whose literal has no place.
proof fn lemma_no_step(
    scripts: Seq<(Seq<char>, JsonView)>,
    mode: ModeView,
    order: Seq<int>,
    k: int,
)
    requires
        !order.contains(k),
    ensures
        literals(scripts, order, mode, k + 1) == literals(scripts, order, mode, k),
{
    let old_parts = literals(scripts, order, mode, k);
    let new_parts = literals(scripts, order, mode, k + 1);
    assert forall|i: int| 0 <= i < order.len() implies #[trigger] old_parts[i] == new_parts[i] by {
        assert(order.contains(order[i]));
    }
    assert(old_parts =~= new_parts);
}

/// The text of a `package.json` after some of its scripts.
proof fn lemma_scripts_rewritten(
    content: Seq<char>,
    scripts: Seq<(Seq<char>, JsonView)>,
    mode: ModeView,
    gaps: Seq<Seq<char>>,
    order: Seq<int>,
    n: int,
)
    requires
        0 <= n <= scripts.len(),
        gaps.len() == order.len() + 1,
        forall|j: int|
            0 <= j < order.len() ==> 0 <= #[trigger] order[j] < scripts.len()
                && scripts[order[j]].1 is Text,
        forall|j: int, k: int|
            0 <= j < k < order.len() ==> #[trigger] order[j] != #[trigger] order[k],
        forall|i: int|
            0 <= i < scripts.len() ==> ((#[trigger] scripts[i]).1 matches JsonView::Text(own)
                ==> order.contains(i) || migration::migrated(own, Seq::empty(), mode).rewritten
                == own),
        content == pattern::interleaved(gaps, literals(scripts, order, mode, 0)),
        forall|j: int|
            0 <= j < order.len() ==> stands_first_at(
                pattern::interleaved(gaps, literals(scripts, order, mode, order[j])),
                json::printed((#[trigger] scripts[order[j]]).1),
                pattern::interleaved(
                    gaps.take(j + 1),
                    literals(scripts, order, mode, order[j]).take(j),
                ).len() as int,
            ),
    ensures
        migration::scripts_migrated(scripts.take(n), content, mode).rewritten
            == pattern::interleaved(gaps, literals(scripts, order, mode, n)),
    decreases n,
{
    if n > 0 {
        let k = n - 1;
        lemma_scripts_rewritten(content, scripts, mode, gaps, order, k);
        assert(scripts.take(n).drop_last() =~= scripts.take(k));
        assert(scripts.take(n).last() == scripts[k]);
        let own = scripts[k].1;
        if order.contains(k) {
            let j = choose|j: int| 0 <= j < order.len() && order[j] == k;
            assert(scripts[order[j]].1 is Text);
            lemma_script_step(scripts, mode, gaps, order, j);
        } else if own is Text {
            assert(migration::migrated(own->Text_0, Seq::empty(), mode).rewritten == own->Text_0);
            lemma_no_step(scripts, mode, order, k);
        } else {
            lemma_no_step(scripts, mode, order, k);
        }
    } else {
        assert(scripts.take(0) =~= Seq::empty());
    }
}

/// In the text of a `package.json` every script becomes what migrating that script alone makes of
/// it, each at its own place, and all that stands between the scripts is kept. The text is given
/// as the literals of the scripts, in the order in which they stand there, with the gaps around
/// them; scripts that do not change may be part of the gaps. Left out are texts in which the
/// literal of a script stands a second time, earlier than the script, when its turn comes.
pub proof fn law_every_script_rewritten(
    content: Seq<char>,
    package: JsonView,
    scripts: Seq<(Seq<char>, JsonView)>,
    mode: ModeView,
    gaps: Seq<Seq<char>>,
    order: Seq<int>,
)
    requires
        json::parsed(content) == Ok::<JsonView, Seq<char>>(package),
        json::field(package, "scripts"@) == Some(JsonView::Object(scripts)),
        gaps.len() == order.len() + 1,
        forall|j: int|
            0 <= j < order.len() ==> 0 <= #[trigger] order[j] < scripts.len()
                && scripts[order[j]].1 is Text,
        forall|j: int, k: int|
            0 <= j < k < order.len() ==> #[trigger] order[j] != #[trigger] order[k],
        forall|i: int|
            0 <= i < scripts.len() ==> ((#[trigger] scripts[i]).1 matches JsonView::Text(own)
                ==> order.contains(i) || migration::migrated(own, Seq::empty(), mode).rewritten
                == own),
        content == pattern::interleaved(
            gaps,
            Seq::new(order.len(), |j: int| json::printed(scripts[order[j]].1)),
        ),
        forall|j: int|
            0 <= j < order.len() ==> stands_first_at(
                pattern::interleaved(gaps, literals(scripts, order, mode, order[j])),
                json::printed((#[trigger] scripts[order[j]]).1),
                pattern::interleaved(
                    gaps.take(j + 1),
                    literals(scripts, order, mode, order[j]).take(j),
                ).len() as int,
            ),
    ensures
        migration::package_text_migrated(content, mode) matches Ok(m) && m.rewritten
            == pattern::interleaved(
            gaps,
            Seq::new(
                order.len(),
                |j: int|
                    json::printed(
                        JsonView::Text(
                            migration::migrated(
                                scripts[order[j]].1->Text_0,
                                Seq::empty(),
                                mode,
                            ).rewritten,
                        ),
                    ),
            ),
        ),
{
    let n = scripts.len() as int;
    assert(literals(scripts, order, mode, 0) =~= Seq::new(
        order.len(),
        |j: int| json::printed(scripts[order[j]].1),
    ));
    lemma_scripts_rewritten(content, scripts, mode, gaps, order, n);
    assert(scripts.take(n) =~= scripts);
    assert(literals(scripts, order, mode, n) =~= Seq::new(
        order.len(),
        |j: int|
            json::printed(
                JsonView::Text(
                    migration::migrated(
                        scripts[order[j]].1->Text_0,
                        Seq::empty(),
                        mode,
                    ).rewritten,
                ),
            ),
    ));
}

/// What scripts use between them.
proof fn lemma_scripts_items(
    scripts: Seq<(Seq<char>, JsonView)>,
    content: Seq<char>,
    mode: ModeView,
    x: Seq<char>,
)
    ensures
        migration::scripts_migrated(scripts, content, mode).items.contains(x) <==> exists|i: int|
            0 <= i < scripts.len() && (#[trigger] scripts[i]).1 is Text && migration::migrated(
                scripts[i].1->Text_0,
                Seq::empty(),
                mode,
            ).items.contains(x),
        migration::scripts_migrated(scripts, content, mode).uses_dotenv <==> exists|i: int|
            0 <= i < scripts.len() && (#[trigger] scripts[i]).1 is Text && migration::migrated(
                scripts[i].1->Text_0,
                Seq::empty(),
                mode,
            ).uses_dotenv,
        migration::scripts_migrated(scripts, content, mode).detected_opz == text::holds(
            content,
            "opz"@,
        ),
    decreases scripts.len(),
{
    let all = migration::scripts_migrated(scripts, content, mode);
    if scripts.len() > 0 {
        let front = scripts.drop_last();
        let n = front.len() as int;
        lemma_scripts_items(front, content, mode, x);
        let before = migration::scripts_migrated(front, content, mode);
        assert(scripts[n] == scripts.last());
        assert forall|i: int| 0 <= i < n implies #[trigger] scripts[i] == front[i] by {}
        if scripts[n].1 is Text {
            let here = migration::migrated(scripts[n].1->Text_0, Seq::empty(), mode);
            assert(all.items == before.items + here.items);
            lemma_joined_contains(before.items, here.items, x);
        }
        if before.items.contains(x) {
            let i = choose|i: int|
                0 <= i < front.len() && (#[trigger] front[i]).1 is Text && migration::migrated(
                    front[i].1->Text_0,
                    Seq::empty(),
                    mode,
                ).items.contains(x);
            assert(scripts[i] == front[i]);
        }
        if before.uses_dotenv {
            let i = choose|i: int|
                0 <= i < front.len() && (#[trigger] front[i]).1 is Text && migration::migrated(
                    front[i].1->Text_0,
                    Seq::empty(),
                    mode,
                ).uses_dotenv;
            assert(scripts[i] == front[i]);
        }
        assert forall|i: int|
            0 <= i < scripts.len() && (#[trigger] scripts[i]).1 is Text && migration::migrated(
                scripts[i].1->Text_0,
                Seq::empty(),
                mode,
            ).items.contains(x) implies all.items.contains(x) by {
            if i < n {
                assert(front[i] == scripts[i]);
            }
        }
        assert forall|i: int|
            0 <= i < scripts.len() && (#[trigger] scripts[i]).1 is Text && migration::migrated(
                scripts[i].1->Text_0,
                Seq::empty(),
                mode,
            ).uses_dotenv implies all.uses_dotenv by {
            if i < n {
                assert(front[i] == scripts[i]);
            }
        }
    }
}

/// A list behind another holds what either does.
proof fn lemma_joined_contains(a: Seq<Seq<char>>, b: Seq<Seq<char>>, x: Seq<char>)
    ensures
        (a + b).contains(x) <==> a.contains(x) || b.contains(x),
{
    let s = a + b;
    if a.contains(x) {
        let i = choose|i: int| 0 <= i < a.len() && a[i] == x;
        assert(s[i] == x);
    }
    if b.contains(x) {
        let i = choose|i: int| 0 <= i < b.len() && b[i] == x;
        assert(s[a.len() + i] == x);
    }
    if s.contains(x) {
        let i = choose|i: int| 0 <= i < s.len() && s[i] == x;
        if i < a.len() {
            assert(a[i] == x);
        } else {
            assert(b[i - a.len()] == x);
        }
    }
}

/// A `package.json` names exactly the items that its scripts name, each once, uses `.env` exactly
/// where one of them does, and knows of `opz` exactly where its text does.
pub proof fn law_package_items(
    package: JsonView,
    scripts: Seq<(Seq<char>, JsonView)>,
    content: Seq<char>,
    mode: ModeView,
    x: Seq<char>,
)
    requires
        json::field(package, "scripts"@) == Some(JsonView::Object(scripts)),
    ensures
        ({
            let m = migration::package_migrated(package, content, mode);
            &&& m.items.contains(x) <==> exists|i: int|
                0 <= i < scripts.len() && (#[trigger] scripts[i]).1 is Text && migration::migrated(
                    scripts[i].1->Text_0,
                    Seq::empty(),
                    mode,
                ).items.contains(x)
            &&& forall|i: int, j: int|
                0 <= i < j < m.items.len() ==> #[trigger] m.items[i] != #[trigger] m.items[j]
            &&& m.uses_dotenv <==> exists|i: int|
                0 <= i < scripts.len() && (#[trigger] scripts[i]).1 is Text && migration::migrated(
                    scripts[i].1->Text_0,
                    Seq::empty(),
                    mode,
                ).uses_dotenv
            &&& m.detected_opz == text::holds(content, "opz"@)
        }),
{
    lemma_scripts_items(scripts, content, mode, x);
    let all = migration::scripts_migrated(scripts, content, mode).items;
    seqs::law_deduped(all);
}

/// Without an object of scripts nothing is named, and the text is kept.
pub proof fn law_package_without_scripts(package: JsonView, content: Seq<char>, mode: ModeView)
    requires
        !(json::field(package, "scripts"@) matches Some(JsonView::Object(_))),
    ensures
        ({
            let m = migration::package_migrated(package, content, mode);
            &&& m.items.len() == 0
            &&& !m.uses_dotenv
            &&& m.rewritten == content
            &&& m.detected_opz == text::holds(content, "opz"@)
        }),
{
    let all = migration::scripts_migrated(migration::scripts_of(package), content, mode);
    assert(all.items.len() == 0);
    reveal_with_fuel(seqs::deduped, 1);
}

/// Whether a shell or `just` expands something in `token`.
pub open spec fn is_expanded(token: Seq<char>) -> bool {
    exists|i: int|
        0 <= i < token.len() && (#[trigger] token[i] == '{' || token[i] == '}' || token[i] == '$'
            || token[i] == '*' || token[i] == '?' || token[i] == '`' || token[i] == '(' || token[i]
            == ')')
}

/// A token stands for itself exactly where nothing in it is expanded.
pub proof fn law_static_token(token: Seq<char>)
    ensures
        migration::is_static(token) <==> !is_expanded(token),
{
    if is_expanded(token) {
        let i = choose|i: int|
            0 <= i < token.len() && (#[trigger] token[i] == '{' || token[i] == '}' || token[i] == '$'
                || token[i] == '*' || token[i] == '?' || token[i] == '`' || token[i] == '('
                || token[i] == ')');
        assert(token.contains(token[i]));
    }
}

/// A token in which nothing is expanded stands for itself, and a name between double braces for
/// its value, with or without white space around it. No other token stands for an item.
pub proof fn law_token_resolved(
    token: Seq<char>,
    before: Seq<char>,
    name: Seq<char>,
    behind: Seq<char>,
    values: Values,
)
    requires
        text_laws::all_white(before),
        text_laws::all_white(behind),
        text_laws::is_tight(name),
    ensures
        !is_expanded(token) ==> migration::resolved_token(token, values) == Some(token),
        migration::resolved_token("{{"@ + (before + name + behind) + "}}"@, values)
            == crate::map::lookup(values, name),
        is_expanded(token) && (token.len() < 2 || token[0] != '{' || token[1] != '{')
            ==> migration::resolved_token(token, values) is None,
{
    reveal_strlit("{{");
    reveal_strlit("}}");
    law_static_token(token);
    let inner = before + name + behind;
    let braced = "{{"@ + inner + "}}"@;
    assert(braced[0] == '{');
    assert(is_expanded(braced));
    law_static_token(braced);
    assert(braced.subrange(0, 2) =~= "{{"@);
    let rest = braced.subrange(2, braced.len() as int);
    assert(rest =~= inner + "}}"@);
    assert(rest.subrange(rest.len() - 2, rest.len() as int) =~= "}}"@);
    assert(rest.subrange(0, rest.len() - 2) =~= inner);
    text_laws::law_trimmed(before, name, behind);
    if text::begins(token, "{{"@) {
        assert(token.subrange(0, 2)[0] == token[0]);
        assert(token.subrange(0, 2)[1] == token[1]);
    }
}

/// Whether `token` is a command of this program.
pub open spec fn is_command(token: Seq<char>) -> bool {
    ||| token == "run"@ || token == "find"@ || token == "doctor"@ || token == "skills"@
    ||| token == "show"@ || token == "gen"@ || token == "create"@ || token == "migrate"@
    ||| token == "note"@ || token == "github-repo"@ || token == "github-secret"@
    ||| token == "cloudflare-secret"@
}

/// Where items are renamed, a call that names an item names the new title instead, and keeps its
/// options; a call whose item is expanded, or which calls a command, is kept.
pub proof fn law_call_renamed(
    whole: Seq<char>,
    options: Seq<char>,
    item: Seq<char>,
    values: Values,
    title: Seq<char>,
)
    ensures
        migration::place_part(
            Place::Run,
            seq![whole, options, item],
            values,
            ModeView::RenameItems(title),
        ) == (if is_expanded(item) {
            whole
        } else {
            "opz run"@ + options + " "@ + title + " --"@
        }),
        migration::place_part(
            Place::Shorthand,
            seq![whole, item],
            values,
            ModeView::RenameItems(title),
        ) == (if is_expanded(item) || is_command(item) {
            whole
        } else {
            "opz "@ + title + " --"@
        }),
{
    law_static_token(item);
}

/// Where items are restored, a call without an item gets the token that names it, and keeps its
/// options.
pub proof fn law_call_restored(
    whole: Seq<char>,
    options: Seq<char>,
    values: Values,
    title: Seq<char>,
)
    ensures
        migration::place_part(
            Place::ItemlessRun,
            seq![whole, options],
            values,
            ModeView::Restore(title),
        ) == "opz run"@ + options + " "@ + migration::restore_token(values, title) + " --"@,
        migration::place_part(Place::Itemless, seq![whole], values, ModeView::Restore(title))
            == "opz "@ + migration::restore_token(values, title) + " --"@,
{
}

/// Whatever else stands at a place is kept: where nothing is rewritten, all of it; where items are
/// renamed, all but the calls that name one; where they are restored, all but the calls without.
pub proof fn law_call_kept(place: Place, groups: Seq<Seq<char>>, values: Values, title: Seq<char>)
    ensures
        migration::place_part(place, groups, values, ModeView::Collect) == groups[0],
        !(place is Run) && !(place is Shorthand) ==> migration::place_part(
            place,
            groups,
            values,
            ModeView::RenameItems(title),
        ) == groups[0],
        !(place is ItemlessRun) && !(place is Itemless) ==> migration::place_part(
            place,
            groups,
            values,
            ModeView::Restore(title),
        ) == groups[0],
{
}

/// The token that restores an item: `{{item}}` where there is such a value, else the name of a
/// value between double braces, of one that speaks of an item where there is one, and the title
/// itself only where no value is filled.
pub proof fn law_restore_token(values: Values, title: Seq<char>)
    ensures
        crate::map::lookup(values, "item"@) matches Some(v) && v.len() > 0 ==> (
        migration::restore_token(values, title) == "{{item}}"@),
        (forall|i: int| 0 <= i < values.len() ==> (#[trigger] values[i]).1.len() == 0) && !(
        crate::map::lookup(values, "item"@) matches Some(v) && v.len() > 0)
            ==> migration::restore_token(values, title) == title,
        (exists|i: int| 0 <= i < values.len() && (#[trigger] values[i]).1.len() > 0) && !(
        crate::map::lookup(values, "item"@) matches Some(v) && v.len() > 0) ==> exists|i: int|
            0 <= i < values.len() && (#[trigger] values[i]).1.len() > 0
                && migration::restore_token(values, title) == "{{"@ + values[i].0 + "}}"@ && (
            text::holds(values[i].0, "item"@) || forall|k: int|
                0 <= k < values.len() && (#[trigger] values[k]).1.len() > 0 ==> !text::holds(
                    values[k].0,
                    "item"@,
                )) && (forall|k: int|
                0 <= k < i && (#[trigger] values[k]).1.len() > 0 ==> text::holds(
                    values[i].0,
                    "item"@,
                ) && !text::holds(values[k].0, "item"@)),
{
    reveal_strlit("");
    lemma_named_value(values, "item"@, 0);
    lemma_named_value(values, ""@, 0);
    assert forall|i: int| 0 <= i < values.len() implies text::holds(
        (#[trigger] values[i]).0,
        ""@,
    ) by {
        assert(values[i].0.subrange(0, 0) =~= ""@);
        assert(text::matches_at(values[i].0, ""@, 0));
    }
    if !(crate::map::lookup(values, "item"@) matches Some(v) && v.len() > 0) {
        if exists|i: int| 0 <= i < values.len() && (#[trigger] values[i]).1.len() > 0 {
            let any = choose|i: int| 0 <= i < values.len() && (#[trigger] values[i]).1.len() > 0;
            assert(text::holds(values[any].0, ""@));
            let at = match migration::named_value(values, "item"@, 0) {
                Some(i) => i,
                None => migration::named_value(values, ""@, 0)->0,
            };
            assert(values[at].1.len() > 0);
            assert(migration::restore_token(values, title) == "{{"@ + values[at].0 + "}}"@);
            assert forall|k: int| 0 <= k < at && (#[trigger] values[k]).1.len() > 0 implies text::holds(
                values[at].0,
                "item"@,
            ) && !text::holds(values[k].0, "item"@) by {
                assert(text::holds(values[k].0, ""@));
            }
        }
    }
}

/// The first filled value whose name holds a part.
proof fn lemma_named_value(values: Values, part: Seq<char>, from: int)
    requires
        0 <= from,
    ensures
        match migration::named_value(values, part, from) {
            Some(i) => from <= i < values.len() && text::holds(values[i].0, part)
                && values[i].1.len() > 0 && forall|k: int|
                from <= k < i ==> !(text::holds((#[trigger] values[k]).0, part)
                    && values[k].1.len() > 0),
            None => forall|k: int|
                from <= k < values.len() ==> !(text::holds((#[trigger] values[k]).0, part)
                    && values[k].1.len() > 0),
        },
    decreases values.len() - from,
{
    if from < values.len() && !(text::holds(values[from].0, part) && values[from].1.len() > 0) {
        lemma_named_value(values, part, from + 1);
    }
}

/// Matches name their items one after the other, and none is left out: what two lists of matches
/// name together is what each names.
pub proof fn law_items_of_matches(
    place: Place,
    a: Seq<Seq<Seq<char>>>,
    b: Seq<Seq<Seq<char>>>,
    values: Values,
)
    ensures
        migration::place_items(place, a + b, values) == migration::place_items(place, a, values)
            + migration::place_items(place, b, values),
    decreases b.len(),
{
    if b.len() == 0 {
        assert(a + b =~= a);
        assert(migration::place_items(place, a, values) + migration::place_items(place, b, values)
            =~= migration::place_items(place, a, values));
    } else {
        law_items_of_matches(place, a, b.drop_last(), values);
        assert((a + b).drop_last() =~= a + b.drop_last());
        assert((a + b).last() == b.last());
        assert(migration::place_items(place, a + b, values) =~= migration::place_items(
            place,
            a,
            values,
        ) + migration::place_items(place, b, values));
    }
}

/// A match of a call names the item that its token stands for. A shorthand that calls a command
/// names none, nor does a call without an item.
pub proof fn law_item_of_match(
    whole: Seq<char>,
    options: Seq<char>,
    item: Seq<char>,
    values: Values,
)
    ensures
        migration::place_items(Place::Run, seq![seq![whole, options, item]], values) == (
        match migration::resolved_token(item, values) {
            Some(x) => seq![x],
            None => Seq::empty(),
        }),
        migration::place_items(Place::Shorthand, seq![seq![whole, item]], values) == (
        match migration::resolved_token(item, values) {
            Some(x) => if is_command(item) {
                Seq::empty()
            } else {
                seq![x]
            },
            None => Seq::empty(),
        }),
        migration::place_items(Place::ItemGet, seq![seq![whole, item]], values) == (
        match migration::resolved_token(item, values) {
            Some(x) => seq![x],
            None => Seq::empty(),
        }),
        migration::place_items(Place::Create, seq![seq![whole, item]], values) == (
        match migration::resolved_token(item, values) {
            Some(x) => seq![x],
            None => Seq::empty(),
        }),
        migration::place_items(Place::ItemlessRun, seq![seq![whole, options]], values)
            == Seq::<Seq<char>>::empty(),
        migration::place_items(Place::Itemless, seq![seq![whole]], values)
            == Seq::<Seq<char>>::empty(),
{
    reveal_with_fuel(migration::place_items, 2);
    let none = Seq::<Seq<Seq<char>>>::empty();
    let a = seq![whole, options, item];
    let b = seq![whole, item];
    let c = seq![whole, options];
    let d = seq![whole];
    assert(seq![a].drop_last() =~= none);
    assert(seq![b].drop_last() =~= none);
    assert(seq![c].drop_last() =~= none);
    assert(seq![d].drop_last() =~= none);
    assert(Seq::<Seq<char>>::empty().push(item) =~= seq![item]);
    if let Some(x) = migration::resolved_token(item, values) {
        assert(Seq::<Seq<char>>::empty().push(x) =~= seq![x]);
    }
}

/// The words before the first plain one are passed over.
proof fn lemma_plain_word(words: Seq<Seq<char>>, from: int, k: int)
    requires
        0 <= from <= k <= words.len(),
        forall|i: int|
            from <= i < k ==> (#[trigger] words[i]).len() > 0 && words[i][0] == '-' && words[i]
                != "--env-file"@,
    ensures
        migration::plain_word(words, from) == migration::plain_word(words, k),
    decreases k - from,
{
    reveal_strlit("-");
    if from < k {
        assert(words[from][0] == '-');
        assert(words[from].subrange(0, 1) =~= "-"@);
        lemma_plain_word(words, from + 1, k);
    }
}

/// Of the arguments of `opz gen` the first that is no option names the item; `--env-file` is
/// passed over with the argument behind it.
pub proof fn law_gen_item(words: Seq<Seq<char>>, from: int, k: int)
    requires
        0 <= from <= k < words.len(),
        forall|i: int|
            from <= i < k ==> (#[trigger] words[i]).len() > 0 && words[i][0] == '-' && words[i]
                != "--env-file"@,
    ensures
        words[k].len() > 0 && words[k][0] != '-' ==> migration::plain_word(words, from) == Some(
            words[k],
        ),
        words[k] == "--env-file"@ ==> migration::plain_word(words, from) == migration::plain_word(
            words,
            k + 2,
        ),
{
    reveal_strlit("-");
    reveal_strlit("--env-file");
    reveal_strlit("--env-file=");
    lemma_plain_word(words, from, k);
    if words[k].len() > 0 && words[k][0] != '-' {
        if text::begins(words[k], "-"@) {
            assert(words[k].subrange(0, 1)[0] == words[k][0]);
        }
        if text::begins(words[k], "--env-file="@) {
            assert(words[k].subrange(0, 11)[0] == words[k][0]);
        }
        assert("--env-file"@[0] == '-');
    }
}

/// The items of a script are those of its calls, of the shorthand calls in what these were
/// rewritten to, and of the calls of `op item get` in what is left; each once, in this order.
pub proof fn law_script_items(s: Seq<char>, values: Values, mode: ModeView, x: Seq<char>)
    ensures
        ({
            let m = migration::migrated(s, values, mode);
            let run = migration::place_rewritten(Place::Run, s, values, mode);
            let places = migration::places_rewritten(s, values, mode);
            &&& m.items.contains(x) <==> migration::place_items(
                Place::Run,
                migration::found(Place::Run, s),
                values,
            ).contains(x) || migration::place_items(
                Place::Shorthand,
                migration::found(Place::Shorthand, run),
                values,
            ).contains(x) || migration::place_items(
                Place::ItemGet,
                migration::found(Place::ItemGet, places),
                values,
            ).contains(x)
            &&& m.items.no_duplicates()
            &&& m.detected_opz == text::holds(s, "opz"@)
        }),
{
    let run = migration::place_rewritten(Place::Run, s, values, mode);
    let places = migration::places_rewritten(s, values, mode);
    let a = migration::place_items(Place::Run, migration::found(Place::Run, s), values);
    let b = migration::place_items(
        Place::Shorthand,
        migration::found(Place::Shorthand, run),
        values,
    );
    let c = migration::place_items(
        Place::ItemGet,
        migration::found(Place::ItemGet, places),
        values,
    );
    seqs::law_deduped(a + b + c);
    lemma_joined_contains(a, b, x);
    lemma_joined_contains(a + b, c, x);
}

/// In a `justfile` an assignment to a named value that speaks of an item gets the new title, where
/// its value is quoted; any other line is kept, and all lines are where no item is renamed.
pub proof fn law_assignment_renamed(
    name: Seq<char>,
    value: Seq<char>,
    values: Values,
    title: Seq<char>,
)
    requires
        forall|j: int|
            0 <= j < name.len() ==> #[trigger] (name + ":="@ + value).subrange(j, j + 2) != ":="@,
    ensures
        ({
            let line = name + ":="@ + value;
            let own = text::trimmed(name);
            let start = text::trimmed(value);
            &&& migration::assignment_rewritten(line, values, ModeView::RenameItems(title)) == (
            if crate::map::has_key(values, own) && text::holds(own, "item"@) && start.len() > 0 && (
            start[0] == '"' || start[0] == '\'') {
                name + ":= \""@ + title + "\""@
            } else {
                line
            })
            &&& migration::assignment_rewritten(line, values, ModeView::Collect) == line
            &&& migration::assignment_rewritten(line, values, ModeView::Restore(title)) == line
        }),
{
    reveal_strlit(":=");
    reveal_strlit(":= \"");
    reveal_strlit(" \"");
    reveal_strlit("\"");
    reveal_strlit("'");
    text_laws::law_parted(name, ":="@, value);
    let start = text::trimmed(value);
    assert(":= \""@ =~= ":="@ + " \""@);
    assert(name + ":="@ + " \""@ =~= name + ":= \""@);
    if start.len() > 0 {
        assert(start.subrange(0, 1) =~= seq![start[0]]);
        assert("\""@ =~= seq!['"']);
        assert("'"@ =~= seq!['\'']);
        if text::begins(start, "\""@) {
            assert(start.subrange(0, 1)[0] == start[0]);
        }
        if text::begins(start, "'"@) {
            assert(start.subrange(0, 1)[0] == start[0]);
        }
    }
}

/// The values that hold in the lines of a `justfile`, one list for each line.
pub open spec fn just_values(
    lines: Seq<Seq<char>>,
    detected: bool,
    mode: ModeView,
    i: int,
) -> Values {
    let state = migration::just_state(lines.take(i + 1), detected, mode);
    migration::active(state.globals, state.recipe)
}

/// Each line as migrating it alone rewrites it, with the values that hold there.
pub open spec fn each_line_rewritten(
    lines: Seq<Seq<char>>,
    detected: bool,
    mode: ModeView,
) -> Seq<Seq<char>> {
    Seq::new(
        lines.len(),
        |i: int|
            migration::migrated(
                lines[i],
                just_values(lines, detected, mode, i),
                mode,
            ).rewritten,
    )
}

/// What is known after some lines of a `justfile`, line by line.
proof fn lemma_just_state(
    lines: Seq<Seq<char>>,
    detected: bool,
    mode: ModeView,
    n: int,
    x: Seq<char>,
)
    requires
        0 <= n <= lines.len(),
    ensures
        ({
            let state = migration::just_state(lines.take(n), detected, mode);
            &&& state.lines.len() == n
            &&& forall|i: int|
                0 <= i < n ==> #[trigger] state.lines[i] == migration::migrated(
                    lines[i],
                    just_values(lines, detected, mode, i),
                    mode,
                ).rewritten
            &&& state.items.contains(x) <==> exists|i: int|
                0 <= i < n && (migration::migrated(
                    #[trigger] lines[i],
                    just_values(lines, detected, mode, i),
                    mode,
                ).items.contains(x) || migration::metadata_items(
                    lines[i],
                    just_values(lines, detected, mode, i),
                ).contains(x))
            &&& state.uses_dotenv <==> exists|i: int|
                0 <= i < n && migration::migrated(
                    #[trigger] lines[i],
                    just_values(lines, detected, mode, i),
                    mode,
                ).uses_dotenv
        }),
    decreases n,
{
    let state = migration::just_state(lines.take(n), detected, mode);
    if n > 0 {
        let k = n - 1;
        lemma_just_state(lines, detected, mode, k, x);
        assert(lines.take(n).drop_last() =~= lines.take(k));
        assert(lines.take(n).last() == lines[k]);
        let before = migration::just_state(lines.take(k), detected, mode);
        let values = just_values(lines, detected, mode, k);
        let here = migration::migrated(lines[k], values, mode);
        assert(lines.take(k + 1) == lines.take(n));
        assert(state.lines == before.lines.push(here.rewritten));
        let named = migration::metadata_items(lines[k], values);
        assert(state.items == before.items + named + here.items);
        lemma_joined_contains(before.items, named, x);
        lemma_joined_contains(before.items + named, here.items, x);
    } else {
        assert(lines.take(0) =~= Seq::empty());
    }
}

/// Every line of a `justfile` becomes what migrating that line alone makes of it, with the values
/// that hold there; none is lost, and none is added.
pub proof fn law_every_line_rewritten(s: Seq<char>, lines: Seq<Seq<char>>, mode: ModeView)
    requires
        text::pieces(s, seq!['\n']) == lines && lines.last().len() > 0 || text::pieces(
            s,
            seq!['\n'],
        ) == lines.push(Seq::empty()),
    ensures
        migration::just_migrated(s, mode).rewritten == text::joined(
            if text::pieces(s, seq!['\n']) == lines {
                each_line_rewritten(lines, text::holds(s, "opz"@), mode)
            } else {
                each_line_rewritten(lines, text::holds(s, "opz"@), mode).push(Seq::empty())
            },
            "\n"@,
        ),
{
    let detected = text::holds(s, "opz"@);
    assert(lines.push(Seq::<char>::empty()).drop_last() =~= lines);
    assert(lines == migration::bodies(s));
    let n = lines.len() as int;
    lemma_just_state(lines, detected, mode, n, Seq::empty());
    assert(lines.take(n) =~= lines);
    let state = migration::just_state(lines, detected, mode);
    assert(state.lines =~= each_line_rewritten(lines, detected, mode));
    assert(lines.push(Seq::<char>::empty()).len() != lines.len());
}

/// A `justfile` names exactly the items that its lines name, each once, and uses `.env` exactly
/// where one of them does.
pub proof fn law_just_items(s: Seq<char>, lines: Seq<Seq<char>>, mode: ModeView, x: Seq<char>)
    requires
        text::pieces(s, seq!['\n']) == lines && lines.last().len() > 0 || text::pieces(
            s,
            seq!['\n'],
        ) == lines.push(Seq::empty()),
    ensures
        migration::just_migrated(s, mode).items.contains(x) <==> exists|i: int|
            0 <= i < lines.len() && (migration::migrated(
                #[trigger] lines[i],
                just_values(lines, text::holds(s, "opz"@), mode, i),
                mode,
            ).items.contains(x) || migration::metadata_items(
                lines[i],
                just_values(lines, text::holds(s, "opz"@), mode, i),
            ).contains(x)),
        migration::just_migrated(s, mode).items.no_duplicates(),
        migration::just_migrated(s, mode).uses_dotenv <==> exists|i: int|
            0 <= i < lines.len() && migration::migrated(
                #[trigger] lines[i],
                just_values(lines, text::holds(s, "opz"@), mode, i),
                mode,
            ).uses_dotenv,
{
    let detected = text::holds(s, "opz"@);
    assert(lines.push(Seq::<char>::empty()).drop_last() =~= lines);
    assert(lines == migration::bodies(s));
    let n = lines.len() as int;
    lemma_just_state(lines, detected, mode, n, x);
    assert(lines.take(n) =~= lines);
    let state = migration::just_state(lines, detected, mode);
    seqs::law_deduped(state.items);
    assert(seqs::deduped(state.items).contains(x) <==> state.items.contains(x));
}

/// In a line behind another one the same values hold, where it begins with a blank.
pub proof fn law_just_values_stay(lines: Seq<Seq<char>>, detected: bool, mode: ModeView, i: int)
    requires
        0 < i < lines.len(),
        lines[i].len() == 0 || lines[i][0] == ' ' || lines[i][0] == '\t',
    ensures
        just_values(lines, detected, mode, i) == just_values(lines, detected, mode, i - 1),
{
    assert(lines.take(i + 1).drop_last() =~= lines.take(i));
    assert(lines.take(i + 1).last() == lines[i]);
    assert(lines.take(i - 1 + 1) =~= lines.take(i));
}

/// Without a colon in any line no value holds.
pub proof fn law_no_just_values(lines: Seq<Seq<char>>, detected: bool, mode: ModeView, i: int)
    requires
        0 <= i < lines.len(),
        forall|k: int| 0 <= k <= i ==> !(#[trigger] lines[k]).contains(':'),
    ensures
        just_values(lines, detected, mode, i) == Seq::<(Seq<char>, Seq<char>)>::empty(),
{
    lemma_no_values(lines, detected, mode, i + 1);
}

/// Without a colon in the first lines no value is known after them.
proof fn lemma_no_values(lines: Seq<Seq<char>>, detected: bool, mode: ModeView, n: int)
    requires
        0 <= n <= lines.len(),
        forall|k: int| 0 <= k < n ==> !(#[trigger] lines[k]).contains(':'),
    ensures
        migration::just_state(lines.take(n), detected, mode).globals == Seq::<
            (Seq<char>, Seq<char>),
        >::empty(),
        migration::just_state(lines.take(n), detected, mode).recipe == Seq::<
            (Seq<char>, Seq<char>),
        >::empty(),
    decreases n,
{
    reveal_strlit(":=");
    reveal_strlit(":");
    if n > 0 {
        lemma_no_values(lines, detected, mode, n - 1);
        assert(lines.take(n).drop_last() =~= lines.take(n - 1));
        let line = lines[n - 1];
        assert(lines.take(n).last() == line);
        assert forall|j: int| 0 <= j && j + ":="@.len() <= line.len() implies #[trigger] line.subrange(
            j,
            j + ":="@.len(),
        ) != ":="@ by {
            assert(line.subrange(j, j + 2)[0] == line[j]);
            assert(line.contains(line[j]));
        }
        text_laws::law_not_parted(line, ":="@);
        assert forall|j: int| 0 <= j && j + ":"@.len() <= line.len() implies #[trigger] line.subrange(
            j,
            j + ":"@.len(),
        ) != ":"@ by {
            assert(line.subrange(j, j + 1)[0] == line[j]);
            assert(line.contains(line[j]));
        }
        text_laws::law_not_parted(line, ":"@);
    }
}

} // verus!
