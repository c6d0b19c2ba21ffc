//! Finding and rewriting the items that scripts name.

use vstd::prelude::*;
use vstd::string::*;

use crate::failure::Failure;
use crate::json;
use crate::json::{Json, JsonView};
use crate::map::StringMap;
use crate::pattern;
use crate::seqs;
use crate::text;

verus! {

broadcast use crate::seqs::group_seqs;

/// What a script was found to use, and what it was rewritten to.
#[derive(Debug)]
pub struct ScriptMigration {
    pub items: Vec<String>,
    pub uses_dotenv: bool,
    pub detected_opz: bool,
    pub rewritten: String,
}

/// The content of a `ScriptMigration`.
#[verifier::ext_equal]
pub struct MigrationView {
    pub items: Seq<Seq<char>>,
    pub uses_dotenv: bool,
    pub detected_opz: bool,
    pub rewritten: Seq<char>,
}

impl DeepView for ScriptMigration {
    type V = MigrationView;

    open spec fn deep_view(&self) -> MigrationView {
        MigrationView {
            items: seqs::texts(self.items@),
            uses_dotenv: self.uses_dotenv,
            detected_opz: self.detected_opz,
            rewritten: self.rewritten@,
        }
    }
}

/// What to do with the scripts.
#[derive(Clone, Copy, Debug)]
pub enum ScriptMigrationMode<'a> {
    Collect,
    RenameItems { title: &'a str },
    Restore { title: &'a str },
}

/// The content of a `ScriptMigrationMode`.
pub enum ModeView {
    Collect,
    RenameItems(Seq<char>),
    Restore(Seq<char>),
}

impl<'a> DeepView for ScriptMigrationMode<'a> {
    type V = ModeView;

    open spec fn deep_view(&self) -> ModeView {
        match self {
            ScriptMigrationMode::Collect => ModeView::Collect,
            ScriptMigrationMode::RenameItems { title } => ModeView::RenameItems(title@),
            ScriptMigrationMode::Restore { title } => ModeView::Restore(title@),
        }
    }
}

/// Named values, in the order of their names.
pub type Values = Seq<(Seq<char>, Seq<char>)>;

/// Whether a token stands for itself: nothing in it is expanded by a shell or by `just`.
pub open spec fn is_static(s: Seq<char>) -> bool {
    !s.contains('{') && !s.contains('}') && !s.contains('$') && !s.contains('*') && !s.contains('?')
        && !s.contains('`') && !s.contains('(') && !s.contains(')')
}

/// Whether a token stands for itself.
pub fn is_static_item_token(value: &str) -> (r: bool)
    ensures
        r == is_static(value@),
{
    !text::contains_char(value, '{') && !text::contains_char(value, '}') && !text::contains_char(
        value,
        '$',
    ) && !text::contains_char(value, '*') && !text::contains_char(value, '?')
        && !text::contains_char(value, '`') && !text::contains_char(value, '(')
        && !text::contains_char(value, ')')
}

/// The item that a token stands for: itself, or the value that it names between double braces.
pub open spec fn resolved_token(value: Seq<char>, values: Values) -> Option<Seq<char>> {
    if is_static(value) {
        Some(value)
    } else {
        match text::after_prefix(value, "{{"@) {
            Some(rest) => match text::before_suffix(rest, "}}"@) {
                Some(name) => crate::map::lookup(values, text::trimmed(name)),
                None => None,
            },
            None => None,
        }
    }
}

/// The item that a token stands for.
pub fn resolve_migration_item_token(value: &str, item_values: &StringMap<String>) -> (r: Option<
    String,
>)
    ensures
        r.deep_view() == resolved_token(value@, item_values.strings()),
{
    if is_static_item_token(value) {
        return Some(value.to_owned());
    }
    match text::strip_prefix(value, "{{") {
        Some(rest) => match text::strip_suffix(rest, "}}") {
            Some(name) => match item_values.get_text(text::trim(name)) {
                Some(item) => Some(item.clone()),
                None => None,
            },
            None => None,
        },
        None => None,
    }
}

/// The position of the first value that is not empty and whose name holds `part`.
pub open spec fn named_value(values: Values, part: Seq<char>, from: int) -> Option<int>
    decreases values.len() - from,
{
    if from < 0 || from >= values.len() {
        None
    } else if text::holds(values[from].0, part) && values[from].1.len() > 0 {
        Some(from)
    } else {
        named_value(values, part, from + 1)
    }
}

/// The token that names the item to restore: the value `item`, else a value whose name speaks of
/// an item, else any value, else the title itself.
pub open spec fn restore_token(values: Values, title: Seq<char>) -> Seq<char> {
    match crate::map::lookup(values, "item"@) {
        Some(v) => if v.len() > 0 {
            "{{item}}"@
        } else {
            other_token(values, title)
        },
        None => other_token(values, title),
    }
}

/// The token that names the item to restore, where there is no value `item`.
pub open spec fn other_token(values: Values, title: Seq<char>) -> Seq<char> {
    match named_value(values, "item"@, 0) {
        Some(i) => "{{"@ + values[i].0 + "}}"@,
        None => match named_value(values, ""@, 0) {
            Some(i) => "{{"@ + values[i].0 + "}}"@,
            None => title,
        },
    }
}

/// The position of the first value that is not empty and whose name holds `part`.
fn find_named(values: &StringMap<String>, part: &str) -> (r: Option<usize>)
    ensures
        match r {
            Some(i) => named_value(values.strings(), part@, 0) == Some(i as int) && i
                < values@.len(),
            None => named_value(values.strings(), part@, 0) is None,
        },
{
    let ghost all = values.strings();
    let mut i: usize = 0;
    while i < values.len()
        invariant
            i <= values@.len(),
            all == values.strings(),
            all.len() == values@.len(),
            named_value(all, part@, 0) == named_value(all, part@, i as int),
        decreases values@.len() - i,
    {
        assert(all[i as int] == (values@[i as int].0, values@[i as int].1@));
        if text::contains(values.key(i), part) && values.value(i).as_str().unicode_len() > 0 {
            return Some(i);
        }
        i += 1;
    }
    None
}

/// The token that names the item to restore.
pub fn preferred_restore_item_token(item_values: &StringMap<String>, fallback_title: &str) -> (r:
    String)
    ensures
        r@ == restore_token(item_values.strings(), fallback_title@),
{
    if let Some(value) = item_values.get_text("item") {
        if value.as_str().unicode_len() > 0 {
            return "{{item}}".to_owned();
        }
    }
    let ghost all = item_values.strings();
    if let Some(i) = find_named(item_values, "item") {
        assert(all[i as int].0 == item_values@[i as int].0);
        return "{{".to_owned().concat(item_values.key(i)).concat("}}");
    }
    if let Some(i) = find_named(item_values, "") {
        assert(all[i as int].0 == item_values@[i as int].0);
        return "{{".to_owned().concat(item_values.key(i)).concat("}}");
    }
    fallback_title.to_owned()
}

/// The places in scripts where an item may stand.
#[derive(Clone, Copy, Debug)]
pub enum Place {
    Run,
    Shorthand,
    ItemlessRun,
    Itemless,
    ItemGet,
    Gen,
    Create,
}

/// The pattern for a place.
pub open spec fn place_pattern(place: Place) -> Seq<char> {
    match place {
        Place::Run => pattern::OPZ_RUN@,
        Place::Shorthand => pattern::OPZ_SHORTHAND@,
        Place::ItemlessRun => pattern::OPZ_RUN_ITEMLESS@,
        Place::Itemless => pattern::OPZ_ITEMLESS@,
        Place::ItemGet => pattern::OP_ITEM_GET@,
        Place::Gen => pattern::OPZ_GEN@,
        Place::Create => pattern::OPZ_CREATE@,
    }
}

/// How many groups the pattern of a place has, with the whole match.
pub open spec fn place_groups(place: Place) -> nat {
    match place {
        Place::Run => 3,
        Place::Itemless => 1,
        _ => 2,
    }
}

/// The pattern for a place.
fn pattern_of(place: Place) -> (r: &'static str)
    ensures
        r@ == place_pattern(place),
        pattern::is_own_pattern(r@),
        place_groups(place) <= pattern::group_count(r@),
{
    match place {
        Place::Run => pattern::OPZ_RUN,
        Place::Shorthand => pattern::OPZ_SHORTHAND,
        Place::ItemlessRun => pattern::OPZ_RUN_ITEMLESS,
        Place::Itemless => pattern::OPZ_ITEMLESS,
        Place::ItemGet => pattern::OP_ITEM_GET,
        Place::Gen => pattern::OPZ_GEN,
        Place::Create => pattern::OPZ_CREATE,
    }
}

/// The matches of a place in a text, each as its groups; the first group is the whole match.
pub open spec fn found(place: Place, s: Seq<char>) -> Seq<Seq<Seq<char>>> {
    let matches = pattern::regex_captures(place_pattern(place), s);
    Seq::new(
        matches.len(),
        |i: int| Seq::new(place_groups(place), |j: int| matches[i][j]->0),
    )
}

/// Lists of texts.
pub open spec fn lists(v: Seq<Vec<String>>) -> Seq<Seq<Seq<char>>> {
    Seq::new(v.len(), |i: int| seqs::texts(v[i]@))
}

/// The matches of a place in a text, and the parts of the text between them.
struct Found {
    matches: Vec<Vec<String>>,
    gaps: Vec<String>,
}

/// Finds the matches of a place in a text.
fn find_all(place: Place, s: &str) -> (r: Found)
    ensures
        lists(r.matches@) == found(place, s@),
        seqs::texts(r.gaps@) == pattern::regex_gaps(place_pattern(place), s@),
        r.gaps@.len() == r.matches@.len() + 1,
        forall|i: int|
            0 <= i < r.matches@.len() ==> (#[trigger] r.matches@[i])@.len() == place_groups(place),
        pattern::interleaved(seqs::texts(r.gaps@), heads(found(place, s@))) == s@,
{
    let source = pattern_of(place);
    let ghost p = source@;
    let re = match pattern::compile(source) {
        Ok(re) => re,
        Err(_) => {
            assert(false);
            return Found { matches: Vec::new(), gaps: Vec::new() };
        },
    };
    let captures = pattern::captures(&re, s);
    let gaps = pattern::gaps(&re, s);
    let n: usize = match place {
        Place::Run => 3,
        Place::Itemless => 1,
        _ => 2,
    };
    let ghost all = pattern::regex_captures(p, s@);
    let mut matches: Vec<Vec<String>> = Vec::new();
    let mut i: usize = 0;
    while i < captures.len()
        invariant
            i <= captures@.len(),
            p == place_pattern(place),
            n == place_groups(place),
            n <= pattern::group_count(p),
            pattern::groups(captures@) == all,
            all == pattern::regex_captures(p, s@),
            forall|i: int, j: int|
                0 <= i < captures@.len() && 0 <= j < pattern::group_count(p) ==> (
                #[trigger] captures@[i])@.len() >= pattern::group_count(p) && (
                #[trigger] captures@[i]@[j]) is Some,
            matches@.len() == i,
            forall|k: int|
                0 <= k < i ==> seqs::texts((#[trigger] matches@[k])@) == found(place, s@)[k],
            forall|k: int|
                0 <= k < i ==> (#[trigger] matches@[k])@.len() == place_groups(place),
        decreases captures@.len() - i,
    {
        assert(captures@[i as int]@[0] is Some);
        let mut parts = seqs::no_texts();
        let mut j: usize = 0;
        while j < n
            invariant
                j <= n,
                i < captures@.len(),
                p == place_pattern(place),
                n == place_groups(place),
                n <= pattern::group_count(p),
                captures@[i as int]@.len() >= pattern::group_count(p),
                pattern::groups(captures@) == all,
                all == pattern::regex_captures(p, s@),
                forall|i: int, j: int|
                    0 <= i < captures@.len() && 0 <= j < pattern::group_count(p) ==> (
                    #[trigger] captures@[i])@.len() >= pattern::group_count(p) && (
                    #[trigger] captures@[i]@[j]) is Some,
                seqs::texts(parts@).len() == j,
                forall|k: int| 0 <= k < j ==> seqs::texts(parts@)[k] == all[i as int][k]->0,
            decreases n - j,
        {
            assert(captures@[i as int]@[j as int] is Some);
            assert(all[i as int][j as int] == captures@[i as int]@[j as int].deep_view());
            let part = match &captures[i][j] {
                Some(part) => part.clone(),
                None => String::new(),
            };
            seqs::push_string(&mut parts, part);
            j += 1;
        }
        assert(seqs::texts(parts@) =~= found(place, s@)[i as int]);
        assert(parts@.len() == seqs::texts(parts@).len());
        matches.push(parts);
        i += 1;
    }
    assert(lists(matches@) =~= found(place, s@));
    assert(heads(found(place, s@)) =~= pattern::wholes(all));
    Found { matches, gaps }
}

/// The whole matches.
pub open spec fn heads(matches: Seq<Seq<Seq<char>>>) -> Seq<Seq<char>> {
    Seq::new(matches.len(), |i: int| matches[i][0])
}

/// Whether a token is the name of a command of this program, not that of an item.
pub open spec fn is_reserved(token: Seq<char>) -> bool {
    token == "run"@ || token == "find"@ || token == "doctor"@ || token == "skills"@ || token
        == "show"@ || token == "gen"@ || token == "create"@ || token == "migrate"@ || token
        == "note"@ || token == "github-repo"@ || token == "github-secret"@ || token
        == "cloudflare-secret"@
}

/// Whether a token is the name of a command of this program.
pub fn is_reserved_token(token: &str) -> (r: bool)
    ensures
        r == is_reserved(token@),
{
    text::same(token, "run") || text::same(token, "find") || text::same(token, "doctor")
        || text::same(token, "skills") || text::same(token, "show") || text::same(token, "gen")
        || text::same(token, "create") || text::same(token, "migrate") || text::same(token, "note")
        || text::same(token, "github-repo") || text::same(token, "github-secret") || text::same(
        token,
        "cloudflare-secret",
    )
}

/// The first word at or after `from` that is neither an option nor the value of `--env-file`.
pub open spec fn plain_word(words: Seq<Seq<char>>, from: int) -> Option<Seq<char>>
    decreases words.len() - from + 1,
{
    if from < 0 || from >= words.len() {
        None
    } else if words[from] == "--env-file"@ {
        plain_word(words, from + 2)
    } else if text::begins(words[from], "--env-file="@) || text::begins(words[from], "-"@) {
        plain_word(words, from + 1)
    } else {
        Some(words[from])
    }
}

/// The first argument of `opz gen` that names an item.
pub fn first_opz_gen_item_token(args: &str) -> (r: Option<String>)
    ensures
        r.deep_view() == plain_word(text::words(args@), 0),
{
    let words = text::split_words(args);
    let ghost all = seqs::texts(words@);
    let mut i: usize = 0;
    while i < words.len()
        invariant
            i <= words@.len(),
            all == seqs::texts(words@),
            all == text::words(args@),
            plain_word(all, 0) == plain_word(all, i as int),
        decreases words@.len() - i,
    {
        assert(all[i as int] == words@[i as int]@);
        let word = &words[i];
        if text::same(word, "--env-file") {
            if words.len() - i < 2 {
                assert(plain_word(all, i + 2) is None);
                return None;
            }
            i += 2;
            continue;
        }
        if !(text::starts_with(word, "--env-file=") || text::starts_with(word, "-")) {
            return Some(word.clone());
        }
        i += 1;
    }
    None
}

/// The token for an item in a match of a place.
pub open spec fn place_token(place: Place, groups: Seq<Seq<char>>) -> Option<Seq<char>> {
    match place {
        Place::Run => Some(groups[2]),
        Place::Shorthand => if is_reserved(groups[1]) {
            None
        } else {
            Some(groups[1])
        },
        Place::ItemGet => Some(groups[1]),
        Place::Gen => plain_word(text::words(groups[1]), 0),
        Place::Create => Some(groups[1]),
        Place::ItemlessRun => None,
        Place::Itemless => None,
    }
}

/// The token for an item in a match of a place.
pub fn token_of(place: Place, groups: &Vec<String>) -> (r: Option<String>)
    requires
        groups@.len() == place_groups(place),
    ensures
        r.deep_view() == place_token(place, seqs::texts(groups@)),
{
    match place {
        Place::Run => Some(groups[2].clone()),
        Place::Shorthand => if is_reserved_token(&groups[1]) {
            None
        } else {
            Some(groups[1].clone())
        },
        Place::ItemGet => Some(groups[1].clone()),
        Place::Gen => first_opz_gen_item_token(&groups[1]),
        Place::Create => Some(groups[1].clone()),
        Place::ItemlessRun => None,
        Place::Itemless => None,
    }
}

/// The item that a match of a place names.
pub open spec fn place_item(place: Place, groups: Seq<Seq<char>>, values: Values) -> Option<
    Seq<char>,
> {
    match place_token(place, groups) {
        Some(token) => resolved_token(token, values),
        None => None,
    }
}

/// The items that the matches of a place name.
pub open spec fn place_items(
    place: Place,
    matches: Seq<Seq<Seq<char>>>,
    values: Values,
) -> Seq<Seq<char>>
    decreases matches.len(),
{
    if matches.len() == 0 {
        Seq::empty()
    } else {
        let before = place_items(place, matches.drop_last(), values);
        match place_item(place, matches.last(), values) {
            Some(item) => before.push(item),
            None => before,
        }
    }
}

/// The items that the matches of a place name; a match is given as its groups, the whole match
/// first.
pub fn matched_items(place: Place, matches: &Vec<Vec<String>>, values: &StringMap<String>) -> (r: Vec<
    String,
>)
    requires
        forall|i: int|
            0 <= i < matches@.len() ==> (#[trigger] matches@[i])@.len() == place_groups(place),
    ensures
        seqs::texts(r@) == place_items(place, lists(matches@), values.strings()),
{
    let ghost all = lists(matches@);
    let mut items = seqs::no_texts();
    let mut i: usize = 0;
    while i < matches.len()
        invariant
            i <= matches@.len(),
            all == lists(matches@),
            forall|i: int|
                0 <= i < matches@.len() ==> (#[trigger] matches@[i])@.len() == place_groups(place),
            seqs::texts(items@) == place_items(place, all.take(i as int), values.strings()),
        decreases matches@.len() - i,
    {
        proof {
            assert(all.take(i + 1).drop_last() == all.take(i as int));
            assert(all.take(i + 1).last() == seqs::texts(matches@[i as int]@));
        }
        if let Some(token) = token_of(place, &matches[i]) {
            if let Some(item) = resolve_migration_item_token(&token, values) {
                seqs::push_string(&mut items, item);
            }
        }
        i += 1;
    }
    assert(all.take(i as int) =~= all);
    items
}

/// What stands in place of a match.
pub open spec fn place_part(
    place: Place,
    groups: Seq<Seq<char>>,
    values: Values,
    mode: ModeView,
) -> Seq<char> {
    match (place, mode) {
        (Place::Run, ModeView::RenameItems(title)) => if is_static(groups[2]) {
            "opz run"@ + groups[1] + " "@ + title + " --"@
        } else {
            groups[0]
        },
        (Place::Shorthand, ModeView::RenameItems(title)) => if is_static(groups[1])
            && !is_reserved(groups[1]) {
            "opz "@ + title + " --"@
        } else {
            groups[0]
        },
        (Place::ItemlessRun, ModeView::Restore(title)) => "opz run"@ + groups[1] + " "@
            + restore_token(values, title) + " --"@,
        (Place::Itemless, ModeView::Restore(title)) => "opz "@ + restore_token(values, title)
            + " --"@,
        _ => groups[0],
    }
}

/// What stands in place of a match.
pub fn part_of(place: Place, groups: &Vec<String>, values: &StringMap<String>, mode: ScriptMigrationMode) -> (r:
    String)
    requires
        groups@.len() == place_groups(place),
    ensures
        r@ == place_part(place, seqs::texts(groups@), values.strings(), mode.deep_view()),
{
    match (place, mode) {
        (Place::Run, ScriptMigrationMode::RenameItems { title }) => if is_static_item_token(
            &groups[2],
        ) {
            "opz run".to_owned().concat(&groups[1]).concat(" ").concat(title).concat(" --")
        } else {
            groups[0].clone()
        },
        (Place::Shorthand, ScriptMigrationMode::RenameItems { title }) => if is_static_item_token(
            &groups[1],
        ) && !is_reserved_token(&groups[1]) {
            "opz ".to_owned().concat(title).concat(" --")
        } else {
            groups[0].clone()
        },
        (Place::ItemlessRun, ScriptMigrationMode::Restore { title }) => {
            let item = preferred_restore_item_token(values, title);
            "opz run".to_owned().concat(&groups[1]).concat(" ").concat(&item).concat(" --")
        },
        (Place::Itemless, ScriptMigrationMode::Restore { title }) => {
            let item = preferred_restore_item_token(values, title);
            "opz ".to_owned().concat(&item).concat(" --")
        },
        _ => groups[0].clone(),
    }
}

/// A text in which the matches of a place were rewritten.
pub open spec fn place_rewritten(place: Place, s: Seq<char>, values: Values, mode: ModeView) -> Seq<
    char,
> {
    let matches = found(place, s);
    pattern::interleaved(
        pattern::regex_gaps(place_pattern(place), s),
        Seq::new(matches.len(), |i: int| place_part(place, matches[i], values, mode)),
    )
}

/// The text that gaps and the parts between them make up.
fn weave(gaps: &Vec<String>, parts: &Vec<String>) -> (r: String)
    requires
        gaps@.len() == parts@.len() + 1,
    ensures
        r@ == pattern::interleaved(seqs::texts(gaps@), seqs::texts(parts@)),
{
    let ghost g = seqs::texts(gaps@);
    let ghost p = seqs::texts(parts@);
    let mut r = gaps[0].clone();
    let mut i: usize = 0;
    while i < parts.len()
        invariant
            i <= parts@.len(),
            gaps@.len() == parts@.len() + 1,
            g == seqs::texts(gaps@),
            p == seqs::texts(parts@),
            r@ == pattern::interleaved(g.take(i + 1), p.take(i as int)),
        decreases parts@.len() - i,
    {
        proof {
            assert(g.take(i + 2).drop_last() =~= g.take(i + 1));
            assert(p.take(i + 1).drop_last() =~= p.take(i as int));
        }
        r.append(&parts[i]);
        r.append(&gaps[i + 1]);
        i += 1;
    }
    r
}

/// The text that gaps and what stands in place of the matches between them make up; a match is
/// given as its groups, the whole match first.
pub fn rewrite_matches(
    place: Place,
    matches: &Vec<Vec<String>>,
    gaps: &Vec<String>,
    values: &StringMap<String>,
    mode: ScriptMigrationMode,
) -> (r: String)
    requires
        gaps@.len() == matches@.len() + 1,
        forall|i: int|
            0 <= i < matches@.len() ==> (#[trigger] matches@[i])@.len() == place_groups(place),
    ensures
        r@ == pattern::interleaved(
            seqs::texts(gaps@),
            Seq::new(
                matches@.len(),
                |i: int|
                    place_part(place, lists(matches@)[i], values.strings(), mode.deep_view()),
            ),
        ),
        mode is Collect ==> r@ == pattern::interleaved(
            seqs::texts(gaps@),
            heads(lists(matches@)),
        ),
{
    let ghost all = lists(matches@);
    let mut parts = seqs::no_texts();
    let mut i: usize = 0;
    while i < matches.len()
        invariant
            i <= matches@.len(),
            all == lists(matches@),
            forall|i: int|
                0 <= i < matches@.len() ==> (#[trigger] matches@[i])@.len() == place_groups(place),
            seqs::texts(parts@).len() == i,
            forall|k: int|
                0 <= k < i ==> (#[trigger] seqs::texts(parts@)[k]) == place_part(
                    place,
                    all[k],
                    values.strings(),
                    mode.deep_view(),
                ),
        decreases matches@.len() - i,
    {
        assert(all[i as int] == seqs::texts(matches@[i as int]@));
        let part = part_of(place, &matches[i], values, mode);
        seqs::push_string(&mut parts, part);
        i += 1;
    }
    proof {
        assert(parts@.len() == seqs::texts(parts@).len());
        assert(seqs::texts(parts@) =~= Seq::new(
            all.len(),
            |i: int| place_part(place, all[i], values.strings(), mode.deep_view()),
        ));
        if mode is Collect {
            assert(seqs::texts(parts@) =~= heads(all));
        }
    }
    weave(gaps, &parts)
}

/// Rewrites the matches of a place.
fn rewrite(found_here: &Found, place: Place, s: &str, values: &StringMap<String>, mode:
    ScriptMigrationMode) -> (r: String)
    requires
        lists(found_here.matches@) == found(place, s@),
        seqs::texts(found_here.gaps@) == pattern::regex_gaps(place_pattern(place), s@),
        found_here.gaps@.len() == found_here.matches@.len() + 1,
        forall|i: int|
            0 <= i < found_here.matches@.len() ==> (#[trigger] found_here.matches@[i])@.len()
                == place_groups(place),
        pattern::interleaved(seqs::texts(found_here.gaps@), heads(found(place, s@))) == s@,
    ensures
        r@ == place_rewritten(place, s@, values.strings(), mode.deep_view()),
        mode is Collect ==> r@ == s@,
{
    let ghost all = found(place, s@);
    assert(all.len() == found_here.matches@.len());
    rewrite_matches(place, &found_here.matches, &found_here.gaps, values, mode)
}

/// A line of a `justfile` with the title of the renamed item, where it assigns to a value whose
/// name speaks of an item.
pub open spec fn assignment_rewritten(s: Seq<char>, values: Values, mode: ModeView) -> Seq<char> {
    match mode {
        ModeView::RenameItems(title) => match text::parted(s, ":="@) {
            Some((name, value)) => if crate::map::has_key(values, text::trimmed(name)) && text::holds(
                text::trimmed(name),
                "item"@,
            ) && (text::begins(text::trimmed(value), "\""@) || text::begins(
                text::trimmed(value),
                "'"@,
            )) {
                name + ":="@ + " \""@ + title + "\""@
            } else {
                s
            },
            None => s,
        },
        _ => s,
    }
}

/// A line of a `justfile` with the title of the renamed item.
pub fn rewrite_just_item_assignments(
    content: &str,
    item_values: &StringMap<String>,
    mode: ScriptMigrationMode,
) -> (r: String)
    ensures
        r@ == assignment_rewritten(content@, item_values.strings(), mode.deep_view()),
{
    let title = match mode {
        ScriptMigrationMode::RenameItems { title } => title,
        _ => return content.to_owned(),
    };
    match text::split_once(content, ":=") {
        None => content.to_owned(),
        Some((lhs, rhs)) => {
            let name = text::trim(lhs);
            let value = text::trim(rhs);
            if item_values.get_text(name).is_some() && text::contains(name, "item") && (
            text::starts_with(value, "\"") || text::starts_with(value, "'")) {
                lhs.to_owned().concat(":=").concat(" \"").concat(title).concat("\"")
            } else {
                content.to_owned()
            }
        },
    }
}

/// A text after the rewriting of the places at which items are named or left out.
pub open spec fn places_rewritten(s: Seq<char>, values: Values, mode: ModeView) -> Seq<char> {
    let run = place_rewritten(Place::Run, s, values, mode);
    let short = place_rewritten(Place::Shorthand, run, values, mode);
    match mode {
        ModeView::Restore(_) => {
            let itemless_run = place_rewritten(Place::ItemlessRun, short, values, mode);
            place_rewritten(Place::Itemless, itemless_run, values, mode)
        },
        _ => short,
    }
}

/// The items that a text names.
pub open spec fn script_items(s: Seq<char>, values: Values, mode: ModeView) -> Seq<Seq<char>> {
    let run = place_rewritten(Place::Run, s, values, mode);
    place_items(Place::Run, found(Place::Run, s), values) + place_items(
        Place::Shorthand,
        found(Place::Shorthand, run),
        values,
    ) + place_items(
        Place::ItemGet,
        found(Place::ItemGet, places_rewritten(s, values, mode)),
        values,
    )
}

/// A text in which the use of `.env` is replaced by the item.
pub open spec fn dotenv_rewritten(s: Seq<char>, mode: ModeView) -> Seq<char> {
    match mode {
        ModeView::Collect => s,
        ModeView::RenameItems(title) => pattern::regex_replaced(
            pattern::OP_RUN_DOTENV@,
            s,
            "opz run "@ + title + " --"@,
        ),
        ModeView::Restore(title) => pattern::regex_replaced(
            pattern::OP_RUN_DOTENV@,
            s,
            "opz run "@ + title + " --"@,
        ),
    }
}

/// What a text uses, and what it is rewritten to.
pub open spec fn migrated(s: Seq<char>, values: Values, mode: ModeView) -> MigrationView {
    let places = places_rewritten(s, values, mode);
    MigrationView {
        items: seqs::deduped(script_items(s, values, mode)),
        uses_dotenv: pattern::regex_match(pattern::OP_RUN_DOTENV@, places),
        detected_opz: text::holds(s, "opz"@),
        rewritten: assignment_rewritten(dotenv_rewritten(places, mode), values, mode),
    }
}

/// What migrations came to.
pub open spec fn told_migration(r: Result<ScriptMigration, Failure>) -> Result<
    MigrationView,
    Seq<Seq<char>>,
> {
    match r {
        Ok(m) => Ok(m.deep_view()),
        Err(e) => Err(e@),
    }
}

/// What a text uses and what it is rewritten to, where tokens may name values. Collecting leaves
/// the text as it is.
pub fn migrate_script_text_with_items(
    content: &str,
    item_values: &StringMap<String>,
    mode: ScriptMigrationMode,
) -> (r: Result<ScriptMigration, Failure>)
    ensures
        told_migration(r) == Ok::<MigrationView, Seq<Seq<char>>>(
            migrated(content@, item_values.strings(), mode.deep_view()),
        ),
        mode is Collect ==> r->Ok_0.rewritten@ == content@,
{
    let ghost values = item_values.strings();
    let ghost m = mode.deep_view();
    let mut items = seqs::no_texts();
    let runs = find_all(Place::Run, content);
    seqs::push_texts(&mut items, &matched_items(Place::Run, &runs.matches, item_values));
    let after_run = rewrite(&runs, Place::Run, content, item_values, mode);
    let shorthands = find_all(Place::Shorthand, &after_run);
    seqs::push_texts(&mut items, &matched_items(Place::Shorthand, &shorthands.matches, item_values));
    let after_shorthand = rewrite(&shorthands, Place::Shorthand, &after_run, item_values, mode);
    let places = match mode {
        ScriptMigrationMode::Restore { title: _ } => {
            let itemless_runs = find_all(Place::ItemlessRun, &after_shorthand);
            let after = rewrite(
                &itemless_runs,
                Place::ItemlessRun,
                &after_shorthand,
                item_values,
                mode,
            );
            let itemless = find_all(Place::Itemless, &after);
            rewrite(&itemless, Place::Itemless, &after, item_values, mode)
        },
        _ => after_shorthand,
    };
    let gets = find_all(Place::ItemGet, &places);
    seqs::push_texts(&mut items, &matched_items(Place::ItemGet, &gets.matches, item_values));
    proof {
        let a = place_items(Place::Run, found(Place::Run, content@), values);
        let b = place_items(Place::Shorthand, found(Place::Shorthand, after_run@), values);
        let c = place_items(Place::ItemGet, found(Place::ItemGet, places@), values);
        assert(Seq::<Seq<char>>::empty() + a + b + c =~= a + b + c);
        assert(seqs::texts(items@) =~= script_items(content@, values, m));
    }
    let (uses_dotenv, rewritten) = rewrite_dotenv(&places, mode);
    let rewritten = rewrite_just_item_assignments(&rewritten, item_values, mode);
    Ok(
        ScriptMigration {
            items: seqs::dedupe_preserve_order(&items),
            uses_dotenv,
            detected_opz: text::contains(content, "opz"),
            rewritten,
        },
    )
}

/// Whether a text uses `.env`, and the text in which that is replaced by the item.
fn rewrite_dotenv(s: &str, mode: ScriptMigrationMode) -> (r: (bool, String))
    ensures
        r.0 == pattern::regex_match(pattern::OP_RUN_DOTENV@, s@),
        r.1@ == dotenv_rewritten(s@, mode.deep_view()),
{
    let re = match pattern::compile(pattern::OP_RUN_DOTENV) {
        Ok(re) => re,
        Err(_) => {
            assert(false);
            return (false, String::new());
        },
    };
    let uses = pattern::is_match(&re, s);
    let rewritten = match mode {
        ScriptMigrationMode::Collect => s.to_owned(),
        ScriptMigrationMode::RenameItems { title } => {
            pattern::replace_all(&re, s, &"opz run ".to_owned().concat(title).concat(" --"))
        },
        ScriptMigrationMode::Restore { title } => {
            pattern::replace_all(&re, s, &"opz run ".to_owned().concat(title).concat(" --"))
        },
    };
    (uses, rewritten)
}

/// What a text uses and what it is rewritten to. Collecting leaves the text as it is.
pub fn migrate_script_text(content: &str, mode: ScriptMigrationMode) -> (r: Result<
    ScriptMigration,
    Failure,
>)
    ensures
        told_migration(r) == Ok::<MigrationView, Seq<Seq<char>>>(
            migrated(content@, Seq::empty(), mode.deep_view()),
        ),
        mode is Collect ==> r->Ok_0.rewritten@ == content@,
{
    migrate_script_text_with_items(content, &StringMap::empty_text(), mode)
}

/// Whether a line of a `justfile` stands at the top level.
pub open spec fn is_top_level(line: Seq<char>) -> bool {
    text::trimmed(line).len() > 0 && !text::begins(text::trimmed_start(line), "#"@) && line.len() > 0
        && !is_ascii_white(line[0])
}

/// Whether `c` is white space in ASCII.
pub open spec fn is_ascii_white(c: char) -> bool {
    c == ' ' || c == '\t' || c == '\n' || c == '\r' || c == '\x0c'
}

/// Whether a line of a `justfile` stands at the top level.
pub fn is_just_top_level_line(line: &str) -> (r: bool)
    ensures
        r == is_top_level(line@),
{
    if text::trim(line).unicode_len() == 0 || text::starts_with(text::trim_start(line), "#") {
        return false;
    }
    if line.unicode_len() == 0 {
        return false;
    }
    let c = line.get_char(0);
    !(c == ' ' || c == '\t' || c == '\n' || c == '\r' || c == '\x0c')
}

/// Whether `s` is an identifier in a `justfile`.
pub open spec fn is_identifier(s: Seq<char>) -> bool {
    &&& s.len() > 0
    &&& text::is_lower(s[0]) || text::is_upper(s[0]) || s[0] == '_'
    &&& forall|i: int|
        1 <= i < s.len() ==> text::is_alnum(#[trigger] s[i]) || s[i] == '_' || s[i] == '-'
}

/// Whether `value` is an identifier in a `justfile`.
pub fn is_just_identifier(value: &str) -> (r: bool)
    ensures
        r == is_identifier(value@),
{
    let chars = text::chars_of(value);
    if chars.len() == 0 {
        return false;
    }
    let first = chars[0];
    if !(('a' <= first && first <= 'z') || ('A' <= first && first <= 'Z') || first == '_') {
        return false;
    }
    let mut i: usize = 1;
    while i < chars.len()
        invariant
            1 <= i <= chars@.len(),
            chars@ == value@,
            forall|k: int|
                1 <= k < i ==> text::is_alnum(#[trigger] value@[k]) || value@[k] == '_' || value@[k]
                    == '-',
        decreases chars@.len() - i,
    {
        let c = chars[i];
        assert(value@[i as int] == c);
        if !(text::is_ascii_alphanumeric(c) || c == '_' || c == '-') {
            return false;
        }
        i += 1;
    }
    true
}

/// What stands between quotes.
pub open spec fn unquoted(s: Seq<char>, quote: Seq<char>) -> Option<Seq<char>> {
    match text::after_prefix(s, quote) {
        Some(rest) => text::before_suffix(rest, quote),
        None => None,
    }
}

/// The value of an expression in a `justfile`: a quoted text, or a named value.
pub open spec fn just_value(value: Seq<char>, values: Values) -> Option<Seq<char>> {
    let v = text::trimmed(value);
    if unquoted(v, "\""@) is Some {
        unquoted(v, "\""@)
    } else if unquoted(v, "'"@) is Some {
        unquoted(v, "'"@)
    } else {
        crate::map::lookup(values, v)
    }
}

/// What stands between quotes.
fn unquote<'a>(s: &'a str, quote: &str) -> (r: Option<&'a str>)
    ensures
        r.deep_view() == unquoted(s@, quote@),
{
    match text::strip_prefix(s, quote) {
        Some(rest) => text::strip_suffix(rest, quote),
        None => None,
    }
}

/// The value of an expression in a `justfile`.
pub fn resolve_just_value(value: &str, values: &StringMap<String>) -> (r: Option<String>)
    ensures
        r.deep_view() == just_value(value@, values.strings()),
{
    let value = text::trim(value);
    if let Some(inner) = unquote(value, "\"") {
        return Some(inner.to_owned());
    }
    if let Some(inner) = unquote(value, "'") {
        return Some(inner.to_owned());
    }
    match values.get_text(value) {
        Some(v) => Some(v.clone()),
        None => None,
    }
}

/// The name and the value that a line of a `justfile` assigns.
pub open spec fn just_assignment(line: Seq<char>, values: Values) -> Option<(Seq<char>, Seq<char>)> {
    match text::parted(line, ":="@) {
        Some((name, value)) => if is_identifier(text::trimmed(name)) {
            match just_value(text::trimmed(value), values) {
                Some(v) => Some((text::trimmed(name), v)),
                None => None,
            }
        } else {
            None
        },
        None => None,
    }
}

/// The name and the value that a line of a `justfile` assigns.
pub fn parse_just_assignment(line: &str, values: &StringMap<String>) -> (r: Option<
    (String, String),
>)
    ensures
        r.deep_view() == just_assignment(line@, values.strings()),
{
    match text::split_once(line, ":=") {
        Some((name, value)) => {
            let name = text::trim(name);
            if !is_just_identifier(name) {
                return None;
            }
            match resolve_just_value(text::trim(value), values) {
                Some(v) => Some((name.to_owned(), v)),
                None => None,
            }
        },
        None => None,
    }
}

/// The values after the parameters of a recipe were taken in.
pub open spec fn with_parameters(values: Values, words: Seq<Seq<char>>) -> Values
    decreases words.len(),
{
    if words.len() == 0 {
        values
    } else {
        let before = with_parameters(values, words.drop_last());
        match text::parted(words.last(), "="@) {
            Some((name, value)) => match just_value(value, before) {
                Some(v) => if is_identifier(name) {
                    crate::map::inserted(before, name, v)
                } else {
                    before
                },
                None => before,
            },
            None => before,
        }
    }
}

/// The values that hold in a recipe, where the line is the head of one.
pub open spec fn recipe_values(line: Seq<char>, globals: Values) -> Option<Values> {
    if text::holds(line, ":="@) {
        None
    } else {
        match text::parted(line, ":"@) {
            Some((header, _)) => if text::words(header).len() == 0 {
                None
            } else {
                Some(with_parameters(globals, text::words(header).drop_first()))
            },
            None => None,
        }
    }
}

/// The values that hold in a recipe.
pub fn parse_just_recipe_values(line: &str, global_values: &StringMap<String>) -> (r: Option<
    StringMap<String>,
>)
    ensures
        match r {
            Some(m) => recipe_values(line@, global_values.strings()) == Some(m.strings()),
            None => recipe_values(line@, global_values.strings()) is None,
        },
{
    if text::contains(line, ":=") {
        return None;
    }
    let (header, _rest) = match text::split_once(line, ":") {
        Some(parts) => parts,
        None => return None,
    };
    let words = text::split_words(header);
    let ghost all = seqs::texts(words@);
    assert(all.len() == words@.len());
    if words.len() == 0 {
        return None;
    }
    let ghost rest = all.drop_first();
    let mut values = global_values.copy_text();
    let mut i: usize = 1;
    while i < words.len()
        invariant
            1 <= i <= words@.len(),
            all == seqs::texts(words@),
            rest == all.drop_first(),
            values.strings() == with_parameters(global_values.strings(), rest.take(i - 1)),
        decreases words@.len() - i,
    {
        proof {
            assert(rest.take(i as int).drop_last() =~= rest.take(i - 1));
            assert(rest.take(i as int).last() == words@[i as int]@);
        }
        if let Some((name, value)) = text::split_once(&words[i], "=") {
            if is_just_identifier(name) {
                if let Some(v) = resolve_just_value(value, &values) {
                    values.insert_text(name.to_owned(), v);
                }
            }
        }
        i += 1;
    }
    assert(rest.take(words@.len() - 1) =~= rest);
    Some(values)
}

/// The items that the commands of a line which write or create files name.
pub open spec fn metadata_items(line: Seq<char>, values: Values) -> Seq<Seq<char>> {
    place_items(Place::Gen, found(Place::Gen, line), values) + place_items(
        Place::Create,
        found(Place::Create, line),
        values,
    )
}

/// Appends the items that the commands of a line which write or create files name.
pub fn collect_just_opz_metadata_items(
    line: &str,
    item_values: &StringMap<String>,
    items: &mut Vec<String>,
)
    ensures
        seqs::texts(final(items)@) == seqs::texts(old(items)@) + metadata_items(
            line@,
            item_values.strings(),
        ),
{
    let gens = find_all(Place::Gen, line);
    seqs::push_texts(items, &matched_items(Place::Gen, &gens.matches, item_values));
    let creates = find_all(Place::Create, line);
    seqs::push_texts(items, &matched_items(Place::Create, &creates.matches, item_values));
    proof {
        let s = seqs::texts(old(items)@);
        let a = place_items(Place::Gen, found(Place::Gen, line@), item_values.strings());
        let b = place_items(Place::Create, found(Place::Create, line@), item_values.strings());
        assert(s + a + b =~= s + (a + b));
    }
}

/// What is known after some lines of a `justfile`.
#[verifier::ext_equal]
pub struct JustView {
    pub globals: Values,
    pub recipe: Values,
    pub items: Seq<Seq<char>>,
    pub uses_dotenv: bool,
    pub detected_opz: bool,
    pub lines: Seq<Seq<char>>,
}

/// The global values after a line.
pub open spec fn next_globals(globals: Values, line: Seq<char>) -> Values {
    if is_top_level(line) {
        match just_assignment(line, globals) {
            Some((name, value)) => crate::map::inserted(globals, name, value),
            None => globals,
        }
    } else {
        globals
    }
}

/// The values of the recipe after a line.
pub open spec fn next_recipe(globals: Values, recipe: Values, line: Seq<char>) -> Values {
    if is_top_level(line) {
        match recipe_values(line, globals) {
            Some(values) => values,
            None => Seq::empty(),
        }
    } else {
        recipe
    }
}

/// The values that hold in a line: those of the recipe, or the global ones.
pub open spec fn active(globals: Values, recipe: Values) -> Values {
    if recipe.len() == 0 {
        globals
    } else {
        recipe
    }
}

/// What is known after the lines of a `justfile`.
pub open spec fn just_state(lines: Seq<Seq<char>>, detected: bool, mode: ModeView) -> JustView
    decreases lines.len(),
{
    if lines.len() == 0 {
        JustView {
            globals: Seq::empty(),
            recipe: Seq::empty(),
            items: Seq::empty(),
            uses_dotenv: false,
            detected_opz: detected,
            lines: Seq::empty(),
        }
    } else {
        let before = just_state(lines.drop_last(), detected, mode);
        let line = lines.last();
        let globals = next_globals(before.globals, line);
        let recipe = next_recipe(globals, before.recipe, line);
        let values = active(globals, recipe);
        let here = migrated(line, values, mode);
        JustView {
            globals,
            recipe,
            items: before.items + metadata_items(line, values) + here.items,
            uses_dotenv: before.uses_dotenv || here.uses_dotenv,
            detected_opz: before.detected_opz || here.detected_opz,
            lines: before.lines.push(here.rewritten),
        }
    }
}

/// The lines of a text, without an empty one after the last line feed.
pub open spec fn bodies(s: Seq<char>) -> Seq<Seq<char>> {
    let lines = text::pieces(s, seq!['\n']);
    if lines.last().len() == 0 {
        lines.drop_last()
    } else {
        lines
    }
}

/// What a `justfile` uses, and what it is rewritten to.
pub open spec fn just_migrated(s: Seq<char>, mode: ModeView) -> MigrationView {
    let state = just_state(bodies(s), text::holds(s, "opz"@), mode);
    MigrationView {
        items: seqs::deduped(state.items),
        uses_dotenv: state.uses_dotenv,
        detected_opz: state.detected_opz,
        rewritten: text::joined(
            if text::pieces(s, seq!['\n']).last().len() == 0 {
                state.lines.push(Seq::empty())
            } else {
                state.lines
            },
            "\n"@,
        ),
    }
}

/// The pieces of a text, joined by what it was split at, make it up again.
pub proof fn lemma_pieces_joined(s: Seq<char>, c: char)
    ensures
        text::joined(text::pieces(s, seq![c]), seq![c]) == s,
    decreases s.len(),
{
    let all = text::pieces(s, seq![c]);
    text::lemma_pieces_nonempty(s, seq![c]);
    if s.len() == 0 {
        assert(all[0] =~= s);
    } else {
        let front = s.drop_last();
        lemma_pieces_joined(front, c);
        text::lemma_pieces_nonempty(front, seq![c]);
        let before = text::pieces(front, seq![c]);
        let text = text::joined(before, seq![c]);
        if seq![c].contains(s.last()) {
            assert(s.last() == c);
            assert(all.drop_last() =~= before);
            assert(text + seq![c] + Seq::<char>::empty() =~= s);
        } else {
            assert(all.drop_last() =~= before.drop_last());
            if before.len() == 1 {
                assert(all[0] =~= s);
            } else {
                assert(text::joined(all, seq![c]) =~= text.push(s.last()));
            }
        }
        assert(text::joined(all, seq![c]) =~= s);
    }
}

/// What a `justfile` uses and what it is rewritten to. Collecting leaves the text as it is.
#[verifier::rlimit(30)]
pub fn migrate_justfile_scripts(content: &str, mode: ScriptMigrationMode) -> (r: Result<
    ScriptMigration,
    Failure,
>)
    ensures
        told_migration(r) == Ok::<MigrationView, Seq<Seq<char>>>(
            just_migrated(content@, mode.deep_view()),
        ),
        mode is Collect ==> r->Ok_0.rewritten@ == content@,
{
    let separator: [char; 1] = ['\n'];
    let mut lines = text::split_chars(content, &separator);
    let ghost pieces = text::pieces(content@, seq!['\n']);
    proof {
        assert(separator@ =~= seq!['\n']);
        assert(seqs::texts(lines@) == pieces);
        assert(pieces.last() == lines@.last()@);
    }
    let closed = lines[lines.len() - 1].as_str().unicode_len() == 0;
    if closed {
        lines.pop();
        assert(seqs::texts(lines@) =~= pieces.drop_last());
    }
    let ghost all = bodies(content@);
    let ghost m = mode.deep_view();
    let ghost found_opz = text::holds(content@, "opz"@);
    assert(seqs::texts(lines@) == all);
    let mut globals = StringMap::empty_text();
    let mut recipe = StringMap::empty_text();
    let mut items = seqs::no_texts();
    let mut uses_dotenv = false;
    let mut detected_opz = text::contains(content, "opz");
    let mut rewritten = seqs::no_texts();
    let mut i: usize = 0;
    while i < lines.len()
        invariant
            i <= lines@.len(),
            all == seqs::texts(lines@),
            m == mode.deep_view(),
            just_state(all.take(i as int), found_opz, m) == (JustView {
                globals: globals.strings(),
                recipe: recipe.strings(),
                items: seqs::texts(items@),
                uses_dotenv,
                detected_opz,
                lines: seqs::texts(rewritten@),
            }),
            mode is Collect ==> seqs::texts(rewritten@) == all.take(i as int),
        decreases lines@.len() - i,
    {
        let ghost before = just_state(all.take(i as int), found_opz, m);
        proof {
            assert(all.take(i + 1).drop_last() == all.take(i as int));
            assert(all.take(i + 1).last() == lines@[i as int]@);
            assert(all.take(i + 1) =~= all.take(i as int).push(lines@[i as int]@));
        }
        let line = &lines[i];
        if is_just_top_level_line(line) {
            if let Some((name, value)) = parse_just_assignment(line, &globals) {
                globals.insert_text(name, value);
            }
            recipe = match parse_just_recipe_values(line, &globals) {
                Some(values) => values,
                None => StringMap::empty_text(),
            };
        }
        assert(globals.strings() == next_globals(before.globals, line@));
        assert(recipe.strings() == next_recipe(globals.strings(), before.recipe, line@));
        assert(recipe.strings().len() == recipe@.len());
        let values = if recipe.len() == 0 {
            &globals
        } else {
            &recipe
        };
        assert(values.strings() == active(globals.strings(), recipe.strings()));
        match migrate_script_text_with_items(line, values, mode) {
            Ok(migration) => {
                collect_just_opz_metadata_items(line, values, &mut items);
                seqs::push_texts(&mut items, &migration.items);
                uses_dotenv = uses_dotenv || migration.uses_dotenv;
                detected_opz = detected_opz || migration.detected_opz;
                seqs::push_string(&mut rewritten, migration.rewritten);
            },
            Err(_) => {
                assert(false);
            },
        }
        i += 1;
    }
    if closed {
        seqs::push_text(&mut rewritten, "");
    }
    proof {
        reveal_strlit("");
        reveal_strlit("\n");
        assert(""@ =~= Seq::<char>::empty());
        assert("\n"@ =~= seq!['\n']);
        lemma_pieces_joined(content@, '\n');
        if mode is Collect {
            assert(seqs::texts(rewritten@) =~= pieces);
        }
    }
    Ok(
        ScriptMigration {
            items: seqs::dedupe_preserve_order(&items),
            uses_dotenv,
            detected_opz,
            rewritten: text::join(&rewritten, "\n"),
        },
    )
}

/// A text in which the first JSON string with one content gets another content.
pub fn replace_json_string_literal(content: &str, old_text: &str, new_text: &str) -> (r: String)
    ensures
        r@ == text::replaced_once(
            content@,
            json::printed(JsonView::Text(old_text@)),
            json::printed(JsonView::Text(new_text@)),
        ),
{
    text::replace_once(content, &Json::text(old_text).print(), &Json::text(new_text).print())
}

/// What the scripts in a `package.json` use, and its text with them rewritten.
pub open spec fn scripts_migrated(
    scripts: Seq<(Seq<char>, JsonView)>,
    content: Seq<char>,
    mode: ModeView,
) -> MigrationView
    decreases scripts.len(),
{
    if scripts.len() == 0 {
        MigrationView {
            items: Seq::empty(),
            uses_dotenv: false,
            detected_opz: text::holds(content, "opz"@),
            rewritten: content,
        }
    } else {
        let before = scripts_migrated(scripts.drop_last(), content, mode);
        match json::text_of(scripts.last().1) {
            Some(script) => {
                let here = migrated(script, Seq::empty(), mode);
                MigrationView {
                    items: before.items + here.items,
                    uses_dotenv: before.uses_dotenv || here.uses_dotenv,
                    detected_opz: before.detected_opz,
                    rewritten: if here.rewritten == script {
                        before.rewritten
                    } else {
                        text::replaced_once(
                            before.rewritten,
                            json::printed(JsonView::Text(script)),
                            json::printed(JsonView::Text(here.rewritten)),
                        )
                    },
                }
            },
            None => before,
        }
    }
}

/// The scripts of a `package.json`.
pub open spec fn scripts_of(package: JsonView) -> Seq<(Seq<char>, JsonView)> {
    match json::field(package, "scripts"@) {
        Some(scripts) => match json::entries_of(scripts) {
            Some(entries) => entries,
            None => Seq::empty(),
        },
        None => Seq::empty(),
    }
}

/// What a `package.json` uses, and what it is rewritten to.
pub open spec fn package_migrated(
    package: JsonView,
    content: Seq<char>,
    mode: ModeView,
) -> MigrationView {
    let all = scripts_migrated(scripts_of(package), content, mode);
    MigrationView { items: seqs::deduped(all.items), ..all }
}

/// What the scripts of a parsed `package.json` use, and its text with them rewritten.
pub fn migrate_package_scripts(package: &Json, content: &str, mode: ScriptMigrationMode) -> (r:
    ScriptMigration)
    ensures
        r.deep_view() == package_migrated(package@, content@, mode.deep_view()),
        mode is Collect ==> r.rewritten@ == content@,
{
    let ghost m = mode.deep_view();
    let ghost all = scripts_of(package@);
    let mut items = seqs::no_texts();
    let mut uses_dotenv = false;
    let mut rewritten = content.to_owned();
    let scripts = match package.get("scripts") {
        Some(scripts) => scripts.as_object(),
        None => None,
    };
    if let Some(entries) = scripts {
        let mut i: usize = 0;
        while i < entries.len()
            invariant
                i <= entries@.len(),
                m == mode.deep_view(),
                all == json::members(entries@),
                scripts_migrated(all.take(i as int), content@, m) == (MigrationView {
                    items: seqs::texts(items@),
                    uses_dotenv,
                    detected_opz: text::holds(content@, "opz"@),
                    rewritten: rewritten@,
                }),
                mode is Collect ==> rewritten@ == content@,
            decreases entries@.len() - i,
        {
            proof {
                assert(all.take(i + 1).drop_last() == all.take(i as int));
                assert(all.take(i + 1).last() == all[i as int]);
                assert(all[i as int].1 == entries@[i as int].1@);
            }
            if let Some(script) = entries.value(i).as_str() {
                if let Ok(migration) = migrate_script_text(script, mode) {
                    seqs::push_texts(&mut items, &migration.items);
                    uses_dotenv = uses_dotenv || migration.uses_dotenv;
                    if !text::same(&migration.rewritten, script) {
                        rewritten = replace_json_string_literal(
                            &rewritten,
                            script,
                            &migration.rewritten,
                        );
                    }
                }
            }
            i += 1;
        }
    } else {
        assert(all =~= Seq::empty());
    }
    ScriptMigration {
        items: seqs::dedupe_preserve_order(&items),
        uses_dotenv,
        detected_opz: text::contains(content, "opz"),
        rewritten,
    }
}

/// What the text of a `package.json` uses, and what it is rewritten to.
pub open spec fn package_text_migrated(content: Seq<char>, mode: ModeView) -> Result<
    MigrationView,
    Seq<Seq<char>>,
> {
    match json::parsed(content) {
        Ok(package) => Ok(package_migrated(package, content, mode)),
        Err(e) => Err(seq!["failed to parse package.json"@, e]),
    }
}

/// What a `package.json` uses and what it is rewritten to. Collecting leaves the text as it is.
pub fn migrate_package_json_scripts(content: &str, mode: ScriptMigrationMode) -> (r: Result<
    ScriptMigration,
    Failure,
>)
    ensures
        told_migration(r) == package_text_migrated(content@, mode.deep_view()),
        mode is Collect && r is Ok ==> r->Ok_0.rewritten@ == content@,
{
    match json::parse(content) {
        Ok(package) => Ok(migrate_package_scripts(&package, content, mode)),
        Err(e) => {
            let failure = Failure::new(e).context("failed to parse package.json".to_owned());
            assert(failure@ =~= seq!["failed to parse package.json"@, json::parsed(content@)->Err_0]);
            Err(failure)
        },
    }
}

} // verus!
