//! Child processes: their arguments, and what is made of their outcomes.

use vstd::prelude::*;
use vstd::string::*;

use crate::failure;
use crate::failure::Failure;
use crate::json;
use crate::json::{Json, JsonView};
use crate::map::StringMap;
use crate::pattern;
use crate::seqs;
use crate::text;

verus! {

broadcast use crate::seqs::group_seqs;

/// The words that start a command: on Unix through a shell that is replaced by it, so that
/// arguments keep their boundaries.
pub open spec fn child_words(command: Seq<Seq<char>>, windows: bool) -> Seq<Seq<char>> {
    if windows {
        command
    } else {
        seq!["sh"@, "-c"@, "exec \"$@\""@, "sh"@] + command
    }
}

/// The words that start a command.
pub fn build_child_command(command: &[String], windows: bool) -> (r: Result<Vec<String>, Failure>)
    ensures
        failure::told_texts(r) == (if command@.len() == 0 {
            Err(seq!["command must contain a program"@])
        } else {
            Ok(child_words(seqs::texts(command@), windows))
        }),
{
    if command.len() == 0 {
        return Err(failure::fail("command must contain a program"));
    }
    let mut words = seqs::no_texts();
    if !windows {
        seqs::push_text(&mut words, "sh");
        seqs::push_text(&mut words, "-c");
        seqs::push_text(&mut words, "exec \"$@\"");
        seqs::push_text(&mut words, "sh");
    }
    seqs::push_texts(&mut words, command);
    assert(seqs::texts(words@) =~= child_words(seqs::texts(command@), windows));
    Ok(words)
}

/// The place after the name of a variable that starts at `i`.
pub open spec fn name_end(s: Seq<char>, i: int) -> int
    decreases s.len() - i,
{
    if 0 <= i < s.len() && pattern::is_name_char(s[i]) {
        name_end(s, i + 1)
    } else {
        i
    }
}

/// The end of a name is not before its start, nor after the text.
pub proof fn lemma_name_end(s: Seq<char>, i: int)
    requires
        0 <= i <= s.len(),
    ensures
        i <= name_end(s, i) <= s.len(),
    decreases s.len() - i,
{
    if i < s.len() && pattern::is_name_char(s[i]) {
        lemma_name_end(s, i + 1);
    }
}

/// Whether a brace opens after the dollar sign at `i`.
pub open spec fn is_braced(s: Seq<char>, i: int) -> bool {
    i + 1 < s.len() && s[i + 1] == '{'
}

/// Where the name of a variable starts, after the dollar sign at `i`.
pub open spec fn name_start(s: Seq<char>, i: int) -> int {
    if is_braced(s, i) {
        i + 2
    } else {
        i + 1
    }
}

/// The text from `i` on, with the values of variables in place of `$NAME` and `${NAME}`. Variables
/// without a value, and braces that are not closed, are left as they are.
pub open spec fn expanded(s: Seq<char>, i: int, values: Seq<(Seq<char>, Seq<char>)>) -> Seq<char>
    decreases s.len() - i,
{
    if i < 0 || i >= s.len() {
        Seq::empty()
    } else if s[i] != '$' {
        seq![s[i]] + expanded(s, i + 1, values)
    } else {
        let start = name_start(s, i);
        let end = name_end(s, start);
        proof {
            lemma_name_end(s, start);
        }
        if is_braced(s, i) && !(end < s.len() && s[end] == '}') {
            s.subrange(i, end) + expanded(s, end, values)
        } else {
            let next = if is_braced(s, i) {
                end + 1
            } else {
                end
            };
            match crate::map::lookup(values, s.subrange(start, end)) {
                Some(value) => value + expanded(s, next, values),
                None => s.subrange(i, next) + expanded(s, next, values),
            }
        }
    }
}

/// A text with the values of variables in place of `$NAME` and `${NAME}`.
pub fn expand_vars(s: &str, env_vars: &StringMap<String>) -> (r: String)
    ensures
        r@ == expanded(s@, 0, env_vars.strings()),
{
    let chars = text::chars_of(s);
    let ghost all = s@;
    let ghost values = env_vars.strings();
    let ghost whole = expanded(all, 0, values);
    let n = chars.len();
    let mut r = String::new();
    let mut i: usize = 0;
    proof {
        assert(r@ =~= Seq::<char>::empty());
        assert(r@ + whole =~= whole);
    }
    while i < n
        invariant
            i <= n == chars@.len(),
            chars@ == all,
            all == s@,
            values == env_vars.strings(),
            whole == expanded(all, 0, values),
            whole == r@ + expanded(all, i as int, values),
        decreases n - i,
    {
        let ghost before = r@;
        if chars[i] != '$' {
            r.push(chars[i]);
            assert(before + (seq![all[i as int]] + expanded(all, i + 1, values)) =~= r@ + expanded(
                all,
                i + 1,
                values,
            ));
            i += 1;
        } else {
            let braced = i + 1 < n && chars[i + 1] == '{';
            let start: usize = if braced {
                i + 2
            } else {
                i + 1
            };
            let mut end: usize = start;
            while end < n && (text::is_ascii_alphanumeric(chars[end]) || chars[end] == '_')
                invariant
                    start <= end <= n == chars@.len(),
                    chars@ == all,
                    name_end(all, start as int) == name_end(all, end as int),
                decreases n - end,
            {
                end += 1;
            }
            assert(end == name_end(all, start as int));
            assert(start == name_start(all, i as int));
            if braced && !(end < n && chars[end] == '}') {
                let part = text::string_of(&chars, i, end);
                r.append(&part);
                assert(before + (part@ + expanded(all, end as int, values)) =~= r@ + expanded(
                    all,
                    end as int,
                    values,
                ));
                i = end;
            } else {
                let next = if braced {
                    end + 1
                } else {
                    end
                };
                let name = text::string_of(&chars, start, end);
                let part = match env_vars.get_text(&name) {
                    Some(value) => value.clone(),
                    None => text::string_of(&chars, i, next),
                };
                r.append(&part);
                assert(before + (part@ + expanded(all, next as int, values)) =~= r@ + expanded(
                    all,
                    next as int,
                    values,
                ));
                i = next;
            }
        }
    }
    assert(r@ + Seq::<char>::empty() =~= r@);
    r
}

/// Where no variable has a value, a text is left as it is.
pub proof fn law_unknown_variables_stay(s: Seq<char>, i: int)
    requires
        0 <= i <= s.len(),
    ensures
        expanded(s, i, Seq::empty()) == s.subrange(i, s.len() as int),
    decreases s.len() - i,
{
    if i < s.len() {
        if s[i] != '$' {
            law_unknown_variables_stay(s, i + 1);
            assert(s.subrange(i, s.len() as int) =~= seq![s[i]] + s.subrange(
                i + 1,
                s.len() as int,
            ));
        } else {
            let start = name_start(s, i);
            let end = name_end(s, start);
            lemma_name_end(s, start);
            let next = if is_braced(s, i) && end < s.len() && s[end] == '}' {
                end + 1
            } else {
                end
            };
            law_unknown_variables_stay(s, next);
            assert(s.subrange(i, s.len() as int) =~= s.subrange(i, next) + s.subrange(
                next,
                s.len() as int,
            ));
        }
    }
}

/// A text without a dollar sign is left as it is.
pub proof fn law_plain_text_stays(s: Seq<char>, i: int, values: Seq<(Seq<char>, Seq<char>)>)
    requires
        0 <= i <= s.len(),
        !s.contains('$'),
    ensures
        expanded(s, i, values) == s.subrange(i, s.len() as int),
    decreases s.len() - i,
{
    if i < s.len() {
        assert(s.contains(s[i]));
        law_plain_text_stays(s, i + 1, values);
        assert(s.subrange(i, s.len() as int) =~= seq![s[i]] + s.subrange(i + 1, s.len() as int));
    }
}

/// The end of a name does not depend on what stands before it.
proof fn lemma_name_end_shift(a: Seq<char>, s: Seq<char>, i: int)
    requires
        0 <= i <= s.len(),
    ensures
        name_end(a + s, a.len() + i) == a.len() + name_end(s, i),
    decreases s.len() - i,
{
    let all = a + s;
    if i < s.len() {
        assert(all[a.len() + i] == s[i]);
        if pattern::is_name_char(s[i]) {
            lemma_name_end_shift(a, s, i + 1);
        }
    }
}

/// What a text is expanded to does not depend on what stands before it.
proof fn lemma_expanded_shift(
    a: Seq<char>,
    s: Seq<char>,
    i: int,
    values: Seq<(Seq<char>, Seq<char>)>,
)
    requires
        0 <= i <= s.len(),
    ensures
        expanded(a + s, a.len() + i, values) == expanded(s, i, values),
    decreases s.len() - i,
{
    let all = a + s;
    let at = a.len() + i;
    if i < s.len() {
        assert(all[at] == s[i]);
        if s[i] != '$' {
            lemma_expanded_shift(a, s, i + 1, values);
        } else {
            if i + 1 < s.len() {
                assert(all[at + 1] == s[i + 1]);
            }
            assert(is_braced(all, at) == is_braced(s, i));
            let start = name_start(s, i);
            lemma_name_end(s, start);
            lemma_name_end_shift(a, s, start);
            let end = name_end(s, start);
            if end < s.len() {
                assert(all[a.len() + end] == s[end]);
            }
            assert(name_start(all, at) == a.len() + start);
            assert(all.subrange(a.len() + start, a.len() + end) =~= s.subrange(start, end));
            let open = is_braced(s, i) && !(end < s.len() && s[end] == '}');
            let next = if is_braced(s, i) && !open {
                end + 1
            } else {
                end
            };
            assert(all.subrange(at, a.len() + next) =~= s.subrange(i, next));
            lemma_expanded_shift(a, s, next, values);
        }
    }
}

/// Letters, digits and underscores up to another character make up a name.
proof fn lemma_whole_name(s: Seq<char>, from: int, to: int)
    requires
        0 <= from <= to <= s.len(),
        forall|i: int|
            from <= i < to ==> 'a' <= #[trigger] s[i] <= 'z' || 'A' <= s[i] <= 'Z' || '0' <= s[i]
                <= '9' || s[i] == '_',
        to < s.len() ==> !('a' <= s[to] <= 'z' || 'A' <= s[to] <= 'Z' || '0' <= s[to] <= '9'
            || s[to] == '_'),
    ensures
        name_end(s, from) == to,
    decreases to - from,
{
    if from < to {
        assert('a' <= s[from] <= 'z' || 'A' <= s[from] <= 'Z' || '0' <= s[from] <= '9' || s[from]
            == '_');
        lemma_whole_name(s, from + 1, to);
    }
}

/// A variable between braces gives way to its value, whatever follows it; the rest is expanded by
/// itself. Without a value it is left as it is. A name is made of ASCII letters, digits and
/// underscores.
pub proof fn law_braced_variable(
    name: Seq<char>,
    rest: Seq<char>,
    values: Seq<(Seq<char>, Seq<char>)>,
)
    requires
        forall|i: int|
            0 <= i < name.len() ==> 'a' <= #[trigger] name[i] <= 'z' || 'A' <= name[i] <= 'Z' || '0'
                <= name[i] <= '9' || name[i] == '_',
    ensures
        expanded(seq!['$', '{'] + name + seq!['}'] + rest, 0, values) == (
        match crate::map::lookup(values, name) {
            Some(value) => value,
            None => seq!['$', '{'] + name + seq!['}'],
        }) + expanded(rest, 0, values),
{
    let head = seq!['$', '{'] + name + seq!['}'];
    let s = head + rest;
    let n = 2 + name.len() as int;
    assert(s[0] == '$' && s[1] == '{' && s[n] == '}');
    assert forall|i: int| 2 <= i < n implies 'a' <= #[trigger] s[i] <= 'z' || 'A' <= s[i] <= 'Z'
        || '0' <= s[i] <= '9' || s[i] == '_' by {
        assert(s[i] == name[i - 2]);
    }
    lemma_whole_name(s, 2, n);
    assert(s.subrange(2, n) =~= name);
    assert(s.subrange(0, n + 1) =~= head);
    lemma_expanded_shift(head, rest, 0, values);
}

/// A variable without braces reaches up to the first character that is no ASCII letter, digit or
/// underscore, and gives way to its value; the rest is expanded by itself. Without a value it is
/// left as it is.
pub proof fn law_bare_variable(
    name: Seq<char>,
    rest: Seq<char>,
    values: Seq<(Seq<char>, Seq<char>)>,
)
    requires
        name.len() > 0,
        forall|i: int|
            0 <= i < name.len() ==> 'a' <= #[trigger] name[i] <= 'z' || 'A' <= name[i] <= 'Z' || '0'
                <= name[i] <= '9' || name[i] == '_',
        rest.len() > 0 ==> !('a' <= rest[0] <= 'z' || 'A' <= rest[0] <= 'Z' || '0' <= rest[0] <= '9'
            || rest[0] == '_'),
    ensures
        expanded(seq!['$'] + name + rest, 0, values) == (match crate::map::lookup(values, name) {
            Some(value) => value,
            None => seq!['$'] + name,
        }) + expanded(rest, 0, values),
{
    let head = seq!['$'] + name;
    let s = head + rest;
    let n = 1 + name.len() as int;
    assert(s[0] == '$' && s[1] == name[0]);
    assert forall|i: int| 1 <= i < n implies 'a' <= #[trigger] s[i] <= 'z' || 'A' <= s[i] <= 'Z'
        || '0' <= s[i] <= '9' || s[i] == '_' by {
        assert(s[i] == name[i - 1]);
    }
    if rest.len() > 0 {
        assert(s[n] == rest[0]);
    }
    lemma_whole_name(s, 1, n);
    assert(s.subrange(1, n) =~= name);
    assert(s.subrange(0, n) =~= head);
    lemma_expanded_shift(head, rest, 0, values);
}

/// What stands before the first dollar sign is kept, and the rest is expanded by itself.
pub proof fn law_expanded_behind_text(
    before: Seq<char>,
    rest: Seq<char>,
    values: Seq<(Seq<char>, Seq<char>)>,
)
    requires
        !before.contains('$'),
    ensures
        expanded(before + rest, 0, values) == before + expanded(rest, 0, values),
    decreases before.len(),
{
    let s = before + rest;
    if before.len() == 0 {
        assert(s =~= rest);
        assert(before + expanded(rest, 0, values) =~= expanded(rest, 0, values));
    } else {
        let first = seq![before[0]];
        let more = before.drop_first();
        assert(before.contains(before[0]));
        assert(!more.contains('$')) by {
            if more.contains('$') {
                let k = choose|k: int| 0 <= k < more.len() && more[k] == '$';
                assert(before[k + 1] == '$');
            }
        }
        assert(s[0] == before[0]);
        assert(s =~= first + (more + rest));
        lemma_expanded_shift(first, more + rest, 0, values);
        law_expanded_behind_text(more, rest, values);
        assert(first + (more + expanded(rest, 0, values)) =~= before + expanded(rest, 0, values));
    }
}

/// A variable whose opening brace is not closed behind its name is left as it is, and the rest is
/// expanded by itself.
pub proof fn law_open_brace_stays(
    name: Seq<char>,
    rest: Seq<char>,
    values: Seq<(Seq<char>, Seq<char>)>,
)
    requires
        forall|i: int|
            0 <= i < name.len() ==> 'a' <= #[trigger] name[i] <= 'z' || 'A' <= name[i] <= 'Z' || '0'
                <= name[i] <= '9' || name[i] == '_',
        rest.len() > 0 ==> rest[0] != '}' && !('a' <= rest[0] <= 'z' || 'A' <= rest[0] <= 'Z' || '0'
            <= rest[0] <= '9' || rest[0] == '_'),
    ensures
        expanded(seq!['$', '{'] + name + rest, 0, values) == seq!['$', '{'] + name + expanded(
            rest,
            0,
            values,
        ),
{
    let head = seq!['$', '{'] + name;
    let s = head + rest;
    let n = 2 + name.len() as int;
    assert(s[0] == '$' && s[1] == '{');
    assert forall|i: int| 2 <= i < n implies 'a' <= #[trigger] s[i] <= 'z' || 'A' <= s[i] <= 'Z'
        || '0' <= s[i] <= '9' || s[i] == '_' by {
        assert(s[i] == name[i - 2]);
    }
    if rest.len() > 0 {
        assert(s[n] == rest[0]);
    }
    lemma_whole_name(s, 2, n);
    assert(s.subrange(0, n) =~= head);
    lemma_expanded_shift(head, rest, 0, values);
}

/// The words of a command with the values of variables.
pub fn expand_command(command: &[String], env_vars: &StringMap<String>) -> (r: Vec<String>)
    ensures
        seqs::texts(r@) == Seq::new(
            command@.len(),
            |i: int| expanded(command@[i]@, 0, env_vars.strings()),
        ),
{
    let ghost all = Seq::new(
        command@.len(),
        |i: int| expanded(command@[i]@, 0, env_vars.strings()),
    );
    let mut r = seqs::no_texts();
    let mut i: usize = 0;
    while i < command.len()
        invariant
            i <= command@.len(),
            all == Seq::new(
                command@.len(),
                |i: int| expanded(command@[i]@, 0, env_vars.strings()),
            ),
            seqs::texts(r@) == all.take(i as int),
        decreases command@.len() - i,
    {
        assert(all.take(i + 1) =~= all.take(i as int).push(all[i as int]));
        seqs::push_string(&mut r, expand_vars(&command[i], env_vars));
        i += 1;
    }
    r
}

/// What is said of a command that failed.
pub fn status_failure(start: &str, status: &str) -> (r: Failure)
    ensures
        r@ == seq![start@ + status@],
{
    Failure::new(start.to_owned().concat(status))
}

/// The first two words of the arguments of `op`.
pub fn op_operation(args: &[String]) -> (r: String)
    ensures
        r@ == text::joined(
            seqs::texts(args@).take(
                if args@.len() < 2 {
                    args@.len() as int
                } else {
                    2
                },
            ),
            " "@,
        ),
{
    let ghost all = seqs::texts(args@);
    let mut words = seqs::no_texts();
    if args.len() > 0 {
        seqs::push_text(&mut words, &args[0]);
    }
    if args.len() > 1 {
        seqs::push_text(&mut words, &args[1]);
    }
    assert(seqs::texts(words@) =~= all.take(
        if args@.len() < 2 {
            args@.len() as int
        } else {
            2
        },
    ));
    text::join(&words, " ")
}

/// How a call of `op` is shown.
pub fn op_display(args: &[String]) -> (r: String)
    ensures
        r@ == "`op "@ + text::joined(seqs::texts(args@), " "@) + "`"@,
{
    "`op ".to_owned().concat(&text::join(args, " ")).concat("`")
}

/// Whether `op` failed because it did not find an item.
pub open spec fn is_item_miss(args: Seq<Seq<char>>, stderr: Seq<char>) -> bool {
    args.len() >= 2 && args[0] == "item"@ && args[1] == "get"@ && (text::holds(
        stderr,
        "isn't an item"@,
    ) || text::holds(stderr, "is not an item"@) || text::holds(stderr, "not found"@))
}

/// What is said of a call of `op` that failed. What `op` printed is not repeated.
pub fn op_failure(args: &[String], stderr: &[u8], status: &str) -> (r: Failure)
    ensures
        r@ == seq![
            if is_item_miss(seqs::texts(args@), text::lossy(stderr@)) {
                "op item not found"@
            } else {
                "op error ("@ + status@ + ")"@
            },
        ],
{
    let message = text::lossy_text(stderr);
    let miss = args.len() >= 2 && text::same(&args[0], "item") && text::same(&args[1], "get") && (
    text::contains(&message, "isn't an item") || text::contains(&message, "is not an item")
        || text::contains(&message, "not found"));
    assert(seqs::texts(args@).len() == args@.len());
    if miss {
        failure::fail("op item not found")
    } else {
        Failure::new("op error (".to_owned().concat(status).concat(")"))
    }
}

/// What JSON came to.
pub open spec fn told_json(r: Result<Json, Failure>) -> Result<JsonView, Seq<Seq<char>>> {
    match r {
        Ok(j) => Ok(j@),
        Err(e) => Err(e@),
    }
}

/// The JSON that `op` printed.
pub fn parse_op_output(stdout: &[u8]) -> (r: Result<Json, Failure>)
    ensures
        told_json(r) == (match json::parsed_bytes(stdout@) {
            Ok(j) => Ok(j),
            Err(e) => Err(seq!["failed to parse op JSON output"@, e]),
        }),
{
    match json::parse_bytes(stdout) {
        Ok(j) => Ok(j),
        Err(e) => {
            let ghost reason = e@;
            let failure = Failure::new(e).context("failed to parse op JSON output".to_owned());
            assert(failure@ =~= seq!["failed to parse op JSON output"@, reason]);
            Err(failure)
        },
    }
}

/// The seconds to wait that a variable gives, or else the default.
pub open spec fn seconds(value: Option<Seq<char>>, default: nat) -> nat {
    match value {
        Some(v) => match text::numeral(v, u64::MAX as nat) {
            Some(n) => if n > 0 {
                n
            } else {
                default
            },
            None => default,
        },
        None => default,
    }
}

/// The seconds to wait that a variable gives, or else the default.
pub fn timeout_seconds(value: Option<&str>, default: u64) -> (r: u64)
    ensures
        r == seconds(value.deep_view(), default as nat),
{
    match value {
        Some(v) => match text::parse_number(v, u64::MAX) {
            Some(n) => if n > 0 {
                n
            } else {
                default
            },
            None => default,
        },
        None => default,
    }
}

/// How long to wait for `op`: half a minute, if nothing else is given.
pub fn op_command_timeout(value: Option<&str>) -> (r: u64)
    ensures
        r == seconds(value.deep_view(), 30),
        r > 0,
{
    timeout_seconds(value, 30)
}

/// What to do about a command that was started.
#[derive(Clone, Copy, Debug, PartialEq, Eq, Structural)]
pub enum PollStep {
    Collect,
    Kill,
    Wait,
}

/// What to do about a command: collect its output once it has ended, kill it once its time is
/// over, else wait.
pub fn next_poll(ended: bool, elapsed_millis: u128, timeout_seconds: u64) -> (r: PollStep)
    ensures
        r == (if ended {
            PollStep::Collect
        } else if elapsed_millis >= timeout_seconds * 1000 {
            PollStep::Kill
        } else {
            PollStep::Wait
        }),
{
    if ended {
        PollStep::Collect
    } else if elapsed_millis >= (timeout_seconds as u128) * 1000 {
        PollStep::Kill
    } else {
        PollStep::Wait
    }
}

/// What is said of a command that took too long.
pub open spec fn timed_out(display: Seq<char>, seconds: nat) -> Seq<char> {
    display + " timed out after "@ + text::decimal(seconds)
        + " seconds. Check 1Password CLI authentication with `op whoami`, or set OPZ_OP_TIMEOUT_SECONDS to a larger value."@
}

/// What is said of a command that took too long.
pub fn timeout_failure(display: &str, seconds: u64) -> (r: Failure)
    ensures
        r@ == seq![timed_out(display@, seconds as nat)],
{
    Failure::new(
        display.to_owned().concat(" timed out after ").concat(
            &text::to_decimal(seconds as u128),
        ).concat(
            " seconds. Check 1Password CLI authentication with `op whoami`, or set OPZ_OP_TIMEOUT_SECONDS to a larger value.",
        ),
    )
}

/// A text without what follows its first `n` characters.
pub open spec fn shortened(s: Seq<char>, n: nat) -> Seq<char> {
    if s.len() <= n {
        s
    } else {
        s.take(n as int)
    }
}

/// The first 500 characters of a JSON value.
pub fn concise_json(value: &Json) -> (r: String)
    ensures
        r@ == shortened(json::printed(value@), 500),
{
    let printed = value.print();
    let chars = text::chars_of(&printed);
    if chars.len() <= 500 {
        printed
    } else {
        let r = text::string_of(&chars, 0, 500);
        assert(r@ =~= printed@.take(500));
        r
    }
}

} // verus!
