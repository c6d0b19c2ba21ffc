//! What a trace says of a run, with secrets masked.

use vstd::prelude::*;
use vstd::string::*;

use crate::pattern;
use crate::seqs;
use crate::text;

verus! {

broadcast use crate::seqs::group_seqs;

/// A text with masks over references to secrets, secrets given for keys, and credentials in
/// headers.
pub open spec fn trace_masked(s: Seq<char>) -> Seq<char> {
    pattern::regex_replaced(
        pattern::AUTH_HEADER@,
        pattern::regex_replaced(
            pattern::SECRET_KEY_VALUE@,
            pattern::regex_replaced(pattern::OP_REFERENCE@, s, "op://***"@),
            "$1***"@,
        ),
        "$1***"@,
    )
}

/// Replaces the matches of one of the library's patterns.
fn replace_own(own: &str, s: &str, to: &str) -> (r: String)
    requires
        pattern::is_own_pattern(own@),
    ensures
        r@ == pattern::regex_replaced(own@, s@, to@),
{
    match pattern::compile(own) {
        Ok(re) => pattern::replace_all(&re, s, to),
        Err(_) => {
            assert(false);
            String::new()
        },
    }
}

/// A text with masks over secrets.
pub fn mask_for_trace(input: &str) -> (r: String)
    ensures
        r@ == trace_masked(input@),
{
    let references = replace_own(pattern::OP_REFERENCE, input, "op://***");
    let keys = replace_own(pattern::SECRET_KEY_VALUE, &references, "$1***");
    replace_own(pattern::AUTH_HEADER, &keys, "$1***")
}

/// How many characters of a text take the given number of bytes, if some do.
pub open spec fn chars_in(s: Seq<char>, bytes: int) -> Option<int>
    decreases s.len(),
{
    if bytes == 0 {
        Some(0)
    } else if bytes < 0 || s.len() == 0 {
        None
    } else {
        match chars_in(s.drop_first(), bytes - vstd::utf8::encode_scalar(s[0] as u32).len()) {
            Some(n) => Some(n + 1),
            None => None,
        }
    }
}

/// The characters that take the given number of bytes stand at the start of the text.
proof fn lemma_chars_in(s: Seq<char>, bytes: int)
    ensures
        chars_in(s, bytes) matches Some(n) ==> 0 <= n <= s.len() && vstd::utf8::encode_utf8(
            s.take(n),
        ).len() == bytes,
    decreases s.len(),
{
    if bytes > 0 && s.len() > 0 {
        let rest = bytes - vstd::utf8::encode_scalar(s[0] as u32).len();
        lemma_chars_in(s.drop_first(), rest);
        if let Some(n) = chars_in(s.drop_first(), rest) {
            assert(s.take(n + 1).drop_first() =~= s.drop_first().take(n));
            assert(s.take(n + 1)[0] == s[0]);
        }
    } else if bytes == 0 {
        assert(s.take(0) =~= Seq::<char>::empty());
    }
}

/// How many bytes a character takes.
fn width(c: char) -> (r: usize)
    ensures
        r == vstd::utf8::encode_scalar(c as u32).len(),
        1 <= r <= 4,
{
    let v = c as u32;
    if v <= 0x7f {
        1
    } else if v <= 0x7ff {
        2
    } else if v <= 0xffff {
        3
    } else {
        4
    }
}

/// How many characters of a text take 512 bytes, if some do.
fn count_chars(chars: &Vec<char>) -> (r: Option<usize>)
    ensures
        match r {
            Some(n) => chars_in(chars@, 512) == Some(n as int) && n <= chars@.len(),
            None => chars_in(chars@, 512) is None,
        },
{
    let mut left: usize = 512;
    let mut i: usize = 0;
    assert(chars@.skip(0) =~= chars@);
    while i < chars.len() && left > 0
        invariant
            i <= chars@.len(),
            left <= 512,
            chars_in(chars@, 512) == (match chars_in(chars@.skip(i as int), left as int) {
                Some(n) => Some(n + i),
                None => None,
            }),
        decreases chars@.len() - i,
    {
        let ghost rest = chars@.skip(i as int);
        assert(rest[0] == chars@[i as int]);
        assert(rest.drop_first() =~= chars@.skip(i + 1));
        let w = width(chars[i]);
        if w > left {
            assert(chars_in(rest.drop_first(), left - w) is None);
            return None;
        }
        left = left - w;
        i += 1;
    }
    if left == 0 {
        Some(i)
    } else {
        None
    }
}

/// Whether a text fits into a trace, or can be cut to fit between two characters.
pub open spec fn can_cut(s: Seq<char>) -> bool {
    vstd::utf8::encode_utf8(s).len() <= 512 || chars_in(s, 512) is Some
}

/// A text cut to fit into a trace.
pub open spec fn cut(s: Seq<char>) -> Seq<char> {
    if vstd::utf8::encode_utf8(s).len() <= 512 {
        s
    } else {
        s.take(chars_in(s, 512)->0) + "...[truncated]"@
    }
}

/// A text cut to fit into a trace, where that can be done.
pub fn cut_for_trace(s: &str) -> (r: Option<String>)
    ensures
        r.deep_view() == (if can_cut(s@) {
            Some(cut(s@))
        } else {
            None
        }),
{
    if s.as_bytes().len() <= 512 {
        return Some(s.to_owned());
    }
    let chars = text::chars_of(s);
    match count_chars(&chars) {
        Some(n) => {
            let start = text::string_of(&chars, 0, n);
            assert(start@ =~= s@.take(n as int));
            Some(start.concat("...[truncated]"))
        },
        None => None,
    }
}

/// A text for a trace: masked, and cut to fit.
pub fn sanitize_for_trace(input: &str) -> (r: String)
    requires
        can_cut(trace_masked(input@)),
    ensures
        r@ == cut(trace_masked(input@)),
{
    let masked = mask_for_trace(input);
    match cut_for_trace(&masked) {
        Some(s) => s,
        None => String::new(),
    }
}

/// A text for a trace: masked, and cut to fit where it can be cut between two characters.
pub fn sanitize_where_possible(input: &str) -> (r: Option<String>)
    ensures
        r.deep_view() == (if can_cut(trace_masked(input@)) {
            Some(cut(trace_masked(input@)))
        } else {
            None
        }),
{
    let masked = mask_for_trace(input);
    match cut_for_trace(&masked) {
        Some(_) => Some(sanitize_for_trace(input)),
        None => None,
    }
}

/// A text for a trace takes at most 512 bytes and the mark that it was cut.
pub proof fn law_cut_fits(s: Seq<char>)
    requires
        can_cut(s),
    ensures
        vstd::utf8::encode_utf8(s).len() <= 512 ==> cut(s) == s,
        vstd::utf8::encode_utf8(s).len() > 512 ==> exists|n: int|
            0 <= n <= s.len() && cut(s) == #[trigger] s.take(n) + "...[truncated]"@
                && vstd::utf8::encode_utf8(s.take(n)).len() == 512,
{
    lemma_chars_in(s, 512);
    if vstd::utf8::encode_utf8(s).len() > 512 {
        let n = chars_in(s, 512)->0;
        assert(cut(s) == s.take(n) + "...[truncated]"@);
    }
}

/// The value of an attribute of a trace.
#[derive(Debug)]
pub enum TraceValue {
    Text(String),
    Number(i64),
}

/// The content of a `TraceValue`.
pub enum TraceView {
    Text(Seq<char>),
    Number(int),
}

impl DeepView for TraceValue {
    type V = TraceView;

    open spec fn deep_view(&self) -> TraceView {
        match self {
            TraceValue::Text(s) => TraceView::Text(s@),
            TraceValue::Number(n) => TraceView::Number(*n as int),
        }
    }
}

/// The arguments after the program, with a space between each two.
pub open spec fn after_program(args: Seq<Seq<char>>) -> Seq<char> {
    text::joined(
        if args.len() == 0 {
            Seq::empty()
        } else {
            args.drop_first()
        },
        " "@,
    )
}

/// Whether a setting asks for the arguments to be put into a trace.
pub open spec fn asks_for_args(capture: Option<Seq<char>>) -> bool {
    capture == Some("1"@)
}

/// The arguments to put into a trace, where that is asked for: those after the program.
pub fn captured_args(args: &[String], capture: Option<&str>) -> (r: Option<String>)
    ensures
        r.deep_view() == (if asks_for_args(capture.deep_view()) {
            Some(after_program(seqs::texts(args@)))
        } else {
            None
        }),
{
    let asked = match capture {
        Some(value) => text::same(value, "1"),
        None => false,
    };
    if !asked {
        return None;
    }
    let ghost all = seqs::texts(args@);
    let mut rest = seqs::no_texts();
    if args.len() > 0 {
        let mut i: usize = 1;
        assert(all.subrange(1, 1) =~= Seq::<Seq<char>>::empty());
        while i < args.len()
            invariant
                1 <= i <= args@.len(),
                all == seqs::texts(args@),
                seqs::texts(rest@) == all.subrange(1, i as int),
            decreases args@.len() - i,
        {
            assert(all.subrange(1, i + 1) =~= all.subrange(1, i as int).push(args@[i as int]@));
            seqs::push_text(&mut rest, &args[i]);
            i += 1;
        }
        assert(all.subrange(1, all.len() as int) =~= all.drop_first());
    }
    Some(text::join(&rest, " "))
}

/// What a trace shows of the arguments: them, masked and cut to fit, where that is asked for.
pub open spec fn shown_args(args: Seq<Seq<char>>, capture: Option<Seq<char>>) -> Option<Seq<char>> {
    if asks_for_args(capture) {
        Some(cut(trace_masked(after_program(args))))
    } else {
        None
    }
}

/// Whether the arguments can be shown, where that is asked for.
pub open spec fn can_show_args(args: Seq<Seq<char>>, capture: Option<Seq<char>>) -> bool {
    asks_for_args(capture) ==> can_cut(trace_masked(after_program(args)))
}

/// The attributes of a trace.
pub open spec fn trace_attributes(
    command: Seq<char>,
    args: nat,
    commit: Seq<char>,
    cwd: Option<Seq<char>>,
    captured: Option<Seq<char>>,
) -> Seq<(Seq<char>, TraceView)> {
    let count = if args == 0 {
        0
    } else {
        args - 1
    };
    seq![
        ("cli.command"@, TraceView::Text(command)),
        ("cli.args_count"@, TraceView::Number(count)),
        ("git.commit"@, TraceView::Text(commit)),
    ] + (match cwd {
        Some(dir) => seq![("cwd"@, TraceView::Text(dir))],
        None => Seq::empty(),
    }) + (match captured {
        Some(text) => seq![("cli.args"@, TraceView::Text(text))],
        None => Seq::empty(),
    })
}

/// Attributes with their names.
pub open spec fn attributes(v: Seq<(String, TraceValue)>) -> Seq<(Seq<char>, TraceView)> {
    Seq::new(v.len(), |i: int| (v[i].0@, v[i].1.deep_view()))
}

/// Appends an attribute.
fn push_attribute(v: &mut Vec<(String, TraceValue)>, name: &str, value: TraceValue)
    ensures
        attributes(final(v)@) == attributes(old(v)@).push((name@, value.deep_view())),
{
    let ghost before = attributes(v@);
    let ghost own = value.deep_view();
    v.push((name.to_owned(), value));
    assert(attributes(v@) =~= before.push((name@, own)));
}

/// The attributes of a trace: the command, how many arguments there were, the commit, the
/// directory, where it is known, and the arguments, masked and cut to fit, where `capture` asks for
/// them.
pub fn build_cli_trace_attrs(
    command_name: &str,
    args: &[String],
    commit: &str,
    cwd: Option<&str>,
    capture: Option<&str>,
) -> (r: Vec<(String, TraceValue)>)
    requires
        args@.len() <= i64::MAX,
        can_show_args(seqs::texts(args@), capture.deep_view()),
    ensures
        attributes(r@) == trace_attributes(
            command_name@,
            args@.len(),
            commit@,
            cwd.deep_view(),
            shown_args(seqs::texts(args@), capture.deep_view()),
        ),
{
    let mut r: Vec<(String, TraceValue)> = Vec::new();
    assert(attributes(r@) =~= Seq::<(Seq<char>, TraceView)>::empty());
    push_attribute(&mut r, "cli.command", TraceValue::Text(command_name.to_owned()));
    let count: usize = if args.len() == 0 {
        0
    } else {
        args.len() - 1
    };
    push_attribute(&mut r, "cli.args_count", TraceValue::Number(count as i64));
    push_attribute(&mut r, "git.commit", TraceValue::Text(commit.to_owned()));
    if let Some(dir) = cwd {
        push_attribute(&mut r, "cwd", TraceValue::Text(dir.to_owned()));
    }
    if let Some(raw) = captured_args(args, capture) {
        push_attribute(&mut r, "cli.args", TraceValue::Text(sanitize_for_trace(&raw)));
    }
    assert(attributes(r@) =~= trace_attributes(
        command_name@,
        args@.len(),
        commit@,
        cwd.deep_view(),
        shown_args(seqs::texts(args@), capture.deep_view()),
    ));
    r
}

/// The attributes of a trace, where the arguments that it is to show can be cut between two
/// characters.
pub fn trace_where_possible(
    command_name: &str,
    args: &[String],
    commit: &str,
    cwd: Option<&str>,
    capture: Option<&str>,
) -> (r: Option<Vec<(String, TraceValue)>>)
    requires
        args@.len() <= i64::MAX,
    ensures
        match r {
            Some(found) => can_show_args(seqs::texts(args@), capture.deep_view()) && attributes(
                found@,
            ) == trace_attributes(
                command_name@,
                args@.len(),
                commit@,
                cwd.deep_view(),
                shown_args(seqs::texts(args@), capture.deep_view()),
            ),
            None => !can_show_args(seqs::texts(args@), capture.deep_view()),
        },
{
    if let Some(raw) = captured_args(args, capture) {
        let masked = mask_for_trace(&raw);
        if cut_for_trace(&masked).is_none() {
            return None;
        }
    }
    Some(build_cli_trace_attrs(command_name, args, commit, cwd, capture))
}

/// Whether one of the attributes has the name.
pub open spec fn has_attribute(s: Seq<(Seq<char>, TraceView)>, name: Seq<char>) -> bool {
    exists|i: int| 0 <= i < s.len() && (#[trigger] s[i]).0 == name
}

/// A trace shows the arguments only where that is asked for, and then masked and cut to fit. Its
/// other attributes are the same whatever the arguments say.
pub proof fn law_trace_args(
    command: Seq<char>,
    args: Seq<Seq<char>>,
    other: Seq<Seq<char>>,
    commit: Seq<char>,
    cwd: Option<Seq<char>>,
    capture: Option<Seq<char>>,
)
    requires
        args.len() == other.len(),
    ensures
        ({
            let all = trace_attributes(
                command,
                args.len(),
                commit,
                cwd,
                shown_args(args, capture),
            );
            let others = trace_attributes(
                command,
                other.len(),
                commit,
                cwd,
                shown_args(other, capture),
            );
            &&& has_attribute(all, "cli.args"@) == asks_for_args(capture)
            &&& all.len() == others.len()
            &&& forall|i: int|
                0 <= i < all.len() ==> ((#[trigger] all[i]).0 == "cli.args"@ ==> all[i].1
                    == TraceView::Text(cut(trace_masked(after_program(args))))) && (all[i].0
                    != "cli.args"@ ==> all[i] == others[i])
        }),
{
    reveal_strlit("cli.command");
    reveal_strlit("cli.args_count");
    reveal_strlit("git.commit");
    reveal_strlit("cwd");
    reveal_strlit("cli.args");
    assert("cli.args"@.len() == 8 && "cli.command"@.len() == 11 && "cli.args_count"@.len() == 14);
    assert("git.commit"@.len() == 10 && "cwd"@.len() == 3);
    let all = trace_attributes(command, args.len(), commit, cwd, shown_args(args, capture));
    if asks_for_args(capture) {
        assert(all[all.len() - 1].0 == "cli.args"@);
    } else {
        assert forall|i: int| 0 <= i < all.len() implies (#[trigger] all[i]).0 != "cli.args"@ by {}
    }
}

/// The commit that a variable names, if it names one.
pub fn commit_from_env(value: Option<&str>) -> (r: Option<String>)
    ensures
        r.deep_view() == (match value {
            Some(v) => if text::trimmed(v@).len() > 0 {
                Some(text::trimmed(v@))
            } else {
                None
            },
            None => None,
        }),
{
    match value {
        Some(v) => {
            let commit = text::trim(v);
            if commit.unicode_len() > 0 {
                Some(commit.to_owned())
            } else {
                None
            }
        },
        None => None,
    }
}

/// The commit that `git` printed, where it ran and printed one.
pub fn commit_from_git(stdout: Option<&[u8]>) -> (r: String)
    ensures
        r@ == (match stdout {
            Some(bytes) => if text::trimmed(text::lossy(bytes@)).len() > 0 {
                text::trimmed(text::lossy(bytes@))
            } else {
                "unknown"@
            },
            None => "unknown"@,
        }),
{
    match stdout {
        Some(bytes) => {
            let printed = text::lossy_text(bytes);
            let commit = text::trim(&printed);
            if commit.unicode_len() > 0 {
                commit.to_owned()
            } else {
                "unknown".to_owned()
            }
        },
        None => "unknown".to_owned(),
    }
}

} // verus!
