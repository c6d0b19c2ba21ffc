//! Regular expressions, through the `regex` crate.

use vstd::prelude::*;
use vstd::string::*;

use crate::text;

verus! {

/// A compiled regular expression.
#[verifier::external_type_specification]
#[verifier::external_body]
pub struct ExRegex(regex::Regex);

/// The pattern that a regular expression was compiled from.
pub uninterp spec fn regex_source(re: regex::Regex) -> Seq<char>;

/// The message with which `regex::Regex::new` refuses a pattern, where it refuses it.
pub uninterp spec fn regex_refusal(pattern: Seq<char>) -> Option<Seq<char>>;

/// What `regex::Regex::is_match` says of a pattern and a text.
pub uninterp spec fn regex_match(pattern: Seq<char>, s: Seq<char>) -> bool;

/// What `regex::Regex::replace_all` makes of a pattern, a text and a replacement.
pub uninterp spec fn regex_replaced(pattern: Seq<char>, s: Seq<char>, to: Seq<char>) -> Seq<char>;

/// The matches that `regex::Regex::captures_iter` finds, each as the list of its groups; the
/// first group is the whole match.
pub uninterp spec fn regex_captures(pattern: Seq<char>, s: Seq<char>) -> Seq<Seq<Option<Seq<char>>>>;

/// The parts between the matches, as `regex::Regex::split` gives them.
pub uninterp spec fn regex_gaps(pattern: Seq<char>, s: Seq<char>) -> Seq<Seq<char>>;

/// Whether `c` has a meaning of its own in a pattern.
pub open spec fn is_meta(c: char) -> bool {
    ||| c == '\\' || c == '.' || c == '+' || c == '*' || c == '?'
    ||| c == '(' || c == ')' || c == '|' || c == '[' || c == ']'
    ||| c == '{' || c == '}' || c == '^' || c == '$' || c == '#'
    ||| c == '&' || c == '-' || c == '~'
}

/// The text with a backslash before each character that has a meaning of its own in a pattern.
pub open spec fn regex_escaped(s: Seq<char>) -> Seq<char>
    decreases s.len(),
{
    if s.len() == 0 {
        Seq::empty()
    } else {
        let before = regex_escaped(s.drop_last());
        if is_meta(s.last()) {
            before.push('\\').push(s.last())
        } else {
            before.push(s.last())
        }
    }
}

/// Whether `c` may stand in a name after its first character.
pub open spec fn is_name_char(c: char) -> bool {
    text::is_alnum(c) || c == '_'
}

/// Whether `s` is the name of a shell variable.
pub open spec fn is_name(s: Seq<char>) -> bool {
    &&& s.len() > 0
    &&& !text::is_digit(s[0])
    &&& forall|i: int| 0 <= i < s.len() ==> is_name_char(#[trigger] s[i])
}

/// Whether `c` is a lower-case ASCII letter or a digit.
pub open spec fn is_lower_or_digit(c: char) -> bool {
    text::is_lower(c) || text::is_digit(c)
}

/// Whether `s` consists of lower-case letters and digits, in parts joined by single hyphens.
pub open spec fn is_hyphenated(s: Seq<char>) -> bool {
    &&& s.len() > 0
    &&& s[0] != '-'
    &&& s.last() != '-'
    &&& forall|i: int| 0 <= i < s.len() ==> is_lower_or_digit(#[trigger] s[i]) || s[i] == '-'
    &&& forall|i: int|
        0 <= i < s.len() - 1 ==> !((#[trigger] s[i]) == '-' && s[i + 1] == '-')
}

/// Whether `s` names a command: lower-case letters, digits, dots, underscores and hyphens, with a
/// letter or digit first.
pub open spec fn is_command_name(s: Seq<char>) -> bool {
    &&& s.len() > 0
    &&& is_lower_or_digit(s[0])
    &&& forall|i: int|
        0 <= i < s.len() ==> is_lower_or_digit(#[trigger] s[i]) || s[i] == '.' || s[i] == '_' || s[i]
            == '-'
}

/// Whether `s` is a variable name in upper case.
pub open spec fn is_upper_name(s: Seq<char>) -> bool {
    &&& s.len() > 0
    &&& !text::is_digit(s[0])
    &&& forall|i: int|
        0 <= i < s.len() ==> text::is_upper(#[trigger] s[i]) || text::is_digit(s[i]) || s[i] == '_'
}

/// Whether `s` is a key of a plugin configuration: lower-case letters, digits and underscores,
/// with a letter first.
pub open spec fn is_config_key(s: Seq<char>) -> bool {
    &&& s.len() > 0
    &&& text::is_lower(s[0])
    &&& forall|i: int| 0 <= i < s.len() ==> is_lower_or_digit(#[trigger] s[i]) || s[i] == '_'
}

/// Whether `s` is a SHA-256 digest in lower-case hexadecimal notation.
pub open spec fn is_digest(s: Seq<char>) -> bool {
    &&& s.len() == 64
    &&& forall|i: int| 0 <= i < s.len() ==> text::is_digit(#[trigger] s[i]) || 'a' <= s[i] <= 'f'
}

/// Whether a shell expansion `${..}` with something between its braces stands in `s`.
pub open spec fn has_expansion(s: Seq<char>) -> bool {
    exists|i: int, j: int| #[trigger] is_expansion(s, i, j)
}

/// Whether a shell expansion stands in `s` from `i` to the brace at `j`.
pub open spec fn is_expansion(s: Seq<char>, i: int, j: int) -> bool {
    &&& 0 <= i
    &&& i + 2 < j < s.len()
    &&& s[i] == '$'
    &&& s[i + 1] == '{'
    &&& s[j] == '}'
    &&& forall|k: int| i + 2 <= k < j ==> #[trigger] s[k] != '}'
}

/// The pattern for the name of a shell variable.
pub const NAME: &'static str = "^[A-Za-z_][A-Za-z0-9_]*$";

/// The pattern for the name of a plugin.
pub const HYPHENATED: &'static str = "^[a-z0-9]+(?:-[a-z0-9]+)*$";

/// The pattern for the name of a command.
pub const COMMAND_NAME: &'static str = "^[a-z0-9][a-z0-9._-]*$";

/// The pattern for a variable name in upper case.
pub const UPPER_NAME: &'static str = "^[A-Z_][A-Z0-9_]*$";

/// The pattern for a key of a plugin configuration.
pub const CONFIG_KEY: &'static str = "^[a-z][a-z0-9_]*$";

/// The pattern for a SHA-256 digest.
pub const DIGEST: &'static str = "^[a-f0-9]{64}$";

/// The pattern for a shell expansion.
pub const EXPANSION: &'static str = "\\$\\{[^}]+\\}";

/// The pattern for a reference to a secret.
pub const OP_REFERENCE: &'static str = "op://[^\\s\"']+";

/// The pattern for a secret given as a value for a key.
pub const SECRET_KEY_VALUE: &'static str =
    "(?i)((?:^|[?&\\s,;])(?:token|password|passwd|secret|apikey|api_key|access_key|client_secret)=)[^\\s&]+";

/// The pattern for an authorization header.
pub const AUTH_HEADER: &'static str =
    "(?i)((?:^|\\s)Authorization:\\s*(?:Bearer|Token|Basic|Digest|AWS4-HMAC-SHA256)\\s+)\\S+";

/// The pattern for `opz run` with an item.
pub const OPZ_RUN: &'static str =
    "\\bopz\\s+run(?P<opts>(?:\\s+--env-file\\s+\\S+)?)\\s+(?P<item>[^\\s-][^\\s]*)\\s+--";

/// The pattern for `opz` with an item.
pub const OPZ_SHORTHAND: &'static str = "\\bopz\\s+(?P<item>[^\\s-][^\\s]*)\\s+--";

/// The pattern for `opz run` without an item.
pub const OPZ_RUN_ITEMLESS: &'static str = "\\bopz\\s+run(?P<opts>(?:\\s+--env-file\\s+\\S+)?)\\s+--";

/// The pattern for `opz` without an item.
pub const OPZ_ITEMLESS: &'static str = "\\bopz\\s+--";

/// The pattern for `op item get` with an item.
pub const OP_ITEM_GET: &'static str = "\\bop\\s+item\\s+get\\s+(?P<item>[^\\s-][^\\s]*)";

/// The pattern for `op run` with the file `.env`.
pub const OP_RUN_DOTENV: &'static str = "\\bop\\s+run\\s+--env-file\\s+\\.env\\s+--";

/// The pattern for `opz gen` with its arguments.
pub const OPZ_GEN: &'static str = "\\bopz\\s+gen\\b(?P<args>[^\\n]*)";

/// The pattern for `opz create` with an item.
pub const OPZ_CREATE: &'static str = "\\bopz\\s+create\\s+(?P<item>[^\\s-][^\\s]*)";

/// Whether a pattern is one of those above.
pub open spec fn is_own_pattern(p: Seq<char>) -> bool {
    ||| p == NAME@
    ||| p == HYPHENATED@
    ||| p == COMMAND_NAME@
    ||| p == UPPER_NAME@
    ||| p == CONFIG_KEY@
    ||| p == DIGEST@
    ||| p == EXPANSION@
    ||| p == OP_REFERENCE@
    ||| p == SECRET_KEY_VALUE@
    ||| p == AUTH_HEADER@
    ||| p == OPZ_RUN@
    ||| p == OPZ_SHORTHAND@
    ||| p == OPZ_RUN_ITEMLESS@
    ||| p == OPZ_ITEMLESS@
    ||| p == OP_ITEM_GET@
    ||| p == OP_RUN_DOTENV@
    ||| p == OPZ_GEN@
    ||| p == OPZ_CREATE@
}

/// How many groups, the whole match among them, the patterns above have that are read by groups.
pub open spec fn group_count(p: Seq<char>) -> int {
    if p == OPZ_RUN@ {
        3
    } else if p == OPZ_SHORTHAND@ || p == OPZ_RUN_ITEMLESS@ || p == OP_ITEM_GET@ || p == OPZ_GEN@
        || p == OPZ_CREATE@ {
        2
    } else {
        1
    }
}

/// `regex::Regex::new` compiles a pattern, or refuses it with a message that depends on the
/// pattern alone. It compiles the patterns of this library.
#[verifier::external_body]
pub(crate) fn compile(pattern: &str) -> (r: Result<regex::Regex, String>)
    ensures
        match r {
            Ok(re) => regex_source(re) == pattern@ && regex_refusal(pattern@) is None,
            Err(e) => regex_refusal(pattern@) == Some(e@),
        },
        is_own_pattern(pattern@) ==> r is Ok,
{
    regex::Regex::new(pattern).map_err(|e| e.to_string())
}

/// `regex::Regex::is_match` says whether the pattern matches anywhere in a text. What it says for
/// the patterns of this library that are anchored at both ends, and for a shell expansion, is
/// stated.
#[verifier::external_body]
pub(crate) fn is_match(re: &regex::Regex, s: &str) -> (r: bool)
    ensures
        r == regex_match(regex_source(*re), s@),
        regex_source(*re) == NAME@ ==> r == is_name(s@),
        regex_source(*re) == HYPHENATED@ ==> r == is_hyphenated(s@),
        regex_source(*re) == COMMAND_NAME@ ==> r == is_command_name(s@),
        regex_source(*re) == UPPER_NAME@ ==> r == is_upper_name(s@),
        regex_source(*re) == CONFIG_KEY@ ==> r == is_config_key(s@),
        regex_source(*re) == DIGEST@ ==> r == is_digest(s@),
        regex_source(*re) == EXPANSION@ ==> r == has_expansion(s@),
{
    re.is_match(s)
}

/// `regex::Regex::replace_all` replaces every match in a text; groups that the replacement names
/// are filled in.
#[verifier::external_body]
pub(crate) fn replace_all(re: &regex::Regex, s: &str, to: &str) -> (r: String)
    ensures
        r@ == regex_replaced(regex_source(*re), s@, to@),
{
    re.replace_all(s, to).into_owned()
}

/// The matches with each group as text.
pub open spec fn groups(found: Seq<Vec<Option<String>>>) -> Seq<Seq<Option<Seq<char>>>> {
    Seq::new(found.len(), |i: int| found[i].deep_view())
}

/// `regex::Regex::captures_iter` finds the matches in a text, from the left and without overlap.
/// Each has all the groups of the pattern; the first is the whole match and always there, and the
/// groups of this library's patterns take part in every match.
#[verifier::external_body]
pub(crate) fn captures(re: &regex::Regex, s: &str) -> (r: Vec<Vec<Option<String>>>)
    ensures
        groups(r@) == regex_captures(regex_source(*re), s@),
        forall|i: int|
            0 <= i < r@.len() ==> (#[trigger] r@[i])@.len() >= 1 && r@[i]@[0] is Some,
        is_own_pattern(regex_source(*re)) ==> forall|i: int, j: int|
            0 <= i < r@.len() && 0 <= j < group_count(regex_source(*re)) ==> (#[trigger] r@[i])@.len()
                >= group_count(regex_source(*re)) && (#[trigger] r@[i]@[j]) is Some,
{
    re.captures_iter(s).map(
        |found| found.iter().map(|group| group.map(|part| part.as_str().to_string())).collect(),
    ).collect()
}

/// The text that gaps and the matches between them make up.
pub open spec fn interleaved(gaps: Seq<Seq<char>>, parts: Seq<Seq<char>>) -> Seq<char>
    decreases parts.len(),
{
    if gaps.len() == 0 {
        Seq::empty()
    } else if parts.len() == 0 || gaps.len() == 1 {
        gaps[0]
    } else {
        interleaved(gaps.drop_last(), parts.drop_last()) + parts.last() + gaps.last()
    }
}

/// The whole matches.
pub open spec fn wholes(found: Seq<Seq<Option<Seq<char>>>>) -> Seq<Seq<char>> {
    Seq::new(found.len(), |i: int| found[i][0]->0)
}

/// `regex::Regex::split` gives the parts of a text between the matches of the pattern: one more
/// than there are matches. With the matches between them they make up the text.
#[verifier::external_body]
pub(crate) fn gaps(re: &regex::Regex, s: &str) -> (r: Vec<String>)
    ensures
        crate::seqs::texts(r@) == regex_gaps(regex_source(*re), s@),
        r@.len() == regex_captures(regex_source(*re), s@).len() + 1,
        interleaved(
            crate::seqs::texts(r@),
            wholes(regex_captures(regex_source(*re), s@)),
        ) == s@,
{
    re.split(s).map(|part| part.to_string()).collect()
}

/// `regex::escape` puts a backslash before each character that has a meaning of its own in a
/// pattern.
#[verifier::external_body]
pub(crate) fn escape(s: &str) -> (r: String)
    ensures
        r@ == regex_escaped(s@),
{
    regex::escape(s)
}

/// Whether `s` matches one of the library's patterns.
fn matches_own(pattern: &str, s: &str) -> (r: bool)
    requires
        is_own_pattern(pattern@),
    ensures
        r == regex_match(pattern@, s@),
        pattern@ == NAME@ ==> r == is_name(s@),
        pattern@ == HYPHENATED@ ==> r == is_hyphenated(s@),
        pattern@ == COMMAND_NAME@ ==> r == is_command_name(s@),
        pattern@ == UPPER_NAME@ ==> r == is_upper_name(s@),
        pattern@ == CONFIG_KEY@ ==> r == is_config_key(s@),
        pattern@ == DIGEST@ ==> r == is_digest(s@),
        pattern@ == EXPANSION@ ==> r == has_expansion(s@),
{
    match compile(pattern) {
        Ok(re) => is_match(&re, s),
        Err(_) => false,
    }
}

/// Whether `s` is the name of a shell variable.
pub fn matches_name(s: &str) -> (r: bool)
    ensures
        r == is_name(s@),
{
    matches_own(NAME, s)
}

/// Whether `s` is a plugin name.
pub fn matches_hyphenated(s: &str) -> (r: bool)
    ensures
        r == is_hyphenated(s@),
{
    matches_own(HYPHENATED, s)
}

/// Whether `s` is the name of a command.
pub fn matches_command_name(s: &str) -> (r: bool)
    ensures
        r == is_command_name(s@),
{
    matches_own(COMMAND_NAME, s)
}

/// Whether `s` is a variable name in upper case.
pub fn matches_upper_name(s: &str) -> (r: bool)
    ensures
        r == is_upper_name(s@),
{
    matches_own(UPPER_NAME, s)
}

/// Whether `s` is a key of a plugin configuration.
pub fn matches_config_key(s: &str) -> (r: bool)
    ensures
        r == is_config_key(s@),
{
    matches_own(CONFIG_KEY, s)
}

/// Whether `s` is a SHA-256 digest.
pub fn matches_digest(s: &str) -> (r: bool)
    ensures
        r == is_digest(s@),
{
    matches_own(DIGEST, s)
}

/// Whether a shell expansion stands in `s`.
pub fn matches_expansion(s: &str) -> (r: bool)
    ensures
        r == has_expansion(s@),
{
    matches_own(EXPANSION, s)
}

} // verus!
