//! What holds of credentials for Cloudflare: which secrets an input holds, and which keys name one.

use vstd::prelude::*;
use vstd::string::*;

use crate::cloudflare;
use crate::json;
use crate::json::JsonView;
use crate::text;

verus! {

broadcast use crate::seqs::group_seqs;

/// The secret in a JSON value is a string itself, or any other value as JSON; null holds none.
pub proof fn law_json_secret(value: JsonView)
    ensures
        value matches JsonView::Text(s) ==> cloudflare::json_secret(value) == Ok::<
            Seq<char>,
            Seq<Seq<char>>,
        >(s),
        value is Null ==> cloudflare::json_secret(value) is Err,
        !(value is Text) && !(value is Null) ==> cloudflare::json_secret(value) == Ok::<
            Seq<char>,
            Seq<Seq<char>>,
        >(json::printed(value)),
{
}

/// Plain bytes hold their whole text as a secret, but for line ends behind it.
pub proof fn law_plain_secret(input: Seq<u8>, secret: Seq<char>, ends: Seq<char>)
    requires
        vstd::utf8::valid_utf8(input),
        vstd::utf8::decode_utf8(input) == secret + ends,
        forall|i: int| 0 <= i < ends.len() ==> #[trigger] ends[i] == '\r' || ends[i] == '\n',
        secret.len() > 0 ==> secret.last() != '\r' && secret.last() != '\n',
    ensures
        cloudflare::plain_secret(input) == Ok::<Seq<char>, Seq<Seq<char>>>(secret),
{
    lemma_line_ends(secret, ends);
}

/// Line ends behind a text are taken off, and nothing more.
proof fn lemma_line_ends(s: Seq<char>, ends: Seq<char>)
    requires
        forall|i: int| 0 <= i < ends.len() ==> #[trigger] ends[i] == '\r' || ends[i] == '\n',
        s.len() > 0 ==> s.last() != '\r' && s.last() != '\n',
    ensures
        text::without_trailing(s + ends, seq!['\r', '\n']) == s,
    decreases ends.len(),
{
    let set = seq!['\r', '\n'];
    assert(set[0] == '\r' && set[1] == '\n');
    let all = s + ends;
    if ends.len() == 0 {
        assert(all =~= s);
        if s.len() > 0 && set.contains(s.last()) {
            let k = choose|k: int| 0 <= k < set.len() && set[k] == s.last();
        }
    } else {
        let less = ends.drop_last();
        let last = ends[ends.len() - 1];
        assert(last == '\r' || last == '\n');
        assert(set.contains(last));
        assert(all.last() == last);
        assert(all.drop_last() =~= s + less);
        assert forall|i: int| 0 <= i < less.len() implies #[trigger] less[i] == '\r' || less[i]
            == '\n' by {
            assert(less[i] == ends[i]);
        }
        lemma_line_ends(s, less);
    }
}

/// The token in an object is the value for the field that was asked for, where it has that; else
/// for the first of `token`, `api_token`, `apiToken`, `value` and `secret` that it has; else its
/// only value. A value that is no object is the token itself.
pub proof fn law_token_found(
    entries: Seq<(Seq<char>, JsonView)>,
    other: JsonView,
    input: Seq<u8>,
    asked: Option<Seq<char>>,
)
    requires
        !(other is Object),
    ensures
        ({
            let j = JsonView::Object(entries);
            let found = cloudflare::single_secret(Ok(j), input, asked);
            let asked_for = match asked {
                Some(name) => json::field(j, name),
                None => None,
            };
            &&& asked_for matches Some(v) ==> found == cloudflare::json_secret(v)
            &&& asked_for is None ==> (json::field(j, "token"@) matches Some(v) ==> found
                == cloudflare::json_secret(v))
            &&& asked_for is None && json::field(j, "token"@) is None ==> (json::field(
                j,
                "api_token"@,
            ) matches Some(v) ==> found == cloudflare::json_secret(v))
            &&& asked_for is None && json::field(j, "token"@) is None && json::field(
                j,
                "api_token"@,
            ) is None ==> (json::field(j, "apiToken"@) matches Some(v) ==> found
                == cloudflare::json_secret(v))
            &&& asked_for is None && json::field(j, "token"@) is None && json::field(
                j,
                "api_token"@,
            ) is None && json::field(j, "apiToken"@) is None ==> (json::field(
                j,
                "value"@,
            ) matches Some(v) ==> found == cloudflare::json_secret(v))
            &&& asked_for is None && json::field(j, "token"@) is None && json::field(
                j,
                "api_token"@,
            ) is None && json::field(j, "apiToken"@) is None && json::field(j, "value"@) is None
                ==> (match json::field(j, "secret"@) {
                Some(v) => found == cloudflare::json_secret(v),
                None => if entries.len() == 1 {
                    found == cloudflare::json_secret(entries[0].1)
                } else {
                    found is Err
                },
            })
        }),
        cloudflare::single_secret(Ok(other), input, asked) == cloudflare::json_secret(other),
        cloudflare::single_secret(Err(Seq::empty()), input, asked) == cloudflare::plain_secret(
            input,
        ),
{
}

/// The fields for an object of Worker secrets are its entries, all of them and in order, each under
/// its key; there are some exactly where every value is a secret that is not empty.
pub proof fn law_worker_secrets(entries: Seq<(Seq<char>, JsonView)>)
    ensures
        cloudflare::secret_fields(entries) matches Ok(fields) ==> fields.len() == entries.len() && (
        forall|i: int|
            0 <= i < entries.len() ==> (#[trigger] fields[i]).label == entries[i].0
                && cloudflare::json_secret(entries[i].1) == Ok::<Seq<char>, Seq<Seq<char>>>(
                fields[i].value,
            ) && fields[i].value.len() > 0),
        cloudflare::secret_fields(entries) is Ok <==> forall|i: int|
            0 <= i < entries.len() ==> (cloudflare::json_secret((#[trigger] entries[i]).1) matches Ok(
                v,
            ) && v.len() > 0),
    decreases entries.len(),
{
    if entries.len() > 0 {
        let front = entries.drop_last();
        let n = front.len() as int;
        law_worker_secrets(front);
        assert(entries[n] == entries.last());
        assert forall|i: int| 0 <= i < n implies #[trigger] front[i] == entries[i] by {}
        if cloudflare::secret_fields(front) is Ok {
            let before = cloudflare::secret_fields(front)->Ok_0;
            assert forall|i: int| 0 <= i < n implies (cloudflare::json_secret(
                (#[trigger] entries[i]).1,
            ) matches Ok(v) && v.len() > 0) by {
                assert(front[i] == entries[i]);
            }
            if let Ok(fields) = cloudflare::secret_fields(entries) {
                assert forall|i: int| 0 <= i < entries.len() implies (#[trigger] fields[i]).label
                    == entries[i].0 && cloudflare::json_secret(entries[i].1) == Ok::<
                    Seq<char>,
                    Seq<Seq<char>>,
                >(fields[i].value) && fields[i].value.len() > 0 by {
                    if i < n {
                        assert(fields[i] == before[i]);
                        assert(front[i] == entries[i]);
                    }
                }
            }
        } else {
            let i = choose|i: int|
                0 <= i < front.len() && !(cloudflare::json_secret((#[trigger] front[i]).1) matches Ok(
                    v,
                ) && v.len() > 0);
            assert(front[i] == entries[i]);
        }
    }
}

/// A single Worker secret gets the label that was asked for, or the usual one; an object with a
/// label asked for is one secret.
pub proof fn law_worker_fields(
    j: JsonView,
    entries: Seq<(Seq<char>, JsonView)>,
    input: Seq<u8>,
    label: Seq<char>,
)
    requires
        !(j is Object),
    ensures
        cloudflare::worker_fields(Ok(JsonView::Object(entries)), input, None)
            == cloudflare::secret_fields(entries),
        cloudflare::worker_fields(Ok(j), input, None) matches Ok(fields) ==> fields.len() == 1
            && fields[0].label == "WORKER_SECRET"@ && cloudflare::json_secret(j) == Ok::<
            Seq<char>,
            Seq<Seq<char>>,
        >(fields[0].value),
        cloudflare::worker_fields(Ok(j), input, Some(label)) matches Ok(fields) ==> fields.len()
            == 1 && fields[0].label == label && cloudflare::json_secret(j) == Ok::<
            Seq<char>,
            Seq<Seq<char>>,
        >(fields[0].value),
        cloudflare::worker_fields(Ok(j), input, None) is Ok <==> cloudflare::json_secret(j) is Ok,
        cloudflare::worker_fields(Err(Seq::empty()), input, Some(label)) matches Ok(fields)
            ==> fields.len() == 1 && fields[0].label == label && cloudflare::plain_secret(input)
            == Ok::<Seq<char>, Seq<Seq<char>>>(fields[0].value),
{
}

/// The ASCII letters and digits of a text, in lower case.
pub open spec fn squeezed(s: Seq<char>) -> Seq<char>
    decreases s.len(),
{
    if s.len() == 0 {
        Seq::empty()
    } else {
        let before = squeezed(s.drop_last());
        let c = s.last();
        if 'a' <= c <= 'z' || '0' <= c <= '9' {
            before.push(c)
        } else if 'A' <= c <= 'Z' {
            before.push(text::lower(c))
        } else {
            before
        }
    }
}

/// A text without its underscores.
spec fn without_marks(s: Seq<char>) -> Seq<char>
    decreases s.len(),
{
    if s.len() == 0 {
        Seq::empty()
    } else if s.last() == '_' {
        without_marks(s.drop_last())
    } else {
        without_marks(s.drop_last()).push(s.last())
    }
}

/// The words of an identifier hold its letters and digits.
proof fn lemma_expanded_squeezed(s: Seq<char>)
    ensures
        without_marks(cloudflare::expanded(s)) == squeezed(s),
    decreases s.len(),
{
    if s.len() > 0 {
        let c = s.last();
        let front = s.drop_last();
        lemma_expanded_squeezed(front);
        let before = cloudflare::expanded(front);
        let all = cloudflare::expanded(s);
        let joint = all.drop_last();
        assert(joint == before || joint == before.push('_'));
        if joint == before.push('_') {
            assert(joint.drop_last() =~= before);
            assert(joint.last() == '_');
        }
        assert(without_marks(joint) == without_marks(before));
        if text::is_alnum(c) {
            assert(all.last() == text::lower(c));
            assert(all.last() != '_');
        } else {
            assert(all.last() == '_');
        }
    }
}

/// Parts without a separator between them follow one another.
proof fn lemma_joined_pushed(parts: Seq<Seq<char>>, last: Seq<char>)
    ensures
        text::joined(parts.push(last), Seq::empty()) == text::joined(parts, Seq::empty()) + last,
{
    let all = parts.push(last);
    assert(all.drop_last() =~= parts);
    if parts.len() == 0 {
        assert(text::joined(parts, Seq::empty()) + last =~= last);
    } else {
        assert(text::joined(parts, Seq::empty()) + Seq::<char>::empty() + last =~= text::joined(
            parts,
            Seq::empty(),
        ) + last);
    }
}

/// The filled parts between underscores, run together, are the text without them.
proof fn lemma_words_joined(s: Seq<char>)
    ensures
        text::joined(text::filled_parts(text::pieces(s, seq!['_'])), Seq::empty()) == without_marks(
            s,
        ),
    decreases s.len(),
{
    let set = seq!['_'];
    assert(set[0] == '_');
    let all = text::pieces(s, set);
    let none = Seq::<char>::empty();
    if s.len() == 0 {
        assert(all =~= seq![none]);
        assert(all.drop_last() =~= Seq::<Seq<char>>::empty());
        reveal_with_fuel(text::filled_parts, 2);
        assert(text::filled_parts(all) =~= Seq::<Seq<char>>::empty());
    } else {
        let front = s.drop_last();
        lemma_words_joined(front);
        let before = text::pieces(front, set);
        text::lemma_pieces_nonempty(front, set);
        let start = text::filled_parts(before.drop_last());
        if s.last() == '_' {
            assert(all.drop_last() =~= before);
            assert(all.last() =~= none);
        } else {
            assert(!set.contains(s.last())) by {
                if set.contains(s.last()) {
                    assert(set[0] == s.last());
                }
            }
            let word = before.last().push(s.last());
            assert(all.drop_last() =~= before.drop_last());
            assert(all.last() == word);
            lemma_joined_pushed(start, word);
            lemma_joined_pushed(start, before.last());
            let text = text::joined(start, none);
            if before.last().len() == 0 {
                assert(text + word =~= text.push(s.last()));
            } else {
                assert(text + word =~= (text + before.last()).push(s.last()));
            }
        }
    }
}

/// A key names a credential where its letters and digits, whatever stands between them and in
/// whatever case, speak of a token, a secret, a cookie or an authorization.
pub proof fn law_sensitive_key(key: Seq<char>)
    ensures
        text::holds(squeezed(key), "token"@) || text::holds(squeezed(key), "secret"@) || text::holds(
            squeezed(key),
            "cookie"@,
        ) || text::holds(squeezed(key), "authorization"@) ==> cloudflare::is_sensitive(key),
        squeezed(key) == "apikey"@ || squeezed(key) == "accesskey"@ || squeezed(key)
            == "privatekey"@ || squeezed(key) == "signingkey"@ || squeezed(key) == "encryptionkey"@
            ==> cloudflare::is_sensitive(key),
{
    reveal_strlit("");
    assert(""@ =~= Seq::<char>::empty());
    lemma_expanded_squeezed(key);
    lemma_words_joined(cloudflare::expanded(key));
}

/// What is redacted keeps its shape: entries stay under their keys and items at their places, and
/// what stands under a key that names no credential is redacted by itself.
pub proof fn law_redacted_shape(m: Seq<(Seq<char>, JsonView)>, v: Seq<JsonView>, i: int)
    ensures
        cloudflare::redacted(JsonView::Object(m)) matches JsonView::Object(out) && out.len()
            == m.len() && (0 <= i < m.len() ==> out[i].0 == m[i].0 && out[i].1 == (
        if cloudflare::is_sensitive(m[i].0) {
            JsonView::Text("[REDACTED]"@)
        } else {
            cloudflare::redacted(m[i].1)
        })),
        cloudflare::redacted(JsonView::Array(v)) matches JsonView::Array(out) && out.len() == v.len()
            && (0 <= i < v.len() ==> out[i] == cloudflare::redacted(v[i])),
{
}

} // verus!
