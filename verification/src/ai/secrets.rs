//! Taking credentials out of texts that are kept.
use vstd::prelude::*;

use crate::text;

verus! {

broadcast use vstd::string::group_string_axioms;

/// What stands where a credential stood.
pub const REDACTED: &'static str = "[REDACTED]";

/// A text with every occurrence of a secret replaced, from left to right.
pub open spec fn scrubbed(s: Seq<char>, secret: Seq<char>) -> Seq<char>
    decreases s.len(),
{
    if s.len() == 0 || secret.len() == 0 {
        s
    } else if text::begins(s, secret) {
        REDACTED@ + scrubbed(s.skip(secret.len() as int), secret)
    } else {
        seq![s[0]] + scrubbed(s.drop_first(), secret)
    }
}

/// Replaces every occurrence of a known secret; a blank one is none.
pub fn redact_known_secret(value: &str, secret: &str) -> (r: String)
    ensures
        r@ == (if text::blank(secret@) {
            value@
        } else {
            scrubbed(value@, secret@)
        }),
{
    if text::is_blank(secret) {
        return text::copy(value);
    }
    proof {
        text::lemma_blank(secret@);
    }
    let v = text::chars_of(value);
    let p = text::chars_of(secret);
    if p.len() == 0 {
        return text::copy(value);
    }
    let mut out = String::new();
    let mut i: usize = 0;
    let ghost all = scrubbed(value@, secret@);
    assert(value@.skip(0) =~= value@);
    assert(out@ + all =~= all);
    while i < v.len()
        invariant
            i <= v.len(),
            v@ == value@,
            p@ == secret@,
            p@.len() > 0,
            all == out@ + scrubbed(value@.skip(i as int), secret@),
        decreases v.len() - i,
    {
        let ghost rest = value@.skip(i as int);
        let ghost before = out@;
        proof {
            if i + p@.len() <= value@.len() {
                assert(rest.subrange(0, p@.len() as int) =~= value@.subrange(
                    i as int,
                    i + p@.len(),
                ));
            }
        }
        if text::matches_at(&v, &p, i) {
            out.append(REDACTED);
            proof {
                assert(rest.skip(p@.len() as int) =~= value@.skip(i + p@.len()));
                let tail = scrubbed(value@.skip(i + p@.len()), secret@);
                assert(before + (REDACTED@ + tail) =~= (before + REDACTED@) + tail);
            }
            i += p.len();
        } else {
            let c = v[i];
            out.push(c);
            proof {
                assert(rest.drop_first() =~= value@.skip(i + 1));
                let tail = scrubbed(value@.skip(i + 1), secret@);
                assert(before + (seq![c] + tail) =~= before.push(c) + tail);
            }
            i += 1;
        }
    }
    assert(value@.skip(i as int) =~= Seq::<char>::empty());
    assert(out@ + Seq::<char>::empty() =~= out@);
    out
}

proof fn lemma_scrubbed_prefix(s: Seq<char>, secret: Seq<char>, n: int)
    requires
        secret.len() > 0,
        0 <= n <= scrubbed(s, secret).len(),
        forall|j: int| 0 <= j < n ==> scrubbed(s, secret)[j] != '[',
    ensures
        n <= s.len(),
        s.take(n) == scrubbed(s, secret).take(n),
    decreases s.len(),
{
    reveal_strlit("[REDACTED]");
    let out = scrubbed(s, secret);
    if n > 0 {
        if text::begins(s, secret) {
            assert(out[0] == '[');
        } else {
            let t = s.drop_first();
            let rest = scrubbed(t, secret);
            assert forall|j: int| 0 <= j < n - 1 implies rest[j] != '[' by {
                assert(rest[j] == out[j + 1]);
            }
            lemma_scrubbed_prefix(t, secret, n - 1);
            assert forall|j: int| 0 <= j < n implies s[j] == out[j] by {
                if j > 0 {
                    assert(t.take(n - 1)[j - 1] == rest.take(n - 1)[j - 1]);
                }
            }
        }
    }
    assert(s.take(n) =~= out.take(n));
}

/// A secret is gone after it was replaced, unless it is part of what stands in
/// its place or could run into it.
pub proof fn known_secrets_are_removed(s: Seq<char>, secret: Seq<char>)
    requires
        secret.len() > 0,
        !secret.contains('['),
        !secret.contains(']'),
        !text::occurs(REDACTED@, secret),
    ensures
        !text::occurs(scrubbed(s, secret), secret),
    decreases s.len(),
{
    reveal_strlit("[REDACTED]");
    let out = scrubbed(s, secret);
    let n = secret.len() as int;
    if text::occurs(out, secret) {
        let k = choose|k: int| #[trigger] text::occurs_at(out, secret, k);
        assert(out.subrange(k, k + n) == secret);
        if s.len() == 0 {
        } else if text::begins(s, secret) {
            let rest = scrubbed(s.skip(n), secret);
            known_secrets_are_removed(s.skip(n), secret);
            if k >= 10 {
                assert(rest.subrange(k - 10, k - 10 + n) =~= secret);
                assert(text::occurs_at(rest, secret, k - 10));
            } else if k + n <= 10 {
                assert(REDACTED@.subrange(k, k + n) =~= secret);
                assert(text::occurs_at(REDACTED@, secret, k));
            } else {
                assert(out[9] == ']');
                assert(secret[9 - k] == out.subrange(k, k + n)[9 - k]);
                assert(secret.contains(']'));
            }
        } else {
            let t = s.drop_first();
            let rest = scrubbed(t, secret);
            known_secrets_are_removed(t, secret);
            if k >= 1 {
                assert(rest.subrange(k - 1, k - 1 + n) =~= secret);
                assert(text::occurs_at(rest, secret, k - 1));
            } else {
                assert forall|j: int| 0 <= j < n implies out[j] != '[' by {
                    assert(secret[j] == out.subrange(0, n)[j]);
                }
                lemma_scrubbed_prefix(s, secret, n);
                assert(s.take(n) =~= secret);
                assert(s.subrange(0, n) =~= secret);
            }
        }
    }
}

/// A character that a token may hold.
pub open spec fn token_char(c: char) -> bool {
    text::ascii_alphanumeric(c) || c == '-' || c == '_' || c == '.' || c == '~' || c == '+' || c
        == '/' || c == '='
}

fn is_token_char(c: char) -> (r: bool)
    ensures
        r == token_char(c),
{
    text::is_ascii_alphanumeric(c) || c == '-' || c == '_' || c == '.' || c == '~' || c == '+' || c
        == '/' || c == '='
}

/// How long the token is that a text begins with.
pub open spec fn token_len(s: Seq<char>) -> int
    decreases s.len(),
{
    if s.len() == 0 || !token_char(s[0]) {
        0
    } else {
        1 + token_len(s.drop_first())
    }
}

/// A token is part of its text.
pub proof fn lemma_token_len(s: Seq<char>)
    ensures
        0 <= token_len(s) <= s.len(),
    decreases s.len(),
{
    if s.len() > 0 && token_char(s[0]) {
        lemma_token_len(s.drop_first());
    }
}

fn find_token_end(v: &Vec<char>, from: usize) -> (r: usize)
    requires
        from <= v.len(),
    ensures
        from <= r <= v.len(),
        r - from == token_len(v@.skip(from as int)),
{
    let mut i: usize = from;
    while i < v.len() && is_token_char(v[i])
        invariant
            from <= i <= v.len(),
            token_len(v@.skip(from as int)) == (i - from) + token_len(v@.skip(i as int)),
        decreases v.len() - i,
    {
        assert(v@.skip(i as int).drop_first() =~= v@.skip(i + 1));
        i += 1;
    }
    i
}

/// A text with the credentials replaced that their beginnings give away: a token
/// that begins with `sk-`, and one behind `Bearer `.
pub open spec fn swept(s: Seq<char>) -> Seq<char>
    decreases s.len(),
{
    if s.len() == 0 {
        s
    } else if text::begins(s, "sk-"@) && token_len(s.skip(3)) > 0 {
        proof {
            reveal_strlit("sk-");
            lemma_token_len(s.skip(3));
        }
        REDACTED@ + swept(s.skip(3 + token_len(s.skip(3))))
    } else if text::begins(s, "Bearer "@) && token_len(s.skip(7)) > 0 {
        proof {
            reveal_strlit("Bearer ");
            lemma_token_len(s.skip(7));
        }
        "Bearer "@ + REDACTED@ + swept(s.skip(7 + token_len(s.skip(7))))
    } else {
        seq![s[0]] + swept(s.drop_first())
    }
}

/// Replaces the credentials that their beginnings give away.
pub fn redact_common_secrets(value: &str) -> (r: String)
    ensures
        r@ == swept(value@),
{
    proof {
        reveal_strlit("sk-");
        reveal_strlit("Bearer ");
    }
    let v = text::chars_of(value);
    let sk = text::chars_of("sk-");
    let bearer = text::chars_of("Bearer ");
    let mut out = String::new();
    let mut i: usize = 0;
    let ghost all = swept(value@);
    assert(value@.skip(0) =~= value@);
    assert(out@ + all =~= all);
    while i < v.len()
        invariant
            i <= v.len(),
            v@ == value@,
            sk@ == "sk-"@,
            bearer@ == "Bearer "@,
            sk@.len() == 3,
            bearer@.len() == 7,
            all == out@ + swept(value@.skip(i as int)),
        decreases v.len() - i,
    {
        let ghost rest = value@.skip(i as int);
        let ghost before = out@;
        proof {
            if i + 3 <= value@.len() {
                assert(rest.subrange(0, 3) =~= value@.subrange(i as int, i + 3));
                assert(rest.skip(3) =~= value@.skip(i + 3));
            }
            if i + 7 <= value@.len() {
                assert(rest.subrange(0, 7) =~= value@.subrange(i as int, i + 7));
                assert(rest.skip(7) =~= value@.skip(i + 7));
            }
        }
        let mut from: usize = i;
        let mut end: usize = i;
        let mut spoken = false;
        if text::matches_at(&v, &sk, i) {
            from = i + 3;
            end = find_token_end(&v, from);
        }
        if end == from && text::matches_at(&v, &bearer, i) {
            from = i + 7;
            end = find_token_end(&v, from);
            spoken = true;
        }
        if end > from {
            if spoken {
                out.append("Bearer ");
            }
            out.append(REDACTED);
            proof {
                let tail = swept(value@.skip(end as int));
                if spoken {
                    assert(rest.skip(7 + token_len(rest.skip(7))) =~= value@.skip(end as int));
                    assert(before + ("Bearer "@ + REDACTED@ + tail) =~= (before + "Bearer "@
                        + REDACTED@) + tail);
                } else {
                    assert(rest.skip(3 + token_len(rest.skip(3))) =~= value@.skip(end as int));
                    assert(before + (REDACTED@ + tail) =~= (before + REDACTED@) + tail);
                }
            }
            i = end;
        } else {
            let c = v[i];
            out.push(c);
            proof {
                assert(rest.drop_first() =~= value@.skip(i + 1));
                let tail = swept(value@.skip(i + 1));
                assert(before + (seq![c] + tail) =~= before.push(c) + tail);
            }
            i += 1;
        }
    }
    assert(value@.skip(i as int) =~= Seq::<char>::empty());
    assert(out@ + Seq::<char>::empty() =~= out@);
    out
}

/// A text that holds neither beginning is left as it is.
pub proof fn plain_texts_are_kept(s: Seq<char>)
    requires
        !text::occurs(s, "sk-"@),
        !text::occurs(s, "Bearer "@),
    ensures
        swept(s) == s,
    decreases s.len(),
{
    reveal_strlit("sk-");
    reveal_strlit("Bearer ");
    if s.len() > 0 {
        let t = s.drop_first();
        assert(!text::occurs(t, "sk-"@)) by {
            if text::occurs(t, "sk-"@) {
                let k = choose|k: int| #[trigger] text::occurs_at(t, "sk-"@, k);
                assert(s.subrange(k + 1, k + 4) =~= t.subrange(k, k + 3));
                assert(text::occurs_at(s, "sk-"@, k + 1));
            }
        }
        assert(!text::occurs(t, "Bearer "@)) by {
            if text::occurs(t, "Bearer "@) {
                let k = choose|k: int| #[trigger] text::occurs_at(t, "Bearer "@, k);
                assert(s.subrange(k + 1, k + 8) =~= t.subrange(k, k + 7));
                assert(text::occurs_at(s, "Bearer "@, k + 1));
            }
        }
        plain_texts_are_kept(t);
        if text::begins(s, "sk-"@) {
            assert(text::occurs_at(s, "sk-"@, 0));
        }
        if text::begins(s, "Bearer "@) {
            assert(text::occurs_at(s, "Bearer "@, 0));
        }
        assert(seq![s[0]] + t =~= s);
    }
}

/// The first character of a text that was swept: one of what stands in place of
/// a credential, or that of the text.
proof fn lemma_swept_first(s: Seq<char>)
    requires
        s.len() > 0,
    ensures
        swept(s).len() > 0,
        swept(s)[0] == '[' || swept(s)[0] == s[0],
{
    reveal_strlit("[REDACTED]");
    reveal_strlit("Bearer ");
}

/// No token that begins with `sk-` is left.
pub proof fn tokens_are_removed(s: Seq<char>, k: int)
    requires
        text::occurs_at(swept(s), "sk-"@, k),
    ensures
        k + 3 == swept(s).len() || !token_char(swept(s)[k + 3]),
    decreases s.len(),
{
    reveal_strlit("[REDACTED]");
    reveal_strlit("Bearer ");
    reveal_strlit("sk-");
    let out = swept(s);
    assert(out.subrange(k, k + 3)[0] == 's');
    assert(out.subrange(k, k + 3)[1] == 'k');
    assert(out.subrange(k, k + 3)[2] == '-');
    if s.len() > 0 {
        if text::begins(s, "sk-"@) && token_len(s.skip(3)) > 0 {
            lemma_token_len(s.skip(3));
            let t = s.skip(3 + token_len(s.skip(3)));
            assert(k >= 10);
            assert(swept(t).subrange(k - 10, k - 7) =~= out.subrange(k, k + 3));
            tokens_are_removed(t, k - 10);
        } else if text::begins(s, "Bearer "@) && token_len(s.skip(7)) > 0 {
            lemma_token_len(s.skip(7));
            let t = s.skip(7 + token_len(s.skip(7)));
            assert(out =~= "Bearer "@ + (REDACTED@ + swept(t)));
            assert(k >= 17);
            assert(swept(t).subrange(k - 17, k - 14) =~= out.subrange(k, k + 3));
            tokens_are_removed(t, k - 17);
        } else {
            let t = s.drop_first();
            if k >= 1 {
                assert(swept(t).subrange(k - 1, k + 2) =~= out.subrange(k, k + 3));
                tokens_are_removed(t, k - 1);
            } else {
                assert(s[0] == 's');
                assert(swept(t).len() >= 2);
                lemma_swept_first(t);
                assert(t[0] == 'k');
                let u = t.drop_first();
                assert(!text::begins(t, "sk-"@)) by {
                    if text::begins(t, "sk-"@) {
                        assert(t.subrange(0, 3)[0] == 's');
                    }
                }
                assert(!text::begins(t, "Bearer "@)) by {
                    if text::begins(t, "Bearer "@) {
                        assert(t.subrange(0, 7)[0] == 'B');
                    }
                }
                assert(swept(t) == seq![t[0]] + swept(u));
                assert(swept(u)[0] == '-');
                lemma_swept_first(u);
                assert(u[0] == '-');
                let w = u.drop_first();
                assert(!text::begins(u, "sk-"@)) by {
                    if text::begins(u, "sk-"@) {
                        assert(u.subrange(0, 3)[0] == 's');
                    }
                }
                assert(!text::begins(u, "Bearer "@)) by {
                    if text::begins(u, "Bearer "@) {
                        assert(u.subrange(0, 7)[0] == 'B');
                    }
                }
                assert(swept(u) == seq![u[0]] + swept(w));
                assert(s.subrange(0, 3) =~= "sk-"@);
                assert(s.skip(3) =~= w);
                if w.len() > 0 {
                    assert(!token_char(w[0])) by {
                        if token_char(w[0]) {
                            lemma_token_len(w.drop_first());
                        }
                    }
                    lemma_swept_first(w);
                    assert(out[3] == swept(w)[0]);
                }
            }
        }
    }
}

proof fn lemma_scrubbed_behind(a: Seq<char>, secret: Seq<char>, b: Seq<char>)
    requires
        secret.len() > 0,
        forall|i: int| 0 <= i < a.len() ==> !text::begins((a + secret + b).skip(i), secret),
    ensures
        scrubbed(a + secret + b, secret) == a + "[REDACTED]"@ + scrubbed(b, secret),
    decreases a.len(),
{
    let s = a + secret + b;
    if a.len() == 0 {
        assert(s =~= secret + b);
        text::parts_of_a_text_are_found(Seq::empty(), secret, b, s);
        assert(text::begins(secret + b, secret));
        assert(s.skip(secret.len() as int) =~= b);
        assert(a + "[REDACTED]"@ =~= "[REDACTED]"@);
    } else {
        let t = a.drop_first();
        assert(s.skip(0) =~= s);
        assert(!text::begins(s, secret)) by {
            assert(!text::begins((a + secret + b).skip(0), secret));
        }
        assert(s.drop_first() =~= t + secret + b);
        assert forall|i: int| 0 <= i < t.len() implies !text::begins(
            (t + secret + b).skip(i),
            secret,
        ) by {
            assert((t + secret + b).skip(i) =~= s.skip(i + 1));
        }
        lemma_scrubbed_behind(t, secret, b);
        assert(seq![a[0]] + (t + "[REDACTED]"@ + scrubbed(b, secret)) =~= a + "[REDACTED]"@
            + scrubbed(b, secret));
    }
}

/// The first occurrence of a known secret is replaced by `[REDACTED]`, what stands before it is
/// kept, and what stands behind it is scrubbed in turn.
pub proof fn known_secrets_are_replaced(a: Seq<char>, secret: Seq<char>, b: Seq<char>)
    requires
        secret.len() > 0,
        forall|i: int| 0 <= i < a.len() ==> !text::begins((a + secret + b).skip(i), secret),
    ensures
        scrubbed(a + secret + b, secret) == a + "[REDACTED]"@ + scrubbed(b, secret),
{
    lemma_scrubbed_behind(a, secret, b);
}

/// A text in which a secret does not begin anywhere is kept as it is.
pub proof fn texts_without_the_secret_are_kept(s: Seq<char>, secret: Seq<char>)
    requires
        forall|i: int| 0 <= i < s.len() ==> !text::begins(#[trigger] s.skip(i), secret),
    ensures
        scrubbed(s, secret) == s,
    decreases s.len(),
{
    if s.len() > 0 {
        let t = s.drop_first();
        assert(s.skip(0) =~= s);
        assert forall|i: int| 0 <= i < t.len() implies !text::begins(
            #[trigger] t.skip(i),
            secret,
        ) by {
            assert(t.skip(i) =~= s.skip(i + 1));
        }
        texts_without_the_secret_are_kept(t, secret);
        assert(seq![s[0]] + t =~= s);
    }
}

proof fn lemma_token_ends(token: Seq<char>, b: Seq<char>)
    requires
        forall|i: int| 0 <= i < token.len() ==> token_char(#[trigger] token[i]),
        b.len() > 0 ==> !token_char(b[0]),
    ensures
        token_len(token + b) == token.len(),
    decreases token.len(),
{
    if token.len() == 0 {
        assert(token + b =~= b);
    } else {
        let t = token.drop_first();
        assert forall|i: int| 0 <= i < t.len() implies token_char(#[trigger] t[i]) by {
            assert(t[i] == token[i + 1]);
        }
        lemma_token_ends(t, b);
        assert(token_char(token[0]));
        assert((token + b).drop_first() =~= t + b);
    }
}

/// A token is made of ASCII letters and digits and of `-`, `_`, `.`, `~`, `+`, `/` and `=`. A key
/// that begins with `sk-` is replaced as a whole, up to the end of its token; behind `Bearer ` the
/// token is replaced and the word kept.
pub proof fn tokens_are_replaced(token: Seq<char>, b: Seq<char>)
    requires
        token.len() > 0,
        forall|i: int|
            0 <= i < token.len() ==> ('a' <= #[trigger] token[i] <= 'z' || 'A' <= token[i] <= 'Z'
                || '0' <= token[i] <= '9' || token[i] == '-' || token[i] == '_' || token[i] == '.'
                || token[i] == '~' || token[i] == '+' || token[i] == '/' || token[i] == '='),
        b.len() > 0 ==> !('a' <= b[0] <= 'z' || 'A' <= b[0] <= 'Z' || '0' <= b[0] <= '9' || b[0]
            == '-' || b[0] == '_' || b[0] == '.' || b[0] == '~' || b[0] == '+' || b[0] == '/' || b[0]
            == '='),
    ensures
        swept("sk-"@ + token + b) == "[REDACTED]"@ + swept(b),
        swept("Bearer "@ + token + b) == "Bearer "@ + "[REDACTED]"@ + swept(b),
{
    reveal_strlit("sk-");
    reveal_strlit("Bearer ");
    assert forall|i: int| 0 <= i < token.len() implies token_char(#[trigger] token[i]) by {}
    lemma_token_ends(token, b);
    let s = "sk-"@ + token + b;
    text::parts_of_a_text_are_found(Seq::empty(), "sk-"@, token + b, s);
    assert(s =~= "sk-"@ + (token + b));
    assert(text::begins(s, "sk-"@));
    assert(s.skip(3) =~= token + b);
    assert(s.skip(3 + token.len() as int) =~= b);
    let r = "Bearer "@ + token + b;
    text::parts_of_a_text_are_found(Seq::empty(), "Bearer "@, token + b, r);
    assert(r =~= "Bearer "@ + (token + b));
    assert(text::begins(r, "Bearer "@));
    assert(r.skip(7) =~= token + b);
    assert(r.skip(7 + token.len() as int) =~= b);
    assert(r[0] == 'B');
    assert(!text::begins(r, "sk-"@));
}

/// Where neither `sk-` nor `Bearer ` begins a text, its first character is kept and the rest swept.
pub proof fn other_characters_are_kept(c: char, s: Seq<char>)
    requires
        !text::begins(seq![c] + s, "sk-"@),
        !text::begins(seq![c] + s, "Bearer "@),
    ensures
        swept(Seq::empty()) == Seq::<char>::empty(),
        swept(seq![c] + s) == seq![c] + swept(s),
{
    assert((seq![c] + s).drop_first() =~= s);
}

} // verus!
