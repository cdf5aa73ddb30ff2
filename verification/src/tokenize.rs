//! The command-line tokenizer: splits a raw line into argument tokens,
//! honoring double quotes and backslash escapes for `"` and `\`.
use vstd::prelude::*;
use vstd::string::*;

use crate::text::push_char;

verus! {

/// One pass of the tokenizer over the remaining input `s`.  `cur` is
/// the token being accumulated, `in_quotes` the quoting state, `acc`
/// the finished tokens.  Quote characters toggle the state and are
/// consumed; unquoted blanks end the current token; a backslash
/// followed by `"` or `\` emits that character literally; any other
/// backslash is kept as itself.  At the end a non-empty current token
/// is flushed, so an unterminated quote loses nothing.
pub open spec fn tokenize_rec(
    s: Seq<char>,
    cur: Seq<char>,
    in_quotes: bool,
    acc: Seq<Seq<char>>,
) -> Seq<Seq<char>>
    decreases s.len(),
{
    if s.len() == 0 {
        if cur.len() == 0 {
            acc
        } else {
            acc.push(cur)
        }
    } else {
        let c = s[0];
        if c == '"' {
            tokenize_rec(s.drop_first(), cur, !in_quotes, acc)
        } else if c == ' ' || c == '\t' {
            if in_quotes {
                tokenize_rec(s.drop_first(), cur.push(c), in_quotes, acc)
            } else if cur.len() > 0 {
                tokenize_rec(s.drop_first(), Seq::empty(), in_quotes, acc.push(cur))
            } else {
                tokenize_rec(s.drop_first(), cur, in_quotes, acc)
            }
        } else if c == '\\' {
            if s.len() >= 2 && (s[1] == '"' || s[1] == '\\') {
                tokenize_rec(s.skip(2), cur.push(s[1]), in_quotes, acc)
            } else {
                tokenize_rec(s.drop_first(), cur.push('\\'), in_quotes, acc)
            }
        } else {
            tokenize_rec(s.drop_first(), cur.push(c), in_quotes, acc)
        }
    }
}

/// The tokens of one raw command line.
pub open spec fn tokenize_spec(s: Seq<char>) -> Seq<Seq<char>> {
    tokenize_rec(s, Seq::empty(), false, Seq::empty())
}

/// Splits a raw command line into argument tokens.  An empty or
/// blank-only line yields no tokens.
pub fn parse_command_line(input: &str) -> (r: Vec<String>)
    ensures
        r.deep_view() == tokenize_spec(input@),
{
    let n = input.unicode_len();
    let mut acc: Vec<String> = Vec::new();
    let mut cur = String::new();
    let mut in_quotes = false;
    proof {
        assert(input@.skip(0) =~= input@);
        assert(acc.deep_view() =~= Seq::<Seq<char>>::empty());
    }
    let mut i: usize = 0;
    while i < n
        invariant
            i <= n,
            n == input@.len(),
            tokenize_rec(input@.skip(i as int), cur@, in_quotes, acc.deep_view()) == tokenize_spec(
                input@,
            ),
        decreases n - i,
    {
        let ghost rest = input@.skip(i as int);
        let ghost prev_acc = acc.deep_view();
        let ghost prev_cur = cur@;
        let c = input.get_char(i);
        assert(rest[0] == c);
        if c == '"' {
            in_quotes = !in_quotes;
            i += 1;
            proof {
                assert(rest.drop_first() =~= input@.skip(i as int));
            }
        } else if c == ' ' || c == '\t' {
            if in_quotes {
                push_char(&mut cur, c);
            } else if !cur.as_str().is_empty() {
                acc.push(cur);
                cur = String::new();
                proof {
                    assert(acc.deep_view() =~= prev_acc.push(prev_cur));
                }
            }
            i += 1;
            proof {
                assert(rest.drop_first() =~= input@.skip(i as int));
            }
        } else if c == '\\' {
            if i + 1 < n {
                let c2 = input.get_char(i + 1);
                assert(rest[1] == c2);
                if c2 == '"' || c2 == '\\' {
                    push_char(&mut cur, c2);
                    i += 2;
                    proof {
                        assert(rest.skip(2) =~= input@.skip(i as int));
                    }
                } else {
                    push_char(&mut cur, '\\');
                    i += 1;
                    proof {
                        assert(rest.drop_first() =~= input@.skip(i as int));
                    }
                }
            } else {
                assert(rest.len() < 2);
                push_char(&mut cur, '\\');
                i += 1;
                proof {
                    assert(rest.drop_first() =~= input@.skip(i as int));
                }
            }
        } else {
            push_char(&mut cur, c);
            i += 1;
            proof {
                assert(rest.drop_first() =~= input@.skip(i as int));
            }
        }
    }
    assert(input@.skip(n as int) =~= Seq::<char>::empty());
    if !cur.as_str().is_empty() {
        let ghost prev_acc = acc.deep_view();
        let ghost prev_cur = cur@;
        acc.push(cur);
        proof {
            assert(acc.deep_view() =~= prev_acc.push(prev_cur));
        }
    }
    acc
}

// --- laws ---

/// A token with no quote character in it.
pub open spec fn quote_free(t: Seq<char>) -> bool {
    forall|i: int| 0 <= i < t.len() ==> t[i] != '"'
}

proof fn lemma_tokenize_rec_no_quote(s: Seq<char>, cur: Seq<char>, in_quotes: bool, acc: Seq<Seq<char>>)
    requires
        forall|i: int| 0 <= i < s.len() ==> s[i] != '\\',
        quote_free(cur),
        forall|k: int| 0 <= k < acc.len() ==> quote_free(#[trigger] acc[k]),
    ensures
        forall|k: int|
            0 <= k < tokenize_rec(s, cur, in_quotes, acc).len() ==> quote_free(
                #[trigger] tokenize_rec(s, cur, in_quotes, acc)[k],
            ),
    decreases s.len(),
{
    let r = tokenize_rec(s, cur, in_quotes, acc);
    if s.len() == 0 {
        if cur.len() == 0 {
        } else {
            assert forall|k: int| 0 <= k < r.len() implies quote_free(#[trigger] r[k]) by {
                if k == acc.len() {
                    assert(acc.push(cur)[k] == cur);
                } else {
                    assert(acc.push(cur)[k] == acc[k]);
                }
            }
        }
    } else {
        let c = s[0];
        assert(forall|i: int| 0 <= i < s.drop_first().len() ==> s.drop_first()[i] != '\\');
        if c == '"' {
            lemma_tokenize_rec_no_quote(s.drop_first(), cur, !in_quotes, acc);
            assert forall|k: int| 0 <= k < r.len() implies quote_free(#[trigger] r[k]) by {
                assert(quote_free(tokenize_rec(s.drop_first(), cur, !in_quotes, acc)[k]));
            }
        } else if c == ' ' || c == '\t' {
            if in_quotes {
                assert(quote_free(cur.push(c)));
                lemma_tokenize_rec_no_quote(s.drop_first(), cur.push(c), in_quotes, acc);
                assert forall|k: int| 0 <= k < r.len() implies quote_free(#[trigger] r[k]) by {
                    assert(quote_free(tokenize_rec(s.drop_first(), cur.push(c), in_quotes, acc)[k]));
                }
            } else if cur.len() > 0 {
                assert(forall|k: int|
                    0 <= k < acc.push(cur).len() ==> quote_free(#[trigger] acc.push(cur)[k]));
                lemma_tokenize_rec_no_quote(
                    s.drop_first(),
                    Seq::empty(),
                    in_quotes,
                    acc.push(cur),
                );
                assert forall|k: int| 0 <= k < r.len() implies quote_free(#[trigger] r[k]) by {
                    assert(quote_free(
                        tokenize_rec(s.drop_first(), Seq::empty(), in_quotes, acc.push(cur))[k],
                    ));
                }
            } else {
                lemma_tokenize_rec_no_quote(s.drop_first(), cur, in_quotes, acc);
                assert forall|k: int| 0 <= k < r.len() implies quote_free(#[trigger] r[k]) by {
                    assert(quote_free(tokenize_rec(s.drop_first(), cur, in_quotes, acc)[k]));
                }
            }
        } else {
            assert(c != '\\');
            assert(quote_free(cur.push(c)));
            lemma_tokenize_rec_no_quote(s.drop_first(), cur.push(c), in_quotes, acc);
            assert forall|k: int| 0 <= k < r.len() implies quote_free(#[trigger] r[k]) by {
                assert(quote_free(tokenize_rec(s.drop_first(), cur.push(c), in_quotes, acc)[k]));
            }
        }
    }
}

/// Every quote character of the input either toggles the quoting
/// state or is escaped by a backslash, and toggling consumes the
/// character.  So on a line with no backslash at all, no token ever
/// contains a quote character, balanced or not.
pub proof fn lemma_tokenize_no_quotes(s: Seq<char>)
    requires
        forall|i: int| 0 <= i < s.len() ==> s[i] != '\\',
    ensures
        forall|k: int|
            0 <= k < tokenize_spec(s).len() ==> quote_free(#[trigger] tokenize_spec(s)[k]),
{
    lemma_tokenize_rec_no_quote(s, Seq::empty(), false, Seq::empty());
}

/// A token that survives joining untouched: non-empty and free of
/// blanks, quotes and backslashes.
pub open spec fn plain_token(t: Seq<char>) -> bool {
    t.len() > 0 && forall|i: int|
        0 <= i < t.len() ==> (t[i] != ' ' && t[i] != '\t' && t[i] != '"' && t[i] != '\\')
}

proof fn lemma_tok_plain_step(t: Seq<char>, rest: Seq<char>, cur: Seq<char>, acc: Seq<Seq<char>>)
    requires
        forall|i: int|
            0 <= i < t.len() ==> (t[i] != ' ' && t[i] != '\t' && t[i] != '"' && t[i] != '\\'),
    ensures
        tokenize_rec(t + rest, cur, false, acc) == tokenize_rec(rest, cur + t, false, acc),
    decreases t.len(),
{
    if t.len() == 0 {
        assert(t + rest =~= rest);
        assert(cur + t =~= cur);
    } else {
        let c = t[0];
        assert((t + rest)[0] == c);
        assert((t + rest).len() > 0);
        assert((t + rest).drop_first() =~= t.drop_first() + rest);
        lemma_tok_plain_step(t.drop_first(), rest, cur.push(c), acc);
        assert(cur.push(c) + t.drop_first() =~= cur + t);
    }
}

proof fn lemma_tok_space_step(rest: Seq<char>, cur: Seq<char>, acc: Seq<Seq<char>>)
    requires
        cur.len() > 0,
    ensures
        tokenize_rec(seq![' '] + rest, cur, false, acc) == tokenize_rec(
            rest,
            Seq::empty(),
            false,
            acc.push(cur),
        ),
{
    assert((seq![' '] + rest)[0] == ' ');
    assert((seq![' '] + rest).drop_first() =~= rest);
}

proof fn lemma_tok_join_rec(ts: Seq<Seq<char>>, acc: Seq<Seq<char>>)
    requires
        forall|k: int| 0 <= k < ts.len() ==> plain_token(#[trigger] ts[k]),
    ensures
        tokenize_rec(crate::text::join_char(ts, ' '), Seq::empty(), false, acc) == acc + ts,
    decreases ts.len(),
{
    if ts.len() == 0 {
        assert(acc + ts =~= acc);
    } else if ts.len() == 1 {
        assert(plain_token(ts[0]));
        assert(crate::text::join_char(ts, ' ') == ts[0]);
        assert(ts[0] =~= ts[0] + Seq::<char>::empty());
        lemma_tok_plain_step(ts[0], Seq::empty(), Seq::empty(), acc);
        assert(Seq::<char>::empty() + ts[0] =~= ts[0]);
        assert(tokenize_rec(Seq::empty(), ts[0], false, acc) == acc.push(ts[0]));
        assert(acc.push(ts[0]) =~= acc + ts);
    } else {
        assert(plain_token(ts[0]));
        let tail = crate::text::join_char(ts.drop_first(), ' ');
        assert(crate::text::join_char(ts, ' ') == ts[0] + seq![' '] + tail);
        assert(ts[0] + seq![' '] + tail =~= ts[0] + (seq![' '] + tail));
        lemma_tok_plain_step(ts[0], seq![' '] + tail, Seq::empty(), acc);
        assert(Seq::<char>::empty() + ts[0] =~= ts[0]);
        lemma_tok_space_step(tail, ts[0], acc);
        assert(forall|k: int|
            0 <= k < ts.drop_first().len() ==> plain_token(#[trigger] ts.drop_first()[k]));
        lemma_tok_join_rec(ts.drop_first(), acc.push(ts[0]));
        assert(acc.push(ts[0]) + ts.drop_first() =~= acc + ts);
    }
}

/// Joining plain tokens with single spaces and tokenizing the result
/// reproduces the original token sequence.
pub proof fn lemma_tokenize_join_roundtrip(ts: Seq<Seq<char>>)
    requires
        forall|k: int| 0 <= k < ts.len() ==> plain_token(#[trigger] ts[k]),
    ensures
        tokenize_spec(crate::text::join_char(ts, ' ')) == ts,
{
    lemma_tok_join_rec(ts, Seq::empty());
    assert(Seq::<Seq<char>>::empty() + ts =~= ts);
}

// --- size accounting ---

/// The weight of a token list: every token costs its length plus one.
/// It bounds the length of any joined form of the tokens.
pub open spec fn toks_weight(ts: Seq<Seq<char>>) -> nat
    decreases ts.len(),
{
    if ts.len() == 0 {
        0
    } else {
        ts[0].len() + 1 + toks_weight(ts.drop_first())
    }
}

proof fn lemma_weight_push(ts: Seq<Seq<char>>, t: Seq<char>)
    ensures
        toks_weight(ts.push(t)) == toks_weight(ts) + t.len() + 1,
    decreases ts.len(),
{
    if ts.len() == 0 {
        assert(ts.push(t)[0] == t);
        assert(ts.push(t).drop_first() =~= Seq::<Seq<char>>::empty());
        assert(toks_weight(Seq::<Seq<char>>::empty()) == 0);
        assert(toks_weight(ts.push(t)) == t.len() + 1);
    } else {
        lemma_weight_push(ts.drop_first(), t);
        assert(ts.push(t).drop_first() =~= ts.drop_first().push(t));
        assert(ts.push(t)[0] == ts[0]);
        assert(toks_weight(ts.push(t)) == ts[0].len() + 1 + toks_weight(ts.drop_first().push(t)));
    }
}

proof fn lemma_tokenize_rec_weight(s: Seq<char>, cur: Seq<char>, in_quotes: bool, acc: Seq<Seq<char>>)
    ensures
        toks_weight(tokenize_rec(s, cur, in_quotes, acc)) <= toks_weight(acc) + cur.len() + 1
            + s.len(),
    decreases s.len(),
{
    if s.len() == 0 {
        if cur.len() > 0 {
            lemma_weight_push(acc, cur);
        }
    } else {
        let c = s[0];
        if c == '"' {
            lemma_tokenize_rec_weight(s.drop_first(), cur, !in_quotes, acc);
        } else if c == ' ' || c == '\t' {
            if in_quotes {
                lemma_tokenize_rec_weight(s.drop_first(), cur.push(c), in_quotes, acc);
            } else if cur.len() > 0 {
                lemma_weight_push(acc, cur);
                lemma_tokenize_rec_weight(s.drop_first(), Seq::empty(), in_quotes, acc.push(cur));
            } else {
                lemma_tokenize_rec_weight(s.drop_first(), cur, in_quotes, acc);
            }
        } else if c == '\\' {
            if s.len() >= 2 && (s[1] == '"' || s[1] == '\\') {
                lemma_tokenize_rec_weight(s.skip(2), cur.push(s[1]), in_quotes, acc);
            } else {
                lemma_tokenize_rec_weight(s.drop_first(), cur.push('\\'), in_quotes, acc);
            }
        } else {
            lemma_tokenize_rec_weight(s.drop_first(), cur.push(c), in_quotes, acc);
        }
    }
}

/// The tokens of a line weigh no more than the line itself plus one.
pub proof fn lemma_tokenize_weight(s: Seq<char>)
    ensures
        toks_weight(tokenize_spec(s)) <= s.len() + 1,
{
    lemma_tokenize_rec_weight(s, Seq::empty(), false, Seq::empty());
}

/// Joining a non-empty token list takes one character less than its
/// weight.
pub proof fn lemma_join_weight(ts: Seq<Seq<char>>, sep: char)
    requires
        ts.len() > 0,
    ensures
        crate::text::join_char(ts, sep).len() + 1 == toks_weight(ts),
    decreases ts.len(),
{
    if ts.len() == 1 {
        assert(toks_weight(ts.drop_first()) == 0);
    } else {
        lemma_join_weight(ts.drop_first(), sep);
    }
}

} // verus!
