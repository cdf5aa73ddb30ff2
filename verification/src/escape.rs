//! The backslash-escape decoder used for simulated standard input:
//! expands `\n`, `\t`, `\r`, `\v`, `\a`, `\\` and `\xHH`, keeps only
//! the following character for an unrecognized escape, and emits a
//! trailing lone backslash as itself.
use vstd::prelude::*;
use vstd::string::*;

use crate::text::push_char;

verus! {

pub open spec fn is_hex_digit(c: char) -> bool {
    let u = c as u32;
    (0x30 <= u && u <= 0x39) || (0x61 <= u && u <= 0x66) || (0x41 <= u && u <= 0x46)
}

/// The value of one hex digit.
pub open spec fn hex_val(c: char) -> nat
    recommends
        is_hex_digit(c),
{
    let u = c as u32;
    if 0x30 <= u && u <= 0x39 {
        (u - 0x30) as nat
    } else if 0x61 <= u && u <= 0x66 {
        (u - 0x61 + 10) as nat
    } else {
        (u - 0x41 + 10) as nat
    }
}

/// Whether a run of at most two characters is a well-formed hex count:
/// non-empty and made of hex digits only.
pub open spec fn hex_seq_ok(h: Seq<char>) -> bool {
    0 < h.len() && (forall|i: int| 0 <= i < h.len() ==> is_hex_digit(h[i]))
}

/// The numeric value of one or two hex digits.
pub open spec fn hex_seq_val(h: Seq<char>) -> nat
    recommends
        hex_seq_ok(h),
        h.len() <= 2,
{
    if h.len() == 1 {
        hex_val(h[0])
    } else {
        16 * hex_val(h[0]) + hex_val(h[1])
    }
}

/// The character a `\xHH` escape denotes: the byte value read as a
/// code point.
pub open spec fn hex_escape_char(h: Seq<char>) -> char {
    (hex_seq_val(h) as u8) as char
}

/// The decoded form of `s`.  A backslash starts an escape: the named
/// control escapes map to their characters; `\xHH` consumes up to two
/// following characters and yields the denoted byte when they form a
/// valid hex count and nothing at all otherwise; any other escape
/// keeps only the character after the backslash; a lone backslash at
/// the very end stands for itself.
pub open spec fn unescape_spec(s: Seq<char>) -> Seq<char>
    decreases s.len(),
{
    if s.len() == 0 {
        Seq::empty()
    } else if s[0] != '\\' {
        seq![s[0]] + unescape_spec(s.drop_first())
    } else if s.len() == 1 {
        seq!['\\']
    } else {
        let c = s[1];
        if c == 'n' {
            seq!['\n'] + unescape_spec(s.skip(2))
        } else if c == 't' {
            seq!['\t'] + unescape_spec(s.skip(2))
        } else if c == 'r' {
            seq!['\r'] + unescape_spec(s.skip(2))
        } else if c == 'v' {
            seq!['\u{b}'] + unescape_spec(s.skip(2))
        } else if c == 'a' {
            seq!['\u{7}'] + unescape_spec(s.skip(2))
        } else if c == '\\' {
            seq!['\\'] + unescape_spec(s.skip(2))
        } else if c == 'x' {
            let t = if s.len() >= 4 {
                2int
            } else {
                s.len() - 2
            };
            let h = s.subrange(2, 2 + t);
            if hex_seq_ok(h) {
                seq![hex_escape_char(h)] + unescape_spec(s.skip(2 + t))
            } else {
                unescape_spec(s.skip(2 + t))
            }
        } else {
            seq![c] + unescape_spec(s.skip(2))
        }
    }
}

/// The value of one hex digit character, if it is one.
pub fn hex_digit_value(c: char) -> (r: Option<u8>)
    ensures
        match r {
            Some(v) => is_hex_digit(c) && v == hex_val(c) && v < 16,
            None => !is_hex_digit(c),
        },
{
    let u = c as u32;
    if 0x30 <= u && u <= 0x39 {
        Some((u - 0x30) as u8)
    } else if 0x61 <= u && u <= 0x66 {
        Some((u - 0x61 + 10) as u8)
    } else if 0x41 <= u && u <= 0x46 {
        Some((u - 0x41 + 10) as u8)
    } else {
        None
    }
}

/// Expands the backslash-escape sequences in `input`.
pub fn unescape(input: &str) -> (r: String)
    ensures
        r@ == unescape_spec(input@),
{
    let n = input.unicode_len();
    let mut out = String::new();
    proof {
        assert(input@.skip(0) =~= input@);
    }
    let mut i: usize = 0;
    while i < n
        invariant
            i <= n,
            n == input@.len(),
            unescape_spec(input@) == out@ + unescape_spec(input@.skip(i as int)),
        decreases n - i,
    {
        let ghost rest = input@.skip(i as int);
        let ghost prev_out = out@;
        let c = input.get_char(i);
        assert(rest[0] == c);
        if c != '\\' {
            push_char(&mut out, c);
            i += 1;
            proof {
                assert(rest.drop_first() =~= input@.skip(i as int));
                assert(prev_out + (seq![c] + unescape_spec(input@.skip(i as int))) =~= out@
                    + unescape_spec(input@.skip(i as int)));
            }
        } else if i + 1 == n {
            push_char(&mut out, '\\');
            i += 1;
            proof {
                assert(rest.len() == 1);
                assert(input@.skip(i as int) =~= Seq::<char>::empty());
                assert(prev_out + seq!['\\'] =~= out@);
            }
        } else {
            let c2 = input.get_char(i + 1);
            assert(rest[1] == c2);
            if c2 == 'x' {
                let avail = n - (i + 2);
                let t: usize = if avail >= 2 {
                    2
                } else {
                    avail
                };
                let ghost h = rest.subrange(2, 2 + t as int);
                let mut value: Option<u8> = None;
                if t == 2 {
                    let d0 = hex_digit_value(input.get_char(i + 2));
                    let d1 = hex_digit_value(input.get_char(i + 3));
                    assert(h[0] == input@[i + 2] && h[1] == input@[i + 3]);
                    match (d0, d1) {
                        (Some(v0), Some(v1)) => {
                            assert(hex_seq_ok(h));
                            value = Some(16 * v0 + v1);
                        },
                        _ => {
                            assert(!hex_seq_ok(h));
                        },
                    }
                } else if t == 1 {
                    let d0 = hex_digit_value(input.get_char(i + 2));
                    assert(h[0] == input@[i + 2]);
                    match d0 {
                        Some(v0) => {
                            assert(hex_seq_ok(h));
                            value = Some(v0);
                        },
                        None => {
                            assert(!hex_seq_ok(h));
                        },
                    }
                } else {
                    assert(h.len() == 0);
                    assert(!hex_seq_ok(h));
                }
                match value {
                    Some(v) => {
                        push_char(&mut out, v as char);
                        assert(v as char == hex_escape_char(h));
                    },
                    None => {
                    },
                }
                i = i + 2 + t;
                proof {
                    assert(rest.skip(2 + t as int) =~= input@.skip(i as int));
                    if hex_seq_ok(h) {
                        assert(prev_out + (seq![hex_escape_char(h)] + unescape_spec(
                            input@.skip(i as int),
                        )) =~= out@ + unescape_spec(input@.skip(i as int)));
                    }
                }
            } else {
                let decoded: char = if c2 == 'n' {
                    '\n'
                } else if c2 == 't' {
                    '\t'
                } else if c2 == 'r' {
                    '\r'
                } else if c2 == 'v' {
                    '\u{b}'
                } else if c2 == 'a' {
                    '\u{7}'
                } else if c2 == '\\' {
                    '\\'
                } else {
                    c2
                };
                push_char(&mut out, decoded);
                i += 2;
                proof {
                    assert(rest.skip(2) =~= input@.skip(i as int));
                    assert(prev_out + (seq![decoded] + unescape_spec(input@.skip(i as int))) =~=
                    out@ + unescape_spec(input@.skip(i as int)));
                }
            }
        }
    }
    assert(input@.skip(n as int) =~= Seq::<char>::empty());
    assert(out@ + Seq::<char>::empty() =~= out@);
    out
}

/// Decoding never lengthens a string: every consumed character yields
/// at most one output character.
pub proof fn lemma_unescape_len(s: Seq<char>)
    ensures
        unescape_spec(s).len() <= s.len(),
    decreases s.len(),
{
    if s.len() == 0 {
    } else if s[0] != '\\' {
        lemma_unescape_len(s.drop_first());
    } else if s.len() == 1 {
    } else {
        let c = s[1];
        if c == 'x' {
            let t = if s.len() >= 4 {
                2int
            } else {
                s.len() - 2
            };
            lemma_unescape_len(s.skip(2 + t));
        } else {
            lemma_unescape_len(s.skip(2));
        }
    }
}

} // verus!
