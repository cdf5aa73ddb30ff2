//! The head utility's decisions: parsing its arguments, including the
//! numeric line-count option, and selecting the first lines of a
//! text.
use vstd::prelude::*;
use vstd::string::*;

use crate::errors::UtilError;
use crate::text::join_char;
use crate::text::join_with_char;
use crate::text::lines_spec;
use crate::text::split_lines;
use crate::text::str_eq;

verus! {

pub open spec fn is_dec_digit(c: char) -> bool {
    let u = c as u32;
    0x30 <= u && u <= 0x39
}

pub open spec fn dec_digit_val(c: char) -> nat
    recommends
        is_dec_digit(c),
{
    (c as u32 - 0x30) as nat
}

/// The value of a run of decimal digits, most significant first.
pub open spec fn dec_seq_val(s: Seq<char>) -> nat
    decreases s.len(),
{
    if s.len() == 0 {
        0
    } else {
        dec_seq_val(s.drop_last()) * 10 + dec_digit_val(s.last())
    }
}

/// The digits of a numeric argument: an optional leading `+` is
/// allowed, as the standard integer parser accepts it.
pub open spec fn num_body(s: Seq<char>) -> Seq<char> {
    if s.len() > 0 && s[0] == '+' {
        s.drop_first()
    } else {
        s
    }
}

/// Whether a token parses as a non-negative machine integer: at least
/// one digit, digits only, and a value that fits.
pub open spec fn parse_usize_ok(s: Seq<char>) -> bool {
    let b = num_body(s);
    b.len() > 0 && (forall|i: int| 0 <= i < b.len() ==> is_dec_digit(b[i])) && dec_seq_val(b)
        <= usize::MAX
}

proof fn lemma_dec_prefix_le(b: Seq<char>, k: int)
    requires
        0 <= k <= b.len(),
    ensures
        dec_seq_val(b.take(k)) <= dec_seq_val(b),
    decreases b.len(),
{
    if k < b.len() {
        lemma_dec_prefix_le(b.drop_last(), k);
        assert(b.drop_last().take(k) =~= b.take(k));
    } else {
        assert(b.take(k) =~= b);
    }
}

/// Parses a token as a non-negative integer; anything else, including
/// a value too large for the machine, is an invalid number.
pub fn parse_usize(s: &str) -> (r: Result<usize, UtilError>)
    ensures
        parse_usize_ok(s@) ==> (r matches Ok(v) && v == dec_seq_val(num_body(s@))),
        !parse_usize_ok(s@) ==> (r matches Err(e) && e == UtilError::InvalidNumber),
{
    let n = s.unicode_len();
    let mut i: usize = 0;
    if n > 0 && s.get_char(0) == '+' {
        i = 1;
    }
    let ghost b = num_body(s@);
    proof {
        assert(b =~= s@.skip(i as int));
    }
    if i == n {
        assert(b.len() == 0);
        return Err(UtilError::InvalidNumber);
    }
    let ghost start = i as int;
    let mut value: usize = 0;
    while i < n
        invariant
            start <= i <= n,
            n == s@.len(),
            b == s@.skip(start),
            start == (if s@.len() > 0 && s@[0] == '+' {
                1int
            } else {
                0int
            }),
            forall|j: int| 0 <= j < i - start ==> is_dec_digit(b[j]),
            value == dec_seq_val(b.take(i - start)),
        decreases n - i,
    {
        let c = s.get_char(i);
        assert(b[i - start] == c);
        let u = c as u32;
        if !(0x30 <= u && u <= 0x39) {
            assert(!is_dec_digit(b[i - start]));
            return Err(UtilError::InvalidNumber);
        }
        let d = (u - 0x30) as usize;
        let stepped = match value.checked_mul(10) {
            Some(m) => m.checked_add(d),
            None => None,
        };
        match stepped {
            Some(v2) => {
                value = v2;
            },
            None => {
                proof {
                    let pre = b.take(i - start + 1);
                    assert(pre.drop_last() =~= b.take(i - start));
                    assert(pre.last() == b[i - start]);
                    assert(dec_seq_val(pre) > usize::MAX);
                    lemma_dec_prefix_le(b, i - start + 1);
                }
                return Err(UtilError::InvalidNumber);
            },
        }
        proof {
            let pre = b.take(i - start + 1);
            assert(pre.drop_last() =~= b.take(i - start));
            assert(pre.last() == b[i - start]);
        }
        i += 1;
    }
    proof {
        assert(b.take(n - start) =~= b);
    }
    Ok(value)
}

/// The resolved arguments of one head invocation.
#[derive(Debug, Clone, PartialEq, Eq)]
pub struct HeadArgs {
    /// How many leading lines to show; ten when not asked otherwise.
    pub num_lines: usize,
    /// Whether to print the file name above the content.
    pub verbose: bool,
    /// The file to read.
    pub filename: String,
}

pub open spec fn starts_dash(a: Seq<char>) -> bool {
    a.len() > 0 && a[0] == '-'
}

/// Resolves the argument list of a head invocation: an optional
/// `-n N` or `-v` flag followed by the file operand.  A missing
/// operand or flag value is a missing argument, a malformed count an
/// invalid number, and any other flag an invalid option.
pub fn parse_head_args(args: &Vec<String>) -> (r: Result<HeadArgs, UtilError>)
    ensures
        args.deep_view().len() == 0 ==> (r matches Err(e) && e == UtilError::MissingArgument),
        args.deep_view().len() > 0 && !starts_dash(args.deep_view()[0]) ==> (r matches Ok(h) && (
        h.num_lines == 10 && h.verbose == false && h.filename@ == args.deep_view()[0])),
        args.deep_view().len() > 0 && args.deep_view()[0] == "-n"@ && args.deep_view().len() < 3
            ==> (r matches Err(e) && e == UtilError::MissingArgument),
        args.deep_view().len() >= 3 && args.deep_view()[0] == "-n"@ && parse_usize_ok(
            args.deep_view()[1],
        ) ==> (r matches Ok(h) && (h.num_lines == dec_seq_val(num_body(args.deep_view()[1]))
            && h.verbose == false && h.filename@ == args.deep_view()[2])),
        args.deep_view().len() >= 3 && args.deep_view()[0] == "-n"@ && !parse_usize_ok(
            args.deep_view()[1],
        ) ==> (r matches Err(e) && e == UtilError::InvalidNumber),
        args.deep_view().len() == 1 && args.deep_view()[0] == "-v"@ ==> (r matches Err(e) && e
            == UtilError::MissingArgument),
        args.deep_view().len() >= 2 && args.deep_view()[0] == "-v"@ ==> (r matches Ok(h) && (
        h.num_lines == 10 && h.verbose == true && h.filename@ == args.deep_view()[1])),
        args.deep_view().len() > 0 && starts_dash(args.deep_view()[0]) && args.deep_view()[0]
            != "-n"@ && args.deep_view()[0] != "-v"@ ==> (r matches Err(e) && (e matches
        UtilError::InvalidOption(s) && s@ == args.deep_view()[0])),
{
    proof {
        reveal_strlit("-n");
        reveal_strlit("-v");
        assert("-n"@[1] != "-v"@[1]);
    }
    if args.len() == 0 {
        return Err(UtilError::MissingArgument);
    }
    assert(args.deep_view()[0] == args@[0]@);
    let a0 = &args[0];
    let n0 = a0.as_str().unicode_len();
    if n0 > 0 && a0.as_str().get_char(0) == '-' {
        if str_eq(a0.as_str(), "-n") {
            if args.len() < 3 {
                return Err(UtilError::MissingArgument);
            }
            assert(args.deep_view()[1] == args@[1]@ && args.deep_view()[2] == args@[2]@);
            let num = match parse_usize(args[1].as_str()) {
                Ok(v) => v,
                Err(e) => {
                    return Err(e);
                },
            };
            Ok(HeadArgs { num_lines: num, verbose: false, filename: args[2].clone() })
        } else if str_eq(a0.as_str(), "-v") {
            if args.len() < 2 {
                return Err(UtilError::MissingArgument);
            }
            assert(args.deep_view()[1] == args@[1]@);
            Ok(HeadArgs { num_lines: 10, verbose: true, filename: args[1].clone() })
        } else {
            Err(UtilError::InvalidOption(a0.clone()))
        }
    } else {
        Ok(HeadArgs { num_lines: 10, verbose: false, filename: a0.clone() })
    }
}

/// The first `n` logical lines of the text, rejoined with newlines;
/// fewer when the text is shorter.
pub open spec fn head_lines_spec(s: Seq<char>, n: nat) -> Seq<char> {
    let ls = lines_spec(s);
    if n < ls.len() {
        join_char(ls.take(n as int), '\n')
    } else {
        join_char(ls, '\n')
    }
}

/// Keeps only the first `num_lines` lines of the content.
pub fn head_lines(content: &str, num_lines: usize) -> (r: String)
    ensures
        r@ == head_lines_spec(content@, num_lines as nat),
{
    let lines = split_lines(content);
    let keep = if num_lines < lines.len() {
        num_lines
    } else {
        lines.len()
    };
    let mut kept: Vec<String> = Vec::new();
    proof {
        assert(kept.deep_view() =~= lines.deep_view().take(0));
    }
    let mut i: usize = 0;
    while i < keep
        invariant
            i <= keep <= lines.len(),
            kept.deep_view() == lines.deep_view().take(i as int),
        decreases keep - i,
    {
        let ghost prev = kept.deep_view();
        kept.push(lines[i].clone());
        proof {
            assert(kept.deep_view() =~= prev.push(lines.deep_view()[i as int]));
            assert(lines.deep_view().take(i + 1) =~= prev.push(lines.deep_view()[i as int]));
        }
        i += 1;
    }
    proof {
        if num_lines >= lines.len() {
            assert(lines.deep_view().take(lines.len() as int) =~= lines.deep_view());
        }
    }
    join_with_char(&kept, '\n')
}

} // verus!
