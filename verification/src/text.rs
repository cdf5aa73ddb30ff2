//! Shared string machinery: character classes, equality and prefix
//! tests, decimal formatting, splitting into logical lines, joining,
//! and trimming, each tied to a spec-level model over `Seq<char>`.
use vstd::prelude::*;
use vstd::string::*;

verus! {

// --- character classes ---

/// The Unicode white-space characters, exactly the set that
/// `char::is_whitespace` recognizes.
pub open spec fn is_wsp(c: char) -> bool {
    let u = c as u32;
    u == 0x20 || (0x09 <= u && u <= 0x0d) || u == 0x85 || u == 0xa0 || u == 0x1680 || (0x2000
        <= u && u <= 0x200a) || u == 0x2028 || u == 0x2029 || u == 0x202f || u == 0x205f || u
        == 0x3000
}

/// A sequence is blank when every character in it is white space.
pub open spec fn is_blank_seq(s: Seq<char>) -> bool {
    forall|i: int| 0 <= i < s.len() ==> is_wsp(s[i])
}

pub fn is_whitespace_char(c: char) -> (r: bool)
    ensures
        r == is_wsp(c),
{
    let u = c as u32;
    u == 0x20 || (0x09 <= u && u <= 0x0d) || u == 0x85 || u == 0xa0 || u == 0x1680 || (0x2000
        <= u && u <= 0x200a) || u == 0x2028 || u == 0x2029 || u == 0x202f || u == 0x205f || u
        == 0x3000
}

pub fn is_blank_str(s: &str) -> (r: bool)
    ensures
        r == is_blank_seq(s@),
{
    let n = s.unicode_len();
    let mut i: usize = 0;
    while i < n
        invariant
            i <= n,
            n == s@.len(),
            forall|j: int| 0 <= j < i ==> is_wsp(s@[j]),
        decreases n - i,
    {
        if !is_whitespace_char(s.get_char(i)) {
            assert(!is_wsp(s@[i as int]));
            return false;
        }
        i += 1;
    }
    true
}

// --- building strings one character at a time ---

/// Relies on `String::push` from std: it appends the given character
/// at the end of the string.
#[verifier::external_body]
pub(crate) fn push_char(s: &mut String, c: char)
    ensures
        final(s)@ == old(s)@.push(c),
{
    s.push(c);
}

// --- comparisons ---

pub fn str_eq(a: &str, b: &str) -> (r: bool)
    ensures
        r == (a@ == b@),
{
    let n = a.unicode_len();
    if n != b.unicode_len() {
        return false;
    }
    let mut i: usize = 0;
    while i < n
        invariant
            i <= n,
            n == a@.len(),
            n == b@.len(),
            forall|j: int| 0 <= j < i ==> a@[j] == b@[j],
        decreases n - i,
    {
        if a.get_char(i) != b.get_char(i) {
            assert(a@[i as int] != b@[i as int]);
            return false;
        }
        i += 1;
    }
    proof {
        assert(a@ =~= b@);
    }
    true
}

pub fn str_starts_with(s: &str, p: &str) -> (r: bool)
    ensures
        r == p@.is_prefix_of(s@),
{
    let np = p.unicode_len();
    let ns = s.unicode_len();
    if np > ns {
        assert(!p@.is_prefix_of(s@));
        return false;
    }
    let mut i: usize = 0;
    while i < np
        invariant
            i <= np,
            np == p@.len(),
            ns == s@.len(),
            np <= ns,
            forall|j: int| 0 <= j < i ==> s@[j] == p@[j],
        decreases np - i,
    {
        if s.get_char(i) != p.get_char(i) {
            assert(s@[i as int] != p@[i as int]);
            assert(!p@.is_prefix_of(s@));
            return false;
        }
        i += 1;
    }
    proof {
        assert(s@.subrange(0, p@.len() as int) =~= p@);
    }
    true
}

// --- decimal formatting ---

/// The character for one decimal digit.
pub open spec fn digit_char(d: nat) -> char
    recommends
        d < 10,
{
    ((0x30 + d) as u8) as char
}

/// The decimal digits of `n`, most significant first, with no sign and
/// no leading zeros (a single `'0'` for zero).
pub open spec fn dec_digits(n: nat) -> Seq<char>
    decreases n,
{
    if n < 10 {
        seq![digit_char(n)]
    } else {
        dec_digits(n / 10).push(digit_char(n % 10))
    }
}

pub fn fmt_usize(n: usize) -> (r: String)
    ensures
        r@ == dec_digits(n as nat),
    decreases n,
{
    if n < 10 {
        let d: u8 = (n as u8) + 0x30;
        let mut r = String::new();
        push_char(&mut r, d as char);
        assert(r@ =~= dec_digits(n as nat));
        r
    } else {
        let mut r = fmt_usize(n / 10);
        let d: u8 = ((n % 10) as u8) + 0x30;
        push_char(&mut r, d as char);
        r
    }
}

/// `n` space characters.
pub open spec fn spaces(n: nat) -> Seq<char>
    decreases n,
{
    if n == 0 {
        Seq::empty()
    } else {
        spaces((n - 1) as nat).push(' ')
    }
}

/// `s` padded with spaces on the left up to width `w`; a value wider
/// than the field is kept whole.
pub open spec fn right_justify(s: Seq<char>, w: nat) -> Seq<char> {
    if s.len() >= w {
        s
    } else {
        spaces((w - s.len()) as nat) + s
    }
}

/// `n` rendered in decimal, right-justified in a field of `width`.
pub fn fmt_usize_padded(n: usize, width: usize) -> (r: String)
    ensures
        r@ == right_justify(dec_digits(n as nat), width as nat),
{
    let digits = fmt_usize(n);
    let len = digits.as_str().unicode_len();
    let pad: usize = if width > len {
        width - len
    } else {
        0
    };
    let mut r = String::new();
    let mut j: usize = 0;
    while j < pad
        invariant
            j <= pad,
            r@ == spaces(j as nat),
        decreases pad - j,
    {
        push_char(&mut r, ' ');
        j += 1;
    }
    r.append(digits.as_str());
    proof {
        if pad == 0 {
            assert(r@ =~= digits@);
        }
    }
    r
}

// --- splitting and joining ---

/// One step of splitting on a separator: `cur` is the piece being
/// accumulated, `acc` the finished pieces.
pub open spec fn split_char_rec(
    s: Seq<char>,
    sep: char,
    cur: Seq<char>,
    acc: Seq<Seq<char>>,
) -> Seq<Seq<char>>
    decreases s.len(),
{
    if s.len() == 0 {
        acc.push(cur)
    } else if s[0] == sep {
        split_char_rec(s.drop_first(), sep, Seq::empty(), acc.push(cur))
    } else {
        split_char_rec(s.drop_first(), sep, cur.push(s[0]), acc)
    }
}

/// `s` split on every occurrence of `sep`; always one more piece than
/// there are separators.
pub open spec fn split_char(s: Seq<char>, sep: char) -> Seq<Seq<char>> {
    split_char_rec(s, sep, Seq::empty(), Seq::empty())
}

pub fn split_on_char(s: &str, sep: char) -> (r: Vec<String>)
    ensures
        r.deep_view() == split_char(s@, sep),
{
    let n = s.unicode_len();
    let mut acc: Vec<String> = Vec::new();
    let mut cur = String::new();
    proof {
        assert(s@.skip(0) =~= s@);
        assert(acc.deep_view() =~= Seq::<Seq<char>>::empty());
    }
    let mut i: usize = 0;
    while i < n
        invariant
            i <= n,
            n == s@.len(),
            split_char_rec(s@.skip(i as int), sep, cur@, acc.deep_view()) == split_char(s@, sep),
        decreases n - i,
    {
        let ghost prev_rest = s@.skip(i as int);
        let ghost prev_acc = acc.deep_view();
        let ghost prev_cur = cur@;
        let c = s.get_char(i);
        assert(prev_rest[0] == c);
        if c == sep {
            acc.push(cur);
            cur = String::new();
            proof {
                assert(acc.deep_view() =~= prev_acc.push(prev_cur));
            }
        } else {
            push_char(&mut cur, c);
        }
        i += 1;
        proof {
            assert(prev_rest.drop_first() =~= s@.skip(i as int));
        }
    }
    assert(s@.skip(n as int) =~= Seq::<char>::empty());
    let ghost prev_acc = acc.deep_view();
    let ghost prev_cur = cur@;
    acc.push(cur);
    proof {
        assert(acc.deep_view() =~= prev_acc.push(prev_cur));
    }
    acc
}

/// The logical lines of `s`: pieces between `'\n'` characters, with a
/// final line terminator producing no extra empty line.  Empty input
/// has no lines.
pub open spec fn lines_spec(s: Seq<char>) -> Seq<Seq<char>> {
    if s.len() == 0 {
        Seq::empty()
    } else if s.last() == '\n' {
        split_char(s.drop_last(), '\n')
    } else {
        split_char(s, '\n')
    }
}

pub fn split_lines(s: &str) -> (r: Vec<String>)
    ensures
        r.deep_view() == lines_spec(s@),
{
    let n = s.unicode_len();
    if n == 0 {
        let r: Vec<String> = Vec::new();
        assert(r.deep_view() =~= lines_spec(s@));
        return r;
    }
    if s.get_char(n - 1) == '\n' {
        let body = s.substring_char(0, n - 1);
        assert(body@ =~= s@.drop_last());
        split_on_char(body, '\n')
    } else {
        split_on_char(s, '\n')
    }
}

/// The pieces joined with a single `sep` between consecutive pieces.
pub open spec fn join_char(parts: Seq<Seq<char>>, sep: char) -> Seq<char>
    decreases parts.len(),
{
    if parts.len() == 0 {
        Seq::empty()
    } else if parts.len() == 1 {
        parts[0]
    } else {
        parts[0] + seq![sep] + join_char(parts.drop_first(), sep)
    }
}

pub proof fn lemma_join_push(parts: Seq<Seq<char>>, sep: char, p: Seq<char>)
    ensures
        join_char(parts.push(p), sep) == if parts.len() == 0 {
            p
        } else {
            (join_char(parts, sep) + seq![sep] + p)
        },
    decreases parts.len(),
{
    if parts.len() == 0 {
        assert(parts.push(p).len() == 1);
        assert(parts.push(p)[0] == p);
    } else if parts.len() == 1 {
        assert(parts.push(p)[0] == parts[0]);
        assert(parts.push(p).drop_first() =~= seq![p]);
        assert(seq![p].len() == 1 && seq![p][0] == p);
        assert(join_char(seq![p], sep) == p);
        assert(join_char(parts.push(p), sep) == parts[0] + seq![sep] + p);
    } else {
        lemma_join_push(parts.drop_first(), sep, p);
        assert(parts.push(p).drop_first() =~= parts.drop_first().push(p));
        assert(parts.push(p)[0] == parts[0]);
        assert(parts[0] + seq![sep] + (join_char(parts.drop_first(), sep) + seq![sep] + p) =~= (
        parts[0] + seq![sep] + join_char(parts.drop_first(), sep)) + seq![sep] + p);
    }
}

pub fn join_with_char(v: &Vec<String>, sep: char) -> (r: String)
    ensures
        r@ == join_char(v.deep_view(), sep),
{
    let mut r = String::new();
    let mut i: usize = 0;
    while i < v.len()
        invariant
            i <= v.len(),
            r@ == join_char(v.deep_view().take(i as int), sep),
        decreases v.len() - i,
    {
        let ghost prefix = v.deep_view().take(i as int);
        if i > 0 {
            push_char(&mut r, sep);
        }
        r.append(v[i].as_str());
        proof {
            lemma_join_push(prefix, sep, v.deep_view()[i as int]);
            assert(v.deep_view().take(i + 1) =~= prefix.push(v.deep_view()[i as int]));
            if i == 0 {
                assert(r@ =~= v.deep_view()[0]);
            } else {
                assert(join_char(prefix, sep).push(sep) + v.deep_view()[i as int] =~= join_char(
                    prefix,
                    sep,
                ) + seq![sep] + v.deep_view()[i as int]);
            }
        }
        i += 1;
    }
    proof {
        assert(v.deep_view().take(v.len() as int) =~= v.deep_view());
    }
    r
}

// --- trimming ---

/// `s` with its white-space prefix removed.
pub open spec fn trim_start_rec(s: Seq<char>) -> Seq<char>
    decreases s.len(),
{
    if s.len() == 0 || !is_wsp(s[0]) {
        s
    } else {
        trim_start_rec(s.drop_first())
    }
}

/// `s` with its white-space suffix removed.
pub open spec fn trim_end_rec(s: Seq<char>) -> Seq<char>
    decreases s.len(),
{
    if s.len() == 0 || !is_wsp(s.last()) {
        s
    } else {
        trim_end_rec(s.drop_last())
    }
}

/// `s` with white space removed from both ends.
pub open spec fn trim_spec(s: Seq<char>) -> Seq<char> {
    trim_end_rec(trim_start_rec(s))
}

proof fn lemma_trim_start_at(s: Seq<char>, k: int)
    requires
        0 <= k <= s.len(),
        forall|j: int| 0 <= j < k ==> is_wsp(s[j]),
        k == s.len() || !is_wsp(s[k]),
    ensures
        trim_start_rec(s) == s.skip(k),
    decreases k,
{
    if k == 0 {
        assert(s.skip(0) =~= s);
    } else {
        lemma_trim_start_at(s.drop_first(), k - 1);
        assert(s.drop_first().skip(k - 1) =~= s.skip(k));
    }
}

proof fn lemma_trim_end_at(s: Seq<char>, k: int)
    requires
        0 <= k <= s.len(),
        forall|j: int| k <= j < s.len() ==> is_wsp(s[j]),
        k == 0 || !is_wsp(s[k - 1]),
    ensures
        trim_end_rec(s) == s.take(k),
    decreases s.len(),
{
    if k == s.len() {
        assert(s.take(k) =~= s);
    } else {
        assert(is_wsp(s.last()));
        lemma_trim_end_at(s.drop_last(), k);
        assert(s.drop_last().take(k) =~= s.take(k));
    }
}

pub fn trim_end_str(s: &str) -> (r: String)
    ensures
        r@ == trim_end_rec(s@),
{
    let n = s.unicode_len();
    let mut hi: usize = n;
    while hi > 0 && is_whitespace_char(s.get_char(hi - 1))
        invariant
            hi <= n,
            n == s@.len(),
            forall|j: int| hi <= j < n ==> is_wsp(s@[j]),
        decreases hi,
    {
        hi -= 1;
    }
    let r = String::from_str(s.substring_char(0, hi));
    proof {
        lemma_trim_end_at(s@, hi as int);
        assert(s@.take(hi as int) =~= s@.subrange(0, hi as int));
    }
    r
}

pub fn trim_str(s: &str) -> (r: String)
    ensures
        r@ == trim_spec(s@),
{
    let n = s.unicode_len();
    let mut lo: usize = 0;
    while lo < n && is_whitespace_char(s.get_char(lo))
        invariant
            lo <= n,
            n == s@.len(),
            forall|j: int| 0 <= j < lo ==> is_wsp(s@[j]),
        decreases n - lo,
    {
        lo += 1;
    }
    proof {
        lemma_trim_start_at(s@, lo as int);
    }
    let mut hi: usize = n;
    while hi > lo && is_whitespace_char(s.get_char(hi - 1))
        invariant
            lo <= hi <= n,
            forall|j: int| hi <= j < n ==> is_wsp(s@[j]),
        decreases hi,
    {
        hi -= 1;
    }
    let r = String::from_str(s.substring_char(lo, hi));
    proof {
        let t = s@.skip(lo as int);
        lemma_trim_end_at(t, hi - lo);
        assert(t.take(hi - lo) =~= s@.subrange(lo as int, hi as int));
    }
    r
}

/// The number of bytes in the UTF-8 encoding of a character
/// sequence.
pub open spec fn byte_len_of(s: Seq<char>) -> nat {
    vstd::utf8::encode_utf8(s).len()
}

/// The larger of two natural numbers.
pub open spec fn nat_max(a: nat, b: nat) -> nat {
    if a >= b {
        a
    } else {
        b
    }
}

/// Trimming never lengthens a string.
pub proof fn lemma_trim_len(s: Seq<char>)
    ensures
        trim_spec(s).len() <= s.len(),
{
    lemma_trim_start_len(s);
    lemma_trim_end_len(trim_start_rec(s));
}

proof fn lemma_trim_start_len(s: Seq<char>)
    ensures
        trim_start_rec(s).len() <= s.len(),
    decreases s.len(),
{
    if s.len() > 0 && is_wsp(s[0]) {
        lemma_trim_start_len(s.drop_first());
    }
}

proof fn lemma_trim_end_len(s: Seq<char>)
    ensures
        trim_end_rec(s).len() <= s.len(),
    decreases s.len(),
{
    if s.len() > 0 && is_wsp(s.last()) {
        lemma_trim_end_len(s.drop_last());
    }
}

proof fn lemma_split_char_rec_part_len(
    s: Seq<char>,
    sep: char,
    cur: Seq<char>,
    acc: Seq<Seq<char>>,
    bound: int,
)
    requires
        forall|k: int| 0 <= k < acc.len() ==> (#[trigger] acc[k]).len() <= bound,
        cur.len() + s.len() <= bound,
    ensures
        forall|k: int|
            0 <= k < split_char_rec(s, sep, cur, acc).len() ==> (#[trigger] split_char_rec(
                s,
                sep,
                cur,
                acc,
            )[k]).len() <= bound,
    decreases s.len(),
{
    let r = split_char_rec(s, sep, cur, acc);
    if s.len() == 0 {
        assert forall|k: int| 0 <= k < r.len() implies (#[trigger] r[k]).len() <= bound by {
            if k == acc.len() {
                assert(acc.push(cur)[k] == cur);
            } else {
                assert(acc.push(cur)[k] == acc[k]);
            }
        }
    } else if s[0] == sep {
        assert forall|k: int| 0 <= k < acc.push(cur).len() implies (#[trigger] acc.push(cur)[k]).len()
            <= bound by {
            if k == acc.len() {
                assert(acc.push(cur)[k] == cur);
            } else {
                assert(acc.push(cur)[k] == acc[k]);
            }
        }
        lemma_split_char_rec_part_len(s.drop_first(), sep, Seq::empty(), acc.push(cur), bound);
        assert forall|k: int| 0 <= k < r.len() implies (#[trigger] r[k]).len() <= bound by {
            assert(split_char_rec(s.drop_first(), sep, Seq::empty(), acc.push(cur))[k].len()
                <= bound);
        }
    } else {
        lemma_split_char_rec_part_len(s.drop_first(), sep, cur.push(s[0]), acc, bound);
        assert forall|k: int| 0 <= k < r.len() implies (#[trigger] r[k]).len() <= bound by {
            assert(split_char_rec(s.drop_first(), sep, cur.push(s[0]), acc)[k].len() <= bound);
        }
    }
}

proof fn lemma_split_char_rec_count(s: Seq<char>, sep: char, cur: Seq<char>, acc: Seq<Seq<char>>)
    ensures
        split_char_rec(s, sep, cur, acc).len() <= acc.len() + 1 + s.len(),
    decreases s.len(),
{
    if s.len() == 0 {
    } else if s[0] == sep {
        lemma_split_char_rec_count(s.drop_first(), sep, Seq::empty(), acc.push(cur));
    } else {
        lemma_split_char_rec_count(s.drop_first(), sep, cur.push(s[0]), acc);
    }
}

/// A split yields at most one piece more than the string has
/// characters.
pub proof fn lemma_split_count(s: Seq<char>, sep: char)
    ensures
        split_char(s, sep).len() <= s.len() + 1,
{
    lemma_split_char_rec_count(s, sep, Seq::empty(), Seq::empty());
}

/// No piece of a split is longer than the string it came from.
pub proof fn lemma_split_part_len(s: Seq<char>, sep: char)
    ensures
        forall|k: int|
            0 <= k < split_char(s, sep).len() ==> (#[trigger] split_char(s, sep)[k]).len()
                <= s.len(),
{
    lemma_split_char_rec_part_len(s, sep, Seq::empty(), Seq::empty(), s.len() as int);
}

} // verus!
