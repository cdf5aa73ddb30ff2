//! The counting utility: its option parser, the line/word/character/
//! byte counting engine in streaming and whole-buffer form, and the
//! fixed-width result formatting.
use vstd::prelude::*;
use vstd::string::*;

use crate::errors::UtilError;
use crate::escape::unescape;
use crate::escape::unescape_spec;
use crate::text::byte_len_of;
use crate::text::is_whitespace_char;
use crate::text::is_wsp;
use crate::text::join_char;
use crate::text::join_with_char;
use crate::text::lines_spec;
use crate::text::nat_max;
use crate::text::push_char;
use crate::text::split_char;
use crate::text::split_lines;
use crate::text::split_on_char;
use crate::text::str_eq;
use crate::text::str_starts_with;
use crate::text::trim_spec;
use crate::text::trim_str;
use crate::tokenize::parse_command_line;
use crate::tokenize::tokenize_spec;

verus! {

/// The flags of the counting utility.
#[derive(Debug, Clone, PartialEq, Eq)]
pub struct WcOptions {
    /// Report the byte count.
    pub show_bytes: bool,
    /// Report the character count; wins over the byte count.
    pub show_chars: bool,
    /// Report the line count.
    pub show_lines: bool,
    /// Report the word count.
    pub show_words: bool,
    /// Report the length of the longest line.
    pub show_max_line_length: bool,
    /// The operand of `--files0-from=`, recognized but handled by the
    /// caller.
    pub files0_from: Option<String>,
}

/// The mathematical shape of a flag set.
pub struct WcFlags {
    pub show_bytes: bool,
    pub show_chars: bool,
    pub show_lines: bool,
    pub show_words: bool,
    pub show_max_line_length: bool,
    pub files0_from: Option<Seq<char>>,
}

impl View for WcOptions {
    type V = WcFlags;

    open spec fn view(&self) -> WcFlags {
        WcFlags {
            show_bytes: self.show_bytes,
            show_chars: self.show_chars,
            show_lines: self.show_lines,
            show_words: self.show_words,
            show_max_line_length: self.show_max_line_length,
            files0_from: match self.files0_from {
                Some(f) => Some(f@),
                None => None,
            },
        }
    }
}

/// The state with every flag off.
pub open spec fn wc_defaults() -> WcFlags {
    WcFlags {
        show_bytes: false,
        show_chars: false,
        show_lines: false,
        show_words: false,
        show_max_line_length: false,
        files0_from: None,
    }
}

impl Default for WcOptions {
    fn default() -> (r: Self)
        ensures
            r@ == wc_defaults(),
    {
        WcOptions {
            show_bytes: false,
            show_chars: false,
            show_lines: false,
            show_words: false,
            show_max_line_length: false,
            files0_from: None,
        }
    }
}

/// The short flags the counting utility accepts inside a combined
/// option.
pub open spec fn wc_valid_short(c: char) -> bool {
    c == 'c' || c == 'm' || c == 'l' || c == 'w' || c == 'L'
}

/// The effect of one valid short flag character.
pub open spec fn wc_short(o: WcFlags, c: char) -> WcFlags {
    if c == 'c' {
        WcFlags { show_bytes: true, ..o }
    } else if c == 'm' {
        WcFlags { show_chars: true, ..o }
    } else if c == 'l' {
        WcFlags { show_lines: true, ..o }
    } else if c == 'w' {
        WcFlags { show_words: true, ..o }
    } else if c == 'L' {
        WcFlags { show_max_line_length: true, ..o }
    } else {
        o
    }
}

/// The characters of a combined option applied up to (and not
/// including) the first invalid one.
pub open spec fn wc_combined_apply(o: WcFlags, cs: Seq<char>) -> WcFlags
    decreases cs.len(),
{
    if cs.len() == 0 {
        o
    } else if !wc_valid_short(cs[0]) {
        o
    } else {
        wc_combined_apply(wc_short(o, cs[0]), cs.drop_first())
    }
}

pub open spec fn wc_combined_ok(cs: Seq<char>) -> bool {
    forall|i: int| 0 <= i < cs.len() ==> wc_valid_short(cs[i])
}

/// The first invalid character of a combined option.
pub open spec fn wc_first_bad(cs: Seq<char>) -> char
    decreases cs.len(),
{
    if cs.len() == 0 {
        ' '
    } else if !wc_valid_short(cs[0]) {
        cs[0]
    } else {
        wc_first_bad(cs.drop_first())
    }
}

/// Whether an option token is a combined run of short flags.
pub open spec fn wc_is_combined(opt: Seq<char>) -> bool {
    opt.len() > 2 && opt[0] == '-' && opt[1] != '-'
}

/// The flag state after one option token, applied even when the token
/// turns out invalid part-way through.
pub open spec fn wc_option_state(opt: Seq<char>, o: WcFlags) -> WcFlags {
    if opt == "-c"@ || opt == "--bytes"@ {
        WcFlags { show_bytes: true, ..o }
    } else if opt == "-m"@ || opt == "--chars"@ {
        WcFlags { show_chars: true, ..o }
    } else if opt == "-l"@ || opt == "--lines"@ {
        WcFlags { show_lines: true, ..o }
    } else if opt == "-w"@ || opt == "--words"@ {
        WcFlags { show_words: true, ..o }
    } else if opt == "-L"@ || opt == "--max-line-length"@ {
        WcFlags { show_max_line_length: true, ..o }
    } else if wc_is_combined(opt) {
        wc_combined_apply(o, opt.skip(1))
    } else {
        o
    }
}

/// The rejection an option token earns, if any: the offending token
/// as it was dispatched, so a bad character inside a combination is
/// reported as its own one-character option.
pub open spec fn wc_option_err(opt: Seq<char>) -> Option<Seq<char>> {
    if opt == "-c"@ || opt == "--bytes"@ || opt == "-m"@ || opt == "--chars"@ || opt == "-l"@ || opt
        == "--lines"@ || opt == "-w"@ || opt == "--words"@ || opt == "-L"@ || opt
        == "--max-line-length"@ {
        None
    } else if wc_is_combined(opt) {
        if wc_combined_ok(opt.skip(1)) {
            None
        } else {
            Some(seq!['-', wc_first_bad(opt.skip(1))])
        }
    } else if "--files0-from="@.is_prefix_of(opt) {
        None
    } else {
        Some(opt)
    }
}

/// Applies one option token to the flag set.  Combined short options
/// are expanded character by character; the first unrecognized
/// character stops the scan and is reported as an invalid option,
/// with the flags before it already applied.
#[verifier::rlimit(60)]
pub fn parse_option(opt: &str, options: &mut WcOptions) -> (r: Result<(), UtilError>)
    ensures
        final(options)@ == wc_option_state(opt@, old(options)@),
        match wc_option_err(opt@) {
            None => r is Ok,
            Some(p) => r matches Err(e) && (e matches UtilError::InvalidOption(s) && s@ == p),
        },
{
    if str_eq(opt, "-c") || str_eq(opt, "--bytes") {
        options.show_bytes = true;
        Ok(())
    } else if str_eq(opt, "-m") || str_eq(opt, "--chars") {
        options.show_chars = true;
        Ok(())
    } else if str_eq(opt, "-l") || str_eq(opt, "--lines") {
        options.show_lines = true;
        Ok(())
    } else if str_eq(opt, "-w") || str_eq(opt, "--words") {
        options.show_words = true;
        Ok(())
    } else if str_eq(opt, "-L") || str_eq(opt, "--max-line-length") {
        options.show_max_line_length = true;
        Ok(())
    } else {
        let n = opt.unicode_len();
        if n > 2 && opt.get_char(0) == '-' && opt.get_char(1) != '-' {
            let ghost start = options@;
            let mut k: usize = 1;
            while k < n
                invariant
                    1 <= k <= n,
                    n == opt@.len(),
                    wc_combined_apply(options@, opt@.skip(k as int)) == wc_combined_apply(
                        start,
                        opt@.skip(1),
                    ),
                    forall|j: int| 1 <= j < k ==> wc_valid_short(opt@[j]),
                    wc_first_bad(opt@.skip(k as int)) == wc_first_bad(opt@.skip(1)),
                decreases n - k,
            {
                let ghost before = options@;
                let c = opt.get_char(k);
                if c == 'c' {
                    options.show_bytes = true;
                } else if c == 'm' {
                    options.show_chars = true;
                } else if c == 'l' {
                    options.show_lines = true;
                } else if c == 'w' {
                    options.show_words = true;
                } else if c == 'L' {
                    options.show_max_line_length = true;
                } else {
                    let mut bad = String::new();
                    push_char(&mut bad, '-');
                    push_char(&mut bad, c);
                    proof {
                        assert(!wc_valid_short(opt@[k as int]));
                        assert(wc_combined_apply(options@, opt@.skip(k as int)) == options@);
                        assert(opt@.skip(1)[k as int - 1] == opt@[k as int]);
                        assert(!wc_combined_ok(opt@.skip(1)));
                        assert(wc_first_bad(opt@.skip(k as int)) == opt@[k as int]);
                        assert(bad@ =~= seq!['-', wc_first_bad(opt@.skip(1))]);
                    }
                    return Err(UtilError::InvalidOption(bad));
                }
                proof {
                    assert(options@ == wc_short(before, opt@[k as int]));
                    assert(opt@.skip(k as int).drop_first() =~= opt@.skip(k + 1));
                }
                k += 1;
            }
            proof {
                assert(opt@.skip(n as int).len() == 0);
                assert(wc_combined_ok(opt@.skip(1))) by {
                    assert(forall|i: int|
                        0 <= i < opt@.skip(1).len() ==> opt@.skip(1)[i] == opt@[i + 1]
                            && wc_valid_short(opt@[i + 1]));
                }
            }
            Ok(())
        } else if str_starts_with(opt, "--files0-from=") {
            Ok(())
        } else {
            Err(UtilError::InvalidOption(String::from_str(opt)))
        }
    }
}

// --- the argument list ---

/// The fold of the argument list: `--files0-from=` operands are
/// recorded, options are applied in order with the first invalid one
/// rejecting the whole list, and everything else is a file operand.
pub open spec fn wc_args_rec(args: Seq<Seq<char>>, o: WcFlags, files: Seq<Seq<char>>) -> Result<
    (WcFlags, Seq<Seq<char>>),
    Seq<char>,
>
    decreases args.len(),
{
    if args.len() == 0 {
        Ok((o, files))
    } else {
        let a = args[0];
        if "--files0-from="@.is_prefix_of(a) {
            wc_args_rec(
                args.drop_first(),
                WcFlags { files0_from: Some(a.skip("--files0-from="@.len() as int)), ..o },
                files,
            )
        } else if a.len() > 0 && a[0] == '-' {
            match wc_option_err(a) {
                None => wc_args_rec(args.drop_first(), wc_option_state(a, o), files),
                Some(p) => Err(p),
            }
        } else {
            wc_args_rec(args.drop_first(), o, files.push(a))
        }
    }
}

/// When no counting flag was named, lines, words and bytes are
/// reported.
pub open spec fn wc_apply_defaults(o: WcFlags) -> WcFlags {
    if !o.show_bytes && !o.show_chars && !o.show_lines && !o.show_words
        && !o.show_max_line_length {
        WcFlags { show_lines: true, show_words: true, show_bytes: true, ..o }
    } else {
        o
    }
}

/// The flag set and file operands denoted by an argument list, or the
/// option it was rejected for.
pub open spec fn wc_parse_args_spec(args: Seq<Seq<char>>) -> Result<
    (WcFlags, Seq<Seq<char>>),
    Seq<char>,
> {
    match wc_args_rec(args, wc_defaults(), Seq::empty()) {
        Ok(p) => Ok((wc_apply_defaults(p.0), p.1)),
        Err(e) => Err(e),
    }
}

/// Splits the arguments of the counting utility into its flag set and
/// its file operands; an unrecognized option rejects the whole list.
pub fn parse_arguments(args: &Vec<String>) -> (r: Result<(WcOptions, Vec<String>), UtilError>)
    ensures
        match r {
            Ok(of) => wc_parse_args_spec(args.deep_view()) matches Ok(sp) && of.0@ == sp.0
                && of.1.deep_view() == sp.1,
            Err(e) => wc_parse_args_spec(args.deep_view()) matches Err(p) && (e matches
                UtilError::InvalidOption(s) && s@ == p),
        },
{
    let mut options = WcOptions::default();
    let mut files: Vec<String> = Vec::new();
    proof {
        assert(args.deep_view().skip(0) =~= args.deep_view());
        assert(files.deep_view() =~= Seq::<Seq<char>>::empty());
    }
    let mut i: usize = 0;
    while i < args.len()
        invariant
            i <= args.len(),
            wc_args_rec(args.deep_view().skip(i as int), options@, files.deep_view())
                == wc_args_rec(args.deep_view(), wc_defaults(), Seq::empty()),
        decreases args.len() - i,
    {
        let ghost rest = args.deep_view().skip(i as int);
        assert(rest[0] == args.deep_view()[i as int]);
        let a = &args[i];
        if str_starts_with(a.as_str(), "--files0-from=") {
            let plen = "--files0-from=".unicode_len();
            let alen = a.as_str().unicode_len();
            let operand = String::from_str(a.as_str().substring_char(plen, alen));
            proof {
                assert(operand@ =~= a@.skip("--files0-from="@.len() as int));
            }
            options.files0_from = Some(operand);
        } else {
            let alen = a.as_str().unicode_len();
            if alen > 0 && a.as_str().get_char(0) == '-' {
                match parse_option(a.as_str(), &mut options) {
                    Ok(_u) => {
                    },
                    Err(e) => {
                        return Err(e);
                    },
                }
            } else {
                let ghost prev_files = files.deep_view();
                files.push(a.clone());
                proof {
                    assert(files.deep_view() =~= prev_files.push(rest[0]));
                }
            }
        }
        proof {
            assert(rest.drop_first() =~= args.deep_view().skip(i + 1));
        }
        i += 1;
    }
    proof {
        assert(args.deep_view().skip(args.len() as int).len() == 0);
    }
    if !options.show_bytes && !options.show_chars && !options.show_lines && !options.show_words
        && !options.show_max_line_length {
        options.show_lines = true;
        options.show_words = true;
        options.show_bytes = true;
    }
    Ok((options, files))
}

// --- the counting engine ---

/// One set of counts for a unit of text.
#[derive(Debug, Clone, Copy, PartialEq, Eq, Structural)]
pub struct CountResult {
    pub lines: usize,
    pub words: usize,
    pub chars: usize,
    pub bytes: usize,
    pub max_line_length: usize,
}

/// All counters at zero.
pub open spec fn zero_counts() -> CountResult {
    CountResult { lines: 0, words: 0, chars: 0, bytes: 0, max_line_length: 0 }
}

impl Default for CountResult {
    fn default() -> (r: Self)
        ensures
            r == zero_counts(),
    {
        CountResult { lines: 0, words: 0, chars: 0, bytes: 0, max_line_length: 0 }
    }
}

/// The number of maximal runs of non-white-space characters, with
/// `in_word` telling whether a run is already open.
pub open spec fn word_count_rec(s: Seq<char>, in_word: bool) -> nat
    decreases s.len(),
{
    if s.len() == 0 {
        0
    } else {
        let w = !is_wsp(s[0]);
        (if w && !in_word {
            1nat
        } else {
            0nat
        }) + word_count_rec(s.drop_first(), w)
    }
}

/// The number of white-space-delimited words in `s`.
pub open spec fn word_count(s: Seq<char>) -> nat {
    word_count_rec(s, false)
}

/// The length of the longest line, in characters.
pub open spec fn max_line_len(ls: Seq<Seq<char>>) -> nat
    decreases ls.len(),
{
    if ls.len() == 0 {
        0
    } else {
        nat_max(ls[0].len(), max_line_len(ls.drop_first()))
    }
}

/// The whole-buffer line count: the number of logical lines, plus one
/// more when a non-empty buffer ends in a line terminator.
pub open spec fn line_count(s: Seq<char>) -> nat {
    if s.len() == 0 {
        0
    } else if s.last() == '\n' {
        lines_spec(s).len() + 1
    } else {
        lines_spec(s).len()
    }
}

/// Counts the white-space-delimited words of `s`.
pub fn count_words(s: &str) -> (c: usize)
    ensures
        c == word_count(s@),
{
    let n = s.unicode_len();
    let mut count: usize = 0;
    let mut in_word = false;
    proof {
        assert(s@.skip(0) =~= s@);
    }
    let mut i: usize = 0;
    while i < n
        invariant
            i <= n,
            n == s@.len(),
            count <= i,
            count + word_count_rec(s@.skip(i as int), in_word) == word_count(s@),
        decreases n - i,
    {
        let ghost rest = s@.skip(i as int);
        let c = s.get_char(i);
        assert(rest[0] == c);
        let w = !is_whitespace_char(c);
        if w && !in_word {
            count += 1;
        }
        in_word = w;
        i += 1;
        proof {
            assert(rest.drop_first() =~= s@.skip(i as int));
        }
    }
    proof {
        assert(s@.skip(n as int).len() == 0);
    }
    count
}

/// Counts a whole buffer at once: lines and the longest line over the
/// logical lines, words over the entire buffer, characters as Unicode
/// scalar values, bytes as UTF-8 length.  The buffer must leave room
/// for the extra line a trailing terminator adds.
pub fn count_content(content: &str) -> (r: CountResult)
    requires
        content@.len() < usize::MAX,
    ensures
        r.lines == line_count(content@),
        r.words == word_count(content@),
        r.chars == content@.len(),
        r.bytes == byte_len_of(content@),
        r.max_line_length == max_line_len(lines_spec(content@)),
{
    let n = content.unicode_len();
    let lines = split_lines(content);
    let mut max: usize = 0;
    proof {
        assert(lines.deep_view().skip(0) =~= lines.deep_view());
    }
    let mut i: usize = 0;
    while i < lines.len()
        invariant
            i <= lines.len(),
            max_line_len(lines.deep_view()) == nat_max(
                max as nat,
                max_line_len(lines.deep_view().skip(i as int)),
            ),
        decreases lines.len() - i,
    {
        let ghost rest = lines.deep_view().skip(i as int);
        assert(rest[0] == lines.deep_view()[i as int]);
        let m = lines[i].as_str().unicode_len();
        if m > max {
            max = m;
        }
        proof {
            assert(rest.drop_first() =~= lines.deep_view().skip(i + 1));
        }
        i += 1;
    }
    proof {
        assert(max_line_len(lines.deep_view().skip(lines.len() as int)) == 0);
    }
    let line_total: usize = if n == 0 {
        0
    } else if content.get_char(n - 1) == '\n' {
        proof {
            crate::text::lemma_split_count(content@.drop_last(), '\n');
        }
        lines.len() + 1
    } else {
        lines.len()
    };
    let words = count_words(content);
    let bytes = content.as_bytes().len();
    CountResult { lines: line_total, words, chars: n, bytes, max_line_length: max }
}

/// Adds one line read from a stream to the running counts: one line,
/// its words, and its characters and bytes each charged one extra for
/// the line terminator.
pub fn count_line(result: &mut CountResult, line: &str)
    requires
        old(result).lines < usize::MAX,
        old(result).words + word_count(line@) <= usize::MAX,
        old(result).chars + line@.len() + 1 <= usize::MAX,
        old(result).bytes + byte_len_of(line@) + 1 <= usize::MAX,
    ensures
        final(result).lines == old(result).lines + 1,
        final(result).words == old(result).words + word_count(line@),
        final(result).chars == old(result).chars + line@.len() + 1,
        final(result).bytes == old(result).bytes + byte_len_of(line@) + 1,
        final(result).max_line_length == nat_max(
            old(result).max_line_length as nat,
            line@.len(),
        ),
{
    result.lines = result.lines + 1;
    let w = count_words(line);
    result.words = result.words + w;
    let cl = line.unicode_len();
    result.chars = result.chars + cl + 1;
    result.bytes = result.bytes + line.as_bytes().len() + 1;
    if cl > result.max_line_length {
        result.max_line_length = cl;
    }
}

/// Adds the counts of one input into a running total: field-wise
/// sums, except the longest line, which is a maximum.
pub fn accumulate(total: &mut CountResult, part: &CountResult)
    requires
        old(total).lines + part.lines <= usize::MAX,
        old(total).words + part.words <= usize::MAX,
        old(total).chars + part.chars <= usize::MAX,
        old(total).bytes + part.bytes <= usize::MAX,
    ensures
        final(total).lines == old(total).lines + part.lines,
        final(total).words == old(total).words + part.words,
        final(total).chars == old(total).chars + part.chars,
        final(total).bytes == old(total).bytes + part.bytes,
        final(total).max_line_length == nat_max(
            old(total).max_line_length as nat,
            part.max_line_length as nat,
        ),
{
    total.lines = total.lines + part.lines;
    total.words = total.words + part.words;
    total.chars = total.chars + part.chars;
    total.bytes = total.bytes + part.bytes;
    if part.max_line_length > total.max_line_length {
        total.max_line_length = part.max_line_length;
    }
}

// --- result formatting ---

/// One numeric field: the value right-justified to seven columns,
/// then a space.
pub open spec fn count_field(n: nat) -> Seq<char> {
    crate::text::right_justify(crate::text::dec_digits(n), 7) + seq![' ']
}

pub open spec fn opt_field(requested: bool, n: nat) -> Seq<char> {
    if requested {
        count_field(n)
    } else {
        Seq::empty()
    }
}

/// The fields a result row shows, in the fixed order lines, words,
/// characters or bytes, longest line; characters win over bytes when
/// both are requested.
pub open spec fn row_fields(r: CountResult, o: WcFlags) -> Seq<char> {
    opt_field(o.show_lines, r.lines as nat) + opt_field(o.show_words, r.words as nat) + (
    if o.show_chars {
        count_field(r.chars as nat)
    } else if o.show_bytes {
        count_field(r.bytes as nat)
    } else {
        Seq::empty()
    }) + opt_field(o.show_max_line_length, r.max_line_length as nat)
}

/// A finished result row: the requested fields, then the source
/// label, with trailing white space removed.
pub open spec fn format_result_spec(r: CountResult, o: WcFlags, label: Option<Seq<char>>) -> Seq<
    char,
> {
    crate::text::trim_end_rec(
        row_fields(r, o) + (match label {
            Some(l) => l,
            None => Seq::<char>::empty(),
        }),
    )
}

/// Renders one result row for the requested counters, followed by
/// the source label when there is one.
pub fn format_result(result: &CountResult, options: &WcOptions, filename: Option<&str>) -> (r:
    String)
    ensures
        r@ == format_result_spec(*result, options@, filename.deep_view()),
{
    let mut out = String::new();
    if options.show_lines {
        let field = crate::text::fmt_usize_padded(result.lines, 7);
        out.append(field.as_str());
        push_char(&mut out, ' ');
        proof {
            assert(out@ =~= opt_field(options@.show_lines, result.lines as nat));
        }
    }
    let ghost part1 = out@;
    if options.show_words {
        let field = crate::text::fmt_usize_padded(result.words, 7);
        out.append(field.as_str());
        push_char(&mut out, ' ');
        proof {
            assert(out@ =~= part1 + count_field(result.words as nat));
        }
    }
    proof {
        assert(out@ =~= opt_field(options@.show_lines, result.lines as nat) + opt_field(
            options@.show_words,
            result.words as nat,
        ));
    }
    let ghost part2 = out@;
    if options.show_chars {
        let field = crate::text::fmt_usize_padded(result.chars, 7);
        out.append(field.as_str());
        push_char(&mut out, ' ');
        proof {
            assert(out@ =~= part2 + count_field(result.chars as nat));
        }
    } else if options.show_bytes {
        let field = crate::text::fmt_usize_padded(result.bytes, 7);
        out.append(field.as_str());
        push_char(&mut out, ' ');
        proof {
            assert(out@ =~= part2 + count_field(result.bytes as nat));
        }
    }
    let ghost part3 = out@;
    if options.show_max_line_length {
        let field = crate::text::fmt_usize_padded(result.max_line_length, 7);
        out.append(field.as_str());
        push_char(&mut out, ' ');
        proof {
            assert(out@ =~= part3 + count_field(result.max_line_length as nat));
        }
    }
    proof {
        assert(out@ =~= row_fields(*result, options@));
    }
    let ghost fields = out@;
    match filename {
        Some(name) => {
            out.append(name);
        },
        None => {
            proof {
                assert(fields + Seq::<char>::empty() =~= out@);
            }
        },
    }
    crate::text::trim_end_str(out.as_str())
}

/// A whole-buffer report: the counts of the text rendered for the
/// requested counters, with no label.
pub open spec fn wc_stdin_spec(s: Seq<char>, o: WcFlags) -> Seq<char> {
    crate::text::trim_end_rec(
        opt_field(o.show_lines, line_count(s)) + opt_field(o.show_words, word_count(s)) + (
        if o.show_chars {
            count_field(s.len())
        } else if o.show_bytes {
            count_field(byte_len_of(s))
        } else {
            Seq::empty()
        }) + opt_field(o.show_max_line_length, max_line_len(lines_spec(s))),
    )
}

/// Counts a simulated standard-input buffer and renders the result
/// row.
pub fn process_stdin(text: &str, options: &WcOptions) -> (r: String)
    requires
        text@.len() < usize::MAX,
    ensures
        r@ == wc_stdin_spec(text@, options@),
{
    let counts = count_content(text);
    let row = format_result(&counts, options, None);
    proof {
        assert(row_fields(counts, options@) + Seq::<char>::empty() =~= row_fields(
            counts,
            options@,
        ));
    }
    row
}

// --- pipe simulation ---

/// Whether a pipe line is well shaped for the counting utility:
/// exactly one `|`, an `echo` command on the left and a `wc` command
/// on the right, both sides trimmed before tokenizing.
pub open spec fn wc_pipe_shape_ok(input: Seq<char>) -> bool {
    let parts = split_char(input, '|');
    parts.len() == 2 && {
        let echo_toks = tokenize_spec(trim_spec(parts[0]));
        let wc_toks = tokenize_spec(trim_spec(parts[1]));
        echo_toks.len() > 0 && echo_toks[0] == "echo"@ && wc_toks.len() > 0 && wc_toks[0] == "wc"@
    }
}

/// The argument parse of the right-hand side of a well-shaped pipe
/// line.
pub open spec fn wc_pipe_args(input: Seq<char>) -> Result<(WcFlags, Seq<Seq<char>>), Seq<char>> {
    let parts = split_char(input, '|');
    let wc_toks = tokenize_spec(trim_spec(parts[1]));
    wc_parse_args_spec(wc_toks.drop_first())
}

/// The simulated standard-input text of a well-shaped pipe line: the
/// words after `echo`, joined by single spaces and escape-decoded.
pub open spec fn wc_pipe_text(input: Seq<char>) -> Seq<char> {
    let parts = split_char(input, '|');
    let echo_toks = tokenize_spec(trim_spec(parts[0]));
    unescape_spec(join_char(echo_toks.drop_first(), ' '))
}

/// The output of a well-formed pipe line.
pub open spec fn wc_pipe_out(input: Seq<char>) -> Seq<char> {
    let flags = match wc_pipe_args(input) {
        Ok(p) => p.0,
        Err(_) => wc_defaults(),
    };
    wc_stdin_spec(wc_pipe_text(input), flags)
}

/// Runs one `echo [words] | wc [options]` line and returns the
/// result row the counting utility would print.  A malformed shape is
/// a syntax error; an unrecognized option is reported as such.
pub fn process_piped_command(input: &str) -> (r: Result<String, UtilError>)
    ensures
        !wc_pipe_shape_ok(input@) ==> (r matches Err(e) && e == UtilError::SyntaxError),
        wc_pipe_shape_ok(input@) && wc_pipe_args(input@) is Err ==> (r matches Err(e) && (
        e matches UtilError::InvalidOption(s) && wc_pipe_args(input@) matches Err(p) && s@ == p)),
        wc_pipe_shape_ok(input@) && wc_pipe_args(input@) is Ok ==> (r matches Ok(out) && out@
            == wc_pipe_out(input@)),
{
    let input_len = input.unicode_len();
    let parts = split_on_char(input, '|');
    if parts.len() != 2 {
        return Err(UtilError::SyntaxError);
    }
    assert(parts.deep_view()[0] == parts@[0]@ && parts.deep_view()[1] == parts@[1]@);
    let echo_part = trim_str(parts[0].as_str());
    let wc_part = trim_str(parts[1].as_str());
    let echo_toks = parse_command_line(echo_part.as_str());
    if echo_toks.len() == 0 {
        return Err(UtilError::SyntaxError);
    }
    assert(echo_toks.deep_view()[0] == echo_toks@[0]@);
    if !str_eq(echo_toks[0].as_str(), "echo") {
        return Err(UtilError::SyntaxError);
    }
    let wc_toks = parse_command_line(wc_part.as_str());
    if wc_toks.len() == 0 {
        return Err(UtilError::SyntaxError);
    }
    assert(wc_toks.deep_view()[0] == wc_toks@[0]@);
    if !str_eq(wc_toks[0].as_str(), "wc") {
        return Err(UtilError::SyntaxError);
    }
    let mut words: Vec<String> = Vec::new();
    proof {
        assert(words.deep_view() =~= echo_toks.deep_view().subrange(1, 1));
    }
    let mut j: usize = 1;
    while j < echo_toks.len()
        invariant
            1 <= j <= echo_toks.len(),
            words.deep_view() == echo_toks.deep_view().subrange(1, j as int),
        decreases echo_toks.len() - j,
    {
        let ghost prev = words.deep_view();
        words.push(echo_toks[j].clone());
        proof {
            assert(words.deep_view() =~= prev.push(echo_toks.deep_view()[j as int]));
            assert(echo_toks.deep_view().subrange(1, j + 1) =~= prev.push(
                echo_toks.deep_view()[j as int],
            ));
        }
        j += 1;
    }
    proof {
        assert(echo_toks.deep_view().subrange(1, echo_toks.len() as int) =~=
        echo_toks.deep_view().drop_first());
    }
    let stdin_text = join_with_char(&words, ' ');
    let text = unescape(stdin_text.as_str());
    proof {
        let toks = echo_toks.deep_view();
        let ws = toks.drop_first();
        crate::text::lemma_split_part_len(input@, '|');
        crate::text::lemma_trim_len(parts.deep_view()[0]);
        crate::tokenize::lemma_tokenize_weight(trim_spec(parts.deep_view()[0]));
        reveal_strlit("echo");
        assert(crate::tokenize::toks_weight(toks) == toks[0].len() + 1
            + crate::tokenize::toks_weight(ws));
        if ws.len() > 0 {
            crate::tokenize::lemma_join_weight(ws, ' ');
        } else {
            assert(join_char(ws, ' ').len() == 0);
        }
        crate::escape::lemma_unescape_len(join_char(ws, ' '));
        assert(text@.len() < usize::MAX);
    }
    let mut wc_args: Vec<String> = Vec::new();
    proof {
        assert(wc_args.deep_view() =~= wc_toks.deep_view().subrange(1, 1));
    }
    let mut k: usize = 1;
    while k < wc_toks.len()
        invariant
            1 <= k <= wc_toks.len(),
            wc_args.deep_view() == wc_toks.deep_view().subrange(1, k as int),
        decreases wc_toks.len() - k,
    {
        let ghost prev = wc_args.deep_view();
        wc_args.push(wc_toks[k].clone());
        proof {
            assert(wc_args.deep_view() =~= prev.push(wc_toks.deep_view()[k as int]));
            assert(wc_toks.deep_view().subrange(1, k + 1) =~= prev.push(
                wc_toks.deep_view()[k as int],
            ));
        }
        k += 1;
    }
    proof {
        assert(wc_toks.deep_view().subrange(1, wc_toks.len() as int) =~=
        wc_toks.deep_view().drop_first());
    }
    let parsed = parse_arguments(&wc_args);
    match parsed {
        Ok(of) => {
            let row = process_stdin(text.as_str(), &of.0);
            Ok(row)
        },
        Err(e) => Err(e),
    }
}

} // verus!
