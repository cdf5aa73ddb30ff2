//! The display utility: its option parser and its text-transformation
//! pipeline (blank-line squeezing, non-printing rendering, tab and
//! end-of-line markup, line numbering).
use vstd::prelude::*;
use vstd::string::*;

use crate::errors::UtilError;
use crate::escape::unescape;
use crate::escape::unescape_spec;
use crate::text::dec_digits;
use crate::text::fmt_usize_padded;
use crate::text::is_blank_seq;
use crate::text::is_blank_str;
use crate::text::join_char;
use crate::text::join_with_char;
use crate::text::lines_spec;
use crate::text::push_char;
use crate::text::right_justify;
use crate::text::split_char;
use crate::text::split_lines;
use crate::text::split_on_char;
use crate::text::str_eq;
use crate::text::trim_spec;
use crate::text::trim_str;
use crate::tokenize::parse_command_line;
use crate::tokenize::tokenize_spec;

verus! {

/// The flags of the display utility.
#[derive(Debug, Clone, Copy, PartialEq, Eq, Structural)]
pub struct CatOptions {
    /// Render non-printing characters, ends and tabs all at once.
    pub show_all: bool,
    /// Number only the non-blank lines.
    pub number_nonblank: bool,
    /// Mark the end of every line with `$`.
    pub show_ends: bool,
    /// Number every line.
    pub number: bool,
    /// Collapse runs of blank lines into one.
    pub squeeze_blank: bool,
    /// Render tabs as `^I`.
    pub show_tabs: bool,
    /// Render non-printing characters in caret notation.
    pub show_nonprinting: bool,
}

/// The state with every flag off.
pub open spec fn cat_defaults() -> CatOptions {
    CatOptions {
        show_all: false,
        number_nonblank: false,
        show_ends: false,
        number: false,
        squeeze_blank: false,
        show_tabs: false,
        show_nonprinting: false,
    }
}

impl Default for CatOptions {
    fn default() -> (r: Self)
        ensures
            r == cat_defaults(),
    {
        CatOptions {
            show_all: false,
            number_nonblank: false,
            show_ends: false,
            number: false,
            squeeze_blank: false,
            show_tabs: false,
            show_nonprinting: false,
        }
    }
}

/// The effect of one short flag character; anything unrecognized is
/// silently ignored.
pub open spec fn cat_short(o: CatOptions, c: char) -> CatOptions {
    if c == 'A' {
        CatOptions { show_all: true, show_nonprinting: true, show_ends: true, show_tabs: true, ..o }
    } else if c == 'b' {
        CatOptions { number_nonblank: true, ..o }
    } else if c == 'e' {
        CatOptions { show_nonprinting: true, show_ends: true, ..o }
    } else if c == 'E' {
        CatOptions { show_ends: true, ..o }
    } else if c == 'n' {
        CatOptions { number: true, ..o }
    } else if c == 's' {
        CatOptions { squeeze_blank: true, ..o }
    } else if c == 'T' {
        CatOptions { show_tabs: true, ..o }
    } else if c == 'v' {
        CatOptions { show_nonprinting: true, ..o }
    } else {
        o
    }
}

/// The characters of a combined option applied left to right.
pub open spec fn cat_combined(o: CatOptions, cs: Seq<char>) -> CatOptions
    decreases cs.len(),
{
    if cs.len() == 0 {
        o
    } else {
        cat_combined(cat_short(o, cs[0]), cs.drop_first())
    }
}

/// Whether an option token is a combined run of short flags: a single
/// leading dash followed by at least two characters.
pub open spec fn is_combined_opt(opt: Seq<char>) -> bool {
    opt.len() > 2 && opt[0] == '-' && opt[1] != '-'
}

/// The effect of one option token on the flag set.  Unknown options
/// are ignored without error.
pub open spec fn cat_option_spec(opt: Seq<char>, o: CatOptions) -> CatOptions {
    if opt == "-A"@ || opt == "--show-all"@ {
        CatOptions { show_all: true, show_nonprinting: true, show_ends: true, show_tabs: true, ..o }
    } else if opt == "-b"@ || opt == "--number-nonblank"@ {
        CatOptions { number_nonblank: true, ..o }
    } else if opt == "-e"@ {
        CatOptions { show_nonprinting: true, show_ends: true, ..o }
    } else if opt == "-E"@ || opt == "--show-ends"@ {
        CatOptions { show_ends: true, ..o }
    } else if opt == "-n"@ || opt == "--number"@ {
        CatOptions { number: true, ..o }
    } else if opt == "-s"@ || opt == "--squeeze-blank"@ {
        CatOptions { squeeze_blank: true, ..o }
    } else if opt == "-T"@ || opt == "--show-tabs"@ {
        CatOptions { show_tabs: true, ..o }
    } else if opt == "-v"@ || opt == "--show-nonprinting"@ {
        CatOptions { show_nonprinting: true, ..o }
    } else if is_combined_opt(opt) {
        cat_combined(o, opt.skip(1))
    } else {
        o
    }
}

/// Applies one option token to the flag set.  Combined short options
/// are expanded character by character; unknown options are ignored.
#[verifier::rlimit(60)]
pub fn parse_option(opt: &str, options: &mut CatOptions)
    ensures
        *final(options) == cat_option_spec(opt@, *old(options)),
{
    if str_eq(opt, "-A") || str_eq(opt, "--show-all") {
        options.show_all = true;
        options.show_nonprinting = true;
        options.show_ends = true;
        options.show_tabs = true;
    } else if str_eq(opt, "-b") || str_eq(opt, "--number-nonblank") {
        options.number_nonblank = true;
    } else if str_eq(opt, "-e") {
        options.show_nonprinting = true;
        options.show_ends = true;
    } else if str_eq(opt, "-E") || str_eq(opt, "--show-ends") {
        options.show_ends = true;
    } else if str_eq(opt, "-n") || str_eq(opt, "--number") {
        options.number = true;
    } else if str_eq(opt, "-s") || str_eq(opt, "--squeeze-blank") {
        options.squeeze_blank = true;
    } else if str_eq(opt, "-T") || str_eq(opt, "--show-tabs") {
        options.show_tabs = true;
    } else if str_eq(opt, "-v") || str_eq(opt, "--show-nonprinting") {
        options.show_nonprinting = true;
    } else {
        let n = opt.unicode_len();
        if n > 2 && opt.get_char(0) == '-' && opt.get_char(1) != '-' {
            let ghost start = *options;
            let mut k: usize = 1;
            while k < n
                invariant
                    1 <= k <= n,
                    n == opt@.len(),
                    cat_combined(*options, opt@.skip(k as int)) == cat_combined(
                        start,
                        opt@.skip(1),
                    ),
                decreases n - k,
            {
                let ghost before = *options;
                let c = opt.get_char(k);
                if c == 'A' {
                    options.show_all = true;
                    options.show_nonprinting = true;
                    options.show_ends = true;
                    options.show_tabs = true;
                } else if c == 'b' {
                    options.number_nonblank = true;
                } else if c == 'e' {
                    options.show_nonprinting = true;
                    options.show_ends = true;
                } else if c == 'E' {
                    options.show_ends = true;
                } else if c == 'n' {
                    options.number = true;
                } else if c == 's' {
                    options.squeeze_blank = true;
                } else if c == 'T' {
                    options.show_tabs = true;
                } else if c == 'v' {
                    options.show_nonprinting = true;
                }
                proof {
                    assert(*options == cat_short(before, opt@[k as int]));
                    assert(opt@.skip(k as int).drop_first() =~= opt@.skip(k + 1));
                }
                k += 1;
            }
            proof {
                assert(opt@.skip(n as int).len() == 0);
            }
        }
    }
}

/// The fold of the argument list: options are applied in order and
/// the first non-option argument becomes the file operand.
pub open spec fn cat_args_rec(
    args: Seq<Seq<char>>,
    o: CatOptions,
    file: Option<Seq<char>>,
) -> (CatOptions, Option<Seq<char>>)
    decreases args.len(),
{
    if args.len() == 0 {
        (o, file)
    } else {
        let a = args[0];
        if a.len() > 0 && a[0] == '-' {
            cat_args_rec(args.drop_first(), cat_option_spec(a, o), file)
        } else if file is None {
            cat_args_rec(args.drop_first(), o, Some(a))
        } else {
            cat_args_rec(args.drop_first(), o, file)
        }
    }
}

/// The flag set and file operand denoted by an argument list.
pub open spec fn cat_parse_args_spec(args: Seq<Seq<char>>) -> (CatOptions, Option<Seq<char>>) {
    cat_args_rec(args, cat_defaults(), None)
}

/// Splits the arguments of the display utility into its flag set and
/// its optional file operand.
pub fn parse_arguments(args: &Vec<String>) -> (r: (CatOptions, Option<String>))
    ensures
        r.0 == cat_parse_args_spec(args.deep_view()).0,
        r.1.deep_view() == cat_parse_args_spec(args.deep_view()).1,
{
    let mut options = CatOptions::default();
    let mut file_path: Option<String> = None;
    let mut i: usize = 0;
    proof {
        assert(args.deep_view().skip(0) =~= args.deep_view());
    }
    while i < args.len()
        invariant
            i <= args.len(),
            cat_args_rec(args.deep_view().skip(i as int), options, file_path.deep_view())
                == cat_parse_args_spec(args.deep_view()),
        decreases args.len() - i,
    {
        let ghost rest = args.deep_view().skip(i as int);
        assert(rest[0] == args.deep_view()[i as int]);
        let a = &args[i];
        let n = a.as_str().unicode_len();
        if n > 0 && a.as_str().get_char(0) == '-' {
            parse_option(a.as_str(), &mut options);
        } else if file_path.is_none() {
            file_path = Some(a.clone());
        }
        proof {
            assert(rest.drop_first() =~= args.deep_view().skip(i + 1));
        }
        i += 1;
    }
    proof {
        assert(args.deep_view().skip(args.len() as int).len() == 0);
    }
    (options, file_path)
}

// --- pipeline stages ---

/// Collapsing runs of blank lines: a blank line is kept only when the
/// line before it was not blank.
pub open spec fn squeeze_rec(ls: Seq<Seq<char>>, prev_blank: bool) -> Seq<Seq<char>>
    decreases ls.len(),
{
    if ls.len() == 0 {
        Seq::empty()
    } else {
        let l = ls[0];
        if is_blank_seq(l) {
            if prev_blank {
                squeeze_rec(ls.drop_first(), true)
            } else {
                seq![l] + squeeze_rec(ls.drop_first(), true)
            }
        } else {
            seq![l] + squeeze_rec(ls.drop_first(), false)
        }
    }
}

pub open spec fn squeeze_spec(s: Seq<char>) -> Seq<char> {
    join_char(squeeze_rec(lines_spec(s), false), '\n')
}

/// Collapses every run of two or more blank lines into a single one.
/// Lines of white space only count as blank.
pub fn squeeze_blank_lines(content: &str) -> (r: String)
    ensures
        r@ == squeeze_spec(content@),
{
    let lines = split_lines(content);
    let mut kept: Vec<String> = Vec::new();
    let mut previous_blank = false;
    proof {
        assert(lines.deep_view().skip(0) =~= lines.deep_view());
        assert(kept.deep_view() =~= Seq::<Seq<char>>::empty());
    }
    let mut i: usize = 0;
    while i < lines.len()
        invariant
            i <= lines.len(),
            kept.deep_view() + squeeze_rec(lines.deep_view().skip(i as int), previous_blank)
                == squeeze_rec(lines.deep_view(), false),
        decreases lines.len() - i,
    {
        let ghost rest = lines.deep_view().skip(i as int);
        let ghost prev_kept = kept.deep_view();
        assert(rest[0] == lines.deep_view()[i as int]);
        let is_blank = is_blank_str(lines[i].as_str());
        if is_blank {
            if !previous_blank {
                kept.push(lines[i].clone());
                proof {
                    assert(kept.deep_view() =~= prev_kept.push(rest[0]));
                    assert(prev_kept + (seq![rest[0]] + squeeze_rec(rest.drop_first(), true)) =~=
                    kept.deep_view() + squeeze_rec(rest.drop_first(), true));
                }
            }
            previous_blank = true;
        } else {
            kept.push(lines[i].clone());
            previous_blank = false;
            proof {
                assert(kept.deep_view() =~= prev_kept.push(rest[0]));
                assert(prev_kept + (seq![rest[0]] + squeeze_rec(rest.drop_first(), false)) =~=
                kept.deep_view() + squeeze_rec(rest.drop_first(), false));
            }
        }
        proof {
            assert(rest.drop_first() =~= lines.deep_view().skip(i + 1));
        }
        i += 1;
    }
    proof {
        assert(lines.deep_view().skip(lines.len() as int).len() == 0);
        assert(kept.deep_view() + Seq::<Seq<char>>::empty() =~= kept.deep_view());
    }
    join_with_char(&kept, '\n')
}

/// Caret rendering of one character: control characters become
/// `^`-marked pairs, `DEL` becomes `^?`, tabs are marked only when
/// asked, everything else stands for itself.
pub open spec fn render_char(c: char, include_tabs: bool) -> Seq<char> {
    let u = c as u32;
    if c == '\t' {
        if include_tabs {
            seq!['^', 'I']
        } else {
            seq![c]
        }
    } else if u < 32 {
        seq!['^', ((u + 64) as u8) as char]
    } else if u == 127 {
        seq!['^', '?']
    } else {
        seq![c]
    }
}

pub open spec fn render_chars(l: Seq<char>, include_tabs: bool) -> Seq<char>
    decreases l.len(),
{
    if l.len() == 0 {
        Seq::empty()
    } else {
        render_char(l[0], include_tabs) + render_chars(l.drop_first(), include_tabs)
    }
}

pub open spec fn render_line(l: Seq<char>, include_tabs: bool, include_ends: bool) -> Seq<char> {
    if include_ends {
        render_chars(l, include_tabs) + seq!['$']
    } else {
        render_chars(l, include_tabs)
    }
}

pub open spec fn show_nonprinting_spec(s: Seq<char>, include_tabs: bool, include_ends: bool) -> Seq<
    char,
> {
    join_char(lines_spec(s).map_values(|l: Seq<char>| render_line(l, include_tabs, include_ends)), '\n')
}

/// Renders the non-printing characters of every line in caret
/// notation; marks tabs as `^I` and line ends with `$` when asked.
pub fn show_nonprinting_chars(content: &str, include_tabs: bool, include_ends: bool) -> (r: String)
    ensures
        r@ == show_nonprinting_spec(content@, include_tabs, include_ends),
{
    let lines = split_lines(content);
    let mut rendered: Vec<String> = Vec::new();
    proof {
        assert(rendered.deep_view() =~= lines.deep_view().take(0).map_values(
            |l: Seq<char>| render_line(l, include_tabs, include_ends),
        ));
    }
    let mut i: usize = 0;
    while i < lines.len()
        invariant
            i <= lines.len(),
            rendered.deep_view() == lines.deep_view().take(i as int).map_values(
                |l: Seq<char>| render_line(l, include_tabs, include_ends),
            ),
        decreases lines.len() - i,
    {
        let line = &lines[i];
        let n = line.as_str().unicode_len();
        let mut out = String::new();
        proof {
            assert(line@.skip(0) =~= line@);
        }
        let mut j: usize = 0;
        while j < n
            invariant
                j <= n,
                n == line@.len(),
                render_chars(line@, include_tabs) == out@ + render_chars(
                    line@.skip(j as int),
                    include_tabs,
                ),
            decreases n - j,
        {
            let ghost rest = line@.skip(j as int);
            let ghost prev_out = out@;
            let c = line.as_str().get_char(j);
            assert(rest[0] == c);
            let u = c as u32;
            if c == '\t' {
                if include_tabs {
                    push_char(&mut out, '^');
                    push_char(&mut out, 'I');
                } else {
                    push_char(&mut out, c);
                }
            } else if u < 32 {
                push_char(&mut out, '^');
                push_char(&mut out, ((u + 64) as u8) as char);
            } else if u == 127 {
                push_char(&mut out, '^');
                push_char(&mut out, '?');
            } else {
                push_char(&mut out, c);
            }
            j += 1;
            proof {
                assert(rest.drop_first() =~= line@.skip(j as int));
                assert(prev_out + (render_char(c, include_tabs) + render_chars(
                    line@.skip(j as int),
                    include_tabs,
                )) =~= out@ + render_chars(line@.skip(j as int), include_tabs));
            }
        }
        proof {
            assert(render_chars(line@.skip(n as int), include_tabs) =~= Seq::<char>::empty());
            assert(out@ + Seq::<char>::empty() =~= out@);
        }
        if include_ends {
            push_char(&mut out, '$');
            proof {
                assert(out@ =~= render_chars(line@, include_tabs) + seq!['$']);
            }
        }
        let ghost prev_rendered = rendered.deep_view();
        rendered.push(out);
        proof {
            assert(rendered.deep_view() =~= prev_rendered.push(
                render_line(line@, include_tabs, include_ends),
            ));
            assert(lines.deep_view().take(i + 1).map_values(
                |l: Seq<char>| render_line(l, include_tabs, include_ends),
            ) =~= prev_rendered.push(
                render_line(lines.deep_view()[i as int], include_tabs, include_ends),
            ));
        }
        i += 1;
    }
    proof {
        assert(lines.deep_view().take(lines.len() as int) =~= lines.deep_view());
    }
    join_with_char(&rendered, '\n')
}

/// Tab replacement over the whole text, line breaks included.
pub open spec fn replace_tabs_rec(s: Seq<char>) -> Seq<char>
    decreases s.len(),
{
    if s.len() == 0 {
        Seq::empty()
    } else if s[0] == '\t' {
        seq!['^', 'I'] + replace_tabs_rec(s.drop_first())
    } else {
        seq![s[0]] + replace_tabs_rec(s.drop_first())
    }
}

/// Replaces every tab character with `^I`.
pub fn show_tabs(content: &str) -> (r: String)
    ensures
        r@ == replace_tabs_rec(content@),
{
    let n = content.unicode_len();
    let mut out = String::new();
    proof {
        assert(content@.skip(0) =~= content@);
    }
    let mut i: usize = 0;
    while i < n
        invariant
            i <= n,
            n == content@.len(),
            replace_tabs_rec(content@) == out@ + replace_tabs_rec(content@.skip(i as int)),
        decreases n - i,
    {
        let ghost rest = content@.skip(i as int);
        let ghost prev_out = out@;
        let c = content.get_char(i);
        assert(rest[0] == c);
        if c == '\t' {
            push_char(&mut out, '^');
            push_char(&mut out, 'I');
            proof {
                assert(prev_out + (seq!['^', 'I'] + replace_tabs_rec(rest.drop_first())) =~= out@
                    + replace_tabs_rec(rest.drop_first()));
            }
        } else {
            push_char(&mut out, c);
            proof {
                assert(prev_out + (seq![c] + replace_tabs_rec(rest.drop_first())) =~= out@
                    + replace_tabs_rec(rest.drop_first()));
            }
        }
        i += 1;
        proof {
            assert(rest.drop_first() =~= content@.skip(i as int));
        }
    }
    proof {
        assert(content@.skip(n as int).len() == 0);
        assert(out@ + Seq::<char>::empty() =~= out@);
    }
    out
}

pub open spec fn show_ends_spec(s: Seq<char>) -> Seq<char> {
    join_char(lines_spec(s).map_values(|l: Seq<char>| l + seq!['$']), '\n')
}

/// Appends `$` to every line.
pub fn show_ends(content: &str) -> (r: String)
    ensures
        r@ == show_ends_spec(content@),
{
    let lines = split_lines(content);
    let mut marked: Vec<String> = Vec::new();
    proof {
        assert(marked.deep_view() =~= lines.deep_view().take(0).map_values(
            |l: Seq<char>| l + seq!['$'],
        ));
    }
    let mut i: usize = 0;
    while i < lines.len()
        invariant
            i <= lines.len(),
            marked.deep_view() == lines.deep_view().take(i as int).map_values(
                |l: Seq<char>| l + seq!['$'],
            ),
        decreases lines.len() - i,
    {
        let mut line = lines[i].clone();
        push_char(&mut line, '$');
        let ghost prev = marked.deep_view();
        proof {
            assert(line@ =~= lines.deep_view()[i as int] + seq!['$']);
        }
        marked.push(line);
        proof {
            assert(marked.deep_view() =~= prev.push(lines.deep_view()[i as int] + seq!['$']));
            assert(lines.deep_view().take(i + 1).map_values(|l: Seq<char>| l + seq!['$']) =~=
            prev.push(lines.deep_view()[i as int] + seq!['$']));
        }
        i += 1;
    }
    proof {
        assert(lines.deep_view().take(lines.len() as int) =~= lines.deep_view());
    }
    join_with_char(&marked, '\n')
}

// --- line numbering ---

/// The numbering prefix: the number right-justified to six columns,
/// then a tab.
pub open spec fn num_prefix(n: nat) -> Seq<char> {
    right_justify(dec_digits(n), 6) + seq!['\t']
}

pub open spec fn number_lines_rec(ls: Seq<Seq<char>>, k: nat) -> Seq<Seq<char>>
    decreases ls.len(),
{
    if ls.len() == 0 {
        Seq::empty()
    } else {
        seq![num_prefix(k) + ls[0]] + number_lines_rec(ls.drop_first(), k + 1)
    }
}

pub open spec fn number_lines_spec(s: Seq<char>) -> Seq<char> {
    join_char(number_lines_rec(lines_spec(s), 1), '\n')
}

/// Numbers every line, starting at one.
pub fn number_lines(content: &str) -> (r: String)
    ensures
        r@ == number_lines_spec(content@),
{
    let lines = split_lines(content);
    let mut numbered: Vec<String> = Vec::new();
    proof {
        assert(lines.deep_view().skip(0) =~= lines.deep_view());
        assert(numbered.deep_view() =~= Seq::<Seq<char>>::empty());
    }
    let mut i: usize = 0;
    while i < lines.len()
        invariant
            i <= lines.len(),
            numbered.deep_view() + number_lines_rec(lines.deep_view().skip(i as int), (i + 1) as nat)
                == number_lines_rec(lines.deep_view(), 1),
        decreases lines.len() - i,
    {
        let ghost rest = lines.deep_view().skip(i as int);
        let ghost prev = numbered.deep_view();
        assert(rest[0] == lines.deep_view()[i as int]);
        let mut row = fmt_usize_padded(i + 1, 6);
        push_char(&mut row, '\t');
        row.append(lines[i].as_str());
        proof {
            assert(row@ =~= num_prefix((i + 1) as nat) + rest[0]);
        }
        numbered.push(row);
        proof {
            assert(numbered.deep_view() =~= prev.push(num_prefix((i + 1) as nat) + rest[0]));
            assert(rest.drop_first() =~= lines.deep_view().skip(i + 1));
            assert(prev + (seq![num_prefix((i + 1) as nat) + rest[0]] + number_lines_rec(
                rest.drop_first(),
                (i + 2) as nat,
            )) =~= numbered.deep_view() + number_lines_rec(rest.drop_first(), (i + 2) as nat));
        }
        i += 1;
    }
    proof {
        assert(lines.deep_view().skip(lines.len() as int).len() == 0);
        assert(numbered.deep_view() + Seq::<Seq<char>>::empty() =~= numbered.deep_view());
    }
    join_with_char(&numbered, '\n')
}

/// Numbering that skips blank lines without consuming a number.
pub open spec fn number_nonblank_rec(ls: Seq<Seq<char>>, k: nat) -> Seq<Seq<char>>
    decreases ls.len(),
{
    if ls.len() == 0 {
        Seq::empty()
    } else if is_blank_seq(ls[0]) {
        seq![ls[0]] + number_nonblank_rec(ls.drop_first(), k)
    } else {
        seq![num_prefix(k) + ls[0]] + number_nonblank_rec(ls.drop_first(), k + 1)
    }
}

pub open spec fn number_nonblank_spec(s: Seq<char>) -> Seq<char> {
    join_char(number_nonblank_rec(lines_spec(s), 1), '\n')
}

/// Numbers only the lines with non-blank content; blank lines pass
/// through unchanged and unnumbered.
pub fn number_nonblank_lines(content: &str) -> (r: String)
    ensures
        r@ == number_nonblank_spec(content@),
{
    let lines = split_lines(content);
    let mut numbered: Vec<String> = Vec::new();
    let mut numbered_count: usize = 0;
    proof {
        assert(lines.deep_view().skip(0) =~= lines.deep_view());
        assert(numbered.deep_view() =~= Seq::<Seq<char>>::empty());
    }
    let mut i: usize = 0;
    while i < lines.len()
        invariant
            i <= lines.len(),
            numbered_count <= i,
            numbered.deep_view() + number_nonblank_rec(
                lines.deep_view().skip(i as int),
                (numbered_count + 1) as nat,
            ) == number_nonblank_rec(lines.deep_view(), 1),
        decreases lines.len() - i,
    {
        let ghost rest = lines.deep_view().skip(i as int);
        let ghost prev = numbered.deep_view();
        assert(rest[0] == lines.deep_view()[i as int]);
        if is_blank_str(lines[i].as_str()) {
            numbered.push(lines[i].clone());
            proof {
                assert(numbered.deep_view() =~= prev.push(rest[0]));
                assert(prev + (seq![rest[0]] + number_nonblank_rec(
                    rest.drop_first(),
                    (numbered_count + 1) as nat,
                )) =~= numbered.deep_view() + number_nonblank_rec(
                    rest.drop_first(),
                    (numbered_count + 1) as nat,
                ));
            }
        } else {
            let mut row = fmt_usize_padded(numbered_count + 1, 6);
            push_char(&mut row, '\t');
            row.append(lines[i].as_str());
            proof {
                assert(row@ =~= num_prefix((numbered_count + 1) as nat) + rest[0]);
            }
            numbered.push(row);
            proof {
                assert(numbered.deep_view() =~= prev.push(
                    num_prefix((numbered_count + 1) as nat) + rest[0],
                ));
                assert(prev + (seq![num_prefix((numbered_count + 1) as nat) + rest[0]]
                    + number_nonblank_rec(rest.drop_first(), (numbered_count + 2) as nat)) =~=
                numbered.deep_view() + number_nonblank_rec(
                    rest.drop_first(),
                    (numbered_count + 2) as nat,
                ));
            }
            numbered_count += 1;
        }
        proof {
            assert(rest.drop_first() =~= lines.deep_view().skip(i + 1));
        }
        i += 1;
    }
    proof {
        assert(lines.deep_view().skip(lines.len() as int).len() == 0);
        assert(numbered.deep_view() + Seq::<Seq<char>>::empty() =~= numbered.deep_view());
    }
    join_with_char(&numbered, '\n')
}

// --- the composed pipeline ---

/// The whole pipeline: squeeze first, then character rendering, then
/// tab and end markers when the rendering stage did not already cover
/// them, and numbering last.  Non-blank numbering wins over full
/// numbering when both are requested.
pub open spec fn apply_options_spec(s: Seq<char>, o: CatOptions) -> Seq<char> {
    let t1 = if o.squeeze_blank {
        squeeze_spec(s)
    } else {
        s
    };
    let t2 = if o.show_nonprinting {
        show_nonprinting_spec(t1, o.show_tabs, o.show_ends)
    } else {
        t1
    };
    let t3 = if o.show_tabs && !o.show_nonprinting {
        replace_tabs_rec(t2)
    } else {
        t2
    };
    let t4 = if o.show_ends && !o.show_nonprinting {
        show_ends_spec(t3)
    } else {
        t3
    };
    if o.number_nonblank {
        number_nonblank_spec(t4)
    } else if o.number {
        number_lines_spec(t4)
    } else {
        t4
    }
}

/// Applies the requested transformations to the text, in the fixed
/// stage order.
pub fn apply_options(content: &str, options: &CatOptions) -> (r: String)
    ensures
        r@ == apply_options_spec(content@, *options),
{
    let mut result = String::from_str(content);
    if options.squeeze_blank {
        result = squeeze_blank_lines(result.as_str());
    }
    if options.show_nonprinting {
        result = show_nonprinting_chars(result.as_str(), options.show_tabs, options.show_ends);
    }
    if options.show_tabs && !options.show_nonprinting {
        result = show_tabs(result.as_str());
    }
    if options.show_ends && !options.show_nonprinting {
        result = show_ends(result.as_str());
    }
    if options.number_nonblank {
        result = number_nonblank_lines(result.as_str());
    } else if options.number {
        result = number_lines(result.as_str());
    }
    result
}

// --- laws ---

/// Option tokens applied one after another, left to right.
pub open spec fn cat_fold_singles(cs: Seq<char>, o: CatOptions) -> CatOptions
    decreases cs.len(),
{
    if cs.len() == 0 {
        o
    } else {
        cat_fold_singles(cs.drop_first(), cat_option_spec(seq!['-', cs[0]], o))
    }
}

#[verifier::rlimit(60)]
proof fn lemma_cat_single_char(c: char, o: CatOptions)
    ensures
        cat_option_spec(seq!['-', c], o) == cat_short(o, c),
{
    reveal_strlit("-A");
    reveal_strlit("--show-all");
    reveal_strlit("-b");
    reveal_strlit("--number-nonblank");
    reveal_strlit("-e");
    reveal_strlit("-E");
    reveal_strlit("--show-ends");
    reveal_strlit("-n");
    reveal_strlit("--number");
    reveal_strlit("-s");
    reveal_strlit("--squeeze-blank");
    reveal_strlit("-T");
    reveal_strlit("--show-tabs");
    reveal_strlit("-v");
    reveal_strlit("--show-nonprinting");
    let t = seq!['-', c];
    assert(t.len() == 2);
    if c == 'A' {
        assert(t =~= "-A"@);
    } else if c == 'b' {
        assert(t =~= "-b"@);
    } else if c == 'e' {
        assert(t =~= "-e"@);
    } else if c == 'E' {
        assert(t =~= "-E"@);
    } else if c == 'n' {
        assert(t =~= "-n"@);
    } else if c == 's' {
        assert(t =~= "-s"@);
    } else if c == 'T' {
        assert(t =~= "-T"@);
    } else if c == 'v' {
        assert(t =~= "-v"@);
    } else {
        assert(t != "-A"@ && t != "-b"@ && t != "-e"@ && t != "-E"@ && t != "-n"@ && t != "-s"@ && t
            != "-T"@ && t != "-v"@);
        assert(!is_combined_opt(t));
    }
}

proof fn lemma_cat_combined_fold(cs: Seq<char>, o: CatOptions)
    ensures
        cat_combined(o, cs) == cat_fold_singles(cs, o),
    decreases cs.len(),
{
    if cs.len() > 0 {
        lemma_cat_single_char(cs[0], o);
        lemma_cat_combined_fold(cs.drop_first(), cat_short(o, cs[0]));
    }
}

/// A combined short option, such as three letters behind one dash,
/// yields exactly the flag set of the same letters given as separate
/// options, in the same order.
pub proof fn lemma_combined_equals_separate(cs: Seq<char>, o: CatOptions)
    requires
        cs.len() >= 2,
        cs[0] != '-',
    ensures
        cat_option_spec(seq!['-'] + cs, o) == cat_fold_singles(cs, o),
{
    reveal_strlit("-A");
    reveal_strlit("--show-all");
    reveal_strlit("-b");
    reveal_strlit("--number-nonblank");
    reveal_strlit("-e");
    reveal_strlit("-E");
    reveal_strlit("--show-ends");
    reveal_strlit("-n");
    reveal_strlit("--number");
    reveal_strlit("-s");
    reveal_strlit("--squeeze-blank");
    reveal_strlit("-T");
    reveal_strlit("--show-tabs");
    reveal_strlit("-v");
    reveal_strlit("--show-nonprinting");
    let t = seq!['-'] + cs;
    assert(t.len() >= 3);
    assert(t[0] == '-' && t[1] == cs[0]);
    assert(is_combined_opt(t));
    assert(t != "-A"@ && t != "-b"@ && t != "-e"@ && t != "-E"@ && t != "-n"@ && t != "-s"@ && t
        != "-T"@ && t != "-v"@);
    assert(t != "--show-all"@ && t != "--number-nonblank"@ && t != "--show-ends"@ && t
        != "--number"@ && t != "--squeeze-blank"@ && t != "--show-tabs"@ && t
        != "--show-nonprinting"@) by {
        assert(t[1] != '-');
        assert("--show-all"@[1] == '-' && "--number-nonblank"@[1] == '-' && "--show-ends"@[1] == '-'
            && "--number"@[1] == '-' && "--squeeze-blank"@[1] == '-' && "--show-tabs"@[1] == '-'
            && "--show-nonprinting"@[1] == '-');
    }
    assert(t.skip(1) =~= cs);
    lemma_cat_combined_fold(cs, o);
}

/// When caret rendering runs, the later tab and end-marker stages are
/// skipped: the pipeline marks tabs and line ends at most once.
pub proof fn lemma_pipeline_single_rendering(s: Seq<char>, o: CatOptions)
    requires
        o.show_nonprinting,
    ensures
        ({
            let t1 = if o.squeeze_blank {
                squeeze_spec(s)
            } else {
                s
            };
            let t2 = show_nonprinting_spec(t1, o.show_tabs, o.show_ends);
            apply_options_spec(s, o) == if o.number_nonblank {
                number_nonblank_spec(t2)
            } else if o.number {
                number_lines_spec(t2)
            } else {
                t2
            }
        }),
{
}

/// Caret rendering with tab marking leaves no raw tab character
/// behind: every tab became the two characters `^I`.
pub proof fn lemma_render_no_raw_tab(l: Seq<char>)
    ensures
        forall|i: int|
            0 <= i < render_chars(l, true).len() ==> #[trigger] render_chars(l, true)[i] != '\t',
    decreases l.len(),
{
    if l.len() > 0 {
        lemma_render_no_raw_tab(l.drop_first());
        let head = render_char(l[0], true);
        let tail = render_chars(l.drop_first(), true);
        assert(forall|i: int| 0 <= i < head.len() ==> #[trigger] head[i] != '\t') by {
            let u = l[0] as u32;
            if l[0] == '\t' {
            } else if u < 32 {
                assert(((u + 64) as u8) as char as u32 == u + 64);
            } else if u == 127 {
            }
        }
        assert forall|i: int| 0 <= i < render_chars(l, true).len() implies #[trigger] render_chars(
            l,
            true,
        )[i] != '\t' by {
            if i < head.len() {
                assert((head + tail)[i] == head[i]);
            } else {
                assert((head + tail)[i] == tail[i - head.len()]);
            }
        }
    }
}

// --- pipe simulation ---

/// Whether a pipe line is well formed for the display utility:
/// exactly one `|`, an `echo` command on the left and a `cat` command
/// on the right, both sides trimmed before tokenizing.
pub open spec fn cat_pipe_ok(input: Seq<char>) -> bool {
    let parts = split_char(input, '|');
    parts.len() == 2 && {
        let echo_toks = tokenize_spec(trim_spec(parts[0]));
        let cat_toks = tokenize_spec(trim_spec(parts[1]));
        echo_toks.len() > 0 && echo_toks[0] == "echo"@ && cat_toks.len() > 0 && cat_toks[0]
            == "cat"@
    }
}

/// The output of a well-formed pipe line: the words after `echo`,
/// joined by single spaces and escape-decoded, run through the
/// pipeline with the options parsed after `cat`.
pub open spec fn cat_pipe_out(input: Seq<char>) -> Seq<char> {
    let parts = split_char(input, '|');
    let echo_toks = tokenize_spec(trim_spec(parts[0]));
    let cat_toks = tokenize_spec(trim_spec(parts[1]));
    let text = unescape_spec(join_char(echo_toks.drop_first(), ' '));
    let opts = cat_parse_args_spec(cat_toks.drop_first()).0;
    apply_options_spec(text, opts)
}

/// Runs one `echo [words] | cat [options]` line and returns what the
/// display utility would print; any malformed shape is a syntax
/// error.
pub fn process_piped_command(input: &str) -> (r: Result<String, UtilError>)
    ensures
        cat_pipe_ok(input@) ==> (r matches Ok(out) && out@ == cat_pipe_out(input@)),
        !cat_pipe_ok(input@) ==> (r matches Err(e) && e == UtilError::SyntaxError),
{
    let parts = split_on_char(input, '|');
    if parts.len() != 2 {
        return Err(UtilError::SyntaxError);
    }
    assert(parts.deep_view()[0] == parts@[0]@ && parts.deep_view()[1] == parts@[1]@);
    let echo_part = trim_str(parts[0].as_str());
    let cat_part = trim_str(parts[1].as_str());
    let echo_toks = parse_command_line(echo_part.as_str());
    if echo_toks.len() == 0 {
        return Err(UtilError::SyntaxError);
    }
    assert(echo_toks.deep_view()[0] == echo_toks@[0]@);
    if !str_eq(echo_toks[0].as_str(), "echo") {
        return Err(UtilError::SyntaxError);
    }
    let cat_toks = parse_command_line(cat_part.as_str());
    if cat_toks.len() == 0 {
        return Err(UtilError::SyntaxError);
    }
    assert(cat_toks.deep_view()[0] == cat_toks@[0]@);
    if !str_eq(cat_toks[0].as_str(), "cat") {
        return Err(UtilError::SyntaxError);
    }
    let mut words: Vec<String> = Vec::new();
    proof {
        assert(words.deep_view() =~= echo_toks.deep_view().subrange(1, 1));
    }
    let mut j: usize = 1;
    while j < echo_toks.len()
        invariant
            1 <= j <= echo_toks.len(),
            words.deep_view() == echo_toks.deep_view().subrange(1, j as int),
        decreases echo_toks.len() - j,
    {
        let ghost prev = words.deep_view();
        words.push(echo_toks[j].clone());
        proof {
            assert(words.deep_view() =~= prev.push(echo_toks.deep_view()[j as int]));
            assert(echo_toks.deep_view().subrange(1, j + 1) =~= prev.push(
                echo_toks.deep_view()[j as int],
            ));
        }
        j += 1;
    }
    proof {
        assert(echo_toks.deep_view().subrange(1, echo_toks.len() as int) =~=
        echo_toks.deep_view().drop_first());
    }
    let stdin_text = join_with_char(&words, ' ');
    let text = unescape(stdin_text.as_str());
    let mut cat_args: Vec<String> = Vec::new();
    proof {
        assert(cat_args.deep_view() =~= cat_toks.deep_view().subrange(1, 1));
    }
    let mut k: usize = 1;
    while k < cat_toks.len()
        invariant
            1 <= k <= cat_toks.len(),
            cat_args.deep_view() == cat_toks.deep_view().subrange(1, k as int),
        decreases cat_toks.len() - k,
    {
        let ghost prev = cat_args.deep_view();
        cat_args.push(cat_toks[k].clone());
        proof {
            assert(cat_args.deep_view() =~= prev.push(cat_toks.deep_view()[k as int]));
            assert(cat_toks.deep_view().subrange(1, k + 1) =~= prev.push(
                cat_toks.deep_view()[k as int],
            ));
        }
        k += 1;
    }
    proof {
        assert(cat_toks.deep_view().subrange(1, cat_toks.len() as int) =~=
        cat_toks.deep_view().drop_first());
    }
    let (options, _file) = parse_arguments(&cat_args);
    let out = apply_options(text.as_str(), &options);
    Ok(out)
}

} // verus!
