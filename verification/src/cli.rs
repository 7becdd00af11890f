//! Command-line interpretation: git ranges, the input mode that the path
//! arguments select, ignore globs, and the editor command and arguments
//! used to open a file at a line.

use vstd::prelude::*;
use crate::text::strings_view;
use crate::multi::{DirectoryScanOptions, GitDiffMode, GitDiffModeModel};
use crate::text::{
    chars_of, chars_contain, contains_seq, decimal, decimal_chars, has_prefix_at, slice_chars,
    split_chars, split_on, chars_view, string_from_chars, trim, trim_chars,
};

verus! {

// ---------------------------------------------------------------------------
// Git ranges.
// ---------------------------------------------------------------------------

/// A range argument that is not of the form `A..B` or `A...B`.
#[derive(Debug, Clone, Copy, PartialEq, Eq, Structural)]
pub struct RangeError;

impl RangeError {
    /// The message shown for this error.
    pub fn message(&self) -> (r: String)
        ensures
            r@ == "Range must be in the form A..B or A...B"@,
    {
        "Range must be in the form A..B or A...B".to_owned()
    }
}

/// `pat` occurs in `s` at index `i`.
pub open spec fn occurs_at(s: Seq<char>, pat: Seq<char>, i: int) -> bool {
    0 <= i && i + pat.len() <= s.len() && s.subrange(i, i + pat.len()) == pat
}

/// The first index at or after `i` where `pat` occurs in `s`.
pub open spec fn find_from(s: Seq<char>, pat: Seq<char>, i: int) -> Option<int>
    decreases s.len() + 1 - i,
{
    if i < 0 || i + pat.len() > s.len() {
        None
    } else if occurs_at(s, pat, i) {
        Some(i)
    } else {
        find_from(s, pat, i + 1)
    }
}

/// The two sides of the first `sep` in `s` (`str::split_once`).
pub open spec fn split_once(s: Seq<char>, sep: Seq<char>) -> Option<(Seq<char>, Seq<char>)> {
    match find_from(s, sep, 0) {
        Some(i) => Some((s.take(i), s.skip(i + sep.len()))),
        None => None,
    }
}

/// `from` and `to` form a valid range: both present and `to` holding no
/// further `..`.
pub open spec fn range_sides_ok(from: Seq<char>, to: Seq<char>) -> bool {
    from.len() > 0 && to.len() > 0 && !contains_seq(to, seq!['.', '.'])
}

/// The bounds of a range written `A...B`, or else `A..B`.
pub open spec fn parse_range_spec(range: Seq<char>) -> Option<(Seq<char>, Seq<char>)> {
    match split_once(range, seq!['.', '.', '.']) {
        Some((from, to)) => if range_sides_ok(from, to) {
            Some((from, to))
        } else {
            None
        },
        None => match split_once(range, seq!['.', '.']) {
            Some((from, to)) => if range_sides_ok(from, to) {
                Some((from, to))
            } else {
                None
            },
            None => None,
        },
    }
}

/// The first index where `pat` occurs in `s`.
fn find_chars(s: &Vec<char>, pat: &Vec<char>) -> (r: Option<usize>)
    requires
        pat.len() > 0,
    ensures
        match r {
            Some(i) => find_from(s@, pat@, 0) == Some(i as int),
            None => find_from(s@, pat@, 0) is None,
        },
{
    let mut i: usize = 0;
    while i < s.len()
        invariant
            0 <= i <= s.len(),
            pat.len() > 0,
            find_from(s@, pat@, 0) == find_from(s@, pat@, i as int),
        decreases s.len() - i,
    {
        if has_prefix_at(s.as_slice(), i, pat.as_slice()) {
            return Some(i);
        }
        i = i + 1;
    }
    None
}

fn dots(n: usize) -> (v: Vec<char>)
    ensures
        n == 2 ==> v@ == seq!['.', '.'],
        n == 3 ==> v@ == seq!['.', '.', '.'],
        v@.len() == n,
{
    let mut v: Vec<char> = Vec::new();
    let mut i: usize = 0;
    while i < n
        invariant
            0 <= i <= n,
            v@.len() == i,
            forall|j: int| 0 <= j < i ==> v@[j] == '.',
        decreases n - i,
    {
        v.push('.');
        i = i + 1;
    }
    proof {
        if n == 2 {
            assert(v@ =~= seq!['.', '.']);
        }
        if n == 3 {
            assert(v@ =~= seq!['.', '.', '.']);
        }
    }
    v
}

fn split_once_chars(s: &Vec<char>, sep: &Vec<char>) -> (r: Option<(Vec<char>, Vec<char>)>)
    requires
        sep.len() > 0,
    ensures
        match r {
            Some((a, b)) => split_once(s@, sep@) == Some((a@, b@)),
            None => split_once(s@, sep@) is None,
        },
{
    match find_chars(s, sep) {
        Some(i) => {
            proof {
                lemma_find_from_bounds(s@, sep@, 0);
                assert(find_from(s@, sep@, 0) == Some(i as int));
                assert(i + sep@.len() <= s@.len());
            }
            assert(i + sep.len() <= s.len());
            let a = slice_chars(s.as_slice(), 0, i);
            let b = slice_chars(s.as_slice(), i + sep.len(), s.len());
            assert(a@ =~= s@.take(i as int));
            assert(b@ =~= s@.skip(i + sep.len()));
            Some((a, b))
        },
        None => None,
    }
}

proof fn lemma_find_from_bounds(s: Seq<char>, pat: Seq<char>, i: int)
    ensures
        find_from(s, pat, i) is Some ==> i <= find_from(s, pat, i)->0 && find_from(s, pat, i)->0
            + pat.len() <= s.len(),
    decreases s.len() + 1 - i,
{
    if !(i < 0 || i + pat.len() > s.len()) && !occurs_at(s, pat, i) {
        lemma_find_from_bounds(s, pat, i + 1);
    }
}

fn sides_ok(from: &Vec<char>, to: &Vec<char>) -> (r: bool)
    ensures
        r == range_sides_ok(from@, to@),
{
    let dd = dots(2);
    from.len() > 0 && to.len() > 0 && !chars_contain(to.as_slice(), dd.as_slice())
}

/// Parses a git range `A..B` or `A...B` into its two bounds.
pub fn parse_range(range: &str) -> (r: Result<(String, String), RangeError>)
    ensures
        match r {
            Ok((from, to)) => parse_range_spec(range@) == Some((from@, to@)),
            Err(_) => parse_range_spec(range@) is None,
        },
{
    let s = chars_of(range);
    let three = dots(3);
    if let Some((from, to)) = split_once_chars(&s, &three) {
        if !sides_ok(&from, &to) {
            return Err(RangeError);
        }
        return Ok((string_from_chars(from.as_slice()), string_from_chars(to.as_slice())));
    }
    let two = dots(2);
    if let Some((from, to)) = split_once_chars(&s, &two) {
        if !sides_ok(&from, &to) {
            return Err(RangeError);
        }
        return Ok((string_from_chars(from.as_slice()), string_from_chars(to.as_slice())));
    }
    Err(RangeError)
}

/// The word `INDEX`, which stands for the git index in a range.
pub open spec fn index_ref() -> Seq<char> {
    seq!['I', 'N', 'D', 'E', 'X']
}

/// The git mode that a range `from..to` selects: `INDEX` as its end compares
/// the start commit against the index; `INDEX` as its start compares the
/// index against the end commit; anything else compares two commits.
pub open spec fn range_mode_spec(from: Seq<char>, to: Seq<char>) -> GitDiffModeModel {
    if to == index_ref() {
        GitDiffModeModel::IndexRange { from, to_index: true }
    } else if from == index_ref() {
        GitDiffModeModel::IndexRange { from: to, to_index: false }
    } else {
        GitDiffModeModel::Range { from, to }
    }
}

fn is_index_ref(s: &String) -> (r: bool)
    ensures
        r == (s@ == index_ref()),
{
    let c = chars_of(s.as_str());
    let r = c.len() == 5 && c[0] == 'I' && c[1] == 'N' && c[2] == 'D' && c[3] == 'E' && c[4] == 'X';
    proof {
        if c@.len() == 5 {
            if r {
                assert(c@ =~= index_ref());
            } else {
                assert(c@ != index_ref()) by {
                    if c@ == index_ref() {
                        assert(c@[0] == 'I' && c@[1] == 'N' && c@[2] == 'D' && c@[3] == 'E' && c@[4] == 'X');
                    }
                }
            }
        }
    }
    r
}

/// The git mode for the range `from..to`.
pub fn git_mode_for_range(from: String, to: String) -> (r: GitDiffMode)
    ensures
        r@ == range_mode_spec(from@, to@),
{
    if is_index_ref(&to) {
        GitDiffMode::IndexRange { from, to_index: true }
    } else if is_index_ref(&from) {
        GitDiffMode::IndexRange { from: to, to_index: false }
    } else {
        GitDiffMode::Range { from, to }
    }
}

// ---------------------------------------------------------------------------
// Input mode.
// ---------------------------------------------------------------------------

/// What the command line asks to compare.
#[derive(Debug)]
pub enum InputMode {
    /// Git external diff: path old-file old-hex old-mode new-file new-hex
    /// new-mode.
    GitExternal { display_path: String, old_file: String, new_file: String },
    /// Two files or directories to compare.
    TwoPaths { old_path: String, new_path: String },
    /// A single file compared against HEAD.
    GitFile { path: String },
    /// No arguments: the uncommitted changes of the current repository.
    GitUncommitted,
    /// Staged changes (index vs HEAD).
    GitStaged,
    /// A git range.
    GitRange { from: String, to: String },
    /// No valid input.
    NoInput,
}

/// The input mode that the path arguments select: seven arguments are a git
/// external diff call (the display path, then the old file second and the
/// new file fifth); two or more compare the first two; one compares a file
/// against HEAD; none look at the uncommitted changes.
pub open spec fn input_mode_spec(paths: Seq<String>, r: InputMode) -> bool {
    if paths.len() == 7 {
        r == InputMode::GitExternal {
            display_path: paths[0],
            old_file: paths[1],
            new_file: paths[4],
        }
    } else if paths.len() >= 2 {
        r == InputMode::TwoPaths { old_path: paths[0], new_path: paths[1] }
    } else if paths.len() == 1 {
        r == InputMode::GitFile { path: paths[0] }
    } else {
        r == InputMode::GitUncommitted
    }
}

/// Detects the input mode from the path arguments.
pub fn detect_input_mode(paths: &[String]) -> (r: InputMode)
    ensures
        input_mode_spec(paths@, r),
{
    if paths.len() == 7 {
        InputMode::GitExternal {
            display_path: paths[0].clone(),
            old_file: paths[1].clone(),
            new_file: paths[4].clone(),
        }
    } else if paths.len() >= 2 {
        InputMode::TwoPaths { old_path: paths[0].clone(), new_path: paths[1].clone() }
    } else if paths.len() == 1 {
        InputMode::GitFile { path: paths[0].clone() }
    } else {
        InputMode::GitUncommitted
    }
}

// ---------------------------------------------------------------------------
// Ignore globs.
// ---------------------------------------------------------------------------

/// The trimmed, non-empty pieces of `pieces`, in order.
pub open spec fn kept_globs(pieces: Seq<Seq<char>>) -> Seq<Seq<char>>
    decreases pieces.len(),
{
    if pieces.len() == 0 {
        Seq::empty()
    } else {
        let rest = kept_globs(pieces.drop_last());
        if trim(pieces.last()).len() > 0 {
            rest.push(trim(pieces.last()))
        } else {
            rest
        }
    }
}

/// The globs of a list of pipe-separated glob arguments: every piece
/// between `|`, trimmed, empty ones dropped, in order.
pub open spec fn split_globs_spec(values: Seq<Seq<char>>) -> Seq<Seq<char>>
    decreases values.len(),
{
    if values.len() == 0 {
        Seq::empty()
    } else {
        split_globs_spec(values.drop_last()) + kept_globs(split_on(values.last(), '|'))
    }
}

/// Splits pipe-separated glob arguments into single globs.
pub fn split_ignore_globs(values: &[String]) -> (r: Vec<String>)
    ensures
        strings_view(r@) == split_globs_spec(strings_view(values@)),
{
    let ghost vs = strings_view(values@);
    let mut out: Vec<String> = Vec::new();
    let mut i: usize = 0;
    assert(vs.take(0) =~= Seq::<Seq<char>>::empty());
    while i < values.len()
        invariant
            0 <= i <= values.len(),
            vs == strings_view(values@),
            strings_view(out@) == split_globs_spec(vs.take(i as int)),
        decreases values.len() - i,
    {
        let chars = chars_of(values[i].as_str());
        let pieces = split_chars(chars.as_slice(), '|');
        let ghost ps = chars_view(pieces@);
        let ghost start = strings_view(out@);
        let mut k: usize = 0;
        assert(ps.take(0) =~= Seq::<Seq<char>>::empty());
        while k < pieces.len()
            invariant
                0 <= k <= pieces.len(),
                ps == chars_view(pieces@),
                strings_view(out@) == start + kept_globs(ps.take(k as int)),
            decreases pieces.len() - k,
        {
            let t = trim_chars(pieces[k].as_slice());
            assert(ps.take(k + 1).drop_last() =~= ps.take(k as int));
            assert(ps.take(k + 1).last() == pieces@[k as int]@);
            if t.len() > 0 {
                let ghost before = out@;
                out.push(string_from_chars(t.as_slice()));
                assert(strings_view(out@) =~= strings_view(before).push(t@));
            }
            k = k + 1;
        }
        assert(ps.take(pieces.len() as int) =~= ps);
        assert(vs.take(i + 1).drop_last() =~= vs.take(i as int));
        assert(vs.take(i + 1).last() == values@[i as int]@);
        i = i + 1;
    }
    assert(vs.take(values.len() as int) =~= vs);
    out
}

// ---------------------------------------------------------------------------
// Editor.
// ---------------------------------------------------------------------------

/// How to open a file in an external editor.
#[derive(Debug)]
pub struct EditorConfig {
    /// Editor command (else `$VISUAL`, `$EDITOR`, then `vi`).
    pub command: Option<String>,
    /// Argument templates, with `{file}` and `{line}` replaced.
    pub args: Option<Vec<String>>,
    /// Pass `+<line>` before the file when no templates are given.
    pub open_at_line: bool,
}

impl Default for EditorConfig {
    fn default() -> (r: Self)
        ensures
            r.command is None,
            r.args is None,
            r.open_at_line,
    {
        EditorConfig { command: None, args: None, open_at_line: true }
    }
}

/// `s` with every occurrence of `pat` (non-empty), scanned left to right
/// without overlaps, replaced by `with` (`str::replace`).
pub open spec fn replace_all(s: Seq<char>, pat: Seq<char>, with: Seq<char>) -> Seq<char>
    decreases s.len(),
{
    if s.len() == 0 || pat.len() == 0 {
        s
    } else if pat.len() <= s.len() && s.take(pat.len() as int) == pat {
        with + replace_all(s.skip(pat.len() as int), pat, with)
    } else {
        seq![s[0]] + replace_all(s.drop_first(), pat, with)
    }
}

fn replace_chars(s: &Vec<char>, pat: &Vec<char>, with: &Vec<char>) -> (r: Vec<char>)
    requires
        pat.len() > 0,
    ensures
        r@ == replace_all(s@, pat@, with@),
{
    let mut out: Vec<char> = Vec::new();
    let mut i: usize = 0;
    assert(s@.skip(0) =~= s@);
    while i < s.len()
        invariant
            0 <= i <= s.len(),
            pat.len() > 0,
            out@ + replace_all(s@.skip(i as int), pat@, with@) == replace_all(s@, pat@, with@),
        decreases s.len() - i,
    {
        let ghost rest = s@.skip(i as int);
        if has_prefix_at(s.as_slice(), i, pat.as_slice()) {
            assert(rest.take(pat.len() as int) =~= s@.subrange(i as int, i + pat.len()));
            assert(rest.skip(pat.len() as int) =~= s@.skip(i + pat.len()));
            let mut k: usize = 0;
            let ghost o0 = out@;
            while k < with.len()
                invariant
                    0 <= k <= with.len(),
                    out@ == o0 + with@.take(k as int),
                decreases with.len() - k,
            {
                out.push(with[k]);
                assert(with@.take(k + 1) =~= with@.take(k as int).push(with@[k as int]));
                k = k + 1;
            }
            assert(with@.take(with.len() as int) =~= with@);
            assert(o0 + (with@ + replace_all(s@.skip(i + pat.len()), pat@, with@)) =~= out@ + replace_all(
                s@.skip(i + pat.len()),
                pat@,
                with@,
            ));
            i = i + pat.len();
        } else {
            proof {
                if pat.len() <= rest.len() && rest.take(pat.len() as int) == pat@ {
                    assert(s@.subrange(i as int, i + pat.len()) =~= rest.take(pat.len() as int));
                }
            }
            assert(rest.drop_first() =~= s@.skip(i + 1));
            let ghost o0 = out@;
            out.push(s[i]);
            assert(o0 + (seq![s@[i as int]] + replace_all(s@.skip(i + 1), pat@, with@)) =~= out@ + replace_all(
                s@.skip(i + 1),
                pat@,
                with@,
            ));
            i = i + 1;
        }
    }
    assert(s@.skip(s.len() as int) =~= Seq::<char>::empty());
    assert(out@ + Seq::<char>::empty() =~= out@);
    out
}

/// The text of `{file}`.
pub open spec fn file_placeholder() -> Seq<char> {
    seq!['{', 'f', 'i', 'l', 'e', '}']
}

/// The text of `{line}`.
pub open spec fn line_placeholder() -> Seq<char> {
    seq!['{', 'l', 'i', 'n', 'e', '}']
}

/// An argument template with `{file}` replaced by the path, then `{line}` by
/// the line number (1 when there is none).
pub open spec fn render_template_spec(template: Seq<char>, line: Option<usize>, path: Seq<char>) -> Seq<char> {
    let l = match line {
        Some(n) => n,
        None => 1,
    };
    replace_all(replace_all(template, file_placeholder(), path), line_placeholder(), decimal(l as nat))
}

fn placeholder(file: bool) -> (v: Vec<char>)
    ensures
        file ==> v@ == file_placeholder(),
        !file ==> v@ == line_placeholder(),
{
    let mut v: Vec<char> = Vec::new();
    v.push('{');
    if file {
        v.push('f');
        v.push('i');
        v.push('l');
        v.push('e');
    } else {
        v.push('l');
        v.push('i');
        v.push('n');
        v.push('e');
    }
    v.push('}');
    proof {
        if file {
            assert(v@ =~= file_placeholder());
        } else {
            assert(v@ =~= line_placeholder());
        }
    }
    v
}

/// Renders one editor argument template.
pub fn render_editor_template(template: &str, line: Option<usize>, path: &str) -> (r: String)
    ensures
        r@ == render_template_spec(template@, line, path@),
{
    let l = match line {
        Some(n) => n,
        None => 1,
    };
    let t = chars_of(template);
    let p = chars_of(path);
    let digits = decimal_chars(l);
    let with_file = replace_chars(&t, &placeholder(true), &p);
    let with_line = replace_chars(&with_file, &placeholder(false), &digits);
    string_from_chars(with_line.as_slice())
}

/// The editor arguments: the templates rendered, when given; else `+<line>`
/// (when opening at a line and a line is known) followed by the path.
pub open spec fn editor_args_spec(config: EditorConfig, line: Option<usize>, path: Seq<char>) -> Seq<Seq<char>> {
    match config.args {
        Some(args) => Seq::new(
            args@.len(),
            |i: int| render_template_spec(args@[i]@, line, path),
        ),
        None => if config.open_at_line && line is Some {
            seq![seq!['+'] + decimal(line->0 as nat), path]
        } else {
            seq![path]
        },
    }
}

/// The arguments passed to the editor to open `path` at `line`.
pub fn render_editor_args(config: &EditorConfig, line: Option<usize>, path: &str) -> (r: Vec<String>)
    ensures
        strings_view(r@) == editor_args_spec(*config, line, path@),
{
    if let Some(args) = &config.args {
        let mut out: Vec<String> = Vec::new();
        let mut i: usize = 0;
        while i < args.len()
            invariant
                0 <= i <= args.len(),
                config.args == Some(*args),
                strings_view(out@) =~= Seq::new(
                    i as nat,
                    |j: int| render_template_spec(args@[j]@, line, path@),
                ),
            decreases args.len() - i,
        {
            let ghost before = out@;
            let rendered = render_editor_template(args[i].as_str(), line, path);
            out.push(rendered);
            assert(strings_view(out@) =~= strings_view(before).push(rendered@));
            i = i + 1;
        }
        return out;
    }
    let mut out: Vec<String> = Vec::new();
    if config.open_at_line {
        if let Some(l) = line {
            let mut plus: Vec<char> = Vec::new();
            plus.push('+');
            let digits = decimal_chars(l);
            let mut k: usize = 0;
            while k < digits.len()
                invariant
                    0 <= k <= digits.len(),
                    plus@ == seq!['+'] + digits@.take(k as int),
                decreases digits.len() - k,
            {
                plus.push(digits[k]);
                assert(digits@.take(k + 1) =~= digits@.take(k as int).push(digits@[k as int]));
                k = k + 1;
            }
            assert(digits@.take(digits.len() as int) =~= digits@);
            out.push(string_from_chars(plus.as_slice()));
        }
    }
    out.push(path.to_owned());
    assert(strings_view(out@) =~= editor_args_spec(*config, line, path@));
    out
}

/// Whether the editor needs the line of the cursor: when opening at a line,
/// or when a template mentions `{line}`.
pub open spec fn editor_needs_line_spec(config: EditorConfig) -> bool {
    config.open_at_line || (config.args is Some && mentions_line(config.args->0@))
}

/// Some template mentions `{line}`.
pub open spec fn mentions_line(args: Seq<String>) -> bool {
    exists|i: int| 0 <= i < args.len() && contains_seq(#[trigger] args[i]@, line_placeholder())
}

/// Whether opening the editor needs the cursor's line.
pub fn editor_needs_line(config: &EditorConfig) -> (r: bool)
    ensures
        r == editor_needs_line_spec(*config),
{
    if config.open_at_line {
        return true;
    }
    match &config.args {
        Some(args) => {
            let lp = placeholder(false);
            let mut i: usize = 0;
            while i < args.len()
                invariant
                    0 <= i <= args.len(),
                    config.args == Some(*args),
                    !config.open_at_line,
                    lp@ == line_placeholder(),
                    forall|j: int| 0 <= j < i ==> !contains_seq(#[trigger] args@[j]@, line_placeholder()),
                decreases args.len() - i,
            {
                let a = chars_of(args[i].as_str());
                if chars_contain(a.as_slice(), lp.as_slice()) {
                    assert(contains_seq(args@[i as int]@, line_placeholder()));
                    assert(mentions_line(args@));
                    return true;
                }
                i = i + 1;
            }
            false
        },
        None => false,
    }
}

/// A configured value, trimmed, when it is not blank.
pub open spec fn non_blank(v: Option<Seq<char>>) -> Option<Seq<char>> {
    match v {
        Some(s) => if trim(s).len() > 0 {
            Some(trim(s))
        } else {
            None
        },
        None => None,
    }
}

/// The view of an optional string.
pub open spec fn opt_view(o: Option<String>) -> Option<Seq<char>> {
    match o {
        Some(s) => Some(s@),
        None => None,
    }
}

/// The editor command: the configured one, else `$VISUAL`, else `$EDITOR`
/// (each trimmed and only when not blank), else `vi`.
pub open spec fn editor_command_spec(
    command: Option<Seq<char>>,
    visual: Option<Seq<char>>,
    editor: Option<Seq<char>>,
) -> Seq<char> {
    if non_blank(command) is Some {
        non_blank(command)->0
    } else if non_blank(visual) is Some {
        non_blank(visual)->0
    } else if non_blank(editor) is Some {
        non_blank(editor)->0
    } else {
        seq!['v', 'i']
    }
}

fn non_blank_of(v: &Option<String>) -> (r: Option<String>)
    ensures
        opt_view(r) == non_blank(opt_view(*v)),
{
    match v {
        Some(s) => {
            let c = chars_of(s.as_str());
            let t = trim_chars(c.as_slice());
            if t.len() > 0 {
                Some(string_from_chars(t.as_slice()))
            } else {
                None
            }
        },
        None => None,
    }
}

/// The editor command from the configuration and the values of `$VISUAL`
/// and `$EDITOR` (when set).
pub fn resolve_editor_command(config: &EditorConfig, visual: Option<String>, editor: Option<String>) -> (r: String)
    ensures
        r@ == editor_command_spec(opt_view(config.command), opt_view(visual), opt_view(editor)),
{
    if let Some(c) = non_blank_of(&config.command) {
        return c;
    }
    if let Some(v) = non_blank_of(&visual) {
        return v;
    }
    if let Some(e) = non_blank_of(&editor) {
        return e;
    }
    let mut vi: Vec<char> = Vec::new();
    vi.push('v');
    vi.push('i');
    assert(vi@ =~= seq!['v', 'i']);
    string_from_chars(vi.as_slice())
}

/// The normal components of a Unix path: its pieces between `/` other than
/// empty ones, `.` and `..`.
pub open spec fn normal_components(pieces: Seq<Seq<char>>) -> Seq<Seq<char>>
    decreases pieces.len(),
{
    if pieces.len() == 0 {
        Seq::empty()
    } else {
        let rest = normal_components(pieces.drop_last());
        let p = pieces.last();
        if p.len() == 0 || p == seq!['.'] || p == seq!['.', '.'] {
            rest
        } else {
            rest.push(p)
        }
    }
}

/// Pieces joined with `/` between them.
pub open spec fn join_slash(parts: Seq<Seq<char>>) -> Seq<char>
    decreases parts.len(),
{
    if parts.len() == 0 {
        Seq::empty()
    } else if parts.len() == 1 {
        parts[0]
    } else {
        join_slash(parts.drop_last()) + seq!['/'] + parts.last()
    }
}

/// The relative path under which a snapshot of `path` is written: its normal
/// components joined, or `file` when it has none.
pub open spec fn snapshot_rel_spec(path: Seq<char>) -> Seq<char> {
    let parts = normal_components(split_on(path, '/'));
    if parts.len() == 0 {
        seq!['f', 'i', 'l', 'e']
    } else {
        join_slash(parts)
    }
}

/// The relative path of the snapshot file written for `path`.
pub fn snapshot_rel_path(path: &str) -> (r: String)
    ensures
        r@ == snapshot_rel_spec(path@),
{
    let c = chars_of(path);
    let pieces = split_chars(c.as_slice(), '/');
    let ghost ps = chars_view(pieces@);
    let mut out: Vec<char> = Vec::new();
    let mut count: usize = 0;
    let mut k: usize = 0;
    assert(ps.take(0) =~= Seq::<Seq<char>>::empty());
    while k < pieces.len()
        invariant
            0 <= k <= pieces.len(),
            ps == chars_view(pieces@),
            count == normal_components(ps.take(k as int)).len(),
            out@ == join_slash(normal_components(ps.take(k as int))),
            count <= k,
        decreases pieces.len() - k,
    {
        let p = &pieces[k];
        assert(ps.take(k + 1).drop_last() =~= ps.take(k as int));
        assert(ps.take(k + 1).last() == p@);
        let skip = p.len() == 0 || (p.len() == 1 && p[0] == '.') || (p.len() == 2 && p[0] == '.' && p[1]
            == '.');
        proof {
            if p@.len() == 1 && p@[0] == '.' {
                assert(p@ =~= seq!['.']);
            }
            if p@.len() == 2 && p@[0] == '.' && p@[1] == '.' {
                assert(p@ =~= seq!['.', '.']);
            }
        }
        if !skip {
            let ghost before = out@;
            if count > 0 {
                out.push('/');
            }
            let mut j: usize = 0;
            let ghost mid = out@;
            while j < p.len()
                invariant
                    0 <= j <= p.len(),
                    out@ == mid + p@.take(j as int),
                decreases p.len() - j,
            {
                out.push(p[j]);
                assert(p@.take(j + 1) =~= p@.take(j as int).push(p@[j as int]));
                j = j + 1;
            }
            assert(p@.take(p.len() as int) =~= p@);
            count = count + 1;
            proof {
                let parts = normal_components(ps.take(k + 1));
                assert(parts == normal_components(ps.take(k as int)).push(p@));
                assert(parts.drop_last() =~= normal_components(ps.take(k as int)));
                if count == 1 {
                    assert(out@ =~= join_slash(parts));
                } else {
                    assert(out@ =~= join_slash(parts));
                }
            }
        }
        k = k + 1;
    }
    assert(ps.take(pieces.len() as int) =~= ps);
    if count == 0 {
        let mut f: Vec<char> = Vec::new();
        f.push('f');
        f.push('i');
        f.push('l');
        f.push('e');
        assert(f@ =~= seq!['f', 'i', 'l', 'e']);
        return string_from_chars(f.as_slice());
    }
    string_from_chars(out.as_slice())
}

// ---------------------------------------------------------------------------
// Options of a directory scan.
// ---------------------------------------------------------------------------

/// Whether a directory scan honours `.gitignore` files, as configured.
#[derive(Debug, Clone, Copy, PartialEq, Eq, Structural)]
pub enum GitIgnoreMode {
    /// Honour them, except when comparing the two directories that jj
    /// hands an external diff tool.
    Auto,
    On,
    Off,
}

/// Whether the scan honours `.gitignore` files: as configured (in auto mode
/// unless the directories come from jj), then `--git-ignore` turns it on and
/// `--no-git-ignore` off, the latter winning.
pub open spec fn scan_git_ignore_spec(mode: GitIgnoreMode, vcs_external_diff: bool, arg_on: bool, arg_off: bool) -> bool {
    if arg_off {
        false
    } else if arg_on {
        true
    } else {
        match mode {
            GitIgnoreMode::Auto => !vcs_external_diff,
            GitIgnoreMode::On => true,
            GitIgnoreMode::Off => false,
        }
    }
}

/// The options of a directory scan: whether it honours `.gitignore` files
/// (see [`scan_git_ignore_spec`]) and the globs it skips, the configured
/// ones followed by those given as arguments, split at `|`.
pub fn directory_scan_options(
    mode: GitIgnoreMode,
    config_globs: &[String],
    vcs_external_diff: bool,
    arg_git_ignore: bool,
    arg_no_git_ignore: bool,
    arg_globs: &[String],
) -> (r: DirectoryScanOptions)
    ensures
        r.git_ignore == scan_git_ignore_spec(mode, vcs_external_diff, arg_git_ignore, arg_no_git_ignore),
        strings_view(r.ignore_globs@) == strings_view(config_globs@) + split_globs_spec(strings_view(arg_globs@)),
{
    let mut git_ignore = match mode {
        GitIgnoreMode::Auto => !vcs_external_diff,
        GitIgnoreMode::On => true,
        GitIgnoreMode::Off => false,
    };
    if arg_git_ignore {
        git_ignore = true;
    }
    if arg_no_git_ignore {
        git_ignore = false;
    }
    let mut ignore_globs: Vec<String> = Vec::new();
    let mut i: usize = 0;
    while i < config_globs.len()
        invariant
            0 <= i <= config_globs.len(),
            strings_view(ignore_globs@) == strings_view(config_globs@).take(i as int),
        decreases config_globs.len() - i,
    {
        let ghost before = ignore_globs@;
        ignore_globs.push(config_globs[i].clone());
        assert(strings_view(ignore_globs@) =~= strings_view(before).push(config_globs@[i as int]@));
        assert(strings_view(config_globs@).take(i + 1) =~= strings_view(config_globs@).take(i as int).push(
            config_globs@[i as int]@,
        ));
        i = i + 1;
    }
    assert(strings_view(config_globs@).take(i as int) =~= strings_view(config_globs@));
    let extra = split_ignore_globs(arg_globs);
    let ghost base = ignore_globs@;
    let mut j: usize = 0;
    while j < extra.len()
        invariant
            0 <= j <= extra.len(),
            strings_view(ignore_globs@) == strings_view(base) + strings_view(extra@).take(j as int),
        decreases extra.len() - j,
    {
        let ghost before = ignore_globs@;
        ignore_globs.push(extra[j].clone());
        assert(strings_view(ignore_globs@) =~= strings_view(before).push(extra@[j as int]@));
        assert(strings_view(extra@).take(j + 1) =~= strings_view(extra@).take(j as int).push(extra@[j as int]@));
        j = j + 1;
    }
    assert(strings_view(extra@).take(j as int) =~= strings_view(extra@));
    DirectoryScanOptions { git_ignore, ignore_globs }
}

} // verus!
