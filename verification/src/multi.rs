//! Multi-file diff sessions: the files of a diff, their contents, the
//! readiness of each file's diff, file selection, and the paths and blame
//! sources of each side.

use vstd::prelude::*;
use vstd::utf8::{valid_utf8, decode_utf8, encode_utf8};
use vstd::multiset::Multiset;
use crate::diff::{
    changes_view, context_only_diff, context_only_spec, ChangeModel, diff_lines, diff_lines_spec, DiffNavigator,
    DiffResultModel, NavigatorModel,
};
use crate::git::{
    ChangedFile, ChangedFileModel, FileStatus, GitError, changed_files_view, git_error_message,
    lemma_path_lt_total, lemma_path_lt_trans, opt_str_view, path_less, path_lt,
};
use crate::paths::{is_absolute, join, path_is_absolute, path_join};
use crate::text::{
    chars_of, lines_chars, lines_of, split_chars, split_on, chars_view, string_from_chars,
    lemma_split_on_len, concat_str,
};
use crate::types::StepDirection;
use crate::review::{contains_string, first_occurrences};
use crate::text::strings_view;
use crate::view::{Change, ChangeKind, DiffResult};

verus! {

/// Default limit (bytes) above which a file's diff is deferred.
pub const DEFAULT_DIFF_MAX_BYTES: u64 = 16777216;

/// Default limit (bytes) above which a diff keeps only a few context lines.
pub const DEFAULT_FULL_CONTEXT_MAX_BYTES: u64 = 2097152;

/// Files larger than this (bytes) are not read as text.
pub const MAX_TEXT_BYTES: u64 = 33554432;

/// Texts larger than this (bytes) are counted by lines instead of diffed.
pub const MAX_WORD_LEVEL_BYTES: u64 = 2097152;

/// Lines longer than this many bytes are cut to this many characters when a
/// text is loaded.
pub const MAX_LINE_CHARS: usize = 16384;

/// The limits that decide when a diff is deferred and how much context it
/// keeps.
#[derive(Debug, Clone, Copy, PartialEq, Eq, Structural)]
pub struct DiffSettings {
    pub diff_max_bytes: u64,
    pub full_context_max_bytes: u64,
    pub defer: bool,
}

impl Default for DiffSettings {
    fn default() -> (r: Self)
        ensures
            r == (DiffSettings {
                diff_max_bytes: DEFAULT_DIFF_MAX_BYTES,
                full_context_max_bytes: DEFAULT_FULL_CONTEXT_MAX_BYTES,
                defer: true,
            }),
    {
        DiffSettings {
            diff_max_bytes: DEFAULT_DIFF_MAX_BYTES,
            full_context_max_bytes: DEFAULT_FULL_CONTEXT_MAX_BYTES,
            defer: true,
        }
    }
}

/// Readiness of a file's diff.
#[derive(Debug, Clone, Copy, PartialEq, Eq, Structural)]
pub enum DiffStatus {
    Ready,
    Deferred,
    Computing,
    Failed,
    Disabled,
}

/// Side of a file pair.
#[derive(Debug, Clone, Copy, PartialEq, Eq, Structural)]
pub enum FileSide {
    Old,
    New,
}

/// A diff kept for a file until its navigator is built: a placeholder that
/// shows the text unchanged, or the computed diff.
#[derive(Debug)]
pub enum PrecomputedDiff {
    Placeholder(DiffResult),
    Ready(DiffResult),
}

/// Mathematical content of a [`PrecomputedDiff`].
pub enum PrecomputedModel {
    Placeholder(DiffResultModel),
    Ready(DiffResultModel),
}

impl View for PrecomputedDiff {
    type V = PrecomputedModel;

    open spec fn view(&self) -> PrecomputedModel {
        match self {
            PrecomputedDiff::Placeholder(d) => PrecomputedModel::Placeholder(d@),
            PrecomputedDiff::Ready(d) => PrecomputedModel::Ready(d@),
        }
    }
}

/// The view of an optional precomputed diff.
pub open spec fn opt_precomputed_view(o: Option<PrecomputedDiff>) -> Option<PrecomputedModel> {
    match o {
        Some(p) => Some(p@),
        None => None,
    }
}

// ---------------------------------------------------------------------------
// Sizes and loading.
// ---------------------------------------------------------------------------

/// Bytes that UTF-8 takes for `c`.
pub open spec fn utf8_width(c: char) -> nat {
    if (c as u32) < 0x80 {
        1
    } else if (c as u32) < 0x800 {
        2
    } else if (c as u32) < 0x10000 {
        3
    } else {
        4
    }
}

/// Bytes that UTF-8 takes for `s` (what `str::len` returns).
pub open spec fn utf8_len(s: Seq<char>) -> nat
    decreases s.len(),
{
    if s.len() == 0 {
        0
    } else {
        utf8_len(s.drop_last()) + utf8_width(s.last())
    }
}

proof fn lemma_utf8_len_bound(s: Seq<char>)
    ensures
        utf8_len(s) <= 4 * s.len(),
    decreases s.len(),
{
    if s.len() > 0 {
        lemma_utf8_len_bound(s.drop_last());
    }
}

/// Byte length of the text `s`.
pub fn utf8_len_of(s: &[char]) -> (r: u128)
    ensures
        r == utf8_len(s@),
{
    let mut total: u128 = 0;
    let mut i: usize = 0;
    while i < s.len()
        invariant
            0 <= i <= s.len(),
            total == utf8_len(s@.take(i as int)),
        decreases s.len() - i,
    {
        assert(s@.take(i + 1).drop_last() =~= s@.take(i as int));
        proof {
            lemma_utf8_len_bound(s@.take(i as int));
        }
        let c = s[i] as u32;
        let w: u128 = if c < 0x80 {
            1
        } else if c < 0x800 {
            2
        } else if c < 0x10000 {
            3
        } else {
            4
        };
        total = total + w;
        i = i + 1;
    }
    assert(s@.take(s.len() as int) =~= s@);
    total
}

/// A file too large to read as text.
pub open spec fn text_too_large_spec(size: u64) -> bool {
    size > MAX_TEXT_BYTES
}

/// Whether a file of `size` bytes is too large to read as text.
pub fn text_too_large(size: u64) -> (r: bool)
    ensures
        r == text_too_large_spec(size),
{
    size > MAX_TEXT_BYTES
}

/// Whether some line (as `str::lines` yields them) is longer than
/// `MAX_LINE_CHARS` bytes.
pub open spec fn has_long_line(t: Seq<char>) -> bool {
    exists|i: int| 0 <= i < lines_of(t).len() && utf8_len(#[trigger] lines_of(t)[i]) > MAX_LINE_CHARS
}

/// A line longer than `MAX_LINE_CHARS` bytes cut to its first
/// `MAX_LINE_CHARS` characters (all of them when it has fewer), with an
/// ellipsis after.
pub open spec fn cut_line(l: Seq<char>) -> Seq<char> {
    if utf8_len(l) > MAX_LINE_CHARS {
        l.take(if l.len() <= MAX_LINE_CHARS { l.len() as int } else { MAX_LINE_CHARS as int })
            + seq!['…']
    } else {
        l
    }
}

/// The pieces joined with `\n` between them.
pub open spec fn join_newlines(pieces: Seq<Seq<char>>) -> Seq<char>
    decreases pieces.len(),
{
    if pieces.len() == 0 {
        Seq::empty()
    } else if pieces.len() == 1 {
        pieces[0]
    } else {
        join_newlines(pieces.drop_last()) + seq!['\n'] + pieces.last()
    }
}

/// A loaded text with over-long lines cut: unchanged when no line is too
/// long, else every line cut by [`cut_line`].
pub open spec fn normalize_spec(t: Seq<char>) -> Seq<char> {
    if !has_long_line(t) {
        t
    } else {
        join_newlines(split_on(t, '\n').map_values(|l: Seq<char>| cut_line(l)))
    }
}

fn cut_line_chars(l: &Vec<char>, out: &mut Vec<char>)
    ensures
        final(out)@ == old(out)@ + cut_line(l@),
{
    let long = utf8_len_of(l.as_slice()) > MAX_LINE_CHARS as u128;
    let keep = if long && l.len() > MAX_LINE_CHARS {
        MAX_LINE_CHARS
    } else {
        l.len()
    };
    let ghost start = out@;
    let mut i: usize = 0;
    while i < keep
        invariant
            0 <= i <= keep <= l.len(),
            out@ == start + l@.take(i as int),
        decreases keep - i,
    {
        out.push(l[i]);
        i = i + 1;
    }
    if long {
        out.push('…');
    } else {
        assert(l@.take(keep as int) =~= l@);
    }
    assert(out@ =~= start + cut_line(l@));
}

/// Cuts over-long lines of a loaded text.
pub fn normalize_text(text: String) -> (r: String)
    ensures
        r@ == normalize_spec(text@),
{
    let chars = chars_of(text.as_str());
    let lines = lines_chars(chars.as_slice());
    let ghost ls = lines_of(text@);
    let mut long = false;
    let mut i: usize = 0;
    while i < lines.len()
        invariant_except_break
            !long,
        invariant
            0 <= i <= lines.len(),
            chars_view(lines@) == ls,
            ls == lines_of(text@),
            forall|j: int| 0 <= j < i ==> utf8_len(#[trigger] ls[j]) <= MAX_LINE_CHARS,
        ensures
            long == has_long_line(text@),
        decreases lines.len() - i,
    {
        assert(ls[i as int] == lines@[i as int]@);
        if utf8_len_of(lines[i].as_slice()) > MAX_LINE_CHARS as u128 {
            long = true;
            break ;
        }
        i = i + 1;
    }
    if !long {
        return text;
    }
    let pieces = split_chars(chars.as_slice(), '\n');
    let ghost ps = split_on(text@, '\n');
    let ghost cut = ps.map_values(|l: Seq<char>| cut_line(l));
    proof {
        lemma_split_on_len(text@, '\n');
    }
    let mut out: Vec<char> = Vec::new();
    let mut k: usize = 0;
    while k < pieces.len()
        invariant
            0 <= k <= pieces.len(),
            chars_view(pieces@) == ps,
            ps == split_on(text@, '\n'),
            cut == ps.map_values(|l: Seq<char>| cut_line(l)),
            out@ == join_newlines(cut.take(k as int)),
        decreases pieces.len() - k,
    {
        assert(ps[k as int] == pieces@[k as int]@);
        assert(cut.take(k + 1).drop_last() =~= cut.take(k as int));
        if k > 0 {
            out.push('\n');
        } else {
            assert(out@ =~= Seq::<char>::empty());
        }
        cut_line_chars(&pieces[k], &mut out);
        assert(out@ =~= join_newlines(cut.take(k + 1)));
        k = k + 1;
    }
    assert(cut.take(pieces.len() as int) =~= cut);
    string_from_chars(out.as_slice())
}

/// The text of UTF-8 bytes, or nothing when they are not valid UTF-8
/// (`String::from_utf8`).
#[verifier::external_body]
fn utf8_to_string(bytes: Vec<u8>) -> (r: Option<String>)
    ensures
        r is Some <==> valid_utf8(bytes@),
        r matches Some(s) ==> s@ == decode_utf8(bytes@),
{
    String::from_utf8(bytes).ok()
}

/// The UTF-8 bytes of a string.
fn string_into_bytes(s: String) -> (r: Vec<u8>)
    ensures
        r@ == encode_utf8(s@),
{
    let bytes = s.as_str().as_bytes();
    let mut out: Vec<u8> = Vec::new();
    let mut i: usize = 0;
    while i < bytes.len()
        invariant
            i <= bytes@.len(),
            bytes@ == encode_utf8(s@),
            out@ == bytes@.subrange(0, i as int),
        decreases bytes@.len() - i,
    {
        out.push(bytes[i]);
        i += 1;
    }
    out
}

/// What loading bytes as text gives: nothing for no bytes; a binary file
/// (no text) for bytes holding a zero or not valid UTF-8; else the decoded
/// text with over-long lines cut.
pub open spec fn decode_spec(bytes: Seq<u8>) -> (Seq<char>, bool) {
    if bytes.len() == 0 {
        (Seq::empty(), false)
    } else if bytes.contains(0u8) || !valid_utf8(bytes) {
        (Seq::empty(), true)
    } else {
        (normalize_spec(decode_utf8(bytes)), false)
    }
}

/// Decodes file bytes as text, telling binary files apart.
pub fn decode_bytes(bytes: Vec<u8>) -> (r: (String, bool))
    ensures
        (r.0@, r.1) == decode_spec(bytes@),
{
    if bytes.len() == 0 {
        return (String::new(), false);
    }
    let mut i: usize = 0;
    while i < bytes.len()
        invariant
            0 <= i <= bytes.len(),
            forall|j: int| 0 <= j < i ==> bytes@[j] != 0u8,
        decreases bytes.len() - i,
    {
        if bytes[i] == 0u8 {
            assert(bytes@.contains(0u8));
            return (String::new(), true);
        }
        i = i + 1;
    }
    assert(!bytes@.contains(0u8));
    match utf8_to_string(bytes) {
        Some(text) => (normalize_text(text), false),
        None => (String::new(), true),
    }
}

/// A side of a file as the caller read it: its size when known, and its bytes
/// (which need not be read when the size is already too large).
#[derive(Debug)]
pub struct LoadedContent {
    pub size: Option<u64>,
    pub bytes: Vec<u8>,
}

/// What loading a side gives: a binary file when its known size is too large,
/// else its decoded bytes.
pub open spec fn load_spec(size: Option<u64>, bytes: Seq<u8>) -> (Seq<char>, bool) {
    match size {
        Some(s) if text_too_large_spec(s) => (Seq::empty(), true),
        _ => decode_spec(bytes),
    }
}

/// Decodes a loaded side.
pub fn decode_loaded(content: LoadedContent) -> (r: (String, bool))
    ensures
        (r.0@, r.1) == load_spec(content.size, content.bytes@),
{
    if let Some(size) = content.size {
        if text_too_large(size) {
            return (String::new(), true);
        }
    }
    decode_bytes(content.bytes)
}

// ---------------------------------------------------------------------------
// Diffing a file pair.
// ---------------------------------------------------------------------------

/// The number of changes of a diff must fit in a `usize`; texts beyond that
/// are shown unchanged.
pub open spec fn diff_fits(old: Seq<char>, new: Seq<char>) -> bool {
    old.len() + new.len() + 2 <= usize::MAX
}

/// The full diff of a file pair: the line diff of the two texts, with
/// every unchanged line kept.
pub open spec fn full_diff_spec(old: Seq<char>, new: Seq<char>) -> DiffResultModel {
    if diff_fits(old, new) {
        diff_lines_spec(old, new)
    } else {
        context_only_spec(new)
    }
}

fn full_diff(old: &str, new: &str) -> (r: DiffResult)
    ensures
        r@ == full_diff_spec(old@, new@),
{
    let oc = chars_of(old);
    let nc = chars_of(new);
    if oc.len() <= usize::MAX - 2 && nc.len() <= usize::MAX - 2 - oc.len() {
        diff_lines(old, new)
    } else {
        context_only_diff(new)
    }
}

/// How many unchanged lines a trimmed diff keeps on each side of a change.
pub const CONTEXT_LINES: usize = 3;

/// A change that changes nothing: all its spans are equal text.
pub open spec fn is_context_change(c: ChangeModel) -> bool {
    forall|k: int| 0 <= k < c.spans.len() ==> (#[trigger] c.spans[k]).kind == ChangeKind::Equal
}

/// Change `i` stays in a trimmed diff: it changes something, or one within
/// [`CONTEXT_LINES`] places of it does.
pub open spec fn near_change(cs: Seq<ChangeModel>, i: int) -> bool {
    exists|j: int| 0 <= j < cs.len() && i - CONTEXT_LINES <= j <= i + CONTEXT_LINES && !is_context_change(#[trigger] cs[j])
}

/// The first `n` changes, without the unchanged ones far from any change.
pub open spec fn kept_changes(cs: Seq<ChangeModel>, n: int) -> Seq<ChangeModel>
    decreases n,
{
    if n <= 0 {
        Seq::empty()
    } else if near_change(cs, n - 1) {
        kept_changes(cs, n - 1).push(cs[n - 1])
    } else {
        kept_changes(cs, n - 1)
    }
}

/// A diff with its context cut: unchanged lines more than
/// [`CONTEXT_LINES`] places from every change are dropped; a diff without
/// any change keeps all its lines. Counts, hunks and steps stay.
pub open spec fn trim_context_spec(d: DiffResultModel) -> DiffResultModel {
    if exists|j: int| 0 <= j < d.changes.len() && !is_context_change(#[trigger] d.changes[j]) {
        DiffResultModel { changes: kept_changes(d.changes, d.changes.len() as int), ..d }
    } else {
        d
    }
}

/// The diff of a file pair: the full diff, with its context cut (see
/// [`trim_context_spec`]) when the longer text exceeds the smaller of the
/// full-context limit and the diff limit.
pub open spec fn diff_strings_spec(old: Seq<char>, new: Seq<char>, settings: DiffSettings) -> DiffResultModel {
    let limit: int = if settings.full_context_max_bytes <= settings.diff_max_bytes {
        settings.full_context_max_bytes as int
    } else {
        settings.diff_max_bytes as int
    };
    if max_len(old, new) > limit {
        trim_context_spec(full_diff_spec(old, new))
    } else {
        full_diff_spec(old, new)
    }
}

fn change_is_context(c: &Change) -> (r: bool)
    ensures
        r == is_context_change(c@),
{
    let mut i: usize = 0;
    while i < c.spans.len()
        invariant
            0 <= i <= c.spans.len(),
            forall|k: int| 0 <= k < i ==> (#[trigger] c@.spans[k]).kind == ChangeKind::Equal,
        decreases c.spans.len() - i,
    {
        assert(c@.spans[i as int] == c.spans@[i as int]@);
        if !matches!(c.spans[i].kind, ChangeKind::Equal) {
            return false;
        }
        i = i + 1;
    }
    true
}

/// The diff with its context cut (see [`trim_context_spec`]).
fn trim_context(d: DiffResult) -> (r: DiffResult)
    ensures
        r@ == trim_context_spec(d@),
{
    let ghost dm = d@;
    let DiffResult { changes, significant_changes, hunks, insertions, deletions } = d;
    let ghost cs = changes_view(changes@);
    let n = changes.len();
    let mut flags: Vec<bool> = Vec::new();
    let mut any_change = false;
    let mut i: usize = 0;
    while i < n
        invariant
            0 <= i <= n,
            n == changes.len(),
            cs == changes_view(changes@),
            flags.len() == i,
            forall|k: int| 0 <= k < i ==> flags@[k] == is_context_change(#[trigger] cs[k]),
            any_change == exists|k: int| 0 <= k < i && !is_context_change(#[trigger] cs[k]),
        decreases n - i,
    {
        assert(cs[i as int] == changes@[i as int]@);
        let f = change_is_context(&changes[i]);
        flags.push(f);
        if !f {
            any_change = true;
        }
        i = i + 1;
    }
    assert(dm.changes == cs);
    if !any_change {
        return DiffResult { changes, significant_changes, hunks, insertions, deletions };
    }
    let mut rest = changes;
    let mut kept: Vec<Change> = Vec::new();
    let mut i: usize = 0;
    while i < n
        invariant
            0 <= i <= n,
            n == rest.len(),
            n == cs.len(),
            flags.len() == n,
            forall|k: int| 0 <= k < n ==> flags@[k] == is_context_change(#[trigger] cs[k]),
            forall|k: int| i <= k < n ==> (#[trigger] rest@[k])@ == cs[k],
            changes_view(kept@) == kept_changes(cs, i as int),
        decreases n - i,
    {
        let lo: usize = if i >= CONTEXT_LINES {
            i - CONTEXT_LINES
        } else {
            0
        };
        let hi: usize = if n - i > CONTEXT_LINES {
            i + CONTEXT_LINES
        } else {
            n - 1
        };
        let mut near = false;
        let mut j = lo;
        while j <= hi
            invariant
                lo <= j <= hi + 1,
                hi < n,
                lo == (if i >= CONTEXT_LINES { i - CONTEXT_LINES } else { 0 }),
                hi == (if n - i > CONTEXT_LINES { i + CONTEXT_LINES } else { n - 1 }),
                flags.len() == n,
                n == cs.len(),
                forall|k: int| 0 <= k < n ==> flags@[k] == is_context_change(#[trigger] cs[k]),
                near == exists|k: int| lo <= k < j && !is_context_change(#[trigger] cs[k]),
            decreases hi + 1 - j,
        {
            if !flags[j] {
                assert(!is_context_change(cs[j as int]));
                near = true;
            }
            j = j + 1;
        }
        assert(near == near_change(cs, i as int)) by {
            if near_change(cs, i as int) {
                let w = choose|w: int|
                    0 <= w < cs.len() && i - CONTEXT_LINES <= w <= i + CONTEXT_LINES && !is_context_change(
                        #[trigger] cs[w],
                    );
                assert(lo <= w <= hi);
            }
        }
        let mut slot = Change { id: 0, spans: Vec::new() };
        rest.set_and_swap(i, &mut slot);
        assert(slot@ == cs[i as int]);
        if near {
            let ghost before = kept@;
            kept.push(slot);
            assert(changes_view(kept@) =~= changes_view(before).push(cs[i as int]));
        }
        i = i + 1;
    }
    let r = DiffResult { changes: kept, significant_changes, hunks, insertions, deletions };
    assert(r@ =~= DiffResultModel { changes: kept_changes(cs, n as int), ..dm });
    r
}

/// The diff of a file pair under the session's limits (see
/// [`diff_strings_spec`]).
fn diff_strings(old: &str, new: &str, settings: DiffSettings) -> (r: DiffResult)
    ensures
        r@ == diff_strings_spec(old@, new@, settings),
{
    let full = full_diff(old, new);
    let limit = if settings.full_context_max_bytes <= settings.diff_max_bytes {
        settings.full_context_max_bytes
    } else {
        settings.diff_max_bytes
    };
    if max_len_of(old, new) > limit as u128 {
        trim_context(full)
    } else {
        full
    }
}

/// The larger byte length of the two texts.
pub open spec fn max_len(old: Seq<char>, new: Seq<char>) -> nat {
    if utf8_len(old) >= utf8_len(new) {
        utf8_len(old)
    } else {
        utf8_len(new)
    }
}

fn max_len_of(old: &str, new: &str) -> (r: u128)
    ensures
        r == max_len(old@, new@),
{
    let a = utf8_len_of(chars_of(old).as_slice());
    let b = utf8_len_of(chars_of(new).as_slice());
    if a >= b {
        a
    } else {
        b
    }
}

/// A pair is diffed in the background when either side is larger than the
/// diff limit.
pub open spec fn should_defer_spec(old: Seq<char>, new: Seq<char>, settings: DiffSettings) -> bool {
    max_len(old, new) > settings.diff_max_bytes
}

/// Inserted and deleted line counts shown for a file: none for a binary
/// file; for texts over `MAX_WORD_LEVEL_BYTES`, all lines of an added or
/// deleted file and none otherwise; else the counts of the pair's diff.
pub open spec fn diff_stats_spec(old: Seq<char>, new: Seq<char>, binary: bool) -> (usize, usize) {
    if binary {
        (0, 0)
    } else if max_len(old, new) > MAX_WORD_LEVEL_BYTES {
        let ol = lines_of(old).len();
        let nl = lines_of(new).len();
        if ol == 0 {
            (nl as usize, 0)
        } else if nl == 0 {
            (0, ol as usize)
        } else {
            (0, 0)
        }
    } else {
        let d = full_diff_spec(old, new);
        (d.insertions, d.deletions)
    }
}

fn diff_stats(old: &str, new: &str, binary: bool) -> (r: (usize, usize))
    ensures
        r == diff_stats_spec(old@, new@, binary),
{
    if binary {
        return (0, 0);
    }
    if max_len_of(old, new) > MAX_WORD_LEVEL_BYTES as u128 {
        let ol = lines_chars(chars_of(old).as_slice()).len();
        let nl = lines_chars(chars_of(new).as_slice()).len();
        if ol == 0 {
            return (nl, 0);
        }
        if nl == 0 {
            return (0, ol);
        }
        return (0, 0);
    }
    let d = full_diff(old, new);
    (d.insertions, d.deletions)
}

/// Contents, kept diff and status of a freshly loaded file pair: a binary
/// pair keeps no text and its diff is disabled; a pair over the diff limit
/// keeps a placeholder diff of its new text (its old text when the new one is
/// empty) and is deferred, or disabled when deferring is off; any other pair
/// is ready.
pub open spec fn defer_spec(
    old: Seq<char>,
    new: Seq<char>,
    binary: bool,
    settings: DiffSettings,
) -> (Seq<char>, Seq<char>, Option<PrecomputedModel>, DiffStatus) {
    if binary {
        (Seq::empty(), Seq::empty(), None, DiffStatus::Disabled)
    } else if should_defer_spec(old, new, settings) {
        let display = if new.len() == 0 {
            old
        } else {
            new
        };
        (
            old,
            new,
            Some(PrecomputedModel::Placeholder(context_only_spec(display))),
            if settings.defer {
                DiffStatus::Deferred
            } else {
                DiffStatus::Disabled
            },
        )
    } else {
        (old, new, None, DiffStatus::Ready)
    }
}

fn maybe_defer_diff(old: String, new: String, binary: bool, settings: DiffSettings) -> (r: (
    String,
    String,
    Option<PrecomputedDiff>,
    DiffStatus,
))
    ensures
        (r.0@, r.1@, opt_precomputed_view(r.2), r.3) == defer_spec(old@, new@, binary, settings),
{
    if binary {
        return (String::new(), String::new(), None, DiffStatus::Disabled);
    }
    if max_len_of(old.as_str(), new.as_str()) > settings.diff_max_bytes as u128 {
        let diff = if new.as_str().is_empty() {
            context_only_diff(old.as_str())
        } else {
            context_only_diff(new.as_str())
        };
        let status = if settings.defer {
            DiffStatus::Deferred
        } else {
            DiffStatus::Disabled
        };
        return (old, new, Some(PrecomputedDiff::Placeholder(diff)), status);
    }
    (old, new, None, DiffStatus::Ready)
}

// ---------------------------------------------------------------------------
// Session types.
// ---------------------------------------------------------------------------

/// Why a multi-file diff could not be built.
#[derive(Debug)]
pub enum MultiDiffError {
    /// Reading a file or directory failed; the I/O error's message.
    Io(String),
    /// A git command failed.
    Git(GitError),
}

impl MultiDiffError {
    /// The message shown for this error.
    pub fn message(&self) -> (r: String)
        ensures
            r@ == match self {
                MultiDiffError::Io(s) => "IO error: "@ + s@,
                MultiDiffError::Git(e) => "Git error: "@ + git_error_message(*e),
            },
    {
        match self {
            MultiDiffError::Io(s) => concat_str("IO error: ", s.as_str()),
            MultiDiffError::Git(e) => {
                let m = e.message();
                concat_str("Git error: ", m.as_str())
            },
        }
    }
}

/// A file entry in a multi-file diff.
#[derive(Debug)]
pub struct FileEntry {
    pub path: String,
    pub old_path: Option<String>,
    pub old_source_path: Option<String>,
    pub new_source_path: Option<String>,
    pub display_name: String,
    pub status: FileStatus,
    pub insertions: usize,
    pub deletions: usize,
    pub binary: bool,
}

/// Mathematical content of a [`FileEntry`].
pub struct FileEntryModel {
    pub path: Seq<char>,
    pub old_path: Option<Seq<char>>,
    pub old_source_path: Option<Seq<char>>,
    pub new_source_path: Option<Seq<char>>,
    pub display_name: Seq<char>,
    pub status: FileStatus,
    pub insertions: usize,
    pub deletions: usize,
    pub binary: bool,
}

impl View for FileEntry {
    type V = FileEntryModel;

    open spec fn view(&self) -> FileEntryModel {
        FileEntryModel {
            path: self.path@,
            old_path: opt_str_view(self.old_path),
            old_source_path: opt_str_view(self.old_source_path),
            new_source_path: opt_str_view(self.new_source_path),
            display_name: self.display_name@,
            status: self.status,
            insertions: self.insertions,
            deletions: self.deletions,
            binary: self.binary,
        }
    }
}

/// The views of a sequence of file entries.
pub open spec fn entries_view(s: Seq<FileEntry>) -> Seq<FileEntryModel> {
    s.map_values(|f: FileEntry| f@)
}

/// What a git-mode session compares.
#[derive(Debug)]
pub enum GitDiffMode {
    /// HEAD against the working tree.
    Uncommitted,
    /// HEAD against the index.
    Staged,
    /// A commit against the index (`to_index`), or the index against a commit.
    IndexRange { from: String, to_index: bool },
    /// One commit against another.
    Range { from: String, to: String },
}

/// Mathematical content of a [`GitDiffMode`].
pub enum GitDiffModeModel {
    Uncommitted,
    Staged,
    IndexRange { from: Seq<char>, to_index: bool },
    Range { from: Seq<char>, to: Seq<char> },
}

impl View for GitDiffMode {
    type V = GitDiffModeModel;

    open spec fn view(&self) -> GitDiffModeModel {
        match self {
            GitDiffMode::Uncommitted => GitDiffModeModel::Uncommitted,
            GitDiffMode::Staged => GitDiffModeModel::Staged,
            GitDiffMode::IndexRange { from, to_index } => GitDiffModeModel::IndexRange {
                from: from@,
                to_index: *to_index,
            },
            GitDiffMode::Range { from, to } => GitDiffModeModel::Range { from: from@, to: to@ },
        }
    }
}

impl GitDiffMode {
    /// A copy of this mode.
    pub fn copy(&self) -> (r: Self)
        ensures
            r@ == self@,
    {
        match self {
            GitDiffMode::Uncommitted => GitDiffMode::Uncommitted,
            GitDiffMode::Staged => GitDiffMode::Staged,
            GitDiffMode::IndexRange { from, to_index } => GitDiffMode::IndexRange {
                from: from.clone(),
                to_index: *to_index,
            },
            GitDiffMode::Range { from, to } => GitDiffMode::Range {
                from: from.clone(),
                to: to.clone(),
            },
        }
    }
}

/// Source for blame lookups.
#[derive(Debug, PartialEq, Eq)]
pub enum BlameSource {
    Worktree,
    Index,
    Commit(String),
}

/// Mathematical content of a [`BlameSource`].
pub enum BlameSourceModel {
    Worktree,
    Index,
    Commit(Seq<char>),
}

impl View for BlameSource {
    type V = BlameSourceModel;

    open spec fn view(&self) -> BlameSourceModel {
        match self {
            BlameSource::Worktree => BlameSourceModel::Worktree,
            BlameSource::Index => BlameSourceModel::Index,
            BlameSource::Commit(c) => BlameSourceModel::Commit(c@),
        }
    }
}

/// Real file roots of the two sides of a non-git diff.
#[derive(Debug)]
pub struct SourceRoots {
    pub old: String,
    pub new: String,
}

/// The ignore patterns that a directory scan applies by default: version
/// control metadata.
pub open spec fn default_scan_ignore_globs() -> Seq<Seq<char>> {
    seq![
        seq!['.', 'g', 'i', 't', '/', '*', '*'],
        seq!['.', 'j', 'j', '/', '*', '*'],
        seq!['.', 'h', 'g', '/', '*', '*'],
        seq!['.', 's', 'v', 'n', '/', '*', '*'],
    ]
}

/// How a directory scan picks files.
#[derive(Debug)]
pub struct DirectoryScanOptions {
    pub git_ignore: bool,
    pub ignore_globs: Vec<String>,
}

impl Default for DirectoryScanOptions {
    fn default() -> (r: Self)
        ensures
            r.git_ignore,
            r.ignore_globs@.map_values(|g: String| g@) == default_scan_ignore_globs(),
    {
        let mut globs: Vec<String> = Vec::new();
        let g0: [char; 7] = ['.', 'g', 'i', 't', '/', '*', '*'];
        let g1: [char; 6] = ['.', 'j', 'j', '/', '*', '*'];
        let g2: [char; 6] = ['.', 'h', 'g', '/', '*', '*'];
        let g3: [char; 7] = ['.', 's', 'v', 'n', '/', '*', '*'];
        globs.push(string_from_chars(g0.as_slice()));
        globs.push(string_from_chars(g1.as_slice()));
        globs.push(string_from_chars(g2.as_slice()));
        globs.push(string_from_chars(g3.as_slice()));
        assert(globs@.map_values(|g: String| g@) =~= default_scan_ignore_globs());
        DirectoryScanOptions { git_ignore: true, ignore_globs: globs }
    }
}

/// `s` ends with `/**`.
pub open spec fn ends_with_glob_star(s: Seq<char>) -> bool {
    s.len() >= 3 && s[s.len() - 3] == '/' && s[s.len() - 2] == '*' && s[s.len() - 1] == '*'
}

/// The override patterns that exclude the ignore globs from a directory
/// scan, glob by glob: a glob ending in `/**` first excludes its directory
/// itself (when that is not empty), then every glob is excluded.
pub open spec fn override_patterns_spec(globs: Seq<Seq<char>>) -> Seq<Seq<char>>
    decreases globs.len(),
{
    if globs.len() == 0 {
        Seq::empty()
    } else {
        let rest = override_patterns_spec(globs.drop_last());
        let g = globs.last();
        let dir_part: Seq<Seq<char>> = if ends_with_glob_star(g) && g.len() > 3 {
            seq![seq!['!'] + g.take(g.len() - 3)]
        } else {
            Seq::empty()
        };
        rest + dir_part + seq![seq!['!'] + g]
    }
}

fn negated(g: &[char], n: usize) -> (r: String)
    requires
        n <= g.len(),
    ensures
        r@ == seq!['!'] + g@.take(n as int),
{
    let mut v: Vec<char> = Vec::new();
    v.push('!');
    let mut i: usize = 0;
    while i < n
        invariant
            0 <= i <= n <= g.len(),
            v@ == seq!['!'] + g@.take(i as int),
        decreases n - i,
    {
        v.push(g[i]);
        assert(g@.take(i + 1) =~= g@.take(i as int).push(g@[i as int]));
        i = i + 1;
    }
    string_from_chars(v.as_slice())
}

/// The override patterns for the ignore globs of a directory scan.
pub fn scan_override_patterns(ignore_globs: &[String]) -> (r: Vec<String>)
    ensures
        r@.map_values(|p: String| p@) == override_patterns_spec(ignore_globs@.map_values(|g: String| g@)),
{
    let ghost gs = ignore_globs@.map_values(|g: String| g@);
    let mut out: Vec<String> = Vec::new();
    let mut i: usize = 0;
    assert(gs.take(0) =~= Seq::<Seq<char>>::empty());
    while i < ignore_globs.len()
        invariant
            0 <= i <= ignore_globs.len(),
            gs == ignore_globs@.map_values(|g: String| g@),
            out@.map_values(|p: String| p@) == override_patterns_spec(gs.take(i as int)),
        decreases ignore_globs.len() - i,
    {
        let g = chars_of(ignore_globs[i].as_str());
        assert(gs.take(i + 1).drop_last() =~= gs.take(i as int));
        assert(gs.take(i + 1).last() == g@);
        let ghost before = out@.map_values(|p: String| p@);
        let n = g.len();
        if n > 3 && g[n - 3] == '/' && g[n - 2] == '*' && g[n - 1] == '*' {
            let d = negated(g.as_slice(), n - 3);
            out.push(d);
        }
        assert(g@.take(n as int) =~= g@);
        let full = negated(g.as_slice(), n);
        out.push(full);
        assert(out@.map_values(|p: String| p@) =~= override_patterns_spec(gs.take(i + 1)));
        i = i + 1;
    }
    assert(gs.take(ignore_globs.len() as int) =~= gs);
    out
}

/// The files found under either root, each once, sorted by path (see
/// [`crate::git::path_lt`]): strictly increasing, holding exactly the paths
/// listed.
pub open spec fn sorted_paths_spec(listed: Seq<Seq<char>>, out: Seq<Seq<char>>) -> bool {
    &&& forall|i: int, j: int| 0 <= i < j < out.len() ==> path_lt(#[trigger] out[i], #[trigger] out[j])
    &&& forall|p: Seq<char>| out.contains(p) <==> listed.contains(p)
}

/// Sorts the relative paths found under the two roots of a directory
/// comparison, keeping each path once.
pub fn sorted_unique_paths(paths: Vec<String>) -> (r: Vec<String>)
    ensures
        sorted_paths_spec(paths@.map_values(|p: String| p@), r@.map_values(|p: String| p@)),
{
    let ghost input = paths@.map_values(|p: String| p@);
    let mut out: Vec<String> = Vec::new();
    for p in it: paths
        invariant
            it.seq() == paths@,
            input == paths@.map_values(|p: String| p@),
            sorted_paths_spec(input.take(it.index() as int), out@.map_values(|p: String| p@)),
    {
        let ghost i = it.index() as int;
        let ghost pre = input.take(i);
        let ghost post = input.take(i + 1);
        let ghost ov = out@.map_values(|p: String| p@);
        assert(post =~= pre.push(p@));
        assert(input[i] == p@);
        let mut present = false;
        let mut k: usize = 0;
        while k < out.len()
            invariant
                0 <= k <= out.len(),
                ov == out@.map_values(|p: String| p@),
                present == exists|j: int| 0 <= j < k && ov[j] == p@,
            decreases out.len() - k,
        {
            assert(ov[k as int] == out@[k as int]@);
            if out[k] == p {
                present = true;
            }
            k = k + 1;
        }
        if !present {
            let mut q: usize = 0;
            while q < out.len() && !path_less(&p, &out[q])
                invariant
                    0 <= q <= out.len(),
                    ov == out@.map_values(|p: String| p@),
                    forall|j: int| 0 <= j < q ==> !path_lt(p@, #[trigger] ov[j]),
                decreases out.len() - q,
            {
                assert(ov[q as int] == out@[q as int]@);
                q = q + 1;
            }
            proof {
                if q < out.len() {
                    assert(ov[q as int] == out@[q as int]@);
                }
                assert forall|j: int| 0 <= j < q implies path_lt(#[trigger] ov[j], p@) by {
                    lemma_path_lt_total(ov[j], p@);
                    assert(ov[j] != p@);
                }
                assert forall|j: int| q <= j < ov.len() implies path_lt(p@, #[trigger] ov[j]) by {
                    if j > q {
                        lemma_path_lt_trans(p@, ov[q as int], ov[j]);
                    }
                }
            }
            let ghost pv = p@;
            out.insert(q, p);
            proof {
                let nv = out@.map_values(|p: String| p@);
                assert(nv =~= ov.insert(q as int, pv));
                assert forall|a: int, b: int| 0 <= a < b < nv.len() implies path_lt(#[trigger] nv[a], #[trigger] nv[b]) by {
                    if a < q && b > q {
                        lemma_path_lt_trans(nv[a], pv, nv[b]);
                    }
                }
                assert forall|x: Seq<char>| nv.contains(x) <==> post.contains(x) by {
                    if nv.contains(x) {
                        let j = choose|j: int| 0 <= j < nv.len() && nv[j] == x;
                        if j == q {
                            assert(post[i] == x);
                        } else {
                            let jj: int = if j < q { j } else { j - 1 };
                            assert(ov[jj] == x);
                            assert(ov.contains(x));
                            let w = choose|w: int| 0 <= w < pre.len() && pre[w] == x;
                            assert(post[w] == x);
                        }
                    }
                    if post.contains(x) {
                        let w = choose|w: int| 0 <= w < post.len() && post[w] == x;
                        if w == i {
                            assert(nv[q as int] == x);
                        } else {
                            assert(pre[w] == x);
                            assert(pre.contains(x));
                            let j = choose|j: int| 0 <= j < ov.len() && ov[j] == x;
                            let j2: int = if j < q { j } else { j + 1 };
                            assert(nv[j2] == x);
                        }
                    }
                }
            }
        } else {
            proof {
                let j = choose|j: int| 0 <= j < out.len() && ov[j] == p@;
                assert forall|x: Seq<char>| ov.contains(x) <==> post.contains(x) by {
                    if post.contains(x) {
                        let w = choose|w: int| 0 <= w < post.len() && post[w] == x;
                        if w == i {
                            assert(ov[j] == x);
                        } else {
                            assert(pre[w] == x);
                            assert(pre.contains(x));
                        }
                    }
                    if ov.contains(x) {
                        let w = choose|w: int| 0 <= w < pre.len() && pre[w] == x;
                        assert(post[w] == x);
                    }
                }
            }
        }
    }
    assert(input.take(input.len() as int) =~= input);
    out
}

// ---------------------------------------------------------------------------
// Loading a file of a session.
// ---------------------------------------------------------------------------

/// A file of a session, loaded: its entry, the texts kept for its two sides,
/// the diff kept for it and its diff status.
#[derive(Debug)]
pub struct LoadedFile {
    pub entry: FileEntry,
    pub old: String,
    pub new: String,
    pub precomputed: Option<PrecomputedDiff>,
    pub status: DiffStatus,
}

/// Mathematical content of a [`LoadedFile`].
pub struct LoadedFileModel {
    pub entry: FileEntryModel,
    pub old: Seq<char>,
    pub new: Seq<char>,
    pub precomputed: Option<PrecomputedModel>,
    pub status: DiffStatus,
}

impl View for LoadedFile {
    type V = LoadedFileModel;

    open spec fn view(&self) -> LoadedFileModel {
        LoadedFileModel {
            entry: self.entry@,
            old: self.old@,
            new: self.new@,
            precomputed: opt_precomputed_view(self.precomputed),
            status: self.status,
        }
    }
}

/// A file loaded from its two decoded sides (text, binary): binary when
/// either side is; shown under its path; with its line counts, kept texts,
/// kept diff and status as [`diff_stats_spec`] and [`defer_spec`] give them.
pub open spec fn loaded_file_spec(
    path: Seq<char>,
    old_path: Option<Seq<char>>,
    old_source: Option<Seq<char>>,
    new_source: Option<Seq<char>>,
    status: FileStatus,
    old: (Seq<char>, bool),
    new: (Seq<char>, bool),
    settings: DiffSettings,
) -> LoadedFileModel {
    let binary = old.1 || new.1;
    let stats = diff_stats_spec(old.0, new.0, binary);
    let d = defer_spec(old.0, new.0, binary, settings);
    LoadedFileModel {
        entry: FileEntryModel {
            path,
            old_path,
            old_source_path: old_source,
            new_source_path: new_source,
            display_name: path,
            status,
            insertions: stats.0,
            deletions: stats.1,
            binary,
        },
        old: d.0,
        new: d.1,
        precomputed: d.2,
        status: d.3,
    }
}

fn copy_string(s: &String) -> (r: String)
    ensures
        r@ == s@,
{
    s.clone()
}

fn load_file(
    path: String,
    old_path: Option<String>,
    old_source: Option<String>,
    new_source: Option<String>,
    status: FileStatus,
    old: (String, bool),
    new: (String, bool),
    settings: DiffSettings,
) -> (r: LoadedFile)
    ensures
        r@ == loaded_file_spec(
            path@,
            opt_str_view(old_path),
            opt_str_view(old_source),
            opt_str_view(new_source),
            status,
            (old.0@, old.1),
            (new.0@, new.1),
            settings,
        ),
{
    let binary = old.1 || new.1;
    let (insertions, deletions) = diff_stats(old.0.as_str(), new.0.as_str(), binary);
    let (o, n, precomputed, diff_status) = maybe_defer_diff(old.0, new.0, binary, settings);
    let display_name = copy_string(&path);
    LoadedFile {
        entry: FileEntry {
            path,
            old_path,
            old_source_path: old_source,
            new_source_path: new_source,
            display_name,
            status,
            insertions,
            deletions,
            binary,
        },
        old: o,
        new: n,
        precomputed,
        status: diff_status,
    }
}

// ---------------------------------------------------------------------------
// The session.
// ---------------------------------------------------------------------------

/// Multi-file diff session.
#[derive(Debug)]
pub struct MultiFileDiff {
    /// All files being diffed
    pub files: Vec<FileEntry>,
    /// Currently selected file index
    pub selected_index: usize,
    navigators: Vec<Option<DiffNavigator>>,
    navigator_is_placeholder: Vec<bool>,
    repo_root: Option<String>,
    git_mode: Option<GitDiffMode>,
    source_roots: Option<SourceRoots>,
    old_contents: Vec<String>,
    new_contents: Vec<String>,
    precomputed_diffs: Vec<Option<PrecomputedDiff>>,
    diff_statuses: Vec<DiffStatus>,
    settings: DiffSettings,
}

/// Mathematical content of a [`MultiFileDiff`]: per file its entry, its two
/// texts, its kept diff, its diff status, its navigator when built and
/// whether that navigator shows a placeholder; the selected file; the
/// repository root and git mode (git sessions); the source roots (directory
/// sessions); and the diff limits.
pub struct MultiFileDiffModel {
    pub files: Seq<FileEntryModel>,
    pub selected: nat,
    pub navigators: Seq<Option<NavigatorModel>>,
    pub placeholders: Seq<bool>,
    pub repo_root: Option<Seq<char>>,
    pub git_mode: Option<GitDiffModeModel>,
    pub source_roots: Option<(Seq<char>, Seq<char>)>,
    pub old_contents: Seq<Seq<char>>,
    pub new_contents: Seq<Seq<char>>,
    pub precomputed: Seq<Option<PrecomputedModel>>,
    pub statuses: Seq<DiffStatus>,
    pub settings: DiffSettings,
}

/// The view of an optional navigator.
pub open spec fn opt_nav_view(o: Option<DiffNavigator>) -> Option<NavigatorModel> {
    match o {
        Some(n) => Some(n@),
        None => None,
    }
}

impl MultiFileDiffModel {
    /// Every per-file sequence has one element per file, and the selection is
    /// a file (or 0 when there are none).
    pub open spec fn wf(self) -> bool {
        &&& self.navigators.len() == self.files.len()
        &&& self.placeholders.len() == self.files.len()
        &&& self.old_contents.len() == self.files.len()
        &&& self.new_contents.len() == self.files.len()
        &&& self.precomputed.len() == self.files.len()
        &&& self.statuses.len() == self.files.len()
        &&& (self.files.len() == 0 ==> self.selected == 0)
        &&& (self.files.len() > 0 ==> self.selected < self.files.len())
    }

    /// Status of file `i`, `Ready` for an index past the files.
    pub open spec fn status_at(self, i: int) -> DiffStatus {
        if 0 <= i < self.statuses.len() {
            self.statuses[i]
        } else {
            DiffStatus::Ready
        }
    }

    /// The session with one more loaded file, its navigator not yet built.
    pub open spec fn push_file(self, f: LoadedFileModel) -> MultiFileDiffModel {
        MultiFileDiffModel {
            files: self.files.push(f.entry),
            navigators: self.navigators.push(None),
            placeholders: self.placeholders.push(false),
            old_contents: self.old_contents.push(f.old),
            new_contents: self.new_contents.push(f.new),
            precomputed: self.precomputed.push(f.precomputed),
            statuses: self.statuses.push(f.status),
            ..self
        }
    }

    /// File `i` is as `f` describes and its navigator is not yet built.
    pub open spec fn holds_file(self, i: int, f: LoadedFileModel) -> bool {
        &&& self.files[i] == f.entry
        &&& self.old_contents[i] == f.old
        &&& self.new_contents[i] == f.new
        &&& self.precomputed[i] == f.precomputed
        &&& self.statuses[i] == f.status
        &&& self.navigators[i] is None
        &&& !self.placeholders[i]
    }
}

/// The view of optional source roots.
pub open spec fn roots_view(o: Option<SourceRoots>) -> Option<(Seq<char>, Seq<char>)> {
    match o {
        Some(r) => Some((r.old@, r.new@)),
        None => None,
    }
}

/// The view of an optional git mode.
pub open spec fn opt_mode_view(o: Option<GitDiffMode>) -> Option<GitDiffModeModel> {
    match o {
        Some(m) => Some(m@),
        None => None,
    }
}

impl View for MultiFileDiff {
    type V = MultiFileDiffModel;

    closed spec fn view(&self) -> MultiFileDiffModel {
        MultiFileDiffModel {
            files: entries_view(self.files@),
            selected: self.selected_index as nat,
            navigators: self.navigators@.map_values(|n: Option<DiffNavigator>| opt_nav_view(n)),
            placeholders: self.navigator_is_placeholder@,
            repo_root: opt_str_view(self.repo_root),
            git_mode: opt_mode_view(self.git_mode),
            source_roots: roots_view(self.source_roots),
            old_contents: self.old_contents@.map_values(|t: String| t@),
            new_contents: self.new_contents@.map_values(|t: String| t@),
            precomputed: self.precomputed_diffs@.map_values(
                |p: Option<PrecomputedDiff>| opt_precomputed_view(p),
            ),
            statuses: self.diff_statuses@,
            settings: self.settings,
        }
    }
}

impl MultiFileDiff {
    /// The session is well formed.
    pub open spec fn wf(&self) -> bool {
        self@.wf()
    }

    /// An empty session with the given sources.
    fn empty(
        repo_root: Option<String>,
        git_mode: Option<GitDiffMode>,
        source_roots: Option<SourceRoots>,
        settings: DiffSettings,
    ) -> (r: Self)
        ensures
            r.wf(),
            r@.files.len() == 0,
            r@.selected == 0,
            r@.repo_root == opt_str_view(repo_root),
            r@.git_mode == opt_mode_view(git_mode),
            r@.source_roots == roots_view(source_roots),
            r@.settings == settings,
    {
        let r = MultiFileDiff {
            files: Vec::new(),
            selected_index: 0,
            navigators: Vec::new(),
            navigator_is_placeholder: Vec::new(),
            repo_root,
            git_mode,
            source_roots,
            old_contents: Vec::new(),
            new_contents: Vec::new(),
            precomputed_diffs: Vec::new(),
            diff_statuses: Vec::new(),
            settings,
        };
        assert(r@.files =~= Seq::<FileEntryModel>::empty());
        r
    }

    /// Appends a loaded file.
    fn push_loaded(&mut self, f: LoadedFile)
        requires
            old(self).wf(),
        ensures
            final(self).wf(),
            final(self)@ == old(self)@.push_file(f@),
    {
        let ghost m = self@;
        let ghost fm = f@;
        self.files.push(f.entry);
        self.navigators.push(None);
        self.navigator_is_placeholder.push(false);
        self.old_contents.push(f.old);
        self.new_contents.push(f.new);
        self.precomputed_diffs.push(f.precomputed);
        self.diff_statuses.push(f.status);
        proof {
            assert(self@.files =~= m.files.push(fm.entry));
            assert(self@.navigators =~= m.navigators.push(None));
            assert(self@.placeholders =~= m.placeholders.push(false));
            assert(self@.old_contents =~= m.old_contents.push(fm.old));
            assert(self@.new_contents =~= m.new_contents.push(fm.new));
            assert(self@.precomputed =~= m.precomputed.push(fm.precomputed));
            assert(self@.statuses =~= m.statuses.push(fm.status));
        }
    }
}

/// A changed file of a git session with its two sides as read by the caller.
#[derive(Debug)]
pub struct GitFileInput {
    pub change: ChangedFile,
    pub old: LoadedContent,
    pub new: LoadedContent,
}

/// The decoded old side of a git change: empty for an added or untracked
/// file, else the loaded content.
pub open spec fn git_old_side(status: FileStatus, old: LoadedContent) -> (Seq<char>, bool) {
    if status == FileStatus::Added || status == FileStatus::Untracked {
        (Seq::empty(), false)
    } else {
        load_spec(old.size, old.bytes@)
    }
}

/// The decoded new side of a git change: empty for a deleted file, else the
/// loaded content.
pub open spec fn git_new_side(status: FileStatus, new: LoadedContent) -> (Seq<char>, bool) {
    if status == FileStatus::Deleted {
        (Seq::empty(), false)
    } else {
        load_spec(new.size, new.bytes@)
    }
}

/// The file that a git input becomes.
pub open spec fn git_file_spec(input: GitFileInput, settings: DiffSettings) -> LoadedFileModel {
    loaded_file_spec(
        input.change.path@,
        opt_str_view(input.change.old_path),
        None,
        None,
        input.change.status,
        git_old_side(input.change.status, input.old),
        git_new_side(input.change.status, input.new),
        settings,
    )
}

fn load_git_file(input: GitFileInput, settings: DiffSettings) -> (r: LoadedFile)
    ensures
        r@ == git_file_spec(input, settings),
{
    let GitFileInput { change, old, new } = input;
    let old_side = match change.status {
        FileStatus::Added | FileStatus::Untracked => (String::new(), false),
        _ => decode_loaded(old),
    };
    let new_side = match change.status {
        FileStatus::Deleted => (String::new(), false),
        _ => decode_loaded(new),
    };
    load_file(change.path, change.old_path, None, None, change.status, old_side, new_side, settings)
}

/// A file of a directory comparison: its path relative to both roots and
/// each side as read, `None` when the file does not exist on that side.
#[derive(Debug)]
pub struct DirectoryEntry {
    pub rel_path: String,
    pub old: Option<LoadedContent>,
    pub new: Option<LoadedContent>,
}

/// Status of a directory entry: added when missing on the old side, deleted
/// when missing on the new side, else modified.
pub open spec fn dir_status(e: DirectoryEntry) -> FileStatus {
    if e.old is None {
        FileStatus::Added
    } else if e.new is None {
        FileStatus::Deleted
    } else {
        FileStatus::Modified
    }
}

/// The decoded side of a directory entry: empty when missing.
pub open spec fn dir_side(side: Option<LoadedContent>) -> (Seq<char>, bool) {
    match side {
        Some(c) => load_spec(c.size, c.bytes@),
        None => (Seq::empty(), false),
    }
}

/// The bytes a side was compared by: none when missing or too large.
pub open spec fn dir_bytes(side: Option<LoadedContent>) -> Seq<u8> {
    match side {
        Some(c) => match c.size {
            Some(sz) if text_too_large_spec(sz) => Seq::empty(),
            _ => c.bytes@,
        },
        None => Seq::empty(),
    }
}

/// A directory entry is skipped when neither side is binary and both sides
/// have the same bytes.
pub open spec fn dir_unchanged(e: DirectoryEntry) -> bool {
    !(dir_side(e.old).1 || dir_side(e.new).1) && dir_bytes(e.old) == dir_bytes(e.new)
}

/// The file that a changed directory entry becomes.
pub open spec fn dir_file_spec(e: DirectoryEntry, settings: DiffSettings) -> LoadedFileModel {
    loaded_file_spec(
        e.rel_path@,
        None,
        None,
        None,
        dir_status(e),
        dir_side(e.old),
        dir_side(e.new),
        settings,
    )
}

/// The files that directory entries become: the changed entries, in order.
pub open spec fn dir_files_spec(es: Seq<DirectoryEntry>, settings: DiffSettings) -> Seq<
    LoadedFileModel,
>
    decreases es.len(),
{
    if es.len() == 0 {
        Seq::empty()
    } else {
        dir_files_spec(es.drop_last(), settings) + if dir_unchanged(es.last()) {
            Seq::<LoadedFileModel>::empty()
        } else {
            seq![dir_file_spec(es.last(), settings)]
        }
    }
}

/// The rank of a character when paths are ordered: the separator `/` comes
/// before every other character, the others by code point.
pub open spec fn path_char_rank(c: char) -> int {
    if c == '/' {
        -1
    } else {
        (c as u32) as int
    }
}

/// Whether relative path `x` comes before path `y` in the order of paths:
/// component by component, each compared character by character, and a
/// component before any longer one that it begins. For paths without empty
/// components this is comparing them character by character with `/` before
/// every other character.
pub open spec fn path_before(x: Seq<char>, y: Seq<char>) -> bool
    decreases x.len(),
{
    if x.len() == 0 {
        y.len() > 0
    } else if y.len() == 0 {
        false
    } else if x[0] != y[0] {
        path_char_rank(x[0]) < path_char_rank(y[0])
    } else {
        path_before(x.drop_first(), y.drop_first())
    }
}

/// Entry `e` put into entries sorted by path; left out when an entry has its
/// path already.
pub open spec fn insert_entry(s: Seq<DirectoryEntry>, e: DirectoryEntry) -> Seq<DirectoryEntry>
    decreases s.len(),
{
    if s.len() == 0 {
        seq![e]
    } else if s[0].rel_path@ == e.rel_path@ {
        s
    } else if path_before(e.rel_path@, s[0].rel_path@) {
        seq![e] + s
    } else {
        seq![s[0]] + insert_entry(s.drop_first(), e)
    }
}

/// The entries sorted by path, each path once (its first entry).
pub open spec fn sorted_entries(es: Seq<DirectoryEntry>) -> Seq<DirectoryEntry>
    decreases es.len(),
{
    if es.len() == 0 {
        Seq::empty()
    } else {
        insert_entry(sorted_entries(es.drop_last()), es.last())
    }
}

proof fn lemma_path_before_irreflexive(x: Seq<char>)
    ensures
        !path_before(x, x),
    decreases x.len(),
{
    if x.len() > 0 {
        lemma_path_before_irreflexive(x.drop_first());
    }
}

proof fn lemma_path_before_total(x: Seq<char>, y: Seq<char>)
    ensures
        x != y ==> path_before(x, y) || path_before(y, x),
        path_before(x, y) ==> !path_before(y, x),
    decreases x.len(),
{
    if x.len() > 0 && y.len() > 0 {
        lemma_path_before_total(x.drop_first(), y.drop_first());
        if x[0] == y[0] {
            if x.drop_first() == y.drop_first() {
                assert(x =~= seq![x[0]] + x.drop_first());
                assert(y =~= seq![y[0]] + y.drop_first());
            }
        } else {
            vstd::utf8::char_u32_cast(x[0], x[0] as u32);
            vstd::utf8::char_u32_cast(y[0], y[0] as u32);
            assert(x[0] as u32 != y[0] as u32);
            assert(path_char_rank(x[0]) != path_char_rank(y[0]));
        }
    } else if x.len() == 0 && y.len() == 0 {
        assert(x =~= y);
    }
}

proof fn lemma_path_before_transitive(x: Seq<char>, y: Seq<char>, z: Seq<char>)
    requires
        path_before(x, y),
        path_before(y, z),
    ensures
        path_before(x, z),
    decreases x.len(),
{
    if x.len() > 0 && y.len() > 0 && z.len() > 0 {
        if x[0] == y[0] && y[0] == z[0] {
            lemma_path_before_transitive(x.drop_first(), y.drop_first(), z.drop_first());
        }
    }
}

/// Entries strictly increasing by path.
pub open spec fn paths_increase(s: Seq<DirectoryEntry>) -> bool {
    forall|i: int, j: int| 0 <= i < j < s.len() ==> path_before(#[trigger] s[i].rel_path@, #[trigger] s[j].rel_path@)
}

proof fn lemma_insert_entry(s: Seq<DirectoryEntry>, e: DirectoryEntry)
    requires
        paths_increase(s),
    ensures
        paths_increase(insert_entry(s, e)),
        forall|x: DirectoryEntry| insert_entry(s, e).contains(x) ==> x == e || s.contains(x),
        forall|x: DirectoryEntry| s.contains(x) ==> insert_entry(s, e).contains(x),
        exists|i: int| 0 <= i < insert_entry(s, e).len() && (#[trigger] insert_entry(s, e)[i]).rel_path@ == e.rel_path@,
    decreases s.len(),
{
    let r = insert_entry(s, e);
    if s.len() == 0 {
        assert(r[0] == e);
    } else if s[0].rel_path@ == e.rel_path@ {
        assert(r[0].rel_path@ == e.rel_path@);
    } else if path_before(e.rel_path@, s[0].rel_path@) {
        assert(r == seq![e] + s);
        assert(r[0] == e);
        assert forall|i: int, j: int| 0 <= i < j < r.len() implies path_before(
            #[trigger] r[i].rel_path@,
            #[trigger] r[j].rel_path@,
        ) by {
            if i == 0 {
                assert(r[j] == s[j - 1]);
                if j > 1 {
                    assert(path_before(s[0].rel_path@, s[j - 1].rel_path@));
                    lemma_path_before_transitive(e.rel_path@, s[0].rel_path@, s[j - 1].rel_path@);
                }
            } else {
                assert(r[i] == s[i - 1]);
                assert(r[j] == s[j - 1]);
            }
        }
        assert forall|x: DirectoryEntry| r.contains(x) implies x == e || s.contains(x) by {
            let i = choose|i: int| 0 <= i < r.len() && r[i] == x;
            if i > 0 {
                assert(r[i] == s[i - 1]);
            }
        }
        assert forall|x: DirectoryEntry| s.contains(x) implies r.contains(x) by {
            let i = choose|i: int| 0 <= i < s.len() && s[i] == x;
            assert(r[i + 1] == s[i]);
        }
    } else {
        let rest = s.drop_first();
        assert forall|i: int, j: int| 0 <= i < j < rest.len() implies path_before(
            #[trigger] rest[i].rel_path@,
            #[trigger] rest[j].rel_path@,
        ) by {
            assert(rest[i] == s[i + 1]);
            assert(rest[j] == s[j + 1]);
        }
        lemma_insert_entry(rest, e);
        let ri = insert_entry(rest, e);
        assert(r == seq![s[0]] + ri);
        lemma_path_before_total(e.rel_path@, s[0].rel_path@);
        assert(path_before(s[0].rel_path@, e.rel_path@));
        assert forall|t: int| 0 <= t < ri.len() implies path_before(s[0].rel_path@, #[trigger] ri[t].rel_path@) by {
            assert(ri.contains(ri[t]));
            if ri[t] != e {
                assert(rest.contains(ri[t]));
                let q = choose|q: int| 0 <= q < rest.len() && rest[q] == ri[t];
                assert(rest[q] == s[q + 1]);
                assert(path_before(s[0].rel_path@, s[q + 1].rel_path@));
            }
        }
        assert forall|i: int, j: int| 0 <= i < j < r.len() implies path_before(
            #[trigger] r[i].rel_path@,
            #[trigger] r[j].rel_path@,
        ) by {
            assert(r[j] == ri[j - 1]);
            if i > 0 {
                assert(r[i] == ri[i - 1]);
            }
        }
        assert forall|x: DirectoryEntry| r.contains(x) implies x == e || s.contains(x) by {
            let i = choose|i: int| 0 <= i < r.len() && r[i] == x;
            if i > 0 {
                assert(r[i] == ri[i - 1]);
                assert(ri.contains(x));
                if x != e {
                    assert(rest.contains(x));
                    let q = choose|q: int| 0 <= q < rest.len() && rest[q] == x;
                    assert(s[q + 1] == x);
                }
            } else {
                assert(s[0] == x);
            }
        }
        assert forall|x: DirectoryEntry| s.contains(x) implies r.contains(x) by {
            let i = choose|i: int| 0 <= i < s.len() && s[i] == x;
            if i == 0 {
                assert(r[0] == x);
            } else {
                assert(rest[i - 1] == x);
                assert(rest.contains(x));
                assert(ri.contains(x));
                let q = choose|q: int| 0 <= q < ri.len() && ri[q] == x;
                assert(r[q + 1] == x);
            }
        }
        let w = choose|i: int| 0 <= i < ri.len() && (#[trigger] ri[i]).rel_path@ == e.rel_path@;
        assert(r[w + 1] == ri[w]);
    }
}

/// The entries of a directory session come sorted by path, each path once:
/// every path that an entry has is among them, and each of them is one of
/// the entries.
#[verifier::spinoff_prover]
#[verifier::rlimit(60)]
pub proof fn law_directory_entries_sorted(es: Seq<DirectoryEntry>)
    ensures
        paths_increase(sorted_entries(es)),
        forall|k: int|
            0 <= k < es.len() ==> exists|i: int|
                0 <= i < sorted_entries(es).len() && (#[trigger] sorted_entries(es)[i]).rel_path@
                    == (#[trigger] es[k]).rel_path@,
        forall|i: int| 0 <= i < sorted_entries(es).len() ==> es.contains(#[trigger] sorted_entries(es)[i]),
    decreases es.len(),
{
    if es.len() > 0 {
        let prev = es.drop_last();
        law_directory_entries_sorted(prev);
        let sp = sorted_entries(prev);
        let e = es.last();
        lemma_insert_entry(sp, e);
        let r = sorted_entries(es);
        assert(r == insert_entry(sp, e));
        assert forall|k: int| 0 <= k < es.len() implies exists|i: int|
            0 <= i < r.len() && (#[trigger] r[i]).rel_path@ == (#[trigger] es[k]).rel_path@ by {
            if k < es.len() - 1 {
                assert(es[k] == prev[k]);
                let i = choose|i: int| 0 <= i < sp.len() && (#[trigger] sp[i]).rel_path@ == prev[k].rel_path@;
                assert(sp.contains(sp[i]));
                assert(r.contains(sp[i]));
                let q = choose|q: int| 0 <= q < r.len() && r[q] == sp[i];
                assert(r[q].rel_path@ == es[k].rel_path@);
            } else {
                assert(es[k] == e);
            }
        }
        assert forall|i: int| 0 <= i < r.len() implies es.contains(#[trigger] r[i]) by {
            assert(r.contains(r[i]));
            if r[i] == e {
                assert(es[es.len() - 1] == e);
            } else {
                assert(sp.contains(r[i]));
                let q = choose|q: int| 0 <= q < sp.len() && sp[q] == r[i];
                assert(prev.contains(sp[q]));
                let z = choose|z: int| 0 <= z < prev.len() && prev[z] == sp[q];
                assert(es[z] == prev[z]);
            }
        }
    } else {
        assert(sorted_entries(es) =~= Seq::<DirectoryEntry>::empty());
    }
}

/// The file that a directory entry becomes has the entry's path, and its
/// status follows from which sides exist: added when the old side is
/// missing, deleted when only the new side is missing, modified when both
/// exist.
pub proof fn law_directory_entry_status(e: DirectoryEntry, settings: DiffSettings)
    ensures
        dir_file_spec(e, settings).entry.path == e.rel_path@,
        e.old is None ==> dir_file_spec(e, settings).entry.status == FileStatus::Added,
        e.old is Some && e.new is None ==> dir_file_spec(e, settings).entry.status == FileStatus::Deleted,
        e.old is Some && e.new is Some ==> dir_file_spec(e, settings).entry.status == FileStatus::Modified,
{
}

proof fn lemma_dir_files_from_entries(es: Seq<DirectoryEntry>, settings: DiffSettings)
    ensures
        forall|i: int|
            0 <= i < dir_files_spec(es, settings).len() ==> exists|k: int|
                0 <= k < es.len() && #[trigger] dir_files_spec(es, settings)[i] == dir_file_spec(
                    #[trigger] es[k],
                    settings,
                ),
    decreases es.len(),
{
    if es.len() > 0 {
        let prev = es.drop_last();
        lemma_dir_files_from_entries(prev, settings);
        let fp = dir_files_spec(prev, settings);
        let fs = dir_files_spec(es, settings);
        assert forall|i: int| 0 <= i < fs.len() implies exists|k: int|
            0 <= k < es.len() && #[trigger] fs[i] == dir_file_spec(#[trigger] es[k], settings) by {
            if i < fp.len() {
                assert(fs[i] == fp[i]);
                let k = choose|k: int| 0 <= k < prev.len() && #[trigger] fp[i] == dir_file_spec(#[trigger] prev[k], settings);
                assert(es[k] == prev[k]);
            } else {
                assert(fs[i] == dir_file_spec(es.last(), settings));
                assert(es[es.len() - 1] == es.last());
            }
        }
    }
}

/// Each file of a session comparing two directories comes from one of the
/// entries found: it has that entry's path, and it is added when the entry
/// is missing on the old side, deleted when it is missing on the new side
/// only, and modified when it exists on both.
pub proof fn law_directory_files_status(es: Seq<DirectoryEntry>, settings: DiffSettings)
    ensures
        forall|i: int|
            0 <= i < dir_files_spec(sorted_entries(es), settings).len() ==> exists|k: int|
                0 <= k < es.len() && {
                    let f = #[trigger] dir_files_spec(sorted_entries(es), settings)[i];
                    let e = #[trigger] es[k];
                    &&& f.entry.path == e.rel_path@
                    &&& e.old is None ==> f.entry.status == FileStatus::Added
                    &&& e.old is Some && e.new is None ==> f.entry.status == FileStatus::Deleted
                    &&& e.old is Some && e.new is Some ==> f.entry.status == FileStatus::Modified
                },
{
    let s = sorted_entries(es);
    law_directory_entries_sorted(es);
    lemma_dir_files_from_entries(s, settings);
    let fs = dir_files_spec(s, settings);
    assert forall|i: int| 0 <= i < fs.len() implies exists|k: int|
        0 <= k < es.len() && {
            let f = #[trigger] fs[i];
            let e = #[trigger] es[k];
            &&& f.entry.path == e.rel_path@
            &&& e.old is None ==> f.entry.status == FileStatus::Added
            &&& e.old is Some && e.new is None ==> f.entry.status == FileStatus::Deleted
            &&& e.old is Some && e.new is Some ==> f.entry.status == FileStatus::Modified
        } by {
        let j = choose|j: int| 0 <= j < s.len() && #[trigger] fs[i] == dir_file_spec(#[trigger] s[j], settings);
        assert(es.contains(s[j]));
        let k = choose|k: int| 0 <= k < es.len() && es[k] == s[j];
        law_directory_entry_status(es[k], settings);
    }
}

/// Whether path `x` comes before path `y` (see [`path_before`]).
fn path_before_exec(x: &[char], y: &[char]) -> (r: bool)
    ensures
        r == path_before(x@, y@),
{
    let mut i: usize = 0;
    assert(x@.skip(0) =~= x@);
    assert(y@.skip(0) =~= y@);
    while i < x.len() && i < y.len() && x[i] == y[i]
        invariant
            i <= x.len(),
            i <= y.len(),
            path_before(x@, y@) == path_before(x@.skip(i as int), y@.skip(i as int)),
        decreases x.len() - i,
    {
        assert(x@.skip(i as int).drop_first() =~= x@.skip(i + 1));
        assert(y@.skip(i as int).drop_first() =~= y@.skip(i + 1));
        i = i + 1;
    }
    if i >= x.len() {
        assert(x@.skip(i as int).len() == 0);
        i < y.len()
    } else if i >= y.len() {
        assert(y@.skip(i as int).len() == 0);
        false
    } else {
        assert(x@.skip(i as int)[0] == x@[i as int]);
        assert(y@.skip(i as int)[0] == y@[i as int]);
        let xc = x[i];
        let yc = y[i];
        assert(x@.skip(i as int).len() > 0 && y@.skip(i as int).len() > 0);
        assert(path_before(x@.skip(i as int), y@.skip(i as int)) == (path_char_rank(xc) < path_char_rank(yc)));
        if xc == '/' {
            assert(path_char_rank(yc) >= 0);
            true
        } else if yc == '/' {
            assert(path_char_rank(xc) >= 0);
            false
        } else {
            assert(path_char_rank(xc) == (xc as u32) as int);
            (xc as u32) < (yc as u32)
        }
    }
}

/// Where entry `e` goes among entries sorted by path: the first place `k`
/// whose entry has its path (`found`) or comes after it, else the end.
fn find_slot(v: &Vec<DirectoryEntry>, e: &DirectoryEntry) -> (r: (usize, bool))
    ensures
        r.0 <= v@.len(),
        insert_entry(v@, *e) == v@.take(r.0 as int) + insert_entry(v@.skip(r.0 as int), *e),
        r.1 ==> r.0 < v@.len() && insert_entry(v@.skip(r.0 as int), *e) == v@.skip(r.0 as int),
        !r.1 && r.0 < v@.len() ==> insert_entry(v@.skip(r.0 as int), *e) == seq![*e] + v@.skip(r.0 as int),
        !r.1 ==> r.0 < v@.len() || v@.skip(r.0 as int).len() == 0,
{
    let ghost v0 = v@;
    let key = chars_of(e.rel_path.as_str());
    let mut k: usize = 0;
    assert(v0.skip(0) =~= v0);
    assert(v0.take(0) + v0.skip(0) =~= v0);
    while k < v.len()
        invariant
            v@ == v0,
            k <= v0.len(),
            key@ == e.rel_path@,
            insert_entry(v0, *e) == v0.take(k as int) + insert_entry(v0.skip(k as int), *e),
        decreases v0.len() - k,
    {
        let other = chars_of(v[k].rel_path.as_str());
        assert(v0.skip(k as int)[0] == v0[k as int]);
        assert(other@ == v0[k as int].rel_path@);
        assert(v0.skip(k as int).len() > 0);
        if chars_equal(other.as_slice(), key.as_slice()) {
            return (k, true);
        }
        if path_before_exec(key.as_slice(), other.as_slice()) {
            return (k, false);
        }
        assert(v0.skip(k as int).drop_first() =~= v0.skip(k + 1));
        assert(v0.take(k + 1) =~= v0.take(k as int) + seq![v0[k as int]]);
        k = k + 1;
    }
    (k, false)
}

/// Puts entry `e` into entries sorted by path (see [`insert_entry`]).
fn insert_sorted(v: &mut Vec<DirectoryEntry>, e: DirectoryEntry)
    ensures
        final(v)@ == insert_entry(old(v)@, e),
{
    let ghost v0 = v@;
    let (k, found) = find_slot(v, &e);
    assert(v0.take(k as int) + v0.skip(k as int) =~= v0);
    if !found {
        if k < v.len() {
            v.insert(k, e);
            assert(v@ =~= v0.take(k as int) + (seq![e] + v0.skip(k as int)));
        } else {
            assert(v0.skip(k as int) =~= Seq::<DirectoryEntry>::empty());
            v.push(e);
            assert(v@ =~= v0.take(k as int) + seq![e]);
        }
    }
}

/// The entries sorted by path, each path once (see [`sorted_entries`]).
fn sort_entries(entries: Vec<DirectoryEntry>) -> (r: Vec<DirectoryEntry>)
    ensures
        r@ == sorted_entries(entries@),
{
    let ghost es = entries@;
    let mut sorted: Vec<DirectoryEntry> = Vec::new();
    for e in it: entries
        invariant
            it.seq() == es,
            sorted@ == sorted_entries(es.take(it.index() as int)),
    {
        let ghost k = it.index();
        assert(es.take(k + 1).drop_last() =~= es.take(k as int));
        assert(es.take(k + 1).last() == e);
        insert_sorted(&mut sorted, e);
    }
    assert(es.take(es.len() as int) =~= es);
    sorted
}

fn bytes_equal(a: &Vec<u8>, b: &Vec<u8>) -> (r: bool)
    ensures
        r == (a@ == b@),
{
    if a.len() != b.len() {
        return false;
    }
    let mut i: usize = 0;
    while i < a.len()
        invariant
            0 <= i <= a.len(),
            a.len() == b.len(),
            forall|j: int| 0 <= j < i ==> a@[j] == b@[j],
        decreases a.len() - i,
    {
        if a[i] != b[i] {
            return false;
        }
        i = i + 1;
    }
    assert(a@ =~= b@);
    true
}

fn copy_bytes(a: &Vec<u8>) -> (r: Vec<u8>)
    ensures
        r@ == a@,
{
    let mut r: Vec<u8> = Vec::new();
    let mut i: usize = 0;
    while i < a.len()
        invariant
            0 <= i <= a.len(),
            r@ == a@.take(i as int),
        decreases a.len() - i,
    {
        r.push(a[i]);
        i = i + 1;
    }
    assert(a@.take(a.len() as int) =~= a@);
    r
}

/// Decodes a side of a directory entry, returning also the bytes it is
/// compared by.
fn load_dir_side(side: Option<LoadedContent>) -> (r: (String, bool, Vec<u8>))
    ensures
        (r.0@, r.1) == dir_side(side),
        r.2@ == dir_bytes(side),
{
    match side {
        Some(c) => {
            if let Some(size) = c.size {
                if text_too_large(size) {
                    return (String::new(), true, Vec::new());
                }
            }
            let kept = copy_bytes(&c.bytes);
            let (text, binary) = decode_bytes(c.bytes);
            (text, binary, kept)
        },
        None => (String::new(), false, Vec::new()),
    }
}

impl MultiFileDiff {
    /// Creates a session from one file pair, given as bytes: each side is
    /// decoded (telling binary files apart); the file is shown under
    /// `new_path` with status modified; the given real paths are kept as its
    /// source paths.
    pub fn from_file_pair_with_sources(
        new_path: String,
        old_bytes: Vec<u8>,
        new_bytes: Vec<u8>,
        old_source: Option<String>,
        new_source: Option<String>,
        settings: DiffSettings,
    ) -> (r: Self)
        ensures
            r.wf(),
            r@.files.len() == 1,
            r@.selected == 0,
            r@.repo_root is None,
            r@.git_mode is None,
            r@.source_roots is None,
            r@.settings == settings,
            r@.holds_file(
                0,
                loaded_file_spec(
                    new_path@,
                    None,
                    opt_str_view(old_source),
                    opt_str_view(new_source),
                    FileStatus::Modified,
                    decode_spec(old_bytes@),
                    decode_spec(new_bytes@),
                    settings,
                ),
            ),
    {
        let old_side = decode_bytes(old_bytes);
        let new_side = decode_bytes(new_bytes);
        let f = load_file(
            new_path,
            None,
            old_source,
            new_source,
            FileStatus::Modified,
            old_side,
            new_side,
            settings,
        );
        let mut r = Self::empty(None, None, None, settings);
        r.push_loaded(f);
        r
    }

    /// Creates a session from one file pair, given as bytes.
    pub fn from_file_pair_bytes(
        new_path: String,
        old_bytes: Vec<u8>,
        new_bytes: Vec<u8>,
        settings: DiffSettings,
    ) -> (r: Self)
        ensures
            r.wf(),
            r@.files.len() == 1,
            r@.selected == 0,
            r@.repo_root is None,
            r@.git_mode is None,
            r@.source_roots is None,
            r@.settings == settings,
            r@.holds_file(
                0,
                loaded_file_spec(
                    new_path@,
                    None,
                    None,
                    None,
                    FileStatus::Modified,
                    decode_spec(old_bytes@),
                    decode_spec(new_bytes@),
                    settings,
                ),
            ),
    {
        Self::from_file_pair_with_sources(new_path, old_bytes, new_bytes, None, None, settings)
    }

    /// Creates a session from one file pair, given as texts; the new path is
    /// also the new side's source path.
    pub fn from_file_pair(
        old_path: String,
        new_path: String,
        old_content: String,
        new_content: String,
        settings: DiffSettings,
    ) -> (r: Self)
        ensures
            r.wf(),
            r@.files.len() == 1,
            r@.selected == 0,
            r@.repo_root is None,
            r@.git_mode is None,
            r@.source_roots is None,
            r@.settings == settings,
            r@.holds_file(
                0,
                loaded_file_spec(
                    new_path@,
                    None,
                    None,
                    Some(new_path@),
                    FileStatus::Modified,
                    decode_spec(encode_utf8(old_content@)),
                    decode_spec(encode_utf8(new_content@)),
                    settings,
                ),
            ),
    {
        let shown = copy_string(&new_path);
        Self::from_file_pair_with_sources(
            shown,
            string_into_bytes(old_content),
            string_into_bytes(new_content),
            None,
            Some(new_path),
            settings,
        )
    }

    /// Creates a session from several (path, old text, new text) triples.
    pub fn from_file_pairs(pairs: Vec<(String, String, String)>, settings: DiffSettings) -> (r:
        Self)
        ensures
            r.wf(),
            r@.files.len() == pairs.len(),
            r@.selected == 0,
            r@.repo_root is None,
            r@.git_mode is None,
            r@.source_roots is None,
            r@.settings == settings,
            forall|i: int|
                0 <= i < pairs.len() ==> r@.holds_file(
                    i,
                    loaded_file_spec(
                        (#[trigger] pairs@[i]).0@,
                        None,
                        None,
                        None,
                        FileStatus::Modified,
                        decode_spec(encode_utf8(pairs@[i].1@)),
                        decode_spec(encode_utf8(pairs@[i].2@)),
                        settings,
                    ),
                ),
    {
        let ghost ps = pairs@;
        let mut r = Self::empty(None, None, None, settings);
        for pair in it: pairs
            invariant
                it.seq() == ps,
                r.wf(),
                r@.files.len() == it.index(),
                r@.selected == 0,
                r@.repo_root is None,
                r@.git_mode is None,
                r@.source_roots is None,
                r@.settings == settings,
                forall|i: int|
                    0 <= i < it.index() ==> r@.holds_file(
                        i,
                        loaded_file_spec(
                            (#[trigger] ps[i]).0@,
                            None,
                            None,
                            None,
                            FileStatus::Modified,
                            decode_spec(encode_utf8(ps[i].1@)),
                            decode_spec(encode_utf8(ps[i].2@)),
                            settings,
                        ),
                    ),
        {
            let (path, old_text, new_text) = pair;
            let old_side = decode_bytes(string_into_bytes(old_text));
            let new_side = decode_bytes(string_into_bytes(new_text));
            let f = load_file(
                path,
                None,
                None,
                None,
                FileStatus::Modified,
                old_side,
                new_side,
                settings,
            );
            r.push_loaded(f);
        }
        r
    }

    /// Creates a git session from changed files and their read sides.
    fn from_git_mode(
        repo_root: String,
        mode: GitDiffMode,
        inputs: Vec<GitFileInput>,
        settings: DiffSettings,
    ) -> (r: Self)
        ensures
            r.wf(),
            r@.files.len() == inputs.len(),
            r@.selected == 0,
            r@.repo_root == Some(repo_root@),
            r@.git_mode == Some(mode@),
            r@.source_roots is None,
            r@.settings == settings,
            forall|i: int|
                0 <= i < inputs.len() ==> r@.holds_file(i, git_file_spec(#[trigger] inputs@[i], settings)),
    {
        let ghost ins = inputs@;
        let mut r = Self::empty(Some(repo_root), Some(mode), None, settings);
        for input in it: inputs
            invariant
                it.seq() == ins,
                r.wf(),
                r@.files.len() == it.index(),
                r@.selected == 0,
                r@.repo_root == Some(repo_root@),
                r@.git_mode == Some(mode@),
                r@.source_roots is None,
                r@.settings == settings,
                forall|i: int|
                    0 <= i < it.index() ==> r@.holds_file(i, git_file_spec(#[trigger] ins[i], settings)),
        {
            let f = load_git_file(input, settings);
            r.push_loaded(f);
        }
        r
    }

    /// Creates a session of uncommitted changes (HEAD against the working
    /// tree) from the changed files and their read sides.
    pub fn from_git_changes(repo_root: String, inputs: Vec<GitFileInput>, settings: DiffSettings) -> (r: Self)
        ensures
            r.wf(),
            r@.files.len() == inputs.len(),
            r@.selected == 0,
            r@.repo_root == Some(repo_root@),
            r@.git_mode == Some(GitDiffModeModel::Uncommitted),
            r@.source_roots is None,
            r@.settings == settings,
            forall|i: int|
                0 <= i < inputs.len() ==> r@.holds_file(i, git_file_spec(#[trigger] inputs@[i], settings)),
    {
        Self::from_git_mode(repo_root, GitDiffMode::Uncommitted, inputs, settings)
    }

    /// Creates a session of staged changes (HEAD against the index).
    pub fn from_git_staged(repo_root: String, inputs: Vec<GitFileInput>, settings: DiffSettings) -> (r: Self)
        ensures
            r.wf(),
            r@.files.len() == inputs.len(),
            r@.selected == 0,
            r@.repo_root == Some(repo_root@),
            r@.git_mode == Some(GitDiffModeModel::Staged),
            r@.source_roots is None,
            r@.settings == settings,
            forall|i: int|
                0 <= i < inputs.len() ==> r@.holds_file(i, git_file_spec(#[trigger] inputs@[i], settings)),
    {
        Self::from_git_mode(repo_root, GitDiffMode::Staged, inputs, settings)
    }

    /// Creates a session of a commit against the index (`to_index`), or of
    /// the index against a commit.
    pub fn from_git_index_range(
        repo_root: String,
        inputs: Vec<GitFileInput>,
        from: String,
        to_index: bool,
        settings: DiffSettings,
    ) -> (r: Self)
        ensures
            r.wf(),
            r@.files.len() == inputs.len(),
            r@.selected == 0,
            r@.repo_root == Some(repo_root@),
            r@.git_mode == Some(GitDiffModeModel::IndexRange { from: from@, to_index }),
            r@.source_roots is None,
            r@.settings == settings,
            forall|i: int|
                0 <= i < inputs.len() ==> r@.holds_file(i, git_file_spec(#[trigger] inputs@[i], settings)),
    {
        Self::from_git_mode(repo_root, GitDiffMode::IndexRange { from, to_index }, inputs, settings)
    }

    /// Creates a session of one commit against another (`from..to`).
    pub fn from_git_range(
        repo_root: String,
        inputs: Vec<GitFileInput>,
        from: String,
        to: String,
        settings: DiffSettings,
    ) -> (r: Self)
        ensures
            r.wf(),
            r@.files.len() == inputs.len(),
            r@.selected == 0,
            r@.repo_root == Some(repo_root@),
            r@.git_mode == Some(GitDiffModeModel::Range { from: from@, to: to@ }),
            r@.source_roots is None,
            r@.settings == settings,
            forall|i: int|
                0 <= i < inputs.len() ==> r@.holds_file(i, git_file_spec(#[trigger] inputs@[i], settings)),
    {
        Self::from_git_mode(repo_root, GitDiffMode::Range { from, to }, inputs, settings)
    }

    /// Creates a session comparing two directories from the files found under
    /// either root (with each side as read): the files in the order of their
    /// paths, each path once, and those whose two sides have the same bytes
    /// left out.
    pub fn from_directories(
        old_dir: String,
        new_dir: String,
        entries: Vec<DirectoryEntry>,
        settings: DiffSettings,
    ) -> (r: Self)
        ensures
            r.wf(),
            r@.selected == 0,
            r@.repo_root is None,
            r@.git_mode is None,
            r@.source_roots == Some((old_dir@, new_dir@)),
            r@.settings == settings,
            r@.files.len() == dir_files_spec(sorted_entries(entries@), settings).len(),
            forall|i: int|
                0 <= i < r@.files.len() ==> r@.holds_file(
                    i,
                    #[trigger] dir_files_spec(sorted_entries(entries@), settings)[i],
                ),
    {
        let sorted = sort_entries(entries);
        let ghost es = sorted@;
        let mut r = Self::empty(None, None, Some(SourceRoots { old: old_dir, new: new_dir }), settings);
        for e in it: sorted
            invariant
                it.seq() == es,
                r.wf(),
                r@.selected == 0,
                r@.repo_root is None,
                r@.git_mode is None,
                r@.source_roots == Some((old_dir@, new_dir@)),
                r@.settings == settings,
                r@.files.len() == dir_files_spec(es.take(it.index() as int), settings).len(),
                forall|i: int|
                    0 <= i < r@.files.len() ==> r@.holds_file(
                        i,
                        #[trigger] dir_files_spec(es.take(it.index() as int), settings)[i],
                    ),
        {
            let ghost k = it.index();
            let ghost ge = e;
            assert(es.take(k + 1).drop_last() =~= es.take(k as int));
            assert(es.take(k + 1).last() == ge);
            let ghost before = dir_files_spec(es.take(k as int), settings);
            let status = if e.old.is_none() {
                FileStatus::Added
            } else if e.new.is_none() {
                FileStatus::Deleted
            } else {
                FileStatus::Modified
            };
            let DirectoryEntry { rel_path, old, new } = e;
            let (old_text, old_binary, old_bytes) = load_dir_side(old);
            let (new_text, new_binary, new_bytes) = load_dir_side(new);
            let binary = old_binary || new_binary;
            if !binary && bytes_equal(&old_bytes, &new_bytes) {
                assert(dir_files_spec(es.take(k + 1), settings) =~= before);
            } else {
                let f = load_file(
                    rel_path,
                    None,
                    None,
                    None,
                    status,
                    (old_text, old_binary),
                    (new_text, new_binary),
                    settings,
                );
                let ghost prev = r@;
                r.push_loaded(f);
                assert(dir_files_spec(es.take(k + 1), settings) =~= before.push(f@));
            }
        }
        assert(es.take(es.len() as int) =~= es);
        r
    }
}

// ---------------------------------------------------------------------------
// Paths, ranges and blame sources.
// ---------------------------------------------------------------------------

/// The path of side `side` of file `idx` on disk: its recorded source path
/// if any; else its path on that side (the old path of a rename; the path of
/// an old side only when the session has roots) taken as is when absolute,
/// else under the side's source root, else under the repository root.
pub open spec fn source_path_spec(m: MultiFileDiffModel, idx: int, side: FileSide) -> Option<Seq<char>> {
    if !(0 <= idx < m.files.len()) {
        None
    } else {
        let f = m.files[idx];
        let explicit = match side {
            FileSide::Old => f.old_source_path,
            FileSide::New => f.new_source_path,
        };
        if explicit is Some {
            explicit
        } else {
            let rel: Option<Seq<char>> = match side {
                FileSide::Old => if f.old_path is Some {
                    f.old_path
                } else if m.source_roots is Some || m.repo_root is Some {
                    Some(f.path)
                } else {
                    None
                },
                FileSide::New => Some(f.path),
            };
            match rel {
                None => None,
                Some(r) => if is_absolute(r) {
                    Some(r)
                } else {
                    match m.source_roots {
                        Some(roots) => Some(
                            join(
                                match side {
                                    FileSide::Old => roots.0,
                                    FileSide::New => roots.1,
                                },
                                r,
                            ),
                        ),
                        None => match m.repo_root {
                            Some(root) => Some(join(root, r)),
                            None => None,
                        },
                    }
                },
            }
        }
    }
}

/// The text "HEAD".
pub open spec fn head_word() -> Seq<char> {
    seq!['H', 'E', 'A', 'D']
}

/// The text "INDEX".
pub open spec fn index_word() -> Seq<char> {
    seq!['I', 'N', 'D', 'E', 'X']
}

/// The text "STAGED".
pub open spec fn staged_word() -> Seq<char> {
    seq!['S', 'T', 'A', 'G', 'E', 'D']
}

/// A commit hash cut to its first seven characters.
pub open spec fn shorten_hash_spec(hash: Seq<char>) -> Seq<char> {
    if hash.len() <= 7 {
        hash
    } else {
        hash.take(7)
    }
}

/// How a revision is shown in a header: HEAD as is, the index as STAGED,
/// anything else as a short hash.
pub open spec fn format_ref_spec(r: Seq<char>) -> Seq<char> {
    if r == head_word() {
        head_word()
    } else if r == index_word() {
        staged_word()
    } else {
        shorten_hash_spec(r)
    }
}

fn word(which: u8) -> (v: Vec<char>)
    ensures
        which == 0 ==> v@ == head_word(),
        which == 1 ==> v@ == index_word(),
        which == 2 ==> v@ == staged_word(),
{
    let mut v: Vec<char> = Vec::new();
    if which == 0 {
        v.push('H');
        v.push('E');
        v.push('A');
        v.push('D');
        assert(v@ =~= head_word());
    } else if which == 1 {
        v.push('I');
        v.push('N');
        v.push('D');
        v.push('E');
        v.push('X');
        assert(v@ =~= index_word());
    } else if which == 2 {
        v.push('S');
        v.push('T');
        v.push('A');
        v.push('G');
        v.push('E');
        v.push('D');
        assert(v@ =~= staged_word());
    }
    v
}

fn chars_equal(a: &[char], b: &[char]) -> (r: bool)
    ensures
        r == (a@ == b@),
{
    if a.len() != b.len() {
        return false;
    }
    let mut i: usize = 0;
    while i < a.len()
        invariant
            0 <= i <= a.len(),
            a.len() == b.len(),
            forall|j: int| 0 <= j < i ==> a@[j] == b@[j],
        decreases a.len() - i,
    {
        if a[i] != b[i] {
            return false;
        }
        i = i + 1;
    }
    assert(a@ =~= b@);
    true
}

/// The first seven characters of a commit hash.
pub fn shorten_hash(hash: &str) -> (r: String)
    ensures
        r@ == shorten_hash_spec(hash@),
{
    let c = chars_of(hash);
    let n = if c.len() <= 7 {
        c.len()
    } else {
        7
    };
    let mut out: Vec<char> = Vec::new();
    let mut i: usize = 0;
    while i < n
        invariant
            0 <= i <= n <= c.len(),
            out@ == c@.take(i as int),
        decreases n - i,
    {
        out.push(c[i]);
        i = i + 1;
    }
    assert(c@.len() <= 7 ==> c@.take(n as int) =~= c@);
    string_from_chars(out.as_slice())
}

/// How a revision is shown in a header.
pub fn format_ref(reference: &str) -> (r: String)
    ensures
        r@ == format_ref_spec(reference@),
{
    let c = chars_of(reference);
    let head = word(0);
    if chars_equal(c.as_slice(), head.as_slice()) {
        return string_from_chars(head.as_slice());
    }
    let index = word(1);
    if chars_equal(c.as_slice(), index.as_slice()) {
        let staged = word(2);
        return string_from_chars(staged.as_slice());
    }
    shorten_hash(reference)
}

/// The two sides shown in the header of a range session: the formatted
/// revisions of a commit range; for an index range the formatted commit and
/// STAGED, in the order of the comparison; nothing for other sessions.
pub open spec fn git_range_display_spec(mode: Option<GitDiffModeModel>) -> Option<(Seq<char>, Seq<char>)> {
    match mode {
        Some(GitDiffModeModel::Range { from, to }) => Some((format_ref_spec(from), format_ref_spec(to))),
        Some(GitDiffModeModel::IndexRange { from, to_index }) => if to_index {
            Some((format_ref_spec(from), staged_word()))
        } else {
            Some((staged_word(), format_ref_spec(from)))
        },
        _ => None,
    }
}

/// Where blame for the (old, new) sides comes from in a git session: HEAD and
/// the working tree for uncommitted changes; HEAD and the index for staged
/// changes; the two commits of a range; the commit and the index (in the
/// order of the comparison) for an index range.
pub open spec fn blame_sources_spec(mode: Option<GitDiffModeModel>) -> Option<(BlameSourceModel, BlameSourceModel)> {
    match mode {
        None => None,
        Some(GitDiffModeModel::Uncommitted) => Some(
            (BlameSourceModel::Commit(head_word()), BlameSourceModel::Worktree),
        ),
        Some(GitDiffModeModel::Staged) => Some(
            (BlameSourceModel::Commit(head_word()), BlameSourceModel::Index),
        ),
        Some(GitDiffModeModel::Range { from, to }) => Some(
            (BlameSourceModel::Commit(from), BlameSourceModel::Commit(to)),
        ),
        Some(GitDiffModeModel::IndexRange { from, to_index }) => if to_index {
            Some((BlameSourceModel::Commit(from), BlameSourceModel::Index))
        } else {
            Some((BlameSourceModel::Index, BlameSourceModel::Commit(from)))
        },
    }
}

/// The session after moving to the next file: the selection moves on when
/// there is a next file.
pub open spec fn next_spec(m: MultiFileDiffModel) -> MultiFileDiffModel {
    if m.selected + 1 < m.files.len() {
        MultiFileDiffModel { selected: m.selected + 1, ..m }
    } else {
        m
    }
}

/// The session after moving to the previous file: the selection moves back
/// when it is not on the first file.
pub open spec fn prev_spec(m: MultiFileDiffModel) -> MultiFileDiffModel {
    if m.selected > 0 {
        MultiFileDiffModel { selected: (m.selected - 1) as nat, ..m }
    } else {
        m
    }
}

/// The session after selecting file `index`: selected when it exists.
pub open spec fn select_spec(m: MultiFileDiffModel, index: int) -> MultiFileDiffModel {
    if 0 <= index < m.files.len() {
        MultiFileDiffModel { selected: index as nat, ..m }
    } else {
        m
    }
}

/// Whether file `idx` is larger (either side) than the diff limit.
pub open spec fn file_is_large_spec(m: MultiFileDiffModel, idx: int) -> bool {
    let o = if 0 <= idx < m.old_contents.len() {
        m.old_contents[idx]
    } else {
        Seq::empty()
    };
    let n = if 0 <= idx < m.new_contents.len() {
        m.new_contents[idx]
    } else {
        Seq::empty()
    };
    max_len(o, n) > m.settings.diff_max_bytes
}

/// Sum of the inserted (`ins`) or deleted line counts of the entries.
pub open spec fn total_count(files: Seq<FileEntryModel>, ins: bool) -> nat
    decreases files.len(),
{
    if files.len() == 0 {
        0
    } else {
        total_count(files.drop_last(), ins) + if ins {
            files.last().insertions as nat
        } else {
            files.last().deletions as nat
        }
    }
}

proof fn lemma_total_count_prefix(files: Seq<FileEntryModel>, k: int, ins: bool)
    requires
        0 <= k <= files.len(),
    ensures
        total_count(files.take(k), ins) <= total_count(files, ins),
    decreases files.len(),
{
    if k < files.len() {
        assert(files.drop_last().take(k) =~= files.take(k));
        lemma_total_count_prefix(files.drop_last(), k, ins);
    } else {
        assert(files.take(k) =~= files);
    }
}

impl MultiFileDiff {
    /// Sets the size above which diffs are deferred (at least one byte).
    pub fn set_diff_max_bytes(settings: &mut DiffSettings, max_bytes: u64)
        ensures
            *final(settings) == (DiffSettings {
                diff_max_bytes: if max_bytes >= 1 {
                    max_bytes
                } else {
                    1
                },
                ..*old(settings)
            }),
    {
        settings.diff_max_bytes = if max_bytes >= 1 {
            max_bytes
        } else {
            1
        };
    }

    /// Sets the size above which a diff keeps only a few context lines (at
    /// least one byte).
    pub fn set_full_context_max_bytes(settings: &mut DiffSettings, max_bytes: u64)
        ensures
            *final(settings) == (DiffSettings {
                full_context_max_bytes: if max_bytes >= 1 {
                    max_bytes
                } else {
                    1
                },
                ..*old(settings)
            }),
    {
        settings.full_context_max_bytes = if max_bytes >= 1 {
            max_bytes
        } else {
            1
        };
    }

    /// Sets whether large diffs are computed in the background.
    pub fn set_diff_defer(settings: &mut DiffSettings, enabled: bool)
        ensures
            *final(settings) == (DiffSettings { defer: enabled, ..*old(settings) }),
    {
        settings.defer = enabled;
    }

    /// The diff limits of this session.
    pub fn settings(&self) -> (r: DiffSettings)
        ensures
            r == self@.settings,
    {
        self.settings
    }

    /// Computes the diff of a file pair under the limits `settings` (see
    /// [`diff_strings_spec`]).
    pub fn compute_diff(old: &str, new: &str, settings: DiffSettings) -> (r: DiffResult)
        ensures
            r@ == diff_strings_spec(old@, new@, settings),
    {
        diff_strings(old, new, settings)
    }

    /// The selected file.
    pub fn current_file(&self) -> (r: Option<&FileEntry>)
        requires
            self.wf(),
        ensures
            match r {
                Some(f) => self@.selected < self@.files.len() && f@ == self@.files[self@.selected as int],
                None => self@.files.len() == 0,
            },
    {
        if self.selected_index < self.files.len() {
            Some(&self.files[self.selected_index])
        } else {
            None
        }
    }

    /// The display names of the files, each once, where it first occurs:
    /// the changed files a review comment can mention.
    pub fn review_changed_file_paths(&self) -> (r: Vec<String>)
        ensures
            strings_view(r@) == first_occurrences(
                self@.files.map_values(|f: FileEntryModel| f.display_name),
            ),
    {
        let ghost names = self@.files.map_values(|f: FileEntryModel| f.display_name);
        let mut out: Vec<String> = Vec::new();
        assert(names.take(0) =~= Seq::<Seq<char>>::empty());
        for i in 0..self.files.len()
            invariant
                names == self@.files.map_values(|f: FileEntryModel| f.display_name),
                names.len() == self.files.len(),
                strings_view(out@) == first_occurrences(names.take(i as int)),
        {
            let name = &self.files[i].display_name;
            assert(names[i as int] == name@);
            assert(names.take(i + 1).drop_last() =~= names.take(i as int));
            if !contains_string(&out, name) {
                let ghost before = out@;
                out.push(name.clone());
                assert(strings_view(out@) =~= strings_view(before).push(name@));
            }
        }
        assert(names.take(self.files.len() as int) =~= names);
        out
    }

    /// The (old, new) texts of file `idx`.
    pub fn file_contents(&self, idx: usize) -> (r: Option<(&str, &str)>)
        requires
            self.wf(),
        ensures
            match r {
                Some(p) => idx < self@.files.len() && p.0@ == self@.old_contents[idx as int] && p.1@
                    == self@.new_contents[idx as int],
                None => idx >= self@.files.len(),
            },
    {
        if idx < self.old_contents.len() && idx < self.new_contents.len() {
            Some((self.old_contents[idx].as_str(), self.new_contents[idx].as_str()))
        } else {
            None
        }
    }

    /// Owned copies of the (old, new) texts of file `idx`.
    pub fn file_contents_arc(&self, idx: usize) -> (r: Option<(String, String)>)
        requires
            self.wf(),
        ensures
            match r {
                Some(p) => idx < self@.files.len() && p.0@ == self@.old_contents[idx as int] && p.1@
                    == self@.new_contents[idx as int],
                None => idx >= self@.files.len(),
            },
    {
        if idx < self.old_contents.len() && idx < self.new_contents.len() {
            Some((self.old_contents[idx].clone(), self.new_contents[idx].clone()))
        } else {
            None
        }
    }

    /// Sets the real roots of the two sides.
    pub fn set_source_roots(&mut self, old_root: String, new_root: String)
        requires
            old(self).wf(),
        ensures
            final(self).wf(),
            final(self)@ == (MultiFileDiffModel {
                source_roots: Some((old_root@, new_root@)),
                ..old(self)@
            }),
    {
        self.source_roots = Some(SourceRoots { old: old_root, new: new_root });
    }

    /// Forgets the real roots of the two sides.
    pub fn clear_source_roots(&mut self)
        requires
            old(self).wf(),
        ensures
            final(self).wf(),
            final(self)@ == (MultiFileDiffModel { source_roots: None, ..old(self)@ }),
    {
        self.source_roots = None;
    }

    /// The path of one side of file `idx` on disk, when it can be told.
    pub fn source_path(&self, idx: usize, side: FileSide) -> (r: Option<String>)
        requires
            self.wf(),
        ensures
            opt_str_view(r) == source_path_spec(self@, idx as int, side),
    {
        if idx >= self.files.len() {
            return None;
        }
        let file = &self.files[idx];
        let explicit = match side {
            FileSide::Old => &file.old_source_path,
            FileSide::New => &file.new_source_path,
        };
        if let Some(path) = explicit {
            return Some(path.clone());
        }
        let rel: &String = match side {
            FileSide::Old => match &file.old_path {
                Some(p) => p,
                None => {
                    if self.source_roots.is_some() || self.repo_root.is_some() {
                        &file.path
                    } else {
                        return None;
                    }
                },
            },
            FileSide::New => &file.path,
        };
        if path_is_absolute(rel.as_str()) {
            return Some(rel.clone());
        }
        if let Some(roots) = &self.source_roots {
            let root = match side {
                FileSide::Old => &roots.old,
                FileSide::New => &roots.new,
            };
            return Some(path_join(root.as_str(), rel.as_str()));
        }
        match &self.repo_root {
            Some(root) => Some(path_join(root.as_str(), rel.as_str())),
            None => None,
        }
    }

    /// Whether the selected file is binary.
    pub fn current_file_is_binary(&self) -> (r: bool)
        requires
            self.wf(),
        ensures
            r == (self@.files.len() > 0 && self@.files[self@.selected as int].binary),
    {
        if self.selected_index < self.files.len() {
            self.files[self.selected_index].binary
        } else {
            false
        }
    }

    /// True when the selected file's diff is not ready (deferred, computing,
    /// failed or disabled).
    pub fn current_file_diff_disabled(&self) -> (r: bool)
        requires
            self.wf(),
        ensures
            r == (self@.files.len() > 0 && self@.statuses[self@.selected as int]
                != DiffStatus::Ready),
    {
        if self.selected_index < self.diff_statuses.len() {
            !matches!(self.diff_statuses[self.selected_index], DiffStatus::Ready)
        } else {
            false
        }
    }

    /// The diff status of file `idx` (`Ready` past the last file).
    pub fn diff_status(&self, idx: usize) -> (r: DiffStatus)
        requires
            self.wf(),
        ensures
            r == self@.status_at(idx as int),
    {
        if idx < self.diff_statuses.len() {
            self.diff_statuses[idx]
        } else {
            DiffStatus::Ready
        }
    }

    /// Whether either side of file `idx` is larger than the diff limit.
    pub fn file_is_large(&self, idx: usize) -> (r: bool)
        requires
            self.wf(),
        ensures
            r == file_is_large_spec(self@, idx as int),
    {
        let old_len: u128 = if idx < self.old_contents.len() {
            utf8_len_of(chars_of(self.old_contents[idx].as_str()).as_slice())
        } else {
            0
        };
        let new_len: u128 = if idx < self.new_contents.len() {
            utf8_len_of(chars_of(self.new_contents[idx].as_str()).as_slice())
        } else {
            0
        };
        proof {
            assert(utf8_len(Seq::<char>::empty()) == 0);
        }
        let m = if old_len >= new_len {
            old_len
        } else {
            new_len
        };
        m > self.settings.diff_max_bytes as u128
    }

    /// Whether the selected file is larger than the diff limit.
    pub fn current_file_is_large(&self) -> (r: bool)
        requires
            self.wf(),
        ensures
            r == file_is_large_spec(self@, self@.selected as int),
    {
        self.file_is_large(self.selected_index)
    }

    /// Whether the selected file's navigator shows a placeholder diff.
    pub fn current_navigator_is_placeholder(&self) -> (r: bool)
        requires
            self.wf(),
        ensures
            r == (self@.files.len() > 0 && self@.placeholders[self@.selected as int]),
    {
        if self.selected_index < self.navigator_is_placeholder.len() {
            self.navigator_is_placeholder[self.selected_index]
        } else {
            false
        }
    }

    /// The diff status of the selected file.
    pub fn current_file_diff_status(&self) -> (r: DiffStatus)
        requires
            self.wf(),
        ensures
            r == self@.status_at(self@.selected as int),
    {
        self.diff_status(self.selected_index)
    }

    /// Marks file `idx` as being diffed in the background.
    pub fn mark_diff_computing(&mut self, idx: usize)
        requires
            old(self).wf(),
        ensures
            final(self).wf(),
            final(self)@ == (if idx < old(self)@.files.len() {
                MultiFileDiffModel {
                    statuses: old(self)@.statuses.update(idx as int, DiffStatus::Computing),
                    ..old(self)@
                }
            } else {
                old(self)@
            }),
    {
        if idx < self.diff_statuses.len() {
            self.diff_statuses.set(idx, DiffStatus::Computing);
        }
    }

    /// Marks file `idx`'s background diff as failed.
    pub fn mark_diff_failed(&mut self, idx: usize)
        requires
            old(self).wf(),
        ensures
            final(self).wf(),
            final(self)@ == (if idx < old(self)@.files.len() {
                MultiFileDiffModel {
                    statuses: old(self)@.statuses.update(idx as int, DiffStatus::Failed),
                    ..old(self)@
                }
            } else {
                old(self)@
            }),
    {
        if idx < self.diff_statuses.len() {
            self.diff_statuses.set(idx, DiffStatus::Failed);
        }
    }

    /// The selected file index moves to the next file, if there is one.
    pub fn next_file(&mut self) -> (r: bool)
        requires
            old(self).wf(),
        ensures
            final(self).wf(),
            r == (old(self)@.selected + 1 < old(self)@.files.len()),
            final(self)@ == next_spec(old(self)@),
    {
        if self.files.len() > 0 && self.selected_index < self.files.len() - 1 {
            self.selected_index = self.selected_index + 1;
            true
        } else {
            false
        }
    }

    /// The selected file index moves to the previous file, if there is one.
    pub fn prev_file(&mut self) -> (r: bool)
        requires
            old(self).wf(),
        ensures
            final(self).wf(),
            r == (old(self)@.selected > 0),
            final(self)@ == prev_spec(old(self)@),
    {
        if self.selected_index > 0 {
            self.selected_index = self.selected_index - 1;
            true
        } else {
            false
        }
    }

    /// Selects file `index` when it exists.
    pub fn select_file(&mut self, index: usize)
        requires
            old(self).wf(),
        ensures
            final(self).wf(),
            final(self)@ == select_spec(old(self)@, index as int),
    {
        if index < self.files.len() {
            self.selected_index = index;
        }
    }

    /// Number of files.
    pub fn file_count(&self) -> (r: usize)
        requires
            self.wf(),
        ensures
            r == self@.files.len(),
    {
        self.files.len()
    }

    /// Repository root (git sessions only).
    pub fn repo_root(&self) -> (r: Option<&str>)
        requires
            self.wf(),
        ensures
            match r {
                Some(p) => self@.repo_root == Some(p@),
                None => self@.repo_root is None,
            },
    {
        match &self.repo_root {
            Some(root) => Some(root.as_str()),
            None => None,
        }
    }

    /// True for a session built from git changes.
    pub fn is_git_mode(&self) -> (r: bool)
        requires
            self.wf(),
        ensures
            r == self@.repo_root is Some,
    {
        self.repo_root.is_some()
    }

    /// True when the session reads one side from the git index.
    pub fn uses_git_index(&self) -> (r: bool)
        requires
            self.wf(),
        ensures
            r == (self@.git_mode matches Some(GitDiffModeModel::Staged) || self@.git_mode matches Some(
                GitDiffModeModel::IndexRange { .. },
            )),
    {
        match &self.git_mode {
            Some(GitDiffMode::Staged) => true,
            Some(GitDiffMode::IndexRange { .. }) => true,
            _ => false,
        }
    }

    /// The two sides shown in the header of a range session.
    pub fn git_range_display(&self) -> (r: Option<(String, String)>)
        requires
            self.wf(),
        ensures
            match r {
                Some(p) => git_range_display_spec(self@.git_mode) == Some((p.0@, p.1@)),
                None => git_range_display_spec(self@.git_mode) is None,
            },
    {
        match &self.git_mode {
            Some(GitDiffMode::Range { from, to }) => Some(
                (format_ref(from.as_str()), format_ref(to.as_str())),
            ),
            Some(GitDiffMode::IndexRange { from, to_index }) => {
                let staged = string_from_chars(word(2).as_slice());
                if *to_index {
                    Some((format_ref(from.as_str()), staged))
                } else {
                    Some((staged, format_ref(from.as_str())))
                }
            },
            _ => None,
        }
    }

    /// Where blame comes from for the two sides of a git session.
    pub fn blame_sources(&self) -> (r: Option<(BlameSource, BlameSource)>)
        requires
            self.wf(),
        ensures
            match r {
                Some(p) => blame_sources_spec(self@.git_mode) == Some((p.0@, p.1@)),
                None => blame_sources_spec(self@.git_mode) is None,
            },
    {
        match &self.git_mode {
            None => None,
            Some(GitDiffMode::Uncommitted) => Some(
                (BlameSource::Commit(string_from_chars(word(0).as_slice())), BlameSource::Worktree),
            ),
            Some(GitDiffMode::Staged) => Some(
                (BlameSource::Commit(string_from_chars(word(0).as_slice())), BlameSource::Index),
            ),
            Some(GitDiffMode::Range { from, to }) => Some(
                (BlameSource::Commit(from.clone()), BlameSource::Commit(to.clone())),
            ),
            Some(GitDiffMode::IndexRange { from, to_index }) => {
                if *to_index {
                    Some((BlameSource::Commit(from.clone()), BlameSource::Index))
                } else {
                    Some((BlameSource::Index, BlameSource::Commit(from.clone())))
                }
            },
        }
    }

    /// Direction of the last step in the selected file (none until its
    /// navigator is built).
    pub fn current_step_direction(&self) -> (r: StepDirection)
        requires
            self.wf(),
        ensures
            r == (if self@.files.len() > 0 && self@.navigators[self@.selected as int] is Some {
                self@.navigators[self@.selected as int]->0.step_direction
            } else {
                StepDirection::Stationary
            }),
    {
        if self.selected_index < self.navigators.len() {
            match &self.navigators[self.selected_index] {
                Some(nav) => nav.step_direction(),
                None => StepDirection::Stationary,
            }
        } else {
            StepDirection::Stationary
        }
    }

    /// True with more than one file.
    pub fn is_multi_file(&self) -> (r: bool)
        requires
            self.wf(),
        ensures
            r == (self@.files.len() > 1),
    {
        self.files.len() > 1
    }

    /// Inserted and deleted line counts summed over all files.
    pub fn total_stats(&self) -> (r: (usize, usize))
        requires
            self.wf(),
            total_count(self@.files, true) <= usize::MAX,
            total_count(self@.files, false) <= usize::MAX,
        ensures
            r.0 == total_count(self@.files, true),
            r.1 == total_count(self@.files, false),
    {
        let ghost fs = self@.files;
        let mut ins: usize = 0;
        let mut del: usize = 0;
        let mut i: usize = 0;
        while i < self.files.len()
            invariant
                0 <= i <= self.files.len(),
                fs == self@.files,
                fs == entries_view(self.files@),
                total_count(fs, true) <= usize::MAX,
                total_count(fs, false) <= usize::MAX,
                ins == total_count(fs.take(i as int), true),
                del == total_count(fs.take(i as int), false),
            decreases self.files.len() - i,
        {
            assert(fs.take(i + 1).drop_last() =~= fs.take(i as int));
            proof {
                lemma_total_count_prefix(fs, i + 1, true);
                lemma_total_count_prefix(fs, i + 1, false);
            }
            ins = ins + self.files[i].insertions;
            del = del + self.files[i].deletions;
            i = i + 1;
        }
        assert(fs.take(self.files.len() as int) =~= fs);
        (ins, del)
    }

    /// Whether the selected file's old text is empty (true with no files).
    pub fn current_old_is_empty(&self) -> (r: bool)
        requires
            self.wf(),
        ensures
            r == (self@.files.len() == 0 || self@.old_contents[self@.selected as int].len() == 0),
    {
        if self.selected_index < self.old_contents.len() {
            self.old_contents[self.selected_index].as_str().is_empty()
        } else {
            true
        }
    }

    /// Whether the selected file's new text is empty (true with no files).
    pub fn current_new_is_empty(&self) -> (r: bool)
        requires
            self.wf(),
        ensures
            r == (self@.files.len() == 0 || self@.new_contents[self@.selected as int].len() == 0),
    {
        if self.selected_index < self.new_contents.len() {
            self.new_contents[self.selected_index].as_str().is_empty()
        } else {
            true
        }
    }
}

// ---------------------------------------------------------------------------
// Navigators and background diffs.
// ---------------------------------------------------------------------------

/// The diff a navigator of file `idx` is built from: the kept diff (ready or
/// placeholder) if any, else the diff of its texts.
pub open spec fn nav_diff_spec(m: MultiFileDiffModel, idx: int) -> DiffResultModel {
    match m.precomputed[idx] {
        Some(PrecomputedModel::Ready(d)) => d,
        Some(PrecomputedModel::Placeholder(d)) => d,
        None => diff_strings_spec(m.old_contents[idx], m.new_contents[idx], m.settings),
    }
}

/// The navigator built for file `idx`: its diff, its two texts, lazy line
/// maps for a large file, and no step taken yet.
pub open spec fn built_nav_spec(m: MultiFileDiffModel, idx: int) -> NavigatorModel {
    NavigatorModel {
        diff: nav_diff_spec(m, idx),
        old: m.old_contents[idx],
        new: m.new_contents[idx],
        lazy_maps: file_is_large_spec(m, idx),
        step_direction: StepDirection::Stationary,
    }
}

/// The session after the navigator of file `idx` is built, using up its kept
/// diff; `placeholder` tells whether the navigator shows a placeholder.
pub open spec fn with_built_nav(m: MultiFileDiffModel, idx: int, placeholder: bool) -> MultiFileDiffModel {
    MultiFileDiffModel {
        navigators: m.navigators.update(idx, Some(built_nav_spec(m, idx))),
        placeholders: m.placeholders.update(idx, placeholder),
        precomputed: m.precomputed.update(idx, None),
        ..m
    }
}

/// What `ensure_full_navigator` leaves: nothing changes unless the file's
/// diff is ready and it has no navigator or only a placeholder one; then the
/// navigator is built from the kept (or computed) diff.
pub open spec fn ensure_full_spec(m: MultiFileDiffModel, idx: int) -> MultiFileDiffModel {
    if m.statuses[idx] != DiffStatus::Ready {
        m
    } else if m.navigators[idx] is Some && !m.placeholders[idx] {
        m
    } else {
        with_built_nav(m, idx, false)
    }
}

/// What `current_navigator` leaves: the selected file's navigator, built (and
/// marked as placeholder when built from a placeholder diff) if missing.
pub open spec fn current_nav_spec(m: MultiFileDiffModel) -> MultiFileDiffModel {
    let i = m.selected as int;
    if m.navigators[i] is Some {
        m
    } else {
        with_built_nav(m, i, m.precomputed[i] matches Some(PrecomputedModel::Placeholder(_)))
    }
}

/// The session after the background diff of file `idx` arrived: ready, the
/// diff kept, and its line counts taken from it.
pub open spec fn apply_diff_spec(m: MultiFileDiffModel, idx: int, d: DiffResultModel) -> MultiFileDiffModel {
    if 0 <= idx < m.files.len() {
        MultiFileDiffModel {
            statuses: m.statuses.update(idx, DiffStatus::Ready),
            precomputed: m.precomputed.update(idx, Some(PrecomputedModel::Ready(d))),
            files: m.files.update(
                idx,
                FileEntryModel { insertions: d.insertions, deletions: d.deletions, ..m.files[idx] },
            ),
            ..m
        }
    } else {
        m
    }
}

/// An entry with empty paths and names, no line counts, a modified status
/// and no binary content; it holds a place while an entry is taken out and
/// put back.
fn blank_entry() -> (r: FileEntry)
    ensures
        r@ == (FileEntryModel {
            path: Seq::empty(),
            old_path: None,
            old_source_path: None,
            new_source_path: None,
            display_name: Seq::empty(),
            status: FileStatus::Modified,
            insertions: 0,
            deletions: 0,
            binary: false,
        }),
{
    FileEntry {
        path: String::new(),
        old_path: None,
        old_source_path: None,
        new_source_path: None,
        display_name: String::new(),
        status: FileStatus::Modified,
        insertions: 0,
        deletions: 0,
        binary: false,
    }
}

impl MultiFileDiff {
    /// Records the result of a background diff of file `idx`.
    pub fn apply_diff_result(&mut self, idx: usize, diff: DiffResult)
        requires
            old(self).wf(),
        ensures
            final(self).wf(),
            final(self)@ == apply_diff_spec(old(self)@, idx as int, diff@),
    {
        if idx >= self.files.len() {
            return ;
        }
        let ghost m = self@;
        let ghost dm = diff@;
        let insertions = diff.insertions;
        let deletions = diff.deletions;
        self.diff_statuses.set(idx, DiffStatus::Ready);
        self.precomputed_diffs.set(idx, Some(PrecomputedDiff::Ready(diff)));
        let mut entry = blank_entry();
        self.files.set_and_swap(idx, &mut entry);
        entry.insertions = insertions;
        entry.deletions = deletions;
        self.files.set_and_swap(idx, &mut entry);
        proof {
            let t = apply_diff_spec(m, idx as int, dm);
            assert(self@.statuses =~= t.statuses);
            assert(self@.precomputed =~= t.precomputed);
            assert(self@.files =~= t.files);
        }
    }

    /// Takes the kept diff of file `idx` (or computes one) and builds its
    /// navigator.
    fn build_navigator(&mut self, idx: usize, placeholder: bool)
        requires
            old(self).wf(),
            idx < old(self)@.files.len(),
        ensures
            final(self).wf(),
            final(self)@ == with_built_nav(old(self)@, idx as int, placeholder),
    {
        let ghost m = self@;
        let lazy_maps = self.file_is_large(idx);
        let mut taken: Option<PrecomputedDiff> = None;
        self.precomputed_diffs.set_and_swap(idx, &mut taken);
        let diff = match taken {
            Some(PrecomputedDiff::Ready(d)) => d,
            Some(PrecomputedDiff::Placeholder(d)) => d,
            None => diff_strings(self.old_contents[idx].as_str(), self.new_contents[idx].as_str(), self.settings),
        };
        let nav = DiffNavigator::new(
            diff,
            self.old_contents[idx].clone(),
            self.new_contents[idx].clone(),
            lazy_maps,
        );
        self.navigators.set(idx, Some(nav));
        self.navigator_is_placeholder.set(idx, placeholder);
        proof {
            let t = with_built_nav(m, idx as int, placeholder);
            assert(self@.navigators =~= t.navigators);
            assert(self@.placeholders =~= t.placeholders);
            assert(self@.precomputed =~= t.precomputed);
        }
    }

    /// Builds the full navigator of file `idx` once its diff is ready,
    /// replacing a placeholder navigator.
    pub fn ensure_full_navigator(&mut self, idx: usize)
        requires
            old(self).wf(),
            idx < old(self)@.files.len(),
        ensures
            final(self).wf(),
            final(self)@ == ensure_full_spec(old(self)@, idx as int),
    {
        if !matches!(self.diff_status(idx), DiffStatus::Ready) {
            return ;
        }
        let needs_refresh = self.navigator_is_placeholder[idx];
        if self.navigators[idx].is_some() && !needs_refresh {
            return ;
        }
        self.build_navigator(idx, false);
    }

    /// The navigator of the selected file, built on first use.
    pub fn current_navigator(&mut self) -> (r: &DiffNavigator)
        requires
            old(self).wf(),
            old(self)@.files.len() > 0,
        ensures
            final(self).wf(),
            final(self)@ == current_nav_spec(old(self)@),
            final(self)@.navigators[final(self)@.selected as int] == Some(r@),
    {
        let sel = self.selected_index;
        if self.navigators[sel].is_none() {
            let placeholder = matches!(
                self.precomputed_diffs[sel],
                Some(PrecomputedDiff::Placeholder(_))
            );
            self.build_navigator(sel, placeholder);
        }
        proof {
            assert(self@.navigators[sel as int] == opt_nav_view(self.navigators@[sel as int]));
        }
        let slot = self.navigators[sel].as_ref();
        slot.unwrap()
    }
}


// ---------------------------------------------------------------------------
// Reading files again.
// ---------------------------------------------------------------------------

/// Where one side of a file is read from.
#[derive(Debug)]
pub enum ContentSource {
    /// Nothing is read: the side is empty.
    Empty,
    /// The file `path` at git revision `rev`.
    Commit { rev: String, path: String },
    /// The file `path` as staged in the git index.
    Index { path: String },
    /// The file on disk at `path`.
    File { path: String },
    /// The file on disk at `candidate` when there is one; otherwise the side
    /// keeps the text it has.
    FileOrKept { candidate: Option<String> },
}

/// Mathematical content of a [`ContentSource`].
pub enum ContentSourceModel {
    Empty,
    Commit { rev: Seq<char>, path: Seq<char> },
    Index { path: Seq<char> },
    File { path: Seq<char> },
    FileOrKept { candidate: Option<Seq<char>> },
}

impl View for ContentSource {
    type V = ContentSourceModel;

    open spec fn view(&self) -> ContentSourceModel {
        match self {
            ContentSource::Empty => ContentSourceModel::Empty,
            ContentSource::Commit { rev, path } => ContentSourceModel::Commit { rev: rev@, path: path@ },
            ContentSource::Index { path } => ContentSourceModel::Index { path: path@ },
            ContentSource::File { path } => ContentSourceModel::File { path: path@ },
            ContentSource::FileOrKept { candidate } => ContentSourceModel::FileOrKept {
                candidate: opt_str_view(*candidate),
            },
        }
    }
}

/// The view of a pair of sources.
pub open spec fn sources_view(p: (ContentSource, ContentSource)) -> (ContentSourceModel, ContentSourceModel) {
    (p.0@, p.1@)
}

/// The view of an optional pair of sources.
pub open spec fn opt_sources_view(o: Option<(ContentSource, ContentSource)>) -> Option<
    (ContentSourceModel, ContentSourceModel),
> {
    match o {
        Some(p) => Some(sources_view(p)),
        None => None,
    }
}

/// The path of a change, or its old path for a rename.
pub open spec fn old_or_path(path: Seq<char>, old_path: Option<Seq<char>>) -> Seq<char> {
    match old_path {
        Some(p) => p,
        None => path,
    }
}

/// Where the two sides of a changed file of a git session under `root` are
/// read from, the old side at `old_read`: HEAD against the working tree,
/// HEAD against the index, one commit against another, a commit against the
/// index or the index against a commit. An added or untracked file has an
/// empty old side, a deleted file an empty new side.
pub open spec fn git_sources_spec(
    root: Seq<char>,
    mode: GitDiffModeModel,
    path: Seq<char>,
    old_read: Seq<char>,
    status: FileStatus,
) -> (ContentSourceModel, ContentSourceModel) {
    let sides = match mode {
        GitDiffModeModel::Uncommitted => (
            ContentSourceModel::Commit { rev: head_word(), path: old_read },
            ContentSourceModel::File { path: join(root, path) },
        ),
        GitDiffModeModel::Staged => (
            ContentSourceModel::Commit { rev: head_word(), path: old_read },
            ContentSourceModel::Index { path },
        ),
        GitDiffModeModel::Range { from, to } => (
            ContentSourceModel::Commit { rev: from, path: old_read },
            ContentSourceModel::Commit { rev: to, path },
        ),
        GitDiffModeModel::IndexRange { from, to_index } => if to_index {
            (ContentSourceModel::Commit { rev: from, path: old_read }, ContentSourceModel::Index { path })
        } else {
            (ContentSourceModel::Index { path: old_read }, ContentSourceModel::Commit { rev: from, path })
        },
    };
    (
        if status == FileStatus::Added || status == FileStatus::Untracked {
            ContentSourceModel::Empty
        } else {
            sides.0
        },
        if status == FileStatus::Deleted {
            ContentSourceModel::Empty
        } else {
            sides.1
        },
    )
}

/// Where a session is first loaded from: the old side of a change at its
/// old path (the path it had before a rename), the new side at its path.
pub open spec fn git_load_sources_spec(
    root: Seq<char>,
    mode: GitDiffModeModel,
    c: ChangedFileModel,
) -> (ContentSourceModel, ContentSourceModel) {
    git_sources_spec(root, mode, c.path, old_or_path(c.path, c.old_path), c.status)
}

/// Where a change is read from when a session is read again: the old side
/// at its old path.
pub open spec fn git_refresh_sources_spec(
    root: Seq<char>,
    mode: GitDiffModeModel,
    c: ChangedFileModel,
) -> (ContentSourceModel, ContentSourceModel) {
    git_sources_spec(root, mode, c.path, old_or_path(c.path, c.old_path), c.status)
}

fn git_sources(
    root: &str,
    mode: &GitDiffMode,
    path: &String,
    old_read: &String,
    status: FileStatus,
) -> (r: (ContentSource, ContentSource))
    ensures
        sources_view(r) == git_sources_spec(root@, mode@, path@, old_read@, status),
{
    let old_side = if matches!(status, FileStatus::Added | FileStatus::Untracked) {
        ContentSource::Empty
    } else {
        match mode {
            GitDiffMode::Uncommitted | GitDiffMode::Staged => ContentSource::Commit {
                rev: string_from_chars(word(0).as_slice()),
                path: old_read.clone(),
            },
            GitDiffMode::Range { from, to: _ } => ContentSource::Commit {
                rev: from.clone(),
                path: old_read.clone(),
            },
            GitDiffMode::IndexRange { from, to_index } => if *to_index {
                ContentSource::Commit { rev: from.clone(), path: old_read.clone() }
            } else {
                ContentSource::Index { path: old_read.clone() }
            },
        }
    };
    let new_side = if matches!(status, FileStatus::Deleted) {
        ContentSource::Empty
    } else {
        match mode {
            GitDiffMode::Uncommitted => ContentSource::File { path: path_join(root, path.as_str()) },
            GitDiffMode::Staged => ContentSource::Index { path: path.clone() },
            GitDiffMode::Range { from: _, to } => ContentSource::Commit {
                rev: to.clone(),
                path: path.clone(),
            },
            GitDiffMode::IndexRange { from, to_index } => if *to_index {
                ContentSource::Index { path: path.clone() }
            } else {
                ContentSource::Commit { rev: from.clone(), path: path.clone() }
            },
        }
    };
    (old_side, new_side)
}

fn old_or_path_of(path: &String, old_path: &Option<String>) -> (r: String)
    ensures
        r@ == old_or_path(path@, opt_str_view(*old_path)),
{
    match old_path {
        Some(p) => p.clone(),
        None => path.clone(),
    }
}

/// Where the two sides of `change` are read from when a git session under
/// `repo_root` is first loaded.
pub fn git_load_sources(repo_root: &str, mode: &GitDiffMode, change: &ChangedFile) -> (r: (
    ContentSource,
    ContentSource,
))
    ensures
        sources_view(r) == git_load_sources_spec(repo_root@, mode@, change@),
{
    let old_read = old_or_path_of(&change.path, &change.old_path);
    git_sources(repo_root, mode, &change.path, &old_read, change.status)
}

/// Where the two sides of `change` are read from when a git session under
/// `repo_root` is read again.
pub fn git_refresh_sources(repo_root: &str, mode: &GitDiffMode, change: &ChangedFile) -> (r: (
    ContentSource,
    ContentSource,
))
    ensures
        sources_view(r) == git_refresh_sources_spec(repo_root@, mode@, change@),
{
    let old_read = old_or_path_of(&change.path, &change.old_path);
    git_sources(repo_root, mode, &change.path, &old_read, change.status)
}

/// For a range `from..to`, a change is shown from the start of the range to
/// its end, when a session is loaded and when it is read again: its old
/// side is read at commit `from` (at its original path for a rename) unless
/// it was added or is untracked, and its new side at commit `to` unless it
/// was deleted.
pub proof fn law_range_reads_old_at_from_and_new_at_to(
    root: Seq<char>,
    from: Seq<char>,
    to: Seq<char>,
    c: ChangedFileModel,
)
    ensures
        ({
            let mode = GitDiffModeModel::Range { from, to };
            let old_at = match c.old_path {
                Some(o) => o,
                None => c.path,
            };
            let load = git_load_sources_spec(root, mode, c);
            let refresh = git_refresh_sources_spec(root, mode, c);
            &&& c.status != FileStatus::Added && c.status != FileStatus::Untracked ==> load.0
                == ContentSourceModel::Commit { rev: from, path: old_at } && refresh.0
                == ContentSourceModel::Commit { rev: from, path: old_at }
            &&& c.status != FileStatus::Deleted ==> load.1 == ContentSourceModel::Commit {
                rev: to,
                path: c.path,
            } && refresh.1 == ContentSourceModel::Commit { rev: to, path: c.path }
            &&& c.status == FileStatus::Added || c.status == FileStatus::Untracked ==> load.0
                == ContentSourceModel::Empty && refresh.0 == ContentSourceModel::Empty
            &&& c.status == FileStatus::Deleted ==> load.1 == ContentSourceModel::Empty && refresh.1
                == ContentSourceModel::Empty
        }),
{
}

/// The other git modes, for a change that exists on both sides (neither
/// added, untracked nor deleted), when a session is loaded and when it is
/// read again: uncommitted changes compare HEAD (at the original path) with
/// the working tree file under `root`; staged changes compare HEAD with the
/// index; a commit against the index reads the old side at the commit and
/// the new side from the index, and the index against a commit the other
/// way round.
pub proof fn law_git_modes_read_their_sides(root: Seq<char>, c: ChangedFileModel, from: Seq<char>)
    requires
        c.status != FileStatus::Added,
        c.status != FileStatus::Untracked,
        c.status != FileStatus::Deleted,
    ensures
        ({
            let old_at = match c.old_path {
                Some(o) => o,
                None => c.path,
            };
            let head = seq!['H', 'E', 'A', 'D'];
            &&& git_load_sources_spec(root, GitDiffModeModel::Uncommitted, c) == (
                ContentSourceModel::Commit { rev: head, path: old_at },
                ContentSourceModel::File { path: join(root, c.path) },
            )
            &&& git_refresh_sources_spec(root, GitDiffModeModel::Uncommitted, c)
                == git_load_sources_spec(root, GitDiffModeModel::Uncommitted, c)
            &&& git_load_sources_spec(root, GitDiffModeModel::Staged, c) == (
                ContentSourceModel::Commit { rev: head, path: old_at },
                ContentSourceModel::Index { path: c.path },
            )
            &&& git_refresh_sources_spec(root, GitDiffModeModel::Staged, c) == git_load_sources_spec(
                root,
                GitDiffModeModel::Staged,
                c,
            )
            &&& git_load_sources_spec(root, GitDiffModeModel::IndexRange { from, to_index: true }, c) == (
                ContentSourceModel::Commit { rev: from, path: old_at },
                ContentSourceModel::Index { path: c.path },
            )
            &&& git_load_sources_spec(root, GitDiffModeModel::IndexRange { from, to_index: false }, c) == (
                ContentSourceModel::Index { path: old_at },
                ContentSourceModel::Commit { rev: from, path: c.path },
            )
        }),
{
}

/// Where the sides of file `idx` are read from when it is read again: in a
/// git session as a change of that session; otherwise the old side from its
/// source path when there is a file there (else it keeps its text) and the
/// new side from its source path, or its path when it has none.
pub open spec fn refresh_sources_spec(m: MultiFileDiffModel, idx: int) -> Option<
    (ContentSourceModel, ContentSourceModel),
> {
    if !(0 <= idx < m.files.len()) {
        None
    } else {
        let f = m.files[idx];
        if m.repo_root is Some && m.git_mode is Some {
            Some(
                git_refresh_sources_spec(
                    m.repo_root->0,
                    m.git_mode->0,
                    ChangedFileModel { path: f.path, status: f.status, old_path: f.old_path },
                ),
            )
        } else {
            Some(
                (
                    ContentSourceModel::FileOrKept { candidate: source_path_spec(m, idx, FileSide::Old) },
                    ContentSourceModel::File {
                        path: match source_path_spec(m, idx, FileSide::New) {
                            Some(p) => p,
                            None => f.path,
                        },
                    },
                ),
            )
        }
    }
}

/// The decoded text of a side read from `src` (with `got` what was read,
/// `None` when nothing could be): empty for an empty source; for a source
/// that may keep its text, the text kept when nothing was read; else what was
/// read, nothing counting as empty.
pub open spec fn refreshed_side(
    src: ContentSourceModel,
    got: Option<LoadedContent>,
    kept: Seq<char>,
) -> (Seq<char>, bool) {
    match src {
        ContentSourceModel::Empty => (Seq::empty(), false),
        ContentSourceModel::FileOrKept { .. } => match got {
            Some(c) => load_spec(c.size, c.bytes@),
            None => (kept, false),
        },
        _ => match got {
            Some(c) => load_spec(c.size, c.bytes@),
            None => (Seq::empty(), false),
        },
    }
}

/// File `idx` after it was read again with its sides `old` and `new`: its
/// texts, binary flag, line counts, kept diff and status as a loaded file
/// gets them, and its navigator dropped; other files unchanged.
pub open spec fn refresh_spec(
    m: MultiFileDiffModel,
    idx: int,
    old: Option<LoadedContent>,
    new: Option<LoadedContent>,
) -> MultiFileDiffModel {
    if !(0 <= idx < m.files.len()) {
        m
    } else {
        let srcs = refresh_sources_spec(m, idx)->0;
        let o = refreshed_side(srcs.0, old, m.old_contents[idx]);
        let n = refreshed_side(srcs.1, new, m.new_contents[idx]);
        let binary = o.1 || n.1;
        let stats = diff_stats_spec(o.0, n.0, binary);
        let d = defer_spec(o.0, n.0, binary, m.settings);
        MultiFileDiffModel {
            files: m.files.update(
                idx,
                FileEntryModel { binary, insertions: stats.0, deletions: stats.1, ..m.files[idx] },
            ),
            old_contents: m.old_contents.update(idx, d.0),
            new_contents: m.new_contents.update(idx, d.1),
            precomputed: m.precomputed.update(idx, d.2),
            statuses: m.statuses.update(idx, d.3),
            navigators: m.navigators.update(idx, None),
            placeholders: m.placeholders.update(idx, false),
            ..m
        }
    }
}

fn refresh_side(src: &ContentSource, got: Option<LoadedContent>, kept: String) -> (r: (String, bool))
    ensures
        (r.0@, r.1) == refreshed_side(src@, got, kept@),
{
    match src {
        ContentSource::Empty => (String::new(), false),
        ContentSource::FileOrKept { candidate: _ } => match got {
            Some(c) => decode_loaded(c),
            None => (kept, false),
        },
        _ => match got {
            Some(c) => decode_loaded(c),
            None => (String::new(), false),
        },
    }
}

impl MultiFileDiff {
    /// Where the sides of file `idx` are read from when it is read again;
    /// `None` past the files.
    pub fn refresh_sources(&self, idx: usize) -> (r: Option<(ContentSource, ContentSource)>)
        requires
            self.wf(),
        ensures
            opt_sources_view(r) == refresh_sources_spec(self@, idx as int),
    {
        if idx >= self.files.len() {
            return None;
        }
        let file = &self.files[idx];
        match (&self.repo_root, &self.git_mode) {
            (Some(root), Some(mode)) => {
                let old_read = old_or_path_of(&file.path, &file.old_path);
                Some(git_sources(root.as_str(), mode, &file.path, &old_read, file.status))
            },
            _ => {
                let old_src = self.source_path(idx, FileSide::Old);
                let new_path = match self.source_path(idx, FileSide::New) {
                    Some(p) => p,
                    None => file.path.clone(),
                };
                Some((ContentSource::FileOrKept { candidate: old_src }, ContentSource::File { path: new_path }))
            },
        }
    }

    /// Reads file `idx` again from its two sides as read from
    /// [`Self::refresh_sources`] (`None` for a side that could not be read,
    /// or that keeps its text), re-diffs it and drops its navigator.
    pub fn refresh_file(
        &mut self,
        idx: usize,
        old_side: Option<LoadedContent>,
        new_side: Option<LoadedContent>,
    )
        requires
            old(self).wf(),
        ensures
            final(self).wf(),
            final(self)@ == refresh_spec(old(self)@, idx as int, old_side, new_side),
    {
        if idx >= self.files.len() {
            return ;
        }
        let ghost m = self@;
        let ghost go = old_side;
        let ghost gn = new_side;
        let srcs = self.refresh_sources(idx);
        let (old_src, new_src) = match srcs {
            Some(p) => p,
            None => return ,
        };
        let kept_old = self.old_contents[idx].clone();
        let kept_new = self.new_contents[idx].clone();
        proof {
            assert(kept_old@ == m.old_contents[idx as int]);
            assert(kept_new@ == m.new_contents[idx as int]);
        }
        let o = refresh_side(&old_src, old_side, kept_old);
        let n = refresh_side(&new_src, new_side, kept_new);
        let binary = o.1 || n.1;
        let (insertions, deletions) = diff_stats(o.0.as_str(), n.0.as_str(), binary);
        let (ot, nt, precomputed, status) = maybe_defer_diff(o.0, n.0, binary, self.settings);
        self.old_contents.set(idx, ot);
        self.new_contents.set(idx, nt);
        self.precomputed_diffs.set(idx, precomputed);
        self.diff_statuses.set(idx, status);
        self.navigators.set(idx, None);
        self.navigator_is_placeholder.set(idx, false);
        let mut entry = blank_entry();
        self.files.set_and_swap(idx, &mut entry);
        entry.binary = binary;
        entry.insertions = insertions;
        entry.deletions = deletions;
        self.files.set_and_swap(idx, &mut entry);
        proof {
            let t = refresh_spec(m, idx as int, go, gn);
            assert(self@.files =~= t.files);
            assert(self@.old_contents =~= t.old_contents);
            assert(self@.new_contents =~= t.new_contents);
            assert(self@.precomputed =~= t.precomputed);
            assert(self@.statuses =~= t.statuses);
            assert(self@.navigators =~= t.navigators);
            assert(self@.placeholders =~= t.placeholders);
        }
    }

    /// Reads the selected file again (see [`Self::refresh_file`]).
    pub fn refresh_current_file(
        &mut self,
        old_side: Option<LoadedContent>,
        new_side: Option<LoadedContent>,
    )
        requires
            old(self).wf(),
        ensures
            final(self).wf(),
            final(self)@ == refresh_spec(old(self)@, old(self)@.selected as int, old_side, new_side),
    {
        let idx = self.selected_index;
        self.refresh_file(idx, old_side, new_side);
    }
}


/// The selection kept when a session shrinks to `len` files: the same file
/// when it is still there, else the last file (0 when there are none).
pub open spec fn clamp_selection(selected: nat, len: nat) -> nat {
    if selected < len {
        selected
    } else if len == 0 {
        0
    } else {
        (len - 1) as nat
    }
}

impl MultiFileDiff {
    /// Rebuilds a git session from the fresh list of its changes with their
    /// sides as read from [`git_refresh_sources`] (`None` when listing the
    /// changes failed). Returns false, leaving the session as it is, when the
    /// session is not a git session or there is no list; otherwise every file
    /// is replaced, the selection is kept within the new files, and true is
    /// returned.
    pub fn refresh_all_from_git(&mut self, fresh: Option<Vec<GitFileInput>>) -> (r: bool)
        requires
            old(self).wf(),
        ensures
            final(self).wf(),
            r == (old(self)@.repo_root is Some && old(self)@.git_mode is Some && fresh is Some),
            !r ==> final(self)@ == old(self)@,
            r ==> {
                let ins = fresh->0@;
                &&& final(self)@.files.len() == ins.len()
                &&& final(self)@.selected == clamp_selection(old(self)@.selected, ins.len())
                &&& final(self)@.repo_root == old(self)@.repo_root
                &&& final(self)@.git_mode == old(self)@.git_mode
                &&& final(self)@.source_roots == old(self)@.source_roots
                &&& final(self)@.settings == old(self)@.settings
                &&& forall|i: int|
                    0 <= i < ins.len() ==> final(self)@.holds_file(
                        i,
                        git_file_spec(#[trigger] ins[i], old(self)@.settings),
                    )
            },
    {
        let root = match &self.repo_root {
            Some(root) => root.clone(),
            None => return false,
        };
        let mode = match &self.git_mode {
            Some(mode) => mode.copy(),
            None => return false,
        };
        let inputs = match fresh {
            Some(inputs) => inputs,
            None => return false,
        };
        let ghost m = self@;
        let mut rebuilt = Self::from_git_mode(root, mode, inputs, self.settings);
        let count = rebuilt.files.len();
        let selected = if self.selected_index < count {
            self.selected_index
        } else if count == 0 {
            0
        } else {
            count - 1
        };
        let roots = self.source_roots.take();
        rebuilt.source_roots = roots;
        rebuilt.selected_index = selected;
        *self = rebuilt;
        true
    }
}

// ---------------------------------------------------------------------------
// Whether the git change list moved on.
// ---------------------------------------------------------------------------

/// What identifies a change of a git session: its path, its old path (none
/// counting as empty) and its status.
pub struct ChangeKey {
    pub path: String,
    pub old_path: String,
    pub status: FileStatus,
}

/// Mathematical content of a [`ChangeKey`].
pub type ChangeKeyModel = (Seq<char>, Seq<char>, FileStatus);

impl View for ChangeKey {
    type V = ChangeKeyModel;

    open spec fn view(&self) -> ChangeKeyModel {
        (self.path@, self.old_path@, self.status)
    }
}

/// The key of a change.
pub open spec fn change_key(path: Seq<char>, old_path: Option<Seq<char>>, status: FileStatus) -> ChangeKeyModel {
    (
        path,
        match old_path {
            Some(p) => p,
            None => Seq::empty(),
        },
        status,
    )
}

/// The keys of a list of changes.
pub open spec fn change_keys(s: Seq<ChangedFileModel>) -> Seq<ChangeKeyModel> {
    s.map_values(|c: ChangedFileModel| change_key(c.path, c.old_path, c.status))
}

/// The keys of the files of a session.
pub open spec fn file_keys(s: Seq<FileEntryModel>) -> Seq<ChangeKeyModel> {
    s.map_values(|f: FileEntryModel| change_key(f.path, f.old_path, f.status))
}

/// The views of a sequence of keys.
pub open spec fn keys_view(s: Seq<ChangeKey>) -> Seq<ChangeKeyModel> {
    s.map_values(|k: ChangeKey| k@)
}

fn key_of(path: &String, old_path: &Option<String>, status: FileStatus) -> (r: ChangeKey)
    ensures
        r@ == change_key(path@, opt_str_view(*old_path), status),
{
    ChangeKey {
        path: path.clone(),
        old_path: match old_path {
            Some(p) => p.clone(),
            None => String::new(),
        },
        status,
    }
}

fn keys_equal(a: &ChangeKey, b: &ChangeKey) -> (r: bool)
    ensures
        r == (a@ == b@),
{
    a.path == b.path && a.old_path == b.old_path && a.status == b.status
}

/// A value occurs in a sequence at least as often as in any prefix of it
/// with one more occurrence of the element that follows the prefix.
proof fn lemma_prefix_count<A>(s: Seq<A>, i: int)
    requires
        0 <= i < s.len(),
    ensures
        s.take(i + 1).to_multiset().count(s[i]) == s.take(i).to_multiset().count(s[i]) + 1,
        s.to_multiset().count(s[i]) >= s.take(i + 1).to_multiset().count(s[i]),
{
    broadcast use vstd::seq_lib::group_to_multiset_ensures;
    broadcast use vstd::multiset::group_multiset_axioms;

    assert(s.take(i + 1) =~= s.take(i).push(s[i]));
    assert(s =~= s.take(i + 1) + s.skip(i + 1));
    vstd::seq_lib::lemma_multiset_commutative(s.take(i + 1), s.skip(i + 1));
}

/// Whether the two lists of keys hold the same keys, each as often.
fn same_keys(a: Vec<ChangeKey>, b: Vec<ChangeKey>) -> (r: bool)
    ensures
        r == (keys_view(a@).to_multiset() == keys_view(b@).to_multiset()),
{
    broadcast use vstd::seq_lib::group_to_multiset_ensures;
    broadcast use vstd::multiset::group_multiset_axioms;

    let ghost av = keys_view(a@);
    let ghost bv = keys_view(b@);
    if a.len() != b.len() {
        assert(av.to_multiset().len() != bv.to_multiset().len());
        return false;
    }
    let mut rest = b;
    let mut i: usize = 0;
    assert(av.take(0) =~= Seq::<ChangeKeyModel>::empty());
    assert(av.take(0).to_multiset() =~= Multiset::empty());
    while i < a.len()
        invariant
            av == keys_view(a@),
            bv == keys_view(b@),
            bv.len() == av.len(),
            i <= a.len(),
            rest.len() + i == a.len(),
            av.take(i as int).to_multiset().add(keys_view(rest@).to_multiset()) =~= bv.to_multiset(),
        decreases a.len() - i,
    {
        let ghost rv = keys_view(rest@);
        let ghost x = av[i as int];
        let mut j: usize = 0;
        while j < rest.len() && !keys_equal(&rest[j], &a[i])
            invariant
                rv == keys_view(rest@),
                i < a.len(),
                x == a@[i as int]@,
                j <= rest.len(),
                forall|k: int| 0 <= k < j ==> rv[k] != x,
            decreases rest.len() - j,
        {
            j = j + 1;
        }
        let found = j < rest.len();
        if !found {
            proof {
                lemma_prefix_count(av, i as int);
                rv.to_multiset_ensures();
                assert(!rv.contains(x));
                assert(rv.to_multiset().count(x) == 0);
                assert(bv.to_multiset().count(x) == av.take(i as int).to_multiset().count(x));
                assert(av.to_multiset().count(x) != bv.to_multiset().count(x));
            }
            return false;
        }
        proof {
            lemma_prefix_count(av, i as int);
            rv.to_multiset_ensures();
            av.take(i as int).to_multiset_ensures();
            assert(av.take(i + 1) =~= av.take(i as int).push(x));
            assert(rv.remove(j as int).to_multiset() =~= rv.to_multiset().remove(x));
        }
        rest.remove(j);
        proof {
            assert(keys_view(rest@) =~= rv.remove(j as int));
        }
        i = i + 1;
    }
    proof {
        assert(av.take(i as int) =~= av);
        assert(keys_view(rest@) =~= Seq::<ChangeKeyModel>::empty());
        assert(keys_view(rest@).to_multiset() =~= Multiset::empty());
        assert(av.to_multiset().add(Multiset::empty()) =~= av.to_multiset());
        assert(av.to_multiset() =~= bv.to_multiset());
    }
    true
}

/// Whether the change list `fresh` (`None` when it could not be had) differs
/// from the files of git session `m`: never outside a git session or without
/// a list; otherwise when the two do not hold the same changes, each as
/// often, in whatever order.
pub open spec fn change_list_changed_spec(m: MultiFileDiffModel, fresh: Option<Seq<ChangedFileModel>>) -> bool {
    &&& m.repo_root is Some
    &&& m.git_mode is Some
    &&& fresh is Some
    &&& change_keys(fresh->0).to_multiset() != file_keys(m.files).to_multiset()
}

impl MultiFileDiff {
    /// Whether the git change list moved on since the session was built:
    /// true when the session is a git session, the fresh list of its changes
    /// could be had (`fresh` is `Some`), and that list does not hold the
    /// same changes as the session's files, each as often.
    pub fn git_change_list_changed(&self, fresh: Option<Vec<ChangedFile>>) -> (r: bool)
        requires
            self.wf(),
        ensures
            r == change_list_changed_spec(
                self@,
                match fresh {
                    Some(v) => Some(changed_files_view(v@)),
                    None => None,
                },
            ),
    {
        if self.repo_root.is_none() || self.git_mode.is_none() {
            return false;
        }
        let changes = match fresh {
            Some(c) => c,
            None => return false,
        };
        let ghost cv = changed_files_view(changes@);
        let mut fresh_keys: Vec<ChangeKey> = Vec::new();
        for k in 0..changes.len()
            invariant
                cv == changed_files_view(changes@),
                keys_view(fresh_keys@) =~= change_keys(cv).take(k as int),
        {
            let c = &changes[k];
            let ghost before = fresh_keys@;
            fresh_keys.push(key_of(&c.path, &c.old_path, c.status));
            proof {
                assert(cv[k as int] == changes@[k as int]@);
                assert(keys_view(fresh_keys@) =~= keys_view(before).push(fresh_keys@[k as int]@));
                assert(change_keys(cv).take(k + 1) =~= change_keys(cv).take(k as int).push(
                    change_keys(cv)[k as int],
                ));
            }
        }
        let ghost fv = self@.files;
        let mut own_keys: Vec<ChangeKey> = Vec::new();
        for k in 0..self.files.len()
            invariant
                fv == self@.files,
                self.wf(),
                keys_view(own_keys@) =~= file_keys(fv).take(k as int),
        {
            let f = &self.files[k];
            let ghost before = own_keys@;
            own_keys.push(key_of(&f.path, &f.old_path, f.status));
            proof {
                assert(fv[k as int] == self.files@[k as int]@);
                assert(keys_view(own_keys@) =~= keys_view(before).push(own_keys@[k as int]@));
                assert(file_keys(fv).take(k + 1) =~= file_keys(fv).take(k as int).push(
                    file_keys(fv)[k as int],
                ));
            }
        }
        proof {
            assert(change_keys(cv).take(changes.len() as int) =~= change_keys(cv));
            assert(file_keys(fv).take(self.files.len() as int) =~= file_keys(fv));
        }
        !same_keys(fresh_keys, own_keys)
    }
}

} // verus!
