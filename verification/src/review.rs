//! Text helpers of the review editor: range labels, comment previews, the
//! trailing space kept after a reference, path lists for mentions, the hunk
//! line nearest to a focus, and cursor movement by bytes, rows and columns.

use vstd::prelude::*;
use crate::text::strings_view;
use crate::multi::utf8_len;
use crate::text::{chars_of, decimal, decimal_chars, is_whitespace, char_is_whitespace, string_from_chars};
use crate::view::ViewLine;

verus! {

/// Which side of a diff a review comment refers to.
#[derive(Debug, Clone, Copy, PartialEq, Eq, Structural)]
pub enum ReviewSide {
    Old,
    New,
}

impl ReviewSide {
    /// The name of the side: `old` or `new`.
    pub fn as_str(self) -> (r: &'static str)
        ensures
            r@ == match self {
                ReviewSide::Old => "old"@,
                ReviewSide::New => "new"@,
            },
    {
        match self {
            ReviewSide::Old => "old",
            ReviewSide::New => "new",
        }
    }
}

/// An inclusive range of line numbers.
#[derive(Debug, Clone, Copy, PartialEq, Eq, Structural)]
pub struct ReviewRange {
    pub start: usize,
    pub end: usize,
}

/// `start-end`, or `-` for no range.
pub open spec fn opt_range_text(range: Option<ReviewRange>) -> Seq<char> {
    match range {
        Some(r) => decimal(r.start as nat) + seq!['-'] + decimal(r.end as nat),
        None => seq!['-'],
    }
}

/// Like [`opt_range_text`], but a range of one line is that line's number.
pub open spec fn opt_range_display(range: Option<ReviewRange>) -> Seq<char> {
    match range {
        Some(r) => if r.start == r.end {
            decimal(r.start as nat)
        } else {
            opt_range_text(range)
        },
        None => seq!['-'],
    }
}

fn push_all(out: &mut Vec<char>, more: &Vec<char>)
    ensures
        final(out)@ == old(out)@ + more@,
{
    let ghost start = out@;
    let mut i: usize = 0;
    while i < more.len()
        invariant
            0 <= i <= more.len(),
            out@ == start + more@.take(i as int),
        decreases more.len() - i,
    {
        out.push(more[i]);
        assert(more@.take(i + 1) =~= more@.take(i as int).push(more@[i as int]));
        i = i + 1;
    }
    assert(more@.take(more.len() as int) =~= more@);
}

/// The label of an optional range: `start-end`, or `-`.
pub fn format_opt_range(range: Option<ReviewRange>) -> (r: String)
    ensures
        r@ == opt_range_text(range),
{
    let mut out: Vec<char> = Vec::new();
    match range {
        Some(rg) => {
            push_all(&mut out, &decimal_chars(rg.start));
            out.push('-');
            push_all(&mut out, &decimal_chars(rg.end));
        },
        None => {
            out.push('-');
        },
    }
    assert(out@ =~= opt_range_text(range));
    string_from_chars(out.as_slice())
}

/// The label of an optional range as shown: a one-line range is its number.
pub fn format_opt_range_display(range: Option<ReviewRange>) -> (r: String)
    ensures
        r@ == opt_range_display(range),
{
    match range {
        Some(rg) => if rg.start == rg.end {
            string_from_chars(decimal_chars(rg.start).as_slice())
        } else {
            format_opt_range(range)
        },
        None => format_opt_range(range),
    }
}

// ---------------------------------------------------------------------------
// Comment previews.
// ---------------------------------------------------------------------------

/// A preview of at most `max_chars` characters and whether it was cut: the
/// whole text when it fits, else its first `max_chars - 1` characters and an
/// ellipsis; nothing at all when `max_chars` is 0.
pub open spec fn truncate_preview_spec(text: Seq<char>, max_chars: nat) -> (Seq<char>, bool) {
    if max_chars == 0 {
        (Seq::empty(), text.len() > 0)
    } else if text.len() <= max_chars {
        (text, false)
    } else {
        (text.take(max_chars - 1) + seq!['…'], true)
    }
}

/// Cuts `text` to a preview of at most `max_chars` characters.
pub fn truncate_preview_chars(text: &str, max_chars: usize) -> (r: (String, bool))
    ensures
        (r.0@, r.1) == truncate_preview_spec(text@, max_chars as nat),
{
    let chars = chars_of(text);
    if max_chars == 0 {
        return (String::new(), chars.len() > 0);
    }
    if chars.len() <= max_chars {
        return (text.to_owned(), false);
    }
    let keep = max_chars - 1;
    let mut out: Vec<char> = Vec::new();
    let mut i: usize = 0;
    while i < keep
        invariant
            0 <= i <= keep < chars.len(),
            chars@ == text@,
            out@ == chars@.take(i as int),
        decreases keep - i,
    {
        out.push(chars[i]);
        i = i + 1;
    }
    out.push('…');
    (string_from_chars(out.as_slice()), true)
}

// ---------------------------------------------------------------------------
// Trailing space after a reference.
// ---------------------------------------------------------------------------

/// Number of trailing `' '` characters of `s`.
pub open spec fn trailing_spaces(s: Seq<char>) -> nat
    decreases s.len(),
{
    if s.len() > 0 && s.last() == ' ' {
        1 + trailing_spaces(s.drop_last())
    } else {
        0
    }
}

/// A character that may stand in a file or line reference.
pub open spec fn is_ref_char(c: char) -> bool {
    ||| ('a' <= c && c <= 'z')
    ||| ('A' <= c && c <= 'Z')
    ||| ('0' <= c && c <= '9')
    ||| c == '_'
    ||| c == '-'
    ||| c == '.'
    ||| c == '/'
    ||| c == ':'
}

/// Index just past the last whitespace character of `s`, 0 when there is
/// none.
pub open spec fn after_last_ws(s: Seq<char>) -> nat
    decreases s.len(),
{
    if s.len() == 0 {
        0
    } else if is_whitespace(s.last()) {
        s.len()
    } else {
        after_last_ws(s.drop_last())
    }
}

/// Whether the trailing spaces of `text` follow a reference and are kept: the
/// text ends in spaces, and before them stands a digit, or a last word of the
/// form `@` followed by one or more reference characters.
pub open spec fn preserve_spec(text: Seq<char>) -> bool {
    let n = trailing_spaces(text);
    let w = text.take(text.len() - n);
    let tail = w.skip(after_last_ws(w) as int);
    if n == 0 {
        false
    } else if w.len() > 0 && '0' <= w.last() && w.last() <= '9' {
        true
    } else {
        &&& tail.len() > 1
        &&& tail[0] == '@'
        &&& forall|i: int| 1 <= i < tail.len() ==> is_ref_char(#[trigger] tail[i])
    }
}

proof fn lemma_trailing_spaces(s: Seq<char>)
    ensures
        trailing_spaces(s) <= s.len(),
        trailing_spaces(s) < s.len() ==> s[s.len() - trailing_spaces(s) - 1] != ' ',
        s.take(s.len() - trailing_spaces(s)) == s.take(s.len() - trailing_spaces(s)),
    decreases s.len(),
{
    if s.len() > 0 && s.last() == ' ' {
        lemma_trailing_spaces(s.drop_last());
    }
}

proof fn lemma_after_last_ws(s: Seq<char>)
    ensures
        after_last_ws(s) <= s.len(),
        after_last_ws(s) > 0 ==> is_whitespace(s[after_last_ws(s) - 1]),
        forall|i: int| after_last_ws(s) <= i < s.len() ==> !is_whitespace(#[trigger] s[i]),
    decreases s.len(),
{
    if s.len() > 0 && !is_whitespace(s.last()) {
        lemma_after_last_ws(s.drop_last());
        assert forall|i: int| after_last_ws(s) <= i < s.len() implies !is_whitespace(#[trigger] s[i]) by {
            if i < s.len() - 1 {
                assert(s[i] == s.drop_last()[i]);
            }
        }
    }
}

fn char_is_ref(c: char) -> (r: bool)
    ensures
        r == is_ref_char(c),
{
    ('a' <= c && c <= 'z') || ('A' <= c && c <= 'Z') || ('0' <= c && c <= '9') || c == '_' || c
        == '-' || c == '.' || c == '/' || c == ':'
}

/// Whether the trailing spaces of a comment follow a file or line reference
/// (and are kept when the comment is saved).
pub fn preserve_ref_trailing_space(text: &str) -> (r: bool)
    ensures
        r == preserve_spec(text@),
{
    let t = chars_of(text);
    let ghost ts = t@;
    let mut end: usize = t.len();
    assert(ts.take(t.len() as int) =~= ts);
    while end > 0 && t[end - 1] == ' '
        invariant
            0 <= end <= t.len(),
            ts == t@,
            trailing_spaces(ts) == (t.len() - end) + trailing_spaces(ts.take(end as int)),
        decreases end,
    {
        assert(ts.take(end as int).drop_last() =~= ts.take(end - 1));
        end = end - 1;
    }
    proof {
        assert(ts.take(end as int) == ts.take(end as int));
        if end > 0 {
            assert(ts.take(end as int).last() == ts[end - 1]);
        }
        assert(trailing_spaces(ts.take(end as int)) == 0);
    }
    let ghost w = ts.take(end as int);
    if end == t.len() {
        return false;
    }
    if end > 0 && '0' <= t[end - 1] && t[end - 1] <= '9' {
        return true;
    }
    proof {
        if end > 0 {
            assert(w.last() == ts[end - 1]);
        }
    }
    // Start of the last word.
    let mut start: usize = end;
    assert(w.take(end as int) =~= w);
    while start > 0 && !char_is_whitespace(t[start - 1])
        invariant
            0 <= start <= end <= t.len(),
            ts == t@,
            w == ts.take(end as int),
            after_last_ws(w) == after_last_ws(w.take(start as int)),
        decreases start,
    {
        assert(w.take(start as int).drop_last() =~= w.take(start - 1));
        start = start - 1;
    }
    proof {
        if start > 0 {
            assert(w.take(start as int).last() == w[start - 1]);
        } else {
            assert(w.take(0) =~= Seq::<char>::empty());
        }
        assert(after_last_ws(w) == start);
    }
    let ghost tail = w.skip(start as int);
    if end - start < 2 || t[start] != '@' {
        return false;
    }
    let mut k: usize = start + 1;
    while k < end
        invariant
            start + 1 <= k <= end <= t.len(),
            ts == t@,
            w == ts.take(end as int),
            tail == w.skip(start as int),
            text@ == ts,
            trailing_spaces(ts) == t.len() - end,
            end < t.len(),
            !(end > 0 && '0' <= w.last() && w.last() <= '9'),
            after_last_ws(w) == start,
            tail.len() > 1,
            forall|i: int| 1 <= i < k - start ==> is_ref_char(#[trigger] tail[i]),
        decreases end - k,
    {
        if !char_is_ref(t[k]) {
            assert(tail[k - start] == t@[k as int]);
            assert(!is_ref_char(tail[k - start]));
            return false;
        }
        k = k + 1;
    }
    true
}

// ---------------------------------------------------------------------------
// Paths offered for mentions.
// ---------------------------------------------------------------------------

/// The items of `s` in order, each kept only where it first occurs.
pub open spec fn first_occurrences(s: Seq<Seq<char>>) -> Seq<Seq<char>>
    decreases s.len(),
{
    if s.len() == 0 {
        Seq::empty()
    } else {
        let d = first_occurrences(s.drop_last());
        if d.contains(s.last()) {
            d
        } else {
            d.push(s.last())
        }
    }
}

pub(crate) fn contains_string(v: &Vec<String>, x: &String) -> (r: bool)
    ensures
        r == strings_view(v@).contains(x@),
{
    let mut i: usize = 0;
    while i < v.len()
        invariant
            0 <= i <= v.len(),
            forall|j: int| 0 <= j < i ==> strings_view(v@)[j] != x@,
        decreases v.len() - i,
    {
        if v[i] == *x {
            assert(strings_view(v@)[i as int] == x@);
            return true;
        }
        i = i + 1;
    }
    false
}

/// The changed paths followed by the repository's other paths, each path
/// once, where it first occurs.
pub fn merge_changed_and_repo_paths(changed_paths: &[String], repo_paths: &[String]) -> (r: Vec<
    String,
>)
    ensures
        strings_view(r@) == first_occurrences(strings_view(changed_paths@ + repo_paths@)),
{
    let ghost all = strings_view(changed_paths@ + repo_paths@);
    let ghost n1 = changed_paths@.len();
    let mut out: Vec<String> = Vec::new();
    assert(all.take(0) =~= Seq::<Seq<char>>::empty());
    for i in 0..changed_paths.len()
        invariant
            n1 == changed_paths@.len(),
            all == strings_view(changed_paths@ + repo_paths@),
            strings_view(out@) == first_occurrences(all.take(i as int)),
    {
        let p = &changed_paths[i];
        assert(all[i as int] == p@);
        assert(all.take(i + 1).drop_last() =~= all.take(i as int));
        if !contains_string(&out, p) {
            let ghost before = out@;
            out.push(p.clone());
            assert(strings_view(out@) =~= strings_view(before).push(p@));
        }
    }
    for i in 0..repo_paths.len()
        invariant
            n1 == changed_paths@.len(),
            all == strings_view(changed_paths@ + repo_paths@),
            strings_view(out@) == first_occurrences(all.take((n1 + i) as int)),
    {
        let p = &repo_paths[i];
        assert(all[(n1 + i) as int] == p@);
        assert(all.take((n1 + i + 1) as int).drop_last() =~= all.take((n1 + i) as int));
        if !contains_string(&out, p) {
            let ghost before = out@;
            out.push(p.clone());
            assert(strings_view(out@) =~= strings_view(before).push(p@));
        }
    }
    assert(all.take((n1 + repo_paths@.len()) as int) =~= all);
    out
}

// ---------------------------------------------------------------------------
// The hunk line nearest to a focus.
// ---------------------------------------------------------------------------

/// Whether visible line `i` belongs to a hunk.
pub open spec fn in_hunk(visible: Seq<(usize, ViewLine)>, i: int) -> bool {
    visible[i].1.hunk_index is Some
}

/// The first hunk line found at distance `d` or more from `f`, looking right
/// before left at each distance (a left position below 0 stands at 0).
pub open spec fn hunk_line_from(visible: Seq<(usize, ViewLine)>, f: int, d: int) -> Option<nat>
    decreases visible.len() - d,
{
    if d >= visible.len() || d < 1 {
        None
    } else if f + d < visible.len() && in_hunk(visible, f + d) {
        Some((f + d) as nat)
    } else if in_hunk(visible, if f >= d { f - d } else { 0 }) {
        Some((if f >= d { f - d } else { 0 }) as nat)
    } else {
        hunk_line_from(visible, f, d + 1)
    }
}

/// The hunk line nearest to `focus` (taken within the lines): `focus` itself
/// when it is one, else the nearest, the right one first on a tie; none when
/// no line is in a hunk.
pub open spec fn nearest_hunk_spec(visible: Seq<(usize, ViewLine)>, focus: nat) -> Option<nat> {
    if visible.len() == 0 {
        None
    } else {
        let f = if focus < visible.len() {
            focus as int
        } else {
            visible.len() - 1
        };
        if in_hunk(visible, f) {
            Some(f as nat)
        } else {
            hunk_line_from(visible, f, 1)
        }
    }
}

/// Index of the visible line in a hunk nearest to position `focus_pos`.
pub fn nearest_hunk_line_index(visible: &[(usize, ViewLine)], focus_pos: usize) -> (r: Option<usize>)
    ensures
        match r {
            Some(i) => nearest_hunk_spec(visible@, focus_pos as nat) == Some(i as nat),
            None => nearest_hunk_spec(visible@, focus_pos as nat) is None,
        },
{
    if visible.len() == 0 {
        return None;
    }
    let f = if focus_pos < visible.len() {
        focus_pos
    } else {
        visible.len() - 1
    };
    if visible[f].1.hunk_index.is_some() {
        return Some(f);
    }
    let mut d: usize = 1;
    while d < visible.len()
        invariant
            1 <= d <= visible.len(),
            f < visible.len(),
            !in_hunk(visible@, f as int),
            nearest_hunk_spec(visible@, focus_pos as nat) == hunk_line_from(visible@, f as int, d as int),
        decreases visible.len() - d,
    {
        if f < visible.len() - d && visible[f + d].1.hunk_index.is_some() {
            return Some(f + d);
        }
        let left = if f >= d {
            f - d
        } else {
            0
        };
        if visible[left].1.hunk_index.is_some() {
            return Some(left);
        }
        d = d + 1;
    }
    None
}

// ---------------------------------------------------------------------------
// Cursor positions: bytes, rows and columns.
// ---------------------------------------------------------------------------

/// Byte offset of character `i` of `t` in its UTF-8 encoding.
pub open spec fn byte_at(t: Seq<char>, i: int) -> nat {
    utf8_len(t.take(i))
}

/// `b` is the byte offset of a character of `t`, or of its end.
pub open spec fn is_boundary(t: Seq<char>, b: nat) -> bool {
    exists|i: int| 0 <= i <= t.len() && byte_at(t, i) == b
}

/// The character index of byte offset `b`: the end of the text at or past
/// its last byte, else the character that starts there.
pub open spec fn char_index(t: Seq<char>, b: nat) -> int {
    if b >= utf8_len(t) {
        t.len() as int
    } else {
        choose|i: int| 0 <= i <= t.len() && byte_at(t, i) == b
    }
}

pub(crate) proof fn lemma_byte_at_step(t: Seq<char>, i: int)
    requires
        0 <= i < t.len(),
    ensures
        byte_at(t, i + 1) == byte_at(t, i) + crate::multi::utf8_width(t[i]),
        crate::multi::utf8_width(t[i]) >= 1,
{
    assert(t.take(i + 1).drop_last() =~= t.take(i));
}

pub(crate) proof fn lemma_byte_at_increasing(t: Seq<char>, i: int, j: int)
    requires
        0 <= i < j <= t.len(),
    ensures
        byte_at(t, i) < byte_at(t, j),
        byte_at(t, j) <= utf8_len(t),
    decreases j - i,
{
    lemma_byte_at_step(t, j - 1);
    if i < j - 1 {
        lemma_byte_at_increasing(t, i, j - 1);
    }
    lemma_byte_at_le_len(t, j);
}

pub(crate) proof fn lemma_byte_at_le_len(t: Seq<char>, j: int)
    requires
        0 <= j <= t.len(),
    ensures
        byte_at(t, j) <= utf8_len(t),
    decreases t.len() - j,
{
    if j < t.len() {
        lemma_byte_at_step(t, j);
        lemma_byte_at_le_len(t, j + 1);
    } else {
        assert(t.take(j) =~= t);
    }
}

pub(crate) proof fn lemma_char_index(t: Seq<char>, b: nat)
    requires
        b >= utf8_len(t) || is_boundary(t, b),
    ensures
        0 <= char_index(t, b) <= t.len(),
        b < utf8_len(t) ==> byte_at(t, char_index(t, b)) == b,
        b < utf8_len(t) ==> char_index(t, b) < t.len(),
        forall|i: int| 0 <= i <= t.len() && byte_at(t, i) == b ==> i == char_index(t, b),
{
    assert(t.take(t.len() as int) =~= t);
    if b < utf8_len(t) {
        let c = char_index(t, b);
        assert forall|i: int| 0 <= i <= t.len() && byte_at(t, i) == b implies i == c by {
            if i < c {
                lemma_byte_at_increasing(t, i, c);
            } else if c < i {
                lemma_byte_at_increasing(t, c, i);
            }
        }
    } else {
        assert forall|i: int| 0 <= i <= t.len() && byte_at(t, i) == b implies i == t.len() by {
            if i < t.len() {
                lemma_byte_at_increasing(t, i, t.len() as int);
            }
        }
    }
}

/// Walks the characters of `t` up to byte offset `cursor` (a boundary of `t`
/// below its end); returns the character index there.
pub(crate) fn char_index_at(t: &Vec<char>, cursor: usize) -> (i: usize)
    requires
        is_boundary(t@, cursor as nat),
        cursor < utf8_len(t@),
        utf8_len(t@) <= usize::MAX,
    ensures
        i == char_index(t@, cursor as nat),
        i < t.len(),
{
    proof {
        lemma_char_index(t@, cursor as nat);
    }
    let ghost target = char_index(t@, cursor as nat);
    let mut i: usize = 0;
    let mut pos: usize = 0;
    assert(t@.take(0) =~= Seq::<char>::empty());
    while pos < cursor
        invariant
            0 <= i <= target < t.len(),
            pos == byte_at(t@, i as int),
            byte_at(t@, target) == cursor,
            utf8_len(t@) <= usize::MAX,
            pos <= cursor,
        decreases target - i,
    {
        proof {
            if i == target {
                assert(false);
            }
            lemma_byte_at_step(t@, i as int);
            if i + 1 < target {
                lemma_byte_at_increasing(t@, i + 1, target);
            }
        }
        pos = pos + char_width(t[i]);
        i = i + 1;
        proof {
            if i < target {
                lemma_byte_at_increasing(t@, i as int, target);
            }
        }
    }
    proof {
        if i < target {
            lemma_byte_at_increasing(t@, i as int, target);
        }
    }
    i
}

pub(crate) fn char_width(c: char) -> (w: usize)
    ensures
        w == crate::multi::utf8_width(c),
{
    let v = c as u32;
    if v < 0x80 {
        1
    } else if v < 0x800 {
        2
    } else if v < 0x10000 {
        3
    } else {
        4
    }
}

/// Byte offset of character `k` of `t`.
pub(crate) fn byte_offset(t: &Vec<char>, k: usize) -> (b: usize)
    requires
        k <= t.len(),
        utf8_len(t@) <= usize::MAX,
    ensures
        b == byte_at(t@, k as int),
{
    let mut i: usize = 0;
    let mut pos: usize = 0;
    assert(t@.take(0) =~= Seq::<char>::empty());
    while i < k
        invariant
            0 <= i <= k <= t.len(),
            pos == byte_at(t@, i as int),
            utf8_len(t@) <= usize::MAX,
        decreases k - i,
    {
        proof {
            lemma_byte_at_step(t@, i as int);
            lemma_byte_at_le_len(t@, i + 1);
        }
        pos = pos + char_width(t[i]);
        i = i + 1;
    }
    pos
}

/// Character indices of the newlines of `t`, in order.
pub open spec fn newline_positions(t: Seq<char>) -> Seq<int>
    decreases t.len(),
{
    if t.len() == 0 {
        Seq::empty()
    } else if t.last() == '\n' {
        newline_positions(t.drop_last()).push(t.len() - 1)
    } else {
        newline_positions(t.drop_last())
    }
}

/// Byte offsets at which the lines of `t` start: 0, then just past each
/// newline.
pub open spec fn line_starts_spec(t: Seq<char>) -> Seq<int> {
    seq![0int] + newline_positions(t).map_values(|k: int| byte_at(t, k + 1) as int)
}

pub(crate) proof fn lemma_newline_positions(t: Seq<char>)
    ensures
        forall|j: int|
            0 <= j < newline_positions(t).len() ==> 0 <= #[trigger] newline_positions(t)[j] < t.len()
                && t[newline_positions(t)[j]] == '\n',
        forall|j1: int, j2: int|
            0 <= j1 < j2 < newline_positions(t).len() ==> newline_positions(t)[j1]
                < newline_positions(t)[j2],
        forall|k: int| 0 <= k < t.len() && t[k] == '\n' ==> newline_positions(t).contains(k),
    decreases t.len(),
{
    if t.len() > 0 {
        let u = t.drop_last();
        lemma_newline_positions(u);
        assert forall|k: int| 0 <= k < t.len() && t[k] == '\n' implies newline_positions(t).contains(k) by {
            if k < t.len() - 1 {
                assert(u[k] == t[k]);
                let j = choose|j: int| 0 <= j < newline_positions(u).len() && newline_positions(u)[j] == k;
                assert(newline_positions(t)[j] == k);
            } else {
                assert(newline_positions(t).last() == k);
            }
        }
    }
}

/// The newlines of a prefix of `t` are the first ones of `t`; the others
/// stand at or past the prefix's end.
pub(crate) proof fn lemma_newline_prefix(t: Seq<char>, c: int)
    requires
        0 <= c <= t.len(),
    ensures
        newline_positions(t.take(c)).len() <= newline_positions(t).len(),
        newline_positions(t.take(c)) == newline_positions(t).take(newline_positions(t.take(c)).len() as int),
        forall|j: int|
            newline_positions(t.take(c)).len() <= j < newline_positions(t).len() ==> #[trigger] newline_positions(t)[j] >= c,
    decreases t.len(),
{
    if c == t.len() {
        assert(t.take(c) =~= t);
        assert(newline_positions(t).take(newline_positions(t).len() as int) =~= newline_positions(t));
    } else {
        let u = t.drop_last();
        assert(t.take(c) =~= u.take(c));
        lemma_newline_prefix(u, c);
        let m = newline_positions(u.take(c)).len() as int;
        if t.last() == '\n' {
            assert(newline_positions(t).take(m) =~= newline_positions(u).take(m));
        }
    }
}

/// Row of character index `ci`: the newlines before it.
pub open spec fn row_at(t: Seq<char>, ci: int) -> nat {
    newline_positions(t.take(ci)).len()
}

/// Character index where row `r` of `t` starts.
pub open spec fn row_start(t: Seq<char>, r: int) -> int {
    if r == 0 {
        0
    } else {
        newline_positions(t)[r - 1] + 1
    }
}

/// Character index where row `r` of `t` ends: its newline, or the text's end.
pub open spec fn row_end(t: Seq<char>, r: int) -> int {
    if r < newline_positions(t).len() {
        newline_positions(t)[r]
    } else {
        t.len() as int
    }
}

/// Row and column (in characters) of byte offset `cursor`, taken within the
/// text.
pub open spec fn row_col_spec(t: Seq<char>, cursor: nat) -> (nat, nat) {
    let ci = char_index(t, cursor);
    let row = row_at(t, ci);
    (row, (ci - row_start(t.take(ci), row as int)) as nat)
}

/// Byte offset of row `row`, column `col` (in characters): the row is taken
/// within the text's rows and the column within the row.
pub open spec fn offset_for_spec(t: Seq<char>, row: nat, col: nat) -> nat {
    let rows = newline_positions(t).len();
    let r = if row <= rows {
        row as int
    } else {
        rows as int
    };
    let s = row_start(t, r);
    let e = row_end(t, r);
    let k = if col <= e - s {
        s + col
    } else {
        e
    };
    byte_at(t, k)
}

/// Byte offsets at which the lines of `text` start.
pub fn line_starts(text: &str) -> (r: Vec<usize>)
    requires
        utf8_len(text@) <= usize::MAX,
    ensures
        r@.map_values(|x: usize| x as int) == line_starts_spec(text@),
{
    let t = chars_of(text);
    let ghost ts = t@;
    let mut starts: Vec<usize> = Vec::new();
    starts.push(0);
    let mut pos: usize = 0;
    let mut i: usize = 0;
    assert(ts.take(0) =~= Seq::<char>::empty());
    assert(newline_positions(ts.take(0)) =~= Seq::<int>::empty());
    while i < t.len()
        invariant
            0 <= i <= t.len(),
            ts == t@,
            utf8_len(ts) <= usize::MAX,
            pos == byte_at(ts, i as int),
            starts@.map_values(|x: usize| x as int) == seq![0int] + newline_positions(ts.take(i as int)).map_values(
                |k: int| byte_at(ts, k + 1) as int,
            ),
        decreases t.len() - i,
    {
        proof {
            lemma_byte_at_step(ts, i as int);
            lemma_byte_at_le_len(ts, i + 1);
            assert(ts.take(i + 1).drop_last() =~= ts.take(i as int));
            assert(ts.take(i + 1).last() == ts[i as int]);
        }
        let c = t[i];
        pos = pos + char_width(c);
        if c == '\n' {
            let ghost before = starts@;
            starts.push(pos);
            proof {
                assert(starts@.map_values(|x: usize| x as int) =~= before.map_values(|x: usize| x as int).push(pos as int));
                assert(newline_positions(ts.take(i + 1)) == newline_positions(ts.take(i as int)).push(i as int));
                assert(newline_positions(ts.take(i + 1)).map_values(|k: int| byte_at(ts, k + 1) as int)
                    =~= newline_positions(ts.take(i as int)).map_values(|k: int| byte_at(ts, k + 1) as int).push(
                    byte_at(ts, i + 1) as int,
                ));
            }
        }
        i = i + 1;
    }
    assert(ts.take(t.len() as int) =~= ts);
    starts
}

/// Row and column (in characters) of byte offset `cursor` in `text`.
pub fn cursor_row_col(text: &str, cursor: usize) -> (r: (usize, usize))
    requires
        utf8_len(text@) <= usize::MAX,
        cursor >= utf8_len(text@) || is_boundary(text@, cursor as nat),
    ensures
        (r.0 as nat, r.1 as nat) == row_col_spec(text@, cursor as nat),
{
    let t = chars_of(text);
    let ghost ts = t@;
    proof {
        lemma_char_index(ts, cursor as nat);
    }
    let total = byte_offset(&t, t.len());
    assert(ts.take(t.len() as int) =~= ts);
    let ci = if cursor >= total {
        t.len()
    } else {
        char_index_at(&t, cursor)
    };
    let mut row: usize = 0;
    let mut line_start: usize = 0;
    let mut i: usize = 0;
    assert(ts.take(0) =~= Seq::<char>::empty());
    while i < ci
        invariant
            0 <= i <= ci <= t.len(),
            ts == t@,
            row == newline_positions(ts.take(i as int)).len(),
            line_start == row_start(ts.take(i as int), row as int),
            line_start <= i,
            row <= i,
        decreases ci - i,
    {
        proof {
            lemma_newline_positions(ts.take(i as int));
            assert(ts.take(i + 1).drop_last() =~= ts.take(i as int));
            assert(ts.take(i + 1).last() == ts[i as int]);
        }
        if t[i] == '\n' {
            row = row + 1;
            line_start = i + 1;
        }
        i = i + 1;
    }
    (row, ci - line_start)
}

/// Byte offset of row `row`, column `col` (in characters) of `text`.
pub fn cursor_for_row_col(text: &str, row: usize, col: usize) -> (r: usize)
    requires
        utf8_len(text@) <= usize::MAX,
    ensures
        r == offset_for_spec(text@, row as nat, col as nat),
{
    let t = chars_of(text);
    let ghost ts = t@;
    let mut nls: Vec<usize> = Vec::new();
    let mut i: usize = 0;
    assert(ts.take(0) =~= Seq::<char>::empty());
    while i < t.len()
        invariant
            0 <= i <= t.len(),
            ts == t@,
            nls@.map_values(|x: usize| x as int) == newline_positions(ts.take(i as int)),
        decreases t.len() - i,
    {
        assert(ts.take(i + 1).drop_last() =~= ts.take(i as int));
        assert(ts.take(i + 1).last() == ts[i as int]);
        if t[i] == '\n' {
            let ghost before = nls@;
            nls.push(i);
            assert(nls@.map_values(|x: usize| x as int) =~= before.map_values(|x: usize| x as int).push(i as int));
        }
        i = i + 1;
    }
    assert(ts.take(t.len() as int) =~= ts);
    proof {
        lemma_newline_positions(ts);
    }
    let ghost np = newline_positions(ts);
    let rows = nls.len();
    let r = if row <= rows {
        row
    } else {
        rows
    };
    let s = if r == 0 {
        0
    } else {
        assert(np[r - 1] == nls@[r - 1] as int);
        nls[r - 1] + 1
    };
    let e = if r < rows {
        assert(np[r as int] == nls@[r as int] as int);
        nls[r]
    } else {
        t.len()
    };
    proof {
        if r > 0 && r < rows {
            assert(np[r - 1] < np[r as int]);
        }
    }
    let k = if col <= e - s {
        s + col
    } else {
        e
    };
    byte_offset(&t, k)
}

/// Byte offset of the character before byte offset `cursor` (0 at the start).
pub fn prev_char_boundary(text: &str, cursor: usize) -> (r: usize)
    requires
        utf8_len(text@) <= usize::MAX,
        cursor == 0 || is_boundary(text@, cursor as nat),
    ensures
        r == (if cursor == 0 {
            0
        } else {
            byte_at(text@, char_index(text@, cursor as nat) - 1)
        }),
{
    if cursor == 0 {
        return 0;
    }
    let t = chars_of(text);
    let ghost ts = t@;
    proof {
        lemma_char_index(ts, cursor as nat);
    }
    let total = byte_offset(&t, t.len());
    assert(ts.take(t.len() as int) =~= ts);
    let ci = if cursor >= total {
        proof {
            let j = choose|j: int| 0 <= j <= ts.len() && byte_at(ts, j) == cursor;
            if j < ts.len() {
                lemma_byte_at_increasing(ts, j, ts.len() as int);
            }
        }
        t.len()
    } else {
        char_index_at(&t, cursor)
    };
    proof {
        if ci == 0 {
            assert(ts.take(0) =~= Seq::<char>::empty());
        }
    }
    byte_offset(&t, ci - 1)
}

/// Byte offset of the character after the one at byte offset `cursor` (the
/// end of the text at or past its end).
pub fn next_char_boundary(text: &str, cursor: usize) -> (r: usize)
    requires
        utf8_len(text@) <= usize::MAX,
        cursor >= utf8_len(text@) || is_boundary(text@, cursor as nat),
    ensures
        r == (if cursor >= utf8_len(text@) {
            utf8_len(text@)
        } else {
            byte_at(text@, char_index(text@, cursor as nat) + 1)
        }),
{
    let t = chars_of(text);
    let ghost ts = t@;
    proof {
        lemma_char_index(ts, cursor as nat);
    }
    let total = byte_offset(&t, t.len());
    assert(ts.take(t.len() as int) =~= ts);
    if cursor >= total {
        return total;
    }
    let ci = char_index_at(&t, cursor);
    byte_offset(&t, ci + 1)
}

/// Index of the last `@` of `s`.
#[verifier::opaque]
pub open spec fn last_at_sign(s: Seq<char>) -> int {
    choose|a: int| 0 <= a < s.len() && s[a] == '@' && forall|j: int| a < j < s.len() ==> s[j] != '@'
}

/// The mention being typed at byte offset `cursor` (taken within the text):
/// the last `@` before the cursor, by its byte offset, and the characters
/// from it to the cursor, when they are all reference characters.
pub open spec fn mention_query_spec(t: Seq<char>, cursor: nat) -> Option<(nat, Seq<char>)> {
    let before = t.take(char_index(t, cursor));
    if !before.contains('@') {
        None
    } else {
        let at = last_at_sign(before);
        let token = before.skip(at + 1);
        if forall|j: int| 0 <= j < token.len() ==> is_ref_char(#[trigger] token[j]) {
            Some((byte_at(t, at), token))
        } else {
            None
        }
    }
}

/// The mention query at byte offset `cursor` of `text`, with the byte offset
/// of its `@`.
pub fn mention_query_at_cursor(text: &str, cursor: usize) -> (r: Option<(usize, String)>)
    requires
        utf8_len(text@) <= usize::MAX,
        cursor >= utf8_len(text@) || is_boundary(text@, cursor as nat),
    ensures
        match r {
            Some((at, token)) => mention_query_spec(text@, cursor as nat) == Some((at as nat, token@)),
            None => mention_query_spec(text@, cursor as nat) is None,
        },
{
    let t = chars_of(text);
    let ghost ts = t@;
    proof {
        lemma_char_index(ts, cursor as nat);
    }
    let total = byte_offset(&t, t.len());
    assert(ts.take(t.len() as int) =~= ts);
    let ci = if cursor >= total {
        t.len()
    } else {
        char_index_at(&t, cursor)
    };
    let ghost before = ts.take(ci as int);
    let mut k: usize = ci;
    while k > 0 && t[k - 1] != '@'
        invariant
            0 <= k <= ci <= t.len(),
            ts == t@,
            before == ts.take(ci as int),
            forall|j: int| k <= j < ci ==> before[j] != '@',
        decreases k,
    {
        k = k - 1;
    }
    if k == 0 {
        assert forall|j: int| 0 <= j < before.len() implies before[j] != '@' by {}
        assert(!before.contains('@'));
        return None;
    }
    let at = k - 1;
    assert(before[at as int] == '@');
    assert(before.contains('@'));
    let ghost chosen = last_at_sign(before);
    assert(0 <= at < before.len() && before[at as int] == '@' && forall|j: int|
        at < j < before.len() ==> before[j] != '@');
    proof {
        reveal(last_at_sign);
        if chosen < at {
            assert(before[at as int] != '@');
        } else if chosen > at {
            assert(before[chosen] != '@');
        }
    }
    let ghost token = before.skip(at + 1);
    let mut out: Vec<char> = Vec::new();
    let mut j: usize = at + 1;
    while j < ci
        invariant
            at + 1 <= j <= ci <= t.len(),
            ts == t@,
            before == ts.take(ci as int),
            token == before.skip(at + 1),
            text@ == ts,
            ci == char_index(ts, cursor as nat),
            before.contains('@'),
            last_at_sign(before) == at as int,
            out@ == token.take(j - at - 1),
            forall|q: int| 0 <= q < j - at - 1 ==> is_ref_char(#[trigger] token[q]),
        decreases ci - j,
    {
        assert(token[j - at - 1] == ts[j as int]);
        if !char_is_ref(t[j]) {
            proof {
                let q = j - at - 1;
                assert(!is_ref_char(token[q]));
            }
            return None;
        }
        out.push(t[j]);
        assert(out@ =~= token.take(j - at));
        j = j + 1;
    }
    assert(out@ =~= token);
    let at_byte = byte_offset(&t, at);
    Some((at_byte, string_from_chars(out.as_slice())))
}

// ---------------------------------------------------------------------------
// Laws of cursor movement.
// ---------------------------------------------------------------------------

/// Going from a byte offset to its row and column and back gives the same
/// offset, for every offset at which a character starts or the text ends.
pub proof fn law_row_col_round_trip(t: Seq<char>, cursor: nat)
    requires
        is_boundary(t, cursor),
    ensures
        offset_for_spec(t, row_col_spec(t, cursor).0, row_col_spec(t, cursor).1) == cursor,
{
    lemma_char_index(t, cursor);
    let ci = char_index(t, cursor);
    lemma_newline_prefix(t, ci);
    lemma_newline_positions(t);
    lemma_newline_positions(t.take(ci));
    let p = newline_positions(t.take(ci));
    let np = newline_positions(t);
    let row = p.len() as int;
    assert(t.take(t.len() as int) =~= t);
    if cursor >= utf8_len(t) {
        let j = choose|j: int| 0 <= j <= t.len() && byte_at(t, j) == cursor;
        if j < t.len() {
            lemma_byte_at_increasing(t, j, t.len() as int);
        }
    }
    assert(byte_at(t, ci) == cursor);
    if row > 0 {
        assert(p[row - 1] == np[row - 1]);
        assert(p[row - 1] < ci);
    }
    if row < np.len() {
        assert(np[row] >= ci);
    }
}

/// Moving one character back and then one forward returns to the same
/// offset, for every offset after the start at which a character starts or
/// the text ends.
pub proof fn law_prev_then_next_boundary(t: Seq<char>, cursor: nat)
    requires
        cursor > 0,
        is_boundary(t, cursor),
    ensures
        ({
            let p = byte_at(t, char_index(t, cursor) - 1);
            &&& is_boundary(t, p)
            &&& p < utf8_len(t)
            &&& byte_at(t, char_index(t, p) + 1) == cursor
        }),
{
    lemma_char_index(t, cursor);
    let ci = char_index(t, cursor);
    assert(t.take(t.len() as int) =~= t);
    if cursor >= utf8_len(t) {
        let j = choose|j: int| 0 <= j <= t.len() && byte_at(t, j) == cursor;
        if j < t.len() {
            lemma_byte_at_increasing(t, j, t.len() as int);
        }
    }
    if ci == 0 {
        assert(t.take(0) =~= Seq::<char>::empty());
    }
    let p = byte_at(t, ci - 1);
    lemma_byte_at_increasing(t, ci - 1, t.len() as int);
    assert(is_boundary(t, p));
    lemma_char_index(t, p);
}

/// Moving one character forward and then one back returns to the same
/// offset, for every offset before the end at which a character starts.
pub proof fn law_next_then_prev_boundary(t: Seq<char>, cursor: nat)
    requires
        cursor < utf8_len(t),
        is_boundary(t, cursor),
    ensures
        ({
            let n = byte_at(t, char_index(t, cursor) + 1);
            &&& n > 0
            &&& is_boundary(t, n)
            &&& byte_at(t, char_index(t, n) - 1) == cursor
        }),
{
    lemma_char_index(t, cursor);
    let ci = char_index(t, cursor);
    let n = byte_at(t, ci + 1);
    lemma_byte_at_step(t, ci);
    assert(is_boundary(t, n));
    lemma_char_index(t, n);
    assert(t.take(t.len() as int) =~= t);
    if n >= utf8_len(t) {
        if ci + 1 < t.len() {
            lemma_byte_at_increasing(t, ci + 1, t.len() as int);
        }
    }
}

} // verus!
