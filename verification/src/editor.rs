//! The review comment editor: a text with a cursor (a byte offset on a
//! character boundary) and the edits and moves the editor makes.

use vstd::prelude::*;
use crate::anchors::{
    anchor_span_spec, comments_view, prefers_right, review_anchor_display_span, side_name, CommentModel, ReviewAnchor,
    ReviewAnchorModel, ReviewComment, ReviewTargetKind,
};
use crate::review::{format_opt_range_display, opt_range_display, ReviewSide};
use crate::text::{split_chars, split_on, chars_view};
use crate::view::ViewLine;
use crate::review::{preserve_ref_trailing_space, preserve_spec};
use crate::text::{trim, trim_chars, trim_end};
use crate::multi::{utf8_len, utf8_width};
use crate::review::{
    byte_at, byte_offset, char_index, char_index_at, char_width, cursor_for_row_col,
    cursor_row_col, is_boundary, lemma_byte_at_increasing, lemma_byte_at_le_len,
    lemma_byte_at_step, lemma_char_index, lemma_newline_positions, line_starts, line_starts_spec,
    newline_positions, next_char_boundary, offset_for_spec, prev_char_boundary, row_col_spec,
    row_end, row_start,
};
use crate::text::{chars_of, string_from_chars};

verus! {

/// The comment being written: its anchor, its text and the cursor.
#[derive(Debug)]
pub struct ReviewEditorState {
    pub anchor: ReviewAnchor,
    pub text: String,
    pub cursor: usize,
}

/// The editor is well formed: the text's UTF-8 length fits a `usize` and
/// the cursor is on a character boundary (or at the end).
pub open spec fn editor_wf(e: ReviewEditorState) -> bool {
    utf8_len(e.text@) <= usize::MAX && is_boundary(e.text@, e.cursor as nat)
}

/// The character index of the cursor.
pub open spec fn cursor_char(e: ReviewEditorState) -> int {
    char_index(e.text@, e.cursor as nat)
}

// ---------------------------------------------------------------------------
// UTF-8 lengths of pieces.
// ---------------------------------------------------------------------------

pub(crate) proof fn lemma_utf8_concat(a: Seq<char>, b: Seq<char>)
    ensures
        utf8_len(a + b) == utf8_len(a) + utf8_len(b),
    decreases b.len(),
{
    if b.len() == 0 {
        assert(a + b =~= a);
    } else {
        lemma_utf8_concat(a, b.drop_last());
        assert((a + b).drop_last() =~= a + b.drop_last());
    }
}

pub(crate) proof fn lemma_boundary_at(t: Seq<char>, i: int)
    requires
        0 <= i <= t.len(),
    ensures
        is_boundary(t, byte_at(t, i)),
{
}

pub(crate) proof fn lemma_cursor_facts(t: Seq<char>, cursor: nat)
    requires
        is_boundary(t, cursor),
    ensures
        0 <= char_index(t, cursor) <= t.len(),
        byte_at(t, char_index(t, cursor)) == cursor,
        cursor <= utf8_len(t),
{
    lemma_char_index(t, cursor);
    let j = choose|j: int| 0 <= j <= t.len() && byte_at(t, j) == cursor;
    lemma_byte_at_le_len(t, j);
    if cursor >= utf8_len(t) {
        assert(t.take(t.len() as int) =~= t);
        if j < t.len() {
            lemma_byte_at_increasing(t, j, t.len() as int);
        }
    }
}

/// `t` with `c` inserted at character `i`.
pub open spec fn insert_at(t: Seq<char>, i: int, c: char) -> Seq<char> {
    t.take(i).push(c) + t.skip(i)
}

/// `t` without its characters `i..j`.
pub open spec fn remove_range(t: Seq<char>, i: int, j: int) -> Seq<char> {
    t.take(i) + t.skip(j)
}

fn char_cursor(t: &Vec<char>, cursor: usize) -> (ci: usize)
    requires
        utf8_len(t@) <= usize::MAX,
        is_boundary(t@, cursor as nat),
    ensures
        ci == char_index(t@, cursor as nat),
        ci <= t.len(),
{
    proof {
        lemma_char_index(t@, cursor as nat);
    }
    let total = byte_offset(t, t.len());
    assert(t@.take(t.len() as int) =~= t@);
    if cursor >= total {
        t.len()
    } else {
        char_index_at(t, cursor)
    }
}

fn splice(t: &Vec<char>, i: usize, j: usize, middle: &[char]) -> (r: Vec<char>)
    requires
        i <= j <= t.len(),
    ensures
        r@ == t@.take(i as int) + middle@ + t@.skip(j as int),
{
    let mut out: Vec<char> = Vec::new();
    let mut k: usize = 0;
    while k < i
        invariant
            0 <= k <= i <= t.len(),
            out@ == t@.take(k as int),
        decreases i - k,
    {
        out.push(t[k]);
        assert(t@.take(k + 1) =~= t@.take(k as int).push(t@[k as int]));
        k = k + 1;
    }
    let ghost base = out@;
    let mut m: usize = 0;
    while m < middle.len()
        invariant
            0 <= m <= middle.len(),
            out@ == base + middle@.take(m as int),
        decreases middle.len() - m,
    {
        out.push(middle[m]);
        assert(middle@.take(m + 1) =~= middle@.take(m as int).push(middle@[m as int]));
        m = m + 1;
    }
    assert(middle@.take(middle.len() as int) =~= middle@);
    let ghost base2 = out@;
    let mut q: usize = j;
    while q < t.len()
        invariant
            j <= q <= t.len(),
            out@ == base2 + t@.subrange(j as int, q as int),
        decreases t.len() - q,
    {
        out.push(t[q]);
        assert(t@.subrange(j as int, q + 1) =~= t@.subrange(j as int, q as int).push(t@[q as int]));
        q = q + 1;
    }
    assert(t@.subrange(j as int, t.len() as int) =~= t@.skip(j as int));
    out
}

// ---------------------------------------------------------------------------
// Edits.
// ---------------------------------------------------------------------------

/// Types `ch` at the cursor, which moves past it.
pub fn review_insert_char(editor: &mut ReviewEditorState, ch: char)
    requires
        editor_wf(*old(editor)),
        utf8_len(old(editor).text@) + 4 <= usize::MAX,
    ensures
        editor_wf(*final(editor)),
        final(editor).anchor == old(editor).anchor,
        final(editor).text@ == insert_at(old(editor).text@, cursor_char(*old(editor)), ch),
        final(editor).cursor == old(editor).cursor + utf8_width(ch),
{
    let t = chars_of(editor.text.as_str());
    let ghost ts = t@;
    let ci = char_cursor(&t, editor.cursor);
    proof {
        lemma_cursor_facts(ts, editor.cursor as nat);
    }
    let single = [ch];
    let nt = splice(&t, ci, ci, single.as_slice());
    proof {
        let u = nt@;
        assert(u =~= insert_at(ts, ci as int, ch));
        assert(u.take(ci as int) =~= ts.take(ci as int));
        assert(u.take(ci + 1) =~= ts.take(ci as int).push(ch));
        assert(u =~= ts.take(ci as int).push(ch) + ts.skip(ci as int));
        lemma_utf8_concat(ts.take(ci as int).push(ch), ts.skip(ci as int));
        lemma_utf8_concat(ts.take(ci as int), ts.skip(ci as int));
        assert(ts.take(ci as int) + ts.skip(ci as int) =~= ts);
        assert(ts.take(ci as int).push(ch).drop_last() =~= ts.take(ci as int));
        assert(byte_at(u, ci + 1) == byte_at(ts, ci as int) + utf8_width(ch));
        lemma_boundary_at(u, ci + 1);
    }
    let w = char_width(ch);
    editor.text = string_from_chars(nt.as_slice());
    editor.cursor = editor.cursor + w;
}

/// Inserts a newline at the cursor.
pub fn review_insert_newline(editor: &mut ReviewEditorState)
    requires
        editor_wf(*old(editor)),
        utf8_len(old(editor).text@) + 4 <= usize::MAX,
    ensures
        editor_wf(*final(editor)),
        final(editor).anchor == old(editor).anchor,
        final(editor).text@ == insert_at(old(editor).text@, cursor_char(*old(editor)), '\n'),
        final(editor).cursor == old(editor).cursor + 1,
{
    review_insert_char(editor, '\n');
}

/// Deletes the character before the cursor, which moves back over it;
/// nothing at the start.
pub fn review_backspace(editor: &mut ReviewEditorState)
    requires
        editor_wf(*old(editor)),
    ensures
        editor_wf(*final(editor)),
        final(editor).anchor == old(editor).anchor,
        old(editor).cursor == 0 ==> final(editor).text@ == old(editor).text@ && final(editor).cursor == 0,
        old(editor).cursor > 0 ==> {
            &&& final(editor).text@ == remove_range(
                old(editor).text@,
                cursor_char(*old(editor)) - 1,
                cursor_char(*old(editor)),
            )
            &&& final(editor).cursor == byte_at(old(editor).text@, cursor_char(*old(editor)) - 1)
        },
{
    if editor.cursor == 0 {
        return;
    }
    let t = chars_of(editor.text.as_str());
    let ghost ts = t@;
    let ci = char_cursor(&t, editor.cursor);
    proof {
        lemma_cursor_facts(ts, editor.cursor as nat);
        if ci == 0 {
            assert(ts.take(0) =~= Seq::<char>::empty());
        }
    }
    let prev = byte_offset(&t, ci - 1);
    let nt = splice(&t, ci - 1, ci, &[]);
    proof {
        let u = nt@;
        assert(u =~= remove_range(ts, ci - 1, ci as int));
        assert(u.take(ci - 1) =~= ts.take(ci - 1));
        lemma_utf8_concat(ts.take(ci - 1), ts.skip(ci as int));
        lemma_utf8_concat(ts.take(ci as int), ts.skip(ci as int));
        assert(ts.take(ci as int) + ts.skip(ci as int) =~= ts);
        lemma_byte_at_step(ts, ci - 1);
        lemma_boundary_at(u, ci - 1);
    }
    editor.text = string_from_chars(nt.as_slice());
    editor.cursor = prev;
}

/// Deletes the character at the cursor; nothing at the end.
pub fn review_delete(editor: &mut ReviewEditorState)
    requires
        editor_wf(*old(editor)),
    ensures
        editor_wf(*final(editor)),
        final(editor).anchor == old(editor).anchor,
        final(editor).cursor == old(editor).cursor,
        old(editor).cursor >= utf8_len(old(editor).text@) ==> final(editor).text@ == old(editor).text@,
        old(editor).cursor < utf8_len(old(editor).text@) ==> final(editor).text@ == remove_range(
            old(editor).text@,
            cursor_char(*old(editor)),
            cursor_char(*old(editor)) + 1,
        ),
{
    let t = chars_of(editor.text.as_str());
    let ghost ts = t@;
    let total = byte_offset(&t, t.len());
    assert(ts.take(t.len() as int) =~= ts);
    if editor.cursor >= total {
        return;
    }
    let ci = char_cursor(&t, editor.cursor);
    proof {
        lemma_cursor_facts(ts, editor.cursor as nat);
        lemma_char_index(ts, editor.cursor as nat);
    }
    let nt = splice(&t, ci, ci + 1, &[]);
    proof {
        let u = nt@;
        assert(u =~= remove_range(ts, ci as int, ci + 1));
        assert(u.take(ci as int) =~= ts.take(ci as int));
        lemma_utf8_concat(ts.take(ci as int), ts.skip(ci + 1));
        lemma_utf8_concat(ts.take(ci + 1), ts.skip(ci + 1));
        assert(ts.take(ci + 1) + ts.skip(ci + 1) =~= ts);
        lemma_byte_at_step(ts, ci as int);
        lemma_boundary_at(u, ci as int);
    }
    editor.text = string_from_chars(nt.as_slice());
}

/// Empties the text.
pub fn review_clear_editor_text(editor: &mut ReviewEditorState)
    ensures
        editor_wf(*final(editor)),
        final(editor).anchor == old(editor).anchor,
        final(editor).text@ == Seq::<char>::empty(),
        final(editor).cursor == 0,
{
    editor.text = String::new();
    editor.cursor = 0;
    proof {
        assert(byte_at(Seq::<char>::empty(), 0) == 0) by {
            assert(Seq::<char>::empty().take(0) =~= Seq::<char>::empty());
        }
        lemma_boundary_at(Seq::<char>::empty(), 0);
    }
}

// ---------------------------------------------------------------------------
// Moves.
// ---------------------------------------------------------------------------

proof fn lemma_offset_is_boundary(t: Seq<char>, row: nat, col: nat)
    ensures
        is_boundary(t, offset_for_spec(t, row, col)),
{
    lemma_newline_positions(t);
    let nl = newline_positions(t);
    let rows = nl.len();
    let r = if row <= rows {
        row as int
    } else {
        rows as int
    };
    let s = row_start(t, r);
    let e = row_end(t, r);
    assert(0 <= s <= e <= t.len()) by {
        if r > 0 {
            assert(0 <= nl[r - 1] < t.len());
            if r < rows {
                assert(nl[r - 1] < nl[r]);
            }
        } else if r < rows {
            assert(0 <= nl[r] < t.len());
        }
    }
    let k = if col <= e - s {
        s + col
    } else {
        e
    };
    lemma_boundary_at(t, k);
}

/// Moves the cursor back one character.
pub fn review_move_left(editor: &mut ReviewEditorState)
    requires
        editor_wf(*old(editor)),
    ensures
        editor_wf(*final(editor)),
        final(editor).anchor == old(editor).anchor,
        final(editor).text == old(editor).text,
        final(editor).cursor == if old(editor).cursor == 0 {
            0
        } else {
            byte_at(old(editor).text@, cursor_char(*old(editor)) - 1)
        },
{
    let c = prev_char_boundary(editor.text.as_str(), editor.cursor);
    proof {
        let t = editor.text@;
        lemma_cursor_facts(t, editor.cursor as nat);
        if editor.cursor == 0 {
            assert(t.take(0) =~= Seq::<char>::empty());
            lemma_boundary_at(t, 0);
        } else {
            if cursor_char(*editor) == 0 {
                assert(t.take(0) =~= Seq::<char>::empty());
            }
            lemma_boundary_at(t, cursor_char(*editor) - 1);
        }
    }
    editor.cursor = c;
}

/// Moves the cursor forward one character.
pub fn review_move_right(editor: &mut ReviewEditorState)
    requires
        editor_wf(*old(editor)),
    ensures
        editor_wf(*final(editor)),
        final(editor).anchor == old(editor).anchor,
        final(editor).text == old(editor).text,
        final(editor).cursor == if old(editor).cursor >= utf8_len(old(editor).text@) {
            utf8_len(old(editor).text@)
        } else {
            byte_at(old(editor).text@, cursor_char(*old(editor)) + 1)
        },
{
    let c = next_char_boundary(editor.text.as_str(), editor.cursor);
    proof {
        let t = editor.text@;
        lemma_cursor_facts(t, editor.cursor as nat);
        lemma_char_index(t, editor.cursor as nat);
        assert(t.take(t.len() as int) =~= t);
        lemma_boundary_at(t, t.len() as int);
        if editor.cursor < utf8_len(t) {
            lemma_boundary_at(t, cursor_char(*editor) + 1);
        }
    }
    editor.cursor = c;
}

/// Moves the cursor to the same column of the row above (the end of that
/// row when it is shorter); nothing on the first row.
pub fn review_move_up(editor: &mut ReviewEditorState)
    requires
        editor_wf(*old(editor)),
    ensures
        editor_wf(*final(editor)),
        final(editor).anchor == old(editor).anchor,
        final(editor).text == old(editor).text,
        final(editor).cursor == {
            let rc = row_col_spec(old(editor).text@, old(editor).cursor as nat);
            if rc.0 == 0 {
                old(editor).cursor as nat
            } else {
                offset_for_spec(old(editor).text@, (rc.0 - 1) as nat, rc.1)
            }
        },
{
    let (row, col) = cursor_row_col(editor.text.as_str(), editor.cursor);
    if row == 0 {
        return;
    }
    let c = cursor_for_row_col(editor.text.as_str(), row - 1, col);
    proof {
        lemma_offset_is_boundary(editor.text@, (row - 1) as nat, col as nat);
    }
    editor.cursor = c;
}

/// Moves the cursor to the same column of the row below (the end of that
/// row when it is shorter); nothing on the last row.
pub fn review_move_down(editor: &mut ReviewEditorState)
    requires
        editor_wf(*old(editor)),
    ensures
        editor_wf(*final(editor)),
        final(editor).anchor == old(editor).anchor,
        final(editor).text == old(editor).text,
        final(editor).cursor == {
            let rc = row_col_spec(old(editor).text@, old(editor).cursor as nat);
            if rc.0 + 1 >= line_starts_spec(old(editor).text@).len() {
                old(editor).cursor as nat
            } else {
                offset_for_spec(old(editor).text@, rc.0 + 1, rc.1)
            }
        },
{
    let starts = line_starts(editor.text.as_str());
    if starts.len() == 0 {
        assert(starts@.map_values(|x: usize| x as int).len() == 0);
        return;
    }
    let (row, col) = cursor_row_col(editor.text.as_str(), editor.cursor);
    if row >= starts.len() - 1 {
        return;
    }
    let c = cursor_for_row_col(editor.text.as_str(), row + 1, col);
    proof {
        lemma_offset_is_boundary(editor.text@, (row + 1) as nat, col as nat);
    }
    editor.cursor = c;
}

/// Moves the cursor to the start of its row.
pub fn review_move_home(editor: &mut ReviewEditorState)
    requires
        editor_wf(*old(editor)),
    ensures
        editor_wf(*final(editor)),
        final(editor).anchor == old(editor).anchor,
        final(editor).text == old(editor).text,
        final(editor).cursor == offset_for_spec(
            old(editor).text@,
            row_col_spec(old(editor).text@, old(editor).cursor as nat).0,
            0,
        ),
{
    let (row, _) = cursor_row_col(editor.text.as_str(), editor.cursor);
    let c = cursor_for_row_col(editor.text.as_str(), row, 0);
    proof {
        lemma_offset_is_boundary(editor.text@, row as nat, 0);
    }
    editor.cursor = c;
}

/// Moves the cursor to the end of its row: just before the newline that
/// ends it, or the end of the text on the last row.
pub fn review_move_end(editor: &mut ReviewEditorState)
    requires
        editor_wf(*old(editor)),
    ensures
        editor_wf(*final(editor)),
        final(editor).anchor == old(editor).anchor,
        final(editor).text == old(editor).text,
        final(editor).cursor == {
            let t = old(editor).text@;
            let row = row_col_spec(t, old(editor).cursor as nat).0;
            if row + 1 < line_starts_spec(t).len() {
                line_starts_spec(t)[row + 1 as int] - 1
            } else {
                utf8_len(t) as int
            }
        },
{
    let (row, _) = cursor_row_col(editor.text.as_str(), editor.cursor);
    let starts = line_starts(editor.text.as_str());
    let ghost t = editor.text@;
    let ghost sv = starts@.map_values(|x: usize| x as int);
    let t_chars = chars_of(editor.text.as_str());
    let total = byte_offset(&t_chars, t_chars.len());
    assert(t.take(t.len() as int) =~= t);
    assert(starts.len() >= 1) by {
        assert(sv.len() == line_starts_spec(t).len());
    }
    let line_end = if row < starts.len() - 1 {
        proof {
            lemma_newline_positions(t);
            let nl = newline_positions(t);
            assert(line_starts_spec(t).len() == 1 + nl.len());
            let k = nl[row as int];
            assert(sv[row + 1] == starts@[row + 1] as int);
            assert(line_starts_spec(t)[row + 1] == byte_at(t, k + 1));
            assert(sv[row + 1] == byte_at(t, k + 1));
            lemma_byte_at_step(t, k);
            assert(t[k] == '\n');
            assert(utf8_width('\n') == 1);
            lemma_boundary_at(t, k);
        }
        if starts[row + 1] >= 1 {
            starts[row + 1] - 1
        } else {
            0
        }
    } else {
        proof {
            lemma_boundary_at(t, t.len() as int);
        }
        total
    };
    editor.cursor = line_end;
}

// ---------------------------------------------------------------------------
// Accepting a mention.
// ---------------------------------------------------------------------------

/// Replaces the typed mention (from byte `start` to the cursor, both taken
/// within the text) by `insert_text`; the cursor moves past it.
pub fn review_accept_mention_text(editor: &mut ReviewEditorState, start: usize, insert_text: &str)
    requires
        editor_wf(*old(editor)),
        ({
            let t = old(editor).text@;
            let s = if start < utf8_len(t) {
                start as nat
            } else {
                utf8_len(t)
            };
            &&& is_boundary(t, s)
            &&& s <= old(editor).cursor
            &&& utf8_len(t) + utf8_len(insert_text@) <= usize::MAX
        }),
    ensures
        editor_wf(*final(editor)),
        final(editor).anchor == old(editor).anchor,
        ({
            let t = old(editor).text@;
            let s = if start < utf8_len(t) {
                start as nat
            } else {
                utf8_len(t)
            };
            &&& final(editor).text@ == t.take(char_index(t, s)) + insert_text@ + t.skip(cursor_char(*old(editor)))
            &&& final(editor).cursor == s + utf8_len(insert_text@)
        }),
{
    let t = chars_of(editor.text.as_str());
    let ghost ts = t@;
    let total = byte_offset(&t, t.len());
    assert(ts.take(t.len() as int) =~= ts);
    let s = if start < total {
        start
    } else {
        total
    };
    proof {
        lemma_cursor_facts(ts, s as nat);
        lemma_cursor_facts(ts, editor.cursor as nat);
    }
    let si = char_cursor(&t, s);
    let ei = char_cursor(&t, editor.cursor);
    proof {
        if si > ei {
            lemma_byte_at_increasing(ts, ei as int, si as int);
        }
    }
    let ins = chars_of(insert_text);
    let nt = splice(&t, si, ei, ins.as_slice());
    proof {
        let u = nt@;
        let a = ts.take(si as int);
        assert(u =~= a + ins@ + ts.skip(ei as int));
        assert(u.take(si + ins.len()) =~= a + ins@);
        lemma_utf8_concat(a, ins@);
        lemma_utf8_concat(a + ins@, ts.skip(ei as int));
        lemma_utf8_concat(ts.take(ei as int), ts.skip(ei as int));
        assert(ts.take(ei as int) + ts.skip(ei as int) =~= ts);
        lemma_utf8_concat(ts.take(si as int), ts.subrange(si as int, ei as int));
        assert(ts.take(si as int) + ts.subrange(si as int, ei as int) =~= ts.take(ei as int));
        lemma_boundary_at(u, si + ins.len());
    }
    let ilen = byte_offset(&ins, ins.len());
    assert(ins@.take(ins.len() as int) =~= ins@);
    editor.text = string_from_chars(nt.as_slice());
    editor.cursor = s + ilen;
}

// ---------------------------------------------------------------------------
// Saving a comment.
// ---------------------------------------------------------------------------

/// The body a comment is saved with: its text trimmed at the end, with one
/// space kept after a trailing reference.
pub open spec fn saved_body(text: Seq<char>) -> Seq<char> {
    if preserve_spec(text) {
        trim_end(text).push(' ')
    } else {
        trim_end(text)
    }
}

/// The position of the first comment with the anchor key.
pub open spec fn key_position(cs: Seq<CommentModel>, key: Seq<char>) -> Option<int>
    decreases cs.len(),
{
    if cs.len() == 0 {
        None
    } else {
        match key_position(cs.drop_last(), key) {
            Some(i) => Some(i),
            None => if cs.last().anchor.anchor_key == key {
                Some(cs.len() - 1)
            } else {
                None
            },
        }
    }
}

/// What saving the editor does to the comments and the next comment id: a
/// body that is blank once trimmed removes the comment with the editor's
/// anchor key; otherwise that comment takes the new body and anchor and the
/// time, or a new comment with the next id is added (and the id advances).
pub open spec fn save_spec(
    cs: Seq<CommentModel>,
    anchor: ReviewAnchorModel,
    text: Seq<char>,
    next_id: u64,
    now: u64,
) -> (Seq<CommentModel>, u64) {
    let body = saved_body(text);
    let pos = key_position(cs, anchor.anchor_key);
    if trim(body).len() == 0 {
        (
            match pos {
                Some(i) => cs.remove(i),
                None => cs,
            },
            next_id,
        )
    } else {
        match pos {
            Some(i) => (
                cs.update(
                    i,
                    CommentModel {
                        id: cs[i].id,
                        anchor,
                        body,
                        created_at: cs[i].created_at,
                        updated_at: now,
                    },
                ),
                next_id,
            ),
            None => (
                cs.push(CommentModel { id: next_id, anchor, body, created_at: now, updated_at: now }),
                if next_id < u64::MAX {
                    (next_id + 1) as u64
                } else {
                    next_id
                },
            ),
        }
    }
}

pub(crate) proof fn lemma_key_position(cs: Seq<CommentModel>, key: Seq<char>)
    ensures
        match key_position(cs, key) {
            Some(i) => 0 <= i < cs.len() && cs[i].anchor.anchor_key == key && forall|j: int|
                0 <= j < i ==> cs[j].anchor.anchor_key != key,
            None => forall|j: int| 0 <= j < cs.len() ==> cs[j].anchor.anchor_key != key,
        },
    decreases cs.len(),
{
    if cs.len() > 0 {
        let d = cs.drop_last();
        lemma_key_position(d, key);
        assert forall|j: int| 0 <= j < d.len() implies d[j] == cs[j] by {}
    }
}

pub(crate) fn comment_position(comments: &Vec<ReviewComment>, key: &String) -> (r: Option<usize>)
    ensures
        match r {
            Some(p) => key_position(comments_view(comments@), key@) == Some(p as int),
            None => key_position(comments_view(comments@), key@) is None,
        },
{
    let ghost cv = comments_view(comments@);
    proof {
        lemma_key_position(cv, key@);
    }
    let mut i: usize = 0;
    while i < comments.len()
        invariant
            0 <= i <= comments.len(),
            cv == comments_view(comments@),
            forall|j: int| 0 <= j < i ==> cv[j].anchor.anchor_key != key@,
            match key_position(cv, key@) {
                Some(k) => 0 <= k < cv.len() && cv[k].anchor.anchor_key == key@ && forall|j: int|
                    0 <= j < k ==> cv[j].anchor.anchor_key != key@,
                None => forall|j: int| 0 <= j < cv.len() ==> cv[j].anchor.anchor_key != key@,
            },
        decreases comments.len() - i,
    {
        if comments[i].anchor.anchor_key == *key {
            assert(cv[i as int].anchor.anchor_key == key@);
            return Some(i);
        }
        i = i + 1;
    }
    None
}

/// Saves the editor's text as the comment on its anchor (see
/// [`save_spec`]); `now` is the time of the save.
pub fn review_save_editor(
    comments: &mut Vec<ReviewComment>,
    editor: ReviewEditorState,
    next_id: &mut u64,
    now: u64,
)
    ensures
        (comments_view(final(comments)@), *final(next_id)) == save_spec(
            comments_view(old(comments)@),
            editor.anchor@,
            editor.text@,
            *old(next_id),
            now,
        ),
{
    let ghost cv = comments_view(comments@);
    let ghost key = editor.anchor@.anchor_key;
    let preserve = preserve_ref_trailing_space(editor.text.as_str());
    let c = chars_of(editor.text.as_str());
    let end = crate::text::skip_ws_backward(c.as_slice(), 0, c.len());
    let mut body_chars = crate::text::slice_chars(c.as_slice(), 0, end);
    proof {
        assert(c@.subrange(0, c.len() as int) =~= c@);
        assert(body_chars@ =~= trim_end(editor.text@));
    }
    if preserve {
        body_chars.push(' ');
    }
    assert(body_chars@ == saved_body(editor.text@));
    let trimmed = trim_chars(body_chars.as_slice());
    let pos = comment_position(comments, &editor.anchor.anchor_key);
    proof {
        lemma_key_position(cv, key);
    }
    assert(match pos {
        Some(p) => key_position(cv, key) == Some(p as int),
        None => key_position(cv, key) is None,
    });
    if trimmed.len() == 0 {
        if let Some(p) = pos {
            let ghost before = comments@;
            comments.remove(p);
            assert(comments_view(comments@) =~= comments_view(before).remove(p as int));
        }
        return;
    }
    let body = string_from_chars(body_chars.as_slice());
    match pos {
        Some(p) => {
            let id = comments[p].id;
            let created = comments[p].created_at;
            let ghost before = comments@;
            let updated = ReviewComment {
                id,
                anchor: editor.anchor,
                body,
                created_at: created,
                updated_at: now,
            };
            let ghost uv = updated@;
            comments.set(p, updated);
            assert(comments_view(comments@) =~= comments_view(before).update(p as int, uv));
        },
        None => {
            let id = *next_id;
            *next_id = if *next_id < u64::MAX {
                *next_id + 1
            } else {
                *next_id
            };
            let ghost before = comments@;
            let added = ReviewComment { id, anchor: editor.anchor, body, created_at: now, updated_at: now };
            let ghost av = added@;
            comments.push(added);
            assert(comments_view(comments@) =~= comments_view(before).push(av));
        },
    }
}

// ---------------------------------------------------------------------------
// What the editor shows.
// ---------------------------------------------------------------------------

/// What the comment editor draws: its title, a label naming what the
/// comment is about, the text's lines, the cursor's row and column, and
/// where the anchor sits on screen.
#[derive(Debug)]
pub struct ReviewEditorRender {
    pub title: String,
    pub anchor_label: String,
    pub lines: Vec<String>,
    pub cursor_row: usize,
    pub cursor_col: usize,
    pub display_idx_hint: Option<usize>,
    pub anchor_display_span: Option<(usize, usize)>,
    pub anchor_is_hunk: bool,
    pub prefer_right: bool,
}

/// The label of an anchor: for a line, the file, the side (new when none is
/// set) and the line range on that side; for a hunk, the file and both
/// ranges.
pub open spec fn anchor_label_spec(a: ReviewAnchorModel) -> Seq<char> {
    match a.kind {
        ReviewTargetKind::Line => {
            let side = match a.side {
                Some(s) => s,
                None => ReviewSide::New,
            };
            let range = if side == ReviewSide::Old {
                a.old_range
            } else {
                a.new_range
            };
            a.file_path + " "@ + side_name(side) + ":"@ + opt_range_display(range)
        },
        ReviewTargetKind::Hunk => a.file_path + " old:"@ + opt_range_display(a.old_range) + " new:"@
            + opt_range_display(a.new_range),
    }
}

/// The label of the editor's anchor (see [`anchor_label_spec`]).
pub fn anchor_label(anchor: &ReviewAnchor) -> (r: String)
    ensures
        r@ == anchor_label_spec(anchor@),
{
    let mut label = anchor.file_path.clone();
    match anchor.kind {
        ReviewTargetKind::Line => {
            let side = match anchor.side {
                Some(s) => s,
                None => ReviewSide::New,
            };
            let range = match side {
                ReviewSide::Old => anchor.old_range,
                ReviewSide::New => anchor.new_range,
            };
            label.append(" ");
            label.append(side.as_str());
            label.append(":");
            let shown = format_opt_range_display(range);
            label.append(shown.as_str());
        },
        ReviewTargetKind::Hunk => {
            label.append(" old:");
            let old = format_opt_range_display(anchor.old_range);
            label.append(old.as_str());
            label.append(" new:");
            let new = format_opt_range_display(anchor.new_range);
            label.append(new.as_str());
        },
    }
    label
}

/// The text's lines as the editor draws them.
fn text_lines(text: &str) -> (r: Vec<String>)
    ensures
        r@.map_values(|s: String| s@) == split_on(text@, '\n'),
{
    let t = chars_of(text);
    let pieces = split_chars(t.as_slice(), '\n');
    let ghost want = split_on(text@, '\n');
    let mut out: Vec<String> = Vec::new();
    let mut i: usize = 0;
    while i < pieces.len()
        invariant
            0 <= i <= pieces.len(),
            chars_view(pieces@) == want,
            out@.map_values(|s: String| s@) == want.take(i as int),
        decreases pieces.len() - i,
    {
        let line = string_from_chars(pieces[i].as_slice());
        let ghost before = out@;
        out.push(line);
        assert(out@.map_values(|s: String| s@) =~= before.map_values(|s: String| s@).push(line@));
        assert(want[i as int] == pieces@[i as int]@);
        assert(want.take(i + 1) =~= want.take(i as int).push(want[i as int]));
        i = i + 1;
    }
    assert(want.take(pieces.len() as int) =~= want);
    out
}

/// What the comment editor draws, when one is open: the title " Comment ",
/// the anchor's label, the text split at line breaks (one empty line for an
/// empty text), the cursor's row and column, the anchor's hint and its span
/// among `visible`, whether it is a hunk anchor, and whether it leans to the
/// new side.
pub fn review_editor_render(editor: Option<&ReviewEditorState>, visible: &[(usize, ViewLine)]) -> (r: Option<
    ReviewEditorRender,
>)
    requires
        editor matches Some(e) ==> editor_wf(*e),
    ensures
        match editor {
            None => r is None,
            Some(e) => r matches Some(v) && {
                &&& v.title@ == " Comment "@
                &&& v.anchor_label@ == anchor_label_spec(e.anchor@)
                &&& v.lines@.map_values(|s: String| s@) == split_on(e.text@, '\n')
                &&& (v.cursor_row as nat, v.cursor_col as nat) == row_col_spec(e.text@, e.cursor as nat)
                &&& v.display_idx_hint == e.anchor.display_idx_hint
                &&& v.anchor_display_span == anchor_span_spec(e.anchor@, visible@)
                &&& v.anchor_is_hunk == (e.anchor.kind == ReviewTargetKind::Hunk)
                &&& v.prefer_right == prefers_right(e.anchor@)
            },
        },
{
    let e = match editor {
        Some(e) => e,
        None => return None,
    };
    let (cursor_row, cursor_col) = cursor_row_col(e.text.as_str(), e.cursor);
    let lines = text_lines(e.text.as_str());
    let prefer_right = match e.anchor.kind {
        ReviewTargetKind::Line => !matches!(e.anchor.side, Some(ReviewSide::Old)),
        ReviewTargetKind::Hunk => !matches!((e.anchor.old_range, e.anchor.new_range), (Some(_), None)),
    };
    Some(
        ReviewEditorRender {
            title: " Comment ".to_string(),
            anchor_label: anchor_label(&e.anchor),
            lines,
            cursor_row,
            cursor_col,
            display_idx_hint: e.anchor.display_idx_hint,
            anchor_display_span: review_anchor_display_span(&e.anchor, visible),
            anchor_is_hunk: matches!(e.anchor.kind, ReviewTargetKind::Hunk),
            prefer_right,
        },
    )
}

} // verus!
