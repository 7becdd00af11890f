//! The review comments of a session as the viewer keeps them: opening the
//! editor on an anchor, removing and clearing comments, the previews that
//! open a comment when clicked, the hint beside a preview, the rows a review
//! works on, and how the mention picker scrolls and keeps its selection.

use vstd::prelude::*;
use crate::anchors::{comments_view, CommentModel, ReviewAnchor, ReviewComment, ReviewCommentOverlay};
use crate::editor::{comment_position, editor_wf, key_position, lemma_key_position, ReviewEditorState};
use crate::hunks::{pane_lines, unified_pane};
use crate::laws::unique_keys;
use crate::multi::{utf8_len, utf8_len_of};
use crate::review::{byte_at, is_boundary};
use crate::text::chars_of;
use crate::types::ViewMode;
use crate::view::{LineKind, ViewLine, ViewLineModel};
use crate::view_metrics::sat_add_u16;

verus! {

// ---------------------------------------------------------------------------
// Opening, removing and clearing comments.
// ---------------------------------------------------------------------------

/// The text the editor opens with on an anchor: the body of the comment
/// already on that anchor key, or nothing.
pub open spec fn opened_text(cs: Seq<CommentModel>, key: Seq<char>) -> Seq<char> {
    match key_position(cs, key) {
        Some(i) => cs[i].body,
        None => Seq::empty(),
    }
}

/// Every comment body's UTF-8 length fits a `usize`.
pub open spec fn bodies_fit(cs: Seq<CommentModel>) -> bool {
    forall|i: int| 0 <= i < cs.len() ==> utf8_len(#[trigger] cs[i].body) <= usize::MAX
}

/// The editor opened on `anchor`: its text is the body of the comment on
/// that anchor (empty when there is none) and the cursor stands at the end.
pub fn open_review_editor(comments: &Vec<ReviewComment>, anchor: ReviewAnchor) -> (r: ReviewEditorState)
    requires
        bodies_fit(comments_view(comments@)),
    ensures
        r.anchor@ == anchor@,
        r.text@ == opened_text(comments_view(comments@), anchor@.anchor_key),
        r.cursor == utf8_len(r.text@),
        editor_wf(r),
{
    let ghost cv = comments_view(comments@);
    proof {
        lemma_key_position(cv, anchor@.anchor_key);
    }
    let text = match comment_position(comments, &anchor.anchor_key) {
        Some(k) => {
            assert(cv[k as int] == comments@[k as int]@);
            comments[k].body.clone()
        },
        None => String::new(),
    };
    let t = chars_of(text.as_str());
    let total = utf8_len_of(t.as_slice());
    proof {
        if let Some(k) = key_position(cv, anchor@.anchor_key) {
            assert(utf8_len(cv[k].body) <= usize::MAX);
        }
        assert(t@.take(t@.len() as int) =~= t@);
    }
    let cursor = total as usize;
    proof {
        assert(byte_at(text@, text@.len() as int) == utf8_len(text@));
        assert(is_boundary(text@, cursor as nat));
    }
    ReviewEditorState { anchor, text, cursor }
}

/// Removes the first comment on the anchor key, saying whether there was
/// one.
pub fn remove_comment_for_anchor_key(comments: &mut Vec<ReviewComment>, anchor_key: &String) -> (r: bool)
    ensures
        match key_position(comments_view(old(comments)@), anchor_key@) {
            Some(i) => r && comments_view(final(comments)@) == comments_view(old(comments)@).remove(i),
            None => !r && comments_view(final(comments)@) == comments_view(old(comments)@),
        },
{
    let ghost cv = comments_view(comments@);
    proof {
        lemma_key_position(cv, anchor_key@);
    }
    match comment_position(comments, anchor_key) {
        Some(i) => {
            let ghost before = comments@;
            comments.remove(i);
            assert(comments@ == before.remove(i as int));
            assert forall|j: int| 0 <= j < comments@.len() implies #[trigger] comments_view(comments@)[j]
                == cv.remove(i as int)[j] by {
                if j < i {
                    assert(comments@[j] == before[j]);
                } else {
                    assert(comments@[j] == before[j + 1]);
                }
            }
            assert(comments_view(comments@) =~= cv.remove(i as int));
            true
        },
        None => false,
    }
}

/// Clearing all comments of a review: only in review mode and when there
/// are comments; the next comment id starts again at one. Says whether
/// anything was cleared.
pub fn clear_all_review_comments(review_mode: bool, comments: &mut Vec<ReviewComment>, next_id: &mut u64) -> (r:
    bool)
    ensures
        r == (review_mode && old(comments)@.len() > 0),
        r ==> final(comments)@.len() == 0 && *final(next_id) == 1,
        !r ==> final(comments)@ == old(comments)@ && *final(next_id) == *old(next_id),
{
    if !review_mode || comments.len() == 0 {
        return false;
    }
    comments.clear();
    *next_id = 1;
    true
}

// ---------------------------------------------------------------------------
// Comment previews.
// ---------------------------------------------------------------------------

/// Where a comment preview was drawn, and the anchor key of its comment.
#[derive(Debug)]
pub struct ReviewPreviewBox {
    pub x: u16,
    pub y: u16,
    pub width: u16,
    pub height: u16,
    pub anchor_key: String,
}

/// The cell lies in the box (its far edges computed with saturation).
pub open spec fn box_hit(b: ReviewPreviewBox, column: u16, row: u16) -> bool {
    b.x <= column < sat_add_u16(b.x, b.width) && b.y <= row < sat_add_u16(b.y, b.height)
}

/// The last drawn box that the click lands in.
pub open spec fn last_hit(boxes: Seq<ReviewPreviewBox>, column: u16, row: u16) -> Option<int>
    decreases boxes.len(),
{
    if boxes.len() == 0 {
        None
    } else if box_hit(boxes.last(), column, row) {
        Some(boxes.len() - 1)
    } else {
        last_hit(boxes.drop_last(), column, row)
    }
}

proof fn lemma_last_hit(boxes: Seq<ReviewPreviewBox>, column: u16, row: u16)
    ensures
        last_hit(boxes, column, row) matches Some(k) ==> 0 <= k < boxes.len(),
    decreases boxes.len(),
{
    if boxes.len() > 0 {
        lemma_last_hit(boxes.drop_last(), column, row);
    }
}

/// A click on a comment preview, in review mode with no editor open, opens
/// the editor on the comment of the preview drawn last under the mouse.
/// The result is the opened editor, if the click opens one.
pub fn handle_review_preview_click(
    review_mode: bool,
    editor_open: bool,
    boxes: &Vec<ReviewPreviewBox>,
    comments: &Vec<ReviewComment>,
    column: u16,
    row: u16,
) -> (r: Option<ReviewEditorState>)
    requires
        bodies_fit(comments_view(comments@)),
    ensures
        match r {
            Some(e) => {
                &&& review_mode && !editor_open
                &&& last_hit(boxes@, column, row) matches Some(k)
                &&& key_position(comments_view(comments@), boxes@[k].anchor_key@) matches Some(i)
                &&& e.anchor@ == comments_view(comments@)[i].anchor
                &&& e.text@ == comments_view(comments@)[i].body
                &&& e.cursor == utf8_len(e.text@)
                &&& editor_wf(e)
            },
            None => !review_mode || editor_open || last_hit(boxes@, column, row) is None || key_position(
                comments_view(comments@),
                boxes@[last_hit(boxes@, column, row)->0].anchor_key@,
            ) is None,
        },
{
    if !review_mode || editor_open {
        return None;
    }
    let ghost cv = comments_view(comments@);
    let h = match last_box_hit(boxes, column, row) {
        Some(h) => h,
        None => return None,
    };
    proof {
        lemma_key_position(cv, boxes@[h as int].anchor_key@);
    }
    match comment_position(comments, &boxes[h].anchor_key) {
        Some(i) => {
            assert(cv[i as int] == comments@[i as int]@);
            let anchor = comments[i].anchor.copy();
            Some(open_review_editor(comments, anchor))
        },
        None => None,
    }
}

/// The last drawn box that the click lands in (see [`last_hit`]).
fn last_box_hit(boxes: &Vec<ReviewPreviewBox>, column: u16, row: u16) -> (r: Option<usize>)
    ensures
        match r {
            Some(h) => last_hit(boxes@, column, row) == Some(h as int) && h < boxes.len(),
            None => last_hit(boxes@, column, row) is None,
        },
{
    let mut k = boxes.len();
    assert(boxes@.take(k as int) =~= boxes@);
    while k > 0
        invariant
            k <= boxes.len(),
            last_hit(boxes@, column, row) == last_hit(boxes@.take(k as int), column, row),
        decreases k,
    {
        assert(boxes@.take(k as int).drop_last() =~= boxes@.take(k - 1));
        assert(boxes@.take(k as int).last() == boxes@[k - 1]);
        let b = &boxes[k - 1];
        let end_x = b.x.saturating_add(b.width);
        let end_y = b.y.saturating_add(b.height);
        if column >= b.x && column < end_x && row >= b.y && row < end_y {
            return Some(k - 1);
        }
        k = k - 1;
    }
    assert(boxes@.take(0) =~= Seq::<ReviewPreviewBox>::empty());
    None
}

/// The hint shown beside a preview: the preview, then the keys that update
/// and remove its comment (upper case for hunk comments).
pub open spec fn preview_hint_spec(preview: Seq<char>, is_hunk: bool) -> Seq<char> {
    preview + " • "@ + (if is_hunk {
        "M"@
    } else {
        "m"@
    }) + " to update, "@ + (if is_hunk {
        "X"@
    } else {
        "x"@
    }) + " to remove"@
}

/// The hint beside a comment preview (see [`preview_hint_spec`]).
pub fn review_preview_hint_text(overlay: &ReviewCommentOverlay) -> (r: String)
    ensures
        r@ == preview_hint_spec(overlay.preview@, overlay.is_hunk),
{
    let mut s = overlay.preview.clone();
    s.append(" • ");
    s.append(if overlay.is_hunk {
        "M"
    } else {
        "m"
    });
    s.append(" to update, ");
    s.append(if overlay.is_hunk {
        "X"
    } else {
        "x"
    });
    s.append(" to remove");
    s
}

// ---------------------------------------------------------------------------
// The rows a review works on.
// ---------------------------------------------------------------------------

/// The rows of the unified, evolution or blame view, each with its row
/// number: every line, except that the evolution view gives deleted lines
/// no row.
pub fn review_visible_lines_with_idx(view: &[ViewLine], view_mode: ViewMode) -> (r: Vec<(usize, ViewLine)>)
    ensures
        r@.len() == pane_lines(view@, unified_pane(view_mode)).len(),
        forall|k: int|
            0 <= k < r@.len() ==> (#[trigger] r@[k]).0 == k && r@[k].1@ == pane_lines(view@, unified_pane(view_mode))[k]@,
{
    let ghost pane = unified_pane(view_mode);
    let evolution = matches!(view_mode, ViewMode::Evolution);
    let mut out: Vec<(usize, ViewLine)> = Vec::new();
    let mut i: usize = 0;
    assert(view@.take(0) =~= Seq::<ViewLine>::empty());
    while i < view.len()
        invariant
            0 <= i <= view.len(),
            pane == unified_pane(view_mode),
            evolution == (view_mode == ViewMode::Evolution),
            out@.len() == pane_lines(view@.take(i as int), pane).len(),
            out@.len() <= i,
            forall|k: int|
                0 <= k < out@.len() ==> (#[trigger] out@[k]).0 == k && out@[k].1@ == pane_lines(view@.take(i as int), pane)[k]@,
        decreases view.len() - i,
    {
        let ghost rows = pane_lines(view@.take(i as int), pane);
        assert(view@.take(i + 1).drop_last() =~= view@.take(i as int));
        assert(view@.take(i + 1).last() == view@[i as int]);
        let line = &view[i];
        if !evolution || !matches!(line.kind, LineKind::Deleted | LineKind::PendingDelete) {
            let idx = out.len();
            out.push((idx, line.copy()));
            assert(pane_lines(view@.take(i + 1), pane) == rows.push(*line));
        } else {
            assert(pane_lines(view@.take(i + 1), pane) == rows);
        }
        i = i + 1;
    }
    assert(view@.take(i as int) =~= view@);
    out
}

// ---------------------------------------------------------------------------
// The mention picker.
// ---------------------------------------------------------------------------

/// How many mention candidates the picker shows at once.
pub const MENTION_VISIBLE: usize = 5;

/// The first candidate the picker shows: the selection sits in the middle
/// row once it is past the first rows, and the list never scrolls past its
/// last full window.
pub open spec fn mention_scroll_spec(selected: usize, len: usize) -> int {
    let max_start: int = if len >= MENTION_VISIBLE {
        len - MENTION_VISIBLE
    } else {
        0
    };
    let start: int = if selected >= MENTION_VISIBLE / 2 {
        selected - MENTION_VISIBLE / 2
    } else if selected >= MENTION_VISIBLE - 1 {
        selected - (MENTION_VISIBLE - 1)
    } else {
        0
    };
    if start < max_start {
        start
    } else {
        max_start
    }
}

/// The first candidate the picker shows (see [`mention_scroll_spec`]).
pub fn mention_scroll_start(selected: usize, len: usize) -> (r: usize)
    ensures
        r == mention_scroll_spec(selected, len),
{
    let max_start = if len >= MENTION_VISIBLE {
        len - MENTION_VISIBLE
    } else {
        0
    };
    let mut start = if selected >= MENTION_VISIBLE - 1 {
        selected - (MENTION_VISIBLE - 1)
    } else {
        0
    };
    if selected >= MENTION_VISIBLE / 2 {
        start = selected - MENTION_VISIBLE / 2;
    }
    if start < max_start {
        start
    } else {
        max_start
    }
}

/// The picker's selection after its candidates were found again: kept
/// (within the new list of `len` candidates) when the mention being typed
/// is the same one, else the first.
pub fn kept_mention_selection(same_mention: bool, previous: Option<usize>, len: usize) -> (r: usize)
    ensures
        r == match previous {
            Some(p) => if same_mention {
                if p < len {
                    p as int
                } else if len > 0 {
                    len - 1
                } else {
                    0
                }
            } else {
                0
            },
            None => 0,
        },
{
    match previous {
        Some(p) => if same_mention {
            let last = if len > 0 {
                len - 1
            } else {
                0
            };
            if p < last {
                p
            } else {
                last
            }
        } else {
            0
        },
        None => 0,
    }
}

// ---------------------------------------------------------------------------
// Laws of the comment store.
// ---------------------------------------------------------------------------

/// Saving a comment that is not blank and then opening the editor on the
/// same anchor gives back the saved body.
pub proof fn law_open_after_save_reads_back(
    cs: Seq<CommentModel>,
    anchor: crate::anchors::ReviewAnchorModel,
    text: Seq<char>,
    next_id: u64,
    now: u64,
)
    requires
        unique_keys(cs),
        crate::text::trim(crate::editor::saved_body(text)).len() > 0,
    ensures
        opened_text(crate::editor::save_spec(cs, anchor, text, next_id, now).0, anchor.anchor_key)
            == crate::editor::saved_body(text),
{
    crate::laws::law_save_keeps_the_comment(cs, anchor, text, next_id, now);
}

/// Removing the comment on an anchor key, when keys are unique, leaves no
/// comment on that key and keeps the keys unique.
pub proof fn law_remove_leaves_no_comment(cs: Seq<CommentModel>, key: Seq<char>)
    requires
        unique_keys(cs),
    ensures
        ({
            let r = match key_position(cs, key) {
                Some(i) => cs.remove(i),
                None => cs,
            };
            &&& key_position(r, key) is None
            &&& unique_keys(r)
            &&& opened_text(r, key) == Seq::<char>::empty()
        }),
{
    lemma_key_position(cs, key);
    let r = match key_position(cs, key) {
        Some(i) => cs.remove(i),
        None => cs,
    };
    match key_position(cs, key) {
        Some(i) => {
            assert forall|j: int| 0 <= j < r.len() implies r[j].anchor.anchor_key != key by {
                if j >= i {
                    assert(r[j] == cs[j + 1]);
                }
            }
            assert forall|a: int, b: int| 0 <= a < b < r.len() implies r[a].anchor.anchor_key
                != r[b].anchor.anchor_key by {
                let a2 = if a < i { a } else { a + 1 };
                let b2 = if b < i { b } else { b + 1 };
                assert(r[a] == cs[a2]);
                assert(r[b] == cs[b2]);
            }
        },
        None => {},
    }
    lemma_key_position(r, key);
    if let Some(p) = key_position(r, key) {
        assert(r[p].anchor.anchor_key == key);
    }
}

} // verus!
