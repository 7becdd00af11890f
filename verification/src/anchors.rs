//! Review comments anchored to the diff: where a new comment anchors (the
//! focused line or its hunk), which rows an anchor covers, the previews shown
//! beside the lines, and the text a comment is exported as.

use vstd::prelude::*;
use crate::review::{
    ReviewRange, ReviewSide, format_opt_range, format_opt_range_display, nearest_hunk_line_index,
    nearest_hunk_spec, opt_range_display, opt_range_text, truncate_preview_chars,
    truncate_preview_spec,
};
use crate::text::{
    chars_of, chars_view, decimal, decimal_chars, lines_chars, lines_of, string_from_chars, trim,
    trim_chars, trim_end,
};
use crate::view::{LineKind, ViewLine};

verus! {

/// What a review comment is about: one line, or a hunk.
#[derive(Debug, Clone, Copy, PartialEq, Eq, Structural)]
pub enum ReviewTargetKind {
    Line,
    Hunk,
}

/// Where a review comment is anchored.
#[derive(Debug)]
pub struct ReviewAnchor {
    pub file_index: usize,
    pub file_path: String,
    pub kind: ReviewTargetKind,
    pub side: Option<ReviewSide>,
    pub old_range: Option<ReviewRange>,
    pub new_range: Option<ReviewRange>,
    pub hunk_id: Option<usize>,
    pub display_idx_hint: Option<usize>,
    pub anchor_key: String,
}

/// Mathematical content of a [`ReviewAnchor`].
pub struct ReviewAnchorModel {
    pub file_index: usize,
    pub file_path: Seq<char>,
    pub kind: ReviewTargetKind,
    pub side: Option<ReviewSide>,
    pub old_range: Option<ReviewRange>,
    pub new_range: Option<ReviewRange>,
    pub hunk_id: Option<usize>,
    pub display_idx_hint: Option<usize>,
    pub anchor_key: Seq<char>,
}

impl View for ReviewAnchor {
    type V = ReviewAnchorModel;

    open spec fn view(&self) -> ReviewAnchorModel {
        ReviewAnchorModel {
            file_index: self.file_index,
            file_path: self.file_path@,
            kind: self.kind,
            side: self.side,
            old_range: self.old_range,
            new_range: self.new_range,
            hunk_id: self.hunk_id,
            display_idx_hint: self.display_idx_hint,
            anchor_key: self.anchor_key@,
        }
    }
}

impl ReviewAnchor {
    /// A copy of this anchor.
    pub fn copy(&self) -> (r: Self)
        ensures
            r@ == self@,
    {
        ReviewAnchor {
            file_index: self.file_index,
            file_path: self.file_path.clone(),
            kind: self.kind,
            side: self.side,
            old_range: self.old_range,
            new_range: self.new_range,
            hunk_id: self.hunk_id,
            display_idx_hint: self.display_idx_hint,
            anchor_key: self.anchor_key.clone(),
        }
    }
}

/// A review comment.
#[derive(Debug)]
pub struct ReviewComment {
    pub id: u64,
    pub anchor: ReviewAnchor,
    pub body: String,
    pub created_at: u64,
    pub updated_at: u64,
}

/// Mathematical content of a [`ReviewComment`].
pub struct CommentModel {
    pub id: u64,
    pub anchor: ReviewAnchorModel,
    pub body: Seq<char>,
    pub created_at: u64,
    pub updated_at: u64,
}

impl View for ReviewComment {
    type V = CommentModel;

    open spec fn view(&self) -> CommentModel {
        CommentModel {
            id: self.id,
            anchor: self.anchor@,
            body: self.body@,
            created_at: self.created_at,
            updated_at: self.updated_at,
        }
    }
}

/// The views of a sequence of comments.
pub open spec fn comments_view(s: Seq<ReviewComment>) -> Seq<CommentModel> {
    s.map_values(|c: ReviewComment| c@)
}

/// A comment preview shown beside the diff.
#[derive(Debug)]
pub struct ReviewCommentOverlay {
    pub display_idx: usize,
    pub preview: String,
    pub anchor_key: String,
    pub prefer_right: bool,
    pub is_hunk: bool,
}

/// Mathematical content of a [`ReviewCommentOverlay`].
pub struct OverlayModel {
    pub display_idx: usize,
    pub preview: Seq<char>,
    pub anchor_key: Seq<char>,
    pub prefer_right: bool,
    pub is_hunk: bool,
}

impl View for ReviewCommentOverlay {
    type V = OverlayModel;

    open spec fn view(&self) -> OverlayModel {
        OverlayModel {
            display_idx: self.display_idx,
            preview: self.preview@,
            anchor_key: self.anchor_key@,
            prefer_right: self.prefer_right,
            is_hunk: self.is_hunk,
        }
    }
}

// ---------------------------------------------------------------------------
// The focused line.
// ---------------------------------------------------------------------------

/// The display row of the first visible line flagged primary-active (or,
/// with `primary` false, active).
pub open spec fn first_flagged_row(visible: Seq<(usize, ViewLine)>, primary: bool) -> Option<usize>
    decreases visible.len(),
{
    if visible.len() == 0 {
        None
    } else {
        match first_flagged_row(visible.drop_last(), primary) {
            Some(d) => Some(d),
            None => if (if primary {
                visible.last().1.is_primary_active
            } else {
                visible.last().1.is_active
            }) {
                Some(visible.last().0)
            } else {
                None
            },
        }
    }
}

/// The focused display row: the primary active line's, else the active
/// line's, else the scroll target.
pub open spec fn focus_row(visible: Seq<(usize, ViewLine)>, target_offset: usize) -> usize {
    match first_flagged_row(visible, true) {
        Some(d) => d,
        None => match first_flagged_row(visible, false) {
            Some(d) => d,
            None => target_offset,
        },
    }
}

/// The first position whose display row is not above `row` (where
/// `partition_point` lands on lines in display order).
pub open spec fn first_not_above(visible: Seq<(usize, ViewLine)>, row: usize) -> nat
    decreases visible.len(),
{
    if visible.len() == 0 {
        0
    } else {
        let p = first_not_above(visible.drop_last(), row);
        if p < visible.len() - 1 {
            p
        } else if visible.last().0 < row {
            visible.len() as nat
        } else {
            p
        }
    }
}

/// The position of the focused line among the visible lines (the last one
/// when the focus is past them).
pub open spec fn focus_pos(visible: Seq<(usize, ViewLine)>, target_offset: usize) -> nat {
    let p = first_not_above(visible, focus_row(visible, target_offset));
    if p >= visible.len() {
        if visible.len() > 0 {
            (visible.len() - 1) as nat
        } else {
            0
        }
    } else {
        p
    }
}

fn first_flagged(visible: &[(usize, ViewLine)], primary: bool) -> (r: Option<usize>)
    ensures
        r == first_flagged_row(visible@, primary),
{
    let mut i: usize = 0;
    assert(visible@.take(0) =~= Seq::<(usize, ViewLine)>::empty());
    while i < visible.len()
        invariant
            0 <= i <= visible.len(),
            first_flagged_row(visible@.take(i as int), primary) is None,
        decreases visible.len() - i,
    {
        assert(visible@.take(i + 1).drop_last() =~= visible@.take(i as int));
        assert(visible@.take(i + 1).last() == visible@[i as int]);
        let flagged = if primary {
            visible[i].1.is_primary_active
        } else {
            visible[i].1.is_active
        };
        if flagged {
            proof {
                lemma_flagged_extend(visible@, i as int + 1, primary);
            }
            return Some(visible[i].0);
        }
        i = i + 1;
    }
    assert(visible@.take(visible.len() as int) =~= visible@);
    None
}

proof fn lemma_flagged_extend(visible: Seq<(usize, ViewLine)>, n: int, primary: bool)
    requires
        0 <= n <= visible.len(),
        first_flagged_row(visible.take(n), primary) is Some,
    ensures
        first_flagged_row(visible, primary) == first_flagged_row(visible.take(n), primary),
    decreases visible.len() - n,
{
    if n < visible.len() {
        assert(visible.take(n + 1).drop_last() =~= visible.take(n));
        lemma_flagged_extend(visible, n + 1, primary);
    } else {
        assert(visible.take(n) =~= visible);
    }
}

fn focused_position(visible: &[(usize, ViewLine)], target_offset: usize) -> (r: usize)
    requires
        visible.len() > 0,
    ensures
        r == focus_pos(visible@, target_offset),
        r < visible.len(),
{
    let focus = match first_flagged(visible, true) {
        Some(d) => d,
        None => match first_flagged(visible, false) {
            Some(d) => d,
            None => target_offset,
        },
    };
    let mut p: usize = 0;
    assert(visible@.take(0) =~= Seq::<(usize, ViewLine)>::empty());
    while p < visible.len() && visible[p].0 < focus
        invariant
            0 <= p <= visible.len(),
            first_not_above(visible@.take(p as int), focus) == p,
        decreases visible.len() - p,
    {
        assert(visible@.take(p + 1).drop_last() =~= visible@.take(p as int));
        assert(visible@.take(p + 1).last() == visible@[p as int]);
        p = p + 1;
    }
    proof {
        lemma_not_above_stays(visible@, p as int, focus);
    }
    if p >= visible.len() {
        visible.len() - 1
    } else {
        p
    }
}

proof fn lemma_not_above_stays(visible: Seq<(usize, ViewLine)>, p: int, row: usize)
    requires
        0 <= p <= visible.len(),
        first_not_above(visible.take(p), row) == p,
        p < visible.len() ==> visible[p].0 >= row,
    ensures
        first_not_above(visible, row) == p,
{
    if p < visible.len() {
        lemma_not_above_from(visible, p, p + 1, row);
    } else {
        assert(visible.take(p) =~= visible);
    }
}

proof fn lemma_not_above_from(visible: Seq<(usize, ViewLine)>, p: int, n: int, row: usize)
    requires
        0 <= p < n <= visible.len(),
        first_not_above(visible.take(p), row) == p,
        visible[p].0 >= row,
        first_not_above(visible.take(n - 1), row) == p || n == p + 1,
    ensures
        first_not_above(visible, row) == p,
    decreases visible.len() - n,
{
    assert(visible.take(n).drop_last() =~= visible.take(n - 1));
    assert(visible.take(p + 1).drop_last() =~= visible.take(p));
    assert(visible.take(p + 1).last() == visible[p]);
    assert(first_not_above(visible.take(p + 1), row) == p);
    assert(first_not_above(visible.take(n), row) == p);
    if n < visible.len() {
        lemma_not_above_from(visible, p, n + 1, row);
    } else {
        assert(visible.take(n) =~= visible);
    }
}

// ---------------------------------------------------------------------------
// Anchoring a new comment.
// ---------------------------------------------------------------------------

/// The side a line comment takes: the old side of a deleted line, the new
/// side of an inserted one, else the new side when the line has a new
/// number; a side without a number on it gives way to the other side.
pub open spec fn line_side(l: ViewLine) -> ReviewSide {
    let s0 = match l.kind {
        LineKind::Deleted | LineKind::PendingDelete => ReviewSide::Old,
        LineKind::Inserted | LineKind::PendingInsert => ReviewSide::New,
        _ => if l.new_line is Some {
            ReviewSide::New
        } else {
            ReviewSide::Old
        },
    };
    let s1 = if s0 == ReviewSide::Old && l.old_line is None && l.new_line is Some {
        ReviewSide::New
    } else {
        s0
    };
    if s1 == ReviewSide::New && l.new_line is None && l.old_line is Some {
        ReviewSide::Old
    } else {
        s1
    }
}

/// The name of a side.
pub open spec fn side_name(side: ReviewSide) -> Seq<char> {
    match side {
        ReviewSide::Old => "old"@,
        ReviewSide::New => "new"@,
    }
}

/// The one-line range of a line number.
pub open spec fn one_line(n: Option<usize>) -> Option<ReviewRange> {
    match n {
        Some(x) => Some(ReviewRange { start: x, end: x }),
        None => None,
    }
}

/// The anchor of a line comment on the hunk line nearest the focus: none
/// without a current file, visible lines or a hunk line, or when the line
/// has no number on its side; its key is `line|path|side|number`.
pub open spec fn line_anchor_spec(
    file_index: usize,
    file_path: Seq<char>,
    visible: Seq<(usize, ViewLine)>,
    target_offset: usize,
) -> Option<ReviewAnchorModel> {
    if file_path.len() == 0 || visible.len() == 0 {
        None
    } else {
        match nearest_hunk_spec(visible, focus_pos(visible, target_offset)) {
            None => None,
            Some(c) => {
                let d = visible[c as int].0;
                let l = visible[c as int].1;
                let side = line_side(l);
                let line_no = match side {
                    ReviewSide::Old => l.old_line,
                    ReviewSide::New => l.new_line,
                };
                match line_no {
                    None => None,
                    Some(n) => Some(
                        ReviewAnchorModel {
                            file_index,
                            file_path,
                            kind: ReviewTargetKind::Line,
                            side: Some(side),
                            old_range: one_line(l.old_line),
                            new_range: one_line(l.new_line),
                            hunk_id: l.hunk_index,
                            display_idx_hint: Some(d),
                            anchor_key: "line|"@ + file_path + "|"@ + side_name(side) + "|"@ + decimal(
                                n as nat,
                            ),
                        },
                    ),
                }
            },
        }
    }
}

fn side_of_line(line: &ViewLine) -> (r: ReviewSide)
    ensures
        r == line_side(*line),
{
    let mut side = match line.kind {
        LineKind::Deleted | LineKind::PendingDelete => ReviewSide::Old,
        LineKind::Inserted | LineKind::PendingInsert => ReviewSide::New,
        _ => if line.new_line.is_some() {
            ReviewSide::New
        } else {
            ReviewSide::Old
        },
    };
    if side == ReviewSide::Old && line.old_line.is_none() && line.new_line.is_some() {
        side = ReviewSide::New;
    }
    if side == ReviewSide::New && line.new_line.is_none() && line.old_line.is_some() {
        side = ReviewSide::Old;
    }
    side
}

fn one_line_range(n: Option<usize>) -> (r: Option<ReviewRange>)
    ensures
        r == one_line(n),
{
    match n {
        Some(x) => Some(ReviewRange { start: x, end: x }),
        None => None,
    }
}

fn join_key(kind: &str, path: &str, a: &str, b: &str) -> (r: String)
    ensures
        r@ == kind@ + "|"@ + path@ + "|"@ + a@ + "|"@ + b@,
{
    let mut out = String::new();
    out.append(kind);
    out.append("|");
    out.append(path);
    out.append("|");
    out.append(a);
    out.append("|");
    out.append(b);
    out
}

/// Where a line comment on the focused line anchors (see
/// [`line_anchor_spec`]). `visible` are the visible lines with their display
/// rows and `target_offset` the row scrolled to.
pub fn resolve_line_review_anchor(
    file_index: usize,
    file_path: &str,
    visible: &[(usize, ViewLine)],
    target_offset: usize,
) -> (r: Option<ReviewAnchor>)
    ensures
        match r {
            Some(a) => line_anchor_spec(file_index, file_path@, visible@, target_offset) == Some(a@),
            None => line_anchor_spec(file_index, file_path@, visible@, target_offset) is None,
        },
{
    if file_path.unicode_len() == 0 || visible.len() == 0 {
        return None;
    }
    let pos = focused_position(visible, target_offset);
    let chosen = match nearest_hunk_line_index(visible, pos) {
        Some(c) => c,
        None => return None,
    };
    proof {
        lemma_nearest_bound(visible@, pos as nat);
    }
    let display_idx = visible[chosen].0;
    let line = &visible[chosen].1;
    let side = side_of_line(line);
    let line_no = match side {
        ReviewSide::Old => line.old_line,
        ReviewSide::New => line.new_line,
    };
    let n = match line_no {
        Some(n) => n,
        None => return None,
    };
    let number = string_from_chars(decimal_chars(n).as_slice());
    let anchor_key = join_key("line", file_path, side.as_str(), number.as_str());
    proof {
        reveal_strlit("line");
    }
    assert("line"@ + "|"@ + file_path@ + "|"@ + side_name(side) + "|"@ + decimal(n as nat) =~= "line|"@
        + file_path@ + "|"@ + side_name(side) + "|"@ + decimal(n as nat)) by {
        reveal_strlit("line|");
        reveal_strlit("line");
        reveal_strlit("|");
    }
    Some(
        ReviewAnchor {
            file_index,
            file_path: string_from_chars(chars_of(file_path).as_slice()),
            kind: ReviewTargetKind::Line,
            side: Some(side),
            old_range: one_line_range(line.old_line),
            new_range: one_line_range(line.new_line),
            hunk_id: line.hunk_index,
            display_idx_hint: Some(display_idx),
            anchor_key,
        },
    )
}

proof fn lemma_nearest_bound(visible: Seq<(usize, ViewLine)>, focus: nat)
    ensures
        match nearest_hunk_spec(visible, focus) {
            Some(c) => c < visible.len(),
            None => true,
        },
{
    if visible.len() > 0 {
        let f = if focus < visible.len() {
            focus as int
        } else {
            visible.len() - 1
        };
        lemma_hunk_line_from_bound(visible, f, 1);
    }
}

proof fn lemma_hunk_line_from_bound(visible: Seq<(usize, ViewLine)>, f: int, d: int)
    requires
        0 <= f < visible.len(),
    ensures
        match crate::review::hunk_line_from(visible, f, d) {
            Some(c) => c < visible.len(),
            None => true,
        },
    decreases visible.len() - d,
{
    if !(d >= visible.len() || d < 1) {
        lemma_hunk_line_from_bound(visible, f, d + 1);
    }
}

/// The smallest (`smallest`) or largest line number of one side among the
/// visible lines of hunk `h`.
pub open spec fn hunk_side_extreme(
    visible: Seq<(usize, ViewLine)>,
    h: usize,
    old_side: bool,
    smallest: bool,
) -> Option<usize>
    decreases visible.len(),
{
    if visible.len() == 0 {
        None
    } else {
        let prev = hunk_side_extreme(visible.drop_last(), h, old_side, smallest);
        let l = visible.last().1;
        let n = if old_side {
            l.old_line
        } else {
            l.new_line
        };
        if l.hunk_index != Some(h) {
            prev
        } else {
            match n {
                None => prev,
                Some(x) => match prev {
                    None => Some(x),
                    Some(v) => if smallest {
                        Some(if x < v {
                            x
                        } else {
                            v
                        })
                    } else {
                        Some(if x > v {
                            x
                        } else {
                            v
                        })
                    },
                },
            }
        }
    }
}

/// The range of line numbers of one side that hunk `h` spans.
pub open spec fn hunk_side_range(visible: Seq<(usize, ViewLine)>, h: usize, old_side: bool) -> Option<
    ReviewRange,
> {
    match (hunk_side_extreme(visible, h, old_side, true), hunk_side_extreme(visible, h, old_side, false)) {
        (Some(a), Some(b)) => Some(ReviewRange { start: a, end: b }),
        _ => None,
    }
}

/// The display row of the first visible line of hunk `h`.
pub open spec fn first_row_of_hunk(visible: Seq<(usize, ViewLine)>, h: usize) -> Option<usize>
    decreases visible.len(),
{
    if visible.len() == 0 {
        None
    } else {
        match first_row_of_hunk(visible.drop_last(), h) {
            Some(d) => Some(d),
            None => if visible.last().1.hunk_index == Some(h) {
                Some(visible.last().0)
            } else {
                None
            },
        }
    }
}

/// The anchor of a hunk comment on the hunk of the hunk line nearest the
/// focus: the ranges of old and new line numbers the hunk spans, its first
/// row, and the key `hunk|path|old-range|new-range`.
pub open spec fn hunk_anchor_spec(
    file_index: usize,
    file_path: Seq<char>,
    visible: Seq<(usize, ViewLine)>,
    target_offset: usize,
) -> Option<ReviewAnchorModel> {
    if file_path.len() == 0 || visible.len() == 0 {
        None
    } else {
        match nearest_hunk_spec(visible, focus_pos(visible, target_offset)) {
            None => None,
            Some(c) => match visible[c as int].1.hunk_index {
                None => None,
                Some(h) => {
                    let old_range = hunk_side_range(visible, h, true);
                    let new_range = hunk_side_range(visible, h, false);
                    Some(
                        ReviewAnchorModel {
                            file_index,
                            file_path,
                            kind: ReviewTargetKind::Hunk,
                            side: None,
                            old_range,
                            new_range,
                            hunk_id: Some(h),
                            display_idx_hint: first_row_of_hunk(visible, h),
                            anchor_key: "hunk"@ + "|"@ + file_path + "|"@ + opt_range_text(old_range)
                                + "|"@ + opt_range_text(new_range),
                        },
                    )
                },
            },
        }
    }
}

fn combine(prev: Option<usize>, x: usize, smallest: bool) -> (r: Option<usize>)
    ensures
        r == match prev {
            None => Some(x),
            Some(v) => if smallest {
                Some(if x < v {
                    x
                } else {
                    v
                })
            } else {
                Some(if x > v {
                    x
                } else {
                    v
                })
            },
        },
{
    match prev {
        None => Some(x),
        Some(v) => if smallest {
            Some(if x < v {
                x
            } else {
                v
            })
        } else {
            Some(if x > v {
                x
            } else {
                v
            })
        },
    }
}

fn range_of(a: Option<usize>, b: Option<usize>) -> (r: Option<ReviewRange>)
    ensures
        r == match (a, b) {
            (Some(x), Some(y)) => Some(ReviewRange { start: x, end: y }),
            _ => None,
        },
{
    match (a, b) {
        (Some(x), Some(y)) => Some(ReviewRange { start: x, end: y }),
        _ => None,
    }
}

/// Where a hunk comment on the focused hunk anchors (see
/// [`hunk_anchor_spec`]).
pub fn resolve_hunk_review_anchor(
    file_index: usize,
    file_path: &str,
    visible: &[(usize, ViewLine)],
    target_offset: usize,
) -> (r: Option<ReviewAnchor>)
    ensures
        match r {
            Some(a) => hunk_anchor_spec(file_index, file_path@, visible@, target_offset) == Some(a@),
            None => hunk_anchor_spec(file_index, file_path@, visible@, target_offset) is None,
        },
{
    if file_path.unicode_len() == 0 || visible.len() == 0 {
        return None;
    }
    let pos = focused_position(visible, target_offset);
    let chosen = match nearest_hunk_line_index(visible, pos) {
        Some(c) => c,
        None => return None,
    };
    proof {
        lemma_nearest_bound(visible@, pos as nat);
    }
    let h = match visible[chosen].1.hunk_index {
        Some(h) => h,
        None => return None,
    };
    let mut old_start: Option<usize> = None;
    let mut old_end: Option<usize> = None;
    let mut new_start: Option<usize> = None;
    let mut new_end: Option<usize> = None;
    let mut first_row: Option<usize> = None;
    let mut i: usize = 0;
    assert(visible@.take(0) =~= Seq::<(usize, ViewLine)>::empty());
    while i < visible.len()
        invariant
            0 <= i <= visible.len(),
            ({
                let p = visible@.take(i as int);
                &&& old_start == hunk_side_extreme(p, h, true, true)
                &&& old_end == hunk_side_extreme(p, h, true, false)
                &&& new_start == hunk_side_extreme(p, h, false, true)
                &&& new_end == hunk_side_extreme(p, h, false, false)
                &&& first_row == first_row_of_hunk(p, h)
            }),
        decreases visible.len() - i,
    {
        assert(visible@.take(i + 1).drop_last() =~= visible@.take(i as int));
        assert(visible@.take(i + 1).last() == visible@[i as int]);
        let line = &visible[i].1;
        if line.hunk_index == Some(h) {
            if first_row.is_none() {
                first_row = Some(visible[i].0);
            }
            if let Some(x) = line.old_line {
                old_start = combine(old_start, x, true);
                old_end = combine(old_end, x, false);
            }
            if let Some(x) = line.new_line {
                new_start = combine(new_start, x, true);
                new_end = combine(new_end, x, false);
            }
        }
        i = i + 1;
    }
    assert(visible@.take(visible.len() as int) =~= visible@);
    let old_range = range_of(old_start, old_end);
    let new_range = range_of(new_start, new_end);
    let ot = format_opt_range(old_range);
    let nt = format_opt_range(new_range);
    let anchor_key = join_key("hunk", file_path, ot.as_str(), nt.as_str());
    Some(
        ReviewAnchor {
            file_index,
            file_path: string_from_chars(chars_of(file_path).as_slice()),
            kind: ReviewTargetKind::Hunk,
            side: None,
            old_range,
            new_range,
            hunk_id: Some(h),
            display_idx_hint: first_row,
            anchor_key,
        },
    )
}

// ---------------------------------------------------------------------------
// Rows an anchor covers.
// ---------------------------------------------------------------------------

/// Whether a line number lies in an optional range.
pub open spec fn in_opt_range(range: Option<ReviewRange>, n: Option<usize>) -> bool {
    match (range, n) {
        (Some(r), Some(x)) => r.start <= x && x <= r.end,
        _ => false,
    }
}

/// Whether a line falls in a hunk anchor's line ranges.
pub open spec fn in_anchor_ranges(a: ReviewAnchorModel, l: ViewLine) -> bool {
    in_opt_range(a.old_range, l.old_line) || in_opt_range(a.new_range, l.new_line)
}

/// Whether a line belongs to a hunk anchor: it is in the anchor's hunk or
/// in its line ranges.
pub open spec fn hunk_anchor_covers(a: ReviewAnchorModel, l: ViewLine) -> bool {
    (match a.hunk_id {
        Some(h) => l.hunk_index == Some(h),
        None => false,
    }) || in_anchor_ranges(a, l)
}

/// The line number a line anchor refers to: the start of the range on its
/// side (the new side by default).
pub open spec fn anchor_target_line(a: ReviewAnchorModel) -> Option<usize> {
    let side = match a.side {
        Some(s) => s,
        None => ReviewSide::New,
    };
    match side {
        ReviewSide::Old => match a.old_range {
            Some(r) => Some(r.start),
            None => None,
        },
        ReviewSide::New => match a.new_range {
            Some(r) => Some(r.start),
            None => None,
        },
    }
}

/// The number a line shows on a line anchor's side.
pub open spec fn line_number_on(a: ReviewAnchorModel, l: ViewLine) -> Option<usize> {
    match (match a.side {
        Some(s) => s,
        None => ReviewSide::New,
    }) {
        ReviewSide::Old => l.old_line,
        ReviewSide::New => l.new_line,
    }
}

/// The display row of the first visible line showing `n` on the anchor's
/// side (among hunk lines only, when `hunk_only`).
pub open spec fn first_row_showing(
    visible: Seq<(usize, ViewLine)>,
    a: ReviewAnchorModel,
    n: usize,
    hunk_only: bool,
) -> Option<usize>
    decreases visible.len(),
{
    if visible.len() == 0 {
        None
    } else {
        match first_row_showing(visible.drop_last(), a, n, hunk_only) {
            Some(d) => Some(d),
            None => {
                let l = visible.last().1;
                if (!hunk_only || l.hunk_index is Some) && line_number_on(a, l) == Some(n) {
                    Some(visible.last().0)
                } else {
                    None
                }
            },
        }
    }
}

/// The smallest (`smallest`) or largest display row of the visible lines a
/// hunk anchor covers.
pub open spec fn covered_row_extreme(visible: Seq<(usize, ViewLine)>, a: ReviewAnchorModel, smallest: bool) -> Option<
    usize,
>
    decreases visible.len(),
{
    if visible.len() == 0 {
        None
    } else {
        let prev = covered_row_extreme(visible.drop_last(), a, smallest);
        let d = visible.last().0;
        if hunk_anchor_covers(a, visible.last().1) {
            match prev {
                None => Some(d),
                Some(v) => if smallest {
                    Some(if d < v {
                        d
                    } else {
                        v
                    })
                } else {
                    Some(if d > v {
                        d
                    } else {
                        v
                    })
                },
            }
        } else {
            prev
        }
    }
}

/// The hint row as a span.
pub open spec fn hint_span(a: ReviewAnchorModel) -> Option<(usize, usize)> {
    match a.display_idx_hint {
        Some(i) => Some((i, i)),
        None => None,
    }
}

/// The rows an anchor covers: a line anchor the first row showing its line,
/// a hunk anchor the rows from the first to the last line it covers; the
/// hint row when nothing is found or nothing is visible.
pub open spec fn anchor_span_spec(a: ReviewAnchorModel, visible: Seq<(usize, ViewLine)>) -> Option<(usize, usize)> {
    if visible.len() == 0 {
        hint_span(a)
    } else {
        match a.kind {
            ReviewTargetKind::Line => match anchor_target_line(a) {
                None => hint_span(a),
                Some(n) => match first_row_showing(visible, a, n, false) {
                    Some(d) => Some((d, d)),
                    None => hint_span(a),
                },
            },
            ReviewTargetKind::Hunk => match (
                covered_row_extreme(visible, a, true),
                covered_row_extreme(visible, a, false),
            ) {
                (Some(x), Some(y)) => Some((x, y)),
                _ => hint_span(a),
            },
        }
    }
}

fn anchor_target(anchor: &ReviewAnchor) -> (r: Option<usize>)
    ensures
        r == anchor_target_line(anchor@),
{
    let side = match anchor.side {
        Some(s) => s,
        None => ReviewSide::New,
    };
    match side {
        ReviewSide::Old => match anchor.old_range {
            Some(r) => Some(r.start),
            None => None,
        },
        ReviewSide::New => match anchor.new_range {
            Some(r) => Some(r.start),
            None => None,
        },
    }
}

fn number_on(anchor: &ReviewAnchor, line: &ViewLine) -> (r: Option<usize>)
    ensures
        r == line_number_on(anchor@, *line),
{
    let side = match anchor.side {
        Some(s) => s,
        None => ReviewSide::New,
    };
    match side {
        ReviewSide::Old => line.old_line,
        ReviewSide::New => line.new_line,
    }
}

fn covers(anchor: &ReviewAnchor, line: &ViewLine) -> (r: bool)
    ensures
        r == hunk_anchor_covers(anchor@, *line),
{
    let in_hunk = match anchor.hunk_id {
        Some(h) => line.hunk_index == Some(h),
        None => false,
    };
    let old_match = match (anchor.old_range, line.old_line) {
        (Some(r), Some(x)) => r.start <= x && x <= r.end,
        _ => false,
    };
    let new_match = match (anchor.new_range, line.new_line) {
        (Some(r), Some(x)) => r.start <= x && x <= r.end,
        _ => false,
    };
    in_hunk || old_match || new_match
}

fn first_showing(visible: &[(usize, ViewLine)], anchor: &ReviewAnchor, n: usize, hunk_only: bool) -> (r: Option<
    usize,
>)
    ensures
        r == first_row_showing(visible@, anchor@, n, hunk_only),
{
    let mut i: usize = 0;
    assert(visible@.take(0) =~= Seq::<(usize, ViewLine)>::empty());
    while i < visible.len()
        invariant
            0 <= i <= visible.len(),
            first_row_showing(visible@.take(i as int), anchor@, n, hunk_only) is None,
        decreases visible.len() - i,
    {
        assert(visible@.take(i + 1).drop_last() =~= visible@.take(i as int));
        assert(visible@.take(i + 1).last() == visible@[i as int]);
        let line = &visible[i].1;
        if (!hunk_only || line.hunk_index.is_some()) && number_on(anchor, line) == Some(n) {
            proof {
                lemma_showing_extend(visible@, i as int + 1, anchor@, n, hunk_only);
            }
            return Some(visible[i].0);
        }
        i = i + 1;
    }
    assert(visible@.take(visible.len() as int) =~= visible@);
    None
}

proof fn lemma_showing_extend(
    visible: Seq<(usize, ViewLine)>,
    k: int,
    a: ReviewAnchorModel,
    n: usize,
    hunk_only: bool,
)
    requires
        0 <= k <= visible.len(),
        first_row_showing(visible.take(k), a, n, hunk_only) is Some,
    ensures
        first_row_showing(visible, a, n, hunk_only) == first_row_showing(visible.take(k), a, n, hunk_only),
    decreases visible.len() - k,
{
    if k < visible.len() {
        assert(visible.take(k + 1).drop_last() =~= visible.take(k));
        lemma_showing_extend(visible, k + 1, a, n, hunk_only);
    } else {
        assert(visible.take(k) =~= visible);
    }
}

fn hint_of(anchor: &ReviewAnchor) -> (r: Option<(usize, usize)>)
    ensures
        r == hint_span(anchor@),
{
    match anchor.display_idx_hint {
        Some(i) => Some((i, i)),
        None => None,
    }
}

/// The display rows an anchor covers (see [`anchor_span_spec`]).
pub fn review_anchor_display_span(anchor: &ReviewAnchor, visible: &[(usize, ViewLine)]) -> (r: Option<(
    usize,
    usize,
)>)
    ensures
        r == anchor_span_spec(anchor@, visible@),
{
    if visible.len() == 0 {
        return hint_of(anchor);
    }
    match anchor.kind {
        ReviewTargetKind::Line => match anchor_target(anchor) {
            None => hint_of(anchor),
            Some(n) => match first_showing(visible, anchor, n, false) {
                Some(d) => Some((d, d)),
                None => hint_of(anchor),
            },
        },
        ReviewTargetKind::Hunk => {
            let mut start: Option<usize> = None;
            let mut end: Option<usize> = None;
            let mut i: usize = 0;
            assert(visible@.take(0) =~= Seq::<(usize, ViewLine)>::empty());
            while i < visible.len()
                invariant
                    0 <= i <= visible.len(),
                    start == covered_row_extreme(visible@.take(i as int), anchor@, true),
                    end == covered_row_extreme(visible@.take(i as int), anchor@, false),
                decreases visible.len() - i,
            {
                assert(visible@.take(i + 1).drop_last() =~= visible@.take(i as int));
                assert(visible@.take(i + 1).last() == visible@[i as int]);
                if covers(anchor, &visible[i].1) {
                    let d = visible[i].0;
                    start = combine(start, d, true);
                    end = combine(end, d, false);
                }
                i = i + 1;
            }
            assert(visible@.take(visible.len() as int) =~= visible@);
            match (start, end) {
                (Some(x), Some(y)) => Some((x, y)),
                _ => hint_of(anchor),
            }
        },
    }
}

// ---------------------------------------------------------------------------
// Comment previews beside the diff.
// ---------------------------------------------------------------------------

/// The display row of the first visible line in a hunk anchor's ranges.
pub open spec fn first_row_in_ranges(visible: Seq<(usize, ViewLine)>, a: ReviewAnchorModel) -> Option<usize>
    decreases visible.len(),
{
    if visible.len() == 0 {
        None
    } else {
        match first_row_in_ranges(visible.drop_last(), a) {
            Some(d) => Some(d),
            None => if in_anchor_ranges(a, visible.last().1) {
                Some(visible.last().0)
            } else {
                None
            },
        }
    }
}

/// The row a comment's preview is shown at: for a line comment the first
/// hunk line showing its line, for a hunk comment the first line of its
/// hunk (or, without a hunk, the first line in its ranges).
pub open spec fn overlay_row(a: ReviewAnchorModel, visible: Seq<(usize, ViewLine)>) -> Option<usize> {
    match a.kind {
        ReviewTargetKind::Line => match anchor_target_line(a) {
            None => None,
            Some(n) => first_row_showing(visible, a, n, true),
        },
        ReviewTargetKind::Hunk => match a.hunk_id {
            Some(h) => first_row_of_hunk(visible, h),
            None => first_row_in_ranges(visible, a),
        },
    }
}

/// The first line of a text (as `str::lines` gives them), or nothing.
pub open spec fn first_line_of(text: Seq<char>) -> Seq<char> {
    if lines_of(text).len() > 0 {
        lines_of(text)[0]
    } else {
        Seq::empty()
    }
}

/// The preview of a comment: its first line, trimmed and cut to fifty
/// characters, with ` …` when more lines follow and nothing was cut;
/// `(empty)` when that leaves nothing.
pub open spec fn preview_spec(body: Seq<char>) -> Seq<char> {
    let cut = truncate_preview_spec(trim(first_line_of(body)), 50);
    let p = if body.contains('\n') && !cut.1 {
        cut.0 + " …"@
    } else {
        cut.0
    };
    if p.len() == 0 {
        "(empty)"@
    } else {
        p
    }
}

/// Whether a preview prefers the right pane: not for a comment on the old
/// side or on a hunk that only has old lines.
pub open spec fn prefers_right(a: ReviewAnchorModel) -> bool {
    match a.kind {
        ReviewTargetKind::Line => a.side != Some(ReviewSide::Old),
        ReviewTargetKind::Hunk => !(a.old_range is Some && a.new_range is None),
    }
}

/// The previews of the comments on `file_path`, in order, each at its row;
/// a comment whose row is not visible is left out.
pub open spec fn overlays_spec(
    comments: Seq<ReviewComment>,
    file_path: Seq<char>,
    visible: Seq<(usize, ViewLine)>,
) -> Seq<OverlayModel>
    decreases comments.len(),
{
    if comments.len() == 0 {
        Seq::empty()
    } else {
        let prev = overlays_spec(comments.drop_last(), file_path, visible);
        let c = comments.last();
        let a = c.anchor@;
        if a.file_path != file_path {
            prev
        } else {
            match overlay_row(a, visible) {
                None => prev,
                Some(d) => prev.push(
                    OverlayModel {
                        display_idx: d,
                        preview: preview_spec(c.body@),
                        anchor_key: a.anchor_key,
                        prefer_right: prefers_right(a),
                        is_hunk: a.kind == ReviewTargetKind::Hunk,
                    },
                ),
            }
        }
    }
}

fn first_in_ranges(visible: &[(usize, ViewLine)], anchor: &ReviewAnchor) -> (r: Option<usize>)
    ensures
        r == first_row_in_ranges(visible@, anchor@),
{
    let mut i: usize = 0;
    assert(visible@.take(0) =~= Seq::<(usize, ViewLine)>::empty());
    while i < visible.len()
        invariant
            0 <= i <= visible.len(),
            first_row_in_ranges(visible@.take(i as int), anchor@) is None,
        decreases visible.len() - i,
    {
        assert(visible@.take(i + 1).drop_last() =~= visible@.take(i as int));
        assert(visible@.take(i + 1).last() == visible@[i as int]);
        let line = &visible[i].1;
        let old_match = match (anchor.old_range, line.old_line) {
            (Some(r), Some(x)) => r.start <= x && x <= r.end,
            _ => false,
        };
        let new_match = match (anchor.new_range, line.new_line) {
            (Some(r), Some(x)) => r.start <= x && x <= r.end,
            _ => false,
        };
        if old_match || new_match {
            proof {
                lemma_ranges_extend(visible@, i as int + 1, anchor@);
            }
            return Some(visible[i].0);
        }
        i = i + 1;
    }
    assert(visible@.take(visible.len() as int) =~= visible@);
    None
}

proof fn lemma_ranges_extend(visible: Seq<(usize, ViewLine)>, k: int, a: ReviewAnchorModel)
    requires
        0 <= k <= visible.len(),
        first_row_in_ranges(visible.take(k), a) is Some,
    ensures
        first_row_in_ranges(visible, a) == first_row_in_ranges(visible.take(k), a),
    decreases visible.len() - k,
{
    if k < visible.len() {
        assert(visible.take(k + 1).drop_last() =~= visible.take(k));
        lemma_ranges_extend(visible, k + 1, a);
    } else {
        assert(visible.take(k) =~= visible);
    }
}

fn first_of_hunk(visible: &[(usize, ViewLine)], h: usize) -> (r: Option<usize>)
    ensures
        r == first_row_of_hunk(visible@, h),
{
    let mut i: usize = 0;
    assert(visible@.take(0) =~= Seq::<(usize, ViewLine)>::empty());
    while i < visible.len()
        invariant
            0 <= i <= visible.len(),
            first_row_of_hunk(visible@.take(i as int), h) is None,
        decreases visible.len() - i,
    {
        assert(visible@.take(i + 1).drop_last() =~= visible@.take(i as int));
        assert(visible@.take(i + 1).last() == visible@[i as int]);
        if visible[i].1.hunk_index == Some(h) {
            proof {
                lemma_hunk_row_extend(visible@, i as int + 1, h);
            }
            return Some(visible[i].0);
        }
        i = i + 1;
    }
    assert(visible@.take(visible.len() as int) =~= visible@);
    None
}

proof fn lemma_hunk_row_extend(visible: Seq<(usize, ViewLine)>, k: int, h: usize)
    requires
        0 <= k <= visible.len(),
        first_row_of_hunk(visible.take(k), h) is Some,
    ensures
        first_row_of_hunk(visible, h) == first_row_of_hunk(visible.take(k), h),
    decreases visible.len() - k,
{
    if k < visible.len() {
        assert(visible.take(k + 1).drop_last() =~= visible.take(k));
        lemma_hunk_row_extend(visible, k + 1, h);
    } else {
        assert(visible.take(k) =~= visible);
    }
}

fn row_for_overlay(anchor: &ReviewAnchor, visible: &[(usize, ViewLine)]) -> (r: Option<usize>)
    ensures
        r == overlay_row(anchor@, visible@),
{
    match anchor.kind {
        ReviewTargetKind::Line => match anchor_target(anchor) {
            None => None,
            Some(n) => first_showing(visible, anchor, n, true),
        },
        ReviewTargetKind::Hunk => match anchor.hunk_id {
            Some(h) => first_of_hunk(visible, h),
            None => first_in_ranges(visible, anchor),
        },
    }
}

fn contains_newline(s: &[char]) -> (r: bool)
    ensures
        r == s@.contains('\n'),
{
    let mut i: usize = 0;
    while i < s.len()
        invariant
            0 <= i <= s.len(),
            forall|j: int| 0 <= j < i ==> s@[j] != '\n',
        decreases s.len() - i,
    {
        if s[i] == '\n' {
            assert(s@[i as int] == '\n');
            return true;
        }
        i = i + 1;
    }
    false
}

/// The preview of a comment body (see [`preview_spec`]).
pub fn comment_preview(body: &str) -> (r: String)
    ensures
        r@ == preview_spec(body@),
{
    let chars = chars_of(body);
    let lines = lines_chars(chars.as_slice());
    let first: Vec<char> = if lines.len() > 0 {
        assert(chars_view(lines@)[0] == lines@[0]@);
        trim_chars(lines[0].as_slice())
    } else {
        trim_chars(&[])
    };
    proof {
        if lines.len() == 0 {
            assert(Seq::<char>::empty() =~= first_line_of(body@));
        }
    }
    let first_text = string_from_chars(first.as_slice());
    let (mut preview, cut) = truncate_preview_chars(first_text.as_str(), 50);
    if contains_newline(chars.as_slice()) && !cut {
        preview.append(" …");
    }
    if preview.as_str().unicode_len() == 0 {
        "(empty)".to_owned()
    } else {
        preview
    }
}

/// The previews shown beside the current file's lines (see
/// [`overlays_spec`]): none outside review mode, without a current file or
/// without visible lines.
pub fn review_comment_overlays_for_current_file(
    review_mode: bool,
    comments: &[ReviewComment],
    file_path: &str,
    visible: &[(usize, ViewLine)],
) -> (r: Vec<ReviewCommentOverlay>)
    ensures
        r@.map_values(|o: ReviewCommentOverlay| o@) == if !review_mode || file_path@.len() == 0
            || visible.len() == 0 {
            Seq::empty()
        } else {
            overlays_spec(comments@, file_path@, visible@)
        },
{
    let mut overlays: Vec<ReviewCommentOverlay> = Vec::new();
    if !review_mode || file_path.unicode_len() == 0 || visible.len() == 0 {
        assert(overlays@.map_values(|o: ReviewCommentOverlay| o@) =~= Seq::<OverlayModel>::empty());
        return overlays;
    }
    let path = string_from_chars(chars_of(file_path).as_slice());
    let mut i: usize = 0;
    assert(comments@.take(0) =~= Seq::<ReviewComment>::empty());
    assert(overlays@.map_values(|o: ReviewCommentOverlay| o@) =~= Seq::<OverlayModel>::empty());
    while i < comments.len()
        invariant
            0 <= i <= comments.len(),
            path@ == file_path@,
            overlays@.map_values(|o: ReviewCommentOverlay| o@) == overlays_spec(
                comments@.take(i as int),
                file_path@,
                visible@,
            ),
        decreases comments.len() - i,
    {
        assert(comments@.take(i + 1).drop_last() =~= comments@.take(i as int));
        assert(comments@.take(i + 1).last() == comments@[i as int]);
        let comment = &comments[i];
        if comment.anchor.file_path == path {
            match row_for_overlay(&comment.anchor, visible) {
                None => {},
                Some(d) => {
                    let ghost before = overlays@;
                    let a = &comment.anchor;
                    let prefer_right = match a.kind {
                        ReviewTargetKind::Line => !matches!(a.side, Some(ReviewSide::Old)),
                        ReviewTargetKind::Hunk => !(a.old_range.is_some() && a.new_range.is_none()),
                    };
                    let o = ReviewCommentOverlay {
                        display_idx: d,
                        preview: comment_preview(comment.body.as_str()),
                        anchor_key: a.anchor_key.clone(),
                        prefer_right,
                        is_hunk: matches!(a.kind, ReviewTargetKind::Hunk),
                    };
                    overlays.push(o);
                    assert(overlays@.map_values(|o: ReviewCommentOverlay| o@) =~= before.map_values(
                        |o: ReviewCommentOverlay| o@,
                    ).push(overlays@[before.len() as int]@));
                },
            }
        }
        i = i + 1;
    }
    assert(comments@.take(comments.len() as int) =~= comments@);
    overlays
}

// ---------------------------------------------------------------------------
// Exported comments.
// ---------------------------------------------------------------------------

/// The lines joined with newlines.
pub open spec fn join_newlines(lines: Seq<Seq<char>>) -> Seq<char>
    decreases lines.len(),
{
    if lines.len() == 0 {
        Seq::empty()
    } else if lines.len() == 1 {
        lines[0]
    } else {
        join_newlines(lines.drop_last()) + "\n"@ + lines.last()
    }
}

/// The lines a comment is exported as: its number and file, then its side
/// and line (a line comment) or its old and new ranges (a hunk comment),
/// then `Body:` and each line of its body (trimmed at the end) indented by
/// two spaces, or `  (empty)`.
pub open spec fn comment_lines(c: ReviewComment, index: usize) -> Seq<Seq<char>> {
    let a = c.anchor@;
    let head = seq!["=== Comment "@ + decimal(index as nat) + " ==="@, "File: "@ + a.file_path];
    let side = match a.side {
        Some(s) => s,
        None => ReviewSide::New,
    };
    let mid = match a.kind {
        ReviewTargetKind::Line => seq![
            "Side: "@ + side_name(side),
            "Line: "@ + opt_range_display(
                match side {
                    ReviewSide::Old => a.old_range,
                    ReviewSide::New => a.new_range,
                },
            ),
        ],
        ReviewTargetKind::Hunk => seq![
            "Old: "@ + opt_range_display(a.old_range),
            "New: "@ + opt_range_display(a.new_range),
        ],
    };
    let body = trim_end(c.body@);
    let tail = if body.len() == 0 {
        seq!["  (empty)"@]
    } else {
        lines_of(body).map_values(|l: Seq<char>| "  "@ + l)
    };
    head + mid + seq!["Body:"@] + tail
}

fn concat2(a: &str, b: &str) -> (r: String)
    ensures
        r@ == a@ + b@,
{
    let mut out = String::new();
    out.append(a);
    out.append(b);
    out
}

/// The text a comment is exported as: its lines joined with newlines (see
/// [`comment_lines`]).
pub fn format_review_comment(comment: &ReviewComment, index: usize) -> (r: String)
    ensures
        r@ == join_newlines(comment_lines(*comment, index)),
{
    let anchor = &comment.anchor;
    let mut lines: Vec<String> = Vec::new();
    let mut first = String::new();
    first.append("=== Comment ");
    first.append(string_from_chars(decimal_chars(index).as_slice()).as_str());
    first.append(" ===");
    lines.push(first);
    lines.push(concat2("File: ", anchor.file_path.as_str()));
    match anchor.kind {
        ReviewTargetKind::Line => {
            let side = match anchor.side {
                Some(s) => s,
                None => ReviewSide::New,
            };
            let range = match side {
                ReviewSide::Old => anchor.old_range,
                ReviewSide::New => anchor.new_range,
            };
            lines.push(concat2("Side: ", side.as_str()));
            lines.push(concat2("Line: ", format_opt_range_display(range).as_str()));
        },
        ReviewTargetKind::Hunk => {
            lines.push(concat2("Old: ", format_opt_range_display(anchor.old_range).as_str()));
            lines.push(concat2("New: ", format_opt_range_display(anchor.new_range).as_str()));
        },
    }
    lines.push("Body:".to_owned());
    let chars = chars_of(comment.body.as_str());
    let end = crate::text::skip_ws_backward(chars.as_slice(), 0, chars.len());
    let body = crate::text::slice_chars(chars.as_slice(), 0, end);
    proof {
        assert(chars@.subrange(0, chars.len() as int) =~= chars@);
        assert(body@ =~= trim_end(comment.body@));
    }
    let ghost pre = lines@.map_values(|s: String| s@);
    if body.len() == 0 {
        lines.push("  (empty)".to_owned());
    } else {
        let body_lines = lines_chars(body.as_slice());
        let mut k: usize = 0;
        while k < body_lines.len()
            invariant
                0 <= k <= body_lines.len(),
                chars_view(body_lines@) == lines_of(body@),
                lines@.map_values(|s: String| s@) == pre + lines_of(body@).take(k as int).map_values(
                    |l: Seq<char>| "  "@ + l,
                ),
            decreases body_lines.len() - k,
        {
            let ghost before = lines@;
            let text = string_from_chars(body_lines[k].as_slice());
            lines.push(concat2("  ", text.as_str()));
            proof {
                assert(lines_of(body@)[k as int] == body_lines@[k as int]@);
                assert(lines_of(body@).take(k + 1) =~= lines_of(body@).take(k as int).push(
                    lines_of(body@)[k as int],
                ));
                assert(lines@.map_values(|s: String| s@) =~= before.map_values(|s: String| s@).push(
                    "  "@ + lines_of(body@)[k as int],
                ));
                assert(lines_of(body@).take(k + 1).map_values(|l: Seq<char>| "  "@ + l) =~= lines_of(
                    body@,
                ).take(k as int).map_values(|l: Seq<char>| "  "@ + l).push("  "@ + lines_of(body@)[k as int]));
            }
            k = k + 1;
        }
        assert(lines_of(body@).take(body_lines.len() as int) =~= lines_of(body@));
    }
    let ghost all = lines@.map_values(|s: String| s@);
    assert(all =~= comment_lines(*comment, index));
    let mut out = String::new();
    let mut j: usize = 0;
    while j < lines.len()
        invariant
            0 <= j <= lines.len(),
            all == lines@.map_values(|s: String| s@),
            out@ == join_newlines(all.take(j as int)),
        decreases lines.len() - j,
    {
        assert(all.take(j + 1).drop_last() =~= all.take(j as int));
        assert(all.take(j + 1).last() == lines@[j as int]@);
        if j > 0 {
            out.append("\n");
        } else {
            assert(all.take(1)[0] == lines@[0]@);
        }
        out.append(lines[j].as_str());
        j = j + 1;
    }
    assert(all.take(lines.len() as int) =~= all);
    out
}

// ---------------------------------------------------------------------------
// The review output.
// ---------------------------------------------------------------------------

/// `a` sorts before `b` character by character (the order of `str`, whose
/// UTF-8 bytes compare as their characters do).
pub open spec fn str_lt(a: Seq<char>, b: Seq<char>) -> bool
    decreases a.len(),
{
    if a.len() == 0 {
        b.len() > 0
    } else if b.len() == 0 {
        false
    } else if a[0] != b[0] {
        (a[0] as int) < (b[0] as int)
    } else {
        str_lt(a.drop_first(), b.drop_first())
    }
}

proof fn lemma_str_lt_irrefl(a: Seq<char>)
    ensures
        !str_lt(a, a),
    decreases a.len(),
{
    if a.len() > 0 {
        lemma_str_lt_irrefl(a.drop_first());
    }
}

proof fn lemma_str_lt_total(a: Seq<char>, b: Seq<char>)
    ensures
        a != b ==> (str_lt(a, b) || str_lt(b, a)),
        !(str_lt(a, b) && str_lt(b, a)),
    decreases a.len(),
{
    if a.len() > 0 && b.len() > 0 {
        lemma_str_lt_total(a.drop_first(), b.drop_first());
        if a[0] == b[0] && a.drop_first() == b.drop_first() {
            assert(a =~= seq![a[0]] + a.drop_first());
            assert(b =~= seq![b[0]] + b.drop_first());
        }
    } else if a.len() == 0 && b.len() == 0 {
        assert(a =~= b);
    }
}

proof fn lemma_str_lt_trans(a: Seq<char>, b: Seq<char>, c: Seq<char>)
    requires
        str_lt(a, b),
        str_lt(b, c),
    ensures
        str_lt(a, c),
    decreases a.len(),
{
    if a.len() > 0 && b.len() > 0 && c.len() > 0 && a[0] == b[0] && b[0] == c[0] {
        lemma_str_lt_trans(a.drop_first(), b.drop_first(), c.drop_first());
    }
}

proof fn lemma_str_lt_order(a: Seq<char>, b: Seq<char>, c: Seq<char>)
    ensures
        !str_lt(a, a),
        a != b ==> (str_lt(a, b) || str_lt(b, a)),
        !(str_lt(a, b) && str_lt(b, a)),
        str_lt(a, b) && str_lt(b, c) ==> str_lt(a, c),
{
    lemma_str_lt_irrefl(a);
    lemma_str_lt_total(a, b);
    if str_lt(a, b) && str_lt(b, c) {
        lemma_str_lt_trans(a, b, c);
    }
}

fn str_less(a: &str, b: &str) -> (r: bool)
    ensures
        r == str_lt(a@, b@),
{
    let x = chars_of(a);
    let y = chars_of(b);
    let mut i: usize = 0;
    assert(x@.skip(0) =~= x@);
    assert(y@.skip(0) =~= y@);
    while i < x.len() && i < y.len() && x[i] == y[i]
        invariant
            0 <= i <= x.len(),
            i <= y.len(),
            x@ == a@,
            y@ == b@,
            str_lt(a@, b@) == str_lt(x@.skip(i as int), y@.skip(i as int)),
        decreases x.len() - i,
    {
        assert(x@.skip(i as int).drop_first() =~= x@.skip(i + 1));
        assert(y@.skip(i as int).drop_first() =~= y@.skip(i + 1));
        i = i + 1;
    }
    assert(x@.skip(i as int).len() == x.len() - i);
    if i == x.len() {
        i < y.len()
    } else if i == y.len() {
        false
    } else {
        assert(x@.skip(i as int)[0] == x@[i as int]);
        assert(y@.skip(i as int)[0] == y@[i as int]);
        x[i] < y[i]
    }
}

/// The line a comment sorts by: the start of its new range, else of its old
/// range, else after every line.
pub open spec fn sort_line(a: ReviewAnchorModel) -> int {
    match a.new_range {
        Some(r) => r.start as int,
        None => match a.old_range {
            Some(r) => r.start as int,
            None => usize::MAX as int,
        },
    }
}

/// The rank of a comment kind: line comments before hunk comments.
pub open spec fn kind_rank(k: ReviewTargetKind) -> int {
    match k {
        ReviewTargetKind::Line => 0,
        ReviewTargetKind::Hunk => 1,
    }
}

/// Comment `a` is output before comment `b`: by file path, then line
/// comments before hunk comments, then by line.
pub open spec fn comment_before(a: ReviewAnchorModel, b: ReviewAnchorModel) -> bool {
    str_lt(a.file_path, b.file_path) || (a.file_path == b.file_path && (kind_rank(a.kind) < kind_rank(
        b.kind,
    ) || (a.kind == b.kind && sort_line(a) < sort_line(b))))
}

/// Comments `i` and `j` are output in this order: `i` sorts before `j`, or
/// they sort alike and `i` comes first (the sort is stable).
pub open spec fn output_before(cs: Seq<CommentModel>, i: int, j: int) -> bool {
    comment_before(cs[i].anchor, cs[j].anchor) || (!comment_before(cs[j].anchor, cs[i].anchor) && i
        < j)
}

/// `ord` lists every comment position once, in output order.
pub open spec fn output_order(cs: Seq<CommentModel>, ord: Seq<int>) -> bool {
    &&& ord.len() == cs.len()
    &&& forall|k: int| 0 <= k < ord.len() ==> 0 <= #[trigger] ord[k] < cs.len()
    &&& forall|a: int, b: int| 0 <= a < b < ord.len() ==> output_before(cs, #[trigger] ord[a], #[trigger] ord[b])
}

/// The texts joined with blank lines between them.
pub open spec fn join_blank(texts: Seq<Seq<char>>) -> Seq<char>
    decreases texts.len(),
{
    if texts.len() == 0 {
        Seq::empty()
    } else if texts.len() == 1 {
        texts[0]
    } else {
        join_blank(texts.drop_last()) + "\n\n"@ + texts.last()
    }
}

/// The review output for comments in the order `ord`: each exported with its
/// number (from 1), separated by blank lines.
pub open spec fn output_text(cs: Seq<ReviewComment>, ord: Seq<int>) -> Seq<char> {
    join_blank(
        Seq::new(ord.len(), |k: int| join_newlines(comment_lines(cs[ord[k]], (k + 1) as usize))),
    )
}

proof fn lemma_before_order(a: ReviewAnchorModel, b: ReviewAnchorModel, c: ReviewAnchorModel)
    ensures
        !comment_before(a, a),
        !(comment_before(a, b) && comment_before(b, a)),
        comment_before(a, b) && comment_before(b, c) ==> comment_before(a, c),
        !comment_before(a, b) && !comment_before(b, c) ==> !comment_before(a, c),
{
    lemma_str_lt_order(a.file_path, b.file_path, c.file_path);
    lemma_str_lt_order(b.file_path, c.file_path, a.file_path);
    lemma_str_lt_order(c.file_path, a.file_path, b.file_path);
    lemma_str_lt_order(a.file_path, c.file_path, b.file_path);
    lemma_str_lt_order(b.file_path, a.file_path, c.file_path);
    lemma_str_lt_order(c.file_path, b.file_path, a.file_path);
}

fn anchor_sort_line(a: &ReviewAnchor) -> (r: usize)
    ensures
        r as int == sort_line(a@),
{
    match a.new_range {
        Some(r) => r.start,
        None => match a.old_range {
            Some(r) => r.start,
            None => usize::MAX,
        },
    }
}

fn before(a: &ReviewAnchor, b: &ReviewAnchor) -> (r: bool)
    ensures
        r == comment_before(a@, b@),
{
    if str_less(a.file_path.as_str(), b.file_path.as_str()) {
        return true;
    }
    if a.file_path != b.file_path {
        return false;
    }
    let ra: u8 = match a.kind {
        ReviewTargetKind::Line => 0,
        ReviewTargetKind::Hunk => 1,
    };
    let rb: u8 = match b.kind {
        ReviewTargetKind::Line => 0,
        ReviewTargetKind::Hunk => 1,
    };
    ra < rb || (ra == rb && anchor_sort_line(a) < anchor_sort_line(b))
}

/// The review output: the comments exported in order (by file, line
/// comments before hunk comments, then by line, ties in the order they were
/// written), numbered from 1 and separated by blank lines.
pub fn format_review_output(comments: &[ReviewComment]) -> (r: String)
    ensures
        exists|ord: Seq<int>|
            output_order(comments_view(comments@), ord) && r@ == output_text(comments@, ord),
{
    let ghost cv = comments_view(comments@);
    let mut order: Vec<usize> = Vec::new();
    for i in 0..comments.len()
        invariant
            cv == comments_view(comments@),
            order.len() == i,
            forall|k: int| 0 <= k < order.len() ==> (#[trigger] order@[k]) < i,
            forall|a: int, b: int|
                0 <= a < b < order.len() ==> output_before(cv, #[trigger] order@[a] as int, #[trigger] order@[b] as int),
            forall|j: int| 0 <= j < i ==> #[trigger] listed(order@, j),
    {
        let mut p: usize = 0;
        while p < order.len() && !before(&comments[i].anchor, &comments[order[p]].anchor)
            invariant
                0 <= p <= order.len(),
                i < comments.len(),
                cv == comments_view(comments@),
                forall|k: int| 0 <= k < order.len() ==> (#[trigger] order@[k]) < i,
                forall|k: int| 0 <= k < p ==> !comment_before(cv[i as int].anchor, cv[#[trigger] order@[k] as int].anchor),
            decreases order.len() - p,
        {
            p = p + 1;
        }
        let ghost old_order = order@;
        order.insert(p, i);
        proof {
            let no = order@;
            assert(no =~= old_order.take(p as int).push(i) + old_order.skip(p as int));
            assert forall|k: int| 0 <= k < no.len() implies no[k] == if k < p {
                old_order[k]
            } else if k == p {
                i
            } else {
                old_order[k - 1]
            } by {}
            assert forall|k: int| 0 <= k < p implies output_before(cv, #[trigger] old_order[k] as int, i as int) by {
                lemma_before_order(cv[old_order[k] as int].anchor, cv[i as int].anchor, cv[i as int].anchor);
            }
            if p < old_order.len() {
                assert(comment_before(cv[i as int].anchor, cv[old_order[p as int] as int].anchor));
                assert(output_before(cv, i as int, old_order[p as int] as int));
            }
            assert forall|a: int, b: int| 0 <= a < b < no.len() implies output_before(
                cv,
                #[trigger] no[a] as int,
                #[trigger] no[b] as int,
            ) by {
                let xa = no[a] as int;
                let xb = no[b] as int;
                if b < p {
                } else if b == p {
                } else if a < p {
                    let xp = old_order[p as int] as int;
                    assert(output_before(cv, xa, i as int));
                    assert(output_before(cv, i as int, xp));
                    if b - 1 > p {
                        assert(output_before(cv, xp, xb));
                        lemma_output_trans(cv, xa, xp, xb);
                    }
                    lemma_output_trans(cv, xa, i as int, xp);
                    if b - 1 > p {
                        lemma_output_trans(cv, xa, xp, xb);
                    }
                } else if a == p {
                    let xp = old_order[p as int] as int;
                    if b - 1 > p {
                        assert(output_before(cv, xp, xb));
                        lemma_output_trans(cv, i as int, xp, xb);
                    }
                } else {
                    assert(output_before(cv, old_order[a - 1] as int, old_order[b - 1] as int));
                }
            }
            assert forall|j: int| 0 <= j < i + 1 implies #[trigger] listed(no, j) by {
                if j == i {
                    assert(no[p as int] == j);
                } else {
                    assert(listed(old_order, j));
                    let k0 = choose|k: int| 0 <= k < old_order.len() && #[trigger] old_order[k] == j;
                    if k0 < p {
                        assert(no[k0] == j);
                    } else {
                        assert(no[k0 + 1] == j);
                    }
                }
            }
        }
    }
    let ghost ord = order@.map_values(|x: usize| x as int);
    let ghost texts = Seq::new(ord.len(), |k: int| join_newlines(comment_lines(comments@[ord[k]], (k + 1) as usize)));
    let mut out = String::new();
    let mut k: usize = 0;
    while k < order.len()
        invariant
            0 <= k <= order.len(),
            order.len() == comments.len(),
            forall|m: int| 0 <= m < order.len() ==> (#[trigger] order@[m]) < comments.len(),
            ord == order@.map_values(|x: usize| x as int),
            texts == Seq::new(ord.len(), |m: int| join_newlines(comment_lines(comments@[ord[m]], (m + 1) as usize))),
            out@ == join_blank(texts.take(k as int)),
        decreases order.len() - k,
    {
        assert(texts.take(k + 1).drop_last() =~= texts.take(k as int));
        let piece = format_review_comment(&comments[order[k]], k + 1);
        assert(piece@ == texts[k as int]);
        if k > 0 {
            out.append("\n\n");
        } else {
            assert(texts.take(1)[0] == texts[0]);
        }
        out.append(piece.as_str());
        k = k + 1;
    }
    assert(texts.take(order.len() as int) =~= texts);
    proof {
        assert forall|m: int| 0 <= m < ord.len() implies 0 <= #[trigger] ord[m] < cv.len() by {
            assert(ord[m] == order@[m] as int);
        }
        assert forall|a: int, b: int| 0 <= a < b < ord.len() implies output_before(cv, #[trigger] ord[a], #[trigger] ord[b]) by {
            assert(ord[a] == order@[a] as int);
            assert(ord[b] == order@[b] as int);
        }
        assert(output_order(cv, ord));
        assert(out@ == output_text(comments@, ord));
    }
    out
}

/// Position `j` is listed in `order`.
pub open spec fn listed(order: Seq<usize>, j: int) -> bool {
    exists|k: int| 0 <= k < order.len() && order[k] == j
}

proof fn lemma_output_trans(cv: Seq<CommentModel>, x: int, y: int, z: int)
    requires
        output_before(cv, x, y),
        output_before(cv, y, z),
    ensures
        output_before(cv, x, z),
{
    lemma_before_order(cv[x].anchor, cv[y].anchor, cv[z].anchor);
    lemma_before_order(cv[z].anchor, cv[y].anchor, cv[x].anchor);
    lemma_before_order(cv[y].anchor, cv[z].anchor, cv[x].anchor);
    lemma_before_order(cv[z].anchor, cv[x].anchor, cv[y].anchor);
    lemma_before_order(cv[x].anchor, cv[z].anchor, cv[y].anchor);
    lemma_before_order(cv[y].anchor, cv[x].anchor, cv[z].anchor);
}

} // verus!
