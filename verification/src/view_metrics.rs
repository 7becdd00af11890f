//! Scroll limits, display lengths and active-line positions of the rendered
//! diff views, context folding, and the texts a change contributes.

use vstd::prelude::*;
use crate::config::FoldContextMode;
use crate::text::{decimal, decimal_chars, string_from_chars, starts_with, trim_start, chars_of, skip_ws_forward, has_prefix_at, leading_ws, lemma_leading_ws, lines_chars, lines_of, chars_view};
use crate::types::{AnimationPhase, StepDirection, ViewMode};
use crate::view::{lines_view, LineKind, ViewLine, ViewLineModel, ViewSpan, ViewSpanKind, ViewSpanModel, Change, ChangeKind, ChangeSpanModel, change_spans_view};

verus! {

/// Overscroll past the end is allowed when the feature is enabled and the view
/// is auto-centering on a pending active line, or was centered once.
pub fn allow_overscroll_state(
    overscroll_enabled: bool,
    auto_center: bool,
    needs_scroll_to_active: bool,
    centered_once: bool,
) -> (r: bool)
    ensures
        r == (overscroll_enabled && ((auto_center && needs_scroll_to_active) || centered_once)),
{
    overscroll_enabled && ((auto_center && needs_scroll_to_active) || centered_once)
}

/// `a - b`, or 0 when `b > a`.
pub open spec fn sat_sub(a: int, b: int) -> int {
    if a >= b {
        a - b
    } else {
        0
    }
}

/// The largest scroll offset: with overscroll the last line may reach the
/// middle of the viewport, otherwise the viewport stays filled.
pub fn max_scroll(total_lines: usize, viewport_height: usize, allow_overscroll: bool) -> (r: usize)
    ensures
        r == (if allow_overscroll {
            sat_sub(sat_sub(total_lines as int, 1), viewport_height as int / 2)
        } else {
            sat_sub(total_lines as int, viewport_height as int)
        }),
{
    if allow_overscroll {
        total_lines.saturating_sub(1).saturating_sub(viewport_height / 2)
    } else {
        total_lines.saturating_sub(viewport_height)
    }
}

// ---------------------------------------------------------------------------
// Unified and blame views: every line is displayed.
// ---------------------------------------------------------------------------

/// Index of the first line of `s` that is primary-active (`primary`) or
/// active (`!primary`).
pub open spec fn first_flagged(s: Seq<ViewLineModel>, primary: bool) -> Option<nat>
    decreases s.len(),
{
    if s.len() == 0 {
        None
    } else {
        match first_flagged(s.drop_last(), primary) {
            Some(k) => Some(k),
            None => if (if primary {
                s.last().is_primary_active
            } else {
                s.last().is_active
            }) {
                Some((s.len() - 1) as nat)
            } else {
                None
            },
        }
    }
}

/// `a`, or `b` when `a` is `None`.
pub open spec fn or_else(a: Option<nat>, b: Option<nat>) -> Option<nat> {
    match a {
        Some(x) => Some(x),
        None => b,
    }
}

/// The option of a `usize` index as a `nat`.
pub open spec fn opt_nat(o: Option<usize>) -> Option<nat> {
    match o {
        Some(x) => Some(x as nat),
        None => None,
    }
}

pub(crate) fn first_flagged_index(view: &[ViewLine], primary: bool) -> (r: Option<usize>)
    ensures
        opt_nat(r) == first_flagged(lines_view(view@), primary),
        r matches Some(k) ==> k < view.len(),
{
    let mut i: usize = 0;
    while i < view.len()
        invariant
            0 <= i <= view.len(),
            first_flagged(lines_view(view@).take(i as int), primary) is None,
        decreases view.len() - i,
    {
        assert(lines_view(view@).take(i + 1).drop_last() =~= lines_view(view@).take(i as int));
        let flagged = if primary {
            view[i].is_primary_active
        } else {
            view[i].is_active
        };
        if flagged {
            proof {
                lemma_first_flagged_prefix(lines_view(view@), i as int + 1, primary);
            }
            return Some(i);
        }
        i = i + 1;
    }
    assert(lines_view(view@).take(view.len() as int) =~= lines_view(view@));
    None
}

proof fn lemma_first_flagged_prefix(s: Seq<ViewLineModel>, k: int, primary: bool)
    requires
        0 <= k <= s.len(),
        first_flagged(s.take(k), primary) is Some,
    ensures
        first_flagged(s, primary) == first_flagged(s.take(k), primary),
    decreases s.len(),
{
    if k < s.len() {
        assert(s.drop_last().take(k) =~= s.take(k));
        lemma_first_flagged_prefix(s.drop_last(), k, primary);
    } else {
        assert(s.take(k) =~= s);
    }
}

// ---------------------------------------------------------------------------
// Evolution view: deleted lines are hidden.
// ---------------------------------------------------------------------------

/// A line shows in the evolution view unless it is deleted; a pending
/// deletion shows while it is being animated. When nothing else would show,
/// deleted lines are shown instead of an empty view.
pub open spec fn evo_shows(l: ViewLineModel, fallback: bool, phase: AnimationPhase) -> bool {
    match l.kind {
        LineKind::Deleted => fallback,
        LineKind::PendingDelete => fallback || (l.is_active && phase != AnimationPhase::Idle),
        _ => true,
    }
}

/// Some line of `s` shows without the fallback.
pub open spec fn evo_has_visible(s: Seq<ViewLineModel>, phase: AnimationPhase) -> bool {
    exists|i: int| 0 <= i < s.len() && #[trigger] evo_shows(s[i], false, phase)
}

/// Number of lines of `s` that show.
pub open spec fn evo_count(s: Seq<ViewLineModel>, fallback: bool, phase: AnimationPhase) -> nat
    decreases s.len(),
{
    if s.len() == 0 {
        0
    } else {
        evo_count(s.drop_last(), fallback, phase) + if evo_shows(s.last(), fallback, phase) {
            1nat
        } else {
            0nat
        }
    }
}

/// Display position of the first showing line that is primary-active
/// (`primary`) or active (`!primary`).
pub open spec fn evo_first(
    s: Seq<ViewLineModel>,
    fallback: bool,
    phase: AnimationPhase,
    primary: bool,
) -> Option<nat>
    decreases s.len(),
{
    if s.len() == 0 {
        None
    } else {
        match evo_first(s.drop_last(), fallback, phase, primary) {
            Some(k) => Some(k),
            None => if evo_shows(s.last(), fallback, phase) && (if primary {
                s.last().is_primary_active
            } else {
                s.last().is_active
            }) {
                Some(evo_count(s.drop_last(), fallback, phase))
            } else {
                None
            },
        }
    }
}

/// Display length of the evolution view and the display position of its
/// active line (the first primary-active line, else the first active one).
pub open spec fn evolution_metrics_spec(s: Seq<ViewLineModel>, phase: AnimationPhase) -> (
    nat,
    Option<nat>,
) {
    let fallback = !evo_has_visible(s, phase);
    (
        evo_count(s, fallback, phase),
        or_else(evo_first(s, fallback, phase, true), evo_first(s, fallback, phase, false)),
    )
}

proof fn lemma_evo_count_le(s: Seq<ViewLineModel>, fallback: bool, phase: AnimationPhase)
    ensures
        evo_count(s, fallback, phase) <= s.len(),
    decreases s.len(),
{
    if s.len() > 0 {
        lemma_evo_count_le(s.drop_last(), fallback, phase);
    }
}

fn evo_line_shows(l: &ViewLine, fallback: bool, phase: AnimationPhase) -> (r: bool)
    ensures
        r == evo_shows(l@, fallback, phase),
{
    match l.kind {
        LineKind::Deleted => fallback,
        LineKind::PendingDelete => {
            if fallback {
                true
            } else {
                l.is_active && !matches!(phase, AnimationPhase::Idle)
            }
        },
        _ => true,
    }
}

/// Display length and active position of the evolution view.
pub fn evolution_display_metrics(view: &[ViewLine], animation_phase: AnimationPhase) -> (r: (
    usize,
    Option<usize>,
))
    ensures
        (r.0 as nat, opt_nat(r.1)) == evolution_metrics_spec(lines_view(view@), animation_phase),
{
    let ghost s = lines_view(view@);
    let mut has_visible = false;
    let mut i: usize = 0;
    while i < view.len()
        invariant_except_break
            !has_visible,
        invariant
            0 <= i <= view.len(),
            s == lines_view(view@),
            s.len() == view.len(),
            forall|j: int| 0 <= j < i ==> !evo_shows(#[trigger] s[j], false, animation_phase),
        ensures
            has_visible == evo_has_visible(s, animation_phase),
        decreases view.len() - i,
    {
        if evo_line_shows(&view[i], false, animation_phase) {
            assert(evo_shows(s[i as int], false, animation_phase));
            has_visible = true;
            break ;
        }
        i = i + 1;
    }
    let fallback = !has_visible;
    let mut display_len: usize = 0;
    let mut primary_idx: Option<usize> = None;
    let mut any_active_idx: Option<usize> = None;
    let mut k: usize = 0;
    while k < view.len()
        invariant
            0 <= k <= view.len(),
            s == lines_view(view@),
            display_len as nat == evo_count(s.take(k as int), fallback, animation_phase),
            opt_nat(primary_idx) == evo_first(s.take(k as int), fallback, animation_phase, true),
            opt_nat(any_active_idx) == evo_first(
                s.take(k as int),
                fallback,
                animation_phase,
                false,
            ),
        decreases view.len() - k,
    {
        assert(s.take(k + 1).drop_last() =~= s.take(k as int));
        proof {
            lemma_evo_count_le(s.take(k as int), fallback, animation_phase);
        }
        let line = &view[k];
        if evo_line_shows(line, fallback, animation_phase) {
            if line.is_primary_active && primary_idx.is_none() {
                primary_idx = Some(display_len);
            }
            if line.is_active && any_active_idx.is_none() {
                any_active_idx = Some(display_len);
            }
            display_len = display_len + 1;
        }
        k = k + 1;
    }
    assert(s.take(view.len() as int) =~= s);
    let active = match primary_idx {
        Some(p) => Some(p),
        None => any_active_idx,
    };
    (display_len, active)
}

// ---------------------------------------------------------------------------
// Split view: the old and the new pane count their own lines.
// ---------------------------------------------------------------------------

/// A fold marker line: context outside any hunk, without line numbers or
/// changes.
pub open spec fn is_fold_line_spec(l: ViewLineModel) -> bool {
    l.kind == LineKind::Context && l.hunk_index is None && l.old_line is None && l.new_line is None
        && !l.has_changes
}

/// Whether a line is a fold marker.
pub fn is_fold_line(line: &ViewLine) -> (r: bool)
    ensures
        r == is_fold_line_spec(line@),
{
    matches!(line.kind, LineKind::Context) && line.hunk_index.is_none() && line.old_line.is_none()
        && line.new_line.is_none() && !line.has_changes
}

/// The line has a row in the old pane.
pub open spec fn old_present(l: ViewLineModel) -> bool {
    l.old_line is Some || is_fold_line_spec(l)
}

/// The line has a row in the new pane.
pub open spec fn new_present(l: ViewLineModel) -> bool {
    (l.new_line is Some && l.kind != LineKind::Deleted && l.kind != LineKind::PendingDelete)
        || is_fold_line_spec(l)
}

/// The line takes a row of the old pane (aligned panes give a row to every
/// line of either pane).
pub open spec fn counts_old(l: ViewLineModel, align: bool) -> bool {
    old_present(l) || (align && new_present(l))
}

/// The line takes a row of the new pane.
pub open spec fn counts_new(l: ViewLineModel, align: bool) -> bool {
    new_present(l) || (align && old_present(l))
}

/// Rows of one pane (`old`: the old pane) taken by the lines of `s`.
pub open spec fn pane_count(s: Seq<ViewLineModel>, align: bool, old: bool) -> nat
    decreases s.len(),
{
    if s.len() == 0 {
        0
    } else {
        pane_count(s.drop_last(), align, old) + if (if old {
            counts_old(s.last(), align)
        } else {
            counts_new(s.last(), align)
        }) {
            1nat
        } else {
            0nat
        }
    }
}

/// Row of the last primary-active line in a pane.
pub open spec fn pane_primary(s: Seq<ViewLineModel>, align: bool, old: bool) -> Option<nat>
    decreases s.len(),
{
    if s.len() == 0 {
        None
    } else if (if old {
        counts_old(s.last(), align)
    } else {
        counts_new(s.last(), align)
    }) && s.last().is_primary_active {
        Some(pane_count(s.drop_last(), align, old))
    } else {
        pane_primary(s.drop_last(), align, old)
    }
}

/// Row of the first line in a pane that is active but not primary.
pub open spec fn pane_fallback(s: Seq<ViewLineModel>, align: bool, old: bool) -> Option<nat>
    decreases s.len(),
{
    if s.len() == 0 {
        None
    } else {
        match pane_fallback(s.drop_last(), align, old) {
            Some(k) => Some(k),
            None => if (if old {
                counts_old(s.last(), align)
            } else {
                counts_new(s.last(), align)
            }) && !s.last().is_primary_active && s.last().is_active {
                Some(pane_count(s.drop_last(), align, old))
            } else {
                None
            },
        }
    }
}

/// `|a - b|`.
pub open spec fn dist(a: int, b: int) -> int {
    if a >= b {
        a - b
    } else {
        b - a
    }
}

/// Of the old-pane and new-pane positions, the one nearer the scroll offset;
/// on a tie the new pane unless the last step went backward.
pub open spec fn choose_pane_row(
    old_idx: Option<nat>,
    new_idx: Option<nat>,
    scroll: int,
    dir: StepDirection,
) -> Option<nat> {
    match (old_idx, new_idx) {
        (Some(o), Some(n)) => if dist(o as int, scroll) < dist(n as int, scroll) {
            Some(o)
        } else if dist(n as int, scroll) < dist(o as int, scroll) {
            Some(n)
        } else if dir == StepDirection::Backward {
            Some(o)
        } else {
            Some(n)
        },
        (Some(o), None) => Some(o),
        (None, Some(n)) => Some(n),
        (None, None) => None,
    }
}

/// Display length of the split view (the longer pane) and the row of its
/// active line: primary-active rows if any pane has one, else the first
/// active rows, the pane nearer the scroll offset winning.
pub open spec fn split_metrics_spec(
    s: Seq<ViewLineModel>,
    scroll: int,
    dir: StepDirection,
    align: bool,
) -> (nat, Option<nat>) {
    let oc = pane_count(s, align, true);
    let nc = pane_count(s, align, false);
    let op = pane_primary(s, align, true);
    let np = pane_primary(s, align, false);
    let (o, n) = if op is Some || np is Some {
        (op, np)
    } else {
        (pane_fallback(s, align, true), pane_fallback(s, align, false))
    };
    (if oc >= nc {
        oc
    } else {
        nc
    }, choose_pane_row(o, n, scroll, dir))
}

proof fn lemma_pane_count_le(s: Seq<ViewLineModel>, align: bool, old: bool)
    ensures
        pane_count(s, align, old) <= s.len(),
    decreases s.len(),
{
    if s.len() > 0 {
        lemma_pane_count_le(s.drop_last(), align, old);
    }
}

fn usize_dist(a: usize, b: usize) -> (r: usize)
    ensures
        r == dist(a as int, b as int),
{
    if a >= b {
        a - b
    } else {
        b - a
    }
}

/// Display length and active row of the split view.
pub fn split_display_metrics(
    view: &[ViewLine],
    scroll_offset: usize,
    step_direction: StepDirection,
    split_align_lines: bool,
) -> (r: (usize, Option<usize>))
    ensures
        (r.0 as nat, opt_nat(r.1)) == split_metrics_spec(
            lines_view(view@),
            scroll_offset as int,
            step_direction,
            split_align_lines,
        ),
{
    let ghost s = lines_view(view@);
    let align = split_align_lines;
    let mut old_count: usize = 0;
    let mut new_count: usize = 0;
    let mut old_primary_idx: Option<usize> = None;
    let mut new_primary_idx: Option<usize> = None;
    let mut old_fallback_idx: Option<usize> = None;
    let mut new_fallback_idx: Option<usize> = None;
    let mut i: usize = 0;
    while i < view.len()
        invariant
            0 <= i <= view.len(),
            s == lines_view(view@),
            old_count as nat == pane_count(s.take(i as int), align, true),
            new_count as nat == pane_count(s.take(i as int), align, false),
            opt_nat(old_primary_idx) == pane_primary(s.take(i as int), align, true),
            opt_nat(new_primary_idx) == pane_primary(s.take(i as int), align, false),
            opt_nat(old_fallback_idx) == pane_fallback(s.take(i as int), align, true),
            opt_nat(new_fallback_idx) == pane_fallback(s.take(i as int), align, false),
        decreases view.len() - i,
    {
        assert(s.take(i + 1).drop_last() =~= s.take(i as int));
        proof {
            lemma_pane_count_le(s.take(i as int), align, true);
            lemma_pane_count_le(s.take(i as int), align, false);
        }
        let line = &view[i];
        let fold_line = is_fold_line(line);
        let old_p = line.old_line.is_some() || fold_line;
        let new_p = (line.new_line.is_some() && !matches!(
            line.kind,
            LineKind::Deleted | LineKind::PendingDelete
        )) || fold_line;
        if old_p || (align && new_p) {
            if line.is_primary_active {
                old_primary_idx = Some(old_count);
            } else if line.is_active && old_fallback_idx.is_none() {
                old_fallback_idx = Some(old_count);
            }
            old_count = old_count + 1;
        }
        if new_p || (align && old_p) {
            if line.is_primary_active {
                new_primary_idx = Some(new_count);
            } else if line.is_active && new_fallback_idx.is_none() {
                new_fallback_idx = Some(new_count);
            }
            new_count = new_count + 1;
        }
        i = i + 1;
    }
    assert(s.take(view.len() as int) =~= s);
    let display_len = if old_count >= new_count {
        old_count
    } else {
        new_count
    };
    let (old_idx, new_idx) = if old_primary_idx.is_some() || new_primary_idx.is_some() {
        (old_primary_idx, new_primary_idx)
    } else {
        (old_fallback_idx, new_fallback_idx)
    };
    let active_idx = match (old_idx, new_idx) {
        (Some(old), Some(new)) => {
            let old_dist = usize_dist(old, scroll_offset);
            let new_dist = usize_dist(new, scroll_offset);
            if old_dist < new_dist {
                Some(old)
            } else if new_dist < old_dist {
                Some(new)
            } else {
                match step_direction {
                    StepDirection::Forward | StepDirection::Stationary => Some(new),
                    StepDirection::Backward => Some(old),
                }
            }
        },
        (Some(old), None) => Some(old),
        (None, Some(new)) => Some(new),
        (None, None) => None,
    };
    (display_len, active_idx)
}

// ---------------------------------------------------------------------------
// All views.
// ---------------------------------------------------------------------------

/// Display length and active position of the view in the given mode.
pub open spec fn display_metrics_spec(
    s: Seq<ViewLineModel>,
    mode: ViewMode,
    phase: AnimationPhase,
    scroll: int,
    dir: StepDirection,
    align: bool,
) -> (nat, Option<nat>) {
    match mode {
        ViewMode::UnifiedPane | ViewMode::Blame => (
            s.len(),
            or_else(first_flagged(s, true), first_flagged(s, false)),
        ),
        ViewMode::Evolution => evolution_metrics_spec(s, phase),
        ViewMode::Split => split_metrics_spec(s, scroll, dir, align),
    }
}

/// Display length of the view and the display position of its active line.
pub fn display_metrics(
    view: &[ViewLine],
    view_mode: ViewMode,
    animation_phase: AnimationPhase,
    scroll_offset: usize,
    step_direction: StepDirection,
    split_align_lines: bool,
) -> (r: (usize, Option<usize>))
    ensures
        (r.0 as nat, opt_nat(r.1)) == display_metrics_spec(
            lines_view(view@),
            view_mode,
            animation_phase,
            scroll_offset as int,
            step_direction,
            split_align_lines,
        ),
{
    match view_mode {
        ViewMode::UnifiedPane | ViewMode::Blame => {
            let idx = match first_flagged_index(view, true) {
                Some(i) => Some(i),
                None => first_flagged_index(view, false),
            };
            (view.len(), idx)
        },
        ViewMode::Evolution => evolution_display_metrics(view, animation_phase),
        ViewMode::Split => split_display_metrics(
            view,
            scroll_offset,
            step_direction,
            split_align_lines,
        ),
    }
}

// ---------------------------------------------------------------------------
// Context folding.
// ---------------------------------------------------------------------------

/// Fewest unchanged lines that are folded into a marker.
pub const FOLD_CONTEXT_MIN_LINES: usize = 8;

/// Unchanged context outside any hunk.
pub open spec fn is_plain_context(l: ViewLineModel) -> bool {
    l.kind == LineKind::Context && l.hunk_index is None && !l.has_changes
}

/// Number of leading plain context lines of `s`.
pub open spec fn plain_run(s: Seq<ViewLineModel>) -> nat
    decreases s.len(),
{
    if s.len() > 0 && is_plain_context(s[0]) {
        1 + plain_run(s.drop_first())
    } else {
        0
    }
}

pub proof fn lemma_plain_run_le(s: Seq<ViewLineModel>)
    ensures
        plain_run(s) <= s.len(),
    decreases s.len(),
{
    if s.len() > 0 && is_plain_context(s[0]) {
        lemma_plain_run_le(s.drop_first());
    }
}

/// Text of a fold marker: an ellipsis, followed by the line count when counts
/// are shown.
pub open spec fn fold_label(count: nat, counts: bool) -> Seq<char> {
    if counts {
        seq!['…', ' '] + decimal(count) + seq![' '] + (if count == 1 {
            seq!['l', 'i', 'n', 'e']
        } else {
            seq!['l', 'i', 'n', 'e', 's']
        })
    } else {
        seq!['…']
    }
}

/// The marker line that stands for `count` folded lines.
pub open spec fn fold_marker(count: nat, counts: bool) -> ViewLineModel {
    ViewLineModel {
        content: fold_label(count, counts),
        spans: seq![ViewSpanModel { text: fold_label(count, counts), kind: ViewSpanKind::Equal }],
        kind: LineKind::Context,
        old_line: None,
        new_line: None,
        is_active: false,
        is_active_change: false,
        is_primary_active: false,
        show_hunk_extent: false,
        change_id: 0,
        hunk_index: None,
        has_changes: false,
    }
}

/// `s` with every run of at least `FOLD_CONTEXT_MIN_LINES` plain context lines
/// replaced by one marker; other lines are kept in order.
pub open spec fn fold_lines(s: Seq<ViewLineModel>, counts: bool) -> Seq<ViewLineModel>
    decreases s.len(),
{
    if s.len() == 0 {
        Seq::empty()
    } else {
        let r = plain_run(s);
        if r >= FOLD_CONTEXT_MIN_LINES {
            proof {
                lemma_plain_run_le(s);
            }
            seq![fold_marker(r, counts)] + fold_lines(s.skip(r as int), counts)
        } else {
            seq![s[0]] + fold_lines(s.drop_first(), counts)
        }
    }
}

/// The view after context folding in `mode`: unchanged when folding is off.
pub open spec fn fold_context_spec(s: Seq<ViewLineModel>, mode: FoldContextMode) -> Seq<
    ViewLineModel,
> {
    if mode == FoldContextMode::Off {
        s
    } else {
        fold_lines(s, mode == FoldContextMode::Counts)
    }
}

fn is_plain_line(l: &ViewLine) -> (r: bool)
    ensures
        r == is_plain_context(l@),
{
    matches!(l.kind, LineKind::Context) && l.hunk_index.is_none() && !l.has_changes
}

fn fold_marker_line(count: usize, counts: bool) -> (r: ViewLine)
    ensures
        r@ == fold_marker(count as nat, counts),
{
    let mut label: Vec<char> = Vec::new();
    label.push('…');
    if counts {
        label.push(' ');
        let digits = decimal_chars(count);
        let mut i: usize = 0;
        while i < digits.len()
            invariant
                0 <= i <= digits.len(),
                label@ == seq!['…', ' '] + digits@.take(i as int),
            decreases digits.len() - i,
        {
            label.push(digits[i]);
            i = i + 1;
        }
        assert(digits@.take(digits.len() as int) =~= digits@);
        label.push(' ');
        label.push('l');
        label.push('i');
        label.push('n');
        label.push('e');
        if count != 1 {
            label.push('s');
        }
    }
    assert(label@ =~= fold_label(count as nat, counts));
    let content = string_from_chars(label.as_slice());
    let span_text = string_from_chars(label.as_slice());
    let mut spans: Vec<ViewSpan> = Vec::new();
    spans.push(ViewSpan { text: span_text, kind: ViewSpanKind::Equal });
    let r = ViewLine {
        content,
        spans,
        kind: LineKind::Context,
        old_line: None,
        new_line: None,
        is_active: false,
        is_active_change: false,
        is_primary_active: false,
        show_hunk_extent: false,
        change_id: 0,
        hunk_index: None,
        has_changes: false,
    };
    assert(r@.spans =~= fold_marker(count as nat, counts).spans);
    r
}

/// Folds long runs of unchanged context outside hunks into marker lines.
pub fn fold_context_view(view: Vec<ViewLine>, mode: FoldContextMode) -> (r: Vec<ViewLine>)
    ensures
        lines_view(r@) == fold_context_spec(lines_view(view@), mode),
{
    if !mode.is_enabled() {
        return view;
    }
    let ghost s = lines_view(view@);
    let counts = mode.show_counts();
    let mut out: Vec<ViewLine> = Vec::with_capacity(view.len());
    let mut idx: usize = 0;
    assert(s.skip(0) =~= s);
    while idx < view.len()
        invariant
            0 <= idx <= view.len(),
            s == lines_view(view@),
            s.len() == view.len(),
            counts == (mode == FoldContextMode::Counts),
            fold_lines(s, counts) == lines_view(out@) + fold_lines(s.skip(idx as int), counts),
        decreases view.len() - idx,
    {
        let ghost rest = s.skip(idx as int);
        assert(rest.drop_first() =~= s.skip(idx + 1));
        if is_plain_line(&view[idx]) {
            let mut end: usize = idx + 1;
            while end < view.len() && is_plain_line(&view[end])
                invariant
                    idx < end <= view.len(),
                    s == lines_view(view@),
                    s.len() == view.len(),
                    rest == s.skip(idx as int),
                    plain_run(rest) == (end - idx) + plain_run(s.skip(end as int)),
                decreases view.len() - end,
            {
                assert(s.skip(end as int).drop_first() =~= s.skip(end + 1));
                end = end + 1;
            }
            proof {
                if end < view.len() {
                    assert(s.skip(end as int)[0] == s[end as int]);
                }
            }
            assert(plain_run(rest) == end - idx);
            let count = end - idx;
            if count >= FOLD_CONTEXT_MIN_LINES {
                let marker = fold_marker_line(count, counts);
                let ghost prev = out@;
                out.push(marker);
                proof {
                    assert(lines_view(out@) =~= lines_view(prev).push(marker@));
                    assert(rest.skip(count as int) =~= s.skip(end as int));
                    assert(fold_lines(rest, counts) == seq![fold_marker(count as nat, counts)]
                        + fold_lines(rest.skip(count as int), counts));
                    assert(lines_view(out@) + fold_lines(s.skip(end as int), counts) =~= lines_view(
                        prev,
                    ) + fold_lines(rest, counts));
                }
                idx = end;
                continue ;
            }
        }
        let copied = view[idx].copy();
        let ghost prev = out@;
        out.push(copied);
        proof {
            assert(lines_view(out@) =~= lines_view(prev).push(copied@));
            assert(rest[0] == s[idx as int]);
            assert(fold_lines(rest, counts) == seq![rest[0]] + fold_lines(rest.drop_first(), counts));
            assert(lines_view(out@) + fold_lines(s.skip(idx + 1), counts) =~= lines_view(prev)
                + fold_lines(rest, counts));
        }
        idx = idx + 1;
    }
    assert(s.skip(view.len() as int) =~= Seq::<ViewLineModel>::empty());
    assert(lines_view(out@) =~= lines_view(out@) + Seq::<ViewLineModel>::empty());
    out
}

// ---------------------------------------------------------------------------
// Conflict markers.
// ---------------------------------------------------------------------------

/// Seven copies of `c`.
pub open spec fn marker_of(c: char) -> Seq<char> {
    Seq::new(7, |i: int| c)
}

/// The line, without leading whitespace, starts a merge-conflict marker
/// (`<<<<<<<`, `=======` or `>>>>>>>`).
pub open spec fn is_conflict_marker_text(t: Seq<char>) -> bool {
    let u = trim_start(t);
    starts_with(u, marker_of('<')) || starts_with(u, marker_of('=')) || starts_with(u, marker_of('>'))
}

fn marker_chars(c: char) -> (v: Vec<char>)
    ensures
        v@ == marker_of(c),
{
    let mut v: Vec<char> = Vec::new();
    let mut i: usize = 0;
    while i < 7
        invariant
            0 <= i <= 7,
            v@ == Seq::new(i as nat, |k: int| c),
        decreases 7 - i,
    {
        v.push(c);
        assert(v@ =~= Seq::new((i + 1) as nat, |k: int| c));
        i = i + 1;
    }
    v
}

/// Whether `text`, after leading whitespace, starts a conflict marker.
pub fn text_is_conflict_marker(text: &[char]) -> (r: bool)
    ensures
        r == is_conflict_marker_text(text@),
{
    let start = skip_ws_forward(text, 0, text.len());
    assert(text@.subrange(0, text.len() as int) =~= text@);
    let ghost u = trim_start(text@);
    assert(u =~= text@.skip(start as int));
    let lt = marker_chars('<');
    let eq = marker_chars('=');
    let gt = marker_chars('>');
    let a = has_prefix_at(text, start, lt.as_slice());
    let b = has_prefix_at(text, start, eq.as_slice());
    let c = has_prefix_at(text, start, gt.as_slice());
    proof {
        assert(start + 7 <= text.len() ==> u.take(7) =~= text@.subrange(start as int, start + 7));
    }
    a || b || c
}

/// Whether a rendered line starts a merge-conflict marker.
pub fn is_conflict_marker(line: &ViewLine) -> (r: bool)
    ensures
        r == is_conflict_marker_text(line.content@),
{
    let chars = chars_of(line.content.as_str());
    text_is_conflict_marker(chars.as_slice())
}

// ---------------------------------------------------------------------------
// Texts of a change.
// ---------------------------------------------------------------------------

/// Which text of a change: the old text, the inline (old then new) text, or
/// the modified-only (new) text.
#[derive(Debug, Clone, Copy, PartialEq, Eq, Structural)]
pub enum ChangeTextKind {
    Old,
    Inline,
    Modified,
}

/// The new text of a span: its replacement text, else its text.
pub open spec fn replacement(sp: ChangeSpanModel) -> Seq<char> {
    match sp.new_text {
        Some(t) => t,
        None => sp.text,
    }
}

/// What a span contributes to the chosen text of its change.
pub open spec fn span_piece(sp: ChangeSpanModel, which: ChangeTextKind) -> Seq<char> {
    match which {
        ChangeTextKind::Old => match sp.kind {
            ChangeKind::Insert => Seq::empty(),
            _ => sp.text,
        },
        ChangeTextKind::Inline => match sp.kind {
            ChangeKind::Replace => sp.text + replacement(sp),
            _ => sp.text,
        },
        ChangeTextKind::Modified => match sp.kind {
            ChangeKind::Delete => Seq::empty(),
            ChangeKind::Replace => replacement(sp),
            _ => sp.text,
        },
    }
}

/// The chosen text of a change: the pieces of its spans, in order.
pub open spec fn change_text(spans: Seq<ChangeSpanModel>, which: ChangeTextKind) -> Seq<char>
    decreases spans.len(),
{
    if spans.len() == 0 {
        Seq::empty()
    } else {
        change_text(spans.drop_last(), which) + span_piece(spans.last(), which)
    }
}

fn text_for_change(change: &Change, which: ChangeTextKind) -> (r: String)
    ensures
        r@ == change_text(change_spans_view(change.spans@), which),
{
    let ghost sv = change_spans_view(change.spans@);
    let mut text = String::new();
    let mut i: usize = 0;
    while i < change.spans.len()
        invariant
            0 <= i <= change.spans.len(),
            sv == change_spans_view(change.spans@),
            text@ == change_text(sv.take(i as int), which),
        decreases change.spans.len() - i,
    {
        assert(sv.take(i + 1).drop_last() =~= sv.take(i as int));
        let span = &change.spans[i];
        let replacement_text: &str = match &span.new_text {
            Some(t) => t.as_str(),
            None => span.text.as_str(),
        };
        match which {
            ChangeTextKind::Old => {
                match span.kind {
                    ChangeKind::Insert => {},
                    _ => text.append(span.text.as_str()),
                }
            },
            ChangeTextKind::Inline => {
                text.append(span.text.as_str());
                if matches!(span.kind, ChangeKind::Replace) {
                    text.append(replacement_text);
                }
            },
            ChangeTextKind::Modified => {
                match span.kind {
                    ChangeKind::Delete => {},
                    ChangeKind::Replace => text.append(replacement_text),
                    _ => text.append(span.text.as_str()),
                }
            },
        }
        assert(text@ =~= change_text(sv.take(i + 1), which));
        i = i + 1;
    }
    assert(sv.take(change.spans.len() as int) =~= sv);
    text
}

/// The old text of a change: equal, deleted and replaced spans.
pub fn old_text_for_change(change: &Change) -> (r: String)
    ensures
        r@ == change_text(change_spans_view(change.spans@), ChangeTextKind::Old),
{
    text_for_change(change, ChangeTextKind::Old)
}

/// The inline text of a change: every span, a replacement followed by its
/// new text.
pub fn inline_text_for_change(change: &Change) -> (r: String)
    ensures
        r@ == change_text(change_spans_view(change.spans@), ChangeTextKind::Inline),
{
    text_for_change(change, ChangeTextKind::Inline)
}

/// The new text of a change: equal and inserted spans, replacements by their
/// new text.
pub fn modified_only_text_for_change(change: &Change) -> (r: String)
    ensures
        r@ == change_text(change_spans_view(change.spans@), ChangeTextKind::Modified),
{
    text_for_change(change, ChangeTextKind::Modified)
}

// ---------------------------------------------------------------------------
// Changes that touch a merge conflict.
// ---------------------------------------------------------------------------

/// Some line of `t` (as `str::lines` gives them) starts a conflict marker.
pub open spec fn text_has_marker(t: Seq<char>) -> bool {
    exists|i: int| 0 <= i < lines_of(t).len() && is_conflict_marker_text(#[trigger] lines_of(t)[i])
}

fn chars_have_marker(text: &str) -> (r: bool)
    ensures
        r == text_has_marker(text@),
{
    let c = chars_of(text);
    let lines = lines_chars(c.as_slice());
    let mut i: usize = 0;
    while i < lines.len()
        invariant
            0 <= i <= lines.len(),
            chars_view(lines@) == lines_of(text@),
            forall|j: int| 0 <= j < i ==> !is_conflict_marker_text(#[trigger] lines_of(text@)[j]),
        decreases lines.len() - i,
    {
        assert(lines_of(text@)[i as int] == lines@[i as int]@);
        if text_is_conflict_marker(lines[i].as_slice()) {
            return true;
        }
        i = i + 1;
    }
    false
}

/// Whether a change touches a merge conflict: a line of its old text or of
/// its modified text starts a conflict marker.
pub fn change_has_conflict_marker(change: &Change) -> (r: bool)
    ensures
        r == (text_has_marker(change_text(change_spans_view(change.spans@), ChangeTextKind::Old))
            || text_has_marker(change_text(change_spans_view(change.spans@), ChangeTextKind::Modified))),
{
    let old_text = old_text_for_change(change);
    if chars_have_marker(old_text.as_str()) {
        return true;
    }
    let new_text = modified_only_text_for_change(change);
    chars_have_marker(new_text.as_str())
}

// ---------------------------------------------------------------------------
// Mouse hits.
// ---------------------------------------------------------------------------

/// `a + b`, or the largest `u16` when that overflows.
pub open spec fn sat_add_u16(a: u16, b: u16) -> int {
    if a + b > u16::MAX {
        u16::MAX as int
    } else {
        a + b
    }
}

/// Whether the cell at `column`, `row` lies in the rectangle `(x, y, width,
/// height)` (its far edges computed with saturation).
pub fn point_in_rect(rect: (u16, u16, u16, u16), column: u16, row: u16) -> (r: bool)
    ensures
        r == (rect.0 <= column && column < sat_add_u16(rect.0, rect.2) && rect.1 <= row && row
            < sat_add_u16(rect.1, rect.3)),
{
    let (x, y, width, height) = rect;
    let end_x = x.saturating_add(width);
    let end_y = y.saturating_add(height);
    column >= x && column < end_x && row >= y && row < end_y
}

} // verus!
