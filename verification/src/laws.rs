//! Properties of the library that span several operations: moving between
//! files, background diffs reaching their file, reading a file again, the git
//! change list of a session, and context folding.

use vstd::prelude::*;
use crate::config::FoldContextMode;
use crate::diff::DiffResultModel;
use crate::git::{ChangedFileModel, changed_files_view};
use crate::multi::{
    DiffSettings, DiffStatus, GitFileInput, LoadedContent, MultiFileDiffModel, PrecomputedModel,
    apply_diff_spec, change_keys, change_list_changed_spec, ensure_full_spec, file_keys,
    git_file_spec, next_spec, prev_spec, refresh_spec, select_spec,
};
use crate::view::ViewLineModel;
use crate::anchors::{CommentModel, ReviewAnchorModel};
use crate::editor::{
    insert_at, key_position, lemma_boundary_at, lemma_cursor_facts, lemma_key_position,
    lemma_utf8_concat, remove_range, save_spec, saved_body,
};
use crate::multi::{utf8_len, utf8_width};
use crate::multi::{
    diff_strings_spec, file_is_large_spec, full_diff_spec, loaded_file_spec, max_len,
    refresh_sources_spec, trim_context_spec,
};
use crate::git::FileStatus;
use crate::review::{byte_at, char_index, is_boundary, lemma_byte_at_increasing, lemma_byte_at_step, lemma_char_index};
use crate::text::trim;
use crate::view_metrics::{
    FOLD_CONTEXT_MIN_LINES, fold_context_spec, fold_lines, is_plain_context, lemma_plain_run_le,
    plain_run,
};

verus! {

// ---------------------------------------------------------------------------
// Moving between files.
// ---------------------------------------------------------------------------

/// Moving to the next file and back returns to the same session, whenever
/// there was a next file.
pub proof fn law_next_then_prev_returns(m: MultiFileDiffModel)
    requires
        m.wf(),
        m.selected + 1 < m.files.len(),
    ensures
        prev_spec(next_spec(m)) == m,
{
}

/// Moving to the previous file and forward again returns to the same
/// session, whenever there was a previous file.
pub proof fn law_prev_then_next_returns(m: MultiFileDiffModel)
    requires
        m.wf(),
        m.selected > 0,
    ensures
        next_spec(prev_spec(m)) == m,
{
}

/// Every move keeps the selection on a file of a well-formed session.
pub proof fn law_moves_keep_selection_valid(m: MultiFileDiffModel, index: int)
    requires
        m.wf(),
    ensures
        next_spec(m).wf(),
        prev_spec(m).wf(),
        select_spec(m, index).wf(),
{
}

/// Selecting a file twice is selecting it once, and selecting an existing
/// file makes it the selected one.
pub proof fn law_select_file_idempotent(m: MultiFileDiffModel, index: int)
    requires
        m.wf(),
    ensures
        select_spec(select_spec(m, index), index) == select_spec(m, index),
        0 <= index < m.files.len() ==> select_spec(m, index).selected == index,
{
}

// ---------------------------------------------------------------------------
// Background diffs.
// ---------------------------------------------------------------------------

/// A diff applied to an existing file makes that file ready, with the diff's
/// line counts, and leaves every other file as it was.
pub proof fn law_applied_diff_is_ready(m: MultiFileDiffModel, idx: int, d: DiffResultModel)
    requires
        m.wf(),
        0 <= idx < m.files.len(),
    ensures
        apply_diff_spec(m, idx, d).wf(),
        apply_diff_spec(m, idx, d).status_at(idx) == DiffStatus::Ready,
        apply_diff_spec(m, idx, d).files[idx].insertions == d.insertions,
        apply_diff_spec(m, idx, d).files[idx].deletions == d.deletions,
        forall|j: int|
            0 <= j < m.files.len() && j != idx ==> {
                &&& #[trigger] apply_diff_spec(m, idx, d).files[j] == m.files[j]
                &&& apply_diff_spec(m, idx, d).statuses[j] == m.statuses[j]
                &&& apply_diff_spec(m, idx, d).precomputed[j] == m.precomputed[j]
            },
{
}

/// A diff computed in the background reaches the file's navigator: once it
/// is applied, making the navigator full builds it from exactly that diff,
/// when the file had no navigator or only a placeholder one.
pub proof fn law_background_diff_reaches_navigator(m: MultiFileDiffModel, idx: int, d: DiffResultModel)
    requires
        m.wf(),
        0 <= idx < m.files.len(),
        m.navigators[idx] is None || m.placeholders[idx],
    ensures
        ({
            let after = ensure_full_spec(apply_diff_spec(m, idx, d), idx);
            &&& after.wf()
            &&& after.status_at(idx) == DiffStatus::Ready
            &&& after.navigators[idx] is Some
            &&& after.navigators[idx]->0.diff == d
            &&& !after.placeholders[idx]
        }),
{
}

// ---------------------------------------------------------------------------
// Reading a file again.
// ---------------------------------------------------------------------------

/// Reading a file again drops its navigator, so that it is rebuilt from the
/// new texts, and leaves every other file as it was.
pub proof fn law_refresh_touches_one_file(
    m: MultiFileDiffModel,
    idx: int,
    old_side: Option<LoadedContent>,
    new_side: Option<LoadedContent>,
)
    requires
        m.wf(),
        0 <= idx < m.files.len(),
    ensures
        ({
            let after = refresh_spec(m, idx, old_side, new_side);
            &&& after.wf()
            &&& after.navigators[idx] is None
            &&& !after.placeholders[idx]
            &&& after.selected == m.selected
            &&& forall|j: int|
                0 <= j < m.files.len() && j != idx ==> {
                    &&& #[trigger] after.files[j] == m.files[j]
                    &&& after.old_contents[j] == m.old_contents[j]
                    &&& after.new_contents[j] == m.new_contents[j]
                    &&& after.statuses[j] == m.statuses[j]
                    &&& after.navigators[j] == m.navigators[j]
                }
        }),
{
}

// ---------------------------------------------------------------------------
// The git change list.
// ---------------------------------------------------------------------------

/// A git session whose files were built from a list of changes finds that
/// same list unchanged.
pub proof fn law_session_matches_its_own_changes(
    m: MultiFileDiffModel,
    inputs: Seq<GitFileInput>,
    settings: DiffSettings,
)
    requires
        m.wf(),
        m.repo_root is Some,
        m.git_mode is Some,
        m.files.len() == inputs.len(),
        forall|i: int| 0 <= i < inputs.len() ==> m.holds_file(i, git_file_spec(#[trigger] inputs[i], settings)),
    ensures
        !change_list_changed_spec(
            m,
            Some(changed_files_view(inputs.map_values(|x: GitFileInput| x.change))),
        ),
{
    let cs = changed_files_view(inputs.map_values(|x: GitFileInput| x.change));
    assert forall|i: int| 0 <= i < m.files.len() implies #[trigger] file_keys(m.files)[i] == change_keys(cs)[i] by {
        assert(m.holds_file(i, git_file_spec(inputs[i], settings)));
    }
    assert(file_keys(m.files) =~= change_keys(cs));
}

// ---------------------------------------------------------------------------
// Context folding.
// ---------------------------------------------------------------------------

/// A line that is not plain context.
pub open spec fn is_changed_line() -> spec_fn(ViewLineModel) -> bool {
    |l: ViewLineModel| !is_plain_context(l)
}

/// The lines of a view that are not plain context, in order.
pub open spec fn changed_lines(s: Seq<ViewLineModel>) -> Seq<ViewLineModel> {
    s.filter(is_changed_line())
}

proof fn lemma_plain_prefix_filtered(s: Seq<ViewLineModel>, r: int)
    requires
        0 <= r <= plain_run(s),
    ensures
        r <= s.len(),
        changed_lines(s) == changed_lines(s.skip(r)),
    decreases r,
{
    lemma_plain_run_le(s);
    if r > 0 {
        let t = s.drop_first();
        lemma_plain_prefix_filtered(t, r - 1);
        assert(s =~= seq![s[0]] + t);
        Seq::filter_distributes_over_add(seq![s[0]], t, is_changed_line());
        assert(seq![s[0]].filter(is_changed_line()) =~= Seq::<ViewLineModel>::empty()) by {
            reveal_with_fuel(Seq::filter, 2);
        }
        assert(t.skip(r - 1) =~= s.skip(r));
    } else {
        assert(s.skip(0) =~= s);
    }
}

proof fn lemma_fold_lines(s: Seq<ViewLineModel>, counts: bool)
    ensures
        changed_lines(fold_lines(s, counts)) == changed_lines(s),
        fold_lines(s, counts).len() <= s.len(),
    decreases s.len(),
{
    let pred = is_changed_line();
    if s.len() > 0 {
        let r = plain_run(s);
        lemma_plain_run_le(s);
        if r >= FOLD_CONTEXT_MIN_LINES {
            let rest = s.skip(r as int);
            lemma_fold_lines(rest, counts);
            lemma_plain_prefix_filtered(s, r as int);
            let marker = fold_lines(s, counts)[0];
            assert(fold_lines(s, counts) =~= seq![marker] + fold_lines(rest, counts));
            Seq::filter_distributes_over_add(seq![marker], fold_lines(rest, counts), pred);
            assert(seq![marker].filter(pred) =~= Seq::<ViewLineModel>::empty()) by {
                reveal_with_fuel(Seq::filter, 2);
            }
        } else {
            let t = s.drop_first();
            lemma_fold_lines(t, counts);
            assert(fold_lines(s, counts) =~= seq![s[0]] + fold_lines(t, counts));
            assert(s =~= seq![s[0]] + t);
            Seq::filter_distributes_over_add(seq![s[0]], fold_lines(t, counts), pred);
            Seq::filter_distributes_over_add(seq![s[0]], t, pred);
        }
    }
}

/// Folding context never drops, adds or reorders a line that is not plain
/// context, and never makes a view longer.
pub proof fn law_fold_keeps_changed_lines(s: Seq<ViewLineModel>, mode: FoldContextMode)
    ensures
        changed_lines(fold_context_spec(s, mode)) == changed_lines(s),
        fold_context_spec(s, mode).len() <= s.len(),
{
    if mode != FoldContextMode::Off {
        lemma_fold_lines(s, mode == FoldContextMode::Counts);
    }
}

// ---------------------------------------------------------------------------
// The review comment editor.
// ---------------------------------------------------------------------------

/// Backspace right after typing a character removes it and puts the cursor
/// back where it was.
pub proof fn law_backspace_undoes_insert(t: Seq<char>, cursor: nat, ch: char)
    requires
        is_boundary(t, cursor),
        utf8_len(t) + 4 <= usize::MAX,
    ensures
        ({
            let t1 = insert_at(t, char_index(t, cursor), ch);
            let c1 = cursor + utf8_width(ch);
            let ci1 = char_index(t1, c1);
            &&& c1 > 0
            &&& remove_range(t1, ci1 - 1, ci1) == t
            &&& byte_at(t1, ci1 - 1) == cursor
        }),
{
    lemma_cursor_facts(t, cursor);
    let ci = char_index(t, cursor);
    let t1 = insert_at(t, ci, ch);
    let c1 = cursor + utf8_width(ch);
    assert(t1.take(ci) =~= t.take(ci));
    assert(t1.take(ci + 1) =~= t.take(ci).push(ch));
    assert(t1.take(ci + 1).drop_last() =~= t.take(ci));
    assert(byte_at(t1, ci + 1) == c1);
    assert(byte_at(t1, ci) == cursor);
    lemma_boundary_at(t1, ci + 1);
    lemma_utf8_concat(t.take(ci).push(ch), t.skip(ci));
    lemma_utf8_concat(t.take(ci), t.skip(ci));
    assert(t.take(ci) + t.skip(ci) =~= t);
    assert(t1 =~= t.take(ci).push(ch) + t.skip(ci));
    lemma_char_index(t1, c1);
    if c1 < utf8_len(t1) {
        assert(char_index(t1, c1) == ci + 1);
    } else {
        assert(t1.take(t1.len() as int) =~= t1);
        if ci + 1 < t1.len() {
            lemma_byte_at_increasing(t1, ci + 1, t1.len() as int);
        }
        assert(char_index(t1, c1) == t1.len());
        assert(ci + 1 == t1.len());
    }
    assert(remove_range(t1, ci, ci + 1) =~= t);
}

/// At a cursor past the start, moving left and deleting removes the same
/// character as backspace, and both leave the cursor in the same place.
pub proof fn law_left_then_delete_is_backspace(t: Seq<char>, cursor: nat)
    requires
        is_boundary(t, cursor),
        cursor > 0,
    ensures
        ({
            let ci = char_index(t, cursor);
            let left = byte_at(t, ci - 1);
            &&& ci > 0
            &&& left < utf8_len(t)
            &&& char_index(t, left) == ci - 1
            &&& remove_range(t, char_index(t, left), char_index(t, left) + 1) == remove_range(t, ci - 1, ci)
        }),
{
    lemma_cursor_facts(t, cursor);
    let ci = char_index(t, cursor);
    if ci == 0 {
        assert(t.take(0) =~= Seq::<char>::empty());
    }
    let left = byte_at(t, ci - 1);
    lemma_byte_at_increasing(t, ci - 1, ci);
    lemma_boundary_at(t, ci - 1);
    lemma_char_index(t, left);
}

/// The anchor keys of the comments are all different.
pub open spec fn unique_keys(cs: Seq<CommentModel>) -> bool {
    forall|i: int, j: int| 0 <= i < j < cs.len() ==> cs[i].anchor.anchor_key != cs[j].anchor.anchor_key
}

/// Saving a comment that is not blank leaves a comment on its anchor with
/// the saved body; saving keeps the anchor keys unique.
pub proof fn law_save_keeps_the_comment(
    cs: Seq<CommentModel>,
    anchor: ReviewAnchorModel,
    text: Seq<char>,
    next_id: u64,
    now: u64,
)
    requires
        unique_keys(cs),
        trim(saved_body(text)).len() > 0,
    ensures
        ({
            let r = save_spec(cs, anchor, text, next_id, now).0;
            &&& unique_keys(r)
            &&& key_position(r, anchor.anchor_key) matches Some(i) && r[i].body == saved_body(text)
                && r[i].anchor == anchor
        }),
{
    lemma_key_position(cs, anchor.anchor_key);
    let r = save_spec(cs, anchor, text, next_id, now).0;
    lemma_key_position(r, anchor.anchor_key);
    match key_position(cs, anchor.anchor_key) {
        Some(i) => {
            assert(r[i].anchor.anchor_key == anchor.anchor_key);
        },
        None => {
            assert(r[cs.len() as int].anchor.anchor_key == anchor.anchor_key);
        },
    }
}

/// Saving a blank comment leaves no comment on its anchor, when the anchor
/// keys were unique; they stay unique.
pub proof fn law_save_blank_removes_the_comment(
    cs: Seq<CommentModel>,
    anchor: ReviewAnchorModel,
    text: Seq<char>,
    next_id: u64,
    now: u64,
)
    requires
        unique_keys(cs),
        trim(saved_body(text)).len() == 0,
    ensures
        ({
            let r = save_spec(cs, anchor, text, next_id, now);
            &&& unique_keys(r.0)
            &&& key_position(r.0, anchor.anchor_key) is None
            &&& r.1 == next_id
        }),
{
    lemma_key_position(cs, anchor.anchor_key);
    let r = save_spec(cs, anchor, text, next_id, now).0;
    lemma_key_position(r, anchor.anchor_key);
    match key_position(cs, anchor.anchor_key) {
        Some(i) => {
            assert forall|j: int| 0 <= j < r.len() implies r[j].anchor.anchor_key != anchor.anchor_key by {
                if j < i {
                    assert(r[j] == cs[j]);
                } else {
                    assert(r[j] == cs[j + 1]);
                }
            }
        },
        None => {},
    }
}

// ---------------------------------------------------------------------------
// Diff statuses and navigators of freshly loaded files.
// ---------------------------------------------------------------------------

/// The status a freshly loaded or read-again file has: disabled for a
/// binary file; for a file larger than the diff limit, deferred when
/// background diffs are on and disabled otherwise; else ready.
pub open spec fn fresh_status(m: MultiFileDiffModel, i: int) -> DiffStatus {
    if m.files[i].binary {
        DiffStatus::Disabled
    } else if file_is_large_spec(m, i) {
        if m.settings.defer {
            DiffStatus::Deferred
        } else {
            DiffStatus::Disabled
        }
    } else {
        DiffStatus::Ready
    }
}

/// Every constructor leaves each file as a loaded file; such a file has the
/// fresh status, and an index past the files reads as ready.
pub proof fn law_loaded_file_status(
    m: MultiFileDiffModel,
    i: int,
    path: Seq<char>,
    old_path: Option<Seq<char>>,
    old_source: Option<Seq<char>>,
    new_source: Option<Seq<char>>,
    status: FileStatus,
    old: (Seq<char>, bool),
    new: (Seq<char>, bool),
)
    requires
        m.wf(),
        0 <= i < m.files.len(),
        m.holds_file(i, loaded_file_spec(path, old_path, old_source, new_source, status, old, new, m.settings)),
    ensures
        m.status_at(i) == fresh_status(m, i),
        forall|j: int| j >= m.files.len() ==> #[trigger] m.status_at(j) == DiffStatus::Ready,
        !m.placeholders[i],
{
}

/// A file read again has the fresh status and no placeholder navigator.
pub proof fn law_refreshed_file_status(
    m: MultiFileDiffModel,
    idx: int,
    old: Option<LoadedContent>,
    new: Option<LoadedContent>,
)
    requires
        m.wf(),
        0 <= idx < m.files.len(),
        refresh_sources_spec(m, idx) is Some,
    ensures
        ({
            let r = refresh_spec(m, idx, old, new);
            &&& r.status_at(idx) == fresh_status(r, idx)
            &&& !r.placeholders[idx]
        }),
{
}

/// A pair no larger than the smaller of the full-context limit and the diff
/// limit keeps every line of its diff; a larger pair keeps only the lines
/// near its changes.
pub proof fn law_full_context_limit(old: Seq<char>, new: Seq<char>, settings: DiffSettings)
    ensures
        max_len(old, new) <= settings.full_context_max_bytes && max_len(old, new) <= settings.diff_max_bytes
            ==> diff_strings_spec(old, new, settings) == full_diff_spec(old, new),
        (max_len(old, new) > settings.full_context_max_bytes || max_len(old, new) > settings.diff_max_bytes)
            ==> diff_strings_spec(old, new, settings) == trim_context_spec(full_diff_spec(old, new)),
{
}

} // verus!
