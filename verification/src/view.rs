//! The rendered-view and change model that the diff session and the view
//! metrics work on: view lines with their kinds and spans, and the changes of
//! a computed diff.

use vstd::prelude::*;

verus! {

/// Role of a rendered line in the diff view.
#[derive(Debug, Clone, Copy, PartialEq, Eq, Structural)]
pub enum LineKind {
    Context,
    Inserted,
    Deleted,
    Modified,
    PendingInsert,
    PendingDelete,
    PendingModify,
}

/// Role of a span of text within a rendered line.
#[derive(Debug, Clone, Copy, PartialEq, Eq, Structural)]
pub enum ViewSpanKind {
    Equal,
    Inserted,
    Deleted,
    Replaced,
}

/// A span of a rendered line.
#[derive(Debug)]
pub struct ViewSpan {
    pub text: String,
    pub kind: ViewSpanKind,
}

/// Mathematical content of a [`ViewSpan`].
pub struct ViewSpanModel {
    pub text: Seq<char>,
    pub kind: ViewSpanKind,
}

impl View for ViewSpan {
    type V = ViewSpanModel;

    open spec fn view(&self) -> ViewSpanModel {
        ViewSpanModel { text: self.text@, kind: self.kind }
    }
}

impl ViewSpan {
    /// A copy of this span.
    pub fn copy(&self) -> (r: Self)
        ensures
            r@ == self@,
    {
        ViewSpan { text: self.text.clone(), kind: self.kind }
    }
}

/// A rendered line of the diff view.
#[derive(Debug)]
pub struct ViewLine {
    pub content: String,
    pub spans: Vec<ViewSpan>,
    pub kind: LineKind,
    pub old_line: Option<usize>,
    pub new_line: Option<usize>,
    pub is_active: bool,
    pub is_active_change: bool,
    pub is_primary_active: bool,
    pub show_hunk_extent: bool,
    pub change_id: usize,
    pub hunk_index: Option<usize>,
    pub has_changes: bool,
}

/// Mathematical content of a [`ViewLine`].
pub struct ViewLineModel {
    pub content: Seq<char>,
    pub spans: Seq<ViewSpanModel>,
    pub kind: LineKind,
    pub old_line: Option<usize>,
    pub new_line: Option<usize>,
    pub is_active: bool,
    pub is_active_change: bool,
    pub is_primary_active: bool,
    pub show_hunk_extent: bool,
    pub change_id: usize,
    pub hunk_index: Option<usize>,
    pub has_changes: bool,
}

/// The views of a sequence of spans.
pub open spec fn spans_view(s: Seq<ViewSpan>) -> Seq<ViewSpanModel> {
    s.map_values(|sp: ViewSpan| sp@)
}

impl View for ViewLine {
    type V = ViewLineModel;

    open spec fn view(&self) -> ViewLineModel {
        ViewLineModel {
            content: self.content@,
            spans: spans_view(self.spans@),
            kind: self.kind,
            old_line: self.old_line,
            new_line: self.new_line,
            is_active: self.is_active,
            is_active_change: self.is_active_change,
            is_primary_active: self.is_primary_active,
            show_hunk_extent: self.show_hunk_extent,
            change_id: self.change_id,
            hunk_index: self.hunk_index,
            has_changes: self.has_changes,
        }
    }
}

/// The views of a sequence of lines.
pub open spec fn lines_view(s: Seq<ViewLine>) -> Seq<ViewLineModel> {
    s.map_values(|l: ViewLine| l@)
}

impl ViewLine {
    /// A copy of this line.
    pub fn copy(&self) -> (r: Self)
        ensures
            r@ == self@,
    {
        let mut spans: Vec<ViewSpan> = Vec::new();
        let mut i: usize = 0;
        while i < self.spans.len()
            invariant
                0 <= i <= self.spans.len(),
                spans_view(spans@) == spans_view(self.spans@).take(i as int),
            decreases self.spans.len() - i,
        {
            let sp = self.spans[i].copy();
            let ghost prev = spans@;
            spans.push(sp);
            assert(spans@ == prev.push(sp));
            assert(spans_view(spans@) =~= spans_view(prev).push(sp@));
            assert(spans_view(spans@) =~= spans_view(self.spans@).take(i + 1));
            i = i + 1;
        }
        assert(spans_view(self.spans@).take(self.spans.len() as int) =~= spans_view(self.spans@));
        ViewLine {
            content: self.content.clone(),
            spans,
            kind: self.kind,
            old_line: self.old_line,
            new_line: self.new_line,
            is_active: self.is_active,
            is_active_change: self.is_active_change,
            is_primary_active: self.is_primary_active,
            show_hunk_extent: self.show_hunk_extent,
            change_id: self.change_id,
            hunk_index: self.hunk_index,
            has_changes: self.has_changes,
        }
    }
}

/// Kind of an edit span within a change.
#[derive(Debug, Clone, Copy, PartialEq, Eq, Structural)]
pub enum ChangeKind {
    Equal,
    Delete,
    Insert,
    Replace,
}

/// A span of a change: text with its edit kind; a replacement also carries
/// its new text, and a span records the old and new line numbers it covers.
#[derive(Debug)]
pub struct ChangeSpan {
    pub kind: ChangeKind,
    pub text: String,
    pub new_text: Option<String>,
    pub old_line: Option<usize>,
    pub new_line: Option<usize>,
}

/// Mathematical content of a [`ChangeSpan`].
pub struct ChangeSpanModel {
    pub kind: ChangeKind,
    pub text: Seq<char>,
    pub new_text: Option<Seq<char>>,
    pub old_line: Option<usize>,
    pub new_line: Option<usize>,
}

impl View for ChangeSpan {
    type V = ChangeSpanModel;

    open spec fn view(&self) -> ChangeSpanModel {
        ChangeSpanModel {
            kind: self.kind,
            text: self.text@,
            new_text: match self.new_text {
                Some(t) => Some(t@),
                None => None,
            },
            old_line: self.old_line,
            new_line: self.new_line,
        }
    }
}

/// The views of a sequence of change spans.
pub open spec fn change_spans_view(s: Seq<ChangeSpan>) -> Seq<ChangeSpanModel> {
    s.map_values(|sp: ChangeSpan| sp@)
}

/// A change of a diff: an id and its spans.
#[derive(Debug)]
pub struct Change {
    pub id: usize,
    pub spans: Vec<ChangeSpan>,
}

/// A hunk: a group of changes.
#[derive(Debug)]
pub struct Hunk {
    pub id: usize,
    pub change_ids: Vec<usize>,
}

/// The result of diffing two texts.
#[derive(Debug)]
pub struct DiffResult {
    pub changes: Vec<Change>,
    pub significant_changes: Vec<usize>,
    pub hunks: Vec<Hunk>,
    pub insertions: usize,
    pub deletions: usize,
}

} // verus!
