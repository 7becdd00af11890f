//! Unified patches of a hunk or a change: the text copied when a hunk or a
//! change is yanked as a patch.

use vstd::prelude::*;
use crate::diff::{ChangeModel, DiffResultModel, changes_view};
use crate::git::FileStatus;
use crate::multi::FileEntry;
use crate::text::{chars_of, decimal, decimal_chars, string_from_chars};
use crate::view::{Change, ChangeKind, ChangeSpanModel, DiffResult, change_spans_view};
use crate::view_metrics::{
    ChangeTextKind, change_text, modified_only_text_for_change, old_text_for_change,
};

verus! {

// ---------------------------------------------------------------------------
// Lines of a hunk.
// ---------------------------------------------------------------------------

/// Some span of the change is an edit, not equal text.
pub open spec fn has_edits(spans: Seq<ChangeSpanModel>) -> bool {
    exists|i: int| 0 <= i < spans.len() && (#[trigger] spans[i]).kind != ChangeKind::Equal
}

/// Some span covers a line of the old text.
pub open spec fn touches_old(spans: Seq<ChangeSpanModel>) -> bool {
    exists|i: int| 0 <= i < spans.len() && (#[trigger] spans[i]).old_line is Some
}

/// Some span covers a line of the new text.
pub open spec fn touches_new(spans: Seq<ChangeSpanModel>) -> bool {
    exists|i: int| 0 <= i < spans.len() && (#[trigger] spans[i]).new_line is Some
}

/// The old line of the first span that has one.
pub open spec fn first_old_line(spans: Seq<ChangeSpanModel>) -> Option<usize>
    decreases spans.len(),
{
    if spans.len() == 0 {
        None
    } else {
        match first_old_line(spans.drop_last()) {
            Some(n) => Some(n),
            None => spans.last().old_line,
        }
    }
}

/// The new line of the first span that has one.
pub open spec fn first_new_line(spans: Seq<ChangeSpanModel>) -> Option<usize>
    decreases spans.len(),
{
    if spans.len() == 0 {
        None
    } else {
        match first_new_line(spans.drop_last()) {
            Some(n) => Some(n),
            None => spans.last().new_line,
        }
    }
}

/// The unified lines of a run of changes with the first old and new line
/// numbers met and the number of old and new lines: a change without edits
/// is a context line (` ` and its text), counted on each side it covers;
/// an edited change is a `-` line with its old text when it covers the old
/// side, then a `+` line with its new text when it covers the new side.
pub open spec fn hunk_lines_spec(changes: Seq<ChangeModel>) -> (
    Seq<Seq<char>>,
    Option<usize>,
    Option<usize>,
    nat,
    nat,
)
    decreases changes.len(),
{
    if changes.len() == 0 {
        (Seq::empty(), None, None, 0, 0)
    } else {
        let prev = hunk_lines_spec(changes.drop_last());
        let c = changes.last().spans;
        let old_start = match prev.1 {
            Some(n) => Some(n),
            None => first_old_line(c),
        };
        let new_start = match prev.2 {
            Some(n) => Some(n),
            None => first_new_line(c),
        };
        let has_old = touches_old(c);
        let has_new = touches_new(c);
        let old_text = change_text(c, ChangeTextKind::Old);
        let new_text = change_text(c, ChangeTextKind::Modified);
        let old_inc: nat = if has_old {
            1
        } else {
            0
        };
        let new_inc: nat = if has_new {
            1
        } else {
            0
        };
        if !has_edits(c) {
            (prev.0.push(seq![' '] + old_text), old_start, new_start, prev.3 + old_inc, prev.4 + new_inc)
        } else {
            let l1 = if has_old {
                prev.0.push(seq!['-'] + old_text)
            } else {
                prev.0
            };
            let l2 = if has_new {
                l1.push(seq!['+'] + new_text)
            } else {
                l1
            };
            (l2, old_start, new_start, prev.3 + old_inc, prev.4 + new_inc)
        }
    }
}

impl Change {
    /// Whether some span of the change is an edit.
    pub fn has_changes(&self) -> (r: bool)
        ensures
            r == has_edits(self@.spans),
    {
        let mut i: usize = 0;
        while i < self.spans.len()
            invariant
                0 <= i <= self.spans.len(),
                forall|j: int| 0 <= j < i ==> (#[trigger] self@.spans[j]).kind == ChangeKind::Equal,
            decreases self.spans.len() - i,
        {
            if self.spans[i].kind != ChangeKind::Equal {
                assert(self@.spans[i as int].kind != ChangeKind::Equal);
                return true;
            }
            i = i + 1;
        }
        false
    }
}

struct SpanFacts {
    has_old: bool,
    has_new: bool,
    first_old: Option<usize>,
    first_new: Option<usize>,
}

fn span_facts(change: &Change) -> (r: SpanFacts)
    ensures
        r.has_old == touches_old(change@.spans),
        r.has_new == touches_new(change@.spans),
        r.first_old == first_old_line(change@.spans),
        r.first_new == first_new_line(change@.spans),
{
    let ghost sv = change@.spans;
    let mut facts = SpanFacts { has_old: false, has_new: false, first_old: None, first_new: None };
    let mut i: usize = 0;
    while i < change.spans.len()
        invariant
            0 <= i <= change.spans.len(),
            sv == change@.spans,
            facts.has_old == touches_old(sv.take(i as int)),
            facts.has_new == touches_new(sv.take(i as int)),
            facts.first_old == first_old_line(sv.take(i as int)),
            facts.first_new == first_new_line(sv.take(i as int)),
        decreases change.spans.len() - i,
    {
        let ghost pre = sv.take(i as int);
        let ghost post = sv.take(i + 1);
        assert(post.drop_last() =~= pre);
        assert(post.last() == sv[i as int]);
        assert forall|j: int| 0 <= j < pre.len() implies pre[j] == #[trigger] post[j] by {}
        let span = &change.spans[i];
        if span.old_line.is_some() {
            facts.has_old = true;
            assert(post[i as int].old_line is Some);
        }
        if span.new_line.is_some() {
            facts.has_new = true;
            assert(post[i as int].new_line is Some);
        }
        if facts.first_old.is_none() {
            facts.first_old = span.old_line;
        }
        if facts.first_new.is_none() {
            facts.first_new = span.new_line;
        }
        i = i + 1;
    }
    assert(sv.take(change.spans.len() as int) =~= sv);
    facts
}

fn prefixed(c: char, text: &str) -> (r: String)
    ensures
        r@ == seq![c] + text@,
{
    let mut v: Vec<char> = Vec::new();
    v.push(c);
    let t = chars_of(text);
    let mut i: usize = 0;
    while i < t.len()
        invariant
            0 <= i <= t.len(),
            t@ == text@,
            v@ == seq![c] + t@.take(i as int),
        decreases t.len() - i,
    {
        v.push(t[i]);
        assert(t@.take(i + 1) =~= t@.take(i as int).push(t@[i as int]));
        i = i + 1;
    }
    assert(t@.take(t.len() as int) =~= t@);
    string_from_chars(v.as_slice())
}

/// The views of a sequence of strings.
pub open spec fn lines_view(s: Seq<String>) -> Seq<Seq<char>> {
    s.map_values(|x: String| x@)
}

/// The unified lines of a run of changes, with the first old and new line
/// numbers (0 when none) and the number of old and new lines.
pub fn build_unified_hunk_lines(changes: &[Change]) -> (r: (Vec<String>, usize, usize, usize, usize))
    ensures
        ({
            let s = hunk_lines_spec(changes_view(changes@));
            &&& lines_view(r.0@) == s.0
            &&& r.1 == match s.1 {
                Some(n) => n,
                None => 0,
            }
            &&& r.2 == match s.2 {
                Some(n) => n,
                None => 0,
            }
            &&& r.3 == s.3
            &&& r.4 == s.4
        }),
{
    let r = hunk_lines_in(changes, 0, changes.len());
    assert(changes_view(changes@).subrange(0, changes@.len() as int) =~= changes_view(changes@));
    r
}

fn hunk_lines_in(changes: &[Change], from: usize, to: usize) -> (r: (Vec<String>, usize, usize, usize, usize))
    requires
        from <= to <= changes.len(),
    ensures
        ({
            let s = hunk_lines_spec(changes_view(changes@).subrange(from as int, to as int));
            &&& lines_view(r.0@) == s.0
            &&& r.1 == match s.1 {
                Some(n) => n,
                None => 0,
            }
            &&& r.2 == match s.2 {
                Some(n) => n,
                None => 0,
            }
            &&& r.3 == s.3
            &&& r.4 == s.4
        }),
{
    let ghost cv = changes_view(changes@).subrange(from as int, to as int);
    let mut lines: Vec<String> = Vec::new();
    let mut old_start: Option<usize> = None;
    let mut new_start: Option<usize> = None;
    let mut old_count: usize = 0;
    let mut new_count: usize = 0;
    let mut i: usize = 0;
    while i < to - from
        invariant
            from <= to <= changes.len(),
            0 <= i <= to - from,
            cv == changes_view(changes@).subrange(from as int, to as int),
            old_count <= i,
            new_count <= i,
            ({
                let s = hunk_lines_spec(cv.take(i as int));
                &&& lines_view(lines@) == s.0
                &&& old_start == s.1
                &&& new_start == s.2
                &&& old_count == s.3
                &&& new_count == s.4
            }),
        decreases to - from - i,
    {
        assert(cv.take(i + 1).drop_last() =~= cv.take(i as int));
        assert(cv.take(i + 1).last() == changes@[from + i]@);
        let change = &changes[from + i];
        let facts = span_facts(change);
        if old_start.is_none() {
            old_start = facts.first_old;
        }
        if new_start.is_none() {
            new_start = facts.first_new;
        }
        let ghost before = lines@;
        if !change.has_changes() {
            let text = old_text_for_change(change);
            lines.push(prefixed(' ', text.as_str()));
            assert(lines_view(lines@) =~= lines_view(before).push(seq![' '] + text@));
            if facts.has_old {
                old_count = old_count + 1;
            }
            if facts.has_new {
                new_count = new_count + 1;
            }
        } else {
            if facts.has_old {
                let text = old_text_for_change(change);
                lines.push(prefixed('-', text.as_str()));
                assert(lines_view(lines@) =~= lines_view(before).push(seq!['-'] + text@));
                old_count = old_count + 1;
            }
            let ghost mid = lines@;
            if facts.has_new {
                let text = modified_only_text_for_change(change);
                lines.push(prefixed('+', text.as_str()));
                assert(lines_view(lines@) =~= lines_view(mid).push(seq!['+'] + text@));
                new_count = new_count + 1;
            }
        }
        i = i + 1;
    }
    assert(cv.take((to - from) as int) =~= cv);
    let os = match old_start {
        Some(n) => n,
        None => 0,
    };
    let ns = match new_start {
        Some(n) => n,
        None => 0,
    };
    (lines, os, ns, old_count, new_count)
}

// ---------------------------------------------------------------------------
// The patch text.
// ---------------------------------------------------------------------------

/// A path in a patch header: `prefix/path`, or `/dev/null` for a side that
/// does not exist.
pub open spec fn header_path(path: Option<Seq<char>>, prefix: Seq<char>) -> Seq<char> {
    match path {
        Some(p) => prefix + "/"@ + p,
        None => "/dev/null"@,
    }
}

/// The header paths of a patch: an added file has no old side, a deleted
/// file no new side; otherwise the old side is the original path of a
/// renamed file, or the path.
pub open spec fn patch_sides(status: FileStatus, path: Seq<char>, old_path: Option<Seq<char>>) -> (
    Option<Seq<char>>,
    Option<Seq<char>>,
) {
    match status {
        FileStatus::Added | FileStatus::Untracked => (None, Some(path)),
        FileStatus::Deleted => (Some(path), None),
        _ => (
            Some(
                match old_path {
                    Some(o) => o,
                    None => path,
                },
            ),
            Some(path),
        ),
    }
}

/// The header path text of one side.
pub fn patch_header_path(path: Option<&str>, prefix: &str) -> (r: String)
    ensures
        r@ == header_path(
            match path {
                Some(p) => Some(p@),
                None => None,
            },
            prefix@,
        ),
{
    match path {
        Some(p) => {
            let mut out = String::new();
            out.append(prefix);
            out.append("/");
            out.append(p);
            out
        },
        None => "/dev/null".to_owned(),
    }
}

/// The lines joined, each followed by a newline.
pub open spec fn joined_lines(lines: Seq<Seq<char>>) -> Seq<char>
    decreases lines.len(),
{
    if lines.len() == 0 {
        Seq::empty()
    } else {
        joined_lines(lines.drop_last()) + lines.last() + "\n"@
    }
}

/// `s` without its trailing newlines.
pub open spec fn trim_newlines(s: Seq<char>) -> Seq<char>
    decreases s.len(),
{
    if s.len() > 0 && s.last() == '\n' {
        trim_newlines(s.drop_last())
    } else {
        s
    }
}

/// The patch of a run of changes of a file: the `diff --git`, `---`, `+++`
/// and `@@` headers, then the unified lines, without trailing newlines.
pub open spec fn patch_text(
    status: FileStatus,
    path: Seq<char>,
    old_path: Option<Seq<char>>,
    run: Seq<ChangeModel>,
) -> Seq<char> {
    let h = hunk_lines_spec(run);
    let sides = patch_sides(status, path, old_path);
    let diff_old = match old_path {
        Some(o) => o,
        None => path,
    };
    let old_start: nat = match h.1 {
        Some(n) => n as nat,
        None => 0,
    };
    let new_start: nat = match h.2 {
        Some(n) => n as nat,
        None => 0,
    };
    trim_newlines(
        "diff --git a/"@ + diff_old + " b/"@ + path + "\n"@ + "--- "@ + header_path(sides.0, "a"@)
            + "\n"@ + "+++ "@ + header_path(sides.1, "b"@) + "\n"@ + "@@ -"@ + decimal(old_start)
            + ","@ + decimal(h.3) + " +"@ + decimal(new_start) + ","@ + decimal(h.4) + " @@\n"@
            + joined_lines(h.0),
    )
}

/// The position of the first change with id `id`.
pub open spec fn change_position(changes: Seq<ChangeModel>, id: usize) -> Option<int>
    decreases changes.len(),
{
    if changes.len() == 0 {
        None
    } else {
        match change_position(changes.drop_last(), id) {
            Some(p) => Some(p),
            None => if changes.last().id == id {
                Some(changes.len() - 1)
            } else {
                None
            },
        }
    }
}

/// The positions of the changes with the given ids, skipping ids that no
/// change has.
pub open spec fn change_positions(changes: Seq<ChangeModel>, ids: Seq<usize>) -> Seq<int>
    decreases ids.len(),
{
    if ids.len() == 0 {
        Seq::empty()
    } else {
        let rest = change_positions(changes, ids.drop_last());
        match change_position(changes, ids.last()) {
            Some(p) => rest.push(p),
            None => rest,
        }
    }
}

/// The smallest of a non-empty sequence.
pub open spec fn seq_min(s: Seq<int>) -> int
    decreases s.len(),
{
    if s.len() <= 1 {
        s[0]
    } else {
        let m = seq_min(s.drop_last());
        if s.last() < m {
            s.last()
        } else {
            m
        }
    }
}

/// The largest of a non-empty sequence.
pub open spec fn seq_max(s: Seq<int>) -> int
    decreases s.len(),
{
    if s.len() <= 1 {
        s[0]
    } else {
        let m = seq_max(s.drop_last());
        if s.last() > m {
            s.last()
        } else {
            m
        }
    }
}

/// The ids of the changes a patch covers: the given change, else those of
/// the current hunk (none when there is no such hunk).
pub open spec fn patch_change_ids(diff: DiffResultModel, current_hunk: usize, change_filter: Option<
    usize,
>) -> Option<Seq<usize>> {
    match change_filter {
        Some(id) => Some(seq![id]),
        None => if current_hunk < diff.hunks.len() {
            Some(diff.hunks[current_hunk as int].change_ids)
        } else {
            None
        },
    }
}

/// The patch of the current hunk, or of one change of it: none for a binary
/// file, for a hunk that does not exist or when no change has the ids;
/// otherwise the patch of the changes from the first to the last position
/// those ids have.
pub open spec fn patch_for_hunk_spec(
    file: crate::multi::FileEntryModel,
    diff: DiffResultModel,
    current_hunk: usize,
    change_filter: Option<usize>,
) -> Option<Seq<char>> {
    if file.binary {
        None
    } else {
        match patch_change_ids(diff, current_hunk, change_filter) {
            None => None,
            Some(ids) => {
                let ps = change_positions(diff.changes, ids);
                if ps.len() == 0 {
                    None
                } else {
                    Some(
                        patch_text(
                            file.status,
                            file.path,
                            file.old_path,
                            diff.changes.subrange(seq_min(ps), seq_max(ps) + 1),
                        ),
                    )
                }
            },
        }
    }
}

fn decimal_string(n: usize) -> (r: String)
    ensures
        r@ == decimal(n as nat),
{
    string_from_chars(decimal_chars(n).as_slice())
}

fn trim_trailing_newlines(text: String) -> (r: String)
    ensures
        r@ == trim_newlines(text@),
{
    let c = chars_of(text.as_str());
    let mut n: usize = c.len();
    assert(c@.take(n as int) =~= c@);
    while n > 0 && c[n - 1] == '\n'
        invariant
            n <= c.len(),
            c@ == text@,
            trim_newlines(text@) == trim_newlines(c@.take(n as int)),
        decreases n,
    {
        assert(c@.take(n as int).drop_last() =~= c@.take(n - 1));
        n = n - 1;
    }
    let kept = crate::text::slice_chars(c.as_slice(), 0, n);
    assert(kept@ =~= c@.take(n as int));
    string_from_chars(kept.as_slice())
}

fn position_of_change(changes: &[Change], id: usize) -> (r: Option<usize>)
    ensures
        match r {
            Some(p) => change_position(changes_view(changes@), id) == Some(p as int),
            None => change_position(changes_view(changes@), id) is None,
        },
{
    let ghost cv = changes_view(changes@);
    let mut i: usize = 0;
    assert(cv.take(0) =~= Seq::<ChangeModel>::empty());
    while i < changes.len()
        invariant
            0 <= i <= changes.len(),
            cv == changes_view(changes@),
            change_position(cv.take(i as int), id) is None,
        decreases changes.len() - i,
    {
        assert(cv.take(i + 1).drop_last() =~= cv.take(i as int));
        assert(cv.take(i + 1).last() == changes@[i as int]@);
        if changes[i].id == id {
            proof {
                lemma_change_position_prefix(cv, i + 1, id);
            }
            return Some(i);
        }
        i = i + 1;
    }
    assert(cv.take(changes.len() as int) =~= cv);
    None
}

proof fn lemma_change_position_prefix(cv: Seq<ChangeModel>, n: int, id: usize)
    requires
        0 < n <= cv.len(),
        change_position(cv.take(n - 1), id) is None,
        cv[n - 1].id == id,
    ensures
        change_position(cv, id) == Some(n - 1),
    decreases cv.len() - n,
{
    assert(cv.take(n).drop_last() =~= cv.take(n - 1));
    assert(change_position(cv.take(n), id) == Some(n - 1));
    if n < cv.len() {
        lemma_change_position_extend(cv, n, id);
    } else {
        assert(cv.take(n) =~= cv);
    }
}

proof fn lemma_change_position_extend(cv: Seq<ChangeModel>, n: int, id: usize)
    requires
        0 < n <= cv.len(),
        change_position(cv.take(n), id) is Some,
    ensures
        change_position(cv, id) == change_position(cv.take(n), id),
    decreases cv.len() - n,
{
    if n < cv.len() {
        assert(cv.take(n + 1).drop_last() =~= cv.take(n));
        lemma_change_position_extend(cv, n + 1, id);
    } else {
        assert(cv.take(n) =~= cv);
    }
}

/// The patch of the current hunk, or of one change of it (see
/// [`patch_for_hunk_spec`]).
pub fn patch_for_hunk(
    file: &FileEntry,
    diff: &DiffResult,
    current_hunk: usize,
    change_filter: Option<usize>,
) -> (r: Option<String>)
    ensures
        match r {
            Some(t) => patch_for_hunk_spec(file@, diff@, current_hunk, change_filter) == Some(t@),
            None => patch_for_hunk_spec(file@, diff@, current_hunk, change_filter) is None,
        },
{
    if file.binary {
        return None;
    }
    let ghost d = diff@;
    let mut ids: Vec<usize> = Vec::new();
    match change_filter {
        Some(id) => {
            ids.push(id);
        },
        None => {
            if current_hunk >= diff.hunks.len() {
                return None;
            }
            let hunk_ids = &diff.hunks[current_hunk].change_ids;
            let mut k: usize = 0;
            while k < hunk_ids.len()
                invariant
                    0 <= k <= hunk_ids.len(),
                    ids@ == hunk_ids@.take(k as int),
                decreases hunk_ids.len() - k,
            {
                ids.push(hunk_ids[k]);
                assert(hunk_ids@.take(k + 1) =~= hunk_ids@.take(k as int).push(hunk_ids@[k as int]));
                k = k + 1;
            }
            assert(hunk_ids@.take(hunk_ids.len() as int) =~= hunk_ids@);
            assert(d.hunks[current_hunk as int].change_ids == hunk_ids@);
        },
    }
    assert(patch_change_ids(d, current_hunk, change_filter) == Some(ids@));
    let ghost cv = d.changes;
    assert(cv == changes_view(diff.changes@));
    let mut positions: Vec<usize> = Vec::new();
    let mut k: usize = 0;
    assert(ids@.take(0) =~= Seq::<usize>::empty());
    while k < ids.len()
        invariant
            0 <= k <= ids.len(),
            cv == changes_view(diff.changes@),
            positions@.map_values(|p: usize| p as int) == change_positions(cv, ids@.take(k as int)),
            forall|j: int| 0 <= j < positions.len() ==> (#[trigger] positions@[j]) < diff.changes.len(),
        decreases ids.len() - k,
    {
        assert(ids@.take(k + 1).drop_last() =~= ids@.take(k as int));
        assert(ids@.take(k + 1).last() == ids@[k as int]);
        let ghost before = positions@;
        match position_of_change(diff.changes.as_slice(), ids[k]) {
            Some(p) => {
                proof {
                    lemma_position_bound(cv, ids@[k as int]);
                }
                positions.push(p);
                assert(positions@.map_values(|p: usize| p as int) =~= before.map_values(
                    |p: usize| p as int,
                ).push(p as int));
            },
            None => {},
        }
        k = k + 1;
    }
    assert(ids@.take(ids.len() as int) =~= ids@);
    let ghost ps = positions@.map_values(|p: usize| p as int);
    if positions.len() == 0 {
        return None;
    }
    let mut lo = positions[0];
    let mut hi = positions[0];
    let mut m: usize = 1;
    while m < positions.len()
        invariant
            1 <= m <= positions.len(),
            ps == positions@.map_values(|p: usize| p as int),
            lo as int == seq_min(ps.take(m as int)),
            hi as int == seq_max(ps.take(m as int)),
            lo <= hi,
            hi < diff.changes.len(),
            forall|j: int| 0 <= j < positions.len() ==> (#[trigger] positions@[j]) < diff.changes.len(),
        decreases positions.len() - m,
    {
        assert(ps.take(m + 1).drop_last() =~= ps.take(m as int));
        assert(ps.take(m + 1).last() == positions@[m as int] as int);
        if positions[m] < lo {
            lo = positions[m];
        }
        if positions[m] > hi {
            hi = positions[m];
        }
        m = m + 1;
    }
    assert(ps.take(positions.len() as int) =~= ps);
    let (lines, old_start, new_start, old_count, new_count) = hunk_lines_in(
        diff.changes.as_slice(),
        lo,
        hi + 1,
    );
    let ghost run = cv.subrange(lo as int, hi + 1);
    assert(changes_view(diff.changes@).subrange(lo as int, hi + 1) == run);
    let diff_old: &str = match &file.old_path {
        Some(o) => o.as_str(),
        None => file.path.as_str(),
    };
    let (old_side, new_side): (Option<&str>, Option<&str>) = match file.status {
        FileStatus::Added | FileStatus::Untracked => (None, Some(file.path.as_str())),
        FileStatus::Deleted => (Some(file.path.as_str()), None),
        _ => (Some(diff_old), Some(file.path.as_str())),
    };
    let mut out = String::new();
    out.append("diff --git a/");
    out.append(diff_old);
    out.append(" b/");
    out.append(file.path.as_str());
    out.append("\n");
    out.append("--- ");
    let oh = patch_header_path(old_side, "a");
    out.append(oh.as_str());
    out.append("\n");
    out.append("+++ ");
    let nh = patch_header_path(new_side, "b");
    out.append(nh.as_str());
    out.append("\n");
    out.append("@@ -");
    out.append(decimal_string(old_start).as_str());
    out.append(",");
    out.append(decimal_string(old_count).as_str());
    out.append(" +");
    out.append(decimal_string(new_start).as_str());
    out.append(",");
    out.append(decimal_string(new_count).as_str());
    out.append(" @@\n");
    let ghost head = out@;
    let ghost lv = lines_view(lines@);
    let mut j: usize = 0;
    assert(lv.take(0) =~= Seq::<Seq<char>>::empty());
    while j < lines.len()
        invariant
            0 <= j <= lines.len(),
            lv == lines_view(lines@),
            out@ == head + joined_lines(lv.take(j as int)),
        decreases lines.len() - j,
    {
        assert(lv.take(j + 1).drop_last() =~= lv.take(j as int));
        assert(lv.take(j + 1).last() == lines@[j as int]@);
        out.append(lines[j].as_str());
        out.append("\n");
        j = j + 1;
    }
    assert(lv.take(lines.len() as int) =~= lv);
    let r = trim_trailing_newlines(out);
    proof {
        let h = hunk_lines_spec(run);
        assert(lv == h.0);
        assert(patch_for_hunk_spec(file@, d, current_hunk, change_filter) == Some(
            patch_text(file@.status, file@.path, file@.old_path, run),
        ));
    }
    Some(r)
}

proof fn lemma_position_bound(cv: Seq<ChangeModel>, id: usize)
    ensures
        match change_position(cv, id) {
            Some(p) => 0 <= p < cv.len(),
            None => true,
        },
    decreases cv.len(),
{
    if cv.len() > 0 {
        lemma_position_bound(cv.drop_last(), id);
    }
}

proof fn lemma_trim_newlines_keeps_head(x: Seq<char>, y: Seq<char>)
    requires
        y.len() > 0,
        y[0] != '\n',
    ensures
        trim_newlines(x + y) == x + trim_newlines(y),
    decreases y.len(),
{
    if y.len() > 1 && y.last() == '\n' {
        assert((x + y).drop_last() =~= x + y.drop_last());
        lemma_trim_newlines_keeps_head(x, y.drop_last());
    } else {
        assert((x + y).last() == y.last());
    }
}

spec fn patch_head(status: FileStatus, path: Seq<char>, old_path: Option<Seq<char>>) -> Seq<char> {
    let sides = patch_sides(status, path, old_path);
    let diff_old = match old_path {
        Some(o) => o,
        None => path,
    };
    "diff --git a/"@ + diff_old + " b/"@ + path + "\n"@ + "--- "@ + header_path(sides.0, "a"@) + "\n"@ + "+++ "@
        + header_path(sides.1, "b"@) + "\n"@
}

spec fn patch_tail(run: Seq<ChangeModel>) -> Seq<char> {
    let h = hunk_lines_spec(run);
    let old_start: nat = match h.1 {
        Some(n) => n as nat,
        None => 0,
    };
    let new_start: nat = match h.2 {
        Some(n) => n as nat,
        None => 0,
    };
    "@@ -"@ + decimal(old_start) + ","@ + decimal(h.3) + " +"@ + decimal(new_start) + ","@ + decimal(h.4) + " @@\n"@
        + joined_lines(h.0)
}

#[verifier::rlimit(40)]
proof fn lemma_patch_text_split(status: FileStatus, path: Seq<char>, old_path: Option<Seq<char>>, run: Seq<ChangeModel>)
    ensures
        patch_text(status, path, old_path, run) == patch_head(status, path, old_path) + trim_newlines(patch_tail(run)),
{
    let head = patch_head(status, path, old_path);
    let tail = patch_tail(run);
    reveal_strlit("@@ -");
    assert(tail[0] == '@');
    lemma_trim_newlines_keeps_head(head, tail);
    let h = hunk_lines_spec(run);
    let sides = patch_sides(status, path, old_path);
    let diff_old = match old_path {
        Some(o) => o,
        None => path,
    };
    let old_start: nat = match h.1 {
        Some(n) => n as nat,
        None => 0,
    };
    let new_start: nat = match h.2 {
        Some(n) => n as nat,
        None => 0,
    };
    assert(head + tail =~= "diff --git a/"@ + diff_old + " b/"@ + path + "\n"@ + "--- "@ + header_path(sides.0, "a"@)
        + "\n"@ + "+++ "@ + header_path(sides.1, "b"@) + "\n"@ + "@@ -"@ + decimal(old_start) + ","@ + decimal(h.3)
        + " +"@ + decimal(new_start) + ","@ + decimal(h.4) + " @@\n"@ + joined_lines(h.0));
}

/// The `---` line of a patch of a file: none for a file that is added or
/// untracked, the path of a deleted file, else the original path `old`.
pub open spec fn minus_line(status: FileStatus, path: Seq<char>, old: Seq<char>) -> Seq<char> {
    if status == FileStatus::Added || status == FileStatus::Untracked {
        "--- /dev/null"@
    } else if status == FileStatus::Deleted {
        "--- a/"@ + path
    } else {
        "--- a/"@ + old
    }
}

/// The `+++` line of a patch of a file.
pub open spec fn plus_line(status: FileStatus, path: Seq<char>) -> Seq<char> {
    if status == FileStatus::Deleted {
        "+++ /dev/null"@
    } else {
        "+++ b/"@ + path
    }
}

proof fn lemma_patch_head(status: FileStatus, path: Seq<char>, old_path: Option<Seq<char>>)
    ensures
        ({
            let old = match old_path {
                Some(o) => o,
                None => path,
            };
            patch_head(status, path, old_path) == "diff --git a/"@ + old + " b/"@ + path + "\n"@ + minus_line(status, path, old)
                + "\n"@ + plus_line(status, path) + "\n"@
        }),
{
    let old = match old_path {
        Some(o) => o,
        None => path,
    };
    let sides = patch_sides(status, path, old_path);
    reveal_strlit("--- ");
    reveal_strlit("+++ ");
    reveal_strlit("--- /dev/null");
    reveal_strlit("+++ /dev/null");
    reveal_strlit("/dev/null");
    reveal_strlit("--- a/");
    reveal_strlit("+++ b/");
    reveal_strlit("a");
    reveal_strlit("b");
    reveal_strlit("/");
    if status == FileStatus::Added || status == FileStatus::Untracked {
        assert(sides.0 is None);
        assert("--- "@ + "/dev/null"@ =~= "--- /dev/null"@);
    } else {
        let o = if status == FileStatus::Deleted {
            path
        } else {
            old
        };
        assert(sides.0 == Some(o));
        assert("--- "@ + "a"@ + "/"@ =~= "--- a/"@);
        assert("--- "@ + ("a"@ + "/"@ + o) =~= ("--- "@ + "a"@ + "/"@) + o);
    }
    assert("--- "@ + header_path(sides.0, "a"@) =~= minus_line(status, path, old));
    if status == FileStatus::Deleted {
        assert(sides.1 is None);
        assert("+++ "@ + "/dev/null"@ =~= "+++ /dev/null"@);
    } else {
        assert(sides.1 == Some(path));
        assert("+++ "@ + "b"@ + "/"@ =~= "+++ b/"@);
        assert("+++ "@ + ("b"@ + "/"@ + path) =~= ("+++ "@ + "b"@ + "/"@) + path);
    }
    assert("+++ "@ + header_path(sides.1, "b"@) =~= plus_line(status, path));
    assert(patch_head(status, path, old_path) =~= "diff --git a/"@ + old + " b/"@ + path + "\n"@ + minus_line(status, path, old)
        + "\n"@ + plus_line(status, path) + "\n"@);
}

spec fn patch_old_name(file: crate::multi::FileEntryModel) -> Seq<char> {
    match file.old_path {
        Some(o) => o,
        None => file.path,
    }
}

spec fn patch_rest(diff: DiffResultModel, current_hunk: usize, change_filter: Option<usize>) -> Seq<char> {
    let ids = patch_change_ids(diff, current_hunk, change_filter)->0;
    let ps = change_positions(diff.changes, ids);
    trim_newlines(patch_tail(diff.changes.subrange(seq_min(ps), seq_max(ps) + 1)))
}

proof fn lemma_patch_lines(
    file: crate::multi::FileEntryModel,
    diff: DiffResultModel,
    current_hunk: usize,
    change_filter: Option<usize>,
    t: Seq<char>,
)
    requires
        patch_for_hunk_spec(file, diff, current_hunk, change_filter) == Some(t),
    ensures
        t == "diff --git a/"@ + patch_old_name(file) + " b/"@ + file.path + "\n"@ + minus_line(
            file.status,
            file.path,
            patch_old_name(file),
        ) + "\n"@ + plus_line(file.status, file.path) + "\n"@ + patch_rest(diff, current_hunk, change_filter),
{
    let ids = patch_change_ids(diff, current_hunk, change_filter)->0;
    let ps = change_positions(diff.changes, ids);
    let run = diff.changes.subrange(seq_min(ps), seq_max(ps) + 1);
    lemma_patch_text_split(file.status, file.path, file.old_path, run);
    lemma_patch_head(file.status, file.path, file.old_path);
}

/// The patch of a file that is added or untracked has no old side: its
/// header is `diff --git a/<path> b/<path>`, `--- /dev/null`,
/// `+++ b/<path>` (`<path>` the original path for a rename).
pub proof fn law_new_file_patch_has_no_old_side(
    file: crate::multi::FileEntryModel,
    diff: DiffResultModel,
    current_hunk: usize,
    change_filter: Option<usize>,
    t: Seq<char>,
)
    requires
        file.status == FileStatus::Added || file.status == FileStatus::Untracked,
        patch_for_hunk_spec(file, diff, current_hunk, change_filter) == Some(t),
    ensures
        ({
            let head = "diff --git a/"@ + (match file.old_path {
                Some(o) => o,
                None => file.path,
            }) + " b/"@ + file.path + "\n--- /dev/null\n+++ b/"@
                + file.path + "\n"@;
            head.len() <= t.len() && t.take(head.len() as int) == head
        }),
{
    lemma_patch_lines(file, diff, current_hunk, change_filter, t);
    let old = patch_old_name(file);
    let rest = patch_rest(diff, current_hunk, change_filter);
    reveal_strlit("\n");
    reveal_strlit("--- /dev/null");
    reveal_strlit("+++ b/");
    reveal_strlit("\n--- /dev/null\n+++ b/");
    let first = "diff --git a/"@ + old + " b/"@ + file.path;
    let head = first + "\n--- /dev/null\n+++ b/"@ + file.path + "\n"@;
    assert(t =~= head + rest);
    assert(t.take(head.len() as int) =~= head);
}

/// The patch of a deleted file has no new side: `--- a/<path>` and
/// `+++ /dev/null`.
pub proof fn law_deleted_file_patch_has_no_new_side(
    file: crate::multi::FileEntryModel,
    diff: DiffResultModel,
    current_hunk: usize,
    change_filter: Option<usize>,
    t: Seq<char>,
)
    requires
        file.status == FileStatus::Deleted,
        patch_for_hunk_spec(file, diff, current_hunk, change_filter) == Some(t),
    ensures
        ({
            let head = "diff --git a/"@ + (match file.old_path {
                Some(o) => o,
                None => file.path,
            }) + " b/"@ + file.path + "\n--- a/"@ + file.path
                + "\n+++ /dev/null\n"@;
            head.len() <= t.len() && t.take(head.len() as int) == head
        }),
{
    lemma_patch_lines(file, diff, current_hunk, change_filter, t);
    let old = patch_old_name(file);
    let rest = patch_rest(diff, current_hunk, change_filter);
    reveal_strlit("\n");
    reveal_strlit("--- a/");
    reveal_strlit("+++ /dev/null");
    reveal_strlit("\n--- a/");
    reveal_strlit("\n+++ /dev/null\n");
    let first = "diff --git a/"@ + old + " b/"@ + file.path;
    let head = first + "\n--- a/"@ + file.path + "\n+++ /dev/null\n"@;
    assert(t =~= head + rest);
    assert(t.take(head.len() as int) =~= head);
}

/// The patch of a file that exists on both sides names both: `--- a/<old>`
/// (`<old>` the original path of a rename, else the path) and
/// `+++ b/<path>`.
pub proof fn law_changed_file_patch_names_both_sides(
    file: crate::multi::FileEntryModel,
    diff: DiffResultModel,
    current_hunk: usize,
    change_filter: Option<usize>,
    t: Seq<char>,
)
    requires
        file.status != FileStatus::Added,
        file.status != FileStatus::Untracked,
        file.status != FileStatus::Deleted,
        patch_for_hunk_spec(file, diff, current_hunk, change_filter) == Some(t),
    ensures
        ({
            let old = (match file.old_path {
                Some(o) => o,
                None => file.path,
            });
            let head = "diff --git a/"@ + old + " b/"@ + file.path + "\n--- a/"@ + old + "\n+++ b/"@ + file.path + "\n"@;
            head.len() <= t.len() && t.take(head.len() as int) == head
        }),
{
    lemma_patch_lines(file, diff, current_hunk, change_filter, t);
    let old = patch_old_name(file);
    let rest = patch_rest(diff, current_hunk, change_filter);
    reveal_strlit("\n");
    reveal_strlit("--- a/");
    reveal_strlit("+++ b/");
    reveal_strlit("\n--- a/");
    reveal_strlit("\n+++ b/");
    let first = "diff --git a/"@ + old + " b/"@ + file.path;
    let head = first + "\n--- a/"@ + old + "\n+++ b/"@ + file.path + "\n"@;
    assert(t =~= head + rest);
    assert(t.take(head.len() as int) =~= head);
}


/// How many of the lines begin with `mark`.
pub open spec fn lines_marked(lines: Seq<Seq<char>>, mark: char) -> nat
    decreases lines.len(),
{
    if lines.len() == 0 {
        0
    } else {
        lines_marked(lines.drop_last(), mark) + if lines.last().len() > 0 && lines.last()[0] == mark {
            1nat
        } else {
            0nat
        }
    }
}

proof fn lemma_lines_marked_push(lines: Seq<Seq<char>>, x: Seq<char>, mark: char)
    ensures
        lines_marked(lines.push(x), mark) == lines_marked(lines, mark) + if x.len() > 0 && x[0] == mark {
            1nat
        } else {
            0nat
        },
{
    assert(lines.push(x).drop_last() =~= lines);
}

/// The counts of a unified hunk agree with its lines, as `@@ -a,n +b,m @@`
/// promises: when every unchanged change covers a line on both sides, the
/// old count is the number of `-` and context lines, and the new count the
/// number of `+` and context lines.
pub proof fn law_hunk_counts_match_lines(changes: Seq<ChangeModel>)
    requires
        forall|i: int|
            0 <= i < changes.len() && !has_edits((#[trigger] changes[i]).spans) ==> touches_old(changes[i].spans)
                && touches_new(changes[i].spans),
    ensures
        hunk_lines_spec(changes).3 == lines_marked(hunk_lines_spec(changes).0, '-') + lines_marked(
            hunk_lines_spec(changes).0,
            ' ',
        ),
        hunk_lines_spec(changes).4 == lines_marked(hunk_lines_spec(changes).0, '+') + lines_marked(
            hunk_lines_spec(changes).0,
            ' ',
        ),
    decreases changes.len(),
{
    if changes.len() > 0 {
        let d = changes.drop_last();
        assert forall|i: int|
            0 <= i < d.len() && !has_edits((#[trigger] d[i]).spans) implies touches_old(d[i].spans) && touches_new(
                d[i].spans,
            ) by {
            assert(d[i] == changes[i]);
        }
        law_hunk_counts_match_lines(d);
        let prev = hunk_lines_spec(d);
        let c = changes.last().spans;
        assert(changes[changes.len() - 1] == changes.last());
        let old_text = change_text(c, ChangeTextKind::Old);
        let new_text = change_text(c, ChangeTextKind::Modified);
        let ctx = seq![' '] + old_text;
        let minus = seq!['-'] + old_text;
        let plus = seq!['+'] + new_text;
        assert(ctx[0] == ' ' && minus[0] == '-' && plus[0] == '+');
        lemma_lines_marked_push(prev.0, ctx, '-');
        lemma_lines_marked_push(prev.0, ctx, '+');
        lemma_lines_marked_push(prev.0, ctx, ' ');
        lemma_lines_marked_push(prev.0, minus, '-');
        lemma_lines_marked_push(prev.0, minus, '+');
        lemma_lines_marked_push(prev.0, minus, ' ');
        let l1 = if touches_old(c) {
            prev.0.push(minus)
        } else {
            prev.0
        };
        lemma_lines_marked_push(l1, plus, '-');
        lemma_lines_marked_push(l1, plus, '+');
        lemma_lines_marked_push(l1, plus, ' ');
    }
}

} // verus!
