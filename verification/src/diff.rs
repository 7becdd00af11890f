//! Line diffs: the change list that a diff session steps through, the
//! placeholder diff of a text shown without changes, and the navigator that a
//! session keeps per file.

use vstd::prelude::*;
use crate::text::{chars_of, split_chars, split_on, chars_view, string_from_chars};
use crate::types::StepDirection;
use crate::view::{Change, ChangeKind, ChangeSpan, ChangeSpanModel, DiffResult, Hunk, change_spans_view};

verus! {

/// Mathematical content of a [`Change`].
pub struct ChangeModel {
    pub id: usize,
    pub spans: Seq<ChangeSpanModel>,
}

impl View for Change {
    type V = ChangeModel;

    open spec fn view(&self) -> ChangeModel {
        ChangeModel { id: self.id, spans: change_spans_view(self.spans@) }
    }
}

/// Mathematical content of a [`Hunk`].
pub struct HunkModel {
    pub id: usize,
    pub change_ids: Seq<usize>,
}

impl View for Hunk {
    type V = HunkModel;

    open spec fn view(&self) -> HunkModel {
        HunkModel { id: self.id, change_ids: self.change_ids@ }
    }
}

/// Mathematical content of a [`DiffResult`].
pub struct DiffResultModel {
    pub changes: Seq<ChangeModel>,
    pub significant_changes: Seq<usize>,
    pub hunks: Seq<HunkModel>,
    pub insertions: usize,
    pub deletions: usize,
}

/// The views of a sequence of changes.
pub open spec fn changes_view(s: Seq<Change>) -> Seq<ChangeModel> {
    s.map_values(|c: Change| c@)
}

/// The views of a sequence of hunks.
pub open spec fn hunks_view(s: Seq<Hunk>) -> Seq<HunkModel> {
    s.map_values(|h: Hunk| h@)
}

impl View for DiffResult {
    type V = DiffResultModel;

    open spec fn view(&self) -> DiffResultModel {
        DiffResultModel {
            changes: changes_view(self.changes@),
            significant_changes: self.significant_changes@,
            hunks: hunks_view(self.hunks@),
            insertions: self.insertions,
            deletions: self.deletions,
        }
    }
}

/// A change of one span covering one line.
pub open spec fn line_change(
    id: usize,
    kind: ChangeKind,
    text: Seq<char>,
    old_line: Option<usize>,
    new_line: Option<usize>,
) -> ChangeModel {
    ChangeModel {
        id,
        spans: seq![ChangeSpanModel { kind, text, new_text: None, old_line, new_line }],
    }
}

fn make_line_change(
    id: usize,
    kind: ChangeKind,
    text: &[char],
    old_line: Option<usize>,
    new_line: Option<usize>,
) -> (c: Change)
    ensures
        c@ == line_change(id, kind, text@, old_line, new_line),
{
    let mut spans: Vec<ChangeSpan> = Vec::new();
    spans.push(
        ChangeSpan { kind, text: string_from_chars(text), new_text: None, old_line, new_line },
    );
    let c = Change { id, spans };
    assert(c@.spans =~= line_change(id, kind, text@, old_line, new_line).spans);
    c
}

// ---------------------------------------------------------------------------
// Placeholder diff: every line unchanged.
// ---------------------------------------------------------------------------

/// The diff that shows `text` with every line unchanged: change `i` is line
/// `i + 1`, on both sides; nothing is inserted or deleted.
pub open spec fn context_only_spec(text: Seq<char>) -> DiffResultModel {
    let lines = split_on(text, '\n');
    DiffResultModel {
        changes: Seq::new(
            lines.len(),
            |i: int|
                line_change(
                    i as usize,
                    ChangeKind::Equal,
                    lines[i],
                    Some((i + 1) as usize),
                    Some((i + 1) as usize),
                ),
        ),
        significant_changes: Seq::empty(),
        hunks: Seq::empty(),
        insertions: 0,
        deletions: 0,
    }
}

/// The diff that shows `text` with every line unchanged.
pub fn context_only_diff(text: &str) -> (r: DiffResult)
    ensures
        r@ == context_only_spec(text@),
{
    let chars = chars_of(text);
    let lines = split_chars(chars.as_slice(), '\n');
    let ghost ls = split_on(text@, '\n');
    let mut changes: Vec<Change> = Vec::new();
    let mut i: usize = 0;
    while i < lines.len()
        invariant
            0 <= i <= lines.len(),
            chars_view(lines@) == ls,
            ls == split_on(text@, '\n'),
            changes_view(changes@) == context_only_spec(text@).changes.take(i as int),
        decreases lines.len() - i,
    {
        assert(ls[i as int] == lines@[i as int]@);
        let c = make_line_change(i, ChangeKind::Equal, lines[i].as_slice(), Some(i + 1), Some(i + 1));
        let ghost prev = changes@;
        changes.push(c);
        assert(changes_view(changes@) =~= changes_view(prev).push(c@));
        assert(context_only_spec(text@).changes[i as int] == c@);
        assert(changes_view(changes@) =~= context_only_spec(text@).changes.take(i + 1));
        i = i + 1;
    }
    assert(context_only_spec(text@).changes.take(lines.len() as int) =~= context_only_spec(
        text@,
    ).changes);
    let r = DiffResult {
        changes,
        significant_changes: Vec::new(),
        hunks: Vec::new(),
        insertions: 0,
        deletions: 0,
    };
    assert(r@.significant_changes =~= Seq::<usize>::empty());
    assert(r@.hunks =~= Seq::<HunkModel>::empty());
    r
}

// ---------------------------------------------------------------------------
// Line diff.
// ---------------------------------------------------------------------------

/// Number of equal lines at the start of both sequences.
pub open spec fn common_prefix(a: Seq<Seq<char>>, b: Seq<Seq<char>>) -> nat
    decreases a.len(),
{
    if a.len() > 0 && b.len() > 0 && a[0] == b[0] {
        1 + common_prefix(a.drop_first(), b.drop_first())
    } else {
        0
    }
}

/// Number of equal lines at the end of both sequences, at most `limit`.
pub open spec fn common_suffix(a: Seq<Seq<char>>, b: Seq<Seq<char>>, limit: nat) -> nat
    decreases a.len(),
{
    if limit > 0 && a.len() > 0 && b.len() > 0 && a.last() == b.last() {
        1 + common_suffix(a.drop_last(), b.drop_last(), (limit - 1) as nat)
    } else {
        0
    }
}

/// `min(x, y)`.
pub open spec fn min_nat(x: nat, y: nat) -> nat {
    if x <= y {
        x
    } else {
        y
    }
}

/// Length `p` of the kept prefix of a line diff of `a` and `b`.
pub open spec fn diff_prefix(a: Seq<Seq<char>>, b: Seq<Seq<char>>) -> nat {
    common_prefix(a, b)
}

/// Length `s` of the kept suffix (not overlapping the prefix).
pub open spec fn diff_suffix(a: Seq<Seq<char>>, b: Seq<Seq<char>>) -> nat {
    common_suffix(a, b, (min_nat(a.len(), b.len()) - common_prefix(a, b)) as nat)
}

/// How many places are left from `i` up to `e`.
pub open spec fn left(i: int, e: int) -> nat {
    if i < e {
        (e - i) as nat
    } else {
        0
    }
}

/// The length of a longest common subsequence of the lines `a[i..ea]` and
/// `b[j..eb]`.
pub open spec fn lcs_len(a: Seq<Seq<char>>, b: Seq<Seq<char>>, i: int, j: int, ea: int, eb: int) -> nat
    decreases left(i, ea) + left(j, eb),
{
    if i >= ea || j >= eb {
        0
    } else if a[i] == b[j] {
        1 + lcs_len(a, b, i + 1, j + 1, ea, eb)
    } else {
        let x = lcs_len(a, b, i + 1, j, ea, eb);
        let y = lcs_len(a, b, i, j + 1, ea, eb);
        if x >= y {
            x
        } else {
            y
        }
    }
}

/// The edits that take the lines `a[i..ea]` to `b[j..eb]` along a longest
/// common subsequence. An edit is its kind, the old line and the new line
/// where it stands (from zero). Equal lines are kept; otherwise the old line
/// is deleted when that keeps as long a common subsequence as inserting the
/// new line would, and the new line is inserted otherwise.
pub open spec fn lcs_edits(a: Seq<Seq<char>>, b: Seq<Seq<char>>, i: int, j: int, ea: int, eb: int) -> Seq<
    (ChangeKind, int, int),
>
    decreases left(i, ea) + left(j, eb),
{
    if i >= ea && j >= eb {
        Seq::empty()
    } else if i >= ea {
        seq![(ChangeKind::Insert, i, j)] + lcs_edits(a, b, i, j + 1, ea, eb)
    } else if j >= eb {
        seq![(ChangeKind::Delete, i, j)] + lcs_edits(a, b, i + 1, j, ea, eb)
    } else if a[i] == b[j] {
        seq![(ChangeKind::Equal, i, j)] + lcs_edits(a, b, i + 1, j + 1, ea, eb)
    } else if lcs_len(a, b, i + 1, j, ea, eb) >= lcs_len(a, b, i, j + 1, ea, eb) {
        seq![(ChangeKind::Delete, i, j)] + lcs_edits(a, b, i + 1, j, ea, eb)
    } else {
        seq![(ChangeKind::Insert, i, j)] + lcs_edits(a, b, i, j + 1, ea, eb)
    }
}

/// The edits that delete every line of `a[i..ea]` and then insert every line
/// of `b[j..eb]`.
pub open spec fn block_edits(i: int, j: int, ea: int, eb: int) -> Seq<(ChangeKind, int, int)> {
    Seq::new(left(i, ea), |t: int| (ChangeKind::Delete, i + t, j)) + Seq::new(
        left(j, eb),
        |t: int| (ChangeKind::Insert, ea, j + t),
    )
}

/// The most cells that the table of longest common subsequences may have;
/// a larger middle part is diffed as one block.
pub const MAX_DIFF_CELLS: usize = 4000000;

/// Whether the table for `dl` old and `il` new lines fits.
pub open spec fn table_fits(dl: int, il: int) -> bool {
    (dl + 1) * (il + 1) <= MAX_DIFF_CELLS
}

/// The edits of the line diff of `a` and `b`: the common prefix kept, the
/// middle part diffed along a longest common subsequence (as one block when
/// its table does not fit), and the common suffix kept.
pub open spec fn line_edits(a: Seq<Seq<char>>, b: Seq<Seq<char>>) -> Seq<(ChangeKind, int, int)> {
    let p = diff_prefix(a, b) as int;
    let s = diff_suffix(a, b) as int;
    let ea = a.len() - s;
    let eb = b.len() - s;
    Seq::new(p as nat, |t: int| (ChangeKind::Equal, t, t)) + (if table_fits(ea - p, eb - p) {
        lcs_edits(a, b, p, p, ea, eb)
    } else {
        block_edits(p, p, ea, eb)
    }) + Seq::new(s as nat, |t: int| (ChangeKind::Equal, ea + t, eb + t))
}

/// The change that edit `e` makes, numbered `k`: an unchanged or deleted old
/// line, or an inserted new line, with its line numbers (from one).
pub open spec fn edit_change(a: Seq<Seq<char>>, b: Seq<Seq<char>>, e: (ChangeKind, int, int), k: int) -> ChangeModel {
    match e.0 {
        ChangeKind::Delete => line_change(k as usize, ChangeKind::Delete, a[e.1], Some((e.1 + 1) as usize), None),
        ChangeKind::Insert => line_change(k as usize, ChangeKind::Insert, b[e.2], None, Some((e.2 + 1) as usize)),
        _ => line_change(
            k as usize,
            ChangeKind::Equal,
            a[e.1],
            Some((e.1 + 1) as usize),
            Some((e.2 + 1) as usize),
        ),
    }
}

/// The kinds of a list of edits.
pub open spec fn edit_kinds(es: Seq<(ChangeKind, int, int)>) -> Seq<ChangeKind> {
    es.map_values(|e: (ChangeKind, int, int)| e.0)
}

/// The positions of the changes that are not equal, in order.
pub open spec fn changed_positions(ks: Seq<ChangeKind>) -> Seq<usize>
    decreases ks.len(),
{
    if ks.len() == 0 {
        Seq::empty()
    } else if ks.last() != ChangeKind::Equal {
        changed_positions(ks.drop_last()).push((ks.len() - 1) as usize)
    } else {
        changed_positions(ks.drop_last())
    }
}

/// The maximal runs of consecutive changes that are not equal.
pub open spec fn change_runs(ks: Seq<ChangeKind>) -> Seq<Seq<usize>>
    decreases ks.len(),
{
    if ks.len() == 0 {
        Seq::empty()
    } else {
        let r = change_runs(ks.drop_last());
        let k = ks.len() - 1;
        if ks[k] == ChangeKind::Equal {
            r
        } else if k > 0 && ks[k - 1] != ChangeKind::Equal && r.len() > 0 {
            r.update(r.len() - 1, r.last().push(k as usize))
        } else {
            r.push(seq![k as usize])
        }
    }
}

/// The hunks made of runs of changes, numbered in order.
pub open spec fn runs_to_hunks(runs: Seq<Seq<usize>>) -> Seq<HunkModel> {
    Seq::new(runs.len(), |h: int| HunkModel { id: h as usize, change_ids: runs[h] })
}

/// How many of the kinds are `kind`.
pub open spec fn count_kind(ks: Seq<ChangeKind>, kind: ChangeKind) -> nat
    decreases ks.len(),
{
    if ks.len() == 0 {
        0
    } else {
        count_kind(ks.drop_last(), kind) + if ks.last() == kind {
            1nat
        } else {
            0nat
        }
    }
}

/// The line diff of old lines `a` and new lines `b`: the changes of its
/// edits (see [`line_edits`]), numbered in order; its significant changes are
/// those that are not equal, and each run of them with no equal line between
/// is a hunk.
pub open spec fn line_diff_spec(a: Seq<Seq<char>>, b: Seq<Seq<char>>) -> DiffResultModel {
    let es = line_edits(a, b);
    let ks = edit_kinds(es);
    DiffResultModel {
        changes: Seq::new(es.len(), |k: int| edit_change(a, b, es[k], k)),
        significant_changes: changed_positions(ks),
        hunks: runs_to_hunks(change_runs(ks)),
        insertions: count_kind(ks, ChangeKind::Insert) as usize,
        deletions: count_kind(ks, ChangeKind::Delete) as usize,
    }
}

proof fn lemma_common_prefix(a: Seq<Seq<char>>, b: Seq<Seq<char>>)
    ensures
        common_prefix(a, b) <= a.len(),
        common_prefix(a, b) <= b.len(),
        forall|j: int| 0 <= j < common_prefix(a, b) ==> a[j] == b[j],
    decreases a.len(),
{
    if a.len() > 0 && b.len() > 0 && a[0] == b[0] {
        lemma_common_prefix(a.drop_first(), b.drop_first());
        assert forall|j: int| 0 <= j < common_prefix(a, b) implies a[j] == b[j] by {
            if j > 0 {
                assert(a[j] == a.drop_first()[j - 1]);
                assert(b[j] == b.drop_first()[j - 1]);
            }
        }
    }
}

proof fn lemma_common_suffix(a: Seq<Seq<char>>, b: Seq<Seq<char>>, limit: nat)
    ensures
        common_suffix(a, b, limit) <= a.len(),
        common_suffix(a, b, limit) <= b.len(),
        common_suffix(a, b, limit) <= limit,
        forall|i: int|
            a.len() - common_suffix(a, b, limit) <= i < a.len() ==> #[trigger] a[i] == b[i - a.len()
                + b.len()],
    decreases a.len(),
{
    if limit > 0 && a.len() > 0 && b.len() > 0 && a.last() == b.last() {
        let a2 = a.drop_last();
        let b2 = b.drop_last();
        lemma_common_suffix(a2, b2, (limit - 1) as nat);
        assert forall|i: int|
            a.len() - common_suffix(a, b, limit) <= i < a.len() implies #[trigger] a[i] == b[i
                - a.len() + b.len()] by {
            if i < a.len() - 1 {
                assert(a[i] == a2[i]);
                assert(b[i - a.len() + b.len()] == b2[i - a2.len() + b2.len()]);
            }
        }
    }
}

fn prefix_len(a: &Vec<Vec<char>>, b: &Vec<Vec<char>>) -> (p: usize)
    ensures
        p == common_prefix(chars_view(a@), chars_view(b@)),
{
    let ghost av = chars_view(a@);
    let ghost bv = chars_view(b@);
    let mut i: usize = 0;
    assert(av.skip(0) =~= av);
    assert(bv.skip(0) =~= bv);
    while i < a.len() && i < b.len() && vec_eq(&a[i], &b[i])
        invariant
            0 <= i <= a.len(),
            i <= b.len(),
            av == chars_view(a@),
            bv == chars_view(b@),
            common_prefix(av, bv) == i + common_prefix(av.skip(i as int), bv.skip(i as int)),
        decreases a.len() - i,
    {
        assert(av.skip(i as int).drop_first() =~= av.skip(i + 1));
        assert(bv.skip(i as int).drop_first() =~= bv.skip(i + 1));
        assert(av.skip(i as int)[0] == a@[i as int]@);
        assert(bv.skip(i as int)[0] == b@[i as int]@);
        i = i + 1;
    }
    proof {
        if i < a.len() && i < b.len() {
            assert(av.skip(i as int)[0] == a@[i as int]@);
            assert(bv.skip(i as int)[0] == b@[i as int]@);
        }
    }
    i
}

fn suffix_len(a: &Vec<Vec<char>>, b: &Vec<Vec<char>>, limit: usize) -> (s: usize)
    ensures
        s == common_suffix(chars_view(a@), chars_view(b@), limit as nat),
{
    let ghost av = chars_view(a@);
    let ghost bv = chars_view(b@);
    let mut t: usize = 0;
    assert(av.take(a.len() as int) =~= av);
    assert(bv.take(b.len() as int) =~= bv);
    while t < limit && t < a.len() && t < b.len() && vec_eq(&a[a.len() - 1 - t], &b[b.len() - 1 - t])
        invariant
            0 <= t <= limit,
            t <= a.len(),
            t <= b.len(),
            av == chars_view(a@),
            bv == chars_view(b@),
            common_suffix(av, bv, limit as nat) == t + common_suffix(
                av.take(a.len() - t),
                bv.take(b.len() - t),
                (limit - t) as nat,
            ),
        decreases limit - t,
    {
        assert(av.take(a.len() - t).drop_last() =~= av.take(a.len() - t - 1));
        assert(bv.take(b.len() - t).drop_last() =~= bv.take(b.len() - t - 1));
        assert(av.take(a.len() - t).last() == a@[a.len() - 1 - t]@);
        assert(bv.take(b.len() - t).last() == b@[b.len() - 1 - t]@);
        t = t + 1;
    }
    proof {
        if t < limit && t < a.len() && t < b.len() {
            assert(av.take(a.len() - t).last() == a@[a.len() - 1 - t]@);
            assert(bv.take(b.len() - t).last() == b@[b.len() - 1 - t]@);
        }
    }
    t
}

fn vec_eq(x: &Vec<char>, y: &Vec<char>) -> (r: bool)
    ensures
        r == (x@ == y@),
{
    if x.len() != y.len() {
        return false;
    }
    let mut i: usize = 0;
    while i < x.len()
        invariant
            0 <= i <= x.len(),
            x.len() == y.len(),
            forall|j: int| 0 <= j < i ==> x@[j] == y@[j],
        decreases x.len() - i,
    {
        if x[i] != y[i] {
            return false;
        }
        i = i + 1;
    }
    assert(x@ =~= y@);
    true
}


/// The line diff of the lines of `old` and `new` (split at `\n`).
pub open spec fn diff_lines_spec(old: Seq<char>, new: Seq<char>) -> DiffResultModel {
    line_diff_spec(split_on(old, '\n'), split_on(new, '\n'))
}

/// The edits of a list of executable edits.
pub open spec fn edits_view(v: Seq<(ChangeKind, usize, usize)>) -> Seq<(ChangeKind, int, int)> {
    v.map_values(|e: (ChangeKind, usize, usize)| (e.0, e.1 as int, e.2 as int))
}

/// An edit stands at lines of both texts: an equal or deleted edit at an
/// old line, an equal or inserted edit at a new line.
pub open spec fn edit_in_range(e: (ChangeKind, int, int), na: int, nb: int) -> bool {
    &&& e.0 != ChangeKind::Replace
    &&& e.0 != ChangeKind::Insert ==> 0 <= e.1 < na
    &&& e.0 != ChangeKind::Delete ==> 0 <= e.2 < nb
}

proof fn lemma_lcs_bound(a: Seq<Seq<char>>, b: Seq<Seq<char>>, i: int, j: int, ea: int, eb: int)
    ensures
        lcs_len(a, b, i, j, ea, eb) <= left(i, ea),
    decreases left(i, ea) + left(j, eb),
{
    if i < ea && j < eb {
        lemma_lcs_bound(a, b, i + 1, j + 1, ea, eb);
        lemma_lcs_bound(a, b, i + 1, j, ea, eb);
        lemma_lcs_bound(a, b, i, j + 1, ea, eb);
    }
}

/// The table of [`lcs_len`] for the lines `a[p..ea]` and `b[p..eb]`: row
/// `r`, column `c` holds the length for `a[p + r..ea]` and `b[p + c..eb]`.
fn lcs_table(a: &Vec<Vec<char>>, b: &Vec<Vec<char>>, p: usize, ea: usize, eb: usize) -> (t: Vec<Vec<usize>>)
    requires
        p <= ea <= a.len(),
        p <= eb <= b.len(),
        a.len() < usize::MAX,
        b.len() < usize::MAX,
    ensures
        t@.len() == ea - p + 1,
        forall|r: int| 0 <= r <= ea - p ==> (#[trigger] t@[r])@.len() == eb - p + 1,
        forall|r: int, c: int|
            0 <= r <= ea - p && 0 <= c <= eb - p ==> #[trigger] t@[r]@[c] == lcs_len(
                chars_view(a@),
                chars_view(b@),
                p + r,
                p + c,
                ea as int,
                eb as int,
            ),
{
    let ghost av = chars_view(a@);
    let ghost bv = chars_view(b@);
    let rows = ea - p + 1;
    let cols = eb - p + 1;
    let mut table: Vec<Vec<usize>> = Vec::new();
    let mut k: usize = 0;
    while k < rows
        invariant
            k <= rows,
            table@.len() == k,
        decreases rows - k,
    {
        table.push(Vec::new());
        k = k + 1;
    }
    let mut r = rows;
    while r > 0
        invariant
            r <= rows,
            rows == ea - p + 1,
            cols == eb - p + 1,
            p <= ea <= a.len(),
            p <= eb <= b.len(),
            a.len() < usize::MAX,
        b.len() < usize::MAX,
            av == chars_view(a@),
            bv == chars_view(b@),
            table@.len() == rows,
            forall|rr: int| r <= rr < rows ==> (#[trigger] table@[rr])@.len() == cols,
            forall|rr: int, cc: int|
                r <= rr < rows && 0 <= cc < cols ==> #[trigger] table@[rr]@[cc] == lcs_len(
                    av,
                    bv,
                    p + rr,
                    p + cc,
                    ea as int,
                    eb as int,
                ),
        decreases r,
    {
        r = r - 1;
        let i = p + r;
        let mut row: Vec<usize> = Vec::new();
        let mut z: usize = 0;
        while z < cols
            invariant
                z <= cols,
                row@.len() == z,
            decreases cols - z,
        {
            row.push(0);
            z = z + 1;
        }
        let mut c = cols;
        while c > 0
            invariant
                c <= cols,
                r < rows,
                i == p + r,
                rows == ea - p + 1,
                cols == eb - p + 1,
                p <= ea <= a.len(),
                p <= eb <= b.len(),
                a.len() < usize::MAX,
        b.len() < usize::MAX,
                av == chars_view(a@),
                bv == chars_view(b@),
                row@.len() == cols,
                table@.len() == rows,
                forall|rr: int| r < rr < rows ==> (#[trigger] table@[rr])@.len() == cols,
                forall|rr: int, cc: int|
                    r < rr < rows && 0 <= cc < cols ==> #[trigger] table@[rr]@[cc] == lcs_len(
                        av,
                        bv,
                        p + rr,
                        p + cc,
                        ea as int,
                        eb as int,
                    ),
                forall|cc: int| c <= cc < cols ==> #[trigger] row@[cc] == lcs_len(av, bv, i as int, p + cc, ea as int, eb as int),
            decreases c,
        {
            c = c - 1;
            let j = p + c;
            let v: usize = if i >= ea || j >= eb {
                0
            } else if vec_eq(&a[i], &b[j]) {
                assert(av[i as int] == a@[i as int]@);
                assert(bv[j as int] == b@[j as int]@);
                proof {
                    lemma_lcs_bound(av, bv, (i + 1) as int, (j + 1) as int, ea as int, eb as int);
                }
                assert(table@[r + 1]@[c + 1] == lcs_len(av, bv, p + (r + 1), p + (c + 1), ea as int, eb as int));
                1 + table[r + 1][c + 1]
            } else {
                assert(av[i as int] == a@[i as int]@);
                assert(bv[j as int] == b@[j as int]@);
                assert(table@[r + 1]@[c as int] == lcs_len(av, bv, p + (r + 1), p + c, ea as int, eb as int));
                let x = table[r + 1][c];
                let y = row[c + 1];
                if x >= y {
                    x
                } else {
                    y
                }
            };
            row[c] = v;
        }
        table[r] = row;
    }
    table
}

/// Appends the edits of [`lcs_edits`] for the lines `a[p..ea]` and
/// `b[p..eb]`, read off their table.
fn lcs_trace(
    a: &Vec<Vec<char>>,
    b: &Vec<Vec<char>>,
    table: &Vec<Vec<usize>>,
    p: usize,
    ea: usize,
    eb: usize,
    edits: &mut Vec<(ChangeKind, usize, usize)>,
)
    requires
        p <= ea <= a.len(),
        p <= eb <= b.len(),
        a.len() < usize::MAX,
        b.len() < usize::MAX,
        table@.len() == ea - p + 1,
        forall|r: int| 0 <= r <= ea - p ==> (#[trigger] table@[r])@.len() == eb - p + 1,
        forall|r: int, c: int|
            0 <= r <= ea - p && 0 <= c <= eb - p ==> #[trigger] table@[r]@[c] == lcs_len(
                chars_view(a@),
                chars_view(b@),
                p + r,
                p + c,
                ea as int,
                eb as int,
            ),
    ensures
        edits_view(final(edits)@) == edits_view(old(edits)@) + lcs_edits(
            chars_view(a@),
            chars_view(b@),
            p as int,
            p as int,
            ea as int,
            eb as int,
        ),
{
    let ghost av = chars_view(a@);
    let ghost bv = chars_view(b@);
    let ghost start = edits_view(edits@);
    let mut i = p;
    let mut j = p;
    assert(start + lcs_edits(av, bv, p as int, p as int, ea as int, eb as int) =~= edits_view(edits@)
        + lcs_edits(av, bv, i as int, j as int, ea as int, eb as int));
    while i < ea || j < eb
        invariant
            p <= i <= ea,
            p <= j <= eb,
            p <= ea <= a.len(),
            p <= eb <= b.len(),
            av == chars_view(a@),
            bv == chars_view(b@),
            table@.len() == ea - p + 1,
            forall|r: int| 0 <= r <= ea - p ==> (#[trigger] table@[r])@.len() == eb - p + 1,
            forall|r: int, c: int|
                0 <= r <= ea - p && 0 <= c <= eb - p ==> #[trigger] table@[r]@[c] == lcs_len(
                    av,
                    bv,
                    p + r,
                    p + c,
                    ea as int,
                    eb as int,
                ),
            edits_view(edits@) + lcs_edits(av, bv, i as int, j as int, ea as int, eb as int) == start
                + lcs_edits(av, bv, p as int, p as int, ea as int, eb as int),
        decreases (ea - i) + (eb - j),
    {
        let ghost cur = edits_view(edits@);
        let ghost rest = lcs_edits(av, bv, i as int, j as int, ea as int, eb as int);
        let e: (ChangeKind, usize, usize) = if i >= ea {
            (ChangeKind::Insert, i, j)
        } else if j >= eb {
            (ChangeKind::Delete, i, j)
        } else if vec_eq(&a[i], &b[j]) {
            assert(av[i as int] == a@[i as int]@);
            assert(bv[j as int] == b@[j as int]@);
            (ChangeKind::Equal, i, j)
        } else {
            assert(av[i as int] == a@[i as int]@);
            assert(bv[j as int] == b@[j as int]@);
            assert(table@[i - p + 1]@[j - p] == lcs_len(av, bv, p + (i - p + 1), p + (j - p), ea as int, eb as int));
            assert(table@[i - p]@[j - p + 1] == lcs_len(av, bv, p + (i - p), p + (j - p + 1), ea as int, eb as int));
            if table[i - p + 1][j - p] >= table[i - p][j - p + 1] {
                (ChangeKind::Delete, i, j)
            } else {
                (ChangeKind::Insert, i, j)
            }
        };
        edits.push(e);
        let (ni, nj) = match e.0 {
            ChangeKind::Insert => (i, j + 1),
            ChangeKind::Delete => (i + 1, j),
            _ => (i + 1, j + 1),
        };
        proof {
            let ev = (e.0, e.1 as int, e.2 as int);
            assert(rest == seq![ev] + lcs_edits(av, bv, ni as int, nj as int, ea as int, eb as int));
            assert(edits_view(edits@) =~= cur.push(ev));
            assert(cur.push(ev) + lcs_edits(av, bv, ni as int, nj as int, ea as int, eb as int) =~= cur + rest);
        }
        i = ni;
        j = nj;
    }
    assert(lcs_edits(av, bv, i as int, j as int, ea as int, eb as int) =~= Seq::<(ChangeKind, int, int)>::empty());
    assert(edits_view(edits@) =~= edits_view(edits@) + lcs_edits(av, bv, i as int, j as int, ea as int, eb as int));
}

/// Appends the edits of [`block_edits`].
fn block_trace(p: usize, ea: usize, eb: usize, edits: &mut Vec<(ChangeKind, usize, usize)>)
    requires
        p <= ea,
        p <= eb,
    ensures
        edits_view(final(edits)@) == edits_view(old(edits)@) + block_edits(p as int, p as int, ea as int, eb as int),
{
    let ghost start = edits_view(edits@);
    let mut i = p;
    while i < ea
        invariant
            p <= i <= ea,
            edits_view(edits@) == start + Seq::new((i - p) as nat, |t: int| (ChangeKind::Delete, p + t, p as int)),
        decreases ea - i,
    {
        let ghost before = edits_view(edits@);
        edits.push((ChangeKind::Delete, i, p));
        assert(edits_view(edits@) =~= before.push((ChangeKind::Delete, i as int, p as int)));
        assert(edits_view(edits@) =~= start + Seq::new((i + 1 - p) as nat, |t: int| (ChangeKind::Delete, p + t, p as int)));
        i = i + 1;
    }
    let ghost mid = edits_view(edits@);
    let mut j = p;
    while j < eb
        invariant
            p <= j <= eb,
            edits_view(edits@) == mid + Seq::new((j - p) as nat, |t: int| (ChangeKind::Insert, ea as int, p + t)),
        decreases eb - j,
    {
        let ghost before = edits_view(edits@);
        edits.push((ChangeKind::Insert, ea, j));
        assert(edits_view(edits@) =~= before.push((ChangeKind::Insert, ea as int, j as int)));
        assert(edits_view(edits@) =~= mid + Seq::new((j + 1 - p) as nat, |t: int| (ChangeKind::Insert, ea as int, p + t)));
        j = j + 1;
    }
    assert(edits_view(edits@) =~= start + block_edits(p as int, p as int, ea as int, eb as int));
}

/// The diff whose changes are the edits `edits` of lines `a` to lines `b`
/// (see [`line_diff_spec`]).
fn diff_of_edits(a: &Vec<Vec<char>>, b: &Vec<Vec<char>>, edits: &Vec<(ChangeKind, usize, usize)>) -> (r: DiffResult)
    requires
        a@.len() < usize::MAX,
        b@.len() < usize::MAX,
        forall|k: int|
            0 <= k < edits@.len() ==> edit_in_range(#[trigger] edits_view(edits@)[k], a@.len() as int, b@.len() as int),
    ensures
        ({
            let es = edits_view(edits@);
            let ks = edit_kinds(es);
            r@ == DiffResultModel {
                changes: Seq::new(es.len(), |k: int| edit_change(chars_view(a@), chars_view(b@), es[k], k)),
                significant_changes: changed_positions(ks),
                hunks: runs_to_hunks(change_runs(ks)),
                insertions: count_kind(ks, ChangeKind::Insert) as usize,
                deletions: count_kind(ks, ChangeKind::Delete) as usize,
            }
        }),
{
    let ghost av = chars_view(a@);
    let ghost bv = chars_view(b@);
    let ghost es = edits_view(edits@);
    let ghost ks = edit_kinds(es);
    let mut changes: Vec<Change> = Vec::new();
    let mut sig: Vec<usize> = Vec::new();
    let mut hunks: Vec<Hunk> = Vec::new();
    let mut ins: usize = 0;
    let mut del: usize = 0;
    let mut prev_changed = false;
    let mut k: usize = 0;
    assert(ks.take(0) =~= Seq::<ChangeKind>::empty());
    assert(changes_view(changes@) =~= Seq::new(0nat, |q: int| edit_change(av, bv, es[q], q)));
    assert(hunks_view(hunks@) =~= runs_to_hunks(change_runs(ks.take(0))));
    assert(sig@ =~= changed_positions(ks.take(0)));
    while k < edits.len()
        invariant
            k <= edits@.len(),
            av == chars_view(a@),
            bv == chars_view(b@),
            es == edits_view(edits@),
            ks == edit_kinds(es),
            forall|q: int| 0 <= q < edits@.len() ==> edit_in_range(#[trigger] edits_view(edits@)[q], a@.len() as int, b@.len() as int),
            a@.len() < usize::MAX,
            b@.len() < usize::MAX,
            changes_view(changes@) == Seq::new(k as nat, |q: int| edit_change(av, bv, es[q], q)),
            sig@ == changed_positions(ks.take(k as int)),
            hunks_view(hunks@) == runs_to_hunks(change_runs(ks.take(k as int))),
            ins == count_kind(ks.take(k as int), ChangeKind::Insert),
            del == count_kind(ks.take(k as int), ChangeKind::Delete),
            ins <= k,
            del <= k,
            prev_changed == (k > 0 && ks[k - 1] != ChangeKind::Equal),
            prev_changed ==> hunks@.len() > 0,
        decreases edits@.len() - k,
    {
        let e = edits[k];
        let ghost ev = es[k as int];
        assert(ev == (e.0, e.1 as int, e.2 as int));
        assert(edit_in_range(es[k as int], a@.len() as int, b@.len() as int));
        assert(ks.take(k + 1).drop_last() =~= ks.take(k as int));
        assert(ks.take(k + 1).last() == e.0);
        let c = match e.0 {
            ChangeKind::Delete => {
                assert(av[e.1 as int] == a@[e.1 as int]@);
                make_line_change(k, ChangeKind::Delete, a[e.1].as_slice(), Some(e.1 + 1), None)
            },
            ChangeKind::Insert => {
                assert(bv[e.2 as int] == b@[e.2 as int]@);
                make_line_change(k, ChangeKind::Insert, b[e.2].as_slice(), None, Some(e.2 + 1))
            },
            _ => {
                assert(av[e.1 as int] == a@[e.1 as int]@);
                make_line_change(k, ChangeKind::Equal, a[e.1].as_slice(), Some(e.1 + 1), Some(e.2 + 1))
            },
        };
        assert(c@ == edit_change(av, bv, ev, k as int));
        let ghost prev = changes@;
        changes.push(c);
        assert(changes_view(changes@) =~= changes_view(prev).push(c@));
        assert(changes_view(changes@) =~= Seq::new((k + 1) as nat, |q: int| edit_change(av, bv, es[q], q)));
        let changed = !matches!(e.0, ChangeKind::Equal);
        match e.0 {
            ChangeKind::Insert => {
                ins = ins + 1;
            },
            ChangeKind::Delete => {
                del = del + 1;
            },
            _ => {},
        }
        if changed {
            sig.push(k);
            let ghost hv = hunks_view(hunks@);
            let ghost oldh = hunks@;
            let ghost runs = change_runs(ks.take(k as int));
            assert(hv == runs_to_hunks(runs));
            if prev_changed && hunks.len() > 0 {
                let last = hunks.pop().unwrap();
                let mut ids = last.change_ids;
                ids.push(k);
                hunks.push(Hunk { id: last.id, change_ids: ids });
                proof {
                    let upd = runs.update(runs.len() - 1, runs.last().push(k as usize));
                    assert(last == oldh[oldh.len() - 1]);
                    assert(hv[hv.len() - 1] == last@);
                    assert(last@.change_ids == runs.last());
                    assert(ids@ =~= runs.last().push(k as usize));
                    assert forall|h: int| 0 <= h < hunks@.len() implies #[trigger] hunks_view(hunks@)[h]
                        == runs_to_hunks(upd)[h] by {
                        if h < hunks@.len() - 1 {
                            assert(hunks@[h] == oldh[h]);
                            assert(hv[h] == oldh[h]@);
                        }
                    }
                    assert(hunks_view(hunks@) =~= runs_to_hunks(upd));
                }
            } else {
                let mut ids: Vec<usize> = Vec::new();
                ids.push(k);
                let id = hunks.len();
                hunks.push(Hunk { id, change_ids: ids });
                proof {
                    let upd = runs.push(seq![k as usize]);
                    assert(ids@ =~= seq![k as usize]);
                    assert(hv.len() == runs.len());
                    assert(hunks@.len() == oldh.len() + 1);
                    assert(hunks@[oldh.len() as int]@ == HunkModel { id: runs.len() as usize, change_ids: seq![k as usize] });
                    assert forall|h: int| 0 <= h < hunks@.len() implies #[trigger] hunks_view(hunks@)[h]
                        == runs_to_hunks(upd)[h] by {
                        if h < hunks@.len() - 1 {
                            assert(hunks@[h] == oldh[h]);
                            assert(hv[h] == oldh[h]@);
                        }
                    }
                    assert(hunks_view(hunks@) =~= runs_to_hunks(upd));
                }
            }
        } else {
            assert(hunks_view(hunks@) =~= runs_to_hunks(change_runs(ks.take(k + 1))));
        }
        prev_changed = changed;
        k = k + 1;
    }
    assert(ks.take(k as int) =~= ks);
    DiffResult { changes, significant_changes: sig, hunks, insertions: ins, deletions: del }
}

/// Diffs `old` and `new` line by line (see [`line_diff_spec`]).
pub fn diff_lines(old: &str, new: &str) -> (r: DiffResult)
    requires
        old@.len() + new@.len() + 2 <= usize::MAX,
    ensures
        r@ == diff_lines_spec(old@, new@),
{
    let oc = chars_of(old);
    let nc = chars_of(new);
    let a = split_chars(oc.as_slice(), '\n');
    let b = split_chars(nc.as_slice(), '\n');
    let ghost av = chars_view(a@);
    let ghost bv = chars_view(b@);
    proof {
        crate::text::lemma_split_on_len(old@, '\n');
        crate::text::lemma_split_on_len(new@, '\n');
    }
    assert(a.len() < usize::MAX && b.len() < usize::MAX);
    let p = prefix_len(&a, &b);
    proof {
        lemma_common_prefix(av, bv);
    }
    let limit = if a.len() <= b.len() {
        a.len() - p
    } else {
        b.len() - p
    };
    let s = suffix_len(&a, &b, limit);
    proof {
        lemma_common_suffix(av, bv, limit as nat);
    }
    assert(s == diff_suffix(av, bv));
    let ea = a.len() - s;
    let eb = b.len() - s;
    let mut edits: Vec<(ChangeKind, usize, usize)> = Vec::new();
    let mut t: usize = 0;
    while t < p
        invariant
            t <= p,
            edits_view(edits@) == Seq::new(t as nat, |u: int| (ChangeKind::Equal, u, u)),
        decreases p - t,
    {
        let ghost before = edits_view(edits@);
        edits.push((ChangeKind::Equal, t, t));
        assert(edits_view(edits@) =~= before.push((ChangeKind::Equal, t as int, t as int)));
        assert(edits_view(edits@) =~= Seq::new((t + 1) as nat, |u: int| (ChangeKind::Equal, u, u)));
        t = t + 1;
    }
    let ghost pre = edits_view(edits@);
    let fits = match (ea - p + 1).checked_mul(eb - p + 1) {
        Some(cells) => cells <= MAX_DIFF_CELLS,
        None => false,
    };
    assert(fits == table_fits(ea - p, eb - p)) by (nonlinear_arith)
        requires
            fits == (match ((ea - p + 1) as int * (eb - p + 1) as int <= usize::MAX) {
                true => (ea - p + 1) as int * (eb - p + 1) as int <= MAX_DIFF_CELLS,
                false => false,
            }),
    ;
    if fits {
        let table = lcs_table(&a, &b, p, ea, eb);
        lcs_trace(&a, &b, &table, p, ea, eb, &mut edits);
    } else {
        block_trace(p, ea, eb, &mut edits);
    }
    let ghost mid = edits_view(edits@);
    let mut t: usize = 0;
    while t < s
        invariant
            t <= s,
            ea + s == a.len(),
            eb + s == b.len(),
            edits_view(edits@) == mid + Seq::new(t as nat, |u: int| (ChangeKind::Equal, ea + u, eb + u)),
        decreases s - t,
    {
        let ghost before = edits_view(edits@);
        edits.push((ChangeKind::Equal, ea + t, eb + t));
        assert(edits_view(edits@) =~= before.push((ChangeKind::Equal, (ea + t) as int, (eb + t) as int)));
        assert(edits_view(edits@) =~= mid + Seq::new((t + 1) as nat, |u: int| (ChangeKind::Equal, ea + u, eb + u)));
        t = t + 1;
    }
    proof {
        assert(edits_view(edits@) == line_edits(av, bv));
        lemma_line_edits_in_range(av, bv);
    }
    diff_of_edits(&a, &b, &edits)
}

/// The next place that the first of the edits `lcs_edits(a, b, i, j, ..)`
/// moves to.
spec fn lcs_next(a: Seq<Seq<char>>, b: Seq<Seq<char>>, i: int, j: int, ea: int, eb: int) -> (int, int) {
    if i >= ea {
        (i, j + 1)
    } else if j >= eb {
        (i + 1, j)
    } else if a[i] == b[j] {
        (i + 1, j + 1)
    } else if lcs_len(a, b, i + 1, j, ea, eb) >= lcs_len(a, b, i, j + 1, ea, eb) {
        (i + 1, j)
    } else {
        (i, j + 1)
    }
}

proof fn lemma_lcs_edits_unfold(a: Seq<Seq<char>>, b: Seq<Seq<char>>, i: int, j: int, ea: int, eb: int)
    requires
        i < ea || j < eb,
    ensures
        ({
            let n = lcs_next(a, b, i, j, ea, eb);
            let e = lcs_edits(a, b, i, j, ea, eb);
            &&& e.len() > 0
            &&& e.drop_first() == lcs_edits(a, b, n.0, n.1, ea, eb)
            &&& e[0].1 == i && e[0].2 == j
            &&& e[0].0 == ChangeKind::Insert ==> n == (i, j + 1) && j < eb
            &&& e[0].0 == ChangeKind::Delete ==> n == (i + 1, j) && i < ea
            &&& e[0].0 == ChangeKind::Equal ==> n == (i + 1, j + 1) && i < ea && j < eb && a[i] == b[j]
            &&& e[0].0 != ChangeKind::Replace
            &&& left(n.0, ea) + left(n.1, eb) < left(i, ea) + left(j, eb)
        }),
{
    let n = lcs_next(a, b, i, j, ea, eb);
    let e = lcs_edits(a, b, i, j, ea, eb);
    assert(e.drop_first() =~= lcs_edits(a, b, n.0, n.1, ea, eb));
}

proof fn lemma_lcs_edits_in_range(
    a: Seq<Seq<char>>,
    b: Seq<Seq<char>>,
    i: int,
    j: int,
    ea: int,
    eb: int,
    na: int,
    nb: int,
)
    requires
        0 <= i <= ea <= na,
        0 <= j <= eb <= nb,
    ensures
        forall|k: int|
            0 <= k < lcs_edits(a, b, i, j, ea, eb).len() ==> edit_in_range(
                #[trigger] lcs_edits(a, b, i, j, ea, eb)[k],
                na,
                nb,
            ),
    decreases left(i, ea) + left(j, eb),
{
    if i < ea || j < eb {
        lemma_lcs_edits_unfold(a, b, i, j, ea, eb);
        let n = lcs_next(a, b, i, j, ea, eb);
        lemma_lcs_edits_in_range(a, b, n.0, n.1, ea, eb, na, nb);
        let e = lcs_edits(a, b, i, j, ea, eb);
        assert forall|k: int| 0 <= k < e.len() implies edit_in_range(#[trigger] e[k], na, nb) by {
            if k > 0 {
                assert(e[k] == e.drop_first()[k - 1]);
            }
        }
    }
}

proof fn lemma_line_edits_in_range(a: Seq<Seq<char>>, b: Seq<Seq<char>>)
    ensures
        forall|k: int|
            0 <= k < line_edits(a, b).len() ==> edit_in_range(
                #[trigger] line_edits(a, b)[k],
                a.len() as int,
                b.len() as int,
            ),
{
    lemma_common_prefix(a, b);
    lemma_common_suffix(a, b, (min_nat(a.len(), b.len()) - common_prefix(a, b)) as nat);
    let p = diff_prefix(a, b) as int;
    let s = diff_suffix(a, b) as int;
    let ea = a.len() - s;
    let eb = b.len() - s;
    let pre = Seq::new(p as nat, |t: int| (ChangeKind::Equal, t, t));
    let mid = if table_fits(ea - p, eb - p) {
        lcs_edits(a, b, p, p, ea, eb)
    } else {
        block_edits(p, p, ea, eb)
    };
    let suf = Seq::new(s as nat, |t: int| (ChangeKind::Equal, ea + t, eb + t));
    lemma_lcs_edits_in_range(a, b, p, p, ea, eb, a.len() as int, b.len() as int);
    let es = line_edits(a, b);
    assert(es == pre + mid + suf);
    assert forall|k: int| 0 <= k < es.len() implies edit_in_range(#[trigger] es[k], a.len() as int, b.len() as int) by {
        if k < p {
            assert(es[k] == pre[k]);
        } else if k < p + mid.len() {
            assert(es[k] == mid[k - p]);
        } else {
            assert(es[k] == suf[k - p - mid.len()]);
        }
    }
}

// ---------------------------------------------------------------------------
// What a diff shows of each side.
// ---------------------------------------------------------------------------

/// The old-side line that a change shows: the text of its first span, unless
/// that span is inserted.
pub open spec fn old_line_of(c: ChangeModel) -> Seq<Seq<char>> {
    if c.spans.len() > 0 && c.spans[0].kind != ChangeKind::Insert {
        seq![c.spans[0].text]
    } else {
        Seq::empty()
    }
}

/// The new-side line that a change shows: the text of its first span, unless
/// that span is deleted.
pub open spec fn new_line_of(c: ChangeModel) -> Seq<Seq<char>> {
    if c.spans.len() > 0 && c.spans[0].kind != ChangeKind::Delete {
        seq![c.spans[0].text]
    } else {
        Seq::empty()
    }
}

/// The old-side lines that a list of changes shows, in order.
pub open spec fn old_side(cs: Seq<ChangeModel>) -> Seq<Seq<char>>
    decreases cs.len(),
{
    if cs.len() == 0 {
        Seq::empty()
    } else {
        old_side(cs.drop_last()) + old_line_of(cs.last())
    }
}

/// The new-side lines that a list of changes shows, in order.
pub open spec fn new_side(cs: Seq<ChangeModel>) -> Seq<Seq<char>>
    decreases cs.len(),
{
    if cs.len() == 0 {
        Seq::empty()
    } else {
        new_side(cs.drop_last()) + new_line_of(cs.last())
    }
}


proof fn lemma_common_prefix_self(a: Seq<Seq<char>>)
    ensures
        common_prefix(a, a) == a.len(),
    decreases a.len(),
{
    if a.len() > 0 {
        lemma_common_prefix_self(a.drop_first());
    }
}

/// The old lines that a list of edits shows, in order.
pub open spec fn old_texts(a: Seq<Seq<char>>, es: Seq<(ChangeKind, int, int)>) -> Seq<Seq<char>>
    decreases es.len(),
{
    if es.len() == 0 {
        Seq::empty()
    } else if es.last().0 != ChangeKind::Insert {
        old_texts(a, es.drop_last()).push(a[es.last().1])
    } else {
        old_texts(a, es.drop_last())
    }
}

/// The text of the new line that an edit shows.
pub open spec fn new_text_of(a: Seq<Seq<char>>, b: Seq<Seq<char>>, e: (ChangeKind, int, int)) -> Seq<char> {
    if e.0 == ChangeKind::Insert {
        b[e.2]
    } else {
        a[e.1]
    }
}

/// The new lines that a list of edits shows, in order.
pub open spec fn new_texts(a: Seq<Seq<char>>, b: Seq<Seq<char>>, es: Seq<(ChangeKind, int, int)>) -> Seq<Seq<char>>
    decreases es.len(),
{
    if es.len() == 0 {
        Seq::empty()
    } else if es.last().0 != ChangeKind::Delete {
        new_texts(a, b, es.drop_last()).push(new_text_of(a, b, es.last()))
    } else {
        new_texts(a, b, es.drop_last())
    }
}

proof fn lemma_sides_of_edits(a: Seq<Seq<char>>, b: Seq<Seq<char>>, es: Seq<(ChangeKind, int, int)>, n: int)
    requires
        0 <= n <= es.len(),
    ensures
        old_side(Seq::new(es.len(), |k: int| edit_change(a, b, es[k], k)).take(n)) == old_texts(a, es.take(n)),
        new_side(Seq::new(es.len(), |k: int| edit_change(a, b, es[k], k)).take(n)) == new_texts(a, b, es.take(n)),
    decreases n,
{
    let cs = Seq::new(es.len(), |k: int| edit_change(a, b, es[k], k));
    if n == 0 {
        assert(cs.take(0) =~= Seq::<ChangeModel>::empty());
        assert(es.take(0) =~= Seq::<(ChangeKind, int, int)>::empty());
    } else {
        lemma_sides_of_edits(a, b, es, n - 1);
        assert(cs.take(n).drop_last() =~= cs.take(n - 1));
        assert(es.take(n).drop_last() =~= es.take(n - 1));
        assert(cs.take(n).last() == edit_change(a, b, es[n - 1], n - 1));
        assert(es.take(n).last() == es[n - 1]);
    }
}

proof fn lemma_old_texts_concat(a: Seq<Seq<char>>, x: Seq<(ChangeKind, int, int)>, y: Seq<(ChangeKind, int, int)>)
    ensures
        old_texts(a, x + y) == old_texts(a, x) + old_texts(a, y),
    decreases y.len(),
{
    if y.len() == 0 {
        assert(x + y =~= x);
    } else {
        lemma_old_texts_concat(a, x, y.drop_last());
        assert((x + y).drop_last() =~= x + y.drop_last());
    }
}

proof fn lemma_new_texts_concat(
    a: Seq<Seq<char>>,
    b: Seq<Seq<char>>,
    x: Seq<(ChangeKind, int, int)>,
    y: Seq<(ChangeKind, int, int)>,
)
    ensures
        new_texts(a, b, x + y) == new_texts(a, b, x) + new_texts(a, b, y),
    decreases y.len(),
{
    if y.len() == 0 {
        assert(x + y =~= x);
    } else {
        lemma_new_texts_concat(a, b, x, y.drop_last());
        assert((x + y).drop_last() =~= x + y.drop_last());
    }
}

/// Edits that each show the next old line from `lo` on show those lines.
proof fn lemma_old_run(a: Seq<Seq<char>>, es: Seq<(ChangeKind, int, int)>, lo: int)
    requires
        0 <= lo,
        lo + es.len() <= a.len(),
        forall|k: int| 0 <= k < es.len() ==> (#[trigger] es[k]).0 != ChangeKind::Insert && es[k].1 == lo + k,
    ensures
        old_texts(a, es) == a.subrange(lo, lo + es.len()),
    decreases es.len(),
{
    if es.len() > 0 {
        lemma_old_run(a, es.drop_last(), lo);
        assert(es.last() == es[es.len() - 1]);
        assert(a.subrange(lo, lo + es.len()) =~= a.subrange(lo, lo + es.len() - 1).push(a[lo + es.len() - 1]));
    } else {
        assert(a.subrange(lo, lo) =~= Seq::<Seq<char>>::empty());
    }
}

/// Inserting edits show no old line.
proof fn lemma_old_none(a: Seq<Seq<char>>, es: Seq<(ChangeKind, int, int)>)
    requires
        forall|k: int| 0 <= k < es.len() ==> (#[trigger] es[k]).0 == ChangeKind::Insert,
    ensures
        old_texts(a, es) == Seq::<Seq<char>>::empty(),
    decreases es.len(),
{
    if es.len() > 0 {
        lemma_old_none(a, es.drop_last());
        assert(es.last() == es[es.len() - 1]);
    }
}

/// Edits that each show the next new line from `lo` on show those lines.
proof fn lemma_new_run(a: Seq<Seq<char>>, b: Seq<Seq<char>>, es: Seq<(ChangeKind, int, int)>, lo: int)
    requires
        0 <= lo,
        lo + es.len() <= b.len(),
        forall|k: int|
            0 <= k < es.len() ==> (#[trigger] es[k]).0 != ChangeKind::Delete && new_text_of(a, b, es[k]) == b[lo + k],
    ensures
        new_texts(a, b, es) == b.subrange(lo, lo + es.len()),
    decreases es.len(),
{
    if es.len() > 0 {
        lemma_new_run(a, b, es.drop_last(), lo);
        assert(es.last() == es[es.len() - 1]);
        assert(b.subrange(lo, lo + es.len()) =~= b.subrange(lo, lo + es.len() - 1).push(b[lo + es.len() - 1]));
    } else {
        assert(b.subrange(lo, lo) =~= Seq::<Seq<char>>::empty());
    }
}

/// Deleting edits show no new line.
proof fn lemma_new_none(a: Seq<Seq<char>>, b: Seq<Seq<char>>, es: Seq<(ChangeKind, int, int)>)
    requires
        forall|k: int| 0 <= k < es.len() ==> (#[trigger] es[k]).0 == ChangeKind::Delete,
    ensures
        new_texts(a, b, es) == Seq::<Seq<char>>::empty(),
    decreases es.len(),
{
    if es.len() > 0 {
        lemma_new_none(a, b, es.drop_last());
        assert(es.last() == es[es.len() - 1]);
    }
}

/// The edits along a longest common subsequence show the old lines
/// `a[i..ea]` and the new lines `b[j..eb]`.
proof fn lemma_lcs_edits_sides(a: Seq<Seq<char>>, b: Seq<Seq<char>>, i: int, j: int, ea: int, eb: int)
    requires
        0 <= i <= ea <= a.len(),
        0 <= j <= eb <= b.len(),
    ensures
        old_texts(a, lcs_edits(a, b, i, j, ea, eb)) == a.subrange(i, ea),
        new_texts(a, b, lcs_edits(a, b, i, j, ea, eb)) == b.subrange(j, eb),
    decreases left(i, ea) + left(j, eb),
{
    let es = lcs_edits(a, b, i, j, ea, eb);
    if i >= ea && j >= eb {
        assert(a.subrange(i, ea) =~= Seq::<Seq<char>>::empty());
        assert(b.subrange(j, eb) =~= Seq::<Seq<char>>::empty());
    } else {
        lemma_lcs_edits_unfold(a, b, i, j, ea, eb);
        let n = lcs_next(a, b, i, j, ea, eb);
        lemma_lcs_edits_sides(a, b, n.0, n.1, ea, eb);
        let first = seq![es[0]];
        assert(es =~= first + es.drop_first());
        lemma_old_texts_concat(a, first, es.drop_first());
        lemma_new_texts_concat(a, b, first, es.drop_first());
        assert(first.drop_last() =~= Seq::<(ChangeKind, int, int)>::empty());
        assert(first.last() == es[0]);
        assert(old_texts(a, Seq::<(ChangeKind, int, int)>::empty()) == Seq::<Seq<char>>::empty());
        assert(new_texts(a, b, Seq::<(ChangeKind, int, int)>::empty()) == Seq::<Seq<char>>::empty());
        if es[0].0 == ChangeKind::Insert {
            assert(old_texts(a, first) =~= Seq::<Seq<char>>::empty());
            assert(new_texts(a, b, first) =~= seq![b[j]]);
            assert(b.subrange(j, eb) =~= seq![b[j]] + b.subrange(j + 1, eb));
        } else if es[0].0 == ChangeKind::Delete {
            assert(old_texts(a, first) =~= seq![a[i]]);
            assert(new_texts(a, b, first) =~= Seq::<Seq<char>>::empty());
            assert(a.subrange(i, ea) =~= seq![a[i]] + a.subrange(i + 1, ea));
        } else {
            assert(old_texts(a, first) =~= seq![a[i]]);
            assert(new_texts(a, b, first) =~= seq![b[j]]);
            assert(a.subrange(i, ea) =~= seq![a[i]] + a.subrange(i + 1, ea));
            assert(b.subrange(j, eb) =~= seq![b[j]] + b.subrange(j + 1, eb));
        }
    }
}

/// The edits of a block show the old lines `a[p..ea]` and the new lines
/// `b[p..eb]`.
proof fn lemma_block_edits_sides(a: Seq<Seq<char>>, b: Seq<Seq<char>>, p: int, ea: int, eb: int)
    requires
        0 <= p <= ea <= a.len(),
        0 <= p <= eb <= b.len(),
    ensures
        old_texts(a, block_edits(p, p, ea, eb)) == a.subrange(p, ea),
        new_texts(a, b, block_edits(p, p, ea, eb)) == b.subrange(p, eb),
{
    let dels = Seq::new(left(p, ea), |t: int| (ChangeKind::Delete, p + t, p));
    let inss = Seq::new(left(p, eb), |t: int| (ChangeKind::Insert, ea, p + t));
    assert(block_edits(p, p, ea, eb) == dels + inss);
    lemma_old_texts_concat(a, dels, inss);
    lemma_new_texts_concat(a, b, dels, inss);
    lemma_old_run(a, dels, p);
    lemma_old_none(a, inss);
    lemma_new_none(a, b, dels);
    lemma_new_run(a, b, inss, p);
    assert(a.subrange(p, ea) + Seq::<Seq<char>>::empty() =~= a.subrange(p, ea));
    assert(Seq::<Seq<char>>::empty() + b.subrange(p, eb) =~= b.subrange(p, eb));
}

/// A line diff shows, in order, exactly the old lines on its old side and
/// exactly the new lines on its new side.
#[verifier::spinoff_prover]
#[verifier::rlimit(50)]
pub proof fn law_line_diff_reconstructs(old: Seq<char>, new: Seq<char>)
    ensures
        old_side(diff_lines_spec(old, new).changes) == split_on(old, '\n'),
        new_side(diff_lines_spec(old, new).changes) == split_on(new, '\n'),
{
    let a = split_on(old, '\n');
    let b = split_on(new, '\n');
    lemma_common_prefix(a, b);
    lemma_common_suffix(a, b, (min_nat(a.len(), b.len()) - common_prefix(a, b)) as nat);
    let p = diff_prefix(a, b) as int;
    let s = diff_suffix(a, b) as int;
    let ea = a.len() - s;
    let eb = b.len() - s;
    let pre = Seq::new(p as nat, |t: int| (ChangeKind::Equal, t, t));
    let mid = if table_fits(ea - p, eb - p) {
        lcs_edits(a, b, p, p, ea, eb)
    } else {
        block_edits(p, p, ea, eb)
    };
    let suf = Seq::new(s as nat, |t: int| (ChangeKind::Equal, ea + t, eb + t));
    let es = line_edits(a, b);
    assert(es == pre + mid + suf);
    lemma_sides_of_edits(a, b, es, es.len() as int);
    let cs = Seq::new(es.len(), |k: int| edit_change(a, b, es[k], k));
    assert(cs.take(es.len() as int) =~= cs);
    assert(es.take(es.len() as int) =~= es);
    assert(diff_lines_spec(old, new).changes == cs);
    lemma_old_texts_concat(a, pre + mid, suf);
    lemma_old_texts_concat(a, pre, mid);
    lemma_new_texts_concat(a, b, pre + mid, suf);
    lemma_new_texts_concat(a, b, pre, mid);
    lemma_old_run(a, pre, 0);
    lemma_new_run(a, b, pre, 0);
    lemma_old_run(a, suf, ea);
    assert forall|k: int| 0 <= k < suf.len() implies (#[trigger] suf[k]).0 != ChangeKind::Delete && new_text_of(
        a,
        b,
        suf[k],
    ) == b[eb + k] by {
        assert(a[ea + k] == b[ea + k - a.len() + b.len()]);
    }
    lemma_new_run(a, b, suf, eb);
    if table_fits(ea - p, eb - p) {
        lemma_lcs_edits_sides(a, b, p, p, ea, eb);
    } else {
        lemma_block_edits_sides(a, b, p, ea, eb);
    }
    assert(a.subrange(0, p) + a.subrange(p, ea) + a.subrange(ea, ea + s) =~= a);
    assert(b.subrange(0, p) + b.subrange(p, eb) + b.subrange(eb, eb + s) =~= b);
}

/// Runs of changes: each made of consecutive changed positions, in order,
/// and two runs apart by at least one equal position.
pub open spec fn runs_ok(ks: Seq<ChangeKind>, runs: Seq<Seq<usize>>) -> bool {
    &&& forall|r: int| 0 <= r < runs.len() ==> (#[trigger] runs[r]).len() > 0
    &&& forall|r: int, t: int|
        0 <= r < runs.len() && 0 <= t < runs[r].len() ==> (#[trigger] runs[r][t]) < ks.len() && ks[runs[r][t] as int]
            != ChangeKind::Equal
    &&& forall|r: int, t: int|
        0 <= r < runs.len() && 0 < t < runs[r].len() ==> #[trigger] runs[r][t] == runs[r][t - 1] + 1
    &&& forall|r: int|
        0 < r < runs.len() ==> (#[trigger] runs[r])[0] > runs[r - 1].last() + 1
}

proof fn lemma_change_runs(ks: Seq<ChangeKind>)
    requires
        ks.len() <= usize::MAX,
    ensures
        runs_ok(ks, change_runs(ks)),
    decreases ks.len(),
{
    if ks.len() > 0 {
        let p = ks.drop_last();
        lemma_change_runs(p);
        let r = change_runs(p);
        let k = ks.len() - 1;
        assert forall|i: int| 0 <= i < p.len() implies #[trigger] p[i] == ks[i] by {}
        if ks[k] == ChangeKind::Equal {
            assert(change_runs(ks) == r);
            assert forall|q: int, t: int| 0 <= q < r.len() && 0 <= t < r[q].len() implies (#[trigger] r[q][t]) < ks.len()
                && ks[r[q][t] as int] != ChangeKind::Equal by {
                assert(p[r[q][t] as int] == ks[r[q][t] as int]);
            }
        } else if k > 0 && ks[k - 1] != ChangeKind::Equal && r.len() > 0 {
            let last = r.last();
            let n = r.update(r.len() - 1, last.push(k as usize));
            assert(change_runs(ks) == n);
            let lq = r.len() - 1;
            assert(r[lq] == last);
            assert(last.len() > 0);
            let lt = last.len() - 1;
            lemma_last_run_ends_at_last_change(p);
            assert(last[lt] == k - 1);
            assert forall|q: int, t: int| 0 <= q < n.len() && 0 <= t < n[q].len() implies (#[trigger] n[q][t]) < ks.len()
                && ks[n[q][t] as int] != ChangeKind::Equal by {
                if q < n.len() - 1 {
                    assert(n[q] == r[q]);
                    assert(p[r[q][t] as int] == ks[r[q][t] as int]);
                } else if t < last.len() {
                    assert(n[q][t] == last[t]);
                    assert(r[lq][t] == last[t]);
                    assert(p[last[t] as int] == ks[last[t] as int]);
                } else {
                    assert(n[q][t] == k);
                }
            }
            assert forall|q: int, t: int| 0 <= q < n.len() && 0 < t < n[q].len() implies #[trigger] n[q][t] == n[q][t
                - 1] + 1 by {
                if q < n.len() - 1 {
                    assert(n[q] == r[q]);
                } else if t < last.len() {
                    assert(n[q][t] == last[t]);
                    assert(n[q][t - 1] == last[t - 1]);
                    assert(r[lq][t] == last[t]);
                } else {
                    assert(n[q][t - 1] == last[lt]);
                }
            }
            assert forall|q: int| 0 < q < n.len() implies (#[trigger] n[q])[0] > n[q - 1].last() + 1 by {
                assert(n[q - 1] == r[q - 1]);
                if q < n.len() - 1 {
                    assert(n[q] == r[q]);
                } else {
                    assert(n[q][0] == last[0]);
                    assert(r[q][0] == last[0]);
                }
            }
        } else {
            let n = r.push(seq![k as usize]);
            assert(change_runs(ks) == n);
            assert forall|q: int, t: int| 0 <= q < n.len() && 0 <= t < n[q].len() implies (#[trigger] n[q][t]) < ks.len()
                && ks[n[q][t] as int] != ChangeKind::Equal by {
                if q < n.len() - 1 {
                    assert(n[q] == r[q]);
                    assert(p[r[q][t] as int] == ks[r[q][t] as int]);
                } else {
                    assert(n[q][t] == k);
                }
            }
            assert forall|q: int, t: int| 0 <= q < n.len() && 0 < t < n[q].len() implies #[trigger] n[q][t] == n[q][t
                - 1] + 1 by {
                assert(n[q] == r[q]);
            }
            assert forall|q: int| 0 < q < n.len() implies (#[trigger] n[q])[0] > n[q - 1].last() + 1 by {
                assert(n[q - 1] == r[q - 1]);
                if q < n.len() - 1 {
                    assert(n[q] == r[q]);
                } else {
                    let prev = r[q - 1];
                    assert(prev.len() > 0);
                    let x = prev[prev.len() - 1];
                    assert(x < p.len());
                    assert(p[x as int] != ChangeKind::Equal);
                    assert(n[q][0] == k);
                    if k > 0 {
                        assert(ks[k - 1] == p[k - 1]);
                    }
                }
            }
        }
    }
}

/// When the last kind is a change, the last run ends there.
proof fn lemma_last_run_ends_at_last_change(ks: Seq<ChangeKind>)
    requires
        ks.len() > 0,
        ks.len() <= usize::MAX,
        ks.last() != ChangeKind::Equal,
    ensures
        change_runs(ks).len() > 0,
        change_runs(ks).last().len() > 0,
        change_runs(ks).last().last() == ks.len() - 1,
{
    let p = ks.drop_last();
    let r = change_runs(p);
    let k = ks.len() - 1;
    if k > 0 && ks[k - 1] != ChangeKind::Equal && r.len() > 0 {
        let n = r.update(r.len() - 1, r.last().push(k as usize));
        assert(n.last() == r.last().push(k as usize));
    } else {
        let n = r.push(seq![k as usize]);
        assert(n.last() == seq![k as usize]);
    }
}

proof fn lemma_lcs_edits_len(a: Seq<Seq<char>>, b: Seq<Seq<char>>, i: int, j: int, ea: int, eb: int)
    ensures
        lcs_edits(a, b, i, j, ea, eb).len() <= left(i, ea) + left(j, eb),
    decreases left(i, ea) + left(j, eb),
{
    if i < ea || j < eb {
        lemma_lcs_edits_unfold(a, b, i, j, ea, eb);
        let n = lcs_next(a, b, i, j, ea, eb);
        lemma_lcs_edits_len(a, b, n.0, n.1, ea, eb);
    }
}

proof fn lemma_line_edits_len(a: Seq<Seq<char>>, b: Seq<Seq<char>>)
    ensures
        line_edits(a, b).len() <= a.len() + b.len(),
{
    lemma_common_prefix(a, b);
    lemma_common_suffix(a, b, (min_nat(a.len(), b.len()) - common_prefix(a, b)) as nat);
    let p = diff_prefix(a, b) as int;
    let s = diff_suffix(a, b) as int;
    lemma_lcs_edits_len(a, b, p, p, a.len() - s, b.len() - s);
}

/// The hunks of a line diff are its runs of changed lines: each hunk holds
/// consecutive changes that insert or delete a line, and two hunks are apart
/// by at least one unchanged line.
pub proof fn law_hunks_are_runs_of_changes(old: Seq<char>, new: Seq<char>)
    requires
        old.len() + new.len() + 2 <= usize::MAX,
    ensures
        ({
            let d = diff_lines_spec(old, new);
            let hs = d.hunks;
            &&& forall|h: int, t: int|
                0 <= h < hs.len() && 0 <= t < hs[h].change_ids.len() ==> (#[trigger] hs[h].change_ids[t]) < d.changes.len()
                    && d.changes[hs[h].change_ids[t] as int].spans[0].kind != ChangeKind::Equal
            &&& forall|h: int, t: int|
                0 <= h < hs.len() && 0 < t < hs[h].change_ids.len() ==> #[trigger] hs[h].change_ids[t]
                    == hs[h].change_ids[t - 1] + 1
            &&& forall|h: int|
                0 < h < hs.len() ==> (#[trigger] hs[h]).change_ids[0] > hs[h - 1].change_ids.last() + 1
        }),
{
    let a = split_on(old, '\n');
    let b = split_on(new, '\n');
    let es = line_edits(a, b);
    let ks = edit_kinds(es);
    lemma_line_edits_in_range(a, b);
    lemma_line_edits_len(a, b);
    crate::text::lemma_split_on_len(old, '\n');
    crate::text::lemma_split_on_len(new, '\n');
    assert(ks.len() == es.len());
    lemma_change_runs(ks);
    let d = diff_lines_spec(old, new);
    let runs = change_runs(ks);
    assert forall|h: int, t: int|
        0 <= h < d.hunks.len() && 0 <= t < d.hunks[h].change_ids.len() implies (#[trigger] d.hunks[h].change_ids[t])
            < d.changes.len() && d.changes[d.hunks[h].change_ids[t] as int].spans[0].kind != ChangeKind::Equal by {
        assert(d.hunks[h].change_ids == runs[h]);
        let c = runs[h][t] as int;
        assert(ks[c] == es[c].0);
        assert(edit_in_range(es[c], a.len() as int, b.len() as int));
        assert(d.changes[c] == edit_change(a, b, es[c], c));
    }
    assert forall|h: int, t: int|
        0 <= h < d.hunks.len() && 0 < t < d.hunks[h].change_ids.len() implies #[trigger] d.hunks[h].change_ids[t]
            == d.hunks[h].change_ids[t - 1] + 1 by {
        assert(d.hunks[h].change_ids == runs[h]);
    }
    assert forall|h: int| 0 < h < d.hunks.len() implies (#[trigger] d.hunks[h]).change_ids[0] > d.hunks[h
        - 1].change_ids.last() + 1 by {
        assert(d.hunks[h].change_ids == runs[h]);
        assert(d.hunks[h - 1].change_ids == runs[h - 1]);
    }
}

proof fn lemma_equal_kinds(ks: Seq<ChangeKind>)
    requires
        forall|k: int| 0 <= k < ks.len() ==> ks[k] == ChangeKind::Equal,
    ensures
        changed_positions(ks).len() == 0,
        change_runs(ks).len() == 0,
        count_kind(ks, ChangeKind::Insert) == 0,
        count_kind(ks, ChangeKind::Delete) == 0,
    decreases ks.len(),
{
    if ks.len() > 0 {
        lemma_equal_kinds(ks.drop_last());
    }
}

/// Diffing a text against itself finds nothing inserted or deleted, and no
/// hunk.
pub proof fn law_line_diff_of_equal_texts(text: Seq<char>)
    ensures
        diff_lines_spec(text, text).insertions == 0,
        diff_lines_spec(text, text).deletions == 0,
        diff_lines_spec(text, text).significant_changes.len() == 0,
        diff_lines_spec(text, text).hunks.len() == 0,
{
    let a = split_on(text, '\n');
    lemma_common_prefix_self(a);
    lemma_common_suffix(a, a, (min_nat(a.len(), a.len()) - common_prefix(a, a)) as nat);
    let n = a.len() as int;
    assert(lcs_edits(a, a, n, n, n, n) =~= Seq::<(ChangeKind, int, int)>::empty());
    assert(block_edits(n, n, n, n) =~= Seq::<(ChangeKind, int, int)>::empty());
    let es = line_edits(a, a);
    let ks = edit_kinds(es);
    assert forall|k: int| 0 <= k < ks.len() implies ks[k] == ChangeKind::Equal by {
        assert(ks[k] == es[k].0);
    }
    lemma_equal_kinds(ks);
}


/// Diffing a text against itself finds nothing inserted or deleted, and no
/// hunk.

proof fn lemma_context_only_prefix(text: Seq<char>, k: int)
    requires
        0 <= k <= split_on(text, '\n').len(),
    ensures
        old_side(context_only_spec(text).changes.take(k)) == split_on(text, '\n').take(k),
        new_side(context_only_spec(text).changes.take(k)) == split_on(text, '\n').take(k),
    decreases k,
{
    let ls = split_on(text, '\n');
    let cs = context_only_spec(text).changes;
    if k == 0 {
        assert(cs.take(0) =~= Seq::<ChangeModel>::empty());
        assert(ls.take(0) =~= Seq::<Seq<char>>::empty());
    } else {
        lemma_context_only_prefix(text, k - 1);
        assert(cs.take(k).drop_last() =~= cs.take(k - 1));
        assert(ls.take(k) =~= ls.take(k - 1) + seq![ls[k - 1]]);
    }
}

/// The placeholder diff of a text shows that text, line by line, on both
/// sides, and counts nothing inserted or deleted.
pub proof fn law_context_only_shows_text(text: Seq<char>)
    ensures
        old_side(context_only_spec(text).changes) == split_on(text, '\n'),
        new_side(context_only_spec(text).changes) == split_on(text, '\n'),
        context_only_spec(text).insertions == 0,
        context_only_spec(text).deletions == 0,
{
    let ls = split_on(text, '\n');
    let cs = context_only_spec(text).changes;
    lemma_context_only_prefix(text, ls.len() as int);
    assert(cs.take(ls.len() as int) =~= cs);
    assert(ls.take(ls.len() as int) =~= ls);
}

// ---------------------------------------------------------------------------
// Navigator.
// ---------------------------------------------------------------------------

/// The stepping state a session keeps for one file: its diff, the two texts,
/// whether line maps are built lazily, and the direction of the last step.
#[derive(Debug)]
pub struct DiffNavigator {
    diff: DiffResult,
    old: String,
    new: String,
    lazy_maps: bool,
    step_direction: StepDirection,
}

/// Mathematical content of a [`DiffNavigator`].
pub struct NavigatorModel {
    pub diff: DiffResultModel,
    pub old: Seq<char>,
    pub new: Seq<char>,
    pub lazy_maps: bool,
    pub step_direction: StepDirection,
}

impl View for DiffNavigator {
    type V = NavigatorModel;

    closed spec fn view(&self) -> NavigatorModel {
        NavigatorModel {
            diff: self.diff@,
            old: self.old@,
            new: self.new@,
            lazy_maps: self.lazy_maps,
            step_direction: self.step_direction,
        }
    }
}

impl DiffNavigator {
    /// A navigator at the start of `diff`, before any step.
    pub fn new(diff: DiffResult, old: String, new: String, lazy_maps: bool) -> (r: Self)
        ensures
            r@ == (NavigatorModel {
                diff: diff@,
                old: old@,
                new: new@,
                lazy_maps,
                step_direction: StepDirection::Stationary,
            }),
    {
        DiffNavigator { diff, old, new, lazy_maps, step_direction: StepDirection::Stationary }
    }

    /// The diff being navigated.
    pub fn diff(&self) -> (r: &DiffResult)
        ensures
            r@ == self@.diff,
    {
        &self.diff
    }

    /// Direction of the last step.
    pub fn step_direction(&self) -> (r: StepDirection)
        ensures
            r == self@.step_direction,
    {
        self.step_direction
    }

    /// Whether line maps are built lazily.
    pub fn lazy_maps(&self) -> (r: bool)
        ensures
            r == self@.lazy_maps,
    {
        self.lazy_maps
    }
}

/// Index of the first change of `cs` with id `id`.
pub open spec fn change_index_spec(cs: Seq<ChangeModel>, id: usize) -> Option<nat>
    decreases cs.len(),
{
    if cs.len() == 0 {
        None
    } else {
        match change_index_spec(cs.drop_last(), id) {
            Some(k) => Some(k),
            None => if cs.last().id == id {
                Some((cs.len() - 1) as nat)
            } else {
                None
            },
        }
    }
}

pub(crate) proof fn lemma_change_index(cs: Seq<ChangeModel>, id: usize)
    ensures
        change_index_spec(cs, id) matches Some(k) ==> k < cs.len() && cs[k as int].id == id,
        change_index_spec(cs, id) is None ==> forall|j: int| 0 <= j < cs.len() ==> #[trigger] cs[j].id != id,
        change_index_spec(cs, id) matches Some(k) ==> forall|j: int| 0 <= j < k ==> #[trigger] cs[j].id != id,
    decreases cs.len(),
{
    if cs.len() > 0 {
        lemma_change_index(cs.drop_last(), id);
        assert forall|j: int| 0 <= j < cs.len() - 1 implies #[trigger] cs[j] == cs.drop_last()[j] by {}
    }
}

/// The pairs (hunk id, change id) of a list of hunks, hunk by hunk.
pub open spec fn hunk_pairs(hunks: Seq<HunkModel>) -> Seq<(usize, usize)>
    decreases hunks.len(),
{
    if hunks.len() == 0 {
        Seq::empty()
    } else {
        hunk_pairs(hunks.drop_last()) + hunks.last().change_ids.map_values(|c: usize| (hunks.last().id, c))
    }
}

/// The hunk of each change after the pairs are applied in order: the change
/// that a pair's change id names (when there is one) gets the pair's hunk.
pub open spec fn assign_hunks(cs: Seq<ChangeModel>, pairs: Seq<(usize, usize)>) -> Seq<Option<usize>>
    decreases pairs.len(),
{
    if pairs.len() == 0 {
        Seq::new(cs.len(), |i: int| None::<usize>)
    } else {
        let prev = assign_hunks(cs, pairs.drop_last());
        let (h, c) = pairs.last();
        match change_index_spec(cs, c) {
            Some(k) => if k < prev.len() {
                prev.update(k as int, Some(h))
            } else {
                prev
            },
            None => prev,
        }
    }
}

proof fn lemma_assign_len(cs: Seq<ChangeModel>, pairs: Seq<(usize, usize)>)
    ensures
        assign_hunks(cs, pairs).len() == cs.len(),
    decreases pairs.len(),
{
    if pairs.len() > 0 {
        lemma_assign_len(cs, pairs.drop_last());
    }
}

impl DiffNavigator {
    /// The hunks of the diff.
    pub fn hunks(&self) -> (r: &Vec<Hunk>)
        ensures
            hunks_view(r@) == self@.diff.hunks,
    {
        &self.diff.hunks
    }

    /// Index of the change with id `id`, the first one when several share it.
    pub fn change_index_for(&self, id: usize) -> (r: Option<usize>)
        ensures
            match r {
                Some(k) => change_index_spec(self@.diff.changes, id) == Some(k as nat),
                None => change_index_spec(self@.diff.changes, id) is None,
            },
    {
        let ghost cs = self@.diff.changes;
        let mut i: usize = 0;
        assert(cs.take(0) =~= Seq::<ChangeModel>::empty());
        while i < self.diff.changes.len()
            invariant
                0 <= i <= self.diff.changes.len(),
                cs == changes_view(self.diff.changes@),
                change_index_spec(cs.take(i as int), id) is None,
            decreases self.diff.changes.len() - i,
        {
            assert(cs.take(i + 1).drop_last() =~= cs.take(i as int));
            assert(cs[i as int] == self.diff.changes@[i as int]@);
            if self.diff.changes[i].id == id {
                proof {
                    lemma_change_index_prefix(cs, id, i + 1);
                }
                return Some(i);
            }
            i = i + 1;
        }
        assert(cs.take(i as int) =~= cs);
        None
    }
}

/// A change index found in a prefix is the index in the whole list.
proof fn lemma_change_index_prefix(cs: Seq<ChangeModel>, id: usize, n: int)
    requires
        0 <= n <= cs.len(),
        change_index_spec(cs.take(n), id) is Some,
    ensures
        change_index_spec(cs, id) == change_index_spec(cs.take(n), id),
    decreases cs.len() - n,
{
    if n < cs.len() {
        assert(cs.take(n + 1).drop_last() =~= cs.take(n));
        lemma_change_index_prefix(cs, id, n + 1);
    } else {
        assert(cs.take(n) =~= cs);
    }
}

/// For each change of the navigator's diff, the hunk it belongs to: each
/// hunk, in order, claims the changes its change ids name, later hunks
/// winning.
pub fn build_hunk_change_index_map(nav: &DiffNavigator) -> (r: Vec<Option<usize>>)
    ensures
        r@ == assign_hunks(nav@.diff.changes, hunk_pairs(nav@.diff.hunks)),
{
    let ghost cs = nav@.diff.changes;
    let ghost hs = nav@.diff.hunks;
    let n = nav.diff().changes.len();
    let mut map: Vec<Option<usize>> = Vec::new();
    let mut z: usize = 0;
    while z < n
        invariant
            0 <= z <= n,
            n == cs.len(),
            map@ == Seq::new(z as nat, |i: int| None::<usize>),
        decreases n - z,
    {
        map.push(None);
        assert(map@ =~= Seq::new((z + 1) as nat, |i: int| None::<usize>));
        z = z + 1;
    }
    let hunks = nav.hunks();
    let mut h: usize = 0;
    assert(hs.take(0) =~= Seq::<HunkModel>::empty());
    assert(hunk_pairs(hs.take(0)) =~= Seq::<(usize, usize)>::empty());
    while h < hunks.len()
        invariant
            0 <= h <= hunks.len(),
            hunks_view(hunks@) == hs,
            n == cs.len(),
            cs == nav@.diff.changes,
            map@ == assign_hunks(cs, hunk_pairs(hs.take(h as int))),
        decreases hunks.len() - h,
    {
        let hunk = &hunks[h];
        assert(hs[h as int] == hunk@);
        let ghost base = hunk_pairs(hs.take(h as int));
        let ghost ids = hunk@.change_ids;
        let hid = hunk.id;
        let mut q: usize = 0;
        assert(base + ids.take(0).map_values(|c: usize| (hid, c)) =~= base);
        while q < hunk.change_ids.len()
            invariant
                0 <= q <= hunk.change_ids.len(),
                ids == hunk.change_ids@,
                hid == hunk.id,
                n == cs.len(),
                cs == nav@.diff.changes,
                map@ == assign_hunks(cs, base + ids.take(q as int).map_values(|c: usize| (hid, c))),
            decreases hunk.change_ids.len() - q,
        {
            let cid = hunk.change_ids[q];
            let ghost pre = base + ids.take(q as int).map_values(|c: usize| (hid, c));
            let ghost post = base + ids.take(q + 1).map_values(|c: usize| (hid, c));
            assert(post.drop_last() =~= pre);
            assert(post.last() == (hid, cid));
            proof {
                lemma_assign_len(cs, pre);
                lemma_change_index(cs, cid);
            }
            if let Some(idx) = nav.change_index_for(cid) {
                if idx < map.len() {
                    map.set(idx, Some(hid));
                }
            }
            q = q + 1;
        }
        assert(ids.take(ids.len() as int) =~= ids);
        assert(hs.take(h + 1).drop_last() =~= hs.take(h as int));
        assert(hs.take(h + 1).last() == hunk@);
        assert(hunk_pairs(hs.take(h + 1)) == base + ids.map_values(|c: usize| (hid, c)));
        h = h + 1;
    }
    assert(hs.take(hunks.len() as int) =~= hs);
    map
}

// ---------------------------------------------------------------------------
// Insertions still to come in the current hunk.
// ---------------------------------------------------------------------------

/// Every span of the change inserts text.
pub open spec fn insert_only(c: ChangeModel) -> bool {
    forall|k: int| 0 <= k < c.spans.len() ==> (#[trigger] c.spans[k]).kind == ChangeKind::Insert
}

/// The change with id `id`, the first one when several share it.
pub open spec fn change_by_id(cs: Seq<ChangeModel>, id: usize) -> Option<ChangeModel> {
    match change_index_spec(cs, id) {
        Some(k) => Some(cs[k as int]),
        None => None,
    }
}

/// The position of the first `id` in `ids`.
pub open spec fn id_position(ids: Seq<usize>, id: usize) -> Option<int>
    decreases ids.len(),
{
    if ids.len() == 0 {
        None
    } else {
        match id_position(ids.drop_last(), id) {
            Some(k) => Some(k),
            None => if ids.last() == id {
                Some(ids.len() - 1)
            } else {
                None
            },
        }
    }
}

/// Of the changes named by `ids`, in order and up to the first one that is
/// not insert-only, how many are not applied yet; ids that name no change
/// are passed over.
pub open spec fn pending_inserts(cs: Seq<ChangeModel>, ids: Seq<usize>, applied: Seq<usize>) -> nat
    decreases ids.len(),
{
    if ids.len() == 0 {
        0
    } else {
        match change_by_id(cs, ids[0]) {
            None => pending_inserts(cs, ids.drop_first(), applied),
            Some(c) => if !insert_only(c) {
                0
            } else {
                (if applied.contains(ids[0]) {
                    0nat
                } else {
                    1nat
                }) + pending_inserts(cs, ids.drop_first(), applied)
            },
        }
    }
}

/// How many insert-only changes wait after the cursor's change in the hunk:
/// none unless the cursor's change is in the hunk and is itself insert-only.
pub open spec fn pending_insert_only_spec(
    cs: Seq<ChangeModel>,
    hunk_ids: Seq<usize>,
    cursor_id: Option<usize>,
    applied: Seq<usize>,
) -> nat {
    match cursor_id {
        None => 0,
        Some(cur) => match id_position(hunk_ids, cur) {
            None => 0,
            Some(p) => match change_by_id(cs, cur) {
                None => 0,
                Some(c) => if insert_only(c) {
                    pending_inserts(cs, hunk_ids.skip(p + 1), applied)
                } else {
                    0
                },
            },
        },
    }
}

proof fn lemma_id_position(ids: Seq<usize>, id: usize)
    ensures
        id_position(ids, id) matches Some(k) ==> 0 <= k < ids.len() && ids[k] == id,
    decreases ids.len(),
{
    if ids.len() > 0 {
        lemma_id_position(ids.drop_last(), id);
    }
}

proof fn lemma_id_position_prefix(ids: Seq<usize>, id: usize, n: int)
    requires
        0 <= n <= ids.len(),
        id_position(ids.take(n), id) is Some,
    ensures
        id_position(ids, id) == id_position(ids.take(n), id),
    decreases ids.len() - n,
{
    if n < ids.len() {
        assert(ids.take(n + 1).drop_last() =~= ids.take(n));
        lemma_id_position_prefix(ids, id, n + 1);
    } else {
        assert(ids.take(n) =~= ids);
    }
}

proof fn lemma_pending_bound(cs: Seq<ChangeModel>, ids: Seq<usize>, applied: Seq<usize>)
    ensures
        pending_inserts(cs, ids, applied) <= ids.len(),
    decreases ids.len(),
{
    if ids.len() > 0 {
        lemma_pending_bound(cs, ids.drop_first(), applied);
    }
}

/// The first position of `id` in `ids` (see [`id_position`]).
pub(crate) fn position_of_id(ids: &[usize], id: usize) -> (r: Option<usize>)
    ensures
        match r {
            Some(k) => id_position(ids@, id) == Some(k as int),
            None => id_position(ids@, id) is None,
        },
{
    let mut i: usize = 0;
    assert(ids@.take(0) =~= Seq::<usize>::empty());
    while i < ids.len()
        invariant
            0 <= i <= ids.len(),
            id_position(ids@.take(i as int), id) is None,
        decreases ids.len() - i,
    {
        assert(ids@.take(i + 1).drop_last() =~= ids@.take(i as int));
        if ids[i] == id {
            proof {
                lemma_id_position_prefix(ids@, id, i + 1);
            }
            return Some(i);
        }
        i = i + 1;
    }
    assert(ids@.take(i as int) =~= ids@);
    None
}

fn is_insert_only(c: &Change) -> (r: bool)
    ensures
        r == insert_only(c@),
{
    let mut i: usize = 0;
    while i < c.spans.len()
        invariant
            0 <= i <= c.spans.len(),
            forall|k: int| 0 <= k < i ==> (#[trigger] c@.spans[k]).kind == ChangeKind::Insert,
        decreases c.spans.len() - i,
    {
        assert(c@.spans[i as int] == c.spans@[i as int]@);
        if !matches!(c.spans[i].kind, ChangeKind::Insert) {
            return false;
        }
        i = i + 1;
    }
    true
}

fn contains_id(ids: &[usize], id: usize) -> (r: bool)
    ensures
        r == ids@.contains(id),
{
    let mut i: usize = 0;
    while i < ids.len()
        invariant
            0 <= i <= ids.len(),
            forall|k: int| 0 <= k < i ==> ids@[k] != id,
        decreases ids.len() - i,
    {
        if ids[i] == id {
            assert(ids@[i as int] == id);
            return true;
        }
        i = i + 1;
    }
    false
}

/// How many insert-only changes of `hunk` wait after the cursor's change
/// and are not applied yet (see [`pending_insert_only_spec`]); none when
/// there is no current hunk.
pub fn pending_insert_only_in_current_hunk(
    nav: &DiffNavigator,
    hunk: Option<&Hunk>,
    cursor_id: Option<usize>,
    applied: &[usize],
) -> (r: usize)
    ensures
        r == match hunk {
            Some(h) => pending_insert_only_spec(nav@.diff.changes, h.change_ids@, cursor_id, applied@),
            None => 0,
        },
{
    let h = match hunk {
        Some(h) => h,
        None => return 0,
    };
    let cur = match cursor_id {
        Some(id) => id,
        None => return 0,
    };
    let ghost cs = nav@.diff.changes;
    let ghost ids = h.change_ids@;
    let pos = match position_of_id(h.change_ids.as_slice(), cur) {
        Some(p) => p,
        None => return 0,
    };
    proof {
        lemma_id_position(ids, cur);
        lemma_change_index(cs, cur);
    }
    let diff = nav.diff();
    let cursor_change = match nav.change_index_for(cur) {
        Some(k) => &diff.changes[k],
        None => return 0,
    };
    assert(cursor_change@ == cs[change_index_spec(cs, cur)->0 as int]);
    if !is_insert_only(cursor_change) {
        return 0;
    }
    assert(pos < h.change_ids.len());
    assert(change_by_id(cs, cur) == Some(cursor_change@));
    let ghost tail = ids.skip(pos + 1);
    assert(pending_insert_only_spec(cs, ids, cursor_id, applied@) == pending_inserts(cs, tail, applied@));
    let mut pending: usize = 0;
    let mut j: usize = pos + 1;
    while j < h.change_ids.len()
        invariant
            pos + 1 <= j <= h.change_ids.len(),
            ids == h.change_ids@,
            hunk == Some(h),
            pending_insert_only_spec(cs, ids, cursor_id, applied@) == pending_inserts(cs, tail, applied@),
            cs == nav@.diff.changes,
            cs == changes_view(diff.changes@),
            tail == ids.skip(pos + 1),
            pending <= j - (pos + 1),
            pending + pending_inserts(cs, ids.skip(j as int), applied@) == pending_inserts(cs, tail, applied@),
        decreases h.change_ids.len() - j,
    {
        let id = h.change_ids[j];
        assert(ids.skip(j as int).drop_first() =~= ids.skip(j + 1));
        assert(ids.skip(j as int)[0] == id);
        proof {
            lemma_change_index(cs, id);
        }
        match nav.change_index_for(id) {
            None => {
                assert(change_by_id(cs, id) is None);
            },
            Some(k) => {
                let change = &diff.changes[k];
                assert(change@ == cs[k as int]);
                assert(change_by_id(cs, id) == Some(change@));
                if !is_insert_only(change) {
                    assert(pending_inserts(cs, ids.skip(j as int), applied@) == 0);
                    proof {
                        lemma_pending_bound(cs, tail, applied@);
                    }
                    return pending;
                }
                if !contains_id(applied, id) {
                    pending = pending + 1;
                }
            },
        }
        j = j + 1;
    }
    assert(ids.skip(j as int) =~= Seq::<usize>::empty());
    pending
}

} // verus!

