//! What the viewer keeps for each file of a session: the scroll positions
//! of each file with and without stepping, and which files were visited;
//! all reset when the session starts or its file list is read again.

use vstd::prelude::*;

verus! {

/// The per-file state of the viewer, one entry per file in each list.
pub struct FileViews {
    pub scroll_offsets_step: Vec<usize>,
    pub scroll_offsets_no_step: Vec<usize>,
    pub horizontal_scrolls_step: Vec<usize>,
    pub horizontal_scrolls_no_step: Vec<usize>,
    pub files_visited: Vec<bool>,
    pub no_step_visited: Vec<bool>,
}

/// Mathematical content of [`FileViews`].
pub struct FileViewsModel {
    pub scroll_step: Seq<usize>,
    pub scroll_no_step: Seq<usize>,
    pub horizontal_step: Seq<usize>,
    pub horizontal_no_step: Seq<usize>,
    pub visited: Seq<bool>,
    pub visited_no_step: Seq<bool>,
}

impl View for FileViews {
    type V = FileViewsModel;

    open spec fn view(&self) -> FileViewsModel {
        FileViewsModel {
            scroll_step: self.scroll_offsets_step@,
            scroll_no_step: self.scroll_offsets_no_step@,
            horizontal_step: self.horizontal_scrolls_step@,
            horizontal_no_step: self.horizontal_scrolls_no_step@,
            visited: self.files_visited@,
            visited_no_step: self.no_step_visited@,
        }
    }
}

impl FileViewsModel {
    /// Every list holds one entry per file.
    pub open spec fn wf(self, file_count: nat) -> bool {
        &&& self.scroll_step.len() == file_count
        &&& self.scroll_no_step.len() == file_count
        &&& self.horizontal_step.len() == file_count
        &&& self.horizontal_no_step.len() == file_count
        &&& self.visited.len() == file_count
        &&& self.visited_no_step.len() == file_count
    }

    /// The vertical and horizontal offsets kept for file `i` in the
    /// stepping or the non-stepping lists.
    pub open spec fn kept(self, stepping: bool, i: int) -> (usize, usize) {
        if stepping {
            (self.scroll_step[i], self.horizontal_step[i])
        } else {
            (self.scroll_no_step[i], self.horizontal_no_step[i])
        }
    }
}

/// `s` with entry `i` set to `x`, or unchanged when `i` is past its end.
pub open spec fn set_within<T>(s: Seq<T>, i: int, x: T) -> Seq<T> {
    if 0 <= i < s.len() {
        s.update(i, x)
    } else {
        s
    }
}

/// The per-file state after keeping offsets `scroll` and `horizontal` for
/// file `index` in the lists of the current mode; an index past the files
/// changes nothing.
pub open spec fn save_spec(v: FileViewsModel, stepping: bool, index: int, scroll: usize, horizontal: usize) -> FileViewsModel {
    if stepping {
        FileViewsModel {
            scroll_step: set_within(v.scroll_step, index, scroll),
            horizontal_step: set_within(v.horizontal_step, index, horizontal),
            ..v
        }
    } else {
        FileViewsModel {
            scroll_no_step: set_within(v.scroll_no_step, index, scroll),
            horizontal_no_step: set_within(v.horizontal_no_step, index, horizontal),
            ..v
        }
    }
}

/// The offsets read back for file `index` in the lists of the current mode:
/// each one when the index is within its list.
pub open spec fn restore_spec(v: FileViewsModel, stepping: bool, index: int) -> (Option<usize>, Option<usize>) {
    let (s, h) = if stepping {
        (v.scroll_step, v.horizontal_step)
    } else {
        (v.scroll_no_step, v.horizontal_no_step)
    };
    (
        if 0 <= index < s.len() {
            Some(s[index])
        } else {
            None
        },
        if 0 <= index < h.len() {
            Some(h[index])
        } else {
            None
        },
    )
}

/// The per-file state after entering file `index`: visited, and visited
/// without stepping when not stepping.
pub open spec fn visit_spec(v: FileViewsModel, stepping: bool, index: int) -> FileViewsModel {
    FileViewsModel {
        visited: set_within(v.visited, index, true),
        visited_no_step: if stepping {
            v.visited_no_step
        } else {
            set_within(v.visited_no_step, index, true)
        },
        ..v
    }
}

fn zeros(n: usize) -> (r: Vec<usize>)
    ensures
        r@ == Seq::new(n as nat, |i: int| 0usize),
{
    let mut r: Vec<usize> = Vec::new();
    while r.len() < n
        invariant
            r@.len() <= n,
            r@ == Seq::new(r@.len(), |i: int| 0usize),
        decreases n - r@.len(),
    {
        r.push(0);
        assert(r@ =~= Seq::new(r@.len(), |i: int| 0usize));
    }
    r
}

fn falses(n: usize) -> (r: Vec<bool>)
    ensures
        r@ == Seq::new(n as nat, |i: int| false),
{
    let mut r: Vec<bool> = Vec::new();
    while r.len() < n
        invariant
            r@.len() <= n,
            r@ == Seq::new(r@.len(), |i: int| false),
        decreases n - r@.len(),
    {
        r.push(false);
        assert(r@ =~= Seq::new(r@.len(), |i: int| false));
    }
    r
}

/// The per-file state for `file_count` files: every offset at the top and
/// no file visited.
pub fn new_file_views(file_count: usize) -> (r: FileViews)
    ensures
        r@ == (FileViewsModel {
            scroll_step: Seq::new(file_count as nat, |i: int| 0usize),
            scroll_no_step: Seq::new(file_count as nat, |i: int| 0usize),
            horizontal_step: Seq::new(file_count as nat, |i: int| 0usize),
            horizontal_no_step: Seq::new(file_count as nat, |i: int| 0usize),
            visited: Seq::new(file_count as nat, |i: int| false),
            visited_no_step: Seq::new(file_count as nat, |i: int| false),
        }),
{
    FileViews {
        scroll_offsets_step: zeros(file_count),
        scroll_offsets_no_step: zeros(file_count),
        horizontal_scrolls_step: zeros(file_count),
        horizontal_scrolls_no_step: zeros(file_count),
        files_visited: falses(file_count),
        no_step_visited: falses(file_count),
    }
}

/// Keeps the offsets `scroll` and `horizontal` for file `index` in the
/// lists of the current mode (see [`save_spec`]).
pub fn save_scroll_position(v: &mut FileViews, stepping: bool, index: usize, scroll: usize, horizontal: usize)
    ensures
        final(v)@ == save_spec(old(v)@, stepping, index as int, scroll, horizontal),
{
    if stepping {
        if index < v.scroll_offsets_step.len() {
            v.scroll_offsets_step.set(index, scroll);
        }
        if index < v.horizontal_scrolls_step.len() {
            v.horizontal_scrolls_step.set(index, horizontal);
        }
    } else {
        if index < v.scroll_offsets_no_step.len() {
            v.scroll_offsets_no_step.set(index, scroll);
        }
        if index < v.horizontal_scrolls_no_step.len() {
            v.horizontal_scrolls_no_step.set(index, horizontal);
        }
    }
}

/// The offsets kept for file `index` in the lists of the current mode (see
/// [`restore_spec`]).
pub fn restore_scroll_position(v: &FileViews, stepping: bool, index: usize) -> (r: (Option<usize>, Option<usize>))
    ensures
        r == restore_spec(v@, stepping, index as int),
{
    let (scrolls, horizontals) = if stepping {
        (&v.scroll_offsets_step, &v.horizontal_scrolls_step)
    } else {
        (&v.scroll_offsets_no_step, &v.horizontal_scrolls_no_step)
    };
    let s = if index < scrolls.len() {
        Some(scrolls[index])
    } else {
        None
    };
    let h = if index < horizontals.len() {
        Some(horizontals[index])
    } else {
        None
    };
    (s, h)
}

/// Marks file `index` visited (see [`visit_spec`]).
pub fn mark_visited(v: &mut FileViews, stepping: bool, index: usize)
    ensures
        final(v)@ == visit_spec(old(v)@, stepping, index as int),
{
    if index < v.files_visited.len() {
        v.files_visited.set(index, true);
    }
    if !stepping && index < v.no_step_visited.len() {
        v.no_step_visited.set(index, true);
    }
}

/// Offsets kept for a file are the offsets read back for it in the same
/// mode, whatever is kept for another file or in the other mode in between;
/// marking files visited changes no offsets.
pub proof fn law_saved_scroll_reads_back(
    v: FileViewsModel,
    file_count: nat,
    stepping: bool,
    index: int,
    scroll: usize,
    horizontal: usize,
    other_mode: bool,
    other: int,
    other_scroll: usize,
    other_horizontal: usize,
    visited: int,
)
    requires
        v.wf(file_count),
        0 <= index < file_count,
        other != index || other_mode != stepping,
    ensures
        restore_spec(save_spec(v, stepping, index, scroll, horizontal), stepping, index) == (Some(scroll), Some(horizontal)),
        restore_spec(
            save_spec(save_spec(v, stepping, index, scroll, horizontal), other_mode, other, other_scroll, other_horizontal),
            stepping,
            index,
        ) == (Some(scroll), Some(horizontal)),
        restore_spec(visit_spec(v, other_mode, visited), stepping, index) == restore_spec(v, stepping, index),
{
}

} // verus!
