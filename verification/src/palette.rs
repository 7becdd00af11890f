//! The command palette and the list pickers: the commands offered, their
//! filtering by typed text, file search by name, and moving a selection.

use vstd::prelude::*;
use crate::mention::lower;
use crate::text::strings_view;
use crate::text::{chars_contain, chars_of, contains_seq, trim, trim_chars};
use crate::types::ViewMode;

verus! {

/// What a palette command does.
#[derive(Debug, Clone, Copy, PartialEq, Eq, Structural)]
pub enum PaletteAction {
    ToggleStepping,
    ToggleViewMode,
    SetViewMode(ViewMode),
    ToggleLineWrap,
    ToggleFoldContext,
    ToggleSyntax,
    ToggleHelp,
    ToggleZen,
    ToggleFilePanel,
    ToggleAutoplay,
    ToggleAutoplayReverse,
    OpenDashboard,
    Quit,
    RefreshCurrentFile,
    RefreshAllFiles,
}

/// A palette command: its label and action.
#[derive(Debug)]
pub struct PaletteEntry {
    pub label: String,
    pub action: PaletteAction,
}

impl View for PaletteEntry {
    type V = (Seq<char>, PaletteAction);

    open spec fn view(&self) -> (Seq<char>, PaletteAction) {
        (self.label@, self.action)
    }
}

/// The views of palette entries.
pub open spec fn entries_view(s: Seq<PaletteEntry>) -> Seq<(Seq<char>, PaletteAction)> {
    s.map_values(|e: PaletteEntry| e@)
}

/// The palette commands: stepping, view modes (blame only when blame is
/// available), display toggles, the file panel and refreshing all files
/// with several files, picking a commit, refreshing the current file,
/// autoplay while stepping, and quitting.
pub open spec fn palette_entries_spec(blame_enabled: bool, multi_file: bool, stepping: bool) -> Seq<
    (Seq<char>, PaletteAction),
> {
    let views = seq![
        ("Toggle stepping"@, PaletteAction::ToggleStepping),
        ("Cycle view mode"@, PaletteAction::ToggleViewMode),
        ("View: Unified"@, PaletteAction::SetViewMode(ViewMode::UnifiedPane)),
        ("View: Split"@, PaletteAction::SetViewMode(ViewMode::Split)),
        ("View: Evolution"@, PaletteAction::SetViewMode(ViewMode::Evolution)),
    ];
    let blame = if blame_enabled {
        seq![("View: Blame"@, PaletteAction::SetViewMode(ViewMode::Blame))]
    } else {
        Seq::empty()
    };
    let toggles = seq![
        ("Toggle line wrap"@, PaletteAction::ToggleLineWrap),
        ("Toggle context folding"@, PaletteAction::ToggleFoldContext),
        ("Toggle syntax highlight"@, PaletteAction::ToggleSyntax),
        ("Toggle help"@, PaletteAction::ToggleHelp),
        ("Toggle zen mode"@, PaletteAction::ToggleZen),
    ];
    let files = if multi_file {
        seq![
            ("Toggle file panel"@, PaletteAction::ToggleFilePanel),
            ("Refresh all files"@, PaletteAction::RefreshAllFiles),
        ]
    } else {
        Seq::empty()
    };
    let always = seq![
        ("Pick commit"@, PaletteAction::OpenDashboard),
        ("Refresh current file"@, PaletteAction::RefreshCurrentFile),
    ];
    let autoplay = if stepping {
        seq![
            ("Toggle autoplay"@, PaletteAction::ToggleAutoplay),
            ("Toggle autoplay (reverse)"@, PaletteAction::ToggleAutoplayReverse),
        ]
    } else {
        Seq::empty()
    };
    views + blame + toggles + files + always + autoplay + seq![("Quit"@, PaletteAction::Quit)]
}

fn entry(label: &str, action: PaletteAction) -> (r: PaletteEntry)
    ensures
        r@ == (label@, action),
{
    PaletteEntry { label: label.to_owned(), action }
}

fn push_entry(entries: &mut Vec<PaletteEntry>, label: &str, action: PaletteAction)
    ensures
        entries_view(final(entries)@) == entries_view(old(entries)@).push((label@, action)),
{
    let ghost before = entries@;
    entries.push(entry(label, action));
    assert(entries_view(entries@) =~= entries_view(before).push((label@, action)));
}

/// The palette commands (see [`palette_entries_spec`]).
pub fn command_palette_entries(blame_enabled: bool, multi_file: bool, stepping: bool) -> (r: Vec<
    PaletteEntry,
>)
    ensures
        entries_view(r@) == palette_entries_spec(blame_enabled, multi_file, stepping),
{
    let mut entries: Vec<PaletteEntry> = Vec::new();
    push_entry(&mut entries, "Toggle stepping", PaletteAction::ToggleStepping);
    push_entry(&mut entries, "Cycle view mode", PaletteAction::ToggleViewMode);
    push_entry(&mut entries, "View: Unified", PaletteAction::SetViewMode(ViewMode::UnifiedPane));
    push_entry(&mut entries, "View: Split", PaletteAction::SetViewMode(ViewMode::Split));
    push_entry(&mut entries, "View: Evolution", PaletteAction::SetViewMode(ViewMode::Evolution));
    let ghost v1 = entries_view(entries@);
    if blame_enabled {
        push_entry(&mut entries, "View: Blame", PaletteAction::SetViewMode(ViewMode::Blame));
    }
    let ghost v2 = entries_view(entries@);
    push_entry(&mut entries, "Toggle line wrap", PaletteAction::ToggleLineWrap);
    push_entry(&mut entries, "Toggle context folding", PaletteAction::ToggleFoldContext);
    push_entry(&mut entries, "Toggle syntax highlight", PaletteAction::ToggleSyntax);
    push_entry(&mut entries, "Toggle help", PaletteAction::ToggleHelp);
    push_entry(&mut entries, "Toggle zen mode", PaletteAction::ToggleZen);
    let ghost v3 = entries_view(entries@);
    if multi_file {
        push_entry(&mut entries, "Toggle file panel", PaletteAction::ToggleFilePanel);
        push_entry(&mut entries, "Refresh all files", PaletteAction::RefreshAllFiles);
    }
    let ghost v4 = entries_view(entries@);
    push_entry(&mut entries, "Pick commit", PaletteAction::OpenDashboard);
    push_entry(&mut entries, "Refresh current file", PaletteAction::RefreshCurrentFile);
    let ghost v5 = entries_view(entries@);
    if stepping {
        push_entry(&mut entries, "Toggle autoplay", PaletteAction::ToggleAutoplay);
        push_entry(&mut entries, "Toggle autoplay (reverse)", PaletteAction::ToggleAutoplayReverse);
    }
    push_entry(&mut entries, "Quit", PaletteAction::Quit);
    assert(entries_view(entries@) =~= palette_entries_spec(blame_enabled, multi_file, stepping));
    entries
}

/// Whether a lower-cased query accepts a label: an empty one accepts all,
/// else it must occur in the label, ignoring ASCII case.
pub open spec fn label_matches(query_lc: Seq<char>, label: Seq<char>) -> bool {
    query_lc.len() == 0 || contains_seq(lower(label), query_lc)
}

/// The entries whose labels the query accepts, in order.
pub open spec fn filter_entries(entries: Seq<(Seq<char>, PaletteAction)>, query_lc: Seq<char>) -> Seq<
    (Seq<char>, PaletteAction),
>
    decreases entries.len(),
{
    if entries.len() == 0 {
        Seq::empty()
    } else {
        let prev = filter_entries(entries.drop_last(), query_lc);
        if label_matches(query_lc, entries.last().0) {
            prev.push(entries.last())
        } else {
            prev
        }
    }
}

fn lower_of(s: &str) -> (r: Vec<char>)
    ensures
        r@ == lower(s@),
{
    let c = chars_of(s);
    let mut out: Vec<char> = Vec::new();
    for i in 0..c.len()
        invariant
            c@ == s@,
            out@ == lower(c@.take(i as int)),
    {
        assert(c@.take(i + 1) =~= c@.take(i as int).push(c@[i as int]));
        out.push(crate::config::char_ascii_lower(c[i]));
        assert(out@ =~= lower(c@.take(i + 1)));
    }
    assert(c@.take(c.len() as int) =~= c@);
    out
}

/// The commands whose labels contain the typed query (trimmed, ignoring
/// ASCII case), with the selection kept on the list: 0 for an empty list,
/// else at most its last entry.
pub fn command_palette_filtered_entries(
    blame_enabled: bool,
    multi_file: bool,
    stepping: bool,
    query: &str,
    selection: usize,
) -> (r: (Vec<PaletteEntry>, usize))
    ensures
        entries_view(r.0@) == filter_entries(
            palette_entries_spec(blame_enabled, multi_file, stepping),
            lower(trim(query@)),
        ),
        r.1 == if r.0.len() == 0 {
            0
        } else if selection >= r.0.len() {
            (r.0.len() - 1) as usize
        } else {
            selection
        },
{
    let all = command_palette_entries(blame_enabled, multi_file, stepping);
    let ghost av = entries_view(all@);
    let qt = trim_chars(chars_of(query).as_slice());
    let mut ql: Vec<char> = Vec::new();
    for i in 0..qt.len()
        invariant
            ql@ == lower(qt@.take(i as int)),
    {
        assert(qt@.take(i + 1) =~= qt@.take(i as int).push(qt@[i as int]));
        ql.push(crate::config::char_ascii_lower(qt[i]));
        assert(ql@ =~= lower(qt@.take(i + 1)));
    }
    assert(qt@.take(qt.len() as int) =~= qt@);
    let mut kept: Vec<PaletteEntry> = Vec::new();
    assert(av.take(0) =~= Seq::<(Seq<char>, PaletteAction)>::empty());
    for e in it: all
        invariant
            it.seq() == all@,
            av == entries_view(all@),
            ql@ == lower(trim(query@)),
            entries_view(kept@) == filter_entries(av.take(it.index() as int), ql@),
    {
        let ghost k = it.index() as int;
        assert(av.take(k + 1).drop_last() =~= av.take(k));
        assert(av.take(k + 1).last() == e@);
        let accept = if ql.len() == 0 {
            true
        } else {
            let ll = lower_of(e.label.as_str());
            chars_contain(ll.as_slice(), ql.as_slice())
        };
        if accept {
            let ghost before = kept@;
            let ghost ev = e@;
            kept.push(e);
            assert(entries_view(kept@) =~= entries_view(before).push(ev));
        }
    }
    assert(av.take(av.len() as int) =~= av);
    let sel = if kept.len() == 0 {
        0
    } else if selection >= kept.len() {
        kept.len() - 1
    } else {
        selection
    };
    (kept, sel)
}

/// A list selection moved by `delta` and kept on the list.
pub open spec fn moved_selection(selection: usize, total: usize, delta: isize) -> usize {
    if total == 0 {
        0
    } else {
        let last = total - 1;
        let current = if selection < last {
            selection as int
        } else {
            last as int
        };
        let next = current + delta;
        (if next < 0 {
            0
        } else if next > last {
            last as int
        } else {
            next
        }) as usize
    }
}

/// Moves a list selection by `delta` rows, keeping it on a list of `total`
/// entries (the command palette and the file search).
pub fn move_selection(selection: usize, total: usize, delta: isize) -> (r: usize)
    requires
        total <= isize::MAX,
        total == 0 || (if selection < total - 1 {
            selection as int
        } else {
            total - 1
        }) + delta <= isize::MAX,
    ensures
        r == moved_selection(selection, total, delta),
{
    if total == 0 {
        return 0;
    }
    let last = total - 1;
    let current: usize = if selection < last {
        selection
    } else {
        last
    };
    if delta < 0 {
        let back: usize = if delta == isize::MIN {
            (isize::MAX as usize) + 1
        } else {
            (-delta) as usize
        };
        if back >= current {
            0
        } else {
            current - back
        }
    } else {
        let fwd = delta as usize;
        if fwd >= last - current {
            last
        } else {
            current + fwd
        }
    }
}

/// A picker selection moved by `delta` rows, wrapping around the list.
pub open spec fn wrapped_selection(selected: usize, len: usize, delta: isize) -> usize {
    ((selected + delta) % (len as int)) as usize
}

/// Moves the mention picker's selection by `delta`, wrapping around its
/// `len` items; unchanged without items.
pub fn mention_move_selection(selected: usize, len: usize, delta: isize) -> (r: usize)
    requires
        len <= isize::MAX,
        selected <= isize::MAX,
        selected + delta <= isize::MAX,
        selected + delta >= isize::MIN,
    ensures
        r == if len == 0 {
            selected
        } else {
            wrapped_selection(selected, len, delta)
        },
{
    if len == 0 {
        return selected;
    }
    let s: i128 = (selected as i128) + (delta as i128);
    let l: i128 = len as i128;
    let r: i128 = if s >= 0 {
        s % l
    } else {
        let a: i128 = -s;
        let q: i128 = a % l;
        proof {
            let k = a / l;
            vstd::arithmetic::div_mod::lemma_fundamental_div_mod(a as int, l as int);
            if q == 0 {
                assert(s == (-k) * l + 0) by (nonlinear_arith)
                    requires
                        a == l * k + q,
                        q == 0,
                        s == -a,
                ;
                vstd::arithmetic::div_mod::lemma_fundamental_div_mod_converse(s as int, l as int, -k, 0);
            } else {
                assert(s == (-k - 1) * l + (l - q)) by (nonlinear_arith)
                    requires
                        a == l * k + q,
                        s == -a,
                ;
                vstd::arithmetic::div_mod::lemma_fundamental_div_mod_converse(
                    s as int,
                    l as int,
                    -k - 1,
                    (l - q) as int,
                );
            }
        }
        if q == 0 {
            0
        } else {
            l - q
        }
    };
    r as usize
}

/// The positions of the files whose display names contain the query,
/// ignoring ASCII case; every file for an empty query.
pub open spec fn file_matches(names: Seq<Seq<char>>, query: Seq<char>) -> Seq<usize>
    decreases names.len(),
{
    if names.len() == 0 {
        Seq::empty()
    } else {
        let prev = file_matches(names.drop_last(), query);
        if query.len() == 0 || contains_seq(lower(names.last()), lower(query)) {
            prev.push((names.len() - 1) as usize)
        } else {
            prev
        }
    }
}

/// The files a file search shows (see [`file_matches`]).
pub fn file_indices_for_query(names: &[String], query: &str) -> (r: Vec<usize>)
    ensures
        r@ == file_matches(strings_view(names@), query@),
{
    let ghost nv = strings_view(names@);
    let ql = lower_of(query);
    let qlen = chars_of(query).len();
    let mut out: Vec<usize> = Vec::new();
    assert(nv.take(0) =~= Seq::<Seq<char>>::empty());
    for i in 0..names.len()
        invariant
            nv == strings_view(names@),
            ql@ == lower(query@),
            qlen == query@.len(),
            out@ == file_matches(nv.take(i as int), query@),
    {
        assert(nv.take(i + 1).drop_last() =~= nv.take(i as int));
        assert(nv.take(i + 1).last() == names@[i as int]@);
        let accept = if qlen == 0 {
            true
        } else {
            let nl = lower_of(names[i].as_str());
            chars_contain(nl.as_slice(), ql.as_slice())
        };
        if accept {
            out.push(i);
        }
    }
    assert(nv.take(names.len() as int) =~= nv);
    out
}

} // verus!
