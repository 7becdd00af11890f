//! Mentions offered while a review comment is written: the files a comment
//! can name, ranked against what has been typed, and references to the lines
//! of the current file's hunks.

use vstd::prelude::*;
use crate::config::{ascii_lower, char_ascii_lower};
use crate::review::{contains_string, first_occurrences, merge_changed_and_repo_paths};
use crate::text::strings_view;
use crate::text::{
    chars_view, lines_chars, lines_of, chars_of, chars_start_with, concat_str, contains_seq, decimal, decimal_chars, starts_with,
    string_from_chars,
};
use crate::view::ViewLine;

verus! {

/// At most this many mention candidates are offered.
pub const MAX_MENTION_ITEMS: usize = 40;

/// At most this many line references are offered.
pub const MAX_MENTION_REF_ITEMS: usize = 16;

/// Which files a mention can name.
#[derive(Debug, Clone, Copy, PartialEq, Eq, Structural)]
pub enum MentionFileScope {
    /// The files of the diff.
    Changed,
    /// Every file of the repository, the changed ones first.
    Repo,
}

/// How typed text is matched against file paths.
#[derive(Debug, Clone, Copy, PartialEq, Eq, Structural)]
pub enum MentionFinder {
    /// The built-in ranking.
    Builtin,
    /// `fzf --filter`, falling back to the built-in ranking.
    Fzf,
    /// `fzf` when it is installed and something was typed, else built-in.
    Auto,
}

// ---------------------------------------------------------------------------
// Ranking file paths against a query.
// ---------------------------------------------------------------------------

/// `s` with ASCII letters in lower case (`str::to_ascii_lowercase`).
pub open spec fn lower(s: Seq<char>) -> Seq<char> {
    s.map_values(|c: char| ascii_lower(c))
}

fn lower_chars(s: &[char]) -> (r: Vec<char>)
    ensures
        r@ == lower(s@),
{
    let mut out: Vec<char> = Vec::new();
    for i in 0..s.len()
        invariant
            out@ == lower(s@.take(i as int)),
    {
        assert(s@.take(i + 1) =~= s@.take(i as int).push(s@[i as int]));
        out.push(char_ascii_lower(s[i]));
        assert(out@ =~= lower(s@.take(i + 1)));
    }
    assert(s@.take(s.len() as int) =~= s@);
    out
}

/// The first position at or after `i` where `needle` occurs in `s`.
pub open spec fn find_from(s: Seq<char>, needle: Seq<char>, i: int) -> Option<int>
    decreases s.len() + 1 - i,
{
    if i < 0 || i + needle.len() > s.len() {
        None
    } else if s.subrange(i, i + needle.len()) == needle {
        Some(i)
    } else {
        find_from(s, needle, i + 1)
    }
}

/// The first position where `needle` occurs in `s` (`str::find`, counted in
/// characters).
pub open spec fn find_first(s: Seq<char>, needle: Seq<char>) -> Option<int> {
    find_from(s, needle, 0)
}

fn find_chars(s: &[char], needle: &[char]) -> (r: Option<usize>)
    ensures
        match r {
            Some(p) => find_first(s@, needle@) == Some(p as int),
            None => find_first(s@, needle@) is None,
        },
{
    if needle.len() > s.len() {
        return None;
    }
    let last = s.len() - needle.len();
    let mut i: usize = 0;
    loop
        invariant
            last + needle.len() == s.len(),
            0 <= i <= last,
            find_first(s@, needle@) == find_from(s@, needle@, i as int),
        decreases last - i,
    {
        if crate::text::has_prefix_at(s, i, needle) {
            return Some(i);
        }
        if i == last {
            assert(find_from(s@, needle@, i + 1) is None);
            return None;
        }
        i = i + 1;
    }
}

/// Where the file name of `path` starts: after its last `/` or `\`.
pub open spec fn name_start(path: Seq<char>) -> int
    decreases path.len(),
{
    if path.len() == 0 {
        0
    } else if path.last() == '/' || path.last() == '\\' {
        path.len() as int
    } else {
        name_start(path.drop_last())
    }
}

proof fn lemma_name_start_bounds(path: Seq<char>)
    ensures
        0 <= name_start(path) <= path.len(),
    decreases path.len(),
{
    if path.len() > 0 {
        lemma_name_start_bounds(path.drop_last());
    }
}

fn name_start_of(path: &[char]) -> (r: usize)
    ensures
        r == name_start(path@),
        r <= path.len(),
{
    let mut k: usize = path.len();
    assert(path@.take(k as int) =~= path@);
    while k > 0
        invariant
            k <= path.len(),
            name_start(path@) == name_start(path@.take(k as int)),
        decreases k,
    {
        let c = path[k - 1];
        assert(path@.take(k as int).drop_last() =~= path@.take(k - 1));
        if c == '/' || c == '\\' {
            return k;
        }
        k = k - 1;
    }
    k
}

/// How a path ranks against a lower-cased query, when the query occurs in
/// it: its tier (0 when its file name starts with the query, 1 when the path
/// does, else 2) and where the query first occurs.
pub open spec fn path_score(path: Seq<char>, query_lc: Seq<char>) -> Option<(int, int)> {
    let pl = lower(path);
    match find_first(pl, query_lc) {
        None => None,
        Some(pos) => {
            let tier = if starts_with(pl.subrange(name_start(pl), pl.len() as int), query_lc) {
                0int
            } else if pos == 0 {
                1int
            } else {
                2int
            };
            Some((tier, pos))
        },
    }
}

/// Lexicographic order on (tier, position, index).
pub open spec fn key_lt(a: (int, int, int), b: (int, int, int)) -> bool {
    a.0 < b.0 || (a.0 == b.0 && (a.1 < b.1 || (a.1 == b.1 && a.2 < b.2)))
}

/// Whether path `i` contains the query.
pub open spec fn is_match(paths: Seq<Seq<char>>, query_lc: Seq<char>, i: int) -> bool {
    0 <= i < paths.len() && path_score(paths[i], query_lc) is Some
}

/// The ranking key of path `i`.
pub open spec fn match_key(paths: Seq<Seq<char>>, query_lc: Seq<char>, i: int) -> (int, int, int) {
    let s = path_score(paths[i], query_lc)->0;
    (s.0, s.1, i)
}

/// How many of the paths contain the query.
pub open spec fn match_count(paths: Seq<Seq<char>>, query_lc: Seq<char>) -> nat
    decreases paths.len(),
{
    if paths.len() == 0 {
        0
    } else {
        match_count(paths.drop_last(), query_lc) + if path_score(paths.last(), query_lc) is Some {
            1nat
        } else {
            0nat
        }
    }
}

/// `idx` lists the first `limit` paths that contain the query, best first:
/// ordered by tier, then by where the query occurs, then by position in the
/// list; every other matching path ranks after all of them.
pub open spec fn ranked_selection(
    paths: Seq<Seq<char>>,
    query_lc: Seq<char>,
    limit: nat,
    idx: Seq<int>,
) -> bool {
    &&& idx.len() == if limit < match_count(paths, query_lc) {
        limit
    } else {
        match_count(paths, query_lc)
    }
    &&& forall|k: int| 0 <= k < idx.len() ==> is_match(paths, query_lc, #[trigger] idx[k])
    &&& forall|a: int, b: int|
        0 <= a < b < idx.len() ==> key_lt(
            match_key(paths, query_lc, #[trigger] idx[a]),
            match_key(paths, query_lc, #[trigger] idx[b]),
        )
    &&& forall|j: int, k: int|
        #[trigger] is_match(paths, query_lc, j) && !idx.contains(j) && 0 <= k < idx.len() ==> key_lt(
            match_key(paths, query_lc, #[trigger] idx[k]),
            match_key(paths, query_lc, j),
        )
}

/// The paths at the given positions.
pub open spec fn pick(paths: Seq<Seq<char>>, idx: Seq<int>) -> Seq<Seq<char>> {
    idx.map_values(|i: int| paths[i])
}

spec fn tk(t: (usize, usize, usize)) -> (int, int, int) {
    (t.0 as int, t.1 as int, t.2 as int)
}

fn key_less(a: (usize, usize, usize), b: (usize, usize, usize)) -> (r: bool)
    ensures
        r == key_lt(tk(a), tk(b)),
{
    a.0 < b.0 || (a.0 == b.0 && (a.1 < b.1 || (a.1 == b.1 && a.2 < b.2)))
}

/// The tier and position of a path against a lower-cased query.
fn score_path(path: &str, query_lc: &[char]) -> (r: Option<(usize, usize)>)
    ensures
        match r {
            Some(s) => path_score(path@, query_lc@) == Some((s.0 as int, s.1 as int)),
            None => path_score(path@, query_lc@) is None,
        },
{
    let pc = chars_of(path);
    let pl = lower_chars(pc.as_slice());
    match find_chars(pl.as_slice(), query_lc) {
        None => None,
        Some(pos) => {
            let start = name_start_of(pl.as_slice());
            let name = crate::text::slice_chars(pl.as_slice(), start, pl.len());
            let tier: usize = if chars_start_with(name.as_slice(), query_lc) {
                0
            } else if pos == 0 {
                1
            } else {
                2
            };
            Some((tier, pos))
        },
    }
}

/// Ranks the paths that contain `query` (ignoring ASCII case) and keeps the
/// first `limit` of them: a path whose file name starts with the query
/// first, then one that starts with it, then the rest; within a tier by
/// where the query first occurs, then by position in `paths`.
pub fn filter_review_file_paths_builtin(paths: &[String], query: &str, limit: usize) -> (r: Vec<
    String,
>)
    ensures
        exists|idx: Seq<int>|
            ranked_selection(strings_view(paths@), lower(query@), limit as nat, idx)
                && strings_view(r@) == pick(strings_view(paths@), idx),
{
    let ghost ps = strings_view(paths@);
    let qc = chars_of(query);
    let ql = lower_chars(qc.as_slice());
    let ghost q = ql@;
    let mut sorted: Vec<(usize, usize, usize)> = Vec::new();
    assert(ps.take(0) =~= Seq::<Seq<char>>::empty());
    for i in 0..paths.len()
        invariant
            ps == strings_view(paths@),
            q == ql@,
            q == lower(query@),
            sorted.len() == match_count(ps.take(i as int), q),
            forall|a: int, b: int|
                0 <= a < b < sorted.len() ==> key_lt(tk(#[trigger] sorted@[a]), tk(#[trigger] sorted@[b])),
            forall|k: int|
                0 <= k < sorted.len() ==> {
                    &&& (#[trigger] sorted@[k]).2 < i
                    &&& is_match(ps, q, sorted@[k].2 as int)
                    &&& tk(sorted@[k]) == match_key(ps, q, sorted@[k].2 as int)
                },
            forall|j: int|
                0 <= j < i && is_match(ps, q, j) ==> exists|k: int|
                    0 <= k < sorted.len() && #[trigger] sorted@[k].2 == j,
    {
        assert(ps.take(i + 1).drop_last() =~= ps.take(i as int));
        assert(ps.take(i + 1).last() == ps[i as int]);
        assert(ps[i as int] == paths@[i as int]@);
        match score_path(paths[i].as_str(), ql.as_slice()) {
            None => {},
            Some((tier, pos)) => {
                let x = (tier, pos, i);
                assert(tk(x) == match_key(ps, q, i as int));
                let mut p: usize = 0;
                while p < sorted.len() && !key_less(x, sorted[p])
                    invariant
                        0 <= p <= sorted.len(),
                        forall|k: int| 0 <= k < p ==> !key_lt(tk(x), tk(#[trigger] sorted@[k])),
                    decreases sorted.len() - p,
                {
                    p = p + 1;
                }
                let ghost old_sorted = sorted@;
                sorted.insert(p, x);
                proof {
                    let ns = sorted@;
                    assert(ns =~= old_sorted.take(p as int).push(x) + old_sorted.skip(p as int));
                    assert forall|k: int| 0 <= k < ns.len() implies
                        ns[k] == if k < p { old_sorted[k] } else if k == p { x } else { old_sorted[k - 1] } by {}
                    assert forall|k: int| 0 <= k < p implies key_lt(tk(#[trigger] old_sorted[k]), tk(x)) by {
                        assert(!key_lt(tk(x), tk(old_sorted[k])));
                        assert(old_sorted[k].2 < i);
                    }
                    assert forall|a: int, b: int|
                        0 <= a < b < ns.len() implies key_lt(tk(#[trigger] ns[a]), tk(#[trigger] ns[b])) by {
                        if b < p {
                        } else if b == p {
                        } else if a < p {
                            assert(key_lt(tk(old_sorted[a]), tk(x)));
                            if p < old_sorted.len() {
                                assert(key_lt(tk(x), tk(old_sorted[p as int])));
                                if b - 1 > p {
                                    assert(key_lt(tk(old_sorted[p as int]), tk(old_sorted[b - 1])));
                                }
                            }
                        } else if a == p {
                            assert(key_lt(tk(x), tk(old_sorted[p as int])));
                            if b - 1 > p {
                                assert(key_lt(tk(old_sorted[p as int]), tk(old_sorted[b - 1])));
                            }
                        } else {
                            assert(key_lt(tk(old_sorted[a - 1]), tk(old_sorted[b - 1])));
                        }
                    }
                    assert forall|j: int| 0 <= j < i + 1 && is_match(ps, q, j) implies exists|k: int|
                        0 <= k < ns.len() && #[trigger] ns[k].2 == j by {
                        if j == i {
                            assert(ns[p as int].2 == j);
                        } else {
                            let k0 = choose|k: int| 0 <= k < old_sorted.len() && #[trigger] old_sorted[k].2 == j;
                            if k0 < p {
                                assert(ns[k0].2 == j);
                            } else {
                                assert(ns[k0 + 1].2 == j);
                            }
                        }
                    }
                }
            },
        }
    }
    assert(ps.take(paths.len() as int) =~= ps);
    let n = if limit < sorted.len() {
        limit
    } else {
        sorted.len()
    };
    let mut out: Vec<String> = Vec::new();
    let ghost mut idx: Seq<int> = Seq::empty();
    for k in 0..n
        invariant
            n <= sorted.len(),
            ps == strings_view(paths@),
            forall|m: int| 0 <= m < sorted.len() ==> (#[trigger] sorted@[m]).2 < paths.len(),
            idx == sorted@.take(k as int).map_values(|t: (usize, usize, usize)| t.2 as int),
            strings_view(out@) == pick(ps, idx),
    {
        let j = sorted[k].2;
        let ghost before = out@;
        let item = paths[j].clone();
        assert(item@ == ps[j as int]);
        out.push(item);
        proof {
            assert(strings_view(out@) =~= strings_view(before).push(ps[j as int]));
            assert(pick(ps, idx.push(j as int)) =~= pick(ps, idx).push(ps[j as int]));
            idx = idx.push(j as int);
            assert(sorted@.take(k + 1) =~= sorted@.take(k as int).push(sorted@[k as int]));
            assert(idx =~= sorted@.take(k + 1).map_values(|t: (usize, usize, usize)| t.2 as int));
            assert(strings_view(out@) =~= pick(ps, idx));
        }
    }
    proof {
        let m = n as int;
        assert forall|j: int, k: int|
            #[trigger] is_match(ps, q, j) && !idx.contains(j) && 0 <= k < idx.len() implies key_lt(
                match_key(ps, q, #[trigger] idx[k]),
                match_key(ps, q, j),
            ) by {
            let k0 = choose|k: int| 0 <= k < sorted.len() && #[trigger] sorted@[k].2 == j;
            if k0 < m {
                assert(idx[k0] == j);
            }
            assert(idx[k] == sorted@[k].2);
            assert(key_lt(tk(sorted@[k]), tk(sorted@[k0])));
        }
        assert forall|a: int, b: int|
            0 <= a < b < idx.len() implies key_lt(
                match_key(ps, q, #[trigger] idx[a]),
                match_key(ps, q, #[trigger] idx[b]),
            ) by {
            assert(idx[a] == sorted@[a].2);
            assert(idx[b] == sorted@[b].2);
            assert(key_lt(tk(sorted@[a]), tk(sorted@[b])));
        }
        assert forall|k: int| 0 <= k < idx.len() implies is_match(ps, q, #[trigger] idx[k]) by {
            assert(idx[k] == sorted@[k].2);
        }
        assert(ranked_selection(ps, q, limit as nat, idx));
    }
    out
}


/// What `fzf --filter` printed, one path per non-empty line, at most `limit`
/// of them.
pub open spec fn fzf_output_spec(out: Seq<char>, limit: nat) -> Seq<Seq<char>> {
    let kept = non_empty(lines_of(out));
    kept.take(if limit < kept.len() { limit as int } else { kept.len() as int })
}

/// The non-empty items of `s`, in order.
pub open spec fn non_empty(s: Seq<Seq<char>>) -> Seq<Seq<char>>
    decreases s.len(),
{
    if s.len() == 0 {
        Seq::empty()
    } else if s.last().len() == 0 {
        non_empty(s.drop_last())
    } else {
        non_empty(s.drop_last()).push(s.last())
    }
}

/// Whether `fzf` is asked to rank the paths: it is only given a non-empty
/// query, a non-empty list and a non-zero limit; with `Auto` only when fzf is
/// installed.
pub fn mention_uses_fzf(
    finder: MentionFinder,
    query: &str,
    path_count: usize,
    limit: usize,
    fzf_available: bool,
) -> (r: bool)
    ensures
        r == (query@.len() > 0 && path_count > 0 && limit > 0 && match finder {
            MentionFinder::Builtin => false,
            MentionFinder::Fzf => true,
            MentionFinder::Auto => fzf_available,
        }),
{
    let q = chars_of(query);
    if q.len() == 0 || path_count == 0 || limit == 0 {
        return false;
    }
    match finder {
        MentionFinder::Builtin => false,
        MentionFinder::Fzf => true,
        MentionFinder::Auto => fzf_available,
    }
}

/// The paths that `fzf --filter` printed: its non-empty lines, at most
/// `limit` of them.
pub fn parse_fzf_filter_output(stdout: &str, limit: usize) -> (r: Vec<String>)
    ensures
        strings_view(r@) == fzf_output_spec(stdout@, limit as nat),
{
    let cs = chars_of(stdout);
    let lines = lines_chars(cs.as_slice());
    let ghost all = chars_view(lines@);
    let mut kept: Vec<String> = Vec::new();
    for i in 0..lines.len()
        invariant
            all == chars_view(lines@),
            strings_view(kept@) == non_empty(all.take(i as int)),
    {
        assert(all.take(i + 1).drop_last() =~= all.take(i as int));
        assert(all.take(i + 1).last() == lines@[i as int]@);
        if lines[i].len() > 0 {
            let ghost before = kept@;
            kept.push(string_from_chars(lines[i].as_slice()));
            assert(strings_view(kept@) =~= strings_view(before).push(lines@[i as int]@));
        }
    }
    assert(all.take(lines.len() as int) =~= all);
    let ghost kv = strings_view(kept@);
    let n = if limit < kept.len() {
        limit
    } else {
        kept.len()
    };
    kept.truncate(n);
    assert(strings_view(kept@) =~= kv.take(n as int));
    kept
}

/// The paths a mention can name after filtering: what fzf printed when it
/// ran and succeeded, else the built-in ranking.
pub fn filter_review_file_paths(
    paths: &[String],
    query: &str,
    limit: usize,
    fzf_matches: Option<Vec<String>>,
) -> (r: Vec<String>)
    ensures
        match fzf_matches {
            Some(v) => r@ == v@,
            None => exists|idx: Seq<int>|
                ranked_selection(strings_view(paths@), lower(query@), limit as nat, idx)
                    && strings_view(r@) == pick(strings_view(paths@), idx),
        },
{
    match fzf_matches {
        Some(v) => v,
        None => filter_review_file_paths_builtin(paths, query, limit),
    }
}

// ---------------------------------------------------------------------------
// Files a mention can name.
// ---------------------------------------------------------------------------

/// The first position of `x` in `s`.
pub open spec fn first_index(s: Seq<Seq<char>>, x: Seq<char>) -> Option<int>
    decreases s.len(),
{
    if s.len() == 0 {
        None
    } else {
        match first_index(s.drop_last(), x) {
            Some(i) => Some(i),
            None => if s.last() == x {
                Some(s.len() - 1)
            } else {
                None
            },
        }
    }
}

/// `s` with the first occurrence of `x`, if any, moved to the front.
pub open spec fn move_to_front(s: Seq<Seq<char>>, x: Seq<char>) -> Seq<Seq<char>> {
    match first_index(s, x) {
        Some(i) => seq![s[i]] + s.take(i) + s.skip(i + 1),
        None => s,
    }
}

/// The changed files, or with the repository scope the changed files
/// followed by the repository's other files (just the changed ones when the
/// repository lists none).
pub open spec fn scoped_paths(
    scope: MentionFileScope,
    changed: Seq<Seq<char>>,
    repo: Seq<Seq<char>>,
) -> Seq<Seq<char>> {
    match scope {
        MentionFileScope::Changed => changed,
        MentionFileScope::Repo => if repo.len() == 0 {
            changed
        } else {
            first_occurrences(changed + repo)
        },
    }
}

/// The files a mention can name: the changed files, or with the repository
/// scope the changed files followed by the repository's other files (just
/// the changed ones when the repository lists none); the current file, when
/// there is one, moved to the front.
pub open spec fn mention_file_paths_spec(
    scope: MentionFileScope,
    changed: Seq<Seq<char>>,
    repo: Seq<Seq<char>>,
    current: Seq<char>,
) -> Seq<Seq<char>> {
    let paths = scoped_paths(scope, changed, repo);
    if current.len() == 0 {
        paths
    } else {
        move_to_front(paths, current)
    }
}

proof fn lemma_first_index(s: Seq<Seq<char>>, x: Seq<char>)
    ensures
        match first_index(s, x) {
            Some(i) => 0 <= i < s.len() && s[i] == x && forall|j: int| 0 <= j < i ==> s[j] != x,
            None => forall|j: int| 0 <= j < s.len() ==> s[j] != x,
        },
    decreases s.len(),
{
    if s.len() > 0 {
        let d = s.drop_last();
        lemma_first_index(d, x);
        assert forall|j: int| 0 <= j < d.len() implies d[j] == s[j] by {}
    }
}

fn clone_strings(v: &[String]) -> (r: Vec<String>)
    ensures
        strings_view(r@) == strings_view(v@),
{
    let mut out: Vec<String> = Vec::new();
    for i in 0..v.len()
        invariant
            strings_view(out@) == strings_view(v@.take(i as int)),
    {
        let ghost before = out@;
        out.push(v[i].clone());
        assert(v@.take(i + 1) =~= v@.take(i as int).push(v@[i as int]));
        assert(strings_view(out@) =~= strings_view(before).push(v@[i as int]@));
        assert(strings_view(v@.take(i + 1)) =~= strings_view(v@.take(i as int)).push(v@[i as int]@));
    }
    assert(v@.take(v.len() as int) =~= v@);
    out
}

/// The files a mention can name (see [`mention_file_paths_spec`]).
pub fn review_mention_file_paths(
    scope: MentionFileScope,
    changed_paths: &[String],
    repo_paths: &[String],
    current_file: &str,
) -> (r: Vec<String>)
    ensures
        strings_view(r@) == mention_file_paths_spec(
            scope,
            strings_view(changed_paths@),
            strings_view(repo_paths@),
            current_file@,
        ),
{
    let mut paths = match scope {
        MentionFileScope::Changed => clone_strings(changed_paths),
        MentionFileScope::Repo => if repo_paths.len() == 0 {
            clone_strings(changed_paths)
        } else {
            proof {
                assert(strings_view(changed_paths@ + repo_paths@) =~= strings_view(changed_paths@)
                    + strings_view(repo_paths@));
            }
            merge_changed_and_repo_paths(changed_paths, repo_paths)
        },
    };
    let cur = string_from_chars(chars_of(current_file).as_slice());
    if cur.as_str().unicode_len() == 0 {
        return paths;
    }
    let ghost pv = strings_view(paths@);
    proof {
        lemma_first_index(pv, cur@);
    }
    let mut pos: usize = 0;
    while pos < paths.len()
        invariant
            0 <= pos <= paths.len(),
            pv == strings_view(paths@),
            pv == scoped_paths(scope, strings_view(changed_paths@), strings_view(repo_paths@)),
            cur@ == current_file@,
            current_file@.len() > 0,
            forall|j: int| 0 <= j < pos ==> pv[j] != cur@,
        decreases paths.len() - pos,
    {
        if paths[pos] == cur {
            assert(pv[pos as int] == cur@);
            let item = paths.remove(pos);
            paths.insert(0, item);
            proof {
                lemma_first_index(pv, cur@);
                assert(first_index(pv, cur@) == Some(pos as int));
                assert(strings_view(paths@) =~= seq![pv[pos as int]] + pv.take(pos as int) + pv.skip(
                    pos + 1,
                ));
            }
            return paths;
        }
        pos = pos + 1;
    }
    proof {
        lemma_first_index(pv, cur@);
    }
    assert(first_index(pv, cur@) is None);
    paths
}

// ---------------------------------------------------------------------------
// Mention candidates.
// ---------------------------------------------------------------------------

/// A candidate offered while a mention is typed: what the list shows and
/// what is inserted when it is accepted.
#[derive(Debug)]
pub struct ReviewMentionItem {
    pub label: String,
    pub insert_text: String,
}

impl View for ReviewMentionItem {
    type V = (Seq<char>, Seq<char>);

    open spec fn view(&self) -> (Seq<char>, Seq<char>) {
        (self.label@, self.insert_text@)
    }
}

/// The views of a sequence of items.
pub open spec fn items_view(s: Seq<ReviewMentionItem>) -> Seq<(Seq<char>, Seq<char>)> {
    s.map_values(|it: ReviewMentionItem| it@)
}

/// The candidate naming a file.
pub open spec fn file_item(path: Seq<char>) -> (Seq<char>, Seq<char>) {
    ("file  "@ + path, seq!['@'] + path)
}

/// The candidates naming each of the files.
pub open spec fn file_items(paths: Seq<Seq<char>>) -> Seq<(Seq<char>, Seq<char>)> {
    paths.map_values(|p: Seq<char>| file_item(p))
}

/// `file:side:line`, the reference to a line of one side of a file.
pub open spec fn line_ref(file: Seq<char>, side: Seq<char>, line: usize) -> Seq<char> {
    file + seq![':'] + side + seq![':'] + decimal(line as nat)
}

/// The candidate naming a line of one side of a file.
pub open spec fn line_item(file: Seq<char>, side: Seq<char>, line: usize) -> (Seq<char>, Seq<char>) {
    ("line  "@ + line_ref(file, side, line), seq!['@'] + line_ref(file, side, line))
}

/// Progress of the scan of the visible lines for line references: the
/// candidates so far, how many of them are line references, and the
/// references already considered.
pub struct RefScan {
    pub items: Seq<(Seq<char>, Seq<char>)>,
    pub refs: nat,
    pub seen: Seq<Seq<char>>,
}

/// Whether a lower-cased query accepts a mention: an empty one accepts every
/// mention, else it must occur in the mention, ignoring ASCII case.
pub open spec fn query_accepts(query_lc: Seq<char>, mention: Seq<char>) -> bool {
    query_lc.len() == 0 || contains_seq(lower(mention), query_lc)
}

/// Offers the reference to `line` of `side`: while fewer than the maximum of
/// references were offered, a reference not considered before is noted, and
/// added when the query accepts it.
pub open spec fn offer_ref(
    st: RefScan,
    file: Seq<char>,
    side: Seq<char>,
    line: usize,
    query_lc: Seq<char>,
) -> RefScan {
    let item = line_item(file, side, line);
    if st.refs < MAX_MENTION_REF_ITEMS && !st.seen.contains(item.1) {
        if query_accepts(query_lc, item.1) {
            RefScan { items: st.items.push(item), refs: st.refs + 1, seen: st.seen.push(item.1) }
        } else {
            RefScan { items: st.items, refs: st.refs, seen: st.seen.push(item.1) }
        }
    } else {
        st
    }
}

/// Offers the references of one visible line: none outside a hunk, else its
/// new line, then its old line.
pub open spec fn offer_line(st: RefScan, file: Seq<char>, line: ViewLine, query_lc: Seq<char>) -> RefScan {
    if line.hunk_index is None {
        st
    } else {
        let s1 = match line.new_line {
            Some(n) => offer_ref(st, file, "new"@, n, query_lc),
            None => st,
        };
        match line.old_line {
            Some(n) => offer_ref(s1, file, "old"@, n, query_lc),
            None => s1,
        }
    }
}

/// Scans the visible lines in order, stopping after a hunk line that brought
/// the references or the candidates to their maximum.
pub open spec fn scan_refs(
    st: RefScan,
    file: Seq<char>,
    lines: Seq<(usize, ViewLine)>,
    query_lc: Seq<char>,
) -> RefScan
    decreases lines.len(),
{
    if lines.len() == 0 {
        st
    } else {
        let line = lines[0].1;
        let s = offer_line(st, file, line, query_lc);
        if line.hunk_index is Some && (s.refs >= MAX_MENTION_REF_ITEMS || s.items.len()
            >= MAX_MENTION_ITEMS) {
            s
        } else {
            scan_refs(s, file, lines.drop_first(), query_lc)
        }
    }
}

/// The items of `repo` that are not in `changed`, in order.
pub open spec fn outside(repo: Seq<Seq<char>>, changed: Seq<Seq<char>>) -> Seq<Seq<char>>
    decreases repo.len(),
{
    if repo.len() == 0 {
        Seq::empty()
    } else if changed.contains(repo[0]) {
        outside(repo.drop_first(), changed)
    } else {
        seq![repo[0]] + outside(repo.drop_first(), changed)
    }
}

/// The first `n` items of `s` (all of them when it has fewer).
pub open spec fn take_at_most<A>(s: Seq<A>, n: int) -> Seq<A> {
    if n < s.len() {
        s.take(n)
    } else {
        s
    }
}

/// The candidates offered for `query` while `current` is the current file.
///
/// With an empty query: the changed files, then references to the lines of
/// the current file's hunks, then (with the repository scope) the
/// repository's other files, each group only while fewer than the maximum of
/// candidates were offered. With a query: the filtered files, then the
/// references that contain the query, cut to the maximum.
pub open spec fn mention_candidates_spec(
    query: Seq<char>,
    current: Seq<char>,
    changed: Seq<Seq<char>>,
    visible: Seq<(usize, ViewLine)>,
    scope: MentionFileScope,
    repo: Seq<Seq<char>>,
    filtered: Seq<Seq<char>>,
) -> Seq<(Seq<char>, Seq<char>)> {
    let q = lower(query);
    if query.len() == 0 {
        let items0 = file_items(take_at_most(changed, MAX_MENTION_ITEMS as int));
        let items1 = if items0.len() < MAX_MENTION_ITEMS && current.len() > 0 {
            scan_refs(RefScan { items: items0, refs: 0, seen: Seq::empty() }, current, visible, q).items
        } else {
            items0
        };
        if items1.len() < MAX_MENTION_ITEMS && scope == MentionFileScope::Repo {
            items1 + file_items(take_at_most(outside(repo, changed), MAX_MENTION_ITEMS - items1.len()))
        } else {
            items1
        }
    } else {
        let items0 = file_items(filtered);
        if items0.len() >= MAX_MENTION_ITEMS || current.len() == 0 {
            items0
        } else {
            take_at_most(
                scan_refs(RefScan { items: items0, refs: 0, seen: Seq::empty() }, current, visible, q).items,
                MAX_MENTION_ITEMS as int,
            )
        }
    }
}

fn make_file_item(path: &str) -> (r: ReviewMentionItem)
    ensures
        r@ == file_item(path@),
{
    proof {
        reveal_strlit("@");
    }
    ReviewMentionItem { label: concat_str("file  ", path), insert_text: concat_str("@", path) }
}

fn make_line_item(file: &str, side: &str, line: usize) -> (r: ReviewMentionItem)
    ensures
        r@ == line_item(file@, side@, line),
{
    let mut v = chars_of(file);
    v.push(':');
    let sc = chars_of(side);
    let mut i: usize = 0;
    let ghost base = v@;
    while i < sc.len()
        invariant
            0 <= i <= sc.len(),
            sc@ == side@,
            v@ == base + sc@.take(i as int),
        decreases sc.len() - i,
    {
        v.push(sc[i]);
        assert(sc@.take(i + 1) =~= sc@.take(i as int).push(sc@[i as int]));
        i = i + 1;
    }
    v.push(':');
    let digits = decimal_chars(line);
    let ghost base2 = v@;
    let mut k: usize = 0;
    while k < digits.len()
        invariant
            0 <= k <= digits.len(),
            v@ == base2 + digits@.take(k as int),
        decreases digits.len() - k,
    {
        v.push(digits[k]);
        assert(digits@.take(k + 1) =~= digits@.take(k as int).push(digits@[k as int]));
        k = k + 1;
    }
    assert(sc@.take(sc.len() as int) =~= sc@);
    assert(digits@.take(digits.len() as int) =~= digits@);
    assert(v@ =~= line_ref(file@, side@, line));
    let r = string_from_chars(v.as_slice());
    proof {
        reveal_strlit("@");
    }
    ReviewMentionItem { label: concat_str("line  ", r.as_str()), insert_text: concat_str("@", r.as_str()) }
}

/// The state of the exec scan, as a [`RefScan`].
spec fn scan_state(items: Seq<ReviewMentionItem>, refs: usize, seen: Seq<String>) -> RefScan {
    RefScan { items: items_view(items), refs: refs as nat, seen: strings_view(seen) }
}

fn offer_ref_exec(
    items: &mut Vec<ReviewMentionItem>,
    refs: &mut usize,
    seen: &mut Vec<String>,
    file: &str,
    side: &str,
    line: usize,
    query_lc: &[char],
)
    requires
        *old(refs) <= MAX_MENTION_REF_ITEMS,
    ensures
        *final(refs) <= MAX_MENTION_REF_ITEMS,
        scan_state(final(items)@, *final(refs), final(seen)@) == offer_ref(
            scan_state(old(items)@, *old(refs), old(seen)@),
            file@,
            side@,
            line,
            query_lc@,
        ),
{
    let item = make_line_item(file, side, line);
    let ghost st = scan_state(items@, *refs, seen@);
    let ghost li = line_item(file@, side@, line);
    if *refs < MAX_MENTION_REF_ITEMS && !contains_string(seen, &item.insert_text) {
        let ghost seen0 = seen@;
        seen.push(item.insert_text.clone());
        assert(strings_view(seen@) =~= strings_view(seen0).push(li.1));
        let accepted = if query_lc.len() == 0 {
            true
        } else {
            let lc = lower_chars(chars_of(item.insert_text.as_str()).as_slice());
            crate::text::chars_contain(lc.as_slice(), query_lc)
        };
        assert(accepted == query_accepts(query_lc@, li.1));
        if accepted {
            let ghost items0 = items@;
            items.push(item);
            assert(items_view(items@) =~= items_view(items0).push(li));
            *refs = *refs + 1;
        }
    }
}


fn slice_contains_string(v: &[String], x: &String) -> (r: bool)
    ensures
        r == strings_view(v@).contains(x@),
{
    let mut i: usize = 0;
    while i < v.len()
        invariant
            0 <= i <= v.len(),
            forall|j: int| 0 <= j < i ==> strings_view(v@)[j] != x@,
        decreases v.len() - i,
    {
        if v[i] == *x {
            assert(strings_view(v@)[i as int] == x@);
            return true;
        }
        i = i + 1;
    }
    false
}

fn scan_refs_exec(
    items: &mut Vec<ReviewMentionItem>,
    file: &str,
    visible: &[(usize, ViewLine)],
    query_lc: &[char],
)
    ensures
        items_view(final(items)@) == scan_refs(
            RefScan { items: items_view(old(items)@), refs: 0, seen: Seq::empty() },
            file@,
            visible@,
            query_lc@,
        ).items,
{
    let mut refs: usize = 0;
    let mut seen: Vec<String> = Vec::new();
    let ghost target = scan_refs(
        RefScan { items: items_view(items@), refs: 0, seen: Seq::empty() },
        file@,
        visible@,
        query_lc@,
    );
    assert(visible@.subrange(0, visible@.len() as int) =~= visible@);
    assert(strings_view(seen@) =~= Seq::<Seq<char>>::empty());
    let mut i: usize = 0;
    while i < visible.len()
        invariant
            0 <= i <= visible.len(),
            refs <= MAX_MENTION_REF_ITEMS,
            target == scan_refs(
                RefScan { items: items_view(old(items)@), refs: 0, seen: Seq::empty() },
                file@,
                visible@,
                query_lc@,
            ),
            scan_refs(scan_state(items@, refs, seen@), file@, visible@.subrange(i as int, visible@.len() as int), query_lc@).items
                == target.items,
        decreases visible.len() - i,
    {
        let ghost sub = visible@.subrange(i as int, visible@.len() as int);
        assert(sub[0] == visible@[i as int]);
        assert(sub.drop_first() =~= visible@.subrange(i + 1, visible@.len() as int));
        let line = &visible[i].1;
        let ghost st0 = scan_state(items@, refs, seen@);
        assert(sub[0].1 == *line);
        if line.hunk_index.is_some() {
            match line.new_line {
                Some(n) => offer_ref_exec(items, &mut refs, &mut seen, file, "new", n, query_lc),
                None => {},
            }
            match line.old_line {
                Some(n) => offer_ref_exec(items, &mut refs, &mut seen, file, "old", n, query_lc),
                None => {},
            }
            assert(scan_state(items@, refs, seen@) == offer_line(st0, file@, *line, query_lc@));
            if refs >= MAX_MENTION_REF_ITEMS || items.len() >= MAX_MENTION_ITEMS {
                assert(scan_refs(st0, file@, sub, query_lc@) == scan_state(items@, refs, seen@));
                return;
            }
        }
        i = i + 1;
    }
}

/// The candidates offered while a mention is typed (see
/// [`mention_candidates_spec`]). `changed_paths` are the changed files,
/// `visible` the visible lines of the current file, `repo_paths` the
/// repository's files and `filtered_paths` the files ranked against the
/// query.
pub fn review_mention_candidates(
    query: &str,
    current_file: &str,
    changed_paths: &[String],
    visible: &[(usize, ViewLine)],
    scope: MentionFileScope,
    repo_paths: &[String],
    filtered_paths: &[String],
) -> (r: Vec<ReviewMentionItem>)
    ensures
        items_view(r@) == mention_candidates_spec(
            query@,
            current_file@,
            strings_view(changed_paths@),
            visible@,
            scope,
            strings_view(repo_paths@),
            strings_view(filtered_paths@),
        ),
{
    let qc = chars_of(query);
    let ql = lower_chars(qc.as_slice());
    let cur_empty = current_file.unicode_len() == 0;
    let ghost changed = strings_view(changed_paths@);
    let ghost repo = strings_view(repo_paths@);
    let ghost filtered = strings_view(filtered_paths@);
    let mut items: Vec<ReviewMentionItem> = Vec::new();
    if qc.len() == 0 {
        let mut i: usize = 0;
        while i < changed_paths.len() && items.len() < MAX_MENTION_ITEMS
            invariant
                0 <= i <= changed_paths.len(),
                i <= MAX_MENTION_ITEMS,
                items.len() == i,
                changed == strings_view(changed_paths@),
                items_view(items@) == file_items(changed.take(i as int)),
            decreases changed_paths.len() - i,
        {
            let ghost before = items@;
            items.push(make_file_item(changed_paths[i].as_str()));
            assert(changed.take(i + 1) =~= changed.take(i as int).push(changed[i as int]));
            assert(items_view(items@) =~= items_view(before).push(file_item(changed[i as int])));
            assert(file_items(changed.take(i + 1)) =~= file_items(changed.take(i as int)).push(
                file_item(changed[i as int]),
            ));
            i = i + 1;
        }
        proof {
            if i < changed_paths.len() {
                assert(i == MAX_MENTION_ITEMS);
                assert(changed.take(i as int) == take_at_most(changed, MAX_MENTION_ITEMS as int));
            } else {
                assert(changed.take(i as int) =~= changed);
            }
        }
        let ghost items0 = items_view(items@);
        assert(items0 == file_items(take_at_most(changed, MAX_MENTION_ITEMS as int)));
        assert(cur_empty == (current_file@.len() == 0));
        if items.len() < MAX_MENTION_ITEMS && !cur_empty {
            scan_refs_exec(&mut items, current_file, visible, ql.as_slice());
        }
        let ghost items1 = items_view(items@);
        assert(items1 == if items0.len() < MAX_MENTION_ITEMS && current_file@.len() > 0 {
            scan_refs(RefScan { items: items0, refs: 0, seen: Seq::empty() }, current_file@, visible@, lower(query@)).items
        } else {
            items0
        });
        if items.len() < MAX_MENTION_ITEMS && scope == MentionFileScope::Repo {
            let ghost room = MAX_MENTION_ITEMS - items1.len();
            let ghost target = items1 + file_items(take_at_most(outside(repo, changed), room));
            assert(repo.subrange(0, repo.len() as int) =~= repo);
            assert(file_items(take_at_most(outside(repo, changed), room)) =~= file_items(
                take_at_most(outside(repo, changed), MAX_MENTION_ITEMS - items_view(items@).len()),
            ));
            let mut j: usize = 0;
            loop
                invariant
                    0 <= j <= repo_paths.len(),
                    items.len() <= MAX_MENTION_ITEMS,
                    repo == strings_view(repo_paths@),
                    changed == strings_view(changed_paths@),
                    target == items_view(items@) + file_items(
                        take_at_most(
                            outside(repo.subrange(j as int, repo.len() as int), changed),
                            MAX_MENTION_ITEMS - items.len(),
                        ),
                    ),
                ensures
                    target == items_view(items@),
                decreases repo_paths.len() - j,
            {
                if j >= repo_paths.len() {
                    assert(repo.subrange(j as int, repo.len() as int) =~= Seq::<Seq<char>>::empty());
                    assert(target =~= items_view(items@));
                    break;
                }
                let ghost sub = repo.subrange(j as int, repo.len() as int);
                assert(sub[0] == repo[j as int]);
                assert(sub.drop_first() =~= repo.subrange(j + 1, repo.len() as int));
                let path = &repo_paths[j];
                if slice_contains_string(changed_paths, path) {
                    j = j + 1;
                    continue;
                }
                if items.len() >= MAX_MENTION_ITEMS {
                    assert(file_items(take_at_most(outside(sub, changed), 0)) =~= Seq::empty());
                    assert(target =~= items_view(items@));
                    break;
                }
                let ghost rest = outside(repo.subrange(j + 1, repo.len() as int), changed);
                let ghost m = MAX_MENTION_ITEMS - items.len();
                let ghost before = items@;
                items.push(make_file_item(path.as_str()));
                proof {
                    assert(outside(sub, changed) == seq![repo[j as int]] + rest);
                    assert(take_at_most(seq![repo[j as int]] + rest, m) =~= seq![repo[j as int]]
                        + take_at_most(rest, m - 1));
                    assert(items_view(items@) =~= items_view(before).push(file_item(repo[j as int])));
                    assert(file_items(seq![repo[j as int]] + take_at_most(rest, m - 1)) =~= seq![
                        file_item(repo[j as int]),
                    ] + file_items(take_at_most(rest, m - 1)));
                    assert(target =~= items_view(items@) + file_items(take_at_most(rest, m - 1)));
                }
                j = j + 1;
            }
        }
        items
    } else {
        let mut i: usize = 0;
        while i < filtered_paths.len()
            invariant
                0 <= i <= filtered_paths.len(),
                filtered == strings_view(filtered_paths@),
                items_view(items@) == file_items(filtered.take(i as int)),
            decreases filtered_paths.len() - i,
        {
            let ghost before = items@;
            items.push(make_file_item(filtered_paths[i].as_str()));
            assert(filtered.take(i + 1) =~= filtered.take(i as int).push(filtered[i as int]));
            assert(items_view(items@) =~= items_view(before).push(file_item(filtered[i as int])));
            assert(file_items(filtered.take(i + 1)) =~= file_items(filtered.take(i as int)).push(
                file_item(filtered[i as int]),
            ));
            i = i + 1;
        }
        assert(filtered.take(i as int) =~= filtered);
        if items.len() >= MAX_MENTION_ITEMS || cur_empty {
            return items;
        }
        scan_refs_exec(&mut items, current_file, visible, ql.as_slice());
        if items.len() > MAX_MENTION_ITEMS {
            let ghost v = items_view(items@);
            items.truncate(MAX_MENTION_ITEMS);
            assert(items_view(items@) =~= v.take(MAX_MENTION_ITEMS as int));
        }
        items
    }
}

} // verus!
