//! Unix path strings: absoluteness, joining, and the file name, stem and
//! extension of a path, as `std::path` gives them.

use vstd::prelude::*;
use crate::text::{chars_of, string_from_chars};

verus! {

/// A Unix path is absolute when it starts at the root `/`.
pub open spec fn is_absolute(p: Seq<char>) -> bool {
    p.len() > 0 && p[0] == '/'
}

/// `base.join(rel)` on Unix: an absolute `rel` replaces `base`; otherwise
/// `rel` is appended, with a `/` between them unless `base` is empty or
/// already ends with one.
pub open spec fn join(base: Seq<char>, rel: Seq<char>) -> Seq<char> {
    if is_absolute(rel) {
        rel
    } else if base.len() == 0 || base.last() == '/' {
        base + rel
    } else {
        base + seq!['/'] + rel
    }
}

/// Whether the path string is absolute.
pub fn path_is_absolute(p: &str) -> (r: bool)
    ensures
        r == is_absolute(p@),
{
    let c = chars_of(p);
    c.len() > 0 && c[0] == '/'
}

/// `base` joined with `rel`.
pub fn path_join(base: &str, rel: &str) -> (r: String)
    ensures
        r@ == join(base@, rel@),
{
    let b = chars_of(base);
    let r = chars_of(rel);
    if r.len() > 0 && r[0] == '/' {
        return string_from_chars(r.as_slice());
    }
    let mut out: Vec<char> = Vec::new();
    let mut i: usize = 0;
    while i < b.len()
        invariant
            0 <= i <= b.len(),
            out@ == b@.take(i as int),
        decreases b.len() - i,
    {
        out.push(b[i]);
        i = i + 1;
    }
    assert(b@.take(b.len() as int) =~= b@);
    if !(b.len() == 0 || b[b.len() - 1] == '/') {
        out.push('/');
    }
    let ghost mid = out@;
    let mut k: usize = 0;
    while k < r.len()
        invariant
            0 <= k <= r.len(),
            out@ == mid + r@.take(k as int),
        decreases r.len() - k,
    {
        out.push(r[k]);
        k = k + 1;
    }
    assert(r@.take(r.len() as int) =~= r@);
    assert(out@ =~= join(base@, rel@));
    string_from_chars(out.as_slice())
}

/// `p` without trailing separators and trailing `/.` components.
pub open spec fn trim_trailing(p: Seq<char>) -> Seq<char>
    decreases p.len(),
{
    if p.len() > 0 && p.last() == '/' {
        trim_trailing(p.drop_last())
    } else if p.len() >= 2 && p.last() == '.' && p[p.len() - 2] == '/' {
        trim_trailing(p.drop_last())
    } else {
        p
    }
}

/// Index just past the last `/` of `q`, 0 when it has none.
pub open spec fn after_last_slash(q: Seq<char>) -> nat
    decreases q.len(),
{
    if q.len() == 0 {
        0
    } else if q.last() == '/' {
        q.len()
    } else {
        after_last_slash(q.drop_last())
    }
}

/// Where the last component of `p` stands, as `(start, end)`: after trailing
/// separators and `.` components are set aside, the text after the last
/// `/`; none when that is empty, `.` or `..` (`Path::file_name`).
pub open spec fn file_name_bounds(p: Seq<char>) -> Option<(nat, nat)> {
    let q = trim_trailing(p);
    let k = after_last_slash(q);
    let name = q.skip(k as int);
    if name.len() == 0 || name == seq!['.'] || name == seq!['.', '.'] {
        None
    } else {
        Some((k, q.len()))
    }
}

/// The last component of `p` (`Path::file_name`).
pub open spec fn file_name(p: Seq<char>) -> Option<Seq<char>> {
    match file_name_bounds(p) {
        Some((s, e)) => Some(p.subrange(s as int, e as int)),
        None => None,
    }
}

/// Index of the last `.` of `f`.
pub open spec fn last_dot(f: Seq<char>) -> Option<nat>
    decreases f.len(),
{
    if f.len() == 0 {
        None
    } else if f.last() == '.' {
        Some((f.len() - 1) as nat)
    } else {
        last_dot(f.drop_last())
    }
}

/// The stem of a file name: before its last `.`, unless that `.` starts it
/// or there is none.
pub open spec fn stem_of(f: Seq<char>) -> Seq<char> {
    match last_dot(f) {
        Some(d) => if d > 0 {
            f.take(d as int)
        } else {
            f
        },
        None => f,
    }
}

/// The extension of a file name: after its last `.`, unless that `.` starts
/// it or there is none.
pub open spec fn extension_of(f: Seq<char>) -> Option<Seq<char>> {
    match last_dot(f) {
        Some(d) => if d > 0 {
            Some(f.skip((d + 1) as int))
        } else {
            None
        },
        None => None,
    }
}

/// `Path::file_stem`.
pub open spec fn file_stem(p: Seq<char>) -> Option<Seq<char>> {
    match file_name(p) {
        Some(f) => Some(stem_of(f)),
        None => None,
    }
}

/// `Path::extension`.
pub open spec fn extension(p: Seq<char>) -> Option<Seq<char>> {
    match file_name(p) {
        Some(f) => extension_of(f),
        None => None,
    }
}

/// `Path::with_extension`: the path cut just after its file stem, followed by
/// `.` and `ext` (non-empty); unchanged when it has no file name.
pub open spec fn with_extension(p: Seq<char>, ext: Seq<char>) -> Seq<char> {
    match file_name_bounds(p) {
        Some((s, e)) => p.take((s + stem_of(p.subrange(s as int, e as int)).len()) as int) + seq!['.'] + ext,
        None => p,
    }
}

proof fn lemma_trim_trailing(p: Seq<char>)
    ensures
        trim_trailing(p).len() <= p.len(),
        trim_trailing(p) == p.take(trim_trailing(p).len() as int),
    decreases p.len(),
{
    if (p.len() > 0 && p.last() == '/') || (p.len() >= 2 && p.last() == '.' && p[p.len() - 2] == '/') {
        lemma_trim_trailing(p.drop_last());
        let t = trim_trailing(p.drop_last());
        assert(p.drop_last().take(t.len() as int) =~= p.take(t.len() as int));
    } else {
        assert(p.take(p.len() as int) =~= p);
    }
}

proof fn lemma_after_last_slash(q: Seq<char>)
    ensures
        after_last_slash(q) <= q.len(),
        after_last_slash(q) > 0 ==> q[after_last_slash(q) - 1] == '/',
        forall|i: int| after_last_slash(q) <= i < q.len() ==> #[trigger] q[i] != '/',
    decreases q.len(),
{
    if q.len() > 0 && q.last() != '/' {
        lemma_after_last_slash(q.drop_last());
        assert forall|i: int| after_last_slash(q) <= i < q.len() implies #[trigger] q[i] != '/' by {
            if i < q.len() - 1 {
                assert(q[i] == q.drop_last()[i]);
            }
        }
    }
}

proof fn lemma_last_dot(f: Seq<char>)
    ensures
        last_dot(f) matches Some(d) ==> d < f.len() && f[d as int] == '.',
        last_dot(f) matches Some(d) ==> forall|i: int| d < i < f.len() ==> #[trigger] f[i] != '.',
        last_dot(f) is None ==> forall|i: int| 0 <= i < f.len() ==> #[trigger] f[i] != '.',
    decreases f.len(),
{
    if f.len() > 0 && f.last() != '.' {
        lemma_last_dot(f.drop_last());
        assert forall|i: int| 0 <= i < f.len() - 1 implies #[trigger] f[i] == f.drop_last()[i] by {}
    }
}

/// Where the last component of `p` stands (see [`file_name_bounds`]).
pub fn file_name_range(p: &[char]) -> (r: Option<(usize, usize)>)
    ensures
        match r {
            Some((s, e)) => file_name_bounds(p@) == Some((s as nat, e as nat)) && s < e <= p.len(),
            None => file_name_bounds(p@) is None,
        },
{
    proof {
        lemma_trim_trailing(p@);
    }
    let mut n: usize = p.len();
    assert(p@.take(n as int) =~= p@);
    while n > 0 && (p[n - 1] == '/' || (n >= 2 && p[n - 1] == '.' && p[n - 2] == '/'))
        invariant
            0 <= n <= p.len(),
            trim_trailing(p@) == trim_trailing(p@.take(n as int)),
        decreases n,
    {
        assert(p@.take(n as int).drop_last() =~= p@.take(n - 1));
        n = n - 1;
    }
    proof {
        let t = p@.take(n as int);
        if n > 0 {
            assert(t.last() == p@[n - 1]);
        }
        if n >= 2 {
            assert(t[t.len() - 2] == p@[n - 2]);
        }
    }
    let ghost q = p@.take(n as int);
    let mut k: usize = n;
    assert(q.take(n as int) =~= q);
    while k > 0 && p[k - 1] != '/'
        invariant
            0 <= k <= n <= p.len(),
            q == p@.take(n as int),
            after_last_slash(q) == after_last_slash(q.take(k as int)),
        decreases k,
    {
        assert(q.take(k as int).drop_last() =~= q.take(k - 1));
        k = k - 1;
    }
    proof {
        if k > 0 {
            assert(q.take(k as int).last() == p@[k - 1]);
        } else {
            assert(q.take(0) =~= Seq::<char>::empty());
        }
        assert(after_last_slash(q) == k);
    }
    let len = n - k;
    let is_dot = len == 1 && p[k] == '.';
    let is_dotdot = len == 2 && p[k] == '.' && p[k + 1] == '.';
    proof {
        let name = q.skip(k as int);
        if len == 1 {
            assert(name[0] == p@[k as int]);
            if p@[k as int] == '.' {
                assert(name =~= seq!['.']);
            }
        }
        if len == 2 {
            assert(name[0] == p@[k as int]);
            assert(name[1] == p@[k + 1]);
            if p@[k as int] == '.' && p@[k + 1] == '.' {
                assert(name =~= seq!['.', '.']);
            }
        }
    }
    if len == 0 || is_dot || is_dotdot {
        None
    } else {
        Some((k, n))
    }
}

/// Index of the last `.` of `p[s..e]`, relative to `s`.
pub fn last_dot_in(p: &[char], s: usize, e: usize) -> (r: Option<usize>)
    requires
        s <= e <= p.len(),
    ensures
        match r {
            Some(d) => last_dot(p@.subrange(s as int, e as int)) == Some(d as nat) && d < e - s,
            None => last_dot(p@.subrange(s as int, e as int)) is None,
        },
{
    let ghost f = p@.subrange(s as int, e as int);
    let mut j: usize = e;
    assert(f.take((e - s) as int) =~= f);
    while j > s && p[j - 1] != '.'
        invariant
            s <= j <= e <= p.len(),
            f == p@.subrange(s as int, e as int),
            last_dot(f) == last_dot(f.take(j - s)),
        decreases j,
    {
        assert(f.take(j - s).drop_last() =~= f.take(j - s - 1));
        assert(f.take(j - s).last() == p@[j - 1]);
        j = j - 1;
    }
    if j > s {
        assert(f.take(j - s).last() == p@[j - 1]);
        Some(j - s - 1)
    } else {
        assert(f.take(0) =~= Seq::<char>::empty());
        None
    }
}

} // verus!
