//! Git change lists: file status, changed files and commit statistics, and
//! the parsing of `git diff --name-status` and `git log --shortstat` output.

use vstd::prelude::*;
use crate::text::{
    chars_of, chars_contain, contains_seq, lines_chars, lines_of, split_chars, split_on,
    chars_view, string_from_chars, trim, trim_chars, parse_usize, parse_usize_spec, is_whitespace,
    char_is_whitespace, concat_str, parse_u64, parse_u64_spec, parse_i64, parse_i64_spec,
    split_words, words,
};

verus! {

/// Errors of git operations.
#[derive(Debug)]
pub enum GitError {
    /// The directory is not a git repository.
    NotARepo,
    /// A git command failed; its standard error.
    CommandFailed(String),
    /// An I/O error; its message.
    Io(String),
}

/// The message shown for a git error.
pub open spec fn git_error_message(e: GitError) -> Seq<char> {
    match e {
        GitError::NotARepo => "Not a git repository"@,
        GitError::CommandFailed(s) => "Git command failed: "@ + s@,
        GitError::Io(s) => "IO error: "@ + s@,
    }
}

impl GitError {
    /// The message shown for this error.
    pub fn message(&self) -> (r: String)
        ensures
            r@ == git_error_message(*self),
    {
        match self {
            GitError::NotARepo => "Not a git repository".to_owned(),
            GitError::CommandFailed(s) => concat_str("Git command failed: ", s.as_str()),
            GitError::Io(s) => concat_str("IO error: ", s.as_str()),
        }
    }
}

/// Status of a file in git.
#[derive(Debug, Clone, Copy, PartialEq, Eq, Structural)]
pub enum FileStatus {
    Modified,
    Added,
    Deleted,
    Renamed,
    Untracked,
}

/// A changed file in git.
#[derive(Debug)]
pub struct ChangedFile {
    pub path: String,
    pub status: FileStatus,
    /// For renamed files, the original path
    pub old_path: Option<String>,
}

/// Mathematical content of a [`ChangedFile`].
pub struct ChangedFileModel {
    pub path: Seq<char>,
    pub status: FileStatus,
    pub old_path: Option<Seq<char>>,
}

/// The view of an optional string.
pub open spec fn opt_str_view(o: Option<String>) -> Option<Seq<char>> {
    match o {
        Some(s) => Some(s@),
        None => None,
    }
}

impl View for ChangedFile {
    type V = ChangedFileModel;

    open spec fn view(&self) -> ChangedFileModel {
        ChangedFileModel { path: self.path@, status: self.status, old_path: opt_str_view(self.old_path) }
    }
}

/// The views of a sequence of changed files.
pub open spec fn changed_files_view(s: Seq<ChangedFile>) -> Seq<ChangedFileModel> {
    s.map_values(|c: ChangedFile| c@)
}

/// Summary stats for a commit.
#[derive(Debug, Clone, Copy, PartialEq, Eq, Structural)]
pub struct CommitStats {
    pub files_changed: usize,
    pub insertions: usize,
    pub deletions: usize,
}

/// Commit metadata for log views.
#[derive(Debug)]
pub struct CommitEntry {
    pub id: String,
    pub short_id: String,
    pub parents: Vec<String>,
    pub author: String,
    pub author_time: Option<i64>,
    pub summary: String,
    pub stats: Option<CommitStats>,
}

// ---------------------------------------------------------------------------
// `git diff --name-status`
// ---------------------------------------------------------------------------

/// The status letter that starts a name-status line.
pub open spec fn status_of_letter(c: char) -> Option<FileStatus> {
    if c == 'M' {
        Some(FileStatus::Modified)
    } else if c == 'A' {
        Some(FileStatus::Added)
    } else if c == 'D' {
        Some(FileStatus::Deleted)
    } else if c == 'R' {
        Some(FileStatus::Renamed)
    } else {
        None
    }
}

/// The changed file that one line of `--name-status` output describes: the
/// trimmed line is split at tabs; its first field starts with `M`, `A`, `D`
/// or `R`; the path is the last field, and a rename with three fields names
/// its old path in the second. Lines that do not fit give nothing.
pub open spec fn name_status_entry(line: Seq<char>) -> Option<ChangedFileModel> {
    let parts = split_on(trim(line), '\t');
    let first = parts[0];
    let letter = if first.len() > 0 {
        first[0]
    } else {
        ' '
    };
    if trim(line).len() == 0 || parts.len() < 2 {
        None
    } else {
        match status_of_letter(letter) {
            Some(status) => Some(
                ChangedFileModel {
                    path: parts.last(),
                    status,
                    old_path: if status == FileStatus::Renamed && parts.len() >= 3 {
                        Some(parts[1])
                    } else {
                        None
                    },
                },
            ),
            None => None,
        }
    }
}

/// The changed files described by a sequence of lines, in order.
pub open spec fn name_status_entries(lines: Seq<Seq<char>>) -> Seq<ChangedFileModel>
    decreases lines.len(),
{
    if lines.len() == 0 {
        Seq::empty()
    } else {
        name_status_entries(lines.drop_last()) + match name_status_entry(lines.last()) {
            Some(e) => seq![e],
            None => Seq::empty(),
        }
    }
}

fn name_status_line(line: &[char]) -> (r: Option<ChangedFile>)
    ensures
        match r {
            Some(c) => name_status_entry(line@) == Some(c@),
            None => name_status_entry(line@) is None,
        },
{
    let t = trim_chars(line);
    if t.len() == 0 {
        return None;
    }
    let parts = split_chars(t.as_slice(), '\t');
    proof {
        crate::text::lemma_split_on_nonempty(t@, '\t');
        assert(chars_view(parts@)[0] == parts@[0]@);
    }
    let letter = if parts[0].len() > 0 {
        parts[0][0]
    } else {
        ' '
    };
    let status = if letter == 'M' {
        FileStatus::Modified
    } else if letter == 'A' {
        FileStatus::Added
    } else if letter == 'D' {
        FileStatus::Deleted
    } else if letter == 'R' {
        FileStatus::Renamed
    } else {
        return None;
    };
    if parts.len() < 2 {
        return None;
    }
    let n = parts.len();
    proof {
        assert(chars_view(parts@).last() == parts@[n - 1]@);
        assert(chars_view(parts@)[1] == parts@[1]@);
    }
    let path = string_from_chars(parts[n - 1].as_slice());
    let old_path = if matches!(status, FileStatus::Renamed) && n >= 3 {
        Some(string_from_chars(parts[1].as_slice()))
    } else {
        None
    };
    Some(ChangedFile { path, status, old_path })
}

/// Appends the changed files that `git diff --name-status` output describes.
pub fn parse_name_status(output: &str, changes: &mut Vec<ChangedFile>)
    ensures
        changed_files_view(final(changes)@) == changed_files_view(old(changes)@)
            + name_status_entries(lines_of(output@)),
{
    let chars = chars_of(output);
    let lines = lines_chars(chars.as_slice());
    let ghost ls = lines_of(output@);
    let ghost start = changed_files_view(changes@);
    let mut i: usize = 0;
    while i < lines.len()
        invariant
            0 <= i <= lines.len(),
            chars_view(lines@) == ls,
            changed_files_view(changes@) == start + name_status_entries(ls.take(i as int)),
        decreases lines.len() - i,
    {
        assert(ls.take(i + 1).drop_last() =~= ls.take(i as int));
        assert(ls[i as int] == lines@[i as int]@);
        let entry = name_status_line(lines[i].as_slice());
        match entry {
            Some(c) => {
                let ghost prev = changes@;
                changes.push(c);
                assert(changed_files_view(changes@) =~= changed_files_view(prev).push(c@));
            },
            None => {},
        }
        assert(changed_files_view(changes@) =~= start + name_status_entries(ls.take(i + 1)));
        i = i + 1;
    }
    assert(ls.take(lines.len() as int) =~= ls);
}

// ---------------------------------------------------------------------------
// `git log --shortstat`
// ---------------------------------------------------------------------------

/// The text "file changed".
pub open spec fn file_changed_words() -> Seq<char> {
    seq!['f', 'i', 'l', 'e', ' ', 'c', 'h', 'a', 'n', 'g', 'e', 'd']
}

/// The text "files changed".
pub open spec fn files_changed_words() -> Seq<char> {
    seq!['f', 'i', 'l', 'e', 's', ' ', 'c', 'h', 'a', 'n', 'g', 'e', 'd']
}

/// The text "insertion".
pub open spec fn insertion_word() -> Seq<char> {
    seq!['i', 'n', 's', 'e', 'r', 't', 'i', 'o', 'n']
}

/// The text "deletion".
pub open spec fn deletion_word() -> Seq<char> {
    seq!['d', 'e', 'l', 'e', 't', 'i', 'o', 'n']
}

/// Length of the leading run of non-whitespace characters.
pub open spec fn token_len(s: Seq<char>) -> nat
    decreases s.len(),
{
    if s.len() > 0 && !is_whitespace(s[0]) {
        1 + token_len(s.drop_first())
    } else {
        0
    }
}

/// The number that starts a trimmed part (its first whitespace-separated
/// word, read as `usize`), or 0.
pub open spec fn part_count(part: Seq<char>) -> usize {
    match parse_usize_spec(part.take(token_len(part) as int)) {
        Some(v) => v,
        None => 0,
    }
}

/// Whether the text mentions the changed-file count.
pub open spec fn mentions_files(t: Seq<char>) -> bool {
    contains_seq(t, file_changed_words()) || contains_seq(t, files_changed_words())
}

/// The stats after reading one comma-separated part of a shortstat line.
pub open spec fn apply_shortstat_part(stats: CommitStats, raw: Seq<char>) -> CommitStats {
    let part = trim(raw);
    let count = part_count(part);
    if mentions_files(part) {
        CommitStats { files_changed: count, ..stats }
    } else if contains_seq(part, insertion_word()) {
        CommitStats { insertions: count, ..stats }
    } else if contains_seq(part, deletion_word()) {
        CommitStats { deletions: count, ..stats }
    } else {
        stats
    }
}

/// The stats after reading the parts in order, from all zero.
pub open spec fn shortstat_parts(parts: Seq<Seq<char>>) -> CommitStats
    decreases parts.len(),
{
    if parts.len() == 0 {
        CommitStats { files_changed: 0, insertions: 0, deletions: 0 }
    } else {
        apply_shortstat_part(shortstat_parts(parts.drop_last()), parts.last())
    }
}

/// What a `--shortstat` summary line says: nothing unless it mentions the
/// changed files, else the counts of its comma-separated parts (absent ones
/// zero, a later part overriding an earlier one).
pub open spec fn shortstat_spec(line: Seq<char>) -> Option<CommitStats> {
    if !mentions_files(line) {
        None
    } else {
        Some(shortstat_parts(split_on(line, ',')))
    }
}

proof fn lemma_parts_deletions(ps: Seq<Seq<char>>, k: int)
    requires
        0 <= k < ps.len(),
        !mentions_files(trim(ps[k])),
        !contains_seq(trim(ps[k]), insertion_word()),
        contains_seq(trim(ps[k]), deletion_word()),
        forall|j: int| k < j < ps.len() ==> !contains_seq(trim(#[trigger] ps[j]), deletion_word()),
    ensures
        shortstat_parts(ps).deletions == part_count(trim(ps[k])),
    decreases ps.len(),
{
    if k < ps.len() - 1 {
        let prev = ps.drop_last();
        assert forall|j: int| k < j < prev.len() implies !contains_seq(trim(#[trigger] prev[j]), deletion_word()) by {
            assert(prev[j] == ps[j]);
        }
        assert(prev[k] == ps[k]);
        lemma_parts_deletions(prev, k);
        assert(!contains_seq(trim(ps[ps.len() - 1]), deletion_word()));
    }
}

proof fn lemma_parts_insertions(ps: Seq<Seq<char>>, k: int)
    requires
        0 <= k < ps.len(),
        !mentions_files(trim(ps[k])),
        contains_seq(trim(ps[k]), insertion_word()),
        forall|j: int| k < j < ps.len() ==> !contains_seq(trim(#[trigger] ps[j]), insertion_word()),
    ensures
        shortstat_parts(ps).insertions == part_count(trim(ps[k])),
    decreases ps.len(),
{
    if k < ps.len() - 1 {
        let prev = ps.drop_last();
        assert forall|j: int| k < j < prev.len() implies !contains_seq(trim(#[trigger] prev[j]), insertion_word()) by {
            assert(prev[j] == ps[j]);
        }
        assert(prev[k] == ps[k]);
        lemma_parts_insertions(prev, k);
        assert(!contains_seq(trim(ps[ps.len() - 1]), insertion_word()));
    }
}

proof fn lemma_parts_files(ps: Seq<Seq<char>>, k: int)
    requires
        0 <= k < ps.len(),
        mentions_files(trim(ps[k])),
        forall|j: int| k < j < ps.len() ==> !mentions_files(trim(#[trigger] ps[j])),
    ensures
        shortstat_parts(ps).files_changed == part_count(trim(ps[k])),
    decreases ps.len(),
{
    if k < ps.len() - 1 {
        let prev = ps.drop_last();
        assert forall|j: int| k < j < prev.len() implies !mentions_files(trim(#[trigger] prev[j])) by {
            assert(prev[j] == ps[j]);
        }
        assert(prev[k] == ps[k]);
        lemma_parts_files(prev, k);
        assert(!mentions_files(trim(ps[ps.len() - 1])));
    }
}

/// A shortstat line that mentions the changed files is read, and each count
/// is the number that starts the last comma-separated part naming it: the
/// deletions from a part such as `5 deletions(-)`, whatever other parts
/// there are, the insertions from a part such as `10 insertions(+)`, the
/// changed files from a part such as `3 files changed`.
pub proof fn law_shortstat_reads_each_count(line: Seq<char>, k: int)
    requires
        mentions_files(line),
        0 <= k < split_on(line, ',').len(),
    ensures
        shortstat_spec(line) is Some,
        ({
            let ps = split_on(line, ',');
            let part = trim(ps[k]);
            !mentions_files(part) && !contains_seq(part, insertion_word()) && contains_seq(part, deletion_word())
                && (forall|j: int| k < j < ps.len() ==> !contains_seq(trim(#[trigger] ps[j]), deletion_word()))
                ==> shortstat_spec(line)->0.deletions == part_count(part)
        }),
        ({
            let ps = split_on(line, ',');
            let part = trim(ps[k]);
            !mentions_files(part) && contains_seq(part, insertion_word()) && (forall|j: int|
                k < j < ps.len() ==> !contains_seq(trim(#[trigger] ps[j]), insertion_word()))
                ==> shortstat_spec(line)->0.insertions == part_count(part)
        }),
        ({
            let ps = split_on(line, ',');
            let part = trim(ps[k]);
            mentions_files(part) && (forall|j: int| k < j < ps.len() ==> !mentions_files(trim(#[trigger] ps[j])))
                ==> shortstat_spec(line)->0.files_changed == part_count(part)
        }),
{
    let ps = split_on(line, ',');
    let part = trim(ps[k]);
    if !mentions_files(part) && !contains_seq(part, insertion_word()) && contains_seq(part, deletion_word())
        && (forall|j: int| k < j < ps.len() ==> !contains_seq(trim(#[trigger] ps[j]), deletion_word())) {
        lemma_parts_deletions(ps, k);
    }
    if !mentions_files(part) && contains_seq(part, insertion_word()) && (forall|j: int|
        k < j < ps.len() ==> !contains_seq(trim(#[trigger] ps[j]), insertion_word())) {
        lemma_parts_insertions(ps, k);
    }
    if mentions_files(part) && (forall|j: int| k < j < ps.len() ==> !mentions_files(trim(#[trigger] ps[j]))) {
        lemma_parts_files(ps, k);
    }
}

fn token_end(s: &[char]) -> (r: usize)
    ensures
        r == token_len(s@),
        r <= s.len(),
{
    let mut i: usize = 0;
    assert(s@.skip(0) =~= s@);
    while i < s.len() && !char_is_whitespace(s[i])
        invariant
            0 <= i <= s.len(),
            token_len(s@) == i + token_len(s@.skip(i as int)),
        decreases s.len() - i,
    {
        assert(s@.skip(i as int).drop_first() =~= s@.skip(i + 1));
        i = i + 1;
    }
    proof {
        if i < s.len() {
            assert(s@.skip(i as int)[0] == s@[i as int]);
        }
    }
    i
}

fn literal(which: u8) -> (v: Vec<char>)
    ensures
        which == 0 ==> v@ == file_changed_words(),
        which == 1 ==> v@ == files_changed_words(),
        which == 2 ==> v@ == insertion_word(),
        which == 3 ==> v@ == deletion_word(),
{
    let mut v: Vec<char> = Vec::new();
    if which == 0 || which == 1 {
        v.push('f');
        v.push('i');
        v.push('l');
        v.push('e');
        if which == 1 {
            v.push('s');
        }
        v.push(' ');
        v.push('c');
        v.push('h');
        v.push('a');
        v.push('n');
        v.push('g');
        v.push('e');
        v.push('d');
    } else if which == 2 {
        v.push('i');
        v.push('n');
        v.push('s');
        v.push('e');
        v.push('r');
        v.push('t');
        v.push('i');
        v.push('o');
        v.push('n');
    } else if which == 3 {
        v.push('d');
        v.push('e');
        v.push('l');
        v.push('e');
        v.push('t');
        v.push('i');
        v.push('o');
        v.push('n');
    }
    proof {
        if which == 0 {
            assert(v@ =~= file_changed_words());
        } else if which == 1 {
            assert(v@ =~= files_changed_words());
        } else if which == 2 {
            assert(v@ =~= insertion_word());
        } else if which == 3 {
            assert(v@ =~= deletion_word());
        }
    }
    v
}

/// Reads a `--shortstat` summary line such as
/// ` 3 files changed, 10 insertions(+), 2 deletions(-)`.
pub fn parse_shortstat(line: &str) -> (r: Option<CommitStats>)
    ensures
        r == shortstat_spec(line@),
{
    let chars = chars_of(line);
    let one = literal(0);
    let many = literal(1);
    let ins = literal(2);
    let del = literal(3);
    if !chars_contain(chars.as_slice(), one.as_slice()) && !chars_contain(
        chars.as_slice(),
        many.as_slice(),
    ) {
        return None;
    }
    let parts = split_chars(chars.as_slice(), ',');
    let ghost ps = split_on(line@, ',');
    let mut stats = CommitStats { files_changed: 0, insertions: 0, deletions: 0 };
    let mut i: usize = 0;
    while i < parts.len()
        invariant
            0 <= i <= parts.len(),
            chars_view(parts@) == ps,
            one@ == file_changed_words(),
            many@ == files_changed_words(),
            ins@ == insertion_word(),
            del@ == deletion_word(),
            stats == shortstat_parts(ps.take(i as int)),
        decreases parts.len() - i,
    {
        assert(ps.take(i + 1).drop_last() =~= ps.take(i as int));
        assert(ps[i as int] == parts@[i as int]@);
        let part = trim_chars(parts[i].as_slice());
        let tl = token_end(part.as_slice());
        let word = crate::text::slice_chars(part.as_slice(), 0, tl);
        assert(word@ =~= part@.take(tl as int));
        let count = match parse_usize(word.as_slice()) {
            Some(v) => v,
            None => 0,
        };
        if chars_contain(part.as_slice(), one.as_slice()) || chars_contain(
            part.as_slice(),
            many.as_slice(),
        ) {
            stats.files_changed = count;
        } else if chars_contain(part.as_slice(), ins.as_slice()) {
            stats.insertions = count;
        } else if chars_contain(part.as_slice(), del.as_slice()) {
            stats.deletions = count;
        }
        i = i + 1;
    }
    assert(ps.take(parts.len() as int) =~= ps);
    Some(stats)
}

// ---------------------------------------------------------------------------
// Untracked files and the uncommitted change list.
// ---------------------------------------------------------------------------

/// The untracked files that `git ls-files --others` output lists: every
/// line, trimmed, that is not blank.
pub open spec fn untracked_entries(lines: Seq<Seq<char>>) -> Seq<ChangedFileModel>
    decreases lines.len(),
{
    if lines.len() == 0 {
        Seq::empty()
    } else {
        let rest = untracked_entries(lines.drop_last());
        let t = trim(lines.last());
        if t.len() > 0 {
            rest.push(ChangedFileModel { path: t, status: FileStatus::Untracked, old_path: None })
        } else {
            rest
        }
    }
}

/// The untracked files listed by `git ls-files --others` output.
pub fn parse_untracked(output: &str) -> (r: Vec<ChangedFile>)
    ensures
        changed_files_view(r@) == untracked_entries(lines_of(output@)),
{
    let chars = chars_of(output);
    let lines = lines_chars(chars.as_slice());
    let ghost ls = lines_of(output@);
    let mut out: Vec<ChangedFile> = Vec::new();
    let mut i: usize = 0;
    assert(ls.take(0) =~= Seq::<Seq<char>>::empty());
    while i < lines.len()
        invariant
            0 <= i <= lines.len(),
            chars_view(lines@) == ls,
            changed_files_view(out@) == untracked_entries(ls.take(i as int)),
        decreases lines.len() - i,
    {
        assert(ls.take(i + 1).drop_last() =~= ls.take(i as int));
        assert(ls.take(i + 1).last() == lines@[i as int]@);
        let t = trim_chars(lines[i].as_slice());
        if t.len() > 0 {
            let c = ChangedFile { path: string_from_chars(t.as_slice()), status: FileStatus::Untracked, old_path: None };
            let ghost before = out@;
            out.push(c);
            assert(changed_files_view(out@) =~= changed_files_view(before).push(c@));
        }
        i = i + 1;
    }
    assert(ls.take(lines.len() as int) =~= ls);
    out
}

/// The rank of a character in path order: the separator before every other
/// character, which rank by code point.
pub open spec fn path_rank(c: char) -> int {
    if c == '/' {
        -1
    } else {
        (c as u32) as int
    }
}

/// `a` comes before `b` in path order: compared character by character with
/// `/` ranking first, a proper prefix first. For paths as git prints them
/// (relative, with no empty or `.` components) this is the order of `Path`,
/// which compares component by component.
pub open spec fn path_lt(a: Seq<char>, b: Seq<char>) -> bool
    decreases a.len(),
{
    if a.len() == 0 {
        b.len() > 0
    } else if b.len() == 0 {
        false
    } else if a[0] == b[0] {
        path_lt(a.drop_first(), b.drop_first())
    } else {
        path_rank(a[0]) < path_rank(b[0])
    }
}

pub proof fn lemma_path_lt_total(a: Seq<char>, b: Seq<char>)
    ensures
        a != b ==> path_lt(a, b) || path_lt(b, a),
        !(path_lt(a, b) && path_lt(b, a)),
        !path_lt(a, a),
    decreases a.len(),
{
    if a.len() == 0 || b.len() == 0 {
        if a.len() == 0 && b.len() == 0 {
            assert(a =~= b);
        }
        if a.len() > 0 {
            lemma_path_lt_total(a.drop_first(), a.drop_first());
        }
    } else if a[0] == b[0] {
        lemma_path_lt_total(a.drop_first(), b.drop_first());
        lemma_path_lt_total(a.drop_first(), a.drop_first());
        if a.drop_first() == b.drop_first() {
            assert(a =~= seq![a[0]] + a.drop_first());
            assert(b =~= seq![b[0]] + b.drop_first());
        }
    } else {
        lemma_path_lt_total(a.drop_first(), a.drop_first());
        if a[0] != '/' && b[0] != '/' {
            vstd::utf8::char_u32_cast(a[0], a[0] as u32);
            vstd::utf8::char_u32_cast(b[0], b[0] as u32);
        }
        assert(path_rank(a[0]) != path_rank(b[0]));
    }
}

pub proof fn lemma_path_lt_trans(a: Seq<char>, b: Seq<char>, c: Seq<char>)
    requires
        path_lt(a, b),
        path_lt(b, c),
    ensures
        path_lt(a, c),
    decreases a.len(),
{
    if a.len() > 0 && b.len() > 0 && c.len() > 0 {
        if a[0] == b[0] && b[0] == c[0] {
            lemma_path_lt_trans(a.drop_first(), b.drop_first(), c.drop_first());
        }
    }
}

pub fn path_less(a: &String, b: &String) -> (r: bool)
    ensures
        r == path_lt(a@, b@),
{
    let x = chars_of(a.as_str());
    let y = chars_of(b.as_str());
    let mut i: usize = 0;
    assert(x@.skip(0) =~= x@);
    assert(y@.skip(0) =~= y@);
    while i < x.len() && i < y.len() && x[i] == y[i]
        invariant
            0 <= i <= x.len(),
            i <= y.len(),
            path_lt(x@, y@) == path_lt(x@.skip(i as int), y@.skip(i as int)),
            x@ == a@,
            y@ == b@,
        decreases x.len() - i,
    {
        assert(x@.skip(i as int).drop_first() =~= x@.skip(i + 1));
        assert(y@.skip(i as int).drop_first() =~= y@.skip(i + 1));
        i = i + 1;
    }
    if i == x.len() {
        assert(x@.skip(i as int).len() == 0);
        return i < y.len();
    }
    if i == y.len() {
        return false;
    }
    assert(x@.skip(i as int)[0] == x@[i as int]);
    assert(y@.skip(i as int)[0] == y@[i as int]);
    let rx: i64 = if x[i] == '/' {
        -1
    } else {
        (x[i] as u32) as i64
    };
    let ry: i64 = if y[i] == '/' {
        -1
    } else {
        (y[i] as u32) as i64
    };
    rx < ry
}

/// Index of the first change of `s` at path `p`.
pub open spec fn first_with_path(s: Seq<ChangedFileModel>, p: Seq<char>) -> Option<nat>
    decreases s.len(),
{
    if s.len() == 0 {
        None
    } else {
        match first_with_path(s.drop_last(), p) {
            Some(k) => Some(k),
            None => if s.last().path == p {
                Some((s.len() - 1) as nat)
            } else {
                None
            },
        }
    }
}

proof fn lemma_first_with_path(s: Seq<ChangedFileModel>, p: Seq<char>)
    ensures
        first_with_path(s, p) matches Some(k) ==> k < s.len() && s[k as int].path == p,
        first_with_path(s, p) is None ==> forall|j: int| 0 <= j < s.len() ==> #[trigger] s[j].path != p,
    decreases s.len(),
{
    if s.len() > 0 {
        lemma_first_with_path(s.drop_last(), p);
        assert forall|j: int| 0 <= j < s.len() - 1 implies #[trigger] s[j] == s.drop_last()[j] by {}
    }
}

proof fn lemma_first_with_path_prefix(s: Seq<ChangedFileModel>, p: Seq<char>, n: int)
    requires
        0 <= n <= s.len(),
        first_with_path(s.take(n), p) is Some,
    ensures
        first_with_path(s, p) == first_with_path(s.take(n), p),
    decreases s.len() - n,
{
    if n < s.len() {
        assert(s.take(n + 1).drop_last() =~= s.take(n));
        lemma_first_with_path_prefix(s, p, n + 1);
    } else {
        assert(s.take(n) =~= s);
    }
}

/// The uncommitted change list: the changes sorted by path (see
/// [`path_lt`]), each path once, as its first change in the list.
pub open spec fn merged_changes_spec(input: Seq<ChangedFileModel>, out: Seq<ChangedFileModel>) -> bool {
    &&& forall|i: int, j: int| 0 <= i < j < out.len() ==> path_lt(#[trigger] out[i].path, #[trigger] out[j].path)
    &&& forall|i: int|
        0 <= i < out.len() ==> (first_with_path(input, #[trigger] out[i].path) matches Some(k) && out[i]
            == input[k as int])
    &&& forall|k: int| 0 <= k < input.len() ==> first_with_path(out, #[trigger] input[k].path) is Some
}

/// Sorts the staged, unstaged and untracked changes by path and keeps the
/// first change of each path.
pub fn merge_uncommitted_changes(changes: Vec<ChangedFile>) -> (r: Vec<ChangedFile>)
    ensures
        merged_changes_spec(changed_files_view(changes@), changed_files_view(r@)),
{
    let ghost input = changed_files_view(changes@);
    let mut out: Vec<ChangedFile> = Vec::new();
    assert(input.take(0) =~= Seq::<ChangedFileModel>::empty());
    for c in it: changes
        invariant
            it.seq() == changes@,
            input == changed_files_view(changes@),
            merged_changes_spec(input.take(it.index() as int), changed_files_view(out@)),
    {
        let ghost i = it.index() as int;
        let ghost pre = input.take(i);
        let ghost post = input.take(i + 1);
        let ghost ov = changed_files_view(out@);
        assert(post.drop_last() =~= pre);
        assert(post.last() == c@);
        assert(input[i] == c@);
        // Is the path already there?
        let mut present = false;
        let mut k: usize = 0;
        while k < out.len()
            invariant
                0 <= k <= out.len(),
                ov == changed_files_view(out@),
                present == exists|j: int| 0 <= j < k && ov[j].path == c@.path,
            decreases out.len() - k,
        {
            assert(ov[k as int] == out@[k as int]@);
            if out[k].path == c.path {
                present = true;
            }
            k = k + 1;
        }
        if !present {
            // First position whose path comes after the new one.
            let mut p: usize = 0;
            while p < out.len() && !path_less(&c.path, &out[p].path)
                invariant
                    0 <= p <= out.len(),
                    ov == changed_files_view(out@),
                    forall|j: int| 0 <= j < p ==> !path_lt(c@.path, #[trigger] ov[j].path),
                decreases out.len() - p,
            {
                assert(ov[p as int] == out@[p as int]@);
                p = p + 1;
            }
            proof {
                if p < out.len() {
                    assert(ov[p as int] == out@[p as int]@);
                }
                assert forall|j: int| 0 <= j < p implies path_lt(#[trigger] ov[j].path, c@.path) by {
                    lemma_path_lt_total(ov[j].path, c@.path);
                    assert(ov[j].path != c@.path);
                }
                assert forall|j: int| p <= j < ov.len() implies path_lt(c@.path, #[trigger] ov[j].path) by {
                    if j > p {
                        lemma_path_lt_trans(c@.path, ov[p as int].path, ov[j].path);
                    }
                }
            }
            let ghost cv = c@;
            out.insert(p, c);
            proof {
                let nv = changed_files_view(out@);
                assert(nv =~= ov.insert(p as int, cv));
                lemma_first_with_path(pre, cv.path);
                assert(first_with_path(pre, cv.path) is None) by {
                    if first_with_path(pre, cv.path) is Some {
                        let q = first_with_path(pre, cv.path)->0;
                        assert(first_with_path(ov, pre[q as int].path) is Some);
                        lemma_first_with_path(ov, cv.path);
                    }
                }
                assert(first_with_path(post, cv.path) == Some(i as nat));
                assert forall|a: int, b: int| 0 <= a < b < nv.len() implies path_lt(#[trigger] nv[a].path, #[trigger] nv[b].path) by {
                    if a < p && b == p {
                    } else if a == p && b > p {
                    } else if a < p && b > p {
                        lemma_path_lt_trans(nv[a].path, cv.path, nv[b].path);
                    }
                }
                assert forall|a: int| 0 <= a < nv.len() implies (first_with_path(post, #[trigger] nv[a].path) matches Some(q) && nv[a] == post[q as int]) by {
                    if a != p {
                        let ia = if a < p { a } else { a - 1 };
                        assert(nv[a] == ov[ia]);
                        let q = first_with_path(pre, ov[ia].path)->0;
                        lemma_first_with_path(pre, ov[ia].path);
                        assert(post.drop_last() =~= pre);
                    }
                }
                assert forall|q: int| 0 <= q < post.len() implies first_with_path(nv, #[trigger] post[q].path) is Some by {
                    lemma_first_with_path(nv, post[q].path);
                    if q < i {
                        assert(post[q] == pre[q]);
                        lemma_first_with_path(ov, pre[q].path);
                        let w = first_with_path(ov, pre[q].path)->0;
                        let w2: int = if w < p { w as int } else { (w + 1) as int };
                        assert(nv[w2].path == pre[q].path);
                    } else {
                        assert(nv[p as int].path == cv.path);
                    }
                }
            }
        } else {
            proof {
                let j = choose|j: int| 0 <= j < out.len() && ov[j].path == c@.path;
                lemma_first_with_path(pre, c@.path);
                assert(ov[j].path == c@.path);
                assert(first_with_path(pre, ov[j].path) is Some);
                assert(first_with_path(post, c@.path) == first_with_path(pre, c@.path));
                assert forall|a: int| 0 <= a < ov.len() implies (first_with_path(post, #[trigger] ov[a].path) matches Some(q) && ov[a] == post[q as int]) by {
                    let q = first_with_path(pre, ov[a].path)->0;
                    lemma_first_with_path(pre, ov[a].path);
                }
                assert forall|q: int| 0 <= q < post.len() implies first_with_path(ov, #[trigger] post[q].path) is Some by {
                    if q < i {
                        assert(post[q] == pre[q]);
                    } else {
                        lemma_first_with_path(ov, c@.path);
                    }
                }
            }
        }
    }
    assert(input.take(input.len() as int) =~= input);
    out
}

/// The size that `git cat-file -s` printed: the trimmed output as a number.
pub fn parse_size_output(output: &str) -> (r: Option<u64>)
    ensures
        r == parse_u64_spec(trim(output@)),
{
    let c = chars_of(output);
    let t = trim_chars(c.as_slice());
    parse_u64(t.as_slice())
}

// ---------------------------------------------------------------------------
// `git log --shortstat`
// ---------------------------------------------------------------------------

/// Mathematical content of a [`CommitEntry`].
pub struct CommitEntryModel {
    pub id: Seq<char>,
    pub short_id: Seq<char>,
    pub parents: Seq<Seq<char>>,
    pub author: Seq<char>,
    pub author_time: Option<i64>,
    pub summary: Seq<char>,
    pub stats: Option<CommitStats>,
}

impl View for CommitEntry {
    type V = CommitEntryModel;

    open spec fn view(&self) -> CommitEntryModel {
        CommitEntryModel {
            id: self.id@,
            short_id: self.short_id@,
            parents: self.parents@.map_values(|p: String| p@),
            author: self.author@,
            author_time: self.author_time,
            summary: self.summary@,
            stats: self.stats,
        }
    }
}

/// The views of a sequence of commits.
pub open spec fn commits_view(s: Seq<CommitEntry>) -> Seq<CommitEntryModel> {
    s.map_values(|c: CommitEntry| c@)
}

/// The commit that a header line's fields describe: hash, short hash,
/// parents (separated by whitespace), author, author time (when it parses as
/// an integer), summary; no stats yet.
pub open spec fn commit_of(parts: Seq<Seq<char>>) -> CommitEntryModel {
    CommitEntryModel {
        id: parts[0],
        short_id: parts[1],
        parents: if trim(parts[2]).len() == 0 {
            Seq::empty()
        } else {
            words(parts[2])
        },
        author: parts[3],
        author_time: parse_i64_spec(trim(parts[4])),
        summary: parts[5],
        stats: None,
    }
}

/// The unit separator that splits the fields of a header line.
pub open spec fn field_sep() -> char {
    '\u{1f}'
}

/// The commits after one more line of log output: blank lines change
/// nothing; a line with field separators and at least six fields starts a
/// commit; a shortstat line gives its stats to the last commit.
pub open spec fn log_step(commits: Seq<CommitEntryModel>, line: Seq<char>) -> Seq<CommitEntryModel> {
    let t = trim(line);
    if t.len() == 0 {
        commits
    } else if t.contains(field_sep()) {
        let parts = split_on(t, field_sep());
        if parts.len() < 6 {
            commits
        } else {
            commits.push(commit_of(parts))
        }
    } else {
        match shortstat_spec(t) {
            Some(st) => if commits.len() > 0 {
                commits.update(commits.len() - 1, CommitEntryModel { stats: Some(st), ..commits.last() })
            } else {
                commits
            },
            None => commits,
        }
    }
}

/// The commits that a sequence of log lines describes.
pub open spec fn log_entries(lines: Seq<Seq<char>>) -> Seq<CommitEntryModel>
    decreases lines.len(),
{
    if lines.len() == 0 {
        Seq::empty()
    } else {
        log_step(log_entries(lines.drop_last()), lines.last())
    }
}

fn strings_of(v: &Vec<Vec<char>>) -> (r: Vec<String>)
    ensures
        r@.map_values(|p: String| p@) == chars_view(v@),
{
    let mut out: Vec<String> = Vec::new();
    let mut i: usize = 0;
    while i < v.len()
        invariant
            0 <= i <= v.len(),
            out@.map_values(|p: String| p@) == chars_view(v@).take(i as int),
        decreases v.len() - i,
    {
        let s = string_from_chars(v[i].as_slice());
        let ghost before = out@;
        out.push(s);
        assert(out@.map_values(|p: String| p@) =~= before.map_values(|p: String| p@).push(s@));
        assert(chars_view(v@).take(i + 1) =~= chars_view(v@).take(i as int).push(v@[i as int]@));
        i = i + 1;
    }
    assert(chars_view(v@).take(v.len() as int) =~= chars_view(v@));
    out
}

fn header_commit(parts: &Vec<Vec<char>>) -> (r: CommitEntry)
    requires
        parts.len() >= 6,
    ensures
        r@ == commit_of(chars_view(parts@)),
{
    let ghost pv = chars_view(parts@);
    assert(pv[0] == parts@[0]@);
    assert(pv[1] == parts@[1]@);
    assert(pv[2] == parts@[2]@);
    assert(pv[3] == parts@[3]@);
    assert(pv[4] == parts@[4]@);
    assert(pv[5] == parts@[5]@);
    let parents = if trim_chars(parts[2].as_slice()).len() == 0 {
        let e: Vec<String> = Vec::new();
        assert(e@.map_values(|p: String| p@) =~= Seq::<Seq<char>>::empty());
        e
    } else {
        let ws = split_words(parts[2].as_slice());
        strings_of(&ws)
    };
    let t4 = trim_chars(parts[4].as_slice());
    CommitEntry {
        id: string_from_chars(parts[0].as_slice()),
        short_id: string_from_chars(parts[1].as_slice()),
        parents,
        author: string_from_chars(parts[3].as_slice()),
        author_time: parse_i64(t4.as_slice()),
        summary: string_from_chars(parts[5].as_slice()),
        stats: None,
    }
}

/// The commits that `git log --shortstat` output (with header fields joined
/// by the unit separator) describes, in order.
pub fn parse_commit_log(output: &str) -> (r: Vec<CommitEntry>)
    ensures
        commits_view(r@) == log_entries(lines_of(output@)),
{
    let chars = chars_of(output);
    let lines = lines_chars(chars.as_slice());
    let ghost ls = lines_of(output@);
    let mut commits: Vec<CommitEntry> = Vec::new();
    let mut i: usize = 0;
    assert(ls.take(0) =~= Seq::<Seq<char>>::empty());
    assert(commits_view(commits@) =~= Seq::<CommitEntryModel>::empty());
    while i < lines.len()
        invariant
            0 <= i <= lines.len(),
            chars_view(lines@) == ls,
            commits_view(commits@) == log_entries(ls.take(i as int)),
        decreases lines.len() - i,
    {
        assert(ls.take(i + 1).drop_last() =~= ls.take(i as int));
        assert(ls.take(i + 1).last() == lines@[i as int]@);
        let ghost before = commits_view(commits@);
        let t = trim_chars(lines[i].as_slice());
        if t.len() > 0 {
            let mut has_sep = false;
            let mut k: usize = 0;
            while k < t.len()
                invariant
                    0 <= k <= t.len(),
                    has_sep == exists|j: int| 0 <= j < k && t@[j] == field_sep(),
                decreases t.len() - k,
            {
                if t[k] == '\u{1f}' {
                    has_sep = true;
                }
                k = k + 1;
            }
            proof {
                if has_sep {
                    let j = choose|j: int| 0 <= j < t@.len() && t@[j] == field_sep();
                    assert(t@.contains(field_sep()));
                } else {
                    assert(!t@.contains(field_sep()));
                }
            }
            if has_sep {
                let parts = split_chars(t.as_slice(), '\u{1f}');
                if parts.len() >= 6 {
                    let c = header_commit(&parts);
                    commits.push(c);
                    assert(commits_view(commits@) =~= before.push(c@));
                }
            } else {
                let line = string_from_chars(t.as_slice());
                if let Some(st) = parse_shortstat(line.as_str()) {
                    if commits.len() > 0 {
                        let mut last = commits.pop().unwrap();
                        last.stats = Some(st);
                        let ghost lv = last@;
                        commits.push(last);
                        assert(commits_view(commits@) =~= before.update(
                            before.len() - 1,
                            CommitEntryModel { stats: Some(st), ..before.last() },
                        ));
                    }
                }
            }
        }
        i = i + 1;
    }
    assert(ls.take(lines.len() as int) =~= ls);
    commits
}

} // verus!
