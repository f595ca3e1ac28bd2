//! The files of a plugin tree as plain values, and the comparison of a local
//! tree with its upstream tree.

use vstd::prelude::*;
use crate::categorize::{categorize_file, category_of};
use crate::content::{
    count_changes, count_deletions, count_insertions, diff_header, lemma_relaid_compare_equal,
    make_unified_diff, prepare_content, prepared, same_up_to_layout, unified_diff,
};
use crate::diff::{count_status, lemma_counts_bounded, summary_matches, tally_of};
use crate::model::{
    file_views, CategorySummary, CategoryTally, DiffResult, DiffSummary, FileDiff, FileDiffView,
    FileStatus, SkippedDirs,
};
use crate::text::{chars_of, lines, starts_with, str_eq};

verus! {

// ---------------------------------------------------------------------------
// The order of paths
// ---------------------------------------------------------------------------

/// `a` comes before `b` in lexicographic order of characters, which is the order of
/// `String`s (their UTF-8 bytes compare in the same order as their characters).
pub open spec fn seq_lt(a: Seq<char>, b: Seq<char>) -> bool
    decreases a.len(),
{
    if a.len() == 0 {
        b.len() > 0
    } else if b.len() == 0 {
        false
    } else if a[0] != b[0] {
        a[0] < b[0]
    } else {
        seq_lt(a.drop_first(), b.drop_first())
    }
}

/// No text comes before itself.
pub proof fn lemma_lt_irreflexive(a: Seq<char>)
    ensures
        !seq_lt(a, a),
    decreases a.len(),
{
    if a.len() > 0 {
        lemma_lt_irreflexive(a.drop_first());
    }
}

/// The order is transitive.
pub proof fn lemma_lt_transitive(a: Seq<char>, b: Seq<char>, c: Seq<char>)
    requires
        seq_lt(a, b),
        seq_lt(b, c),
    ensures
        seq_lt(a, c),
    decreases a.len(),
{
    if a.len() > 0 && b.len() > 0 && c.len() > 0 {
        if a[0] == b[0] && b[0] == c[0] {
            lemma_lt_transitive(a.drop_first(), b.drop_first(), c.drop_first());
        }
    }
}

/// Of two different texts, one comes before the other.
pub proof fn lemma_lt_total(a: Seq<char>, b: Seq<char>)
    requires
        a != b,
    ensures
        seq_lt(a, b) || seq_lt(b, a),
    decreases a.len(),
{
    if a.len() > 0 && b.len() > 0 && a[0] == b[0] {
        if a.drop_first() == b.drop_first() {
            assert(a =~= seq![a[0]] + a.drop_first());
            assert(b =~= seq![b[0]] + b.drop_first());
        }
        lemma_lt_total(a.drop_first(), b.drop_first());
    } else if a.len() > 0 && b.len() > 0 {
        assert(a[0] != b[0]);
    } else if a.len() == 0 && b.len() == 0 {
        assert(a =~= b);
    }
}

/// The order is asymmetric.
pub proof fn lemma_lt_asymmetric(a: Seq<char>, b: Seq<char>)
    requires
        seq_lt(a, b),
    ensures
        !seq_lt(b, a),
{
    if seq_lt(b, a) {
        lemma_lt_transitive(a, b, a);
        lemma_lt_irreflexive(a);
    }
}

/// Whether `a` comes before `b`.
pub fn chars_lt(a: &Vec<char>, b: &Vec<char>) -> (r: bool)
    ensures
        r == seq_lt(a@, b@),
{
    let mut i: usize = 0;
    assert(a@.skip(0) =~= a@);
    assert(b@.skip(0) =~= b@);
    while i < a.len() && i < b.len() && a[i] == b[i]
        invariant
            i <= a.len(),
            i <= b.len(),
            seq_lt(a@, b@) == seq_lt(a@.skip(i as int), b@.skip(i as int)),
        decreases a.len() - i,
    {
        assert(a@.skip(i as int).drop_first() =~= a@.skip(i + 1));
        assert(b@.skip(i as int).drop_first() =~= b@.skip(i + 1));
        i += 1;
    }
    if i == a.len() {
        i < b.len()
    } else if i == b.len() {
        false
    } else {
        a[i] < b[i]
    }
}

/// Whether string `a` comes before string `b`.
pub fn str_lt(a: &str, b: &str) -> (r: bool)
    ensures
        r == seq_lt(a@, b@),
{
    chars_lt(&chars_of(a), &chars_of(b))
}

// ---------------------------------------------------------------------------
// Listings
// ---------------------------------------------------------------------------

/// A file of a tree: its path relative to the tree's root, and its content.
pub struct FileEntry {
    pub path: String,
    pub content: String,
}

/// The paths are in strictly increasing order.
pub open spec fn strictly_sorted(s: Seq<FileEntry>) -> bool {
    forall|i: int, j: int| 0 <= i < j < s.len() ==> seq_lt(s[i].path@, s[j].path@)
}

/// The names are in increasing order.
pub open spec fn names_sorted(s: Seq<String>) -> bool {
    forall|i: int, j: int| 0 <= i < j < s.len() ==> !seq_lt(s[j]@, s[i]@)
}

/// Some entry has this path.
pub open spec fn has_path(s: Seq<FileEntry>, p: Seq<char>) -> bool {
    exists|k: int| 0 <= k < s.len() && s[k].path@ == p
}

/// The files of a tree, each path once and in order, and the names of the top-level
/// directories that were skipped, in order.
pub struct DirListing {
    files: Vec<FileEntry>,
    skipped: Vec<String>,
}

impl DirListing {
    /// The files, in order of their paths.
    pub closed spec fn entries(&self) -> Seq<FileEntry> {
        self.files@
    }

    /// The skipped directory names, in order.
    pub closed spec fn skipped_names(&self) -> Seq<String> {
        self.skipped@
    }

    /// Paths strictly increase and names increase.
    pub open spec fn wf(&self) -> bool {
        strictly_sorted(self.entries()) && names_sorted(self.skipped_names())
    }

    /// An empty listing.
    pub fn new() -> (l: DirListing)
        ensures
            l.wf(),
            l.entries().len() == 0,
            l.skipped_names().len() == 0,
    {
        DirListing { files: Vec::new(), skipped: Vec::new() }
    }

    /// The number of files.
    pub fn len(&self) -> (n: usize)
        ensures
            n == self.entries().len(),
    {
        self.files.len()
    }

    /// Adds a file; a path that is already listed keeps its first content.
    pub fn add_file(&mut self, path: String, content: String)
        requires
            old(self).wf(),
        ensures
            final(self).wf(),
            final(self).skipped_names() == old(self).skipped_names(),
            has_path(old(self).entries(), path@) ==> final(self).entries() == old(self).entries(),
            !has_path(old(self).entries(), path@) ==> exists|j: int|
                0 <= j <= old(self).entries().len() && final(self).entries() == old(
                    self,
                ).entries().insert(j, FileEntry { path, content }),
    {
        let pc = chars_of(path.as_str());
        let ghost old_files = self.files@;
        let mut j = self.files.len();
        while j > 0 && chars_lt(&pc, &chars_of(self.files[j - 1].path.as_str()))
            invariant
                j <= self.files.len(),
                self.files@ == old_files,
                strictly_sorted(old_files),
                pc@ == path@,
                forall|k: int| j <= k < old_files.len() ==> seq_lt(path@, old_files[k].path@),
            decreases j,
        {
            j -= 1;
        }
        if j > 0 && crate::paths::chars_eq(&pc, &chars_of(self.files[j - 1].path.as_str())) {
            return;
        }
        proof {
            if j > 0 {
                lemma_lt_total(path@, old_files[j - 1].path@);
            }
            assert forall|k: int| 0 <= k < j implies seq_lt(old_files[k].path@, path@) by {
                if k < j - 1 {
                    lemma_lt_transitive(old_files[k].path@, old_files[j - 1].path@, path@);
                }
            }
            assert forall|k: int| 0 <= k < old_files.len() implies old_files[k].path@ != path@ by {
                if k < j {
                    lemma_lt_irreflexive(path@);
                } else {
                    lemma_lt_irreflexive(path@);
                }
            }
        }
        let ghost entry = FileEntry { path, content };
        self.files.insert(j, FileEntry { path, content });
        proof {
            let s = self.files@;
            assert(s == old_files.insert(j as int, entry));
            assert forall|a: int, b: int| 0 <= a < b < s.len() implies seq_lt(
                s[a].path@,
                s[b].path@,
            ) by {
                if a < j && b == j {
                } else if a < j && b > j {
                    assert(s[b] == old_files[b - 1]);
                } else if a == j {
                    assert(s[b] == old_files[b - 1]);
                } else if b < j {
                } else {
                    assert(s[a] == old_files[a - 1]);
                    assert(s[b] == old_files[b - 1]);
                }
            }
        }
    }

    /// Adds the name of a skipped directory, after the names that do not come after it.
    pub fn add_skipped(&mut self, name: String)
        requires
            old(self).wf(),
        ensures
            final(self).wf(),
            final(self).entries() == old(self).entries(),
            exists|j: int|
                0 <= j <= old(self).skipped_names().len() && final(self).skipped_names() == old(
                    self,
                ).skipped_names().insert(j, name),
    {
        let nc = chars_of(name.as_str());
        let ghost old_names = self.skipped@;
        let mut j = self.skipped.len();
        while j > 0 && chars_lt(&nc, &chars_of(self.skipped[j - 1].as_str()))
            invariant
                j <= self.skipped.len(),
                self.skipped@ == old_names,
                names_sorted(old_names),
                nc@ == name@,
                forall|k: int| j <= k < old_names.len() ==> seq_lt(name@, old_names[k]@),
            decreases j,
        {
            j -= 1;
        }
        proof {
            assert forall|k: int| 0 <= k < j implies !seq_lt(name@, old_names[k]@) by {
                if k < j - 1 {
                    if seq_lt(name@, old_names[k]@) {
                        if old_names[k]@ == old_names[j - 1]@ {
                        } else {
                            lemma_lt_total(old_names[k]@, old_names[j - 1]@);
                            lemma_lt_transitive(name@, old_names[k]@, old_names[j - 1]@);
                        }
                    }
                }
            }
        }
        self.skipped.insert(j, name);
        proof {
            let s = self.skipped@;
            assert forall|a: int, b: int| 0 <= a < b < s.len() implies !seq_lt(s[b]@, s[a]@) by {
                if a < j && b == j {
                } else if a < j && b > j {
                    assert(s[b] == old_names[b - 1]);
                    if seq_lt(s[b]@, s[a]@) {
                        lemma_lt_transitive(name@, s[b]@, s[a]@);
                    }
                } else if a == j {
                    assert(s[b] == old_names[b - 1]);
                    lemma_lt_asymmetric(name@, s[b]@);
                } else if b < j {
                } else {
                    assert(s[a] == old_names[a - 1]);
                    assert(s[b] == old_names[b - 1]);
                }
            }
        }
    }
}

// ---------------------------------------------------------------------------
// Comparing two trees
// ---------------------------------------------------------------------------

/// The label of the old side of a file's diff: `a/<path>`.
pub open spec fn old_label(path: Seq<char>) -> Seq<char> {
    seq!['a', '/'] + path
}

/// The label of the new side of a file's diff: `b/<path>`.
pub open spec fn new_label(path: Seq<char>) -> Seq<char> {
    seq!['b', '/'] + path
}

/// The entry for a file whose diff goes from `old` to `new`.
pub open spec fn changed_file(
    path: Seq<char>,
    status: FileStatus,
    old: Seq<char>,
    new: Seq<char>,
) -> FileDiffView {
    let d = unified_diff(old, new, old_label(path), new_label(path));
    FileDiffView {
        path,
        status,
        category: category_of(path),
        insertions: count_insertions(lines(d)),
        deletions: count_deletions(lines(d)),
        diff_text: d,
    }
}

/// The comparison of the local files `l` with the upstream files `u`, both in order of
/// their paths: the entries of the files that differ, in order of their paths, and the
/// number of files present on both sides with the same (compared) content. A file only
/// upstream is removed, its diff going from its content to nothing; a file only local is
/// added, its diff going from nothing to its content; a file on both sides is modified
/// when its compared contents differ and their diff is not empty.
pub open spec fn compare_entries(l: Seq<FileEntry>, u: Seq<FileEntry>, strict: bool) -> (
    Seq<FileDiffView>,
    nat,
)
    decreases l.len() + u.len(),
{
    if l.len() == 0 && u.len() == 0 {
        (seq![], 0)
    } else if l.len() == 0 || (u.len() > 0 && seq_lt(u[0].path@, l[0].path@)) {
        let rest = compare_entries(l, u.drop_first(), strict);
        (
            seq![
                changed_file(
                    u[0].path@,
                    FileStatus::Removed,
                    prepared(u[0].content@, strict),
                    seq![],
                ),
            ] + rest.0,
            rest.1,
        )
    } else if u.len() == 0 || seq_lt(l[0].path@, u[0].path@) {
        let rest = compare_entries(l.drop_first(), u, strict);
        (
            seq![
                changed_file(
                    l[0].path@,
                    FileStatus::Added,
                    seq![],
                    prepared(l[0].content@, strict),
                ),
            ] + rest.0,
            rest.1,
        )
    } else {
        let rest = compare_entries(l.drop_first(), u.drop_first(), strict);
        let lc = prepared(l[0].content@, strict);
        let uc = prepared(u[0].content@, strict);
        if lc == uc || unified_diff(uc, lc, old_label(l[0].path@), new_label(l[0].path@)).len()
            == 0 {
            (rest.0, rest.1 + 1)
        } else {
            (seq![changed_file(l[0].path@, FileStatus::Modified, uc, lc)] + rest.0, rest.1)
        }
    }
}

/// `x/` followed by the path.
fn label(x: char, path: &String) -> (s: String)
    ensures
        s@ == seq![x, '/'] + path@,
{
    let mut v: Vec<char> = vec![x, '/'];
    let p = chars_of(path.as_str());
    crate::text::extend_chars(&mut v, &p);
    crate::text::string_from_chars(&v)
}

/// A label of a path without line breaks has none.
proof fn lemma_label_unbroken(x: char, path: Seq<char>)
    requires
        x != '\n',
        !path.contains('\n'),
    ensures
        !(seq![x, '/'] + path).contains('\n'),
{
    let s = seq![x, '/'] + path;
    if s.contains('\n') {
        let k = choose|k: int| 0 <= k < s.len() && s[k] == '\n';
        assert(k >= 2);
        assert(path[k - 2] == '\n');
        assert(path.contains('\n'));
    }
}

/// The entry for a file whose diff goes from `old` to `new`.
fn make_changed(path: &String, status: FileStatus, old: &str, new: &str) -> (f: FileDiff)
    ensures
        f@ == changed_file(path@, status, old@, new@),
        old@ != new@ ==> f.diff_text@.len() > 0,
        f.diff_text@.len() == 0 || starts_with(
            f.diff_text@,
            diff_header(old_label(path@), new_label(path@)),
        ),
        old@.len() == 0 && !path@.contains('\n') ==> f.deletions == 0,
        new@.len() == 0 && !path@.contains('\n') ==> f.insertions == 0,
{
    let a = label('a', path);
    let b = label('b', path);
    proof {
        if !path@.contains('\n') {
            lemma_label_unbroken('a', path@);
            lemma_label_unbroken('b', path@);
        }
    }
    let d = make_unified_diff(old, new, a.as_str(), b.as_str());
    let (ins, del) = count_changes(d.as_str());
    FileDiff {
        path: path.clone(),
        status,
        category: categorize_file(path.as_str()),
        insertions: ins,
        deletions: del,
        diff_text: d,
    }
}

/// Counts one more file in the running totals.
fn count_file(
    f: &FileDiff,
    added: &mut usize,
    removed: &mut usize,
    modified: &mut usize,
    by_category: &mut CategoryTally,
    Ghost(fs): Ghost<Seq<FileDiffView>>,
)
    requires
        fs.len() < usize::MAX,
        *old(added) == count_status(fs, FileStatus::Added),
        *old(removed) == count_status(fs, FileStatus::Removed),
        *old(modified) == count_status(fs, FileStatus::Modified),
        *old(by_category) == tally_of(fs),
    ensures
        *final(added) == count_status(fs.push(f@), FileStatus::Added),
        *final(removed) == count_status(fs.push(f@), FileStatus::Removed),
        *final(modified) == count_status(fs.push(f@), FileStatus::Modified),
        *final(by_category) == tally_of(fs.push(f@)),
{
    proof {
        lemma_counts_bounded(fs, f.category, f.status);
        lemma_counts_bounded(fs, f.category, FileStatus::Added);
        lemma_counts_bounded(fs, f.category, FileStatus::Removed);
        lemma_counts_bounded(fs, f.category, FileStatus::Modified);
        assert(fs.push(f@).drop_last() =~= fs);
    }
    CategorySummary::tally(by_category, f.category, f.status);
    match f.status {
        FileStatus::Added => *added = *added + 1,
        FileStatus::Removed => *removed = *removed + 1,
        FileStatus::Modified => *modified = *modified + 1,
    }
}

/// A copy of the names of a listing's skipped directories.
fn skipped_of(l: &DirListing) -> (v: Vec<String>)
    ensures
        v@ == l.skipped_names(),
{
    crate::model::copy_strings(&l.skipped)
}

/// Compares the local tree with the upstream tree of a plugin. The files that differ
/// are listed in order of their paths with their unified diffs (contents compared as
/// they stand in strict mode, normalized otherwise) and line counts; the summary counts
/// them by status and category, and counts the files that are the same on both sides.
pub fn diff_directories(
    local: &DirListing,
    upstream: &DirListing,
    slug: &str,
    version: &str,
    strict_whitespace: bool,
) -> (r: DiffResult)
    requires
        local.wf(),
        upstream.wf(),
        local.entries().len() + upstream.entries().len() <= usize::MAX,
    ensures
        r.plugin_slug@ == slug@,
        r.plugin_version@ == version@,
        r.latest_version is None,
        r.skipped_dirs.local@ == local.skipped_names(),
        r.skipped_dirs.upstream@ == upstream.skipped_names(),
        file_views(r.files@) == compare_entries(
            local.entries(),
            upstream.entries(),
            strict_whitespace,
        ).0,
        r.summary.unchanged == compare_entries(
            local.entries(),
            upstream.entries(),
            strict_whitespace,
        ).1,
        summary_matches(r.summary, file_views(r.files@)),
        forall|p: Seq<char>|
            differs_on_both(local.entries(), upstream.entries(), strict_whitespace, p)
                ==> #[trigger] lists_with(file_views(r.files@), p, FileStatus::Modified),
        forall|k: int|
            0 <= k < r.files.len() ==> (#[trigger] r.files[k]).diff_text@.len() == 0 || starts_with(
                r.files[k].diff_text@,
                diff_header(old_label(r.files[k].path@), new_label(r.files[k].path@)),
            ),
        forall|k: int|
            0 <= k < r.files.len() && #[trigger] r.files[k].status == FileStatus::Modified
                ==> r.files[k].diff_text@.len() > 0,
        forall|k: int, m: int|
            #![trigger r.files[k], upstream.entries()[m]]
            0 <= k < r.files.len() && 0 <= m < upstream.entries().len() && r.files[k].status
                == FileStatus::Modified && upstream.entries()[m].path@ == r.files[k].path@
                && prepared(upstream.entries()[m].content@, strict_whitespace).len() == 0
                && !r.files[k].path@.contains('\n') ==> r.files[k].deletions == 0,
        forall|k: int, m: int|
            #![trigger r.files[k], local.entries()[m]]
            0 <= k < r.files.len() && 0 <= m < local.entries().len() && r.files[k].status
                == FileStatus::Modified && local.entries()[m].path@ == r.files[k].path@
                && prepared(local.entries()[m].content@, strict_whitespace).len() == 0
                && !r.files[k].path@.contains('\n') ==> r.files[k].insertions == 0,
        forall|k: int|
            0 <= k < r.files.len() && #[trigger] r.files[k].status == FileStatus::Added
                && !r.files[k].path@.contains('\n') ==> r.files[k].deletions == 0,
        forall|k: int|
            0 <= k < r.files.len() && #[trigger] r.files[k].status == FileStatus::Removed
                && !r.files[k].path@.contains('\n') ==> r.files[k].insertions == 0,
{
    let ghost l = local.entries();
    let ghost u = upstream.entries();
    let lf = &local.files;
    let uf = &upstream.files;
    let mut files: Vec<FileDiff> = Vec::new();
    let mut added: usize = 0;
    let mut removed: usize = 0;
    let mut modified: usize = 0;
    let mut unchanged: usize = 0;
    let mut by_category = CategoryTally::new();
    let mut i: usize = 0;
    let mut j: usize = 0;
    assert(l.skip(0) =~= l);
    assert(u.skip(0) =~= u);
    while i < lf.len() || j < uf.len()
        invariant
            l == lf@,
            u == uf@,
            l.len() + u.len() <= usize::MAX,
            i <= l.len(),
            j <= u.len(),
            files@.len() + unchanged <= i + j,
            compare_entries(l, u, strict_whitespace).0 == file_views(files@) + compare_entries(
                l.skip(i as int),
                u.skip(j as int),
                strict_whitespace,
            ).0,
            compare_entries(l, u, strict_whitespace).1 == unchanged + compare_entries(
                l.skip(i as int),
                u.skip(j as int),
                strict_whitespace,
            ).1,
            added == count_status(file_views(files@), FileStatus::Added),
            removed == count_status(file_views(files@), FileStatus::Removed),
            modified == count_status(file_views(files@), FileStatus::Modified),
            by_category == tally_of(file_views(files@)),
            diffs_nonempty(l, u, strict_whitespace) == diffs_nonempty(
                l.skip(i as int),
                u.skip(j as int),
                strict_whitespace,
            ),
            forall|k: int|
                0 <= k < files.len() ==> (#[trigger] files[k]).diff_text@.len() == 0 || starts_with(
                    files[k].diff_text@,
                    diff_header(old_label(files[k].path@), new_label(files[k].path@)),
                ),
            forall|k: int|
                0 <= k < files.len() && #[trigger] files[k].status == FileStatus::Modified
                    ==> files[k].diff_text@.len() > 0,
            strictly_sorted(l),
            strictly_sorted(u),
            forall|k: int, m: int|
                #![trigger files[k], u[m]]
                0 <= k < files.len() && 0 <= m < u.len() && files[k].status == FileStatus::Modified
                    && u[m].path@ == files[k].path@ && prepared(u[m].content@, strict_whitespace).len()
                    == 0 && !files[k].path@.contains('\n') ==> files[k].deletions == 0,
            forall|k: int, m: int|
                #![trigger files[k], l[m]]
                0 <= k < files.len() && 0 <= m < l.len() && files[k].status == FileStatus::Modified
                    && l[m].path@ == files[k].path@ && prepared(l[m].content@, strict_whitespace).len()
                    == 0 && !files[k].path@.contains('\n') ==> files[k].insertions == 0,
            forall|k: int|
                0 <= k < files.len() && #[trigger] files[k].status == FileStatus::Added
                    && !files[k].path@.contains('\n') ==> files[k].deletions == 0,
            forall|k: int|
                0 <= k < files.len() && #[trigger] files[k].status == FileStatus::Removed
                    && !files[k].path@.contains('\n') ==> files[k].insertions == 0,
        decreases (l.len() - i) + (u.len() - j),
    {
        let ghost ls = l.skip(i as int);
        let ghost us = u.skip(j as int);
        let ghost before = file_views(files@);
        let take_upstream = i == lf.len() || (j < uf.len() && str_lt(
            uf[j].path.as_str(),
            lf[i].path.as_str(),
        ));
        if take_upstream {
            assert(us.drop_first() =~= u.skip(j + 1));
            let content = prepare_content(uf[j].content.as_str(), strict_whitespace);
            let empty = String::new();
            let f = make_changed(&uf[j].path, FileStatus::Removed, content.as_str(), empty.as_str());
            count_file(&f, &mut added, &mut removed, &mut modified, &mut by_category, Ghost(before));
            files.push(f);
            proof {
                assert(file_views(files@) =~= before.push(f@));
                let rest = compare_entries(ls, u.skip(j + 1), strict_whitespace);
                assert(before + (seq![f@] + rest.0) =~= before.push(f@) + rest.0);
            }
            j += 1;
        } else {
            let take_local = j == uf.len() || str_lt(lf[i].path.as_str(), uf[j].path.as_str());
            if take_local {
                assert(ls.drop_first() =~= l.skip(i + 1));
                let content = prepare_content(lf[i].content.as_str(), strict_whitespace);
                let empty = String::new();
                let f = make_changed(
                    &lf[i].path,
                    FileStatus::Added,
                    empty.as_str(),
                    content.as_str(),
                );
                count_file(&f, &mut added, &mut removed, &mut modified, &mut by_category, Ghost(before));
                files.push(f);
                proof {
                    assert(file_views(files@) =~= before.push(f@));
                    let rest = compare_entries(l.skip(i + 1), us, strict_whitespace);
                    assert(before + (seq![f@] + rest.0) =~= before.push(f@) + rest.0);
                }
                i += 1;
            } else {
                assert(ls.drop_first() =~= l.skip(i + 1));
                assert(us.drop_first() =~= u.skip(j + 1));
                let lc = prepare_content(lf[i].content.as_str(), strict_whitespace);
                let uc = prepare_content(uf[j].content.as_str(), strict_whitespace);
                let same = crate::paths::chars_eq(&chars_of(lc.as_str()), &chars_of(uc.as_str()));
                proof {
                    if l[i as int].path@ != u[j as int].path@ {
                        lemma_lt_total(l[i as int].path@, u[j as int].path@);
                    }
                    lemma_lt_irreflexive(u[j as int].path@);
                    assert forall|m: int| 0 <= m < u.len() && u[m].path@ == u[j as int].path@ implies m
                        == j by {
                        lemma_lt_irreflexive(u[m].path@);
                    }
                    assert forall|m: int| 0 <= m < l.len() && l[m].path@ == l[i as int].path@ implies m
                        == i by {
                        lemma_lt_irreflexive(l[m].path@);
                    }
                }
                if same {
                    unchanged += 1;
                } else {
                    let f = make_changed(&lf[i].path, FileStatus::Modified, uc.as_str(), lc.as_str());
                    if f.diff_text.as_str().is_empty() {
                        unchanged += 1;
                    } else {
                        count_file(
                            &f,
                            &mut added,
                            &mut removed,
                            &mut modified,
                            &mut by_category,
                            Ghost(before),
                        );
                        files.push(f);
                        proof {
                            assert(file_views(files@) =~= before.push(f@));
                            let rest = compare_entries(
                                l.skip(i + 1),
                                u.skip(j + 1),
                                strict_whitespace,
                            );
                            assert(before + (seq![f@] + rest.0) =~= before.push(f@) + rest.0);
                        }
                    }
                }
                i += 1;
                j += 1;
            }
        }
    }
    proof {
        assert(l.skip(i as int) =~= Seq::<FileEntry>::empty());
        assert(u.skip(j as int) =~= Seq::<FileEntry>::empty());
        assert(file_views(files@) + Seq::<FileDiffView>::empty() =~= file_views(files@));
        lemma_changes_listed(l, u, strict_whitespace);
    }
    DiffResult {
        plugin_slug: slug.to_owned(),
        plugin_version: version.to_owned(),
        latest_version: None,
        files,
        skipped_dirs: SkippedDirs { local: skipped_of(local), upstream: skipped_of(upstream) },
        summary: DiffSummary { added, removed, modified, unchanged, by_category },
    }
}

// ---------------------------------------------------------------------------
// Laws of the comparison
// ---------------------------------------------------------------------------

proof fn lemma_sorted_tail(s: Seq<FileEntry>)
    requires
        strictly_sorted(s),
        s.len() > 0,
    ensures
        strictly_sorted(s.drop_first()),
        forall|p: Seq<char>| has_path(s.drop_first(), p) ==> seq_lt(s[0].path@, p),
        forall|p: Seq<char>| has_path(s, p) ==> (p == s[0].path@ || seq_lt(s[0].path@, p)),
        forall|p: Seq<char>| has_path(s, p) <==> (p == s[0].path@ || has_path(s.drop_first(), p)),
{
    let t = s.drop_first();
    assert forall|i: int, j: int| 0 <= i < j < t.len() implies seq_lt(t[i].path@, t[j].path@) by {
        assert(t[i] == s[i + 1] && t[j] == s[j + 1]);
    }
    assert forall|p: Seq<char>| has_path(t, p) implies seq_lt(s[0].path@, p) by {
        let k = choose|k: int| 0 <= k < t.len() && t[k].path@ == p;
        assert(t[k] == s[k + 1]);
    }
    assert forall|p: Seq<char>| has_path(s, p) implies (p == s[0].path@ || seq_lt(s[0].path@, p)) by {
        let k = choose|k: int| 0 <= k < s.len() && s[k].path@ == p;
        if k > 0 {
            assert(seq_lt(s[0].path@, s[k].path@));
        }
    }
    assert forall|p: Seq<char>| has_path(s, p) <==> (p == s[0].path@ || has_path(t, p)) by {
        if has_path(s, p) && p != s[0].path@ {
            let k = choose|k: int| 0 <= k < s.len() && s[k].path@ == p;
            assert(k > 0);
            assert(t[k - 1] == s[k]);
        }
        if has_path(t, p) {
            let k = choose|k: int| 0 <= k < t.len() && t[k].path@ == p;
            assert(s[k + 1] == t[k]);
        }
        if p == s[0].path@ {
            assert(s[0].path@ == p);
        }
    }
}

/// Some entry of the comparison has this path.
pub open spec fn lists_path(r: Seq<FileDiffView>, p: Seq<char>) -> bool {
    exists|i: int| 0 <= i < r.len() && r[i].path == p
}

/// The comparison lists each differing file once, in strictly increasing order of
/// paths, and only paths of the two trees; a removed file is only upstream, an added
/// file only local, a modified file on both sides.
pub proof fn lemma_compare_order_and_status(l: Seq<FileEntry>, u: Seq<FileEntry>, strict: bool)
    requires
        strictly_sorted(l),
        strictly_sorted(u),
    ensures
        ({
            let r = compare_entries(l, u, strict).0;
            &&& forall|i: int, j: int| 0 <= i < j < r.len() ==> seq_lt(r[i].path, r[j].path)
            &&& forall|i: int|
                0 <= i < r.len() ==> (has_path(l, r[i].path) || has_path(u, r[i].path))
            &&& forall|i: int|
                0 <= i < r.len() && r[i].status == FileStatus::Removed ==> has_path(u, r[i].path)
                    && !has_path(l, r[i].path)
            &&& forall|i: int|
                0 <= i < r.len() && r[i].status == FileStatus::Added ==> has_path(l, r[i].path)
                    && !has_path(u, r[i].path)
            &&& forall|i: int|
                0 <= i < r.len() && r[i].status == FileStatus::Modified ==> has_path(l, r[i].path)
                    && has_path(u, r[i].path)
        }),
    decreases l.len() + u.len(),
{
    let r = compare_entries(l, u, strict).0;
    if l.len() == 0 && u.len() == 0 {
        return;
    }
    if l.len() > 0 {
        lemma_sorted_tail(l);
    }
    if u.len() > 0 {
        lemma_sorted_tail(u);
    }
    if l.len() == 0 || (u.len() > 0 && seq_lt(u[0].path@, l[0].path@)) {
        let p = u[0].path@;
        let t = u.drop_first();
        lemma_compare_order_and_status(l, t, strict);
        let rest = compare_entries(l, t, strict).0;
        assert(r == seq![r[0]] + rest);
        assert(!has_path(l, p)) by {
            if has_path(l, p) {
                lemma_lt_irreflexive(p);
                if p != l[0].path@ {
                    lemma_lt_asymmetric(p, l[0].path@);
                }
            }
        }
        assert(!has_path(t, p)) by {
            lemma_lt_irreflexive(p);
        }
        assert forall|i: int| 0 < i < r.len() implies seq_lt(p, r[i].path) by {
            assert(r[i] == rest[i - 1]);
            if has_path(l, rest[i - 1].path) {
                if rest[i - 1].path != l[0].path@ {
                    lemma_lt_transitive(p, l[0].path@, rest[i - 1].path);
                }
            }
        }
        assert forall|i: int, j: int| 0 <= i < j < r.len() implies seq_lt(r[i].path, r[j].path) by {
            if i > 0 {
                assert(r[i] == rest[i - 1] && r[j] == rest[j - 1]);
            }
        }
        assert forall|i: int| 0 < i < r.len() implies (has_path(l, r[i].path) || has_path(u, r[i].path))
            && (r[i].path != p) by {
            assert(r[i] == rest[i - 1]);
            lemma_lt_irreflexive(p);
        }
    } else if u.len() == 0 || seq_lt(l[0].path@, u[0].path@) {
        let p = l[0].path@;
        let t = l.drop_first();
        lemma_compare_order_and_status(t, u, strict);
        let rest = compare_entries(t, u, strict).0;
        assert(r == seq![r[0]] + rest);
        assert(!has_path(u, p)) by {
            if has_path(u, p) {
                lemma_lt_irreflexive(p);
                if p != u[0].path@ {
                    lemma_lt_asymmetric(p, u[0].path@);
                }
            }
        }
        assert(!has_path(t, p)) by {
            lemma_lt_irreflexive(p);
        }
        assert forall|i: int| 0 < i < r.len() implies seq_lt(p, r[i].path) by {
            assert(r[i] == rest[i - 1]);
            if has_path(u, rest[i - 1].path) {
                if rest[i - 1].path != u[0].path@ {
                    lemma_lt_transitive(p, u[0].path@, rest[i - 1].path);
                }
            }
        }
        assert forall|i: int, j: int| 0 <= i < j < r.len() implies seq_lt(r[i].path, r[j].path) by {
            if i > 0 {
                assert(r[i] == rest[i - 1] && r[j] == rest[j - 1]);
            }
        }
        assert forall|i: int| 0 < i < r.len() implies (has_path(l, r[i].path) || has_path(u, r[i].path))
            && (r[i].path != p) by {
            assert(r[i] == rest[i - 1]);
            lemma_lt_irreflexive(p);
        }
    } else {
        let p = l[0].path@;
        assert(p == u[0].path@) by {
            if p != u[0].path@ {
                lemma_lt_total(p, u[0].path@);
            }
        }
        let tl = l.drop_first();
        let tu = u.drop_first();
        lemma_compare_order_and_status(tl, tu, strict);
        let rest = compare_entries(tl, tu, strict).0;
        assert forall|i: int| 0 <= i < rest.len() implies seq_lt(p, rest[i].path) by {
        }
        assert(!has_path(tl, p) && !has_path(tu, p)) by {
            lemma_lt_irreflexive(p);
        }
        if r.len() == rest.len() + 1 {
            assert(r == seq![r[0]] + rest);
            assert forall|i: int, j: int| 0 <= i < j < r.len() implies seq_lt(r[i].path, r[j].path) by {
                if i > 0 {
                    assert(r[i] == rest[i - 1] && r[j] == rest[j - 1]);
                } else {
                    assert(r[j] == rest[j - 1]);
                }
            }
            assert forall|i: int| 0 < i < r.len() implies r[i] == rest[i - 1] && r[i].path != p by {
                lemma_lt_irreflexive(p);
            }
        } else {
            assert(r == rest);
        }
    }
}


/// Some entry of the comparison has this path and status.
pub open spec fn lists_with(r: Seq<FileDiffView>, p: Seq<char>, st: FileStatus) -> bool {
    exists|i: int| 0 <= i < r.len() && r[i].path == p && r[i].status == st
}

/// Listing at a later position of the rest is listing in the whole.
proof fn lemma_lists_shift(first: FileDiffView, rest: Seq<FileDiffView>, p: Seq<char>, st: FileStatus)
    requires
        lists_with(rest, p, st),
    ensures
        lists_with(seq![first] + rest, p, st),
{
    let i = choose|i: int| 0 <= i < rest.len() && rest[i].path == p && rest[i].status == st;
    assert((seq![first] + rest)[i + 1] == rest[i]);
}

/// No local customization goes unreported: every file only in the local tree is listed
/// as added, and every file only upstream is listed as removed.
pub proof fn lemma_compare_complete(l: Seq<FileEntry>, u: Seq<FileEntry>, strict: bool)
    requires
        strictly_sorted(l),
        strictly_sorted(u),
    ensures
        forall|p: Seq<char>|
            has_path(l, p) && !has_path(u, p) ==> lists_with(
                #[trigger] compare_entries(l, u, strict).0,
                p,
                FileStatus::Added,
            ),
        forall|p: Seq<char>|
            has_path(u, p) && !has_path(l, p) ==> lists_with(
                #[trigger] compare_entries(l, u, strict).0,
                p,
                FileStatus::Removed,
            ),
    decreases l.len() + u.len(),
{
    let r = compare_entries(l, u, strict).0;
    if l.len() == 0 && u.len() == 0 {
        return;
    }
    if l.len() > 0 {
        lemma_sorted_tail(l);
    }
    if u.len() > 0 {
        lemma_sorted_tail(u);
    }
    if l.len() == 0 || (u.len() > 0 && seq_lt(u[0].path@, l[0].path@)) {
        let t = u.drop_first();
        lemma_compare_complete(l, t, strict);
        let rest = compare_entries(l, t, strict).0;
        assert(r == seq![r[0]] + rest);
        assert forall|p: Seq<char>| has_path(l, p) && !has_path(u, p) implies lists_with(
            r,
            p,
            FileStatus::Added,
        ) by {
            assert(!has_path(t, p));
            assert(lists_with(rest, p, FileStatus::Added));
            lemma_lists_shift(r[0], rest, p, FileStatus::Added);
        }
        assert forall|p: Seq<char>| has_path(u, p) && !has_path(l, p) implies lists_with(
            r,
            p,
            FileStatus::Removed,
        ) by {
            if p == u[0].path@ {
                assert(r[0].path == p && r[0].status == FileStatus::Removed);
            } else {
                assert(has_path(t, p));
                assert(lists_with(rest, p, FileStatus::Removed));
                lemma_lists_shift(r[0], rest, p, FileStatus::Removed);
            }
        }
    } else if u.len() == 0 || seq_lt(l[0].path@, u[0].path@) {
        let t = l.drop_first();
        lemma_compare_complete(t, u, strict);
        let rest = compare_entries(t, u, strict).0;
        assert(r == seq![r[0]] + rest);
        assert forall|p: Seq<char>| has_path(l, p) && !has_path(u, p) implies lists_with(
            r,
            p,
            FileStatus::Added,
        ) by {
            if p == l[0].path@ {
                assert(r[0].path == p && r[0].status == FileStatus::Added);
            } else {
                assert(has_path(t, p));
                assert(lists_with(rest, p, FileStatus::Added));
                lemma_lists_shift(r[0], rest, p, FileStatus::Added);
            }
        }
        assert forall|p: Seq<char>| has_path(u, p) && !has_path(l, p) implies lists_with(
            r,
            p,
            FileStatus::Removed,
        ) by {
            assert(!has_path(t, p));
            assert(lists_with(rest, p, FileStatus::Removed));
            lemma_lists_shift(r[0], rest, p, FileStatus::Removed);
        }
    } else {
        if l[0].path@ != u[0].path@ {
            lemma_lt_total(l[0].path@, u[0].path@);
        }
        let tl = l.drop_first();
        let tu = u.drop_first();
        lemma_compare_complete(tl, tu, strict);
        let rest = compare_entries(tl, tu, strict).0;
        let lc = prepared(l[0].content@, strict);
        let uc = prepared(u[0].content@, strict);
        assert forall|p: Seq<char>| has_path(l, p) && !has_path(u, p) implies lists_with(
            r,
            p,
            FileStatus::Added,
        ) by {
            assert(p != l[0].path@);
            assert(has_path(tl, p) && !has_path(tu, p));
            assert(lists_with(rest, p, FileStatus::Added));
            if r.len() == rest.len() {
                assert(r == rest);
            } else {
                assert(r == seq![r[0]] + rest);
                lemma_lists_shift(r[0], rest, p, FileStatus::Added);
            }
        }
        assert forall|p: Seq<char>| has_path(u, p) && !has_path(l, p) implies lists_with(
            r,
            p,
            FileStatus::Removed,
        ) by {
            assert(p != u[0].path@);
            assert(has_path(tu, p) && !has_path(tl, p));
            assert(lists_with(rest, p, FileStatus::Removed));
            if r.len() == rest.len() {
                assert(r == rest);
            } else {
                assert(r == seq![r[0]] + rest);
                lemma_lists_shift(r[0], rest, p, FileStatus::Removed);
            }
        }
    }
}

/// A tree compared with itself differs nowhere: no file is listed, and every file counts
/// as unchanged.
pub proof fn lemma_identical_trees_unchanged(l: Seq<FileEntry>, strict: bool)
    ensures
        compare_entries(l, l, strict) == (Seq::<FileDiffView>::empty(), l.len()),
    decreases l.len(),
{
    if l.len() > 0 {
        lemma_lt_irreflexive(l[0].path@);
        lemma_identical_trees_unchanged(l.drop_first(), strict);
    }
}

/// The paths of a tree's files.
pub open spec fn tree_paths(s: Seq<FileEntry>) -> Set<Seq<char>> {
    Set::new(|p: Seq<char>| has_path(s, p))
}

/// A sorted tree's paths are its first path and the paths of the rest, which do not
/// hold the first; there are finitely many of them.
proof fn lemma_tree_paths_step(s: Seq<FileEntry>)
    requires
        strictly_sorted(s),
    ensures
        tree_paths(s).finite(),
        s.len() > 0 ==> tree_paths(s) == tree_paths(s.drop_first()).insert(s[0].path@),
        s.len() > 0 ==> !tree_paths(s.drop_first()).contains(s[0].path@),
    decreases s.len(),
{
    if s.len() == 0 {
        assert(tree_paths(s) =~= Set::<Seq<char>>::empty());
    } else {
        lemma_sorted_tail(s);
        lemma_tree_paths_step(s.drop_first());
        assert(tree_paths(s) =~= tree_paths(s.drop_first()).insert(s[0].path@));
        lemma_lt_irreflexive(s[0].path@);
    }
}

/// Every path of the two trees is accounted for exactly once: the files listed as
/// differing and the files counted as unchanged together number the distinct paths of
/// both trees.
pub proof fn lemma_compare_counts_every_path(l: Seq<FileEntry>, u: Seq<FileEntry>, strict: bool)
    requires
        strictly_sorted(l),
        strictly_sorted(u),
    ensures
        compare_entries(l, u, strict).0.len() + compare_entries(l, u, strict).1 == tree_paths(
            l,
        ).union(tree_paths(u)).len(),
    decreases l.len() + u.len(),
{
    let both = tree_paths(l).union(tree_paths(u));
    lemma_tree_paths_step(l);
    lemma_tree_paths_step(u);
    if l.len() == 0 && u.len() == 0 {
        assert(both =~= Set::<Seq<char>>::empty());
        return;
    }
    if l.len() > 0 {
        lemma_sorted_tail(l);
    }
    if u.len() > 0 {
        lemma_sorted_tail(u);
    }
    if l.len() == 0 || (u.len() > 0 && seq_lt(u[0].path@, l[0].path@)) {
        let p = u[0].path@;
        let t = u.drop_first();
        lemma_compare_counts_every_path(l, t, strict);
        lemma_tree_paths_step(t);
        let rest = tree_paths(l).union(tree_paths(t));
        assert(!has_path(l, p)) by {
            lemma_lt_irreflexive(p);
            if l.len() > 0 {
                lemma_lt_asymmetric(p, l[0].path@);
            }
        }
        assert(!tree_paths(l).contains(p));
        assert(both =~= rest.insert(p));
    } else if u.len() == 0 || seq_lt(l[0].path@, u[0].path@) {
        let p = l[0].path@;
        let t = l.drop_first();
        lemma_compare_counts_every_path(t, u, strict);
        lemma_tree_paths_step(t);
        let rest = tree_paths(t).union(tree_paths(u));
        assert(!has_path(u, p)) by {
            lemma_lt_irreflexive(p);
            if u.len() > 0 {
                lemma_lt_asymmetric(p, u[0].path@);
            }
        }
        assert(!tree_paths(u).contains(p));
        assert(both =~= rest.insert(p));
    } else {
        let p = l[0].path@;
        if p != u[0].path@ {
            lemma_lt_total(p, u[0].path@);
        }
        let tl = l.drop_first();
        let tu = u.drop_first();
        lemma_compare_counts_every_path(tl, tu, strict);
        lemma_tree_paths_step(tl);
        lemma_tree_paths_step(tu);
        let rest = tree_paths(tl).union(tree_paths(tu));
        assert(both =~= rest.insert(p));
    }
}

/// Trees whose files, path by path, differ only in line endings and in spaces or tabs at
/// the ends of lines compare as the same when whitespace is not compared strictly: no
/// file is listed, and every file counts as unchanged.
pub proof fn lemma_relaid_trees_unchanged(l: Seq<FileEntry>, u: Seq<FileEntry>)
    requires
        l.len() == u.len(),
        forall|i: int|
            0 <= i < l.len() ==> #[trigger] l[i].path@ == u[i].path@ && same_up_to_layout(
                l[i].content@,
                u[i].content@,
            ),
    ensures
        compare_entries(l, u, false) == (Seq::<FileDiffView>::empty(), l.len()),
    decreases l.len(),
{
    if l.len() > 0 {
        assert(l[0].path@ == u[0].path@ && same_up_to_layout(l[0].content@, u[0].content@));
        lemma_lt_irreflexive(l[0].path@);
        lemma_relaid_compare_equal(l[0].content@, u[0].content@);
        let tl = l.drop_first();
        let tu = u.drop_first();
        assert forall|i: int| 0 <= i < tl.len() implies #[trigger] tl[i].path@ == tu[i].path@
            && same_up_to_layout(tl[i].content@, tu[i].content@) by {
            assert(tl[i] == l[i + 1] && tu[i] == u[i + 1]);
            assert(l[i + 1].path@ == u[i + 1].path@);
        }
        lemma_relaid_trees_unchanged(tl, tu);
    }
}

/// Along the comparison of `l` with `u`, every file on both sides whose compared
/// contents differ has a diff that is not empty.
spec fn diffs_nonempty(l: Seq<FileEntry>, u: Seq<FileEntry>, strict: bool) -> bool
    decreases l.len() + u.len(),
{
    if l.len() == 0 && u.len() == 0 {
        true
    } else if l.len() == 0 || (u.len() > 0 && seq_lt(u[0].path@, l[0].path@)) {
        diffs_nonempty(l, u.drop_first(), strict)
    } else if u.len() == 0 || seq_lt(l[0].path@, u[0].path@) {
        diffs_nonempty(l.drop_first(), u, strict)
    } else {
        let lc = prepared(l[0].content@, strict);
        let uc = prepared(u[0].content@, strict);
        (lc == uc || unified_diff(uc, lc, old_label(l[0].path@), new_label(l[0].path@)).len() > 0)
            && diffs_nonempty(l.drop_first(), u.drop_first(), strict)
    }
}

/// A path of files on both sides whose compared contents differ.
pub open spec fn differs_on_both(l: Seq<FileEntry>, u: Seq<FileEntry>, strict: bool, p: Seq<char>) -> bool {
    exists|i: int, j: int|
        0 <= i < l.len() && 0 <= j < u.len() && #[trigger] l[i].path@ == p && #[trigger] u[j].path@
            == p && prepared(l[i].content@, strict) != prepared(u[j].content@, strict)
}

/// In a sorted tree only the first file has the first path.
proof fn lemma_first_path_unique(s: Seq<FileEntry>, i: int)
    requires
        strictly_sorted(s),
        0 < i < s.len(),
    ensures
        s[i].path@ != s[0].path@,
{
    lemma_lt_irreflexive(s[0].path@);
}

/// Every file on both sides whose compared contents differ is listed as modified, where
/// each such file's diff is not empty.
proof fn lemma_changes_listed(l: Seq<FileEntry>, u: Seq<FileEntry>, strict: bool)
    requires
        strictly_sorted(l),
        strictly_sorted(u),
        diffs_nonempty(l, u, strict),
    ensures
        forall|p: Seq<char>|
            differs_on_both(l, u, strict, p) ==> lists_with(
                #[trigger] compare_entries(l, u, strict).0,
                p,
                FileStatus::Modified,
            ),
    decreases l.len() + u.len(),
{
    let r = compare_entries(l, u, strict).0;
    if l.len() == 0 && u.len() == 0 {
        return;
    }
    if l.len() > 0 {
        lemma_sorted_tail(l);
    }
    if u.len() > 0 {
        lemma_sorted_tail(u);
    }
    if l.len() == 0 || (u.len() > 0 && seq_lt(u[0].path@, l[0].path@)) {
        let t = u.drop_first();
        lemma_changes_listed(l, t, strict);
        let rest = compare_entries(l, t, strict).0;
        assert(r == seq![r[0]] + rest);
        assert forall|p: Seq<char>| differs_on_both(l, u, strict, p) implies lists_with(
            r,
            p,
            FileStatus::Modified,
        ) by {
            let (i, j) = choose|i: int, j: int|
                0 <= i < l.len() && 0 <= j < u.len() && #[trigger] l[i].path@ == p
                    && #[trigger] u[j].path@ == p && prepared(l[i].content@, strict) != prepared(
                    u[j].content@,
                    strict,
                );
            assert(has_path(l, p));
            if j == 0 {
                lemma_lt_irreflexive(p);
                if p != l[0].path@ {
                    lemma_lt_asymmetric(p, l[0].path@);
                }
            }
            assert(t[j - 1] == u[j]);
            assert(differs_on_both(l, t, strict, p));
            lemma_lists_shift(r[0], rest, p, FileStatus::Modified);
        }
    } else if u.len() == 0 || seq_lt(l[0].path@, u[0].path@) {
        let t = l.drop_first();
        lemma_changes_listed(t, u, strict);
        let rest = compare_entries(t, u, strict).0;
        assert(r == seq![r[0]] + rest);
        assert forall|p: Seq<char>| differs_on_both(l, u, strict, p) implies lists_with(
            r,
            p,
            FileStatus::Modified,
        ) by {
            let (i, j) = choose|i: int, j: int|
                0 <= i < l.len() && 0 <= j < u.len() && #[trigger] l[i].path@ == p
                    && #[trigger] u[j].path@ == p && prepared(l[i].content@, strict) != prepared(
                    u[j].content@,
                    strict,
                );
            assert(has_path(u, p));
            if i == 0 {
                lemma_lt_irreflexive(p);
                if p != u[0].path@ {
                    lemma_lt_asymmetric(p, u[0].path@);
                }
            }
            assert(t[i - 1] == l[i]);
            assert(differs_on_both(t, u, strict, p));
            lemma_lists_shift(r[0], rest, p, FileStatus::Modified);
        }
    } else {
        let p0 = l[0].path@;
        if p0 != u[0].path@ {
            lemma_lt_total(p0, u[0].path@);
        }
        let tl = l.drop_first();
        let tu = u.drop_first();
        lemma_changes_listed(tl, tu, strict);
        let rest = compare_entries(tl, tu, strict).0;
        assert forall|p: Seq<char>| differs_on_both(l, u, strict, p) implies lists_with(
            r,
            p,
            FileStatus::Modified,
        ) by {
            let (i, j) = choose|i: int, j: int|
                0 <= i < l.len() && 0 <= j < u.len() && #[trigger] l[i].path@ == p
                    && #[trigger] u[j].path@ == p && prepared(l[i].content@, strict) != prepared(
                    u[j].content@,
                    strict,
                );
            if p == p0 {
                if i > 0 {
                    lemma_first_path_unique(l, i);
                }
                if j > 0 {
                    lemma_first_path_unique(u, j);
                }
                assert(r[0].path == p && r[0].status == FileStatus::Modified);
            } else {
                assert(i > 0 && j > 0);
                assert(tl[i - 1] == l[i] && tu[j - 1] == u[j]);
                assert(differs_on_both(tl, tu, strict, p));
                if r.len() == rest.len() {
                    assert(r == rest);
                } else {
                    assert(r == seq![r[0]] + rest);
                    lemma_lists_shift(r[0], rest, p, FileStatus::Modified);
                }
            }
        }
    }
}

/// The entry listed for path `p` with this status carries the diff from `old` to `new`:
/// its text, and the insertion and deletion lines counted in it.
pub open spec fn lists_diff(e: FileDiffView, old: Seq<char>, new: Seq<char>) -> bool {
    let d = unified_diff(old, new, seq!['a', '/'] + e.path, seq!['b', '/'] + e.path);
    &&& e.diff_text == d
    &&& e.insertions == count_insertions(lines(d))
    &&& e.deletions == count_deletions(lines(d))
    &&& e.category == category_of(e.path)
}

/// Every listed diff goes from the upstream side to the local side: a modified file's
/// diff goes from its upstream (compared) content to its local content, so that a line
/// added locally is an insertion; an added file's goes from nothing to its local content,
/// a removed file's from its upstream content to nothing.
pub proof fn lemma_listed_diffs_go_upstream_to_local(l: Seq<FileEntry>, u: Seq<FileEntry>, strict: bool)
    requires
        strictly_sorted(l),
        strictly_sorted(u),
    ensures
        forall|i: int|
            0 <= i < compare_entries(l, u, strict).0.len() ==> {
                let e = #[trigger] compare_entries(l, u, strict).0[i];
                &&& e.status == FileStatus::Modified ==> exists|j: int, k: int|
                    0 <= j < l.len() && 0 <= k < u.len() && l[j].path@ == e.path && u[k].path@
                        == e.path && lists_diff(
                        e,
                        prepared(u[k].content@, strict),
                        prepared(l[j].content@, strict),
                    )
                &&& e.status == FileStatus::Added ==> exists|j: int|
                    0 <= j < l.len() && l[j].path@ == e.path && lists_diff(
                        e,
                        Seq::<char>::empty(),
                        prepared(l[j].content@, strict),
                    )
                &&& e.status == FileStatus::Removed ==> exists|k: int|
                    0 <= k < u.len() && u[k].path@ == e.path && lists_diff(
                        e,
                        prepared(u[k].content@, strict),
                        Seq::<char>::empty(),
                    )
            },
    decreases l.len() + u.len(),
{
    let r = compare_entries(l, u, strict).0;
    if l.len() == 0 && u.len() == 0 {
        return;
    }
    if l.len() > 0 {
        lemma_sorted_tail(l);
    }
    if u.len() > 0 {
        lemma_sorted_tail(u);
    }
    if l.len() == 0 || (u.len() > 0 && seq_lt(u[0].path@, l[0].path@)) {
        let t = u.drop_first();
        lemma_listed_diffs_go_upstream_to_local(l, t, strict);
        let rest = compare_entries(l, t, strict).0;
        assert(r == seq![r[0]] + rest);
        assert forall|i: int| 0 <= i < r.len() implies {
            let e = #[trigger] r[i];
            &&& e.status == FileStatus::Modified ==> exists|j: int, k: int|
                0 <= j < l.len() && 0 <= k < u.len() && l[j].path@ == e.path && u[k].path@
                    == e.path && lists_diff(e, prepared(u[k].content@, strict), prepared(l[j].content@, strict))
            &&& e.status == FileStatus::Added ==> exists|j: int|
                0 <= j < l.len() && l[j].path@ == e.path && lists_diff(e, Seq::<char>::empty(), prepared(l[j].content@, strict))
            &&& e.status == FileStatus::Removed ==> exists|k: int|
                0 <= k < u.len() && u[k].path@ == e.path && lists_diff(e, prepared(u[k].content@, strict), Seq::<char>::empty())
        } by {
            if i == 0 {
                assert(u[0].path@ == r[0].path);
                assert(lists_diff(r[0], prepared(u[0].content@, strict), Seq::<char>::empty()));
            } else {
                let e = r[i];
                assert(e == rest[i - 1]);
                if e.status == FileStatus::Modified {
                    let (j, k) = choose|j: int, k: int|
                        0 <= j < l.len() && 0 <= k < t.len() && l[j].path@ == e.path && t[k].path@
                            == e.path && lists_diff(e, prepared(t[k].content@, strict), prepared(l[j].content@, strict));
                    assert(u[k + 1] == t[k]);
                }
                if e.status == FileStatus::Removed {
                    let k = choose|k: int|
                        0 <= k < t.len() && t[k].path@ == e.path && lists_diff(e, prepared(t[k].content@, strict), Seq::<char>::empty());
                    assert(u[k + 1] == t[k]);
                }
            }
        }
    } else if u.len() == 0 || seq_lt(l[0].path@, u[0].path@) {
        let t = l.drop_first();
        lemma_listed_diffs_go_upstream_to_local(t, u, strict);
        let rest = compare_entries(t, u, strict).0;
        assert(r == seq![r[0]] + rest);
        assert forall|i: int| 0 <= i < r.len() implies {
            let e = #[trigger] r[i];
            &&& e.status == FileStatus::Modified ==> exists|j: int, k: int|
                0 <= j < l.len() && 0 <= k < u.len() && l[j].path@ == e.path && u[k].path@
                    == e.path && lists_diff(e, prepared(u[k].content@, strict), prepared(l[j].content@, strict))
            &&& e.status == FileStatus::Added ==> exists|j: int|
                0 <= j < l.len() && l[j].path@ == e.path && lists_diff(e, Seq::<char>::empty(), prepared(l[j].content@, strict))
            &&& e.status == FileStatus::Removed ==> exists|k: int|
                0 <= k < u.len() && u[k].path@ == e.path && lists_diff(e, prepared(u[k].content@, strict), Seq::<char>::empty())
        } by {
            if i == 0 {
                assert(l[0].path@ == r[0].path);
                assert(lists_diff(r[0], Seq::<char>::empty(), prepared(l[0].content@, strict)));
            } else {
                let e = r[i];
                assert(e == rest[i - 1]);
                if e.status == FileStatus::Modified {
                    let (j, k) = choose|j: int, k: int|
                        0 <= j < t.len() && 0 <= k < u.len() && t[j].path@ == e.path && u[k].path@
                            == e.path && lists_diff(e, prepared(u[k].content@, strict), prepared(t[j].content@, strict));
                    assert(l[j + 1] == t[j]);
                }
                if e.status == FileStatus::Added {
                    let j = choose|j: int|
                        0 <= j < t.len() && t[j].path@ == e.path && lists_diff(e, Seq::<char>::empty(), prepared(t[j].content@, strict));
                    assert(l[j + 1] == t[j]);
                }
            }
        }
    } else {
        let p0 = l[0].path@;
        if p0 != u[0].path@ {
            lemma_lt_total(p0, u[0].path@);
        }
        let tl = l.drop_first();
        let tu = u.drop_first();
        lemma_listed_diffs_go_upstream_to_local(tl, tu, strict);
        let rest = compare_entries(tl, tu, strict).0;
        assert forall|i: int| 0 <= i < r.len() implies {
            let e = #[trigger] r[i];
            &&& e.status == FileStatus::Modified ==> exists|j: int, k: int|
                0 <= j < l.len() && 0 <= k < u.len() && l[j].path@ == e.path && u[k].path@
                    == e.path && lists_diff(e, prepared(u[k].content@, strict), prepared(l[j].content@, strict))
            &&& e.status == FileStatus::Added ==> exists|j: int|
                0 <= j < l.len() && l[j].path@ == e.path && lists_diff(e, Seq::<char>::empty(), prepared(l[j].content@, strict))
            &&& e.status == FileStatus::Removed ==> exists|k: int|
                0 <= k < u.len() && u[k].path@ == e.path && lists_diff(e, prepared(u[k].content@, strict), Seq::<char>::empty())
        } by {
            let e = r[i];
            let off: int = r.len() - rest.len();
            if r.len() != rest.len() {
                assert(r == seq![r[0]] + rest);
            } else {
                assert(r == rest);
            }
            if i < off {
                assert(i == 0);
                assert(l[0].path@ == e.path && u[0].path@ == e.path);
                assert(e.status == FileStatus::Modified);
                assert(lists_diff(e, prepared(u[0].content@, strict), prepared(l[0].content@, strict)));
            } else {
                assert(e == rest[i - off]);
                if e.status == FileStatus::Modified {
                    let (j, k) = choose|j: int, k: int|
                        0 <= j < tl.len() && 0 <= k < tu.len() && tl[j].path@ == e.path && tu[k].path@
                            == e.path && lists_diff(e, prepared(tu[k].content@, strict), prepared(tl[j].content@, strict));
                    assert(l[j + 1] == tl[j] && u[k + 1] == tu[k]);
                }
                if e.status == FileStatus::Added {
                    let j = choose|j: int|
                        0 <= j < tl.len() && tl[j].path@ == e.path && lists_diff(e, Seq::<char>::empty(), prepared(tl[j].content@, strict));
                    assert(l[j + 1] == tl[j]);
                }
                if e.status == FileStatus::Removed {
                    let k = choose|k: int|
                        0 <= k < tu.len() && tu[k].path@ == e.path && lists_diff(e, prepared(tu[k].content@, strict), Seq::<char>::empty());
                    assert(u[k + 1] == tu[k]);
                }
            }
        }
    }
}

// ---------------------------------------------------------------------------
// Walking a tree
// ---------------------------------------------------------------------------

/// The directory names that are never compared: installed dependencies, version-control
/// data and the macOS folder metadata file name.
pub open spec fn is_skipped_dir_name(name: Seq<char>) -> bool {
    ||| name == "node_modules"@
    ||| name == "external"@
    ||| name == ".git"@
    ||| name == ".svn"@
    ||| name == ".hg"@
    ||| name == "vendor"@
    ||| name == ".DS_Store"@
}

/// Whether a directory of this name is left out of a comparison.
pub fn should_skip_dir(name: &str) -> (b: bool)
    ensures
        b == is_skipped_dir_name(name@),
{
    str_eq(name, "node_modules") || str_eq(name, "external") || str_eq(name, ".git") || str_eq(
        name,
        ".svn",
    ) || str_eq(name, ".hg") || str_eq(name, "vendor") || str_eq(name, ".DS_Store")
}

/// What a walk over a tree does with one entry.
#[derive(Clone, Copy, Debug, PartialEq, Eq, Structural)]
pub enum WalkStep {
    /// Visit the entry (and, for a directory, what it holds).
    Enter,
    /// Leave the directory and all it holds out.
    Prune,
    /// Leave the directory out, and list its name as skipped.
    PruneAndReport,
}

/// The step for an entry: a directory below the root whose name is skipped is pruned,
/// and reported when it sits directly in the root.
pub open spec fn walk_step_of(is_dir: bool, depth: nat, name: Seq<char>) -> WalkStep {
    if is_dir && depth > 0 && is_skipped_dir_name(name) {
        if depth == 1 {
            WalkStep::PruneAndReport
        } else {
            WalkStep::Prune
        }
    } else {
        WalkStep::Enter
    }
}

/// A directory below the root whose name is skipped is never entered, whatever its
/// depth; only those directly in the root are reported.
pub proof fn lemma_skipped_dirs_never_entered(depth: nat, name: Seq<char>)
    requires
        depth > 0,
        is_skipped_dir_name(name),
    ensures
        walk_step_of(true, depth, name) != WalkStep::Enter,
        (walk_step_of(true, depth, name) == WalkStep::PruneAndReport) == (depth == 1),
{
}

/// What to do with an entry met while walking a plugin tree, `depth` levels below the
/// root, whose last component is `name`.
pub fn walk_step(is_dir: bool, depth: usize, name: &str) -> (s: WalkStep)
    ensures
        s == walk_step_of(is_dir, depth as nat, name@),
{
    if is_dir && depth > 0 && should_skip_dir(name) {
        if depth == 1 {
            WalkStep::PruneAndReport
        } else {
            WalkStep::Prune
        }
    } else {
        WalkStep::Enter
    }
}

} // verus!
