//! Comparing a local plugin tree with its upstream tree, and filtering the result.

use vstd::prelude::*;
use crate::model::{
    copy_strings, file_views, CategorySummary, CategoryTally, DiffResult, DiffSummary, FileCategory, FileDiff,
    FileDiffView, FileStatus, SkippedDirs,
};
use crate::text::{chars_of, string_from_chars, string_views};

verus! {

// ---------------------------------------------------------------------------
// Counting
// ---------------------------------------------------------------------------

/// How many of the files have the given status.
pub open spec fn count_status(fs: Seq<FileDiffView>, st: FileStatus) -> nat
    decreases fs.len(),
{
    if fs.len() == 0 {
        0
    } else {
        count_status(fs.drop_last(), st) + if fs.last().status == st {
            1nat
        } else {
            0nat
        }
    }
}

/// The per-category counts of the files, tallied in order.
pub open spec fn tally_of(fs: Seq<FileDiffView>) -> CategoryTally
    decreases fs.len(),
{
    if fs.len() == 0 {
        CategoryTally::empty()
    } else {
        tally_of(fs.drop_last()).tallied(fs.last().category, fs.last().status)
    }
}

/// Counts never exceed the number of files counted.
pub proof fn lemma_counts_bounded(fs: Seq<FileDiffView>, c: FileCategory, st: FileStatus)
    requires
        fs.len() <= usize::MAX,
    ensures
        count_status(fs, st) <= fs.len(),
        tally_of(fs).get_or_zero(c).count(st) <= fs.len(),
    decreases fs.len(),
{
    if fs.len() > 0 {
        lemma_counts_bounded(fs.drop_last(), c, st);
        lemma_counts_bounded(fs.drop_last(), fs.last().category, fs.last().status);
    }
}

/// Every file is added, removed or modified: the three counts add up to the number of
/// files.
pub proof fn lemma_status_counts_partition(fs: Seq<FileDiffView>)
    ensures
        count_status(fs, FileStatus::Added) + count_status(fs, FileStatus::Removed) + count_status(
            fs,
            FileStatus::Modified,
        ) == fs.len(),
    decreases fs.len(),
{
    if fs.len() > 0 {
        lemma_status_counts_partition(fs.drop_last());
    }
}

/// The summary of a set of files: status counts and per-category counts.
pub open spec fn summary_matches(s: DiffSummary, fs: Seq<FileDiffView>) -> bool {
    &&& s.added == count_status(fs, FileStatus::Added)
    &&& s.removed == count_status(fs, FileStatus::Removed)
    &&& s.modified == count_status(fs, FileStatus::Modified)
    &&& s.by_category == tally_of(fs)
}

/// A summary that matches its files counts each of them once: added, removed and
/// modified add up to the number of files listed.
pub proof fn lemma_summary_counts_every_file(s: DiffSummary, fs: Seq<FileDiffView>)
    requires
        summary_matches(s, fs),
    ensures
        s.added + s.removed + s.modified == fs.len(),
{
    lemma_status_counts_partition(fs);
}

impl CategorySummary {
    /// Counts one file of the given category and status in `map`, adding the
    /// category with zero counts first where it is absent.
    pub fn tally(map: &mut CategoryTally, category: FileCategory, status: FileStatus)
        requires
            old(map).get_or_zero(category).count(status) < usize::MAX,
        ensures
            *final(map) == old(map).tallied(category, status),
    {
        let mut e = match map.lookup(category) {
            Some(s) => s,
            None => CategorySummary { added: 0, removed: 0, modified: 0 },
        };
        match status {
            FileStatus::Added => e.added = e.added + 1,
            FileStatus::Removed => e.removed = e.removed + 1,
            FileStatus::Modified => e.modified = e.modified + 1,
        }
        match category {
            FileCategory::Source => map.source = Some(e),
            FileCategory::Artifact => map.artifact = Some(e),
            FileCategory::Asset => map.asset = Some(e),
            FileCategory::Metadata => map.metadata = Some(e),
        }
    }
}

/// A copy of an optional string.
pub fn clone_opt_string(v: &Option<String>) -> (r: Option<String>)
    ensures
        r == *v,
{
    match v {
        Some(s) => Some(s.clone()),
        None => None,
    }
}

impl DiffResult {
    /// This result with its files replaced by `files` and the added, removed,
    /// modified and per-category counts recomputed from them; the unchanged count,
    /// the plugin, the versions and the skipped directories stay.
    pub fn with_files(&self, files: Vec<FileDiff>) -> (r: DiffResult)
        ensures
            r.plugin_slug == self.plugin_slug,
            r.plugin_version == self.plugin_version,
            r.latest_version == self.latest_version,
            r.skipped_dirs.local@ == self.skipped_dirs.local@,
            r.skipped_dirs.upstream@ == self.skipped_dirs.upstream@,
            r.files@ == files@,
            r.summary.unchanged == self.summary.unchanged,
            summary_matches(r.summary, file_views(files@)),
    {
        let ghost fv = file_views(files@);
        let mut by_category = CategoryTally::new();
        let mut added: usize = 0;
        let mut removed: usize = 0;
        let mut modified: usize = 0;
        let mut i: usize = 0;
        while i < files.len()
            invariant
                i <= files.len(),
                fv == file_views(files@),
                added == count_status(fv.take(i as int), FileStatus::Added),
                removed == count_status(fv.take(i as int), FileStatus::Removed),
                modified == count_status(fv.take(i as int), FileStatus::Modified),
                by_category == tally_of(fv.take(i as int)),
            decreases files.len() - i,
        {
            proof {
                lemma_counts_bounded(fv.take(i as int), files@[i as int].category, FileStatus::Added);
                lemma_counts_bounded(fv.take(i as int), files@[i as int].category, FileStatus::Removed);
                lemma_counts_bounded(fv.take(i as int), files@[i as int].category, FileStatus::Modified);
                assert(fv.take(i + 1).drop_last() =~= fv.take(i as int));
                assert(fv.take(i + 1).last() == files@[i as int]@);
            }
            let f = &files[i];
            CategorySummary::tally(&mut by_category, f.category, f.status);
            match f.status {
                FileStatus::Added => added += 1,
                FileStatus::Removed => removed += 1,
                FileStatus::Modified => modified += 1,
            }
            i += 1;
        }
        assert(fv.take(files.len() as int) =~= fv);
        DiffResult {
            plugin_slug: self.plugin_slug.clone(),
            plugin_version: self.plugin_version.clone(),
            latest_version: clone_opt_string(&self.latest_version),
            files,
            skipped_dirs: SkippedDirs {
                local: copy_strings(&self.skipped_dirs.local),
                upstream: copy_strings(&self.skipped_dirs.upstream),
            },
            summary: DiffSummary {
                added,
                removed,
                modified,
                unchanged: self.summary.unchanged,
                by_category,
            },
        }
    }
}

// ---------------------------------------------------------------------------
// Filtering
// ---------------------------------------------------------------------------

/// A set of file categories.
#[derive(Clone, Copy, Debug, PartialEq, Eq, Structural)]
pub struct CategorySet {
    pub source: bool,
    pub artifact: bool,
    pub asset: bool,
    pub metadata: bool,
}

impl CategorySet {
    /// Whether the set holds `c`.
    pub open spec fn has(self, c: FileCategory) -> bool {
        match c {
            FileCategory::Source => self.source,
            FileCategory::Artifact => self.artifact,
            FileCategory::Asset => self.asset,
            FileCategory::Metadata => self.metadata,
        }
    }

    /// The empty set.
    pub fn new() -> (s: CategorySet)
        ensures
            forall|c: FileCategory| !s.has(c),
    {
        CategorySet { source: false, artifact: false, asset: false, metadata: false }
    }

    /// Adds `c` to the set.
    pub fn insert(&mut self, c: FileCategory)
        ensures
            forall|x: FileCategory| final(self).has(x) == (old(self).has(x) || x == c),
    {
        match c {
            FileCategory::Source => self.source = true,
            FileCategory::Artifact => self.artifact = true,
            FileCategory::Asset => self.asset = true,
            FileCategory::Metadata => self.metadata = true,
        }
    }

    /// Whether the set holds `c`.
    pub fn contains(&self, c: FileCategory) -> (b: bool)
        ensures
            b == self.has(c),
    {
        match c {
            FileCategory::Source => self.source,
            FileCategory::Artifact => self.artifact,
            FileCategory::Asset => self.asset,
            FileCategory::Metadata => self.metadata,
        }
    }
}

/// What `glob_match::glob_match(glob, path)` returns: whether the path matches the
/// glob pattern.
pub uninterp spec fn spec_glob_match(glob: Seq<char>, path: Seq<char>) -> bool;

/// Trusted: `glob_match::glob_match`. The contract names its result, which
/// depends on the pattern and the path alone; the glob syntax is left unstated.
#[verifier::external_body]
fn matches_glob(glob: &str, path: &str) -> (r: bool)
    ensures
        r == spec_glob_match(glob@, path@),
{
    glob_match::glob_match(glob, path)
}

/// A pattern with a wildcard or a character class in it.
pub open spec fn is_glob_pattern(p: Seq<char>) -> bool {
    p.contains('*') || p.contains('?') || p.contains('[')
}

/// The pattern without the slashes at its end.
pub open spec fn trim_trailing_slashes(p: Seq<char>) -> Seq<char>
    decreases p.len(),
{
    if p.len() > 0 && p.last() == '/' {
        trim_trailing_slashes(p.drop_last())
    } else {
        p
    }
}

/// The glob patterns that an exclusion pattern stands for: a glob stands for itself;
/// a bare name `n` excludes `n` itself and everything in or under a directory `n`
/// anywhere: `n`, `n/**`, `**/n` and `**/n/**`.
pub open spec fn expansions(p: Seq<char>) -> Seq<Seq<char>> {
    if is_glob_pattern(p) {
        seq![p]
    } else {
        let t = trim_trailing_slashes(p);
        seq![
            t,
            t + seq!['/', '*', '*'],
            seq!['*', '*', '/'] + t,
            seq!['*', '*', '/'] + t + seq!['/', '*', '*'],
        ]
    }
}

/// The glob patterns of all exclusion patterns, in order.
pub open spec fn expand_patterns(ps: Seq<Seq<char>>) -> Seq<Seq<char>>
    decreases ps.len(),
{
    if ps.len() == 0 {
        seq![]
    } else {
        expand_patterns(ps.drop_last()) + expansions(ps.last())
    }
}

/// Some pattern matches the path.
pub open spec fn excluded_by(globs: Seq<Seq<char>>, path: Seq<char>) -> bool {
    exists|i: int| 0 <= i < globs.len() && spec_glob_match(globs[i], path)
}

/// A file survives the filter: its category is included and no exclusion glob matches it.
pub open spec fn kept(f: FileDiffView, cats: CategorySet, globs: Seq<Seq<char>>) -> bool {
    cats.has(f.category) && (globs.len() == 0 || !excluded_by(globs, f.path))
}

/// The files that survive the filter, in order.
pub open spec fn filter_files(
    fs: Seq<FileDiffView>,
    cats: CategorySet,
    patterns: Seq<Seq<char>>,
) -> Seq<FileDiffView> {
    fs.filter(|f: FileDiffView| kept(f, cats, expand_patterns(patterns)))
}

fn contains_char(v: &Vec<char>, c: char) -> (b: bool)
    ensures
        b == v@.contains(c),
{
    let mut i: usize = 0;
    while i < v.len()
        invariant
            i <= v.len(),
            forall|k: int| 0 <= k < i ==> v@[k] != c,
        decreases v.len() - i,
    {
        if v[i] == c {
            return true;
        }
        i += 1;
    }
    false
}

fn with_suffix(base: &Vec<char>, prefix: &Vec<char>, suffix: &Vec<char>) -> (s: String)
    ensures
        s@ == prefix@ + base@ + suffix@,
{
    let mut v = prefix.clone();
    crate::text::extend_chars(&mut v, base);
    crate::text::extend_chars(&mut v, suffix);
    string_from_chars(&v)
}

/// Appends the glob patterns that one exclusion pattern stands for.
fn push_expansions(out: &mut Vec<String>, p: &String)
    ensures
        string_views(final(out)@) == string_views(old(out)@) + expansions(p@),
{
    let v = chars_of(p.as_str());
    let ghost before = string_views(out@);
    if contains_char(&v, '*') || contains_char(&v, '?') || contains_char(&v, '[') {
        out.push(p.clone());
        assert(string_views(out@) =~= before + expansions(p@));
        return;
    }
    let mut k = v.len();
    assert(v@.take(k as int) =~= v@);
    while k > 0 && v[k - 1] == '/'
        invariant
            k <= v.len(),
            trim_trailing_slashes(v@) == trim_trailing_slashes(v@.take(k as int)),
        decreases k,
    {
        assert(v@.take(k as int).drop_last() =~= v@.take(k - 1));
        k -= 1;
    }
    let t = crate::text::slice_chars(&v, 0, k);
    assert(t@ =~= v@.take(k as int));
    let empty: Vec<char> = Vec::new();
    let slash_stars: Vec<char> = vec!['/', '*', '*'];
    let stars_slash: Vec<char> = vec!['*', '*', '/'];
    let a = string_from_chars(&t);
    let b = with_suffix(&t, &empty, &slash_stars);
    let c = with_suffix(&t, &stars_slash, &empty);
    let d = with_suffix(&t, &stars_slash, &slash_stars);
    out.push(a);
    out.push(b);
    out.push(c);
    out.push(d);
    proof {
        let tt = trim_trailing_slashes(p@);
        assert(empty@ + t@ + slash_stars@ =~= tt + seq!['/', '*', '*']);
        assert(stars_slash@ + t@ + empty@ =~= seq!['*', '*', '/'] + tt);
        assert(stars_slash@ + t@ + slash_stars@ =~= seq!['*', '*', '/'] + tt + seq!['/', '*', '*']);
    }
    assert(string_views(out@) =~= before + expansions(p@));
}

/// Whether some pattern matches the path.
fn any_glob_matches(globs: &Vec<String>, path: &String) -> (b: bool)
    ensures
        b == excluded_by(string_views(globs@), path@),
{
    let mut i: usize = 0;
    while i < globs.len()
        invariant
            i <= globs.len(),
            forall|k: int| 0 <= k < i ==> !spec_glob_match(globs@[k]@, path@),
        decreases globs.len() - i,
    {
        if matches_glob(globs[i].as_str(), path.as_str()) {
            assert(string_views(globs@)[i as int] == globs@[i as int]@);
            return true;
        }
        i += 1;
    }
    assert forall|k: int| 0 <= k < string_views(globs@).len() implies !spec_glob_match(
        string_views(globs@)[k],
        path@,
    ) by {
        assert(string_views(globs@)[k] == globs@[k]@);
    }
    false
}

impl DiffResult {
    /// This result restricted to the files whose category is in `categories` and
    /// that no exclusion pattern matches, with its counts recomputed. An exclusion
    /// pattern with `*`, `?` or `[` is a glob; any other is a file or directory name
    /// that is excluded wherever it occurs.
    pub fn apply(&self, categories: &CategorySet, exclude_patterns: &[String]) -> (r: DiffResult)
        ensures
            r.plugin_slug == self.plugin_slug,
            r.plugin_version == self.plugin_version,
            r.latest_version == self.latest_version,
            r.skipped_dirs.local@ == self.skipped_dirs.local@,
            r.skipped_dirs.upstream@ == self.skipped_dirs.upstream@,
            r.summary.unchanged == self.summary.unchanged,
            file_views(r.files@) == filter_files(
                file_views(self.files@),
                *categories,
                string_views(exclude_patterns@),
            ),
            summary_matches(r.summary, file_views(r.files@)),
    {
        let ghost pats = string_views(exclude_patterns@);
        let mut expanded: Vec<String> = Vec::new();
        let mut i: usize = 0;
        while i < exclude_patterns.len()
            invariant
                i <= exclude_patterns.len(),
                pats == string_views(exclude_patterns@),
                string_views(expanded@) == expand_patterns(pats.take(i as int)),
            decreases exclude_patterns.len() - i,
        {
            push_expansions(&mut expanded, &exclude_patterns[i]);
            proof {
                assert(pats.take(i + 1).drop_last() =~= pats.take(i as int));
                assert(pats.take(i + 1).last() == exclude_patterns@[i as int]@);
            }
            i += 1;
        }
        assert(pats.take(exclude_patterns.len() as int) =~= pats);
        let ghost globs = string_views(expanded@);
        let ghost pred = |f: FileDiffView| kept(f, *categories, globs);
        let ghost fv = file_views(self.files@);
        let mut files: Vec<FileDiff> = Vec::new();
        let mut j: usize = 0;
        while j < self.files.len()
            invariant
                j <= self.files.len(),
                fv == file_views(self.files@),
                globs == string_views(expanded@),
                pred == (|f: FileDiffView| kept(f, *categories, globs)),
                file_views(files@) == fv.take(j as int).filter(pred),
            decreases self.files.len() - j,
        {
            proof {
                reveal(Seq::filter);
                assert(fv.take(j + 1).drop_last() =~= fv.take(j as int));
                assert(fv.take(j + 1).last() == self.files@[j as int]@);
            }
            let f = &self.files[j];
            let keep = categories.contains(f.category) && (expanded.len() == 0
                || !any_glob_matches(&expanded, &f.path));
            if keep {
                let g = f.duplicate();
                proof {
                    assert(file_views(files@.push(g)) =~= file_views(files@).push(g@));
                }
                files.push(g);
            }
            j += 1;
        }
        assert(fv.take(self.files.len() as int) =~= fv);
        self.with_files(files)
    }
}


/// Filtering twice with the same categories and patterns is filtering once.
pub proof fn lemma_filter_idempotent(fs: Seq<FileDiffView>, cats: CategorySet, patterns: Seq<Seq<char>>)
    ensures
        filter_files(filter_files(fs, cats, patterns), cats, patterns) == filter_files(
            fs,
            cats,
            patterns,
        ),
    decreases fs.len(),
{
    reveal(Seq::filter);
    let pred = |f: FileDiffView| kept(f, cats, expand_patterns(patterns));
    if fs.len() > 0 {
        lemma_filter_idempotent(fs.drop_last(), cats, patterns);
        let once = fs.filter(pred);
        let rest = fs.drop_last().filter(pred);
        if pred(fs.last()) {
            assert(once == rest.push(fs.last()));
            assert(once.drop_last() =~= rest);
        } else {
            assert(once == rest);
        }
    } else {
        assert(fs.filter(pred) =~= fs);
        assert(fs.filter(pred).filter(pred) =~= fs);
    }
}

/// With every category included and no exclusion pattern, no file is filtered out.
pub proof fn lemma_filter_keeps_all(fs: Seq<FileDiffView>)
    ensures
        filter_files(
            fs,
            CategorySet { source: true, artifact: true, asset: true, metadata: true },
            seq![],
        ) == fs,
    decreases fs.len(),
{
    reveal(Seq::filter);
    let cats = CategorySet { source: true, artifact: true, asset: true, metadata: true };
    let pats: Seq<Seq<char>> = seq![];
    let pred = |f: FileDiffView| kept(f, cats, expand_patterns(pats));
    assert(expand_patterns(pats) =~= Seq::<Seq<char>>::empty());
    if fs.len() > 0 {
        lemma_filter_keeps_all(fs.drop_last());
        assert(pred(fs.last()));
        assert(fs.drop_last().push(fs.last()) =~= fs);
    } else {
        assert(fs.filter(pred) =~= fs);
    }
}

/// The files a filter keeps are those of the input that it keeps, in their order: each
/// kept file is an input file of an included category that no exclusion glob matches.
pub proof fn lemma_filter_keeps_only_shown(fs: Seq<FileDiffView>, cats: CategorySet, patterns: Seq<Seq<char>>)
    ensures
        forall|i: int|
            0 <= i < filter_files(fs, cats, patterns).len() ==> {
                let f = #[trigger] filter_files(fs, cats, patterns)[i];
                &&& fs.contains(f)
                &&& cats.has(f.category)
                &&& (patterns.len() == 0 || !excluded_by(expand_patterns(patterns), f.path))
            },
{
    let pred = |f: FileDiffView| kept(f, cats, expand_patterns(patterns));
    fs.filter_lemma(pred);
    assert forall|i: int| 0 <= i < filter_files(fs, cats, patterns).len() implies {
        let f = #[trigger] filter_files(fs, cats, patterns)[i];
        &&& fs.contains(f)
        &&& cats.has(f.category)
        &&& (patterns.len() == 0 || !excluded_by(expand_patterns(patterns), f.path))
    } by {
        let f = filter_files(fs, cats, patterns)[i];
        assert(fs.filter(pred)[i] == f);
        assert(pred(f));
        assert(fs.filter(pred).contains(f));
        fs.lemma_filter_contains_rev(pred, f);
        if patterns.len() > 0 {
            lemma_expansions_nonempty(patterns);
        }
    }
}

/// Each pattern stands for at least one glob.
proof fn lemma_expansions_nonempty(ps: Seq<Seq<char>>)
    requires
        ps.len() > 0,
    ensures
        expand_patterns(ps).len() > 0,
    decreases ps.len(),
{
}

} // verus!
