//! The result of comparing a local plugin with its upstream version.

use vstd::prelude::*;

verus! {

/// How a file differs between the local tree and upstream.
#[derive(Clone, Copy, Debug, PartialEq, Eq, Structural)]
pub enum FileStatus {
    Added,
    Removed,
    Modified,
}

/// What kind of file a path is.
#[derive(Clone, Copy, Debug, PartialEq, Eq, Hash, PartialOrd, Ord, Structural)]
pub enum FileCategory {
    Source,
    Artifact,
    Asset,
    Metadata,
}

impl FileCategory {
    /// The lowercase name of the category, as it is displayed and serialized.
    pub open spec fn spec_name(self) -> Seq<char> {
        match self {
            FileCategory::Source => "source"@,
            FileCategory::Artifact => "artifact"@,
            FileCategory::Asset => "asset"@,
            FileCategory::Metadata => "metadata"@,
        }
    }

    /// The lowercase name of the category.
    pub fn name(&self) -> (s: &'static str)
        ensures
            s@ == self.spec_name(),
    {
        match self {
            FileCategory::Source => "source",
            FileCategory::Artifact => "artifact",
            FileCategory::Asset => "asset",
            FileCategory::Metadata => "metadata",
        }
    }
}

/// Counts of added, removed and modified files.
#[derive(Clone, Copy, Debug, PartialEq, Eq, Structural)]
pub struct CategorySummary {
    pub added: usize,
    pub removed: usize,
    pub modified: usize,
}

impl CategorySummary {
    /// No file counted yet.
    pub open spec fn zero() -> CategorySummary {
        CategorySummary { added: 0, removed: 0, modified: 0 }
    }

    /// This summary with one more file of the given status.
    pub open spec fn bumped(self, status: FileStatus) -> CategorySummary {
        match status {
            FileStatus::Added => CategorySummary { added: (self.added + 1) as usize, ..self },
            FileStatus::Removed => CategorySummary { removed: (self.removed + 1) as usize, ..self },
            FileStatus::Modified => CategorySummary {
                modified: (self.modified + 1) as usize,
                ..self
            },
        }
    }
}

/// Per-category counts; a category is present once a file of it has been counted.
#[derive(Clone, Copy, Debug, PartialEq, Eq, Structural)]
pub struct CategoryTally {
    pub source: Option<CategorySummary>,
    pub artifact: Option<CategorySummary>,
    pub asset: Option<CategorySummary>,
    pub metadata: Option<CategorySummary>,
}

impl CategoryTally {
    /// No category present.
    pub open spec fn empty() -> CategoryTally {
        CategoryTally { source: None, artifact: None, asset: None, metadata: None }
    }

    /// The counts of one category, if present.
    pub open spec fn get(self, c: FileCategory) -> Option<CategorySummary> {
        match c {
            FileCategory::Source => self.source,
            FileCategory::Artifact => self.artifact,
            FileCategory::Asset => self.asset,
            FileCategory::Metadata => self.metadata,
        }
    }

    /// The tally with the entry of `c` replaced.
    pub open spec fn with(self, c: FileCategory, s: CategorySummary) -> CategoryTally {
        match c {
            FileCategory::Source => CategoryTally { source: Some(s), ..self },
            FileCategory::Artifact => CategoryTally { artifact: Some(s), ..self },
            FileCategory::Asset => CategoryTally { asset: Some(s), ..self },
            FileCategory::Metadata => CategoryTally { metadata: Some(s), ..self },
        }
    }

    /// The counts of `c`, zero where absent.
    pub open spec fn get_or_zero(self, c: FileCategory) -> CategorySummary {
        match self.get(c) {
            Some(s) => s,
            None => CategorySummary::zero(),
        }
    }

    /// The tally after counting one file of category `c` and status `st`.
    pub open spec fn tallied(self, c: FileCategory, st: FileStatus) -> CategoryTally {
        self.with(c, self.get_or_zero(c).bumped(st))
    }

    /// A tally with no category present.
    pub fn new() -> (t: CategoryTally)
        ensures
            t == CategoryTally::empty(),
    {
        CategoryTally { source: None, artifact: None, asset: None, metadata: None }
    }

    /// The counts of one category, if present.
    pub fn lookup(&self, c: FileCategory) -> (r: Option<CategorySummary>)
        ensures
            r == self.get(c),
    {
        match c {
            FileCategory::Source => self.source,
            FileCategory::Artifact => self.artifact,
            FileCategory::Asset => self.asset,
            FileCategory::Metadata => self.metadata,
        }
    }
}

/// One file that differs, with its unified diff and its line counts.
#[derive(Clone, Debug)]
pub struct FileDiff {
    pub path: String,
    pub status: FileStatus,
    pub category: FileCategory,
    pub insertions: usize,
    pub deletions: usize,
    pub diff_text: String,
}

/// The abstract content of a [`FileDiff`].
pub struct FileDiffView {
    pub path: Seq<char>,
    pub status: FileStatus,
    pub category: FileCategory,
    pub insertions: nat,
    pub deletions: nat,
    pub diff_text: Seq<char>,
}

impl View for FileDiff {
    type V = FileDiffView;

    open spec fn view(&self) -> FileDiffView {
        FileDiffView {
            path: self.path@,
            status: self.status,
            category: self.category,
            insertions: self.insertions as nat,
            deletions: self.deletions as nat,
            diff_text: self.diff_text@,
        }
    }
}

/// The views of a sequence of file entries.
pub open spec fn file_views(fs: Seq<FileDiff>) -> Seq<FileDiffView> {
    fs.map_values(|f: FileDiff| f@)
}

impl CategorySummary {
    /// The count kept for a status.
    pub open spec fn count(self, st: FileStatus) -> usize {
        match st {
            FileStatus::Added => self.added,
            FileStatus::Removed => self.removed,
            FileStatus::Modified => self.modified,
        }
    }
}

impl FileDiff {
    /// A copy of this entry.
    pub fn duplicate(&self) -> (r: FileDiff)
        ensures
            r == *self,
    {
        FileDiff {
            path: self.path.clone(),
            status: self.status,
            category: self.category,
            insertions: self.insertions,
            deletions: self.deletions,
            diff_text: self.diff_text.clone(),
        }
    }
}

/// Top-level directories that were skipped on each side.
#[derive(Clone, Debug)]
pub struct SkippedDirs {
    pub local: Vec<String>,
    pub upstream: Vec<String>,
}

/// Counts over a whole comparison.
#[derive(Clone, Debug)]
pub struct DiffSummary {
    pub added: usize,
    pub removed: usize,
    pub modified: usize,
    pub unchanged: usize,
    pub by_category: CategoryTally,
}

/// The comparison of one plugin with its upstream version.
#[derive(Clone, Debug)]
pub struct DiffResult {
    pub plugin_slug: String,
    pub plugin_version: String,
    pub latest_version: Option<String>,
    pub files: Vec<FileDiff>,
    pub skipped_dirs: SkippedDirs,
    pub summary: DiffSummary,
}

/// The abstract content of a [`DiffResult`].
pub struct DiffResultView {
    pub plugin_slug: Seq<char>,
    pub plugin_version: Seq<char>,
    pub latest_version: Option<Seq<char>>,
    pub files: Seq<FileDiffView>,
    pub skipped_local: Seq<Seq<char>>,
    pub skipped_upstream: Seq<Seq<char>>,
    pub added: nat,
    pub removed: nat,
    pub modified: nat,
    pub unchanged: nat,
    pub by_category: CategoryTally,
}

impl View for DiffResult {
    type V = DiffResultView;

    open spec fn view(&self) -> DiffResultView {
        DiffResultView {
            plugin_slug: self.plugin_slug@,
            plugin_version: self.plugin_version@,
            latest_version: match self.latest_version {
                Some(v) => Some(v@),
                None => None,
            },
            files: file_views(self.files@),
            skipped_local: self.skipped_dirs.local@.map_values(|s: String| s@),
            skipped_upstream: self.skipped_dirs.upstream@.map_values(|s: String| s@),
            added: self.summary.added as nat,
            removed: self.summary.removed as nat,
            modified: self.summary.modified as nat,
            unchanged: self.summary.unchanged as nat,
            by_category: self.summary.by_category,
        }
    }
}

impl DiffResult {
    /// A copy of this result.
    pub fn duplicate(&self) -> (r: DiffResult)
        ensures
            r@ == self@,
    {
        let mut files: Vec<FileDiff> = Vec::new();
        let mut i: usize = 0;
        while i < self.files.len()
            invariant
                i <= self.files.len(),
                files@ == self.files@.take(i as int),
            decreases self.files.len() - i,
        {
            files.push(self.files[i].duplicate());
            assert(self.files@.take(i + 1) =~= self.files@.take(i as int).push(self.files@[i as int]));
            i += 1;
        }
        assert(self.files@.take(self.files.len() as int) =~= self.files@);
        let r = DiffResult {
            plugin_slug: self.plugin_slug.clone(),
            plugin_version: self.plugin_version.clone(),
            latest_version: match &self.latest_version {
                Some(v) => Some(v.clone()),
                None => None,
            },
            files,
            skipped_dirs: SkippedDirs {
                local: copy_strings(&self.skipped_dirs.local),
                upstream: copy_strings(&self.skipped_dirs.upstream),
            },
            summary: DiffSummary {
                added: self.summary.added,
                removed: self.summary.removed,
                modified: self.summary.modified,
                unchanged: self.summary.unchanged,
                by_category: self.summary.by_category,
            },
        };
        assert(r@.files =~= self@.files);
        assert(r@.skipped_local =~= self@.skipped_local);
        assert(r@.skipped_upstream =~= self@.skipped_upstream);
        r
    }
}

/// A copy of a list of strings.
pub fn copy_strings(v: &Vec<String>) -> (r: Vec<String>)
    ensures
        r@ == v@,
{
    let mut r: Vec<String> = Vec::new();
    let mut i: usize = 0;
    while i < v.len()
        invariant
            i <= v.len(),
            r@ == v@.take(i as int),
        decreases v.len() - i,
    {
        r.push(v[i].clone());
        assert(v@.take(i + 1) =~= v@.take(i as int).push(v@[i as int]));
        i += 1;
    }
    assert(v@.take(v.len() as int) =~= v@);
    r
}

} // verus!
