//! The command line's own decisions: which categories and exclusions filter a result,
//! how much is logged, which renderer an output goes to, how a plugin argument names a
//! slug, where an export goes, and how the versions of a plugin are listed.

use vstd::prelude::*;
use crate::categorize::{spec_lowercase, to_lowercase};
use crate::diff::{count_status, filter_files, tally_of, trim_trailing_slashes, CategorySet};
use crate::model::{file_views, DiffResult, DiffResultView, FileCategory, FileDiffView, FileStatus};
use crate::tree::{chars_lt, lemma_lt_asymmetric, lemma_lt_irreflexive, lemma_lt_total, lemma_lt_transitive, seq_lt};
use crate::paths::{file_name, path_file_name};
use crate::source::PluginInfo;
use crate::styled::{
    bold, colored, colored_bold, dimmed, flatten, lemma_flatten_append, lemma_flatten_one, pl,
    plain, sp, Color, SpanView, Style, StyledText,
};
use crate::text::{append_str, chars_of, decimal, push_decimal, str_eq, string_from_chars, string_views};

verus! {

// ---------------------------------------------------------------------------
// Filters
// ---------------------------------------------------------------------------

/// The options that choose which files of a result are shown.
#[derive(Clone, Debug)]
pub struct FilterArgs {
    /// Include build artifacts (minified files, `vendor/` and the like).
    pub include_artifacts: bool,
    /// Include binary assets (images, fonts).
    pub include_assets: bool,
    /// Include every category.
    pub include_all: bool,
    /// Exclude the files that these patterns match.
    pub exclude: Vec<String>,
    /// Write JSON instead of the terminal format.
    pub json: bool,
}

/// The categories shown: source and metadata always, artifacts and assets when asked for
/// (each on its own, or both with `include_all`).
pub open spec fn included(f: FilterArgs) -> CategorySet {
    CategorySet {
        source: true,
        metadata: true,
        artifact: f.include_all || f.include_artifacts,
        asset: f.include_all || f.include_assets,
    }
}

/// A result as the filters leave it: only the files they show, with the counts of those
/// files; the slug, versions, skipped directories and unchanged count as they were.
pub open spec fn filtered_result(r: DiffResultView, f: FilterArgs) -> DiffResultView {
    let fs = filter_files(r.files, included(f), string_views(f.exclude@));
    DiffResultView {
        files: fs,
        added: count_status(fs, FileStatus::Added),
        removed: count_status(fs, FileStatus::Removed),
        modified: count_status(fs, FileStatus::Modified),
        by_category: tally_of(fs),
        ..r
    }
}

/// By default only source and metadata changes are shown: whatever the exclusion
/// patterns, no build artifact and no binary asset survives the default filters.
pub proof fn lemma_default_hides_artifacts_and_assets(fs: Seq<FileDiffView>, f: FilterArgs)
    requires
        !f.include_artifacts,
        !f.include_assets,
        !f.include_all,
    ensures
        forall|i: int|
            0 <= i < filter_files(fs, included(f), string_views(f.exclude@)).len() ==> {
                let c = (#[trigger] filter_files(fs, included(f), string_views(f.exclude@))[i]).category;
                c == FileCategory::Source || c == FileCategory::Metadata
            },
{
    crate::diff::lemma_filter_keeps_only_shown(fs, included(f), string_views(f.exclude@));
}

impl FilterArgs {
    /// The categories to show.
    pub fn included_categories(&self) -> (c: CategorySet)
        ensures
            c == included(*self),
    {
        let mut cats = CategorySet::new();
        cats.insert(crate::model::FileCategory::Source);
        cats.insert(crate::model::FileCategory::Metadata);
        if self.include_all || self.include_artifacts {
            cats.insert(crate::model::FileCategory::Artifact);
        }
        if self.include_all || self.include_assets {
            cats.insert(crate::model::FileCategory::Asset);
        }
        assert(cats.has(crate::model::FileCategory::Source));
        assert(cats.has(crate::model::FileCategory::Metadata));
        assert(cats.has(crate::model::FileCategory::Artifact) == (self.include_all
            || self.include_artifacts));
        assert(cats.has(crate::model::FileCategory::Asset) == (self.include_all
            || self.include_assets));
        cats
    }

    /// The result with only the files these options show, its counts recomputed.
    pub fn apply_filters(&self, result: &DiffResult) -> (r: DiffResult)
        ensures
            r.plugin_slug == result.plugin_slug,
            r.plugin_version == result.plugin_version,
            r.latest_version == result.latest_version,
            r.skipped_dirs.local@ == result.skipped_dirs.local@,
            r.skipped_dirs.upstream@ == result.skipped_dirs.upstream@,
            r.summary.unchanged == result.summary.unchanged,
            file_views(r.files@) == filter_files(
                file_views(result.files@),
                included(*self),
                string_views(self.exclude@),
            ),
            crate::diff::summary_matches(r.summary, file_views(r.files@)),
            r@ == filtered_result(result@, *self),
    {
        let r = result.apply(&self.included_categories(), self.exclude.as_slice());
        assert(r@.skipped_local =~= result@.skipped_local);
        assert(r@.skipped_upstream =~= result@.skipped_upstream);
        assert(r@ =~= filtered_result(result@, *self));
        r
    }
}

// ---------------------------------------------------------------------------
// Common options
// ---------------------------------------------------------------------------

/// The options that say which plugin to look at and how.
#[derive(Clone, Debug)]
pub struct CommonArgs {
    /// A plugin slug or the path of a plugin directory.
    pub plugin: Option<String>,
    /// Scan all plugins of a WordPress installation.
    pub all: bool,
    /// The WordPress root directory.
    pub dir: Option<String>,
    /// Count whitespace and line-ending changes.
    pub whitespace: bool,
    /// How verbose the log is.
    pub verbose: u8,
    /// Log errors only.
    pub quiet: bool,
}

/// Why a command could not start.
#[derive(Clone, Copy, Debug, PartialEq, Eq, Structural)]
pub enum UsageError {
    /// Neither a plugin nor `--all` was given.
    MissingPlugin,
}

impl CommonArgs {
    /// The WordPress root directory, when one was given.
    pub fn base_dir(&self) -> (d: Option<&str>)
        ensures
            match d {
                Some(s) => self.dir matches Some(x) && s@ == x@,
                None => self.dir is None,
            },
    {
        match &self.dir {
            Some(d) => Some(d.as_str()),
            None => None,
        }
    }

    /// The plugin to look at; an error when none was given.
    pub fn require_plugin(&self) -> (r: Result<&str, UsageError>)
        ensures
            match r {
                Ok(s) => self.plugin matches Some(p) && s@ == p@,
                Err(e) => self.plugin is None && e == UsageError::MissingPlugin,
            },
    {
        match &self.plugin {
            Some(p) => Ok(p.as_str()),
            None => Err(UsageError::MissingPlugin),
        }
    }
}

/// How much is logged.
#[derive(Clone, Copy, Debug, PartialEq, Eq, Structural)]
pub enum LogLevel {
    Error,
    Warn,
    Info,
    Debug,
    Trace,
}

/// The log level: errors only when quiet; otherwise warnings, and one level more for
/// each `-v` up to tracing.
pub open spec fn level_for(verbose: u8, quiet: bool) -> LogLevel {
    if quiet {
        LogLevel::Error
    } else if verbose == 0 {
        LogLevel::Warn
    } else if verbose == 1 {
        LogLevel::Info
    } else if verbose == 2 {
        LogLevel::Debug
    } else {
        LogLevel::Trace
    }
}

/// The log level for the given verbosity.
pub fn log_level(verbose: u8, quiet: bool) -> (l: LogLevel)
    ensures
        l == level_for(verbose, quiet),
{
    if quiet {
        LogLevel::Error
    } else {
        match verbose {
            0 => LogLevel::Warn,
            1 => LogLevel::Info,
            2 => LogLevel::Debug,
            _ => LogLevel::Trace,
        }
    }
}

/// What a comparison command shows.
#[derive(Clone, Copy, Debug, PartialEq, Eq, Structural)]
pub enum RenderMode {
    /// The diffs.
    Diff,
    /// A summary of changes, without diffs.
    Summary,
}

/// The renderer that an output goes to.
#[derive(Clone, Copy, Debug, PartialEq, Eq, Structural)]
pub enum Renderer {
    Json,
    Terminal,
    SummaryCompact,
    Summary,
}

/// JSON when asked for; otherwise the diffs, or the summary (compact in a scan of all
/// plugins).
pub open spec fn renderer_for(mode: RenderMode, json: bool, is_all: bool) -> Renderer {
    if json {
        Renderer::Json
    } else {
        match mode {
            RenderMode::Diff => Renderer::Terminal,
            RenderMode::Summary => if is_all {
                Renderer::SummaryCompact
            } else {
                Renderer::Summary
            },
        }
    }
}

/// The renderer for an output.
pub fn choose_renderer(mode: RenderMode, json: bool, is_all: bool) -> (r: Renderer)
    ensures
        r == renderer_for(mode, json, is_all),
{
    if json {
        Renderer::Json
    } else {
        match mode {
            RenderMode::Diff => Renderer::Terminal,
            RenderMode::Summary => if is_all {
                Renderer::SummaryCompact
            } else {
                Renderer::Summary
            },
        }
    }
}

// ---------------------------------------------------------------------------
// Slugs and exports
// ---------------------------------------------------------------------------

/// What follows the last `/`, or the whole text when there is none.
pub open spec fn after_last_slash(s: Seq<char>) -> Seq<char>
    decreases s.len(),
{
    if s.len() == 0 {
        s
    } else if s.last() == '/' {
        seq![]
    } else {
        after_last_slash(s.drop_last()).push(s.last())
    }
}

/// The slug that a plugin argument names: the final component of the directory it
/// resolved to (the argument itself when that has none); or, when it resolved to no
/// directory, the last `/`-separated piece of the argument without trailing slashes.
pub open spec fn slug_for(arg: Seq<char>, resolved: Option<Seq<char>>) -> Seq<char> {
    match resolved {
        Some(p) => match file_name(p) {
            Some(n) => n,
            None => arg,
        },
        None => after_last_slash(trim_trailing_slashes(arg)),
    }
}

/// The slug of a plugin argument, given the directory it resolved to, if any.
pub fn resolve_slug(plugin_arg: &str, resolved: Option<&str>) -> (s: String)
    ensures
        s@ == slug_for(
            plugin_arg@,
            match resolved {
                Some(p) => Some(p@),
                None => None,
            },
        ),
{
    match resolved {
        Some(p) => match path_file_name(&chars_of(p)) {
            Some(n) => string_from_chars(&n),
            None => plugin_arg.to_owned(),
        },
        None => {
            let a = chars_of(plugin_arg);
            let mut end = a.len();
            assert(a@.take(a.len() as int) =~= a@);
            while end > 0 && a[end - 1] == '/'
                invariant
                    end <= a.len(),
                    trim_trailing_slashes(a@) == trim_trailing_slashes(a@.take(end as int)),
                decreases end,
            {
                assert(a@.take(end as int).drop_last() =~= a@.take(end - 1));
                end -= 1;
            }
            assert(a@.take(a.len() as int) =~= a@);
            let ghost t = a@.take(end as int);
            assert(trim_trailing_slashes(t) == t);
            let mut start = end;
            while start > 0 && a[start - 1] != '/'
                invariant
                    start <= end <= a.len(),
                    t == a@.take(end as int),
                    after_last_slash(t) == after_last_slash(a@.take(start as int)) + a@.subrange(
                        start as int,
                        end as int,
                    ),
                decreases start,
            {
                proof {
                    let x = a@.take(start as int);
                    assert(x.drop_last() =~= a@.take(start - 1));
                    assert(x.last() == a@[start - 1]);
                    assert(after_last_slash(x) == after_last_slash(a@.take(start - 1)).push(
                        a@[start - 1],
                    ));
                    assert(after_last_slash(a@.take(start - 1)).push(a@[start - 1]) + a@.subrange(
                        start as int,
                        end as int,
                    ) =~= after_last_slash(a@.take(start - 1)) + a@.subrange(start - 1, end as int));
                }
                start -= 1;
            }
            assert(after_last_slash(a@.take(start as int)) =~= Seq::<char>::empty()) by {
                if start > 0 {
                    assert(a@.take(start as int).last() == '/');
                } else {
                    assert(a@.take(0) =~= Seq::<char>::empty());
                }
            }
            assert(after_last_slash(t) =~= a@.subrange(start as int, end as int));
            let mut v: Vec<char> = Vec::new();
            let mut k = start;
            while k < end
                invariant
                    start <= k <= end <= a.len(),
                    v@ == a@.subrange(start as int, k as int),
                decreases end - k,
            {
                v.push(a[k]);
                assert(v@ =~= a@.subrange(start as int, k + 1));
                k += 1;
            }
            string_from_chars(&v)
        },
    }
}

/// Why nothing was exported.
#[derive(Clone, Copy, Debug, PartialEq, Eq, Structural)]
pub enum ExportError {
    /// The filtered result has no file to put in a patch.
    NothingToExport,
}

/// The default patch file of a result: `<slug>-<version>.patch`.
pub open spec fn default_patch_name(slug: Seq<char>, version: Seq<char>) -> Seq<char> {
    slug + "-"@ + version + ".patch"@
}

/// Where a filtered result is exported: the given path, or `<slug>-<version>.patch`; an
/// error when there is no difference to export.
pub fn export_target(filtered: &DiffResult, output: Option<&str>) -> (r: Result<String, ExportError>)
    ensures
        filtered.files.len() == 0 <==> r is Err,
        match r {
            Ok(p) => p@ == match output {
                Some(o) => o@,
                None => default_patch_name(filtered.plugin_slug@, filtered.plugin_version@),
            },
            Err(e) => e == ExportError::NothingToExport,
        },
{
    if filtered.files.len() == 0 {
        return Err(ExportError::NothingToExport);
    }
    match output {
        Some(o) => Ok(o.to_owned()),
        None => {
            let mut v: Vec<char> = Vec::new();
            append_str(&mut v, filtered.plugin_slug.as_str());
            append_str(&mut v, "-");
            append_str(&mut v, filtered.plugin_version.as_str());
            append_str(&mut v, ".patch");
            Ok(string_from_chars(&v))
        },
    }
}


// ---------------------------------------------------------------------------
// The versions of a plugin
// ---------------------------------------------------------------------------

/// How many versions the listing shows at most: the most recent ones.
pub const VERSIONS_SHOWN: usize = 20;

/// How many of the oldest versions the listing leaves out.
pub open spec fn hidden_versions(total: nat) -> nat {
    if total > VERSIONS_SHOWN {
        (total - VERSIONS_SHOWN) as nat
    } else {
        0
    }
}

/// One version in the listing: the installed one in bold yellow, the latest one in green,
/// each marked as such.
pub open spec fn version_row(v: Seq<char>, installed: Option<Seq<char>>, latest: Seq<char>) -> Seq<
    (Seq<char>, Style),
> {
    let inst = installed == Some(v);
    let lat = v == latest;
    pl("    "@) + (if inst {
        sp("v"@ + v, colored_bold(Color::Yellow))
    } else if lat {
        sp("v"@ + v, colored(Color::Green))
    } else {
        pl("v"@ + v)
    }) + pl(" "@) + (if inst && lat {
        sp("◀ installed, latest"@, colored(Color::Green))
    } else if inst {
        sp("◀ installed"@, colored(Color::Yellow))
    } else if lat {
        sp("◀ latest"@, colored(Color::Green))
    } else {
        seq![]
    }) + pl("\n"@)
}

/// The rows of some versions, in order.
pub open spec fn version_rows(vs: Seq<Seq<char>>, installed: Option<Seq<char>>, latest: Seq<char>) -> Seq<
    (Seq<char>, Style),
>
    decreases vs.len(),
{
    if vs.len() == 0 {
        seq![]
    } else {
        version_rows(vs.drop_last(), installed, latest) + version_row(vs.last(), installed, latest)
    }
}

/// The listing of a plugin's versions: its name and slug, the installed and the latest
/// version, the most recent versions (with a note on how many older ones are left out)
/// and their total.
pub open spec fn versions_listing(
    slug: Seq<char>,
    name: Seq<char>,
    latest: Seq<char>,
    versions: Seq<Seq<char>>,
    installed: Option<Seq<char>>,
) -> Seq<(Seq<char>, Style)> {
    let start = hidden_versions(versions.len());
    sp(name, bold()) + pl(" "@) + sp("("@ + slug + ")"@, dimmed()) + pl("\n"@) + (match installed {
        Some(i) => pl("  Installed: "@) + sp("v"@ + i, colored_bold(Color::Yellow)) + pl("\n"@),
        None => seq![],
    }) + pl("  Latest:    "@) + sp("v"@ + latest, colored_bold(Color::Green)) + pl("\n"@) + pl(
        "\n  "@,
    ) + sp("Available versions:"@, dimmed()) + pl("\n"@) + (if start > 0 {
        pl("  "@) + sp("..."@, dimmed()) + pl(" ("@ + decimal(start) + " older versions hidden)\n"@)
    } else {
        seq![]
    }) + version_rows(versions.skip(start as int), installed, latest) + pl(
        "\n  "@ + decimal(versions.len()) + " versions total\n"@,
    )
}

/// Lists the versions of plugin `slug` that `info` reports, with the installed version,
/// if known, marked.
pub fn render_versions(slug: &str, info: &PluginInfo, installed: Option<&str>) -> (t: StyledText)
    ensures
        t@ == versions_listing(
            slug@,
            info.name@,
            info.latest_version@,
            string_views(info.versions@),
            match installed {
                Some(i) => Some(i@),
                None => None,
            },
        ),
{
    let ghost inst: Option<Seq<char>> = match installed {
        Some(i) => Some(i@),
        None => None,
    };
    let ghost vs = string_views(info.versions@);
    let mut t = StyledText::new();
    t.push_str(info.name.as_str(), Style::new_bold());
    t.push_plain(" ");
    let mut sl: Vec<char> = Vec::new();
    append_str(&mut sl, "(");
    append_str(&mut sl, slug);
    append_str(&mut sl, ")");
    t.push_chars(&sl, Style::new_dimmed());
    t.push_plain("\n");
    match installed {
        Some(i) => {
            t.push_plain("  Installed: ");
            let mut iv: Vec<char> = Vec::new();
            append_str(&mut iv, "v");
            append_str(&mut iv, i);
            t.push_chars(&iv, Style::new_colored_bold(Color::Yellow));
            t.push_plain("\n");
        },
        None => {},
    }
    t.push_plain("  Latest:    ");
    let mut lv: Vec<char> = Vec::new();
    append_str(&mut lv, "v");
    append_str(&mut lv, info.latest_version.as_str());
    t.push_chars(&lv, Style::new_colored_bold(Color::Green));
    t.push_plain("\n");
    t.push_plain("\n  ");
    t.push_str("Available versions:", Style::new_dimmed());
    t.push_plain("\n");
    let total = info.versions.len();
    let start: usize = if total > VERSIONS_SHOWN { total - VERSIONS_SHOWN } else { 0 };
    if start > 0 {
        t.push_plain("  ");
        t.push_str("...", Style::new_dimmed());
        let mut h: Vec<char> = Vec::new();
        append_str(&mut h, " (");
        push_decimal(&mut h, start);
        append_str(&mut h, " older versions hidden)\n");
        t.push_chars(&h, Style::new_plain());
    }
    let ghost head = t@;
    let ghost shown = vs.skip(start as int);
    let mut i = start;
    assert(shown.take(0) =~= Seq::<Seq<char>>::empty());
    while i < total
        invariant
            start <= i <= total,
            total == info.versions.len(),
            vs == string_views(info.versions@),
            shown == vs.skip(start as int),
            inst == match installed {
                Some(x) => Some(x@),
                None => None::<Seq<char>>,
            },
            t@ == head + version_rows(shown.take(i - start), inst, info.latest_version@),
        decreases total - i,
    {
        let v = info.versions[i].as_str();
        proof {
            assert(shown.take(i - start + 1).drop_last() =~= shown.take(i - start));
            assert(shown.take(i - start + 1).last() == v@);
        }
        let is_installed = match installed {
            Some(x) => str_eq(x, v),
            None => false,
        };
        let is_latest = str_eq(v, info.latest_version.as_str());
        assert(is_installed == (inst == Some(v@)));
        t.push_plain("    ");
        let mut vv: Vec<char> = Vec::new();
        append_str(&mut vv, "v");
        append_str(&mut vv, v);
        if is_installed {
            t.push_chars(&vv, Style::new_colored_bold(Color::Yellow));
        } else if is_latest {
            t.push_chars(&vv, Style::new_colored(Color::Green));
        } else {
            t.push_chars(&vv, Style::new_plain());
        }
        t.push_plain(" ");
        if is_installed && is_latest {
            t.push_str("◀ installed, latest", Style::new_colored(Color::Green));
        } else if is_installed {
            t.push_str("◀ installed", Style::new_colored(Color::Yellow));
        } else if is_latest {
            t.push_str("◀ latest", Style::new_colored(Color::Green));
        }
        t.push_plain("\n");
        assert(t@ =~= head + version_rows(shown.take(i - start + 1), inst, info.latest_version@));
        i += 1;
    }
    assert(shown.take(total - start) =~= shown);
    let mut tail: Vec<char> = Vec::new();
    append_str(&mut tail, "\n  ");
    push_decimal(&mut tail, total);
    append_str(&mut tail, " versions total\n");
    t.push_chars(&tail, Style::new_plain());
    assert(t@ =~= versions_listing(slug@, info.name@, info.latest_version@, vs, inst));
    t
}


// ---------------------------------------------------------------------------
// Scanning all plugins
// ---------------------------------------------------------------------------

/// One plugin of a scan: its slug, and its comparison or why it could not be compared.
#[derive(Debug)]
pub struct ScanEntry {
    pub slug: String,
    pub outcome: Result<DiffResult, String>,
}

/// A plugin that could not be compared, and why.
#[derive(Clone, Debug)]
pub struct Unmatched {
    pub slug: String,
    pub reason: String,
}

/// What a scan found: the filtered results that still differ, in order, how many
/// plugins match upstream, and the plugins that could not be compared, in order.
#[derive(Clone, Debug)]
pub struct ScanReport {
    pub diffs: Vec<DiffResult>,
    pub clean: usize,
    pub unmatched: Vec<Unmatched>,
}

/// The key a scan is ordered by: the slug in lowercase.
pub open spec fn scan_key(e: ScanEntry) -> Seq<char> {
    spec_lowercase(e.slug@)
}

/// Inserts an entry after every entry whose key does not come after its own.
pub open spec fn insert_entry(t: Seq<ScanEntry>, e: ScanEntry) -> Seq<ScanEntry>
    decreases t.len(),
{
    if t.len() == 0 {
        seq![e]
    } else if seq_lt(scan_key(e), scan_key(t.last())) {
        insert_entry(t.drop_last(), e).push(t.last())
    } else {
        t.push(e)
    }
}

/// The entries stably sorted by their keys.
pub open spec fn sort_entries(s: Seq<ScanEntry>) -> Seq<ScanEntry>
    decreases s.len(),
{
    if s.len() == 0 {
        seq![]
    } else {
        insert_entry(sort_entries(s.drop_last()), s.last())
    }
}

/// Inserting at the place found by scanning from the back is `insert_entry`.
proof fn lemma_insert_entry_at(t: Seq<ScanEntry>, e: ScanEntry, j: int)
    requires
        0 <= j <= t.len(),
        forall|k: int| j <= k < t.len() ==> seq_lt(scan_key(e), scan_key(#[trigger] t[k])),
        j > 0 ==> !seq_lt(scan_key(e), scan_key(t[j - 1])),
    ensures
        insert_entry(t, e) == t.insert(j, e),
    decreases t.len(),
{
    if t.len() == 0 {
        assert(t.insert(j, e) =~= seq![e]);
    } else if j == t.len() {
        assert(t.insert(j, e) =~= t.push(e));
    } else {
        assert(seq_lt(scan_key(e), scan_key(t[t.len() - 1])));
        lemma_insert_entry_at(t.drop_last(), e, j);
        assert(t.drop_last().insert(j, e).push(t.last()) =~= t.insert(j, e));
    }
}

/// Entries in order of their keys.
pub open spec fn scan_ordered(s: Seq<ScanEntry>) -> bool {
    forall|i: int, j: int|
        0 <= i < j < s.len() ==> !seq_lt(scan_key(#[trigger] s[j]), scan_key(#[trigger] s[i]))
}

/// Where `insert_entry` puts an entry.
proof fn lemma_insert_entry_place(t: Seq<ScanEntry>, e: ScanEntry) -> (j: int)
    ensures
        0 <= j <= t.len(),
        insert_entry(t, e) == t.insert(j, e),
        forall|k: int| j <= k < t.len() ==> seq_lt(scan_key(e), scan_key(#[trigger] t[k])),
        j > 0 ==> !seq_lt(scan_key(e), scan_key(t[j - 1])),
    decreases t.len(),
{
    if t.len() == 0 {
        assert(t.insert(0, e) =~= seq![e]);
        0
    } else if seq_lt(scan_key(e), scan_key(t.last())) {
        let j = lemma_insert_entry_place(t.drop_last(), e);
        assert(t.drop_last().insert(j, e).push(t.last()) =~= t.insert(j, e));
        assert forall|k: int| j <= k < t.len() implies seq_lt(scan_key(e), scan_key(#[trigger] t[k])) by {
            if k < t.len() - 1 {
                assert(t[k] == t.drop_last()[k]);
            }
        }
        j
    } else {
        assert(t.insert(t.len() as int, e) =~= t.push(e));
        t.len() as int
    }
}

/// Inserting into ordered entries keeps them ordered and adds just that entry.
proof fn lemma_insert_entry_ordered(t: Seq<ScanEntry>, e: ScanEntry)
    requires
        scan_ordered(t),
    ensures
        scan_ordered(insert_entry(t, e)),
        insert_entry(t, e).to_multiset() == t.to_multiset().insert(e),
{
    let j = lemma_insert_entry_place(t, e);
    let r = insert_entry(t, e);
    vstd::seq_lib::to_multiset_insert(t, j, e);
    let ke = scan_key(e);
    assert forall|a: int, b: int| 0 <= a < b < r.len() implies !seq_lt(
        scan_key(#[trigger] r[b]),
        scan_key(#[trigger] r[a]),
    ) by {
        if b < j {
            assert(r[a] == t[a] && r[b] == t[b]);
        } else if a > j {
            assert(r[a] == t[a - 1] && r[b] == t[b - 1]);
        } else if a == j {
            assert(r[b] == t[b - 1]);
            lemma_lt_asymmetric(ke, scan_key(t[b - 1]));
        } else if b == j {
            assert(r[a] == t[a]);
            let ka = scan_key(t[a]);
            let kp = scan_key(t[j - 1]);
            if seq_lt(ke, ka) {
                if a < j - 1 {
                    assert(!seq_lt(kp, ka));
                    if ka != kp {
                        lemma_lt_total(ka, kp);
                        lemma_lt_transitive(ke, ka, kp);
                    }
                }
            }
        } else {
            assert(r[a] == t[a] && r[b] == t[b - 1]);
        }
    }
}

/// A scan's plugins come out in order of their slugs in lowercase, each plugin once.
pub proof fn lemma_scan_sorted(es: Seq<ScanEntry>)
    ensures
        scan_ordered(sort_entries(es)),
        sort_entries(es).to_multiset() == es.to_multiset(),
    decreases es.len(),
{
    if es.len() == 0 {
        assert(sort_entries(es) =~= es);
    } else {
        lemma_scan_sorted(es.drop_last());
        lemma_insert_entry_ordered(sort_entries(es.drop_last()), es.last());
        vstd::seq_lib::to_multiset_build(es.drop_last(), es.last());
        assert(es.drop_last().push(es.last()) =~= es);
    }
}

/// Sorts the entries of a scan by their slugs in lowercase; entries whose slugs are equal
/// in lowercase keep their order.
pub fn sort_scan(entries: Vec<ScanEntry>) -> (r: Vec<ScanEntry>)
    ensures
        r@ == sort_entries(entries@),
{
    let ghost input = entries@;
    let n = entries.len();
    let mut rest = entries;
    let mut out: Vec<ScanEntry> = Vec::new();
    let mut keys: Vec<Vec<char>> = Vec::new();
    let mut i: usize = 0;
    assert(input.skip(0) =~= input);
    assert(input.take(0) =~= Seq::<ScanEntry>::empty());
    while rest.len() > 0
        invariant
            i + rest.len() == input.len(),
            input.len() == n,
            rest@ == input.skip(i as int),
            out@ == sort_entries(input.take(i as int)),
            keys.len() == out.len(),
            forall|k: int| 0 <= k < keys.len() ==> (#[trigger] keys@[k])@ == scan_key(out@[k]),
        decreases rest.len(),
    {
        let e = rest.remove(0);
        assert(e == input[i as int]);
        assert(rest@ =~= input.skip(i + 1));
        let key = chars_of(to_lowercase(e.slug.as_str()).as_str());
        let ghost t = out@;
        let mut j = out.len();
        while j > 0 && chars_lt(&key, &keys[j - 1])
            invariant
                j <= out.len(),
                keys.len() == out.len(),
                t == out@,
                key@ == scan_key(e),
                forall|k: int| 0 <= k < keys.len() ==> (#[trigger] keys@[k])@ == scan_key(out@[k]),
                forall|k: int| j <= k < t.len() ==> seq_lt(scan_key(e), scan_key(#[trigger] t[k])),
            decreases j,
        {
            j -= 1;
        }
        proof {
            lemma_insert_entry_at(t, e, j as int);
            assert(input.take(i + 1).drop_last() =~= input.take(i as int));
            assert(input.take(i + 1).last() == e);
        }
        let ghost ko = keys@;
        out.insert(j, e);
        keys.insert(j, key);
        assert forall|k: int| 0 <= k < keys.len() implies (#[trigger] keys@[k])@ == scan_key(out@[k]) by {
            if k > j as int {
                assert(keys@[k] == ko[k - 1]);
                assert(out@[k] == t[k - 1]);
            } else if k < j as int {
                assert(keys@[k] == ko[k]);
            }
        }
        i += 1;
    }
    assert(input.take(input.len() as int) =~= input);
    out
}

/// The results of a scan that still differ once filtered, in order.
pub open spec fn changed_results(es: Seq<ScanEntry>, f: FilterArgs) -> Seq<DiffResultView>
    decreases es.len(),
{
    if es.len() == 0 {
        seq![]
    } else {
        let rest = changed_results(es.drop_last(), f);
        match es.last().outcome {
            Ok(r) => if filtered_result(r@, f).files.len() > 0 {
                rest.push(filtered_result(r@, f))
            } else {
                rest
            },
            Err(_) => rest,
        }
    }
}

/// How many plugins of a scan match upstream once filtered.
pub open spec fn clean_count(es: Seq<ScanEntry>, f: FilterArgs) -> nat
    decreases es.len(),
{
    if es.len() == 0 {
        0
    } else {
        clean_count(es.drop_last(), f) + match es.last().outcome {
            Ok(r) => if filtered_result(r@, f).files.len() == 0 {
                1nat
            } else {
                0nat
            },
            Err(_) => 0nat,
        }
    }
}

/// The plugins of a scan that could not be compared, with the reasons, in order.
pub open spec fn unmatched_of(es: Seq<ScanEntry>) -> Seq<(Seq<char>, Seq<char>)>
    decreases es.len(),
{
    if es.len() == 0 {
        seq![]
    } else {
        let rest = unmatched_of(es.drop_last());
        match es.last().outcome {
            Ok(_) => rest,
            Err(reason) => rest.push((es.last().slug@, reason@)),
        }
    }
}

/// Every plugin of a scan is exactly one of: changed, matching upstream, or unmatched.
pub proof fn lemma_scan_partition(es: Seq<ScanEntry>, f: FilterArgs)
    ensures
        changed_results(es, f).len() + clean_count(es, f) + unmatched_of(es).len() == es.len(),
    decreases es.len(),
{
    if es.len() > 0 {
        lemma_scan_partition(es.drop_last(), f);
    }
}

/// The views of some results.
pub open spec fn report_views(rs: Seq<DiffResult>) -> Seq<DiffResultView> {
    rs.map_values(|r: DiffResult| r@)
}

/// The views of some unmatched plugins.
pub open spec fn unmatched_views(us: Seq<Unmatched>) -> Seq<(Seq<char>, Seq<char>)> {
    us.map_values(|u: Unmatched| (u.slug@, u.reason@))
}

/// Sorts the plugins of a scan by slug and sorts them out: the filtered results that
/// still differ, how many match upstream, and which could not be compared.
pub fn sort_out_scan(entries: Vec<ScanEntry>, filter: &FilterArgs) -> (r: ScanReport)
    ensures
        report_views(r.diffs@) == changed_results(sort_entries(entries@), *filter),
        r.clean == clean_count(sort_entries(entries@), *filter),
        unmatched_views(r.unmatched@) == unmatched_of(sort_entries(entries@)),
{
    let sorted = sort_scan(entries);
    let ghost es = sorted@;
    let mut diffs: Vec<DiffResult> = Vec::new();
    let mut clean: usize = 0;
    let mut unmatched: Vec<Unmatched> = Vec::new();
    let mut i: usize = 0;
    while i < sorted.len()
        invariant
            i <= sorted.len(),
            es == sorted@,
            clean <= i,
            report_views(diffs@) == changed_results(es.take(i as int), *filter),
            clean == clean_count(es.take(i as int), *filter),
            unmatched_views(unmatched@) == unmatched_of(es.take(i as int)),
        decreases sorted.len() - i,
    {
        proof {
            assert(es.take(i + 1).drop_last() =~= es.take(i as int));
            assert(es.take(i + 1).last() == es[i as int]);
        }
        match &sorted[i].outcome {
            Ok(result) => {
                let filtered = filter.apply_filters(result);
                if filtered.files.len() == 0 {
                    clean += 1;
                } else {
                    let ghost before = diffs@;
                    diffs.push(filtered);
                    assert(report_views(diffs@) =~= report_views(before).push(filtered@));
                }
            },
            Err(reason) => {
                let ghost before = unmatched@;
                let u = Unmatched { slug: sorted[i].slug.clone(), reason: reason.clone() };
                unmatched.push(u);
                assert(unmatched_views(unmatched@) =~= unmatched_views(before).push(
                    (sorted@[i as int].slug@, reason@),
                ));
            },
        }
        i += 1;
    }
    assert(es.take(sorted.len() as int) =~= es);
    ScanReport { diffs, clean, unmatched }
}

/// What a scan shows.
#[derive(Clone, Copy, Debug, PartialEq, Eq, Structural)]
pub enum ScanOutput {
    /// The summary table of all changed plugins.
    SummaryTable,
    /// Nothing but a note that every plugin matches upstream.
    AllMatch,
    /// Each changed result, then the footer when there is one.
    Results,
}

/// A summary scan without JSON shows the table; otherwise, a scan with neither a change
/// nor an unmatched plugin only notes that all match; any other shows the results.
pub open spec fn scan_output_for(is_summary: bool, json: bool, diffs: nat, unmatched: nat) -> ScanOutput {
    if is_summary && !json {
        ScanOutput::SummaryTable
    } else if diffs == 0 && unmatched == 0 {
        ScanOutput::AllMatch
    } else {
        ScanOutput::Results
    }
}

/// What the scan shows.
pub fn scan_output(is_summary: bool, json: bool, report: &ScanReport) -> (o: ScanOutput)
    ensures
        o == scan_output_for(is_summary, json, report.diffs.len() as nat, report.unmatched.len() as nat),
{
    if is_summary && !json {
        ScanOutput::SummaryTable
    } else if report.diffs.len() == 0 && report.unmatched.len() == 0 {
        ScanOutput::AllMatch
    } else {
        ScanOutput::Results
    }
}

/// The line after the results of a scan, when some plugin matched or could not be
/// compared: a blank line, then the counts of changed, unchanged and unmatched plugins.
pub open spec fn scan_footer_text(diffs: nat, clean: nat, unmatched: nat) -> Option<Seq<char>> {
    if clean > 0 || unmatched > 0 {
        Some(
            "\n"@ + decimal(diffs) + " changed, "@ + decimal(clean) + " unchanged, "@ + decimal(
                unmatched,
            ) + " unmatched\n"@,
        )
    } else {
        None
    }
}

/// The footer of a scan's results.
pub fn scan_footer(report: &ScanReport) -> (r: Option<String>)
    ensures
        match r {
            Some(s) => scan_footer_text(
                report.diffs.len() as nat,
                report.clean as nat,
                report.unmatched.len() as nat,
            ) == Some(s@),
            None => scan_footer_text(
                report.diffs.len() as nat,
                report.clean as nat,
                report.unmatched.len() as nat,
            ) is None,
        },
{
    if report.clean == 0 && report.unmatched.len() == 0 {
        return None;
    }
    let mut v: Vec<char> = Vec::new();
    append_str(&mut v, "\n");
    push_decimal(&mut v, report.diffs.len());
    append_str(&mut v, " changed, ");
    push_decimal(&mut v, report.clean);
    append_str(&mut v, " unchanged, ");
    push_decimal(&mut v, report.unmatched.len());
    append_str(&mut v, " unmatched\n");
    Some(string_from_chars(&v))
}

/// Each row of the versions listing reads `    v<version> <mark>`: the mark names the
/// version as installed exactly when it is the installed one, and as latest exactly when
/// it is the latest one (both when it is both), and a version that is neither has no mark.
pub proof fn lemma_version_row_marks(v: Seq<char>, installed: Option<Seq<char>>, latest: Seq<char>)
    ensures
        exists|m: Seq<char>|
            {
                &&& flatten(version_row(v, installed, latest)) == "    v"@ + v + " "@ + m + "\n"@
                &&& (installed == Some(v)) == (m.len() >= 11 && m.take(11) == "◀ installed"@)
                &&& (v == latest) == (m.len() >= 6 && m.skip(m.len() - 6) == "latest"@)
                &&& (installed != Some(v) && v != latest ==> m.len() == 0)
            },
{
    let inst = installed == Some(v);
    let lat = v == latest;
    let name_style = if inst {
        colored_bold(Color::Yellow)
    } else if lat {
        colored(Color::Green)
    } else {
        plain()
    };
    let mark: Seq<char> = if inst && lat {
        "◀ installed, latest"@
    } else if inst {
        "◀ installed"@
    } else if lat {
        "◀ latest"@
    } else {
        seq![]
    };
    let mark_style = if inst && lat || lat {
        colored(Color::Green)
    } else {
        colored(Color::Yellow)
    };
    let p0 = seq![("    "@, plain())];
    let p1 = seq![("v"@ + v, name_style)];
    let p2 = seq![(" "@, plain())];
    let p4 = seq![("\n"@, plain())];
    lemma_flatten_one(("    "@, plain()));
    lemma_flatten_one(("v"@ + v, name_style));
    lemma_flatten_one((" "@, plain()));
    lemma_flatten_one(("\n"@, plain()));
    let p3 = if inst || lat {
        seq![(mark, mark_style)]
    } else {
        Seq::<SpanView>::empty()
    };
    if inst || lat {
        lemma_flatten_one((mark, mark_style));
    }
    assert(flatten(Seq::<SpanView>::empty()) == Seq::<char>::empty());
    assert(version_row(v, installed, latest) == p0 + p1 + p2 + p3 + p4);
    lemma_flatten_append(p0, p1);
    lemma_flatten_append(p0 + p1, p2);
    lemma_flatten_append(p0 + p1 + p2, p3);
    lemma_flatten_append(p0 + p1 + p2 + p3, p4);
    reveal_strlit("◀ installed, latest");
    reveal_strlit("◀ installed");
    reveal_strlit("◀ latest");
    reveal_strlit("latest");
    reveal_strlit("    v");
    reveal_strlit("    ");
    reveal_strlit("v");
    assert("    v"@ =~= "    "@ + "v"@);
    assert(flatten(version_row(v, installed, latest)) =~= "    v"@ + v + " "@ + mark + "\n"@);
    if inst && lat {
        assert(mark.take(11) =~= "◀ installed"@);
        assert(mark.skip(mark.len() - 6) =~= "latest"@);
    } else if inst {
        assert(mark.take(11) =~= "◀ installed"@);
        assert(mark.skip(mark.len() - 6) != "latest"@) by {
            assert(mark.skip(mark.len() - 6)[0] != "latest"@[0]);
        }
    } else if lat {
        assert(mark.len() < 11);
        assert(mark.skip(mark.len() - 6) =~= "latest"@);
    }
}

} // verus!
