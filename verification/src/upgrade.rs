//! The decisions of an upgrade that carries local customizations over to a new upstream
//! version: which changes count as customizations, the patch made of them, how the
//! outcome of applying it is judged, and what is reported and asked.

use vstd::prelude::*;
use crate::diff::{filter_files, CategorySet};
use crate::model::{file_views, DiffResult, FileCategory, FileDiffView};
use crate::output::{concat_diffs, render_unified};
use crate::styled::{bold, colored, colored_bold, pl, sp, Color, Style, StyledText};
use crate::table::sum_nat;
use crate::text::{append_str, chars_of, decimal, push_decimal, string_from_chars, trim, trim_chars};

verus! {

// ---------------------------------------------------------------------------
// Customizations
// ---------------------------------------------------------------------------

/// The categories whose changes are carried over: source and metadata files.
pub open spec fn patch_categories() -> CategorySet {
    CategorySet { source: true, artifact: false, asset: false, metadata: true }
}

/// The local customizations in a comparison: its changes to source and metadata files.
pub fn customizations(result: &DiffResult) -> (r: DiffResult)
    ensures
        r.plugin_slug == result.plugin_slug,
        r.plugin_version == result.plugin_version,
        file_views(r.files@) == filter_files(file_views(result.files@), patch_categories(), seq![]),
{
    let cats = CategorySet { source: true, artifact: false, asset: false, metadata: true };
    let none: Vec<String> = Vec::new();
    let r = result.apply(&cats, none.as_slice());
    assert(crate::text::string_views(none@) =~= Seq::<Seq<char>>::empty());
    r
}

/// The patch that carries customizations over: the diffs of all customized files one
/// after the other, or none when there is no customization.
pub fn customization_patch(custom: &DiffResult) -> (r: Option<String>)
    ensures
        match r {
            Some(p) => custom.files.len() > 0 && p@ == concat_diffs(file_views(custom.files@)),
            None => custom.files.len() == 0,
        },
{
    if custom.files.len() == 0 {
        None
    } else {
        Some(render_unified(custom))
    }
}

/// The lines changed by insertion over some files.
pub open spec fn inserted_total(fs: Seq<FileDiffView>) -> nat {
    sum_nat(fs.map_values(|f: FileDiffView| f.insertions))
}

/// The lines changed by deletion over some files.
pub open spec fn deleted_total(fs: Seq<FileDiffView>) -> nat {
    sum_nat(fs.map_values(|f: FileDiffView| f.deletions))
}

/// The list of customized files, one per line, each marked with a yellow `~`.
pub open spec fn customized_list(fs: Seq<FileDiffView>) -> Seq<(Seq<char>, Style)>
    decreases fs.len(),
{
    if fs.len() == 0 {
        seq![]
    } else {
        customized_list(fs.drop_last()) + pl("    "@) + sp("~"@, colored(Color::Yellow)) + pl(
            " "@ + fs.last().path + "\n"@,
        )
    }
}

/// The report on the customizations found: their number and line counts and the list of
/// files, or the remark that there are none.
pub open spec fn customizations_report(fs: Seq<FileDiffView>) -> Seq<(Seq<char>, Style)> {
    if fs.len() == 0 {
        pl("  No local customizations found.\n"@)
    } else {
        pl("  Found "@) + sp(decimal(fs.len()), bold()) + pl(" customized files ("@) + sp(
            decimal(inserted_total(fs)),
            colored(Color::Green),
        ) + pl(" insertions, "@) + sp(decimal(deleted_total(fs)), colored(Color::Red)) + pl(
            " deletions)\n"@,
        ) + customized_list(fs)
    }
}

/// Reports the customizations found.
pub fn render_customizations(custom: &DiffResult) -> (t: StyledText)
    requires
        inserted_total(file_views(custom.files@)) <= usize::MAX,
        deleted_total(file_views(custom.files@)) <= usize::MAX,
    ensures
        t@ == customizations_report(file_views(custom.files@)),
{
    let ghost fv = file_views(custom.files@);
    let mut t = StyledText::new();
    if custom.files.len() == 0 {
        t.push_plain("  No local customizations found.\n");
        return t;
    }
    let (ins, del) = crate::table::sum_file_counts(&custom.files);
    let mut n: Vec<char> = Vec::new();
    push_decimal(&mut n, custom.files.len());
    let mut iv: Vec<char> = Vec::new();
    push_decimal(&mut iv, ins);
    let mut dv: Vec<char> = Vec::new();
    push_decimal(&mut dv, del);
    t.push_plain("  Found ");
    t.push_chars(&n, Style::new_bold());
    t.push_plain(" customized files (");
    t.push_chars(&iv, Style::new_colored(Color::Green));
    t.push_plain(" insertions, ");
    t.push_chars(&dv, Style::new_colored(Color::Red));
    t.push_plain(" deletions)\n");
    let ghost head = t@;
    let mut i: usize = 0;
    while i < custom.files.len()
        invariant
            i <= custom.files.len(),
            fv == file_views(custom.files@),
            t@ == head + customized_list(fv.take(i as int)),
        decreases custom.files.len() - i,
    {
        assert(fv.take(i + 1).drop_last() =~= fv.take(i as int));
        assert(fv.take(i + 1).last() == custom.files@[i as int]@);
        let mut line: Vec<char> = Vec::new();
        append_str(&mut line, " ");
        append_str(&mut line, custom.files[i].path.as_str());
        append_str(&mut line, "\n");
        t.push_plain("    ");
        t.push_str("~", Style::new_colored(Color::Yellow));
        t.push_chars(&line, Style::new_plain());
        i += 1;
    }
    assert(fv.take(custom.files.len() as int) =~= fv);
    assert(fv.len() == custom.files.len());
    t
}

// ---------------------------------------------------------------------------
// Applying the patch
// ---------------------------------------------------------------------------

/// What applying the patch did to one file.
#[derive(Clone, Copy, Debug, PartialEq, Eq, Structural)]
pub enum FileOutcome {
    /// The file's patch could not be applied at all.
    Failed,
    /// The file's hunks were tried: this many failed, and this many applied only by
    /// inexact (fuzzy) matching.
    Applied { failed_hunks: usize, fuzzy_hunks: usize },
}

/// A file whose every hunk applied exactly.
pub open spec fn is_exact(o: FileOutcome) -> bool {
    match o {
        FileOutcome::Failed => false,
        FileOutcome::Applied { failed_hunks, fuzzy_hunks } => failed_hunks == 0 && fuzzy_hunks == 0,
    }
}

/// A file whose every hunk applied, some of them by fuzzy matching.
pub open spec fn is_fuzzy(o: FileOutcome) -> bool {
    match o {
        FileOutcome::Failed => false,
        FileOutcome::Applied { failed_hunks, fuzzy_hunks } => failed_hunks == 0 && fuzzy_hunks > 0,
    }
}

/// A file that did not take the patch: it failed, or one of its hunks did.
pub open spec fn is_failed(o: FileOutcome) -> bool {
    match o {
        FileOutcome::Failed => true,
        FileOutcome::Applied { failed_hunks, .. } => failed_hunks > 0,
    }
}

/// A file with a hunk that applied by fuzzy matching, whatever became of its other hunks.
pub open spec fn has_fuzzy_hunk(o: FileOutcome) -> bool {
    match o {
        FileOutcome::Failed => false,
        FileOutcome::Applied { fuzzy_hunks, .. } => fuzzy_hunks > 0,
    }
}

/// Whether a file must be reviewed: every hunk of it applied, some only by fuzzy matching.
pub fn needs_review(o: FileOutcome) -> (b: bool)
    ensures
        b == is_fuzzy(o),
{
    match o {
        FileOutcome::Failed => false,
        FileOutcome::Applied { failed_hunks, fuzzy_hunks } => failed_hunks == 0 && fuzzy_hunks > 0,
    }
}

/// How many outcomes satisfy `p`.
pub open spec fn count_outcomes(os: Seq<FileOutcome>, p: spec_fn(FileOutcome) -> bool) -> nat
    decreases os.len(),
{
    if os.len() == 0 {
        0
    } else {
        count_outcomes(os.drop_last(), p) + if p(os.last()) {
            1nat
        } else {
            0nat
        }
    }
}

/// The overall outcome of applying a patch.
#[derive(Clone, Copy, Debug, PartialEq, Eq, Structural)]
pub struct PatchTally {
    /// Files whose hunks all applied exactly.
    pub exact: usize,
    /// Files whose hunks all applied, some by fuzzy matching.
    pub fuzzy: usize,
    /// Files that did not take the patch.
    pub failed: usize,
    /// No file failed.
    pub clean: bool,
    /// Some hunk applied by fuzzy matching.
    pub conflicts: bool,
}

/// The tally that a sequence of outcomes gives.
pub open spec fn tally_spec(os: Seq<FileOutcome>) -> PatchTally {
    PatchTally {
        exact: count_outcomes(os, |o: FileOutcome| is_exact(o)) as usize,
        fuzzy: count_outcomes(os, |o: FileOutcome| is_fuzzy(o)) as usize,
        failed: count_outcomes(os, |o: FileOutcome| is_failed(o)) as usize,
        clean: count_outcomes(os, |o: FileOutcome| is_failed(o)) == 0,
        conflicts: exists|i: int| 0 <= i < os.len() && has_fuzzy_hunk(#[trigger] os[i]),
    }
}

/// Each outcome is exactly one of exact, fuzzy and failed, so the three counts add up to
/// the number of files.
pub proof fn lemma_counts_partition(os: Seq<FileOutcome>)
    ensures
        count_outcomes(os, |o: FileOutcome| is_exact(o)) + count_outcomes(
            os,
            |o: FileOutcome| is_fuzzy(o),
        ) + count_outcomes(os, |o: FileOutcome| is_failed(o)) == os.len(),
    decreases os.len(),
{
    if os.len() > 0 {
        lemma_counts_partition(os.drop_last());
    }
}

/// Tallies the outcomes of applying a patch, file by file.
pub fn tally_outcomes(outcomes: &Vec<FileOutcome>) -> (t: PatchTally)
    ensures
        t == tally_spec(outcomes@),
        t.exact + t.fuzzy + t.failed == outcomes.len(),
{
    let ghost os = outcomes@;
    let mut exact: usize = 0;
    let mut fuzzy: usize = 0;
    let mut failed: usize = 0;
    let mut conflicts = false;
    let mut i: usize = 0;
    while i < outcomes.len()
        invariant
            i <= outcomes.len(),
            os == outcomes@,
            exact == count_outcomes(os.take(i as int), |o: FileOutcome| is_exact(o)),
            fuzzy == count_outcomes(os.take(i as int), |o: FileOutcome| is_fuzzy(o)),
            failed == count_outcomes(os.take(i as int), |o: FileOutcome| is_failed(o)),
            exact + fuzzy + failed == i,
            conflicts == exists|k: int| 0 <= k < i && has_fuzzy_hunk(#[trigger] os[k]),
        decreases outcomes.len() - i,
    {
        proof {
            lemma_counts_partition(os.take(i as int));
            assert(os.take(i + 1).drop_last() =~= os.take(i as int));
            assert(os.take(i + 1).last() == os[i as int]);
        }
        match outcomes[i] {
            FileOutcome::Failed => {
                failed += 1;
            },
            FileOutcome::Applied { failed_hunks, fuzzy_hunks } => {
                if fuzzy_hunks > 0 {
                    conflicts = true;
                }
                if failed_hunks == 0 {
                    if fuzzy_hunks > 0 {
                        fuzzy += 1;
                    } else {
                        exact += 1;
                    }
                } else {
                    failed += 1;
                }
            },
        }
        i += 1;
    }
    assert(os.take(outcomes.len() as int) =~= os);
    PatchTally { exact, fuzzy, failed, clean: failed == 0, conflicts }
}

/// The report on applying the patch, after a blank line: all clean; all applied but some
/// by fuzzy matching; or some failed.
pub open spec fn patch_report(t: PatchTally) -> Seq<(Seq<char>, Style)> {
    let total = (t.exact + t.fuzzy) as nat;
    pl("\n"@) + if t.clean && !t.conflicts {
        pl("  "@) + sp("✓"@, colored_bold(Color::Green)) + pl(
            " All customizations applied cleanly ("@ + decimal(total) + " files)\n"@,
        )
    } else if t.clean {
        pl("  "@) + sp("⚠"@, colored_bold(Color::Yellow)) + pl(
            " "@ + decimal(total) + " files applied, but "@,
        ) + sp(decimal(t.fuzzy as nat), colored(Color::Yellow)) + pl(
            " with fuzzy matching (review recommended)\n"@,
        ) + pl("    Fuzzy matches may have applied your changes in the wrong location or\n"@) + pl(
            "    overwritten upstream changes. Review the diffs below.\n"@,
        )
    } else {
        pl("  "@) + sp("⚠"@, colored_bold(Color::Yellow)) + pl(
            " "@ + decimal(total) + "/"@ + decimal((total + t.failed) as nat) + " files applied, "@,
        ) + sp(decimal(t.failed as nat), colored(Color::Red)) + pl(" failed\n"@) + if t.conflicts {
            pl("    Additionally, "@) + sp(decimal(t.fuzzy as nat), colored(Color::Yellow)) + pl(
                " files applied with fuzzy matching (review recommended)\n"@,
            )
        } else {
            seq![]
        }
    }
}

/// Reports the outcome of applying the patch.
pub fn render_patch_summary(t: &PatchTally) -> (r: StyledText)
    requires
        t.exact + t.fuzzy + t.failed <= usize::MAX,
    ensures
        r@ == patch_report(*t),
{
    let total = t.exact + t.fuzzy;
    let mut r = StyledText::new();
    r.push_plain("\n");
    r.push_plain("  ");
    if t.clean && !t.conflicts {
        r.push_str("✓", Style::new_colored_bold(Color::Green));
        let mut v: Vec<char> = Vec::new();
        append_str(&mut v, " All customizations applied cleanly (");
        push_decimal(&mut v, total);
        append_str(&mut v, " files)\n");
        r.push_chars(&v, Style::new_plain());
    } else if t.clean {
        r.push_str("⚠", Style::new_colored_bold(Color::Yellow));
        let mut v: Vec<char> = Vec::new();
        append_str(&mut v, " ");
        push_decimal(&mut v, total);
        append_str(&mut v, " files applied, but ");
        r.push_chars(&v, Style::new_plain());
        let mut f: Vec<char> = Vec::new();
        push_decimal(&mut f, t.fuzzy);
        r.push_chars(&f, Style::new_colored(Color::Yellow));
        r.push_plain(" with fuzzy matching (review recommended)\n");
        r.push_plain("    Fuzzy matches may have applied your changes in the wrong location or\n");
        r.push_plain("    overwritten upstream changes. Review the diffs below.\n");
    } else {
        r.push_str("⚠", Style::new_colored_bold(Color::Yellow));
        let mut v: Vec<char> = Vec::new();
        append_str(&mut v, " ");
        push_decimal(&mut v, total);
        append_str(&mut v, "/");
        push_decimal(&mut v, total + t.failed);
        append_str(&mut v, " files applied, ");
        r.push_chars(&v, Style::new_plain());
        let mut f: Vec<char> = Vec::new();
        push_decimal(&mut f, t.failed);
        r.push_chars(&f, Style::new_colored(Color::Red));
        r.push_plain(" failed\n");
        if t.conflicts {
            r.push_plain("    Additionally, ");
            let mut z: Vec<char> = Vec::new();
            push_decimal(&mut z, t.fuzzy);
            r.push_chars(&z, Style::new_colored(Color::Yellow));
            r.push_plain(" files applied with fuzzy matching (review recommended)\n");
        }
    }
    assert(r@ =~= patch_report(*t));
    r
}


// ---------------------------------------------------------------------------
// Dry runs, confirmation and the files left behind
// ---------------------------------------------------------------------------

/// What a dry run reports, after a blank line: whether the upgrade from `old` to `new`
/// would carry the customizations over cleanly, only by fuzzy matching, or not at all.
pub open spec fn dry_run_report(
    has_customizations: bool,
    t: PatchTally,
    old: Seq<char>,
    new: Seq<char>,
) -> Seq<(Seq<char>, Style)> {
    pl("\n"@) + if !has_customizations {
        pl("  "@) + sp("✓"@, colored_bold(Color::Green)) + pl(
            " Dry run: upgrade v"@ + old + " → v"@ + new
                + " would apply cleanly (no customizations).\n"@,
        )
    } else if t.clean && !t.conflicts {
        pl("  "@) + sp("✓"@, colored_bold(Color::Green)) + pl(
            " Dry run: all customizations would reapply cleanly after upgrade to v"@ + new + ".\n"@,
        )
    } else if t.clean {
        pl("  "@) + sp("⚠"@, colored_bold(Color::Yellow)) + pl(
            " Dry run: customizations would apply but "@,
        ) + sp("some hunks matched inexactly"@, colored(Color::Yellow)) + pl(
            " with fuzzy matching.\n"@,
        ) + pl("    These files should be reviewed after upgrading to confirm correctness.\n"@)
    } else {
        pl("  "@) + sp("⚠"@, colored_bold(Color::Yellow)) + pl(
            " Dry run: some customizations would fail to reapply after upgrade to v"@ + new
                + ".\n"@,
        )
    }
}

/// Reports what the upgrade from `old_version` to `new_version` would do.
pub fn render_dry_run(
    has_customizations: bool,
    t: &PatchTally,
    old_version: &str,
    new_version: &str,
) -> (r: StyledText)
    ensures
        r@ == dry_run_report(has_customizations, *t, old_version@, new_version@),
{
    let mut r = StyledText::new();
    r.push_plain("\n");
    r.push_plain("  ");
    if !has_customizations {
        r.push_str("✓", Style::new_colored_bold(Color::Green));
        let mut v: Vec<char> = Vec::new();
        append_str(&mut v, " Dry run: upgrade v");
        append_str(&mut v, old_version);
        append_str(&mut v, " → v");
        append_str(&mut v, new_version);
        append_str(&mut v, " would apply cleanly (no customizations).\n");
        r.push_chars(&v, Style::new_plain());
    } else if t.clean && !t.conflicts {
        r.push_str("✓", Style::new_colored_bold(Color::Green));
        let mut v: Vec<char> = Vec::new();
        append_str(&mut v, " Dry run: all customizations would reapply cleanly after upgrade to v");
        append_str(&mut v, new_version);
        append_str(&mut v, ".\n");
        r.push_chars(&v, Style::new_plain());
    } else if t.clean {
        r.push_str("⚠", Style::new_colored_bold(Color::Yellow));
        r.push_plain(" Dry run: customizations would apply but ");
        r.push_str("some hunks matched inexactly", Style::new_colored(Color::Yellow));
        r.push_plain(" with fuzzy matching.\n");
        r.push_plain("    These files should be reviewed after upgrading to confirm correctness.\n");
    } else {
        r.push_str("⚠", Style::new_colored_bold(Color::Yellow));
        let mut v: Vec<char> = Vec::new();
        append_str(&mut v, " Dry run: some customizations would fail to reapply after upgrade to v");
        append_str(&mut v, new_version);
        append_str(&mut v, ".\n");
        r.push_chars(&v, Style::new_plain());
    }
    assert(r@ =~= dry_run_report(has_customizations, *t, old_version@, new_version@));
    r
}

/// The question asked before the live plugin is replaced, which names what went wrong.
pub open spec fn confirm_question(t: PatchTally) -> Seq<char> {
    if !t.clean {
        "  Replace live plugin? (some customizations failed to apply)"@
    } else if t.conflicts {
        "  Replace live plugin? (some hunks matched inexactly - review recommended)"@
    } else {
        "  Replace live plugin with upgraded version?"@
    }
}

/// The question to ask before the live plugin is replaced.
pub fn confirm_prompt(t: &PatchTally) -> (q: &'static str)
    ensures
        q@ == confirm_question(*t),
{
    if !t.clean {
        "  Replace live plugin? (some customizations failed to apply)"
    } else if t.conflicts {
        "  Replace live plugin? (some hunks matched inexactly - review recommended)"
    } else {
        "  Replace live plugin with upgraded version?"
    }
}

/// An answer agrees when, trimmed, it is `y` in either case.
pub open spec fn agrees(answer: Seq<char>) -> bool {
    trim(answer) == seq!['y'] || trim(answer) == seq!['Y']
}

/// Whether the answer to the question agrees to the replacement.
pub fn is_confirmation(answer: &str) -> (b: bool)
    ensures
        b == agrees(answer@),
{
    let t = trim_chars(&chars_of(answer));
    let r = t.len() == 1 && (t[0] == 'y' || t[0] == 'Y');
    assert(r ==> (t@ =~= seq!['y'] || t@ =~= seq!['Y']));
    r
}

/// A file that an upgrade leaves next to the plugin.
#[derive(Clone, Copy, Debug, PartialEq, Eq, Structural)]
pub enum Artifact {
    /// The patch of the customizations, kept when it did not apply cleanly.
    CustomizationPatch,
    /// The hunks that failed to apply.
    RejectedHunks,
    /// The diffs of the fuzzy-matched files against upstream.
    ReviewDiff,
    /// The archive of the plugin as it was before the upgrade.
    Backup,
}

/// The end of an artifact's file name.
pub open spec fn artifact_suffix(a: Artifact) -> Seq<char> {
    match a {
        Artifact::CustomizationPatch => "-customizations.patch"@,
        Artifact::RejectedHunks => ".rej"@,
        Artifact::ReviewDiff => "-review.diff"@,
        Artifact::Backup => "-backup.zip"@,
    }
}

/// The file name of an artifact of the plugin `slug` at `version`.
pub open spec fn artifact_name(slug: Seq<char>, version: Seq<char>, a: Artifact) -> Seq<char> {
    slug + "-"@ + version + artifact_suffix(a)
}

/// The file name of an artifact: the slug, a hyphen, the installed version and the
/// artifact's suffix.
pub fn artifact_path(slug: &str, version: &str, a: Artifact) -> (r: String)
    ensures
        r@ == artifact_name(slug@, version@, a),
{
    let mut v: Vec<char> = Vec::new();
    append_str(&mut v, slug);
    append_str(&mut v, "-");
    append_str(&mut v, version);
    let suffix: &str = match a {
        Artifact::CustomizationPatch => "-customizations.patch",
        Artifact::RejectedHunks => ".rej",
        Artifact::ReviewDiff => "-review.diff",
        Artifact::Backup => "-backup.zip",
    };
    append_str(&mut v, suffix);
    string_from_chars(&v)
}

/// The record of a hunk that failed to apply: its number (counted from 1), the file, and
/// the reason.
pub open spec fn rejected_entry(index: nat, file: Seq<char>, reason: Seq<char>) -> Seq<char> {
    "--- Failed hunk #"@ + decimal(index + 1) + " in "@ + file + " ---\n"@ + reason + "\n\n"@
}

/// Records that hunk `index` (counted from 0) of `file` failed, for the given reason.
pub fn rejected_hunk_entry(index: usize, file: &str, reason: &str) -> (r: String)
    requires
        index < usize::MAX,
    ensures
        r@ == rejected_entry(index as nat, file@, reason@),
{
    let mut v: Vec<char> = Vec::new();
    append_str(&mut v, "--- Failed hunk #");
    push_decimal(&mut v, index + 1);
    append_str(&mut v, " in ");
    append_str(&mut v, file);
    append_str(&mut v, " ---\n");
    append_str(&mut v, reason);
    append_str(&mut v, "\n\n");
    string_from_chars(&v)
}


// ---------------------------------------------------------------------------
// The course of an upgrade
// ---------------------------------------------------------------------------

/// Whether the plugin is already at the version the upgrade targets, in which case
/// nothing is done.
pub fn is_current(target: &str, installed: &str) -> (b: bool)
    ensures
        b == (target@ == installed@),
{
    crate::text::str_eq(target, installed)
}

/// How the files that took the patch only by fuzzy matching are reviewed.
#[derive(Clone, Copy, Debug, PartialEq, Eq, Structural)]
pub enum ReviewMode {
    /// Each changed section is shown and resolved by a choice.
    Interactive,
    /// The diffs are shown and the patched files kept.
    ShowOnly,
}

/// The review asks only when nobody said yes in advance, the run is real, and a terminal
/// can answer.
pub open spec fn review_mode_for(yes: bool, dry_run: bool, stdin_is_terminal: bool) -> ReviewMode {
    if !yes && !dry_run && stdin_is_terminal {
        ReviewMode::Interactive
    } else {
        ReviewMode::ShowOnly
    }
}

/// How fuzzy-matched files are reviewed.
pub fn review_mode(yes: bool, dry_run: bool, stdin_is_terminal: bool) -> (m: ReviewMode)
    ensures
        m == review_mode_for(yes, dry_run, stdin_is_terminal),
{
    if !yes && !dry_run && stdin_is_terminal {
        ReviewMode::Interactive
    } else {
        ReviewMode::ShowOnly
    }
}

/// What remains to do once the patch has been applied to the staged upgrade.
#[derive(Clone, Copy, Debug, PartialEq, Eq, Structural)]
pub struct Finish {
    /// Report what would happen, and stop.
    pub dry_run_report: bool,
    /// Save the patch of the customizations next to the plugin.
    pub save_patch: bool,
    /// Save the hunks that failed.
    pub save_rejects: bool,
    /// Ask before the live plugin is replaced.
    pub ask: bool,
}

/// A dry run only reports; otherwise the patch is saved when some file did not take it,
/// with the failed hunks when there are any, and the user is asked unless they agreed in
/// advance.
pub open spec fn finish_for(t: PatchTally, has_rejects: bool, dry_run: bool, yes: bool) -> Finish {
    if dry_run {
        Finish { dry_run_report: true, save_patch: false, save_rejects: false, ask: false }
    } else {
        Finish {
            dry_run_report: false,
            save_patch: !t.clean,
            save_rejects: !t.clean && has_rejects,
            ask: !yes,
        }
    }
}

/// What remains to do once the patch has been applied.
pub fn finish_plan(t: &PatchTally, has_rejects: bool, dry_run: bool, yes: bool) -> (f: Finish)
    ensures
        f == finish_for(*t, has_rejects, dry_run, yes),
{
    if dry_run {
        Finish { dry_run_report: true, save_patch: false, save_rejects: false, ask: false }
    } else {
        Finish {
            dry_run_report: false,
            save_patch: !t.clean,
            save_rejects: !t.clean && has_rejects,
            ask: !yes,
        }
    }
}

/// Outside a dry run the user is asked before the live plugin is replaced exactly when
/// they did not agree in advance (`--yes`), whatever the patch outcome; the patch is
/// saved exactly when some file did not take it, and the failed hunks exactly when there
/// are some as well. A dry run only reports: it asks nothing and saves nothing.
pub proof fn lemma_finish_decisions(t: PatchTally, has_rejects: bool, dry_run: bool, yes: bool)
    ensures
        !dry_run ==> {
            let f = finish_for(t, has_rejects, dry_run, yes);
            &&& f.ask == !yes
            &&& !f.dry_run_report
            &&& f.save_patch == !t.clean
            &&& f.save_rejects == (!t.clean && has_rejects)
        },
        dry_run ==> {
            let f = finish_for(t, has_rejects, dry_run, yes);
            &&& f.dry_run_report
            &&& !f.ask
            &&& !f.save_patch
            &&& !f.save_rejects
        },
        forall|t2: PatchTally, r2: bool|
            #![trigger finish_for(t2, r2, dry_run, yes)]
            finish_for(t2, r2, dry_run, yes).ask == finish_for(t, has_rejects, dry_run, yes).ask,
{
}

} // verus!
