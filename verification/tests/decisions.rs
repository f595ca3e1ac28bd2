use std::io::Write;
use wpdiff::cli::{
    choose_renderer, export_target, log_level, render_versions, resolve_slug, scan_footer,
    scan_output, CommonArgs, ExportError, FilterArgs, LogLevel, RenderMode, Renderer, ScanOutput,
    ScanReport, Unmatched, UsageError,
};
use wpdiff::model::{CategoryTally, DiffResult, DiffSummary, FileCategory, FileDiff, FileStatus, SkippedDirs};
use wpdiff::plugin::{
    discover_plugin, find_plugins_dir, is_php_file, join, plugins_dir_candidates,
    resolve_plugin_path, LookupError,
};
use wpdiff::review::{FileReview, SectionChoice};
use wpdiff::source::{
    download_status, download_urls, entry_action, extraction_plan, info_url,
    plugin_info_from_reply, version_key_of, DownloadStatus, EntryAction, ExtractEntry,
    ExtractError, InfoError, InfoReply, PluginInfo, plugin_info_from_body,
};
use wpdiff::table::{col_green, col_red, col_yellow};
use wpdiff::tree::{walk_step, WalkStep};
use wpdiff::upgrade::{
    artifact_path, confirm_prompt, customization_patch, customizations, is_confirmation,
    rejected_hunk_entry, render_customizations, render_dry_run, render_patch_summary, Artifact,
    PatchTally,
};

fn file(path: &str, cat: FileCategory, ins: usize, del: usize, text: &str) -> FileDiff {
    FileDiff {
        path: path.to_string(),
        status: FileStatus::Modified,
        category: cat,
        insertions: ins,
        deletions: del,
        diff_text: text.to_string(),
    }
}

fn result(files: Vec<FileDiff>) -> DiffResult {
    DiffResult {
        plugin_slug: "akismet".to_string(),
        plugin_version: "5.0".to_string(),
        latest_version: None,
        files,
        skipped_dirs: SkippedDirs { local: vec![], upstream: vec![] },
        summary: DiffSummary { added: 0, removed: 0, modified: 0, unchanged: 0, by_category: CategoryTally::new() },
    }
}

fn tally(exact: usize, fuzzy: usize, failed: usize, conflicts: bool) -> PatchTally {
    PatchTally { exact, fuzzy, failed, clean: failed == 0, conflicts }
}

#[test]
fn versions_listing_marks_installed_and_latest() {
    let info = PluginInfo {
        name: "Akismet".to_string(),
        latest_version: "5.1".to_string(),
        versions: vec!["5.0".to_string(), "5.1".to_string()],
    };
    let out = render_versions("akismet", &info, Some("5.0")).plain_text();
    assert_eq!(
        out,
        "Akismet (akismet)\n  Installed: v5.0\n  Latest:    v5.1\n\n  Available versions:\n    v5.0 ◀ installed\n    v5.1 ◀ latest\n\n  2 versions total\n"
    );
}

#[test]
fn versions_listing_hides_old_versions() {
    let versions: Vec<String> = (1..=22).map(|i| format!("1.{i}")).collect();
    let info = PluginInfo { name: "Demo".to_string(), latest_version: "1.22".to_string(), versions };
    let out = render_versions("demo", &info, None).plain_text();
    assert!(out.contains("  ... (2 older versions hidden)\n"));
    assert!(!out.contains("v1.2 "));
    assert!(out.contains("    v1.3 \n"));
    assert!(out.contains("    v1.22 ◀ latest\n"));
    assert!(out.ends_with("\n  22 versions total\n"));
}

#[test]
fn info_reply_defaults_and_errors() {
    let reply = InfoReply { has_error: false, name: None, version: None, version_keys: vec![] };
    let info = plugin_info_from_reply("demo", &reply).unwrap();
    assert_eq!(info.name, "demo");
    assert_eq!(info.latest_version, "unknown");
    assert!(info.versions.is_empty());
    let err = InfoReply { has_error: true, ..reply };
    assert_eq!(plugin_info_from_reply("demo", &err).unwrap_err(), InfoError::NotFound);
}

#[test]
fn version_keys_take_the_numbers() {
    assert_eq!(version_key_of("1.2.3-beta4"), vec![1, 2, 3]);
    assert_eq!(version_key_of("+5.x"), vec![5]);
    assert_eq!(version_key_of("18446744073709551616.1"), vec![1]);
    assert_eq!(version_key_of("18446744073709551615"), vec![u64::MAX]);
    assert_eq!(version_key_of(""), Vec::<u64>::new());
}

#[test]
fn download_addresses() {
    assert_eq!(
        download_urls("akismet", None, "5.0"),
        vec![
            "https://downloads.wordpress.org/plugin/akismet.5.0.zip".to_string(),
            "https://downloads.wordpress.org/plugin/akismet.zip".to_string(),
        ]
    );
    assert_eq!(
        download_urls("akismet", None, ""),
        vec!["https://downloads.wordpress.org/plugin/akismet.zip".to_string()]
    );
    assert_eq!(
        download_urls("akismet", Some("6.0"), "5.0")[0],
        "https://downloads.wordpress.org/plugin/akismet.6.0.zip"
    );
    assert_eq!(
        info_url("akismet"),
        "https://api.wordpress.org/plugins/info/1.2/?action=plugin_information&slug=akismet&fields=versions"
    );
}

#[test]
fn archive_entry_actions() {
    assert_eq!(entry_action("akismet/"), EntryAction::Skip);
    assert_eq!(entry_action("readme"), EntryAction::Skip);
    assert_eq!(entry_action("akismet/inc/"), EntryAction::Directory("inc/".to_string()));
    assert_eq!(entry_action("akismet/a.php"), EntryAction::File("a.php".to_string()));
}

#[test]
fn log_levels() {
    assert_eq!(log_level(3, true), LogLevel::Error);
    assert_eq!(log_level(0, false), LogLevel::Warn);
    assert_eq!(log_level(1, false), LogLevel::Info);
    assert_eq!(log_level(2, false), LogLevel::Debug);
    assert_eq!(log_level(7, false), LogLevel::Trace);
}

#[test]
fn renderers() {
    assert_eq!(choose_renderer(RenderMode::Diff, true, false), Renderer::Json);
    assert_eq!(choose_renderer(RenderMode::Diff, false, true), Renderer::Terminal);
    assert_eq!(choose_renderer(RenderMode::Summary, false, true), Renderer::SummaryCompact);
    assert_eq!(choose_renderer(RenderMode::Summary, false, false), Renderer::Summary);
}

#[test]
fn filters_include_what_is_asked() {
    let f = FilterArgs { include_artifacts: true, include_assets: false, include_all: false, exclude: vec![], json: false };
    let c = f.included_categories();
    assert!(c.contains(FileCategory::Source) && c.contains(FileCategory::Metadata));
    assert!(c.contains(FileCategory::Artifact));
    assert!(!c.contains(FileCategory::Asset));
    let all = FilterArgs { include_all: true, include_artifacts: false, ..f };
    assert!(all.included_categories().contains(FileCategory::Asset));
}

#[test]
fn a_plugin_is_required() {
    let args = CommonArgs { plugin: None, all: false, dir: Some("/srv".to_string()), whitespace: false, verbose: 0, quiet: false };
    assert_eq!(args.require_plugin(), Err(UsageError::MissingPlugin));
    assert_eq!(args.base_dir(), Some("/srv"));
    let named = CommonArgs { plugin: Some("akismet".to_string()), ..args };
    assert_eq!(named.require_plugin(), Ok("akismet"));
}

#[test]
fn slugs_from_arguments() {
    assert_eq!(resolve_slug("wp-content/plugins/akismet/", None), "akismet");
    assert_eq!(resolve_slug("akismet", None), "akismet");
    assert_eq!(resolve_slug("x", Some("/srv/wp/wp-content/plugins/akismet")), "akismet");
    assert_eq!(resolve_slug("x", Some("/")), "x");
}

#[test]
fn export_targets() {
    let empty = result(vec![]);
    assert_eq!(export_target(&empty, None), Err(ExportError::NothingToExport));
    let one = result(vec![file("a.php", FileCategory::Source, 1, 1, "d")]);
    assert_eq!(export_target(&one, None).unwrap(), "akismet-5.0.patch");
    assert_eq!(export_target(&one, Some("my.patch")).unwrap(), "my.patch");
}

#[test]
fn scan_outputs_and_footer() {
    let report = ScanReport {
        diffs: vec![result(vec![])],
        clean: 3,
        unmatched: vec![Unmatched { slug: "x".to_string(), reason: "r".to_string() }],
    };
    assert_eq!(scan_output(true, false, &report), ScanOutput::SummaryTable);
    assert_eq!(scan_output(true, true, &report), ScanOutput::Results);
    assert_eq!(scan_footer(&report).unwrap(), "\n1 changed, 3 unchanged, 1 unmatched\n");
    let quiet = ScanReport { diffs: vec![], clean: 0, unmatched: vec![] };
    assert_eq!(scan_output(false, false, &quiet), ScanOutput::AllMatch);
    assert!(scan_footer(&quiet).is_none());
}

#[test]
fn walk_prunes_skipped_directories() {
    assert_eq!(walk_step(true, 1, "node_modules"), WalkStep::PruneAndReport);
    assert_eq!(walk_step(true, 3, "vendor"), WalkStep::Prune);
    assert_eq!(walk_step(true, 0, "vendor"), WalkStep::Enter);
    assert_eq!(walk_step(false, 1, "vendor"), WalkStep::Enter);
    assert_eq!(walk_step(true, 1, "src"), WalkStep::Enter);
}

#[test]
fn paths_and_candidates() {
    assert_eq!(join("/a", "b"), "/a/b");
    assert_eq!(join("/a/", "b"), "/a/b");
    assert_eq!(join("", "b"), "b");
    assert_eq!(join("/a", "/b"), "/b");
    assert_eq!(
        plugins_dir_candidates("/srv/wp"),
        vec!["/srv/wp/wp-content/plugins".to_string(), "/srv/wp/plugins".to_string(), "/srv/wp".to_string()]
    );
    assert_eq!(find_plugins_dir("/srv/wp", &vec![false, false, true]).unwrap(), "/srv/wp");
    assert_eq!(find_plugins_dir("/srv/wp", &vec![]), Err(LookupError::PluginsDirNotFound));
    assert_eq!(
        resolve_plugin_path("akismet", "/srv", &vec!["/srv".to_string()], &vec![false, false]),
        Err(LookupError::PluginNotFound)
    );
    assert_eq!(discover_plugin("/srv/p", &vec![]).unwrap_err(), LookupError::NoPluginHeader);
    assert!(is_php_file("a.php"));
    assert!(is_php_file("..php"));
    assert!(!is_php_file(".php"));
    assert!(!is_php_file("a.phps"));
}

#[test]
fn count_cells() {
    assert_eq!(col_green(3, 6, "+").plain_text(), "    +3");
    assert_eq!(col_red(12, 4, "-").plain_text(), " -12");
    assert_eq!(col_yellow(0, 5).plain_text(), "    ·");
}

#[test]
fn review_sections_and_choices() {
    let up = "a\nb\nc\n";
    let patched = "a\nB\nc\n";
    let review = FileReview::new(up, patched);
    assert_eq!(review.section_count(), 1);
    assert!(review.section_has_changes(0));
    assert_eq!(
        review.render_section(0).plain_text(),
        "\n    ─── Section 1/1 (lines 1-3):\n       a\n      -b\n      +B\n       c\n"
    );
    assert_eq!(review.resolve(&vec![SectionChoice::Ours]).unwrap(), "a\nB\nc\n");
    assert_eq!(review.resolve(&vec![SectionChoice::Upstream]).unwrap(), "a\nb\nc\n");
    assert_eq!(review.resolve(&vec![SectionChoice::Both]).unwrap(), "a\nb\nc\nB\n");
    assert!(review.resolve(&vec![]).is_none());
}

#[test]
fn review_renders_every_changed_section() {
    let review = FileReview::new("a\nb\nc\n", "a\nB\nc\n");
    let rendered = review.render_sections().unwrap();
    assert_eq!(rendered.len(), 1);
    assert_eq!(
        rendered[0].as_ref().unwrap().plain_text(),
        "\n    ─── Section 1/1 (lines 1-3):\n       a\n      -b\n      +B\n       c\n"
    );
    let same = FileReview::new("a\n", "a\n");
    assert!(same.render_sections().unwrap().iter().all(|s| s.is_none()));
}

fn zip_of(entries: &[(&str, Option<&[u8]>)]) -> Vec<u8> {
    let mut w = zip::ZipWriter::new(std::io::Cursor::new(Vec::new()));
    let opts = zip::write::SimpleFileOptions::default();
    for (name, data) in entries {
        match data {
            Some(d) => {
                w.start_file(*name, opts).unwrap();
                w.write_all(d).unwrap();
            }
            None => w.add_directory(*name, opts).unwrap(),
        }
    }
    w.finish().unwrap().into_inner()
}

#[test]
fn archive_extraction_plan() {
    let bytes = zip_of(&[
        ("akismet/", None),
        ("akismet/akismet.php", Some(b"<?php\n")),
        ("akismet/views/", None),
        ("akismet/views/notice.php", Some(b"hi")),
    ]);
    let plan = extraction_plan(&bytes).unwrap();
    assert_eq!(
        plan,
        vec![
            ExtractEntry { path: "akismet.php".to_string(), is_dir: false, contents: b"<?php\n".to_vec() },
            ExtractEntry { path: "views/".to_string(), is_dir: true, contents: vec![] },
            ExtractEntry { path: "views/notice.php".to_string(), is_dir: false, contents: b"hi".to_vec() },
        ]
    );
}

#[test]
fn archive_garbage_is_refused() {
    assert_eq!(extraction_plan(&b"not a zip at all".to_vec()), Err(ExtractError::NotAnArchive));
    assert_eq!(extraction_plan(&vec![]), Err(ExtractError::NotAnArchive));
}

#[test]
fn download_statuses() {
    assert_eq!(download_status(200), DownloadStatus::Ready);
    assert_eq!(download_status(204), DownloadStatus::Ready);
    assert_eq!(download_status(404), DownloadStatus::NotFound);
    assert_eq!(download_status(500), DownloadStatus::Failed);
    assert_eq!(download_status(301), DownloadStatus::Failed);
}

#[test]
fn customizations_and_their_patch() {
    let r = result(vec![
        file("a.php", FileCategory::Source, 3, 1, "--- a/a.php\n"),
        file("app.min.js", FileCategory::Artifact, 9, 9, "--- a/app.min.js\n"),
        file("readme.txt", FileCategory::Metadata, 2, 0, "--- a/readme.txt\n"),
    ]);
    let c = customizations(&r);
    assert_eq!(c.files.len(), 2);
    assert_eq!(customization_patch(&c).unwrap(), "--- a/a.php\n--- a/readme.txt\n");
    assert_eq!(
        render_customizations(&c).plain_text(),
        "  Found 2 customized files (5 insertions, 1 deletions)\n    ~ a.php\n    ~ readme.txt\n"
    );
    let none = customizations(&result(vec![]));
    assert!(customization_patch(&none).is_none());
    assert_eq!(render_customizations(&none).plain_text(), "  No local customizations found.\n");
}

#[test]
fn patch_reports() {
    assert_eq!(
        render_patch_summary(&tally(2, 0, 0, false)).plain_text(),
        "\n  ✓ All customizations applied cleanly (2 files)\n"
    );
    assert_eq!(
        render_patch_summary(&tally(1, 1, 0, true)).plain_text(),
        "\n  ⚠ 2 files applied, but 1 with fuzzy matching (review recommended)\n    Fuzzy matches may have applied your changes in the wrong location or\n    overwritten upstream changes. Review the diffs below.\n"
    );
    assert_eq!(render_patch_summary(&tally(1, 0, 1, false)).plain_text(), "\n  ⚠ 1/2 files applied, 1 failed\n");
    assert_eq!(
        render_patch_summary(&tally(0, 1, 1, true)).plain_text(),
        "\n  ⚠ 1/2 files applied, 1 failed\n    Additionally, 1 files applied with fuzzy matching (review recommended)\n"
    );
}

#[test]
fn dry_run_reports() {
    assert_eq!(
        render_dry_run(false, &tally(0, 0, 0, false), "1.0", "2.0").plain_text(),
        "\n  ✓ Dry run: upgrade v1.0 → v2.0 would apply cleanly (no customizations).\n"
    );
    assert_eq!(
        render_dry_run(true, &tally(1, 0, 0, false), "1.0", "2.0").plain_text(),
        "\n  ✓ Dry run: all customizations would reapply cleanly after upgrade to v2.0.\n"
    );
    assert!(render_dry_run(true, &tally(0, 1, 0, true), "1.0", "2.0")
        .plain_text()
        .contains("some hunks matched inexactly"));
    assert_eq!(
        render_dry_run(true, &tally(0, 0, 1, false), "1.0", "2.0").plain_text(),
        "\n  ⚠ Dry run: some customizations would fail to reapply after upgrade to v2.0.\n"
    );
}

#[test]
fn confirmation() {
    assert_eq!(confirm_prompt(&tally(0, 0, 1, false)), "  Replace live plugin? (some customizations failed to apply)");
    assert_eq!(
        confirm_prompt(&tally(0, 1, 0, true)),
        "  Replace live plugin? (some hunks matched inexactly - review recommended)"
    );
    assert_eq!(confirm_prompt(&tally(1, 0, 0, false)), "  Replace live plugin with upgraded version?");
    assert!(is_confirmation(" y\n"));
    assert!(is_confirmation("Y"));
    assert!(!is_confirmation("yes"));
    assert!(!is_confirmation(""));
}

#[test]
fn artifacts_left_behind() {
    assert_eq!(artifact_path("akismet", "5.0", Artifact::CustomizationPatch), "akismet-5.0-customizations.patch");
    assert_eq!(artifact_path("akismet", "5.0", Artifact::RejectedHunks), "akismet-5.0.rej");
    assert_eq!(artifact_path("akismet", "5.0", Artifact::ReviewDiff), "akismet-5.0-review.diff");
    assert_eq!(artifact_path("akismet", "5.0", Artifact::Backup), "akismet-5.0-backup.zip");
    assert_eq!(rejected_hunk_entry(0, "a.php", "NoMatch"), "--- Failed hunk #1 in a.php ---\nNoMatch\n\n");
}

#[test]
fn info_from_reply_bodies() {
    let body = br#"{"name":"Akismet","version":"5.3","versions":{"5.2":"u","trunk":"u","5.10":"u","5.3":"u"}}"#;
    let info = plugin_info_from_body("akismet", body).unwrap();
    assert_eq!(info.name, "Akismet");
    assert_eq!(info.latest_version, "5.3");
    assert_eq!(info.versions, vec!["5.2", "5.3", "5.10"]);
    let bare = plugin_info_from_body("demo", br#"{"name":5}"#).unwrap();
    assert_eq!((bare.name.as_str(), bare.latest_version.as_str()), ("demo", "unknown"));
    assert!(bare.versions.is_empty());
    assert_eq!(
        plugin_info_from_body("demo", br#"{"error":"Plugin not found."}"#).unwrap_err(),
        InfoError::NotFound
    );
    assert_eq!(plugin_info_from_body("demo", b"<html>").unwrap_err(), InfoError::Unparsable);
}

#[test]
fn review_keeps_line_endings_in_the_shown_lines() {
    let review = FileReview::new("a\r\nb\r\n", "a\r\nB\r\n");
    assert_eq!(
        review.render_section(0).plain_text(),
        "\n    ─── Section 1/1 (lines 1-2):\n       a\r\n      -b\r\n      +B\r\n"
    );
    let last = FileReview::new("a", "b");
    assert_eq!(
        last.render_section(0).plain_text(),
        "\n    ─── Section 1/1 (lines 1-1):\n      -a\n      +b\n"
    );
}
