use wpdiff::cli::{sort_out_scan, FilterArgs, ScanEntry};
use wpdiff::content::{count_changes, make_unified_diff, prepare_content};
use wpdiff::diff::CategorySet;
use wpdiff::model::{CategoryTally, DiffResult, DiffSummary, FileCategory, FileDiff, FileStatus, SkippedDirs};
use wpdiff::review::{FileReview, SectionChoice};
use wpdiff::source::{plugin_info_from_reply, strip_top_dir, InfoReply};
use wpdiff::tree::{diff_directories, DirListing};
use wpdiff::upgrade::{tally_outcomes, FileOutcome};

fn listing(files: &[(&str, &str)]) -> DirListing {
    let mut l = DirListing::new();
    for (p, c) in files {
        l.add_file(p.to_string(), c.to_string());
    }
    l
}

fn no_filters() -> FilterArgs {
    FilterArgs {
        include_artifacts: false,
        include_assets: false,
        include_all: false,
        exclude: vec![],
        json: false,
    }
}

#[test]
fn identical_trees_have_no_differences() {
    let l = listing(&[("a.php", "<?php echo 1;\n"), ("readme.txt", "hello\n")]);
    let r = diff_directories(&l, &l, "demo", "1.0", false);
    assert!(r.files.is_empty());
    assert_eq!(r.summary.unchanged, 2);
    assert_eq!((r.summary.added, r.summary.removed, r.summary.modified), (0, 0, 0));
}

#[test]
fn statuses_follow_presence_and_add_up() {
    let local = listing(&[("a.php", "x\n"), ("b.php", "new\n")]);
    let upstream = listing(&[("a.php", "y\n"), ("c.php", "gone\n")]);
    let r = diff_directories(&local, &upstream, "demo", "1.0", true);
    let paths: Vec<&str> = r.files.iter().map(|f| f.path.as_str()).collect();
    assert_eq!(paths, vec!["a.php", "b.php", "c.php"]);
    assert_eq!(r.files[0].status, FileStatus::Modified);
    assert_eq!(r.files[1].status, FileStatus::Added);
    assert_eq!(r.files[2].status, FileStatus::Removed);
    assert_eq!(r.summary.added + r.summary.removed + r.summary.modified, r.files.len());
    assert_eq!(r.summary.unchanged, 0);
}

#[test]
fn filtering_twice_is_filtering_once() {
    let local = listing(&[("a.php", "x\n"), ("app.min.js", "1"), ("logo.png", "p"), ("vendor/x.php", "v")]);
    let upstream = listing(&[]);
    let r = diff_directories(&local, &upstream, "demo", "1.0", true);
    let mut cats = CategorySet::new();
    cats.insert(FileCategory::Source);
    cats.insert(FileCategory::Asset);
    let pats = vec!["vendor".to_string()];
    let once = r.apply(&cats, &pats);
    let twice = once.apply(&cats, &pats);
    let p1: Vec<&str> = once.files.iter().map(|f| f.path.as_str()).collect();
    let p2: Vec<&str> = twice.files.iter().map(|f| f.path.as_str()).collect();
    assert_eq!(p1, vec!["a.php", "logo.png"]);
    assert_eq!(p1, p2);
    assert_eq!(twice.summary.added, 2);
}

#[test]
fn every_category_and_no_pattern_keeps_all() {
    let local = listing(&[("a.php", "x\n"), ("app.min.js", "1"), ("logo.png", "p")]);
    let r = diff_directories(&local, &listing(&[]), "demo", "1.0", true);
    let mut cats = CategorySet::new();
    for c in [FileCategory::Source, FileCategory::Artifact, FileCategory::Asset, FileCategory::Metadata] {
        cats.insert(c);
    }
    assert_eq!(r.apply(&cats, &[]).files.len(), r.files.len());
}

#[test]
fn archive_entries_are_relative_to_the_top_directory() {
    assert_eq!(strip_top_dir("my-plugin/inc/a.php"), "inc/a.php");
    assert_eq!(strip_top_dir("my-plugin/"), "");
}

#[test]
fn versions_are_ordered_and_trunk_is_dropped() {
    let reply = InfoReply {
        has_error: false,
        name: Some("Demo".to_string()),
        version: Some("1.10".to_string()),
        version_keys: ["1.10", "1.2", "trunk", "1.9.1", "beta", "1.2"]
            .iter()
            .map(|s| s.to_string())
            .collect(),
    };
    let info = plugin_info_from_reply("demo", &reply).unwrap();
    assert_eq!(info.versions, vec!["beta", "1.2", "1.2", "1.9.1", "1.10"]);
    assert!(!info.versions.iter().any(|v| v == "trunk"));
}

#[test]
fn choosing_upstream_everywhere_gives_upstream() {
    let up = "a\nb\nc\nd\n";
    let patched = "a\nB\nc\nd\nE\n";
    let review = FileReview::new(up, patched);
    let choices = vec![SectionChoice::Upstream; review.section_count()];
    assert_eq!(review.resolve(&choices).unwrap(), up);
}

#[test]
fn scan_is_sorted_by_slug_ignoring_case_and_partitioned() {
    let local = listing(&[("a.php", "x\n")]);
    let changed = diff_directories(&local, &listing(&[("a.php", "y\n")]), "Zeta", "1.0", true);
    let clean = diff_directories(&local, &local, "alpha", "1.0", true);
    let entries = vec![
        ScanEntry { slug: "Zeta".to_string(), outcome: Ok(changed) },
        ScanEntry { slug: "beta".to_string(), outcome: Err("not on wordpress.org".to_string()) },
        ScanEntry { slug: "alpha".to_string(), outcome: Ok(clean) },
    ];
    let report = sort_out_scan(entries, &no_filters());
    assert_eq!(report.diffs.len() + report.clean + report.unmatched.len(), 3);
    assert_eq!(report.clean, 1);
    assert_eq!(report.unmatched[0].slug, "beta");
    assert_eq!(report.diffs[0].plugin_slug, "Zeta");
}

#[test]
fn line_endings_do_not_matter_unless_strict() {
    assert_eq!(prepare_content("a\r\nb\r\n", false), prepare_content("a\nb\n", false));
    assert_ne!(prepare_content("a\r\nb\r\n", true), prepare_content("a\nb\n", true));
}

#[test]
fn equal_contents_have_no_changes() {
    let d = make_unified_diff("same\n", "same\n", "a/x", "b/x");
    assert_eq!(d, "");
    assert_eq!(count_changes(&d), (0, 0));
}

#[test]
fn every_patched_file_is_exact_fuzzy_or_failed() {
    let outcomes = vec![
        FileOutcome::Applied { failed_hunks: 0, fuzzy_hunks: 0 },
        FileOutcome::Applied { failed_hunks: 0, fuzzy_hunks: 2 },
        FileOutcome::Applied { failed_hunks: 1, fuzzy_hunks: 1 },
        FileOutcome::Failed,
    ];
    let t = tally_outcomes(&outcomes);
    assert_eq!((t.exact, t.fuzzy, t.failed), (1, 1, 2));
    assert_eq!(t.exact + t.fuzzy + t.failed, outcomes.len());
    assert!(!t.clean);
    assert!(t.conflicts);
}

#[test]
fn diffstat_bars_fit_the_width() {
    let file = |path: &str, status, ins, del| FileDiff {
        path: path.to_string(),
        status,
        category: FileCategory::Source,
        insertions: ins,
        deletions: del,
        diff_text: String::new(),
    };
    let result = DiffResult {
        plugin_slug: "demo".to_string(),
        plugin_version: "1.0".to_string(),
        latest_version: None,
        files: vec![file("a.php", FileStatus::Modified, 10, 5), file("b.php", FileStatus::Added, 20, 0)],
        skipped_dirs: SkippedDirs { local: vec![], upstream: vec![] },
        summary: DiffSummary { added: 1, removed: 0, modified: 1, unchanged: 0, by_category: CategoryTally::new() },
    };
    let out = wpdiff::summary::render_summary_at_width(&result, 40).plain_text();
    assert!(out.contains(&format!(" ~ a.php | 15 {}{}\n", "+".repeat(12), "-".repeat(7))));
    assert!(out.contains(&format!(" + b.php | 20 {}\n", "+".repeat(26))));
    assert!(out.contains(" 2 files changed, 30 insertions(+), 5 deletions(-)\n"));
}

#[test]
fn layout_does_not_matter_unless_strict() {
    let plain = "a\nb\n\nc";
    let relaid = "a  \r\nb\t\r\r\nc \t";
    assert_eq!(prepare_content(relaid, false), prepare_content(plain, false));
    assert_eq!(prepare_content(relaid, false), "a\nb\n\nc");
    assert_ne!(prepare_content(relaid, true), prepare_content(plain, true));
}

#[test]
fn normalized_text_has_no_cr_and_no_trailing_blanks() {
    let n = prepare_content("x \r y\t\r\n\u{a0}z  \n", false);
    assert_eq!(n, "x\n y\n\u{a0}z");
    assert!(!n.contains('\r'));
    assert!(n.split('\n').all(|seg| seg.trim_end() == seg));
}

#[test]
fn relaid_trees_compare_the_same() {
    let local = listing(&[("a.php", "<?php\r\necho 1;  \r\n"), ("b.txt", "x\ry\t")]);
    let upstream = listing(&[("a.php", "<?php\necho 1;\n"), ("b.txt", "x\ny")]);
    let r = diff_directories(&local, &upstream, "demo", "1.0", false);
    assert!(r.files.is_empty());
    assert_eq!(r.summary.unchanged, 2);
}

#[test]
fn every_path_is_listed_or_unchanged() {
    let local = listing(&[("a.php", "x\n"), ("b.php", "new\n"), ("d.php", "same\n")]);
    let upstream = listing(&[("a.php", "y\n"), ("c.php", "gone\n"), ("d.php", "same\n")]);
    let r = diff_directories(&local, &upstream, "demo", "1.0", true);
    assert_eq!(r.files.len() + r.summary.unchanged, 4);
    assert_eq!((r.summary.added, r.summary.removed, r.summary.modified, r.summary.unchanged), (1, 1, 1, 1));
}

#[test]
fn added_files_delete_nothing_and_removed_files_insert_nothing() {
    let local = listing(&[("a.php", "x\n"), ("b.php", "-new\n--x\n")]);
    let upstream = listing(&[("a.php", "y\n"), ("c.php", "+gone\n++y\n")]);
    let r = diff_directories(&local, &upstream, "demo", "1.0", true);
    assert_eq!(r.files[1].status, FileStatus::Added);
    assert_eq!((r.files[1].insertions, r.files[1].deletions), (2, 0));
    assert_eq!(r.files[2].status, FileStatus::Removed);
    assert_eq!((r.files[2].insertions, r.files[2].deletions), (0, 2));
}

#[test]
fn keeping_ours_everywhere_gives_patched() {
    let up = "1\n2\n3\n4\n5\n6\n7\n8\n9\n10\n11\n12\n13\n14\n";
    let patched = "1\nTWO\n3\n4\n5\n6\n7\n8\n9\n10\n11\n12\nnew\n13\n14\n";
    let review = FileReview::new(up, patched);
    assert_eq!(review.section_count(), 2);
    let ours = vec![SectionChoice::Ours; review.section_count()];
    assert_eq!(review.resolve(&ours).unwrap(), patched);
    let crlf = FileReview::new("a\r\nb\r\n", "a\r\nB\r\n");
    assert_eq!(crlf.resolve(&vec![SectionChoice::Ours]).unwrap(), "a\nB\n");
}

#[test]
fn every_common_file_that_differs_is_listed_modified() {
    let local = listing(&[("a.php", "x\r\n"), ("b.php", "same\n"), ("c.php", "one\n")]);
    let upstream = listing(&[("a.php", "x\n"), ("b.php", "same\n"), ("c.php", "two\n")]);
    let strict = diff_directories(&local, &upstream, "demo", "1.0", true);
    let paths: Vec<(&str, FileStatus)> = strict.files.iter().map(|f| (f.path.as_str(), f.status)).collect();
    assert_eq!(paths, vec![("a.php", FileStatus::Modified), ("c.php", FileStatus::Modified)]);
    let loose = diff_directories(&local, &upstream, "demo", "1.0", false);
    let paths: Vec<(&str, FileStatus)> = loose.files.iter().map(|f| (f.path.as_str(), f.status)).collect();
    assert_eq!(paths, vec![("c.php", FileStatus::Modified)]);
}

#[test]
fn listed_diffs_begin_with_their_headers() {
    let local = listing(&[("a.php", "x\n"), ("b.php", "new\n")]);
    let upstream = listing(&[("a.php", "y\n"), ("c.php", "gone\n")]);
    let r = diff_directories(&local, &upstream, "demo", "1.0", true);
    for f in &r.files {
        assert!(f.diff_text.starts_with(&format!("--- a/{}\n+++ b/{}\n", f.path, f.path)));
    }
}
