//! Rendering a comparison for the terminal: the full diff view, the per-file
//! summary, the table over many plugins, and the plain unified patch.

use vstd::prelude::*;
use crate::content::{is_deletion_line, is_insertion_line};
use crate::model::{file_views, DiffResult, FileCategory, FileDiff, FileDiffView, FileStatus};
use crate::diff::{count_status, summary_matches};
use crate::styled::{
    bold, bold_dimmed, colored, colored_bold, dimmed, flatten, lemma_flatten_append,
    lemma_flatten_one, pl, plain, sp, Color, SpanView, Style, StyledText,
};
use crate::text::{
    chars_of, decimal, decimal_chars, extend_chars, lines, split_lines, starts_with,
    starts_with_chars, string_views,
};

verus! {

// ---------------------------------------------------------------------------
// Version hint
// ---------------------------------------------------------------------------

/// ` (latest: vX)` when a newer upstream version than the installed one is known.
pub open spec fn version_hint(r: DiffResult) -> Seq<SpanView> {
    match r.latest_version {
        Some(lv) => if lv@ != r.plugin_version@ {
            pl(" (latest: "@) + sp(seq!['v'] + lv@, colored(Color::Green)) + pl(")"@)
        } else {
            seq![]
        },
        None => seq![],
    }
}

/// The hint that names the latest upstream version, when it differs from the
/// installed one; nothing otherwise.
pub fn format_version_hint(result: &DiffResult) -> (t: StyledText)
    ensures
        t@ == version_hint(*result),
{
    let mut t = StyledText::new();
    match &result.latest_version {
        Some(lv) => {
            if !(*lv == result.plugin_version) {
                t.push_plain(" (latest: ");
                let mut v: Vec<char> = vec!['v'];
                extend_chars(&mut v, &chars_of(lv.as_str()));
                assert(v@ =~= seq!['v'] + lv@);
                t.push_chars(&v, Style::new_colored(Color::Green));
                t.push_plain(")");
                assert(t@ =~= version_hint(*result));
            }
        },
        None => {},
    }
    t
}

// ---------------------------------------------------------------------------
// Colored diff
// ---------------------------------------------------------------------------

/// One line of a diff with its color: insertions green, deletions red, hunk headers
/// cyan, other lines unstyled; each line after the indent and followed by a newline.
pub open spec fn diff_line_spans(l: Seq<char>, indent: Seq<char>) -> Seq<SpanView> {
    if is_insertion_line(l) {
        pl(indent) + sp(l, colored(Color::Green)) + pl(seq!['\n'])
    } else if is_deletion_line(l) {
        pl(indent) + sp(l, colored(Color::Red)) + pl(seq!['\n'])
    } else if starts_with(l, seq!['@', '@']) {
        pl(indent) + sp(l, colored(Color::Cyan)) + pl(seq!['\n'])
    } else {
        pl(indent + l + seq!['\n'])
    }
}

/// The colored lines, in order.
pub open spec fn diff_lines_spans(ls: Seq<Seq<char>>, indent: Seq<char>) -> Seq<SpanView>
    decreases ls.len(),
{
    if ls.len() == 0 {
        seq![]
    } else {
        diff_lines_spans(ls.drop_last(), indent) + diff_line_spans(ls.last(), indent)
    }
}

/// A diff with each of its lines colored.
pub open spec fn colored_diff(d: Seq<char>, indent: Seq<char>) -> Seq<SpanView> {
    diff_lines_spans(lines(d), indent)
}

/// The diff text with its lines colored by kind, each line after `indent`.
pub fn write_colored_diff(diff_text: &str, indent: &str) -> (t: StyledText)
    ensures
        t@ == colored_diff(diff_text@, indent@),
{
    let v = chars_of(diff_text);
    let ind = chars_of(indent);
    let ls = split_lines(&v);
    let ghost sl = crate::text::views(ls@);
    let plus: Vec<char> = vec!['+'];
    let plus3: Vec<char> = vec!['+', '+', '+'];
    let minus: Vec<char> = vec!['-'];
    let minus3: Vec<char> = vec!['-', '-', '-'];
    let at2: Vec<char> = vec!['@', '@'];
    let nl: Vec<char> = vec!['\n'];
    let mut t = StyledText::new();
    let mut i: usize = 0;
    while i < ls.len()
        invariant
            i <= ls.len(),
            sl == crate::text::views(ls@),
            sl == lines(diff_text@),
            ind@ == indent@,
            plus@ == seq!['+'],
            plus3@ == seq!['+', '+', '+'],
            minus@ == seq!['-'],
            minus3@ == seq!['-', '-', '-'],
            at2@ == seq!['@', '@'],
            nl@ == seq!['\n'],
            t@ == diff_lines_spans(sl.take(i as int), indent@),
        decreases ls.len() - i,
    {
        proof {
            assert(sl.take(i + 1).drop_last() =~= sl.take(i as int));
            assert(sl.take(i + 1).last() == ls@[i as int]@);
        }
        let line = &ls[i];
        let ghost before = t@;
        if starts_with_chars(line, &plus) && !starts_with_chars(line, &plus3) {
            t.push_chars(&ind, Style::new_plain());
            t.push_chars(line, Style::new_colored(Color::Green));
            t.push_chars(&nl, Style::new_plain());
        } else if starts_with_chars(line, &minus) && !starts_with_chars(line, &minus3) {
            t.push_chars(&ind, Style::new_plain());
            t.push_chars(line, Style::new_colored(Color::Red));
            t.push_chars(&nl, Style::new_plain());
        } else if starts_with_chars(line, &at2) {
            t.push_chars(&ind, Style::new_plain());
            t.push_chars(line, Style::new_colored(Color::Cyan));
            t.push_chars(&nl, Style::new_plain());
        } else {
            let mut whole = ind.clone();
            extend_chars(&mut whole, line);
            extend_chars(&mut whole, &nl);
            t.push_chars(&whole, Style::new_plain());
        }
        assert(t@ =~= before + diff_line_spans(line@, indent@));
        i += 1;
    }
    assert(sl.take(ls.len() as int) =~= sl);
    t
}

// ---------------------------------------------------------------------------
// Unified patch
// ---------------------------------------------------------------------------

/// The diff texts of the files, concatenated in order.
pub open spec fn concat_diffs(fs: Seq<FileDiffView>) -> Seq<char>
    decreases fs.len(),
{
    if fs.len() == 0 {
        seq![]
    } else {
        concat_diffs(fs.drop_last()) + fs.last().diff_text
    }
}

/// The unified diffs of all files, one after the other, as a patch.
pub fn render_unified(result: &DiffResult) -> (s: String)
    ensures
        s@ == concat_diffs(file_views(result.files@)),
{
    let ghost fv = file_views(result.files@);
    let mut v: Vec<char> = Vec::new();
    let mut i: usize = 0;
    while i < result.files.len()
        invariant
            i <= result.files.len(),
            fv == file_views(result.files@),
            v@ == concat_diffs(fv.take(i as int)),
        decreases result.files.len() - i,
    {
        proof {
            assert(fv.take(i + 1).drop_last() =~= fv.take(i as int));
            assert(fv.take(i + 1).last() == result.files@[i as int]@);
        }
        if !result.files[i].diff_text.as_str().is_empty() {
            extend_chars(&mut v, &chars_of(result.files[i].diff_text.as_str()));
        } else {
            assert(v@ =~= v@ + result.files@[i as int].diff_text@);
        }
        i += 1;
    }
    assert(fv.take(result.files.len() as int) =~= fv);
    crate::text::string_from_chars(&v)
}

// ---------------------------------------------------------------------------
// Skipped directories
// ---------------------------------------------------------------------------

/// The lines of directories skipped on both sides.
pub open spec fn both_lines(local: Seq<Seq<char>>, upstream: Seq<Seq<char>>) -> Seq<SpanView>
    decreases local.len(),
{
    if local.len() == 0 {
        seq![]
    } else {
        both_lines(local.drop_last(), upstream) + if upstream.contains(local.last()) {
            pl("  "@) + sp("="@, dimmed()) + pl(seq![' '] + local.last() + "/\n"@)
        } else {
            seq![]
        }
    }
}

/// The lines of directories skipped on one side only, with the side's marker and note.
pub open spec fn one_side_lines(
    dirs: Seq<Seq<char>>,
    other: Seq<Seq<char>>,
    marker: Seq<SpanView>,
    note: Seq<char>,
) -> Seq<SpanView>
    decreases dirs.len(),
{
    if dirs.len() == 0 {
        seq![]
    } else {
        one_side_lines(dirs.drop_last(), other, marker, note) + if !other.contains(dirs.last()) {
            pl("  "@) + marker + pl(seq![' '] + dirs.last() + "/ "@) + sp(note, dimmed()) + pl(
                seq!['\n'],
            )
        } else {
            seq![]
        }
    }
}

/// The section on skipped directories: none when nothing was skipped; otherwise a
/// heading, the directories skipped on both sides, those skipped only locally, those
/// skipped only upstream, and a blank line.
pub open spec fn skipped_section(local: Seq<Seq<char>>, upstream: Seq<Seq<char>>) -> Seq<
    SpanView,
> {
    if local.len() == 0 && upstream.len() == 0 {
        seq![]
    } else {
        sp("\u{2500}\u{2500} Skipped Directories \u{2500}\u{2500}"@, bold_dimmed()) + pl(
            seq!['\n'],
        ) + both_lines(local, upstream) + one_side_lines(
            local,
            upstream,
            sp("+"@, colored_bold(Color::Green)),
            "(local only)"@,
        ) + one_side_lines(
            upstream,
            local,
            sp("-"@, colored_bold(Color::Red)),
            "(upstream only)"@,
        ) + pl(seq!['\n'])
    }
}

fn contains_string(v: &Vec<String>, s: &String) -> (b: bool)
    ensures
        b == string_views(v@).contains(s@),
{
    let mut i: usize = 0;
    while i < v.len()
        invariant
            i <= v.len(),
            forall|k: int| 0 <= k < i ==> v@[k]@ != s@,
        decreases v.len() - i,
    {
        if v[i] == *s {
            assert(string_views(v@)[i as int] == s@);
            return true;
        }
        i += 1;
    }
    assert forall|k: int| 0 <= k < string_views(v@).len() implies string_views(v@)[k] != s@ by {
        assert(string_views(v@)[k] == v@[k]@);
    }
    false
}

fn push_dir_line(t: &mut StyledText, dir: &String, suffix: &str)
    ensures
        final(t)@ == old(t)@ + pl(seq![' '] + dir@ + suffix@),
{
    let mut v: Vec<char> = vec![' '];
    extend_chars(&mut v, &chars_of(dir.as_str()));
    extend_chars(&mut v, &chars_of(suffix));
    assert(v@ =~= seq![' '] + dir@ + suffix@);
    t.push_chars(&v, Style::new_plain());
}

fn both_lines_exec(local: &Vec<String>, upstream: &Vec<String>) -> (t: StyledText)
    ensures
        t@ == both_lines(string_views(local@), string_views(upstream@)),
{
    let ghost lv = string_views(local@);
    let ghost uv = string_views(upstream@);
    let mut t = StyledText::new();
    let mut i: usize = 0;
    while i < local.len()
        invariant
            i <= local.len(),
            lv == string_views(local@),
            uv == string_views(upstream@),
            t@ == both_lines(lv.take(i as int), uv),
        decreases local.len() - i,
    {
        proof {
            assert(lv.take(i + 1).drop_last() =~= lv.take(i as int));
            assert(lv.take(i + 1).last() == local@[i as int]@);
        }
        let ghost before = t@;
        if contains_string(upstream, &local[i]) {
            t.push_plain("  ");
            t.push_str("=", Style::new_dimmed());
            push_dir_line(&mut t, &local[i], "/\n");
        }
        assert(t@ =~= both_lines(lv.take(i + 1), uv));
        i += 1;
    }
    assert(lv.take(local.len() as int) =~= lv);
    t
}

fn one_side_exec(
    dirs: &Vec<String>,
    other: &Vec<String>,
    marker: &str,
    marker_style: Style,
    note: &str,
) -> (t: StyledText)
    ensures
        t@ == one_side_lines(
            string_views(dirs@),
            string_views(other@),
            sp(marker@, marker_style),
            note@,
        ),
{
    let ghost dv = string_views(dirs@);
    let ghost ov = string_views(other@);
    let ghost m = sp(marker@, marker_style);
    let mut t = StyledText::new();
    let mut i: usize = 0;
    while i < dirs.len()
        invariant
            i <= dirs.len(),
            dv == string_views(dirs@),
            ov == string_views(other@),
            m == sp(marker@, marker_style),
            t@ == one_side_lines(dv.take(i as int), ov, m, note@),
        decreases dirs.len() - i,
    {
        proof {
            assert(dv.take(i + 1).drop_last() =~= dv.take(i as int));
            assert(dv.take(i + 1).last() == dirs@[i as int]@);
        }
        let ghost before = t@;
        if !contains_string(other, &dirs[i]) {
            t.push_plain("  ");
            t.push_str(marker, marker_style);
            push_dir_line(&mut t, &dirs[i], "/ ");
            t.push_str(note, Style::new_dimmed());
            t.push_newline();
        }
        assert(t@ =~= one_side_lines(dv.take(i + 1), ov, m, note@));
        i += 1;
    }
    assert(dv.take(dirs.len() as int) =~= dv);
    t
}

/// The section on the directories skipped on each side.
pub fn render_skipped_dirs(result: &DiffResult) -> (t: StyledText)
    ensures
        t@ == skipped_section(
            string_views(result.skipped_dirs.local@),
            string_views(result.skipped_dirs.upstream@),
        ),
{
    let local = &result.skipped_dirs.local;
    let upstream = &result.skipped_dirs.upstream;
    let mut t = StyledText::new();
    if local.len() == 0 && upstream.len() == 0 {
        return t;
    }
    t.push_str("\u{2500}\u{2500} Skipped Directories \u{2500}\u{2500}", Style::new_bold_dimmed());
    t.push_newline();
    t.append(both_lines_exec(local, upstream));
    t.append(one_side_exec(local, upstream, "+", Style::new_colored_bold(Color::Green), "(local only)"));
    t.append(one_side_exec(upstream, local, "-", Style::new_colored_bold(Color::Red), "(upstream only)"));
    t.push_newline();
    t
}

// ---------------------------------------------------------------------------
// Full terminal view
// ---------------------------------------------------------------------------

/// The first line: plugin and version in bold, then the latest-version hint.
pub open spec fn title_spans(r: DiffResult) -> Seq<SpanView> {
    sp("wpdiff: "@ + r.plugin_slug@ + " v"@ + r.plugin_version@, bold()) + version_hint(r) + pl(
        seq!['\n'],
    )
}

/// The counts line, followed by a blank line.
pub open spec fn counts_spans(r: DiffResult) -> Seq<SpanView> {
    pl("  "@) + sp(decimal(r.summary.added as nat), colored(Color::Green)) + pl(" added, "@) + sp(
        decimal(r.summary.removed as nat),
        colored(Color::Red),
    ) + pl(" removed, "@) + sp(decimal(r.summary.modified as nat), colored(Color::Yellow)) + pl(
        " modified, "@,
    ) + pl(decimal(r.summary.unchanged as nat)) + pl(" unchanged\n\n"@)
}

/// The marker of a status: `+` green, `-` red, `~` yellow, all bold.
pub open spec fn status_marker(st: FileStatus) -> Seq<SpanView> {
    match st {
        FileStatus::Added => sp("+"@, colored_bold(Color::Green)),
        FileStatus::Removed => sp("-"@, colored_bold(Color::Red)),
        FileStatus::Modified => sp("~"@, colored_bold(Color::Yellow)),
    }
}

/// Some file has the category.
pub open spec fn has_category(fs: Seq<FileDiffView>, c: FileCategory) -> bool {
    exists|i: int| 0 <= i < fs.len() && fs[i].category == c
}

/// One line per file of the category: its status marker and its path.
pub open spec fn listing_lines(fs: Seq<FileDiffView>, c: FileCategory) -> Seq<SpanView>
    decreases fs.len(),
{
    if fs.len() == 0 {
        seq![]
    } else {
        listing_lines(fs.drop_last(), c) + if fs.last().category == c {
            pl("  "@) + status_marker(fs.last().status) + pl(seq![' '] + fs.last().path + seq!['\n'])
        } else {
            seq![]
        }
    }
}

/// The heading of a section.
pub open spec fn heading(label: Seq<char>) -> Seq<SpanView> {
    sp("\u{2500}\u{2500} "@ + label + " \u{2500}\u{2500}"@, bold_dimmed()) + pl(seq!['\n'])
}

/// The section listing the files of one category; none when there is no such file.
pub open spec fn category_section(fs: Seq<FileDiffView>, c: FileCategory, label: Seq<char>) -> Seq<
    SpanView,
> {
    if !has_category(fs, c) {
        seq![]
    } else {
        heading(label) + listing_lines(fs, c) + pl(seq!['\n'])
    }
}

/// For each file with a non-empty diff: a bold `diff <path>` line, the colored diff
/// and a blank line.
pub open spec fn diff_blocks(fs: Seq<FileDiffView>) -> Seq<SpanView>
    decreases fs.len(),
{
    if fs.len() == 0 {
        seq![]
    } else {
        diff_blocks(fs.drop_last()) + if fs.last().diff_text.len() == 0 {
            seq![]
        } else {
            sp("diff "@ + fs.last().path, bold()) + pl(seq!['\n']) + colored_diff(
                fs.last().diff_text,
                seq![],
            ) + pl(seq!['\n'])
        }
    }
}

/// The full terminal view of a comparison.
pub open spec fn terminal_view(r: DiffResult) -> Seq<SpanView> {
    let fs = file_views(r.files@);
    title_spans(r) + counts_spans(r) + skipped_section(
        string_views(r.skipped_dirs.local@),
        string_views(r.skipped_dirs.upstream@),
    ) + if fs.len() == 0 {
        sp("No differences found."@, colored_bold(Color::Green)) + pl(seq!['\n'])
    } else {
        category_section(fs, FileCategory::Source, "Source Files"@) + category_section(
            fs,
            FileCategory::Artifact,
            "Build Artifacts"@,
        ) + category_section(fs, FileCategory::Asset, "Assets"@) + category_section(
            fs,
            FileCategory::Metadata,
            "Metadata"@,
        ) + diff_blocks(fs)
    }
}

pub(crate) fn title_exec(result: &DiffResult) -> (t: StyledText)
    ensures
        t@ == title_spans(*result),
{
    let mut v = chars_of("wpdiff: ");
    extend_chars(&mut v, &chars_of(result.plugin_slug.as_str()));
    extend_chars(&mut v, &chars_of(" v"));
    extend_chars(&mut v, &chars_of(result.plugin_version.as_str()));
    assert(v@ =~= "wpdiff: "@ + result.plugin_slug@ + " v"@ + result.plugin_version@);
    let mut t = StyledText::new();
    t.push_chars(&v, Style::new_bold());
    t.append(format_version_hint(result));
    t.push_newline();
    t
}

fn counts_exec(result: &DiffResult) -> (t: StyledText)
    ensures
        t@ == counts_spans(*result),
{
    let mut t = StyledText::new();
    t.push_plain("  ");
    t.push_chars(&decimal_chars(result.summary.added), Style::new_colored(Color::Green));
    t.push_plain(" added, ");
    t.push_chars(&decimal_chars(result.summary.removed), Style::new_colored(Color::Red));
    t.push_plain(" removed, ");
    t.push_chars(&decimal_chars(result.summary.modified), Style::new_colored(Color::Yellow));
    t.push_plain(" modified, ");
    t.push_chars(&decimal_chars(result.summary.unchanged), Style::new_plain());
    t.push_plain(" unchanged\n\n");
    t
}

pub(crate) fn marker_exec(t: &mut StyledText, st: FileStatus)
    ensures
        final(t)@ == old(t)@ + status_marker(st),
{
    match st {
        FileStatus::Added => t.push_str("+", Style::new_colored_bold(Color::Green)),
        FileStatus::Removed => t.push_str("-", Style::new_colored_bold(Color::Red)),
        FileStatus::Modified => t.push_str("~", Style::new_colored_bold(Color::Yellow)),
    }
}

fn has_category_exec(files: &Vec<FileDiff>, c: FileCategory) -> (b: bool)
    ensures
        b == has_category(file_views(files@), c),
{
    let mut i: usize = 0;
    while i < files.len()
        invariant
            i <= files.len(),
            forall|k: int| 0 <= k < i ==> files@[k].category != c,
        decreases files.len() - i,
    {
        if files[i].category == c {
            assert(file_views(files@)[i as int].category == c);
            return true;
        }
        i += 1;
    }
    assert forall|k: int| 0 <= k < file_views(files@).len() implies file_views(files@)[k].category
        != c by {
        assert(file_views(files@)[k] == files@[k]@);
    }
    false
}

fn category_section_exec(files: &Vec<FileDiff>, c: FileCategory, label: &str) -> (t: StyledText)
    ensures
        t@ == category_section(file_views(files@), c, label@),
{
    let ghost fv = file_views(files@);
    let mut t = StyledText::new();
    if !has_category_exec(files, c) {
        return t;
    }
    let mut h = chars_of("\u{2500}\u{2500} ");
    extend_chars(&mut h, &chars_of(label));
    extend_chars(&mut h, &chars_of(" \u{2500}\u{2500}"));
    assert(h@ =~= "\u{2500}\u{2500} "@ + label@ + " \u{2500}\u{2500}"@);
    t.push_chars(&h, Style::new_bold_dimmed());
    t.push_newline();
    let ghost head = t@;
    let mut i: usize = 0;
    while i < files.len()
        invariant
            i <= files.len(),
            fv == file_views(files@),
            t@ == head + listing_lines(fv.take(i as int), c),
        decreases files.len() - i,
    {
        proof {
            assert(fv.take(i + 1).drop_last() =~= fv.take(i as int));
            assert(fv.take(i + 1).last() == files@[i as int]@);
        }
        let ghost before = t@;
        if files[i].category == c {
            t.push_plain("  ");
            marker_exec(&mut t, files[i].status);
            let mut v: Vec<char> = vec![' '];
            extend_chars(&mut v, &chars_of(files[i].path.as_str()));
            v.push('\n');
            assert(v@ =~= seq![' '] + files@[i as int].path@ + seq!['\n']);
            t.push_chars(&v, Style::new_plain());
        }
        assert(t@ =~= head + listing_lines(fv.take(i + 1), c));
        i += 1;
    }
    assert(fv.take(files.len() as int) =~= fv);
    t.push_newline();
    t
}

fn diff_blocks_exec(files: &Vec<FileDiff>) -> (t: StyledText)
    ensures
        t@ == diff_blocks(file_views(files@)),
{
    let ghost fv = file_views(files@);
    let mut t = StyledText::new();
    let empty = String::new();
    let mut i: usize = 0;
    while i < files.len()
        invariant
            i <= files.len(),
            fv == file_views(files@),
            empty@ == Seq::<char>::empty(),
            t@ == diff_blocks(fv.take(i as int)),
        decreases files.len() - i,
    {
        proof {
            assert(fv.take(i + 1).drop_last() =~= fv.take(i as int));
            assert(fv.take(i + 1).last() == files@[i as int]@);
        }
        let ghost before = t@;
        if !files[i].diff_text.as_str().is_empty() {
            let mut v = chars_of("diff ");
            extend_chars(&mut v, &chars_of(files[i].path.as_str()));
            assert(v@ =~= "diff "@ + files@[i as int].path@);
            t.push_chars(&v, Style::new_bold());
            t.push_newline();
            t.append(write_colored_diff(files[i].diff_text.as_str(), empty.as_str()));
            t.push_newline();
        }
        assert(t@ =~= diff_blocks(fv.take(i + 1)));
        i += 1;
    }
    assert(fv.take(files.len() as int) =~= fv);
    t
}

/// The full terminal view of a comparison: title, counts, skipped directories, the
/// files by category, and the colored diff of each file.
pub fn render_terminal(result: &DiffResult) -> (t: StyledText)
    ensures
        t@ == terminal_view(*result),
{
    let mut t = title_exec(result);
    t.append(counts_exec(result));
    t.append(render_skipped_dirs(result));
    if result.files.len() == 0 {
        t.push_str("No differences found.", Style::new_colored_bold(Color::Green));
        t.push_newline();
        return t;
    }
    t.append(category_section_exec(&result.files, FileCategory::Source, "Source Files"));
    t.append(category_section_exec(&result.files, FileCategory::Artifact, "Build Artifacts"));
    t.append(category_section_exec(&result.files, FileCategory::Asset, "Assets"));
    t.append(category_section_exec(&result.files, FileCategory::Metadata, "Metadata"));
    t.append(diff_blocks_exec(&result.files));
    t
}

/// The counts line gives the number of files listed as added before ` added` (in
/// green), of those listed as removed before ` removed` (in red), of those listed as
/// modified before ` modified`, and of the unchanged files before ` unchanged`.
pub proof fn lemma_counts_line_counts_files(r: DiffResult)
    requires
        summary_matches(r.summary, file_views(r.files@)),
    ensures
        flatten(counts_spans(r)) == "  "@ + decimal(
            count_status(file_views(r.files@), FileStatus::Added),
        ) + " added, "@ + decimal(count_status(file_views(r.files@), FileStatus::Removed))
            + " removed, "@ + decimal(count_status(file_views(r.files@), FileStatus::Modified))
            + " modified, "@ + decimal(r.summary.unchanged as nat) + " unchanged\n\n"@,
        counts_spans(r)[1] == (
            decimal(count_status(file_views(r.files@), FileStatus::Added)),
            colored(Color::Green),
        ),
        counts_spans(r)[3] == (
            decimal(count_status(file_views(r.files@), FileStatus::Removed)),
            colored(Color::Red),
        ),
{
    let p0 = seq![("  "@, plain())];
    lemma_flatten_one(("  "@, plain()));
    let p1 = seq![(decimal(r.summary.added as nat), colored(Color::Green))];
    lemma_flatten_one((decimal(r.summary.added as nat), colored(Color::Green)));
    let p2 = seq![(" added, "@, plain())];
    lemma_flatten_one((" added, "@, plain()));
    let p3 = seq![(decimal(r.summary.removed as nat), colored(Color::Red))];
    lemma_flatten_one((decimal(r.summary.removed as nat), colored(Color::Red)));
    let p4 = seq![(" removed, "@, plain())];
    lemma_flatten_one((" removed, "@, plain()));
    let p5 = seq![(decimal(r.summary.modified as nat), colored(Color::Yellow))];
    lemma_flatten_one((decimal(r.summary.modified as nat), colored(Color::Yellow)));
    let p6 = seq![(" modified, "@, plain())];
    lemma_flatten_one((" modified, "@, plain()));
    let p7 = seq![(decimal(r.summary.unchanged as nat), plain())];
    lemma_flatten_one((decimal(r.summary.unchanged as nat), plain()));
    let p8 = seq![(" unchanged\n\n"@, plain())];
    lemma_flatten_one((" unchanged\n\n"@, plain()));
    let a0 = p0;
    let a1 = a0 + p1;
    lemma_flatten_append(a0, p1);
    let a2 = a1 + p2;
    lemma_flatten_append(a1, p2);
    let a3 = a2 + p3;
    lemma_flatten_append(a2, p3);
    let a4 = a3 + p4;
    lemma_flatten_append(a3, p4);
    let a5 = a4 + p5;
    lemma_flatten_append(a4, p5);
    let a6 = a5 + p6;
    lemma_flatten_append(a5, p6);
    let a7 = a6 + p7;
    lemma_flatten_append(a6, p7);
    let a8 = a7 + p8;
    lemma_flatten_append(a7, p8);
    assert(counts_spans(r) == a8);
}

} // verus!
