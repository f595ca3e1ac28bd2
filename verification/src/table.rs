//! The summary table over many plugins: one row per plugin that has changes, a
//! totals row when there are several, and a closing count of plugins.

use vstd::prelude::*;
use vstd::utf8::encode_utf8;
use crate::diff::count_status;
use crate::model::{DiffResult, DiffResultView, FileDiff, FileDiffView, FileStatus};
use crate::styled::{
    bold, bold_underline, colored, dimmed, pl, sp, Color, SpanView, Style, StyledText,
};
use crate::text::{
    chars_of, decimal, decimal_chars, extend_chars, pad_end, pad_end_chars, pad_start,
    pad_start_chars, repeat, repeat_chars,
};

verus! {

// ---------------------------------------------------------------------------
// Sums and widths
// ---------------------------------------------------------------------------

/// The sum of the numbers.
pub open spec fn sum_nat(xs: Seq<nat>) -> nat
    decreases xs.len(),
{
    if xs.len() == 0 {
        0
    } else {
        sum_nat(xs.drop_last()) + xs.last()
    }
}

/// A prefix sums to no more than the whole.
pub proof fn lemma_sum_prefix(xs: Seq<nat>, i: int)
    requires
        0 <= i <= xs.len(),
    ensures
        sum_nat(xs.take(i)) <= sum_nat(xs),
    decreases xs.len() - i,
{
    if i < xs.len() {
        lemma_sum_prefix(xs, i + 1);
        assert(xs.take(i + 1).drop_last() =~= xs.take(i));
    } else {
        assert(xs.take(i) =~= xs);
    }
}

/// The lines inserted over all files of a result.
pub open spec fn insertions_of(r: DiffResultView) -> nat {
    sum_nat(r.files.map_values(|f: FileDiffView| f.insertions))
}

/// The lines deleted over all files of a result.
pub open spec fn deletions_of(r: DiffResultView) -> nat {
    sum_nat(r.files.map_values(|f: FileDiffView| f.deletions))
}

/// The number of bytes of a text in UTF-8, as `str::len` reports it.
pub open spec fn byte_len(s: Seq<char>) -> nat {
    (encode_utf8(s).len() as usize) as nat
}

/// The larger of two numbers.
pub open spec fn nmax(a: nat, b: nat) -> nat {
    if a >= b {
        a
    } else {
        b
    }
}

/// The longest plugin slug, in bytes.
pub open spec fn max_slug(rs: Seq<DiffResultView>) -> nat
    decreases rs.len(),
{
    if rs.len() == 0 {
        0
    } else {
        nmax(max_slug(rs.drop_last()), byte_len(rs.last().plugin_slug))
    }
}

/// The longest installed version with its `v`, in bytes.
pub open spec fn max_ver(rs: Seq<DiffResultView>) -> nat
    decreases rs.len(),
{
    if rs.len() == 0 {
        0
    } else {
        nmax(max_ver(rs.drop_last()), byte_len(rs.last().plugin_version) + 1)
    }
}

/// The longest known latest version with its `v`, in bytes.
pub open spec fn max_latest(rs: Seq<DiffResultView>) -> nat
    decreases rs.len(),
{
    if rs.len() == 0 {
        0
    } else {
        match rs.last().latest_version {
            Some(lv) => nmax(max_latest(rs.drop_last()), byte_len(lv) + 1),
            None => max_latest(rs.drop_last()),
        }
    }
}

/// A newer upstream version than the installed one is known.
pub open spec fn is_outdated(r: DiffResultView) -> bool {
    match r.latest_version {
        Some(lv) => lv != r.plugin_version,
        None => false,
    }
}

/// Some plugin is outdated.
pub open spec fn any_outdated(rs: Seq<DiffResultView>) -> bool {
    exists|i: int| 0 <= i < rs.len() && is_outdated(rs[i])
}

/// The widths of the table's text columns, and whether it has a latest-version column.
pub struct TableLayout {
    pub name_w: nat,
    pub ver_w: nat,
    pub lat_w: nat,
    pub latest: bool,
}

/// The layout of the table: name at least 6 wide, version at least 3, and a latest
/// column at least 6 wide when some plugin is outdated.
pub open spec fn layout(rs: Seq<DiffResultView>) -> TableLayout {
    TableLayout {
        name_w: nmax(6, max_slug(rs)),
        ver_w: nmax(3, max_ver(rs)),
        lat_w: if any_outdated(rs) {
            nmax(6, max_latest(rs))
        } else {
            0
        },
        latest: any_outdated(rs),
    }
}

// ---------------------------------------------------------------------------
// Spans
// ---------------------------------------------------------------------------

/// A count cell: the count with its prefix, right-aligned in its color, or a dimmed
/// `·` when the count is zero.
pub open spec fn cell(val: nat, w: nat, prefix: Seq<char>, c: Color) -> Seq<SpanView> {
    if val > 0 {
        sp(pad_start(prefix + decimal(val), w), colored(c))
    } else {
        sp(pad_start(seq!['\u{b7}'], w), dimmed())
    }
}

/// The five count cells of a row and the end of the line.
pub open spec fn count_cells(
    added: nat,
    removed: nat,
    modified: nat,
    ins: nat,
    del: nat,
) -> Seq<SpanView> {
    pl("  "@) + cell(added, 6, seq!['+'], Color::Green) + pl("  "@) + cell(
        removed,
        6,
        seq!['-'],
        Color::Red,
    ) + pl("  "@) + cell(modified, 5, seq![], Color::Yellow) + pl("  "@) + cell(
        ins,
        8,
        seq!['+'],
        Color::Green,
    ) + pl("  "@) + cell(del, 8, seq!['-'], Color::Red) + pl(seq!['\n'])
}

/// The header row, bold and underlined.
pub open spec fn header_row(l: TableLayout) -> Seq<SpanView> {
    pl(" "@) + sp(pad_end("Plugin"@, l.name_w), bold_underline()) + pl("  "@) + sp(
        pad_end("Ver"@, l.ver_w),
        bold_underline(),
    ) + (if l.latest {
        pl("  "@) + sp(pad_end("Latest"@, l.lat_w), bold_underline())
    } else {
        seq![]
    }) + pl("  "@) + sp(pad_start("Added"@, 6), bold_underline()) + pl("  "@) + sp(
        pad_start("Rm'd"@, 6),
        bold_underline(),
    ) + pl("  "@) + sp(pad_start("Mod"@, 5), bold_underline()) + pl("  "@) + sp(
        pad_start("Ins(+)"@, 8),
        bold_underline(),
    ) + pl("  "@) + sp(pad_start("Del(-)"@, 8), bold_underline()) + pl(seq!['\n'])
}

/// The latest-version cell of a row: the newer version in green, or a dimmed check mark.
pub open spec fn latest_cell(r: DiffResultView, l: TableLayout) -> Seq<SpanView> {
    if l.latest {
        pl("  "@) + match r.latest_version {
            Some(lv) => if lv != r.plugin_version {
                sp(pad_end(seq!['v'] + lv, l.lat_w), colored(Color::Green))
            } else {
                sp(pad_end(seq!['\u{2713}'], l.lat_w), dimmed())
            },
            None => sp(pad_end(seq!['\u{2713}'], l.lat_w), dimmed()),
        }
    } else {
        seq![]
    }
}

/// The row of one plugin.
pub open spec fn plugin_row(r: DiffResultView, l: TableLayout) -> Seq<SpanView> {
    pl(" "@) + sp(pad_end(r.plugin_slug, l.name_w), bold()) + pl("  "@) + sp(
        pad_end(seq!['v'] + r.plugin_version, l.ver_w),
        dimmed(),
    ) + latest_cell(r, l) + count_cells(
        r.added,
        r.removed,
        r.modified,
        insertions_of(r),
        deletions_of(r),
    )
}

/// The rows of the plugins, in order.
pub open spec fn plugin_rows(rs: Seq<DiffResultView>, l: TableLayout) -> Seq<SpanView>
    decreases rs.len(),
{
    if rs.len() == 0 {
        seq![]
    } else {
        plugin_rows(rs.drop_last(), l) + plugin_row(rs.last(), l)
    }
}

/// The rule above the totals.
pub open spec fn separator_row(l: TableLayout) -> Seq<SpanView> {
    pl(" "@) + sp(pad_end(seq![], l.name_w), dimmed()) + pl("  "@) + sp(
        pad_end(seq![], l.ver_w),
        dimmed(),
    ) + (if l.latest {
        pl("  "@) + sp(pad_end(repeat('\u{2500}', l.lat_w), l.lat_w), dimmed())
    } else {
        seq![]
    }) + pl("  "@) + sp(repeat('\u{2500}', 6), dimmed()) + pl("  "@) + sp(
        repeat('\u{2500}', 6),
        dimmed(),
    ) + pl("  "@) + sp(repeat('\u{2500}', 5), dimmed()) + pl("  "@) + sp(
        repeat('\u{2500}', 8),
        dimmed(),
    ) + pl("  "@) + sp(repeat('\u{2500}', 8), dimmed()) + pl(seq!['\n'])
}

/// The sum of one count over the plugins.
pub open spec fn total_added(rs: Seq<DiffResultView>) -> nat {
    sum_nat(rs.map_values(|r: DiffResultView| r.added))
}

/// The sum of one count over the plugins.
pub open spec fn total_removed(rs: Seq<DiffResultView>) -> nat {
    sum_nat(rs.map_values(|r: DiffResultView| r.removed))
}

/// The sum of one count over the plugins.
pub open spec fn total_modified(rs: Seq<DiffResultView>) -> nat {
    sum_nat(rs.map_values(|r: DiffResultView| r.modified))
}

/// The inserted lines over all plugins.
pub open spec fn total_insertions(rs: Seq<DiffResultView>) -> nat {
    sum_nat(rs.map_values(|r: DiffResultView| insertions_of(r)))
}

/// The deleted lines over all plugins.
pub open spec fn total_deletions(rs: Seq<DiffResultView>) -> nat {
    sum_nat(rs.map_values(|r: DiffResultView| deletions_of(r)))
}

/// The totals row.
pub open spec fn totals_row(rs: Seq<DiffResultView>, l: TableLayout) -> Seq<SpanView> {
    pl(" "@) + sp(pad_end("Total"@, l.name_w), bold()) + pl("  "@) + pl(pad_end(seq![], l.ver_w))
        + (if l.latest {
        pl(seq![' ', ' '] + pad_end(seq![], l.lat_w))
    } else {
        seq![]
    }) + count_cells(
        total_added(rs),
        total_removed(rs),
        total_modified(rs),
        total_insertions(rs),
        total_deletions(rs),
    )
}

/// The closing line: how many plugins were scanned, changed, unchanged and unmatched.
pub open spec fn footer(changed: nat, clean: nat, unmatched: nat) -> Seq<SpanView> {
    pl(seq!['\n']) + pl(" "@) + sp(decimal(changed + clean + unmatched), bold()) + pl(
        " plugins scanned: "@,
    ) + sp(decimal(changed), colored(Color::Yellow)) + pl(" changed, "@) + sp(
        decimal(clean),
        colored(Color::Green),
    ) + pl(" unchanged, "@) + (if unmatched > 0 {
        sp(decimal(unmatched), colored(Color::Red))
    } else {
        pl(decimal(unmatched))
    }) + pl(" unmatched\n"@)
}

/// The whole table; nothing at all when there is nothing to report.
pub open spec fn table_view(rs: Seq<DiffResultView>, clean: nat, unmatched: nat) -> Seq<SpanView> {
    if rs.len() == 0 && clean == 0 && unmatched == 0 {
        seq![]
    } else {
        header_row(layout(rs)) + plugin_rows(rs, layout(rs)) + (if rs.len() > 1 {
            separator_row(layout(rs)) + totals_row(rs, layout(rs))
        } else {
            seq![]
        }) + footer(rs.len(), clean, unmatched)
    }
}

/// The counts of the table fit in machine integers.
pub open spec fn table_fits(rs: Seq<DiffResultView>, clean: nat, unmatched: nat) -> bool {
    &&& total_added(rs) <= usize::MAX
    &&& total_removed(rs) <= usize::MAX
    &&& total_modified(rs) <= usize::MAX
    &&& total_insertions(rs) <= usize::MAX
    &&& total_deletions(rs) <= usize::MAX
    &&& rs.len() + clean + unmatched <= usize::MAX
    &&& forall|i: int| 0 <= i < rs.len() ==> byte_len(#[trigger] rs[i].plugin_version) < usize::MAX
    &&& forall|i: int|
        0 <= i < rs.len() ==> match #[trigger] rs[i].latest_version {
            Some(lv) => byte_len(lv) < usize::MAX,
            None => true,
        }
}

/// The views of the results.
pub open spec fn result_views(rs: Seq<DiffResult>) -> Seq<DiffResultView> {
    rs.map_values(|r: DiffResult| r@)
}

// ---------------------------------------------------------------------------
// Rendering
// ---------------------------------------------------------------------------

fn cell_exec(t: &mut StyledText, val: usize, w: usize, prefix: &Vec<char>, c: Color)
    ensures
        final(t)@ == old(t)@ + cell(val as nat, w as nat, prefix@, c),
{
    if val > 0 {
        let mut v = prefix.clone();
        extend_chars(&mut v, &decimal_chars(val));
        let p = pad_start_chars(&v, w);
        t.push_chars(&p, Style::new_colored(c));
    } else {
        let dot: Vec<char> = vec!['\u{b7}'];
        assert(dot@ =~= seq!['\u{b7}']);
        let p = pad_start_chars(&dot, w);
        t.push_chars(&p, Style::new_dimmed());
    }
}

/// A count cell in green: `prefix` and the count right-aligned to `width`, or a dimmed
/// `·` when the count is zero.
pub fn col_green(val: usize, width: usize, prefix: &str) -> (t: StyledText)
    ensures
        t@ == cell(val as nat, width as nat, prefix@, Color::Green),
{
    let mut t = StyledText::new();
    cell_exec(&mut t, val, width, &chars_of(prefix), Color::Green);
    t
}

/// A count cell in red: `prefix` and the count right-aligned to `width`, or a dimmed `·`
/// when the count is zero.
pub fn col_red(val: usize, width: usize, prefix: &str) -> (t: StyledText)
    ensures
        t@ == cell(val as nat, width as nat, prefix@, Color::Red),
{
    let mut t = StyledText::new();
    cell_exec(&mut t, val, width, &chars_of(prefix), Color::Red);
    t
}

/// A count cell in yellow: the count right-aligned to `width`, or a dimmed `·` when the
/// count is zero.
pub fn col_yellow(val: usize, width: usize) -> (t: StyledText)
    ensures
        t@ == cell(val as nat, width as nat, seq![], Color::Yellow),
{
    let mut t = StyledText::new();
    let none: Vec<char> = Vec::new();
    assert(none@ =~= Seq::<char>::empty());
    cell_exec(&mut t, val, width, &none, Color::Yellow);
    t
}

fn count_cells_exec(t: &mut StyledText, a: usize, r: usize, m: usize, ins: usize, del: usize)
    ensures
        final(t)@ == old(t)@ + count_cells(a as nat, r as nat, m as nat, ins as nat, del as nat),
{
    proof {
        reveal_strlit("+");
        reveal_strlit("-");
    }
    assert("+"@ =~= seq!['+']);
    assert("-"@ =~= seq!['-']);
    let ghost start = t@;
    t.push_plain("  ");
    t.append(col_green(a, 6, "+"));
    t.push_plain("  ");
    t.append(col_red(r, 6, "-"));
    t.push_plain("  ");
    t.append(col_yellow(m, 5));
    t.push_plain("  ");
    t.append(col_green(ins, 8, "+"));
    t.push_plain("  ");
    t.append(col_red(del, 8, "-"));
    t.push_newline();
    assert(t@ =~= start + count_cells(a as nat, r as nat, m as nat, ins as nat, del as nat));
}

fn padded_end(t: &mut StyledText, s: &str, w: usize, st: Style)
    ensures
        final(t)@ == old(t)@ + sp(pad_end(s@, w as nat), st),
{
    let p = pad_end_chars(&chars_of(s), w);
    t.push_chars(&p, st);
}

fn padded_start(t: &mut StyledText, s: &str, w: usize, st: Style)
    ensures
        final(t)@ == old(t)@ + sp(pad_start(s@, w as nat), st),
{
    let p = pad_start_chars(&chars_of(s), w);
    t.push_chars(&p, st);
}

fn header_exec(t: &mut StyledText, name_w: usize, ver_w: usize, lat_w: usize, latest: bool)
    ensures
        final(t)@ == old(t)@ + header_row(
            TableLayout { name_w: name_w as nat, ver_w: ver_w as nat, lat_w: lat_w as nat, latest },
        ),
{
    let bu = Style::new_bold_underline();
    t.push_plain(" ");
    padded_end(t, "Plugin", name_w, bu);
    t.push_plain("  ");
    padded_end(t, "Ver", ver_w, bu);
    if latest {
        t.push_plain("  ");
        padded_end(t, "Latest", lat_w, bu);
    }
    t.push_plain("  ");
    padded_start(t, "Added", 6, bu);
    t.push_plain("  ");
    padded_start(t, "Rm'd", 6, bu);
    t.push_plain("  ");
    padded_start(t, "Mod", 5, bu);
    t.push_plain("  ");
    padded_start(t, "Ins(+)", 8, bu);
    t.push_plain("  ");
    padded_start(t, "Del(-)", 8, bu);
    t.push_newline();
}

/// The inserted and deleted lines over the files of a result.
fn result_line_counts(r: &DiffResult) -> (c: (usize, usize))
    requires
        insertions_of(r@) <= usize::MAX,
        deletions_of(r@) <= usize::MAX,
    ensures
        c.0 == insertions_of(r@),
        c.1 == deletions_of(r@),
{
    sum_file_counts(&r.files)
}

/// The inserted and deleted lines over the files.
pub(crate) fn sum_file_counts(files: &Vec<FileDiff>) -> (c: (usize, usize))
    requires
        sum_nat(crate::model::file_views(files@).map_values(|f: FileDiffView| f.insertions))
            <= usize::MAX,
        sum_nat(crate::model::file_views(files@).map_values(|f: FileDiffView| f.deletions))
            <= usize::MAX,
    ensures
        c.0 == sum_nat(crate::model::file_views(files@).map_values(|f: FileDiffView| f.insertions)),
        c.1 == sum_nat(crate::model::file_views(files@).map_values(|f: FileDiffView| f.deletions)),
{
    let ghost fv = crate::model::file_views(files@);
    let ghost iq = fv.map_values(|f: FileDiffView| f.insertions);
    let ghost dq = fv.map_values(|f: FileDiffView| f.deletions);
    let mut ins: usize = 0;
    let mut del: usize = 0;
    let mut i: usize = 0;
    while i < files.len()
        invariant
            i <= files.len(),
            fv == crate::model::file_views(files@),
            iq == fv.map_values(|f: FileDiffView| f.insertions),
            dq == fv.map_values(|f: FileDiffView| f.deletions),
            iq.len() == files.len(),
            dq.len() == files.len(),
            sum_nat(iq) <= usize::MAX,
            sum_nat(dq) <= usize::MAX,
            ins == sum_nat(iq.take(i as int)),
            del == sum_nat(dq.take(i as int)),
        decreases files.len() - i,
    {
        proof {
            lemma_sum_prefix(iq, i + 1);
            lemma_sum_prefix(dq, i + 1);
            assert(iq.take(i + 1).drop_last() =~= iq.take(i as int));
            assert(dq.take(i + 1).drop_last() =~= dq.take(i as int));
            assert(iq[i as int] == files@[i as int].insertions);
            assert(dq[i as int] == files@[i as int].deletions);
        }
        ins = ins + files[i].insertions;
        del = del + files[i].deletions;
        i += 1;
    }
    assert(iq.take(files.len() as int) =~= iq);
    assert(dq.take(files.len() as int) =~= dq);
    (ins, del)
}

fn v_prefixed(s: &String) -> (v: Vec<char>)
    ensures
        v@ == seq!['v'] + s@,
{
    let mut v: Vec<char> = vec!['v'];
    extend_chars(&mut v, &chars_of(s.as_str()));
    assert(v@ =~= seq!['v'] + s@);
    v
}

fn latest_cell_exec(t: &mut StyledText, r: &DiffResult, lat_w: usize, latest: bool)
    ensures
        final(t)@ == old(t)@ + latest_cell(
            r@,
            TableLayout { name_w: 0, ver_w: 0, lat_w: lat_w as nat, latest },
        ),
{
    if !latest {
        return;
    }
    t.push_plain("  ");
    let check: Vec<char> = vec!['\u{2713}'];
    assert(check@ =~= seq!['\u{2713}']);
    match &r.latest_version {
        Some(lv) => {
            if !(*lv == r.plugin_version) {
                let p = pad_end_chars(&v_prefixed(lv), lat_w);
                t.push_chars(&p, Style::new_colored(Color::Green));
            } else {
                let p = pad_end_chars(&check, lat_w);
                t.push_chars(&p, Style::new_dimmed());
            }
        },
        None => {
            let p = pad_end_chars(&check, lat_w);
            t.push_chars(&p, Style::new_dimmed());
        },
    }
}

fn separator_exec(t: &mut StyledText, name_w: usize, ver_w: usize, lat_w: usize, latest: bool)
    ensures
        final(t)@ == old(t)@ + separator_row(
            TableLayout { name_w: name_w as nat, ver_w: ver_w as nat, lat_w: lat_w as nat, latest },
        ),
{
    let none: Vec<char> = Vec::new();
    assert(none@ =~= Seq::<char>::empty());
    let d = Style::new_dimmed();
    t.push_plain(" ");
    t.push_chars(&pad_end_chars(&none, name_w), d);
    t.push_plain("  ");
    t.push_chars(&pad_end_chars(&none, ver_w), d);
    if latest {
        t.push_plain("  ");
        t.push_chars(&pad_end_chars(&repeat_chars('\u{2500}', lat_w), lat_w), d);
    }
    t.push_plain("  ");
    t.push_chars(&repeat_chars('\u{2500}', 6), d);
    t.push_plain("  ");
    t.push_chars(&repeat_chars('\u{2500}', 6), d);
    t.push_plain("  ");
    t.push_chars(&repeat_chars('\u{2500}', 5), d);
    t.push_plain("  ");
    t.push_chars(&repeat_chars('\u{2500}', 8), d);
    t.push_plain("  ");
    t.push_chars(&repeat_chars('\u{2500}', 8), d);
    t.push_newline();
}

fn footer_exec(t: &mut StyledText, changed: usize, clean: usize, unmatched: usize)
    requires
        changed + clean + unmatched <= usize::MAX,
    ensures
        final(t)@ == old(t)@ + footer(changed as nat, clean as nat, unmatched as nat),
{
    t.push_newline();
    t.push_plain(" ");
    t.push_chars(&decimal_chars(changed + clean + unmatched), Style::new_bold());
    t.push_plain(" plugins scanned: ");
    t.push_chars(&decimal_chars(changed), Style::new_colored(Color::Yellow));
    t.push_plain(" changed, ");
    t.push_chars(&decimal_chars(clean), Style::new_colored(Color::Green));
    t.push_plain(" unchanged, ");
    if unmatched > 0 {
        t.push_chars(&decimal_chars(unmatched), Style::new_colored(Color::Red));
    } else {
        t.push_chars(&decimal_chars(unmatched), Style::new_plain());
    }
    t.push_plain(" unmatched\n");
}

/// The layout of the table, computed.
fn layout_exec(results: &[DiffResult]) -> (l: (usize, usize, usize, bool))
    requires
        forall|i: int|
            0 <= i < results@.len() ==> byte_len(#[trigger] results@[i]@.plugin_version)
                < usize::MAX,
        forall|i: int|
            0 <= i < results@.len() ==> match #[trigger] results@[i]@.latest_version {
                Some(lv) => byte_len(lv) < usize::MAX,
                None => true,
            },
    ensures
        l.0 == layout(result_views(results@)).name_w,
        l.1 == layout(result_views(results@)).ver_w,
        l.2 == layout(result_views(results@)).lat_w,
        l.3 == layout(result_views(results@)).latest,
{
    let ghost rv = result_views(results@);
    let mut ms: usize = 0;
    let mut mv: usize = 0;
    let mut ml: usize = 0;
    let mut any = false;
    let mut i: usize = 0;
    while i < results.len()
        invariant
            i <= results.len(),
            rv == result_views(results@),
            rv.len() == results.len(),
            forall|k: int|
                0 <= k < results@.len() ==> byte_len(#[trigger] results@[k]@.plugin_version)
                    < usize::MAX,
            forall|k: int|
                0 <= k < results@.len() ==> match #[trigger] results@[k]@.latest_version {
                    Some(lv) => byte_len(lv) < usize::MAX,
                    None => true,
                },
            ms == max_slug(rv.take(i as int)),
            mv == max_ver(rv.take(i as int)),
            ml == max_latest(rv.take(i as int)),
            any == any_outdated(rv.take(i as int)),
        decreases results.len() - i,
    {
        let r = &results[i];
        proof {
            assert(rv.take(i + 1).drop_last() =~= rv.take(i as int));
            assert(rv.take(i + 1).last() == r@);
            assert(rv[i as int] == results@[i as int]@);
        }
        let sl = r.plugin_slug.as_str().len();
        if sl > ms {
            ms = sl;
        }
        let vlen = r.plugin_version.as_str().len();
        assert(vlen as nat == byte_len(results@[i as int]@.plugin_version));
        let vl = vlen + 1;
        if vl > mv {
            mv = vl;
        }
        let mut outdated = false;
        match &r.latest_version {
            Some(lv) => {
                let llen = lv.as_str().len();
                assert(llen as nat == byte_len(lv@));
                assert(results@[i as int]@.latest_version == Some(lv@));
                let ll = llen + 1;
                if ll > ml {
                    ml = ll;
                }
                outdated = !(*lv == r.plugin_version);
            },
            None => {},
        }
        proof {
            let p = rv.take(i as int);
            let q = rv.take(i + 1);
            if outdated {
                assert(is_outdated(q[i as int]));
            }
            if any {
                let k = choose|k: int| 0 <= k < p.len() && is_outdated(p[k]);
                assert(q[k] == p[k]);
            }
            if any_outdated(q) {
                let k = choose|k: int| 0 <= k < q.len() && is_outdated(q[k]);
                if k < i {
                    assert(p[k] == q[k]);
                }
            }
        }
        any = any || outdated;
        i += 1;
    }
    assert(rv.take(results.len() as int) =~= rv);
    let name_w = if ms >= 6 { ms } else { 6 };
    let ver_w = if mv >= 3 { mv } else { 3 };
    let lat_w = if any {
        if ml >= 6 { ml } else { 6 }
    } else {
        0
    };
    (name_w, ver_w, lat_w, any)
}

fn row_exec(
    t: &mut StyledText,
    r: &DiffResult,
    name_w: usize,
    ver_w: usize,
    lat_w: usize,
    latest: bool,
    ins: usize,
    del: usize,
)
    requires
        ins == insertions_of(r@),
        del == deletions_of(r@),
    ensures
        final(t)@ == old(t)@ + plugin_row(
            r@,
            TableLayout { name_w: name_w as nat, ver_w: ver_w as nat, lat_w: lat_w as nat, latest },
        ),
{
    t.push_plain(" ");
    let sl = pad_end_chars(&chars_of(r.plugin_slug.as_str()), name_w);
    t.push_chars(&sl, Style::new_bold());
    t.push_plain("  ");
    let vl = pad_end_chars(&v_prefixed(&r.plugin_version), ver_w);
    t.push_chars(&vl, Style::new_dimmed());
    latest_cell_exec(t, r, lat_w, latest);
    count_cells_exec(t, r.summary.added, r.summary.removed, r.summary.modified, ins, del);
}

fn totals_exec(
    t: &mut StyledText,
    Ghost(rv): Ghost<Seq<DiffResultView>>,
    name_w: usize,
    ver_w: usize,
    lat_w: usize,
    latest: bool,
    ta: usize,
    tr: usize,
    tm: usize,
    ti: usize,
    td: usize,
)
    requires
        ta == total_added(rv),
        tr == total_removed(rv),
        tm == total_modified(rv),
        ti == total_insertions(rv),
        td == total_deletions(rv),
    ensures
        final(t)@ == old(t)@ + separator_row(
            TableLayout { name_w: name_w as nat, ver_w: ver_w as nat, lat_w: lat_w as nat, latest },
        ) + totals_row(
            rv,
            TableLayout { name_w: name_w as nat, ver_w: ver_w as nat, lat_w: lat_w as nat, latest },
        ),
{
    separator_exec(t, name_w, ver_w, lat_w, latest);
    t.push_plain(" ");
    padded_end(t, "Total", name_w, Style::new_bold());
    t.push_plain("  ");
    let none: Vec<char> = Vec::new();
    assert(none@ =~= Seq::<char>::empty());
    t.push_chars(&pad_end_chars(&none, ver_w), Style::new_plain());
    if latest {
        let mut sp2: Vec<char> = vec![' ', ' '];
        extend_chars(&mut sp2, &pad_end_chars(&none, lat_w));
        assert(sp2@ =~= seq![' ', ' '] + pad_end(Seq::<char>::empty(), lat_w as nat));
        t.push_chars(&sp2, Style::new_plain());
    }
    count_cells_exec(t, ta, tr, tm, ti, td);
}

/// The summary table over the given plugins' results, followed by the count of plugins
/// scanned; empty when there are no results, no unchanged and no unmatched plugins.
#[verifier::rlimit(40)]
pub fn render_summary_table(results: &[DiffResult], clean_count: usize, unmatched_count: usize) -> (t:
    StyledText)
    requires
        table_fits(result_views(results@), clean_count as nat, unmatched_count as nat),
    ensures
        t@ == table_view(result_views(results@), clean_count as nat, unmatched_count as nat),
{
    let ghost rv = result_views(results@);
    let mut t = StyledText::new();
    if results.len() == 0 && clean_count == 0 && unmatched_count == 0 {
        return t;
    }
    proof {
        assert forall|i: int| 0 <= i < results@.len() implies byte_len(
            #[trigger] results@[i]@.plugin_version,
        ) < usize::MAX by {
            assert(rv[i] == results@[i]@);
        }
        assert forall|i: int| 0 <= i < results@.len() implies match #[trigger] results@[
            i
        ]@.latest_version {
            Some(lv) => byte_len(lv) < usize::MAX,
            None => true,
        } by {
            assert(rv[i] == results@[i]@);
        }
    }
    let (name_w, ver_w, lat_w, latest) = layout_exec(results);
    let ghost lay = layout(rv);
    header_exec(&mut t, name_w, ver_w, lat_w, latest);
    let ghost head = t@;
    let ghost aq = rv.map_values(|r: DiffResultView| r.added);
    let ghost rq = rv.map_values(|r: DiffResultView| r.removed);
    let ghost mq = rv.map_values(|r: DiffResultView| r.modified);
    let ghost iq = rv.map_values(|r: DiffResultView| insertions_of(r));
    let ghost dq = rv.map_values(|r: DiffResultView| deletions_of(r));
    let mut ta: usize = 0;
    let mut tr: usize = 0;
    let mut tm: usize = 0;
    let mut ti: usize = 0;
    let mut td: usize = 0;
    let mut i: usize = 0;
    while i < results.len()
        invariant
            i <= results.len(),
            rv == result_views(results@),
            rv.len() == results.len(),
            lay == layout(rv),
            name_w == lay.name_w,
            ver_w == lay.ver_w,
            lat_w == lay.lat_w,
            latest == lay.latest,
            table_fits(rv, clean_count as nat, unmatched_count as nat),
            aq == rv.map_values(|r: DiffResultView| r.added),
            rq == rv.map_values(|r: DiffResultView| r.removed),
            mq == rv.map_values(|r: DiffResultView| r.modified),
            iq == rv.map_values(|r: DiffResultView| insertions_of(r)),
            dq == rv.map_values(|r: DiffResultView| deletions_of(r)),
            ta == sum_nat(aq.take(i as int)),
            tr == sum_nat(rq.take(i as int)),
            tm == sum_nat(mq.take(i as int)),
            ti == sum_nat(iq.take(i as int)),
            td == sum_nat(dq.take(i as int)),
            t@ == head + plugin_rows(rv.take(i as int), lay),
        decreases results.len() - i,
    {
        let r = &results[i];
        proof {
            assert(rv[i as int] == r@);
            assert(rv.take(i + 1).drop_last() =~= rv.take(i as int));
            assert(rv.take(i + 1).last() == r@);
            lemma_sum_prefix(aq, i + 1);
            lemma_sum_prefix(rq, i + 1);
            lemma_sum_prefix(mq, i + 1);
            lemma_sum_prefix(iq, i + 1);
            lemma_sum_prefix(dq, i + 1);
            assert(aq.take(i + 1).drop_last() =~= aq.take(i as int));
            assert(rq.take(i + 1).drop_last() =~= rq.take(i as int));
            assert(mq.take(i + 1).drop_last() =~= mq.take(i as int));
            assert(iq.take(i + 1).drop_last() =~= iq.take(i as int));
            assert(dq.take(i + 1).drop_last() =~= dq.take(i as int));
            assert(iq[i as int] == insertions_of(r@));
            assert(dq[i as int] == deletions_of(r@));
        }
        let (ins, del) = result_line_counts(r);
        let ghost before = t@;
        row_exec(&mut t, r, name_w, ver_w, lat_w, latest, ins, del);
        assert(t@ =~= before + plugin_row(r@, lay));
        ta = ta + r.summary.added;
        tr = tr + r.summary.removed;
        tm = tm + r.summary.modified;
        ti = ti + ins;
        td = td + del;
        i += 1;
    }
    proof {
        assert(rv.take(results.len() as int) =~= rv);
        assert(aq.take(results.len() as int) =~= aq);
        assert(rq.take(results.len() as int) =~= rq);
        assert(mq.take(results.len() as int) =~= mq);
        assert(iq.take(results.len() as int) =~= iq);
        assert(dq.take(results.len() as int) =~= dq);
    }
    let ghost body = t@;
    if results.len() > 1 {
        totals_exec(&mut t, Ghost(rv), name_w, ver_w, lat_w, latest, ta, tr, tm, ti, td);
    }
    let ghost before_footer = t@;
    footer_exec(&mut t, results.len(), clean_count, unmatched_count);
    t
}

/// In each plugin's row the Added cell shows the plugin's number of files listed as
/// added (`+n` in green, a dimmed `·` for none), the Rm'd cell its number of files
/// listed as removed (`-n` in red), and the Mod cell its number of modified files (in
/// yellow); they are the row's second, fourth and sixth spans from the last count cell
/// back, whatever the other columns hold.
pub proof fn lemma_row_shows_file_counts(r: DiffResultView, l: TableLayout)
    requires
        r.added == count_status(r.files, FileStatus::Added),
        r.removed == count_status(r.files, FileStatus::Removed),
        r.modified == count_status(r.files, FileStatus::Modified),
    ensures
        ({
            let row = plugin_row(r, l);
            let n = row.len() as int;
            let a = count_status(r.files, FileStatus::Added);
            let d = count_status(r.files, FileStatus::Removed);
            let m = count_status(r.files, FileStatus::Modified);
            &&& n >= 15
            &&& row[n - 10] == if a > 0 {
                (pad_start(seq!['+'] + decimal(a), 6), colored(Color::Green))
            } else {
                (pad_start(seq!['\u{b7}'], 6), dimmed())
            }
            &&& row[n - 8] == if d > 0 {
                (pad_start(seq!['-'] + decimal(d), 6), colored(Color::Red))
            } else {
                (pad_start(seq!['\u{b7}'], 6), dimmed())
            }
            &&& row[n - 6] == if m > 0 {
                (pad_start(decimal(m), 5), colored(Color::Yellow))
            } else {
                (pad_start(seq!['\u{b7}'], 5), dimmed())
            }
        }),
{
    let head = pl(" "@) + sp(pad_end(r.plugin_slug, l.name_w), bold()) + pl("  "@) + sp(
        pad_end(seq!['v'] + r.plugin_version, l.ver_w),
        dimmed(),
    ) + latest_cell(r, l);
    let cc = count_cells(r.added, r.removed, r.modified, insertions_of(r), deletions_of(r));
    assert(plugin_row(r, l) == head + cc);
    assert(cc.len() == 11);
    assert(head.len() >= 4);
    let row = head + cc;
    let n = row.len() as int;
    assert(row[n - 10] == cc[1]);
    assert(row[n - 8] == cc[3]);
    assert(row[n - 6] == cc[5]);
}

} // verus!
