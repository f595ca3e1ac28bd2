//! The per-file summary of one comparison: a diffstat line for each changed file
//! with a bar scaled to the terminal width, and the totals.

use vstd::prelude::*;
use crate::model::{DiffResult, FileDiffView};
use crate::output::{skipped_section, status_marker, title_spans};
use crate::styled::{bold, colored, colored_bold, pl, sp, Color, SpanView, Style, StyledText};
use crate::table::{byte_len, nmax, sum_nat, lemma_sum_prefix, render_summary_table, table_view, table_fits, result_views};
use crate::text::{
    chars_of, decimal, decimal_chars, extend_chars, pad_end, pad_end_chars, pad_start,
    pad_start_chars, repeat, repeat_chars, string_views,
};

verus! {

/// The changed lines of a file.
pub open spec fn changes(f: FileDiffView) -> nat {
    f.insertions + f.deletions
}

/// The longest path, in bytes.
pub open spec fn max_path(fs: Seq<FileDiffView>) -> nat
    decreases fs.len(),
{
    if fs.len() == 0 {
        0
    } else {
        nmax(max_path(fs.drop_last()), byte_len(fs.last().path))
    }
}

/// The most digits of a file's number of changed lines.
pub open spec fn max_digits(fs: Seq<FileDiffView>) -> nat
    decreases fs.len(),
{
    if fs.len() == 0 {
        0
    } else {
        nmax(max_digits(fs.drop_last()), decimal(changes(fs.last())).len())
    }
}

/// The most changed lines of a file.
pub open spec fn max_changes(fs: Seq<FileDiffView>) -> nat
    decreases fs.len(),
{
    if fs.len() == 0 {
        0
    } else {
        nmax(max_changes(fs.drop_last()), changes(fs.last()))
    }
}

/// The widths of the diffstat: path and count columns, and the room for bars.
pub struct StatLayout {
    pub path_w: nat,
    pub num_w: nat,
    pub most: nat,
    pub bar_w: nat,
}

/// The diffstat layout for a terminal `width` columns wide: the bar gets what the
/// marker, path and count leave, or 10 columns when that is too little.
pub open spec fn stat_layout(fs: Seq<FileDiffView>, width: nat) -> StatLayout {
    let fixed = 3 + max_path(fs) + 3 + max_digits(fs) + 1;
    StatLayout {
        path_w: max_path(fs),
        num_w: max_digits(fs),
        most: nmax(max_changes(fs), 1),
        bar_w: if width > fixed + 2 {
            (width - fixed) as nat
        } else {
            10
        },
    }
}

/// The length of a file's whole bar: its share of the bar room, at least one column
/// for a file with changes.
pub open spec fn bar_total(f: FileDiffView, l: StatLayout) -> nat {
    if l.most > 0 {
        nmax(changes(f) * l.bar_w / l.most, if changes(f) > 0 { 1 } else { 0 })
    } else {
        0
    }
}

/// The insertion part of a file's bar, at least one column for a file with insertions.
pub open spec fn bar_ins(f: FileDiffView, l: StatLayout) -> nat {
    if changes(f) > 0 {
        nmax(f.insertions * bar_total(f, l) / changes(f), if f.insertions > 0 { 1 } else { 0 })
    } else {
        0
    }
}

/// The deletion part of a file's bar.
pub open spec fn bar_del(f: FileDiffView, l: StatLayout) -> nat {
    if bar_total(f, l) >= bar_ins(f, l) {
        (bar_total(f, l) - bar_ins(f, l)) as nat
    } else {
        0
    }
}

/// The diffstat line of one file.
pub open spec fn stat_line(f: FileDiffView, l: StatLayout) -> Seq<SpanView> {
    pl(" "@) + status_marker(f.status) + pl(
        seq![' '] + pad_end(f.path, l.path_w) + " | "@ + pad_start(decimal(changes(f)), l.num_w)
            + seq![' '],
    ) + sp(repeat('+', bar_ins(f, l)), colored(Color::Green)) + sp(
        repeat('-', bar_del(f, l)),
        colored(Color::Red),
    ) + pl(seq!['\n'])
}

/// The diffstat lines, in order.
pub open spec fn stat_lines(fs: Seq<FileDiffView>, l: StatLayout) -> Seq<SpanView>
    decreases fs.len(),
{
    if fs.len() == 0 {
        seq![]
    } else {
        stat_lines(fs.drop_last(), l) + stat_line(fs.last(), l)
    }
}

/// The inserted lines of all files.
pub open spec fn sum_insertions(fs: Seq<FileDiffView>) -> nat {
    sum_nat(fs.map_values(|f: FileDiffView| f.insertions))
}

/// The deleted lines of all files.
pub open spec fn sum_deletions(fs: Seq<FileDiffView>) -> nat {
    sum_nat(fs.map_values(|f: FileDiffView| f.deletions))
}

/// The totals after the diffstat, and the count of unchanged files when there are any.
pub open spec fn stat_totals(fs: Seq<FileDiffView>, unchanged: nat) -> Seq<SpanView> {
    pl(seq!['\n']) + pl(" "@) + sp(decimal(fs.len()), bold()) + pl(" files changed, "@) + sp(
        decimal(sum_insertions(fs)),
        colored(Color::Green),
    ) + pl(" insertions(+), "@) + sp(decimal(sum_deletions(fs)), colored(Color::Red)) + pl(
        " deletions(-)\n"@,
    ) + if unchanged > 0 {
        pl(" "@ + decimal(unchanged) + " files unchanged\n"@)
    } else {
        seq![]
    }
}

/// The summary of one comparison for a terminal `width` columns wide.
pub open spec fn summary_view(r: DiffResult, width: nat) -> Seq<SpanView> {
    let fs = r@.files;
    title_spans(r) + skipped_section(
        string_views(r.skipped_dirs.local@),
        string_views(r.skipped_dirs.upstream@),
    ) + if fs.len() == 0 {
        sp("No differences found."@, colored_bold(Color::Green)) + pl(seq!['\n'])
    } else {
        stat_lines(fs, stat_layout(fs, width)) + stat_totals(fs, r@.unchanged)
    }
}

/// The counts of the summary fit in machine integers: the totals, the widths of the
/// path and count columns, and each file's number of changed lines.
pub open spec fn summary_fits(fs: Seq<FileDiffView>) -> bool {
    &&& sum_insertions(fs) <= usize::MAX
    &&& sum_deletions(fs) <= usize::MAX
    &&& max_path(fs) + max_digits(fs) + 9 <= usize::MAX
    &&& forall|i: int| 0 <= i < fs.len() ==> #[trigger] changes(fs[i]) <= usize::MAX
}

proof fn lemma_max_changes(fs: Seq<FileDiffView>, i: int)
    requires
        0 <= i < fs.len(),
    ensures
        changes(fs[i]) <= max_changes(fs),
    decreases fs.len(),
{
    if i < fs.len() - 1 {
        lemma_max_changes(fs.drop_last(), i);
    }
}

proof fn lemma_bar_bounds(f: FileDiffView, l: StatLayout)
    requires
        l.most >= 1,
        l.bar_w >= 1,
        changes(f) <= l.most,
    ensures
        bar_total(f, l) <= l.bar_w,
        f.insertions * bar_total(f, l) <= changes(f) * l.bar_w,
{
    let t = changes(f);
    let bw = l.bar_w;
    let m = l.most;
    assert(t * bw <= m * bw) by (nonlinear_arith)
        requires
            t <= m,
    ;
    assert(t * bw / m <= bw) by (nonlinear_arith)
        requires
            t * bw <= m * bw,
            m >= 1,
    ;
    let bt = bar_total(f, l);
    assert(f.insertions * bt <= t * bw) by (nonlinear_arith)
        requires
            f.insertions <= t,
            bt <= bw,
    ;
}

/// A file's bar fits the room for bars: its `+` and `-` parts together take exactly its
/// share, and that share is at most the room.
pub proof fn lemma_bar_fits(f: FileDiffView, l: StatLayout)
    requires
        l.most >= 1,
        l.bar_w >= 1,
        changes(f) <= l.most,
    ensures
        bar_ins(f, l) + bar_del(f, l) == bar_total(f, l),
        bar_total(f, l) <= l.bar_w,
{
    lemma_bar_bounds(f, l);
    let t = changes(f);
    let bt = bar_total(f, l);
    if t > 0 {
        assert(bt >= 1);
        assert(f.insertions * bt / t <= bt) by (nonlinear_arith)
            requires
                f.insertions <= t,
                t > 0,
                bt >= 0,
        {
            assert(f.insertions * bt <= t * bt);
        }
    }
}

/// The width of the terminal, when there is one.
/// Trusted: `terminal_size::terminal_size`, which reads the size of the terminal on
/// standard output; nothing is claimed of the result beyond its type.
#[verifier::external_body]
fn terminal_columns() -> (r: Option<u16>) {
    terminal_size::terminal_size().map(|(w, _)| w.0)
}

/// `a * b / c` for machine numbers, computed without overflow.
fn mul_div(a: usize, b: usize, c: usize) -> (r: u128)
    requires
        c > 0,
    ensures
        r as nat == (a as nat) * (b as nat) / (c as nat),
{
    assert((a as nat) * (b as nat) <= (usize::MAX as nat) * (usize::MAX as nat)) by (nonlinear_arith)
        requires
            a <= usize::MAX,
            b <= usize::MAX,
    ;
    assert((usize::MAX as nat) * (usize::MAX as nat) <= u128::MAX) by (nonlinear_arith)
        requires
            usize::MAX <= u64::MAX,
    ;
    let p: u128 = (a as u128) * (b as u128);
    p / (c as u128)
}

fn stat_line_exec(
    t: &mut StyledText,
    f: &crate::model::FileDiff,
    path_w: usize,
    num_w: usize,
    most: usize,
    bar_w: usize,
    Ghost(l): Ghost<StatLayout>,
)
    requires
        l.path_w == path_w,
        l.num_w == num_w,
        l.most == most,
        l.bar_w == bar_w,
        most >= 1,
        bar_w >= 1,
        changes(f@) <= most,
    ensures
        final(t)@ == old(t)@ + stat_line(f@, l),
{
    proof {
        lemma_bar_bounds(f@, l);
    }
    let total = f.insertions + f.deletions;
    let share = mul_div(total, bar_w, most);
    assert(share <= bar_w) by (nonlinear_arith)
        requires
            share as nat == (total as nat) * (bar_w as nat) / (most as nat),
            total <= most,
            most >= 1,
    {
        assert((total as nat) * (bar_w as nat) <= (most as nat) * (bar_w as nat));
    }
    let share = share as usize;
    let bt = if share >= (if total > 0 { 1 } else { 0 }) { share } else { if total > 0 { 1 } else { 0 } };
    assert(bt == bar_total(f@, l));
    let bi = if total > 0 {
        let s = mul_div(f.insertions, bt, total);
        assert(s <= bt) by (nonlinear_arith)
            requires
                s as nat == (f.insertions as nat) * (bt as nat) / (total as nat),
                f.insertions <= total,
                total >= 1,
        {
            assert((f.insertions as nat) * (bt as nat) <= (total as nat) * (bt as nat));
        }
        let s = s as usize;
        let floor: usize = if f.insertions > 0 { 1 } else { 0 };
        if s >= floor { s } else { floor }
    } else {
        0
    };
    assert(bi == bar_ins(f@, l));
    let bd = if bt >= bi { bt - bi } else { 0 };
    t.push_plain(" ");
    crate::output::marker_exec(t, f.status);
    let mut mid: Vec<char> = vec![' '];
    extend_chars(&mut mid, &pad_end_chars(&chars_of(f.path.as_str()), path_w));
    extend_chars(&mut mid, &chars_of(" | "));
    extend_chars(&mut mid, &pad_start_chars(&decimal_chars(total), num_w));
    mid.push(' ');
    assert(mid@ =~= seq![' '] + pad_end(f@.path, l.path_w) + " | "@ + pad_start(
        decimal(changes(f@)),
        l.num_w,
    ) + seq![' ']);
    t.push_chars(&mid, Style::new_plain());
    t.push_chars(&repeat_chars('+', bi), Style::new_colored(Color::Green));
    t.push_chars(&repeat_chars('-', bd), Style::new_colored(Color::Red));
    t.push_newline();
}

/// The summary of one comparison for a terminal `width` columns wide: title, skipped
/// directories, a diffstat line for each file and the totals.
pub fn render_summary_at_width(result: &DiffResult, width: usize) -> (t: StyledText)
    requires
        summary_fits(result@.files),
    ensures
        t@ == summary_view(*result, width as nat),
{
    let ghost fs = result@.files;
    let mut t = crate::output::title_exec(result);
    t.append(crate::output::render_skipped_dirs(result));
    if result.files.len() == 0 {
        t.push_str("No differences found.", Style::new_colored_bold(Color::Green));
        t.push_newline();
        return t;
    }
    let files = &result.files;
    let mut mp: usize = 0;
    let mut md: usize = 0;
    let mut mc: usize = 0;
    let mut i: usize = 0;
    while i < files.len()
        invariant
            i <= files.len(),
            fs == result@.files,
            *files == result.files,
            fs.len() == files.len(),
            summary_fits(fs),
            mp == max_path(fs.take(i as int)),
            md == max_digits(fs.take(i as int)),
            mc == max_changes(fs.take(i as int)),
            mp <= max_path(fs),
            md <= max_digits(fs),
        decreases files.len() - i,
    {
        let f = &files[i];
        proof {
            assert(result@.files == crate::model::file_views(result.files@));
            assert(crate::model::file_views(result.files@)[i as int] == result.files@[i as int]@);
            assert(fs[i as int] == f@);
            assert(fs.take(i + 1).drop_last() =~= fs.take(i as int));
            assert(fs.take(i + 1).last() == f@);
            assert(changes(fs[i as int]) <= usize::MAX);
        }
        let pl_ = f.path.as_str().len();
        if pl_ > mp {
            mp = pl_;
        }
        let total = f.insertions + f.deletions;
        let dl = decimal_chars(total).len();
        if dl > md {
            md = dl;
        }
        if total > mc {
            mc = total;
        }
        proof {
            lemma_max_monotone(fs, i + 1);
        }
        i += 1;
    }
    assert(fs.take(files.len() as int) =~= fs);
    let most = if mc >= 1 { mc } else { 1 };
    let fixed = 3 + mp + 3 + md + 1;
    let bar_w = if width > fixed + 2 { width - fixed } else { 10 };
    let ghost l = stat_layout(fs, width as nat);
    assert(l.bar_w == bar_w && l.most == most && l.path_w == mp && l.num_w == md);
    let ghost head = t@;
    let mut j: usize = 0;
    while j < files.len()
        invariant
            j <= files.len(),
            fs == result@.files,
            *files == result.files,
            fs.len() == files.len(),
            summary_fits(fs),
            l == stat_layout(fs, width as nat),
            l.bar_w == bar_w,
            l.most == most,
            l.path_w == mp,
            l.num_w == md,
            most >= 1,
            bar_w >= 1,
            most == nmax(max_changes(fs), 1),
            t@ == head + stat_lines(fs.take(j as int), l),
        decreases files.len() - j,
    {
        let f = &files[j];
        proof {
            assert(crate::model::file_views(result.files@)[j as int] == result.files@[j as int]@);
            assert(fs[j as int] == f@);
            assert(fs.take(j + 1).drop_last() =~= fs.take(j as int));
            assert(fs.take(j + 1).last() == f@);
            lemma_max_changes(fs, j as int);
        }
        stat_line_exec(&mut t, f, mp, md, most, bar_w, Ghost(l));
        j += 1;
    }
    assert(fs.take(files.len() as int) =~= fs);
    let ghost body = t@;
    let (ti, td) = crate::table::sum_file_counts(files);
    t.push_newline();
    t.push_plain(" ");
    t.push_chars(&decimal_chars(files.len()), Style::new_bold());
    t.push_plain(" files changed, ");
    t.push_chars(&decimal_chars(ti), Style::new_colored(Color::Green));
    t.push_plain(" insertions(+), ");
    t.push_chars(&decimal_chars(td), Style::new_colored(Color::Red));
    t.push_plain(" deletions(-)\n");
    if result.summary.unchanged > 0 {
        let mut u = chars_of(" ");
        extend_chars(&mut u, &decimal_chars(result.summary.unchanged));
        extend_chars(&mut u, &chars_of(" files unchanged\n"));
        assert(u@ =~= " "@ + decimal(result@.unchanged) + " files unchanged\n"@);
        t.push_chars(&u, Style::new_plain());
    }
    assert(t@ =~= body + stat_totals(fs, result@.unchanged));
    t
}

proof fn lemma_max_monotone(fs: Seq<FileDiffView>, i: int)
    requires
        0 <= i <= fs.len(),
    ensures
        max_path(fs.take(i)) <= max_path(fs),
        max_digits(fs.take(i)) <= max_digits(fs),
    decreases fs.len() - i,
{
    if i < fs.len() {
        lemma_max_monotone(fs, i + 1);
        assert(fs.take(i + 1).drop_last() =~= fs.take(i));
    } else {
        assert(fs.take(i) =~= fs);
    }
}

/// A width the summary may be laid out for: the columns of a terminal, which fit in a
/// `u16`, or 80 when there is no terminal.
pub open spec fn any_terminal_width(w: nat) -> bool {
    w <= 65535
}

/// The summary of one comparison, laid out for the width of the terminal on standard
/// output (80 columns when there is none).
pub fn render_summary(result: &DiffResult) -> (t: StyledText)
    requires
        summary_fits(result@.files),
    ensures
        exists|w: nat| any_terminal_width(w) && t@ == summary_view(*result, w),
{
    let width: usize = match terminal_columns() {
        Some(w) => w as usize,
        None => 80,
    };
    let t = render_summary_at_width(result, width);
    assert(any_terminal_width(width as nat));
    t
}

/// The one-row summary table of one comparison.
pub fn render_summary_compact(result: &DiffResult) -> (t: StyledText)
    requires
        table_fits(seq![result@], 0, 0),
    ensures
        t@ == table_view(seq![result@], 0, 0),
{
    let rs = vec![result.duplicate()];
    assert(result_views(rs@) =~= seq![result@]);
    render_summary_table(rs.as_slice(), 0, 0)
}

} // verus!
