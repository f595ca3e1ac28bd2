//! Reviewing the hunks of a file that a patch changed by inexact matching: the sections
//! of the file's diff against upstream, and the text that results from choosing, for
//! each section, our change, the upstream lines, or both.

use vstd::prelude::*;
use similar::DiffTag;
use crate::content::CONTEXT_RADIUS;
use crate::styled::{colored, dimmed, pl, sp, Color, Style, StyledText};
use crate::text::{
    chars_of, decimal, ends_with, join_lines, join_lines_chars, lemma_tokens_count, line_tokens,
    lines, push_decimal, slice_chars, split_line_tokens, split_lines, string_from_chars, views,
};

verus! {

/// What a diff operation does with its lines.
#[derive(Clone, Copy, Debug, PartialEq, Eq, Structural)]
pub enum OpKind {
    Equal,
    Delete,
    Insert,
    Replace,
}

/// One diff operation: its kind and the line ranges it covers on the old (upstream) and
/// the new (patched) side, each as `start..end`.
#[derive(Clone, Copy, Debug, PartialEq, Eq, Structural)]
pub struct DiffOpSpan {
    pub kind: OpKind,
    pub old_start: usize,
    pub old_end: usize,
    pub new_start: usize,
    pub new_end: usize,
}

/// How a reviewed section is resolved.
#[derive(Clone, Copy, Debug, PartialEq, Eq, Structural)]
pub enum SectionChoice {
    /// Keep our change: the patched lines of the section.
    Ours,
    /// Use upstream only: the upstream lines of the section.
    Upstream,
    /// Keep both: the upstream lines, then the lines our change inserted.
    Both,
}

/// The sections of a diff as sequences.
pub open spec fn groups_view(gs: Seq<Vec<DiffOpSpan>>) -> Seq<Seq<DiffOpSpan>> {
    gs.map_values(|g: Vec<DiffOpSpan>| g@)
}

/// What `similar` gives as the grouped operations of the line diff of `old` and `new`,
/// each group holding a run of changes with up to `context_radius` equal lines around it.
pub uninterp spec fn spec_grouped_ops(old: Seq<char>, new: Seq<char>, context_radius: usize) -> Seq<
    Seq<DiffOpSpan>,
>;

/// Every `'\r'` in the text begins a `"\r\n"`: `similar` and `str::lines` then cut the
/// text into the same lines.
pub open spec fn no_lone_cr(s: Seq<char>) -> bool {
    forall|i: int| 0 <= i < s.len() && #[trigger] s[i] == '\r' ==> i + 1 < s.len() && s.skip(i + 1)[0] == '\n'
}

/// The operations of a section lie within the texts, follow one another without gap on
/// both sides, and an `Equal` operation covers equal lines.
pub open spec fn ops_aligned(g: Seq<DiffOpSpan>, u: Seq<Seq<char>>, p: Seq<Seq<char>>) -> bool {
    &&& forall|k: int| 0 <= k < g.len() ==> op_fits(#[trigger] g[k], u.len() as int, p.len() as int)
    &&& forall|k: int, j: int|
        #![trigger g[k], g[j]]
        0 <= k && j == k + 1 && j < g.len() ==> g[k].old_end == g[j].old_start && g[k].new_end
            == g[j].new_start
    &&& forall|k: int|
        0 <= k < g.len() && (#[trigger] g[k]).kind == OpKind::Equal ==> u.subrange(
            g[k].old_start as int,
            g[k].old_end as int,
        ) == p.subrange(g[k].new_start as int, g[k].new_end as int)
}

/// The sections, from upstream line `lo` and patched line `ln` on, are a diff of the
/// lines: each section is nonempty with aligned operations, and before each section and
/// after the last the two sides hold the same lines.
pub open spec fn aligned_from(
    gs: Seq<Seq<DiffOpSpan>>,
    u: Seq<Seq<char>>,
    p: Seq<Seq<char>>,
    lo: int,
    ln: int,
) -> bool
    decreases gs.len(),
{
    if gs.len() == 0 {
        &&& 0 <= lo <= u.len()
        &&& 0 <= ln <= p.len()
        &&& u.subrange(lo, u.len() as int) == p.subrange(ln, p.len() as int)
    } else {
        let g = gs[0];
        &&& g.len() > 0
        &&& 0 <= lo <= old_start(g)
        &&& 0 <= ln <= new_start(g)
        &&& u.subrange(lo, old_start(g)) == p.subrange(ln, new_start(g))
        &&& ops_aligned(g, u, p)
        &&& aligned_from(gs.drop_first(), u, p, old_end(g), new_end(g))
    }
}

/// The sections are a diff of the upstream lines `u` and the patched lines `p`.
pub open spec fn diff_aligned(gs: Seq<Seq<DiffOpSpan>>, u: Seq<Seq<char>>, p: Seq<Seq<char>>) -> bool {
    aligned_from(gs, u, p, 0, 0)
}

/// Trusted: `similar::TextDiff::from_lines(old, new).grouped_ops(context_radius)`, each
/// operation converted to its tag and ranges (`DiffOp::as_tag_tuple`). The contract names
/// the result; which lines the diff algorithm pairs, and where it cuts the groups, is left
/// unstated. What it states of the groups is what a diff is: the operations of the line
/// diff tile both texts in order, an `Equal` operation pairs equal lines, and
/// `group_diff_ops` keeps nonempty runs of those operations, dropping only the parts of
/// `Equal` operations that lie outside the context. This is stated for texts whose
/// every `'\r'` begins a `"\r\n"`, where `similar`'s lines are those of `str::lines`
/// (it also ends a line at a lone `'\r'`). The radius is at most half of
/// `usize::MAX`, since `similar` compares a run with twice the radius.
#[verifier::external_body]
fn grouped_ops(old: &str, new: &str, context_radius: usize) -> (r: Vec<Vec<DiffOpSpan>>)
    requires
        context_radius <= usize::MAX / 2,
    ensures
        groups_view(r@) == spec_grouped_ops(old@, new@, context_radius),
        no_lone_cr(old@) && no_lone_cr(new@) ==> diff_aligned(
            groups_view(r@),
            lines(old@),
            lines(new@),
        ),
{
    let mut groups = Vec::new();
    for group in similar::TextDiff::from_lines(old, new).grouped_ops(context_radius) {
        let mut ops = Vec::new();
        for op in group {
            let (tag, o, n) = op.as_tag_tuple();
            let kind = match tag { DiffTag::Equal => OpKind::Equal, DiffTag::Delete => OpKind::Delete, DiffTag::Insert => OpKind::Insert, DiffTag::Replace => OpKind::Replace };
            ops.push(DiffOpSpan { kind, old_start: o.start, old_end: o.end, new_start: n.start, new_end: n.end });
        }
        groups.push(ops);
    }
    groups
}

// ---------------------------------------------------------------------------
// Sections and their resolution
// ---------------------------------------------------------------------------

/// Where a section starts on the upstream side (0 for an empty section).
pub open spec fn old_start(g: Seq<DiffOpSpan>) -> int {
    if g.len() > 0 {
        g[0].old_start as int
    } else {
        0
    }
}

/// Where a section ends on the upstream side (0 for an empty section).
pub open spec fn old_end(g: Seq<DiffOpSpan>) -> int {
    if g.len() > 0 {
        g.last().old_end as int
    } else {
        0
    }
}

/// Where a section starts on the patched side (0 for an empty section).
pub open spec fn new_start(g: Seq<DiffOpSpan>) -> int {
    if g.len() > 0 {
        g[0].new_start as int
    } else {
        0
    }
}

/// Where a section ends on the patched side (0 for an empty section).
pub open spec fn new_end(g: Seq<DiffOpSpan>) -> int {
    if g.len() > 0 {
        g.last().new_end as int
    } else {
        0
    }
}

/// A section with an operation that is not `Equal`.
pub open spec fn has_changes(g: Seq<DiffOpSpan>) -> bool {
    exists|k: int| 0 <= k < g.len() && (#[trigger] g[k]).kind != OpKind::Equal
}

/// The lines that the operations of a section insert on the patched side, in order.
pub open spec fn inserted_lines(g: Seq<DiffOpSpan>, p: Seq<Seq<char>>) -> Seq<Seq<char>>
    decreases g.len(),
{
    if g.len() == 0 {
        seq![]
    } else {
        let op = g.last();
        inserted_lines(g.drop_last(), p) + if op.kind == OpKind::Insert || op.kind
            == OpKind::Replace {
            p.subrange(op.new_start as int, op.new_end as int)
        } else {
            seq![]
        }
    }
}

/// The lines that a choice puts in place of a section.
pub open spec fn section_lines(
    g: Seq<DiffOpSpan>,
    c: SectionChoice,
    u: Seq<Seq<char>>,
    p: Seq<Seq<char>>,
) -> Seq<Seq<char>> {
    match c {
        SectionChoice::Ours => p.subrange(new_start(g), new_end(g)),
        SectionChoice::Upstream => u.subrange(old_start(g), old_end(g)),
        SectionChoice::Both => u.subrange(old_start(g), old_end(g)) + inserted_lines(g, p),
    }
}

/// The resolved lines from upstream line `last` on: upstream lines up to each section,
/// the section as its choice gives it (sections without changes stay upstream), and the
/// upstream lines after the last section.
pub open spec fn resolved_lines(
    gs: Seq<Seq<DiffOpSpan>>,
    cs: Seq<SectionChoice>,
    u: Seq<Seq<char>>,
    p: Seq<Seq<char>>,
    last: int,
) -> Seq<Seq<char>>
    decreases gs.len(),
{
    if gs.len() == 0 {
        u.subrange(last, u.len() as int)
    } else {
        let g = gs[0];
        u.subrange(last, old_start(g)) + (if has_changes(g) {
            section_lines(g, cs[0], u, p)
        } else {
            u.subrange(old_start(g), old_end(g))
        }) + resolved_lines(gs.drop_first(), cs.drop_first(), u, p, old_end(g))
    }
}

/// An operation's patched-side range lies within the patched text's lines.
pub open spec fn new_fits(op: DiffOpSpan, plen: int) -> bool {
    op.new_start <= op.new_end <= plen
}

/// An operation's ranges lie within the two texts' lines.
pub open spec fn op_fits(op: DiffOpSpan, ulen: int, plen: int) -> bool {
    op.old_start <= op.old_end <= ulen && new_fits(op, plen)
}

/// A section lies within the texts and starts at or after upstream line `last`.
pub open spec fn group_fits(g: Seq<DiffOpSpan>, last: int, ulen: int, plen: int) -> bool {
    &&& forall|k: int| 0 <= k < g.len() ==> op_fits(#[trigger] g[k], ulen, plen)
    &&& last <= old_start(g) <= old_end(g) <= ulen
    &&& new_start(g) <= new_end(g) <= plen
}

/// The sections follow one another within the texts, from upstream line `last` on.
pub open spec fn sections_fit(gs: Seq<Seq<DiffOpSpan>>, last: int, ulen: int, plen: int) -> bool
    decreases gs.len(),
{
    if gs.len() == 0 {
        0 <= last <= ulen
    } else {
        group_fits(gs[0], last, ulen, plen) && sections_fit(gs.drop_first(), old_end(gs[0]), ulen, plen)
    }
}

/// The resolved text: the resolved lines joined by `'\n'`, with a final `'\n'` when
/// either text ends with one.
pub open spec fn resolved_text(
    upstream: Seq<char>,
    patched: Seq<char>,
    gs: Seq<Seq<DiffOpSpan>>,
    cs: Seq<SectionChoice>,
) -> Seq<char> {
    join_lines(resolved_lines(gs, cs, lines(upstream), lines(patched), 0)) + if ends_with(
        upstream,
        seq!['\n'],
    ) || ends_with(patched, seq!['\n']) {
        seq!['\n']
    } else {
        seq![]
    }
}

/// Every section resolved to upstream.
pub open spec fn all_upstream(cs: Seq<SectionChoice>) -> bool {
    forall|i: int| 0 <= i < cs.len() ==> cs[i] == SectionChoice::Upstream
}

/// Choosing upstream for every section gives back the upstream lines from `last` on.
proof fn lemma_upstream_from(
    gs: Seq<Seq<DiffOpSpan>>,
    cs: Seq<SectionChoice>,
    u: Seq<Seq<char>>,
    p: Seq<Seq<char>>,
    last: int,
)
    requires
        0 <= last,
        sections_fit(gs, last, u.len() as int, p.len() as int),
        cs.len() == gs.len(),
        all_upstream(cs),
    ensures
        resolved_lines(gs, cs, u, p, last) == u.subrange(last, u.len() as int),
    decreases gs.len(),
{
    if gs.len() > 0 {
        let g = gs[0];
        assert(group_fits(g, last, u.len() as int, p.len() as int));
        assert(last <= old_start(g) <= old_end(g) <= u.len());
        assert(all_upstream(cs.drop_first())) by {
            assert forall|i: int| 0 <= i < cs.drop_first().len() implies cs.drop_first()[i]
                == SectionChoice::Upstream by {
                assert(cs.drop_first()[i] == cs[i + 1]);
            }
        }
        lemma_upstream_from(gs.drop_first(), cs.drop_first(), u, p, old_end(g));
        assert(cs[0] == SectionChoice::Upstream);
        assert(u.subrange(last, old_start(g)) + u.subrange(old_start(g), old_end(g)) + u.subrange(
            old_end(g),
            u.len() as int,
        ) =~= u.subrange(last, u.len() as int));
    }
}

/// Resolving every section to upstream gives back the upstream file's lines: reviewing
/// can only take changes away, never add any of its own.
pub proof fn lemma_all_upstream_is_upstream(
    gs: Seq<Seq<DiffOpSpan>>,
    cs: Seq<SectionChoice>,
    u: Seq<Seq<char>>,
    p: Seq<Seq<char>>,
)
    requires
        sections_fit(gs, 0, u.len() as int, p.len() as int),
        cs.len() == gs.len(),
        all_upstream(cs),
    ensures
        resolved_lines(gs, cs, u, p, 0) == u,
{
    lemma_upstream_from(gs, cs, u, p, 0);
    assert(u.subrange(0, u.len() as int) =~= u);
}

/// Sections that follow one another within the texts each lie within them.
proof fn lemma_fit_sections_each_fit(gs: Seq<Seq<DiffOpSpan>>, last: int, ulen: int, plen: int)
    requires
        sections_fit(gs, last, ulen, plen),
    ensures
        forall|i: int| 0 <= i < gs.len() ==> group_fits(#[trigger] gs[i], 0, ulen, plen),
    decreases gs.len(),
{
    if gs.len() > 0 {
        lemma_fit_sections_each_fit(gs.drop_first(), old_end(gs[0]), ulen, plen);
        assert forall|i: int| 0 <= i < gs.len() implies group_fits(#[trigger] gs[i], 0, ulen, plen) by {
            if i > 0 {
                assert(gs[i] == gs.drop_first()[i - 1]);
            }
        }
    }
}

/// Every section resolved to our change.
pub open spec fn all_ours(cs: Seq<SectionChoice>) -> bool {
    forall|i: int| 0 <= i < cs.len() ==> cs[i] == SectionChoice::Ours
}

/// An aligned section spans its operations in order on both sides, and a section of
/// `Equal` operations only covers the same lines on both sides.
proof fn lemma_group_span(g: Seq<DiffOpSpan>, u: Seq<Seq<char>>, p: Seq<Seq<char>>)
    requires
        g.len() > 0,
        ops_aligned(g, u, p),
    ensures
        old_start(g) <= old_end(g) <= u.len(),
        new_start(g) <= new_end(g) <= p.len(),
        !has_changes(g) ==> u.subrange(old_start(g), old_end(g)) == p.subrange(
            new_start(g),
            new_end(g),
        ),
    decreases g.len(),
{
    let op = g.last();
    assert(op_fits(g[g.len() - 1], u.len() as int, p.len() as int));
    if g.len() == 1 {
        assert(op_fits(g[0], u.len() as int, p.len() as int));
        if !has_changes(g) {
            assert(g[0].kind == OpKind::Equal);
        }
    } else {
        let h = g.drop_last();
        assert(ops_aligned(h, u, p)) by {
            assert forall|k: int| 0 <= k < h.len() implies op_fits(
                #[trigger] h[k],
                u.len() as int,
                p.len() as int,
            ) by {
                assert(h[k] == g[k]);
            }
            assert forall|k: int, j: int|
                #![trigger h[k], h[j]]
                0 <= k && j == k + 1 && j < h.len() implies h[k].old_end == h[j].old_start
                    && h[k].new_end == h[j].new_start by {
                assert(h[k] == g[k] && h[j] == g[j]);
            }
            assert forall|k: int| 0 <= k < h.len() && (#[trigger] h[k]).kind == OpKind::Equal implies u.subrange(
                h[k].old_start as int,
                h[k].old_end as int,
            ) == p.subrange(h[k].new_start as int, h[k].new_end as int) by {
                assert(h[k] == g[k]);
            }
        }
        lemma_group_span(h, u, p);
        assert(h[0] == g[0]);
        assert(h.last() == g[g.len() - 2]);
        let a = g.len() - 2;
        let b = g.len() - 1;
        assert(g[a].old_end == g[b].old_start);
        assert(g[g.len() - 2].new_end == g[g.len() - 1].new_start);
        if !has_changes(g) {
            assert(!has_changes(h)) by {
                if has_changes(h) {
                    let k = choose|k: int| 0 <= k < h.len() && (#[trigger] h[k]).kind != OpKind::Equal;
                    assert(g[k] == h[k]);
                }
            }
            assert(g[g.len() - 1].kind == OpKind::Equal);
            assert(u.subrange(old_start(g), old_end(g)) =~= u.subrange(old_start(h), old_end(h))
                + u.subrange(op.old_start as int, op.old_end as int));
            assert(p.subrange(new_start(g), new_end(g)) =~= p.subrange(new_start(h), new_end(h))
                + p.subrange(op.new_start as int, op.new_end as int));
        }
    }
}

/// Sections aligned as a diff follow one another within the texts.
proof fn lemma_aligned_fit(
    gs: Seq<Seq<DiffOpSpan>>,
    u: Seq<Seq<char>>,
    p: Seq<Seq<char>>,
    lo: int,
    ln: int,
)
    requires
        aligned_from(gs, u, p, lo, ln),
    ensures
        sections_fit(gs, lo, u.len() as int, p.len() as int),
    decreases gs.len(),
{
    if gs.len() > 0 {
        let g = gs[0];
        lemma_group_span(g, u, p);
        lemma_aligned_fit(gs.drop_first(), u, p, old_end(g), new_end(g));
    }
}

/// Choosing our change for every section gives back the patched lines from patched line
/// `ln` on.
proof fn lemma_ours_from(
    gs: Seq<Seq<DiffOpSpan>>,
    cs: Seq<SectionChoice>,
    u: Seq<Seq<char>>,
    p: Seq<Seq<char>>,
    lo: int,
    ln: int,
)
    requires
        aligned_from(gs, u, p, lo, ln),
        cs.len() == gs.len(),
        all_ours(cs),
    ensures
        resolved_lines(gs, cs, u, p, lo) == p.subrange(ln, p.len() as int),
    decreases gs.len(),
{
    if gs.len() > 0 {
        let g = gs[0];
        lemma_group_span(g, u, p);
        assert(all_ours(cs.drop_first())) by {
            assert forall|i: int| 0 <= i < cs.drop_first().len() implies cs.drop_first()[i]
                == SectionChoice::Ours by {
                assert(cs.drop_first()[i] == cs[i + 1]);
            }
        }
        lemma_ours_from(gs.drop_first(), cs.drop_first(), u, p, old_end(g), new_end(g));
        assert(cs[0] == SectionChoice::Ours);
        assert(p.subrange(ln, new_start(g)) + p.subrange(new_start(g), new_end(g)) + p.subrange(
            new_end(g),
            p.len() as int,
        ) =~= p.subrange(ln, p.len() as int));
    }
}

/// Sections that form a diff of the two texts' lines can always be resolved: they follow
/// one another within the texts.
pub proof fn lemma_diff_sections_fit(gs: Seq<Seq<DiffOpSpan>>, u: Seq<Seq<char>>, p: Seq<Seq<char>>)
    requires
        diff_aligned(gs, u, p),
    ensures
        sections_fit(gs, 0, u.len() as int, p.len() as int),
{
    lemma_aligned_fit(gs, u, p, 0, 0);
}

/// Keeping our change in every section gives back the patched file's lines: the review
/// loses none of the customization.
pub proof fn lemma_all_ours_is_patched(
    gs: Seq<Seq<DiffOpSpan>>,
    cs: Seq<SectionChoice>,
    u: Seq<Seq<char>>,
    p: Seq<Seq<char>>,
)
    requires
        diff_aligned(gs, u, p),
        cs.len() == gs.len(),
        all_ours(cs),
    ensures
        resolved_lines(gs, cs, u, p, 0) == p,
{
    lemma_ours_from(gs, cs, u, p, 0, 0);
    assert(p.subrange(0, p.len() as int) =~= p);
}

/// Keeping our change in every section resolves the file to the patched text itself,
/// when the patched text has no `'\r'` and ends with a line break unless upstream does
/// not (the resolved text ends with one when either text does); and the sections can
/// always be resolved.
pub proof fn lemma_keep_ours_gives_patched_text(
    upstream: Seq<char>,
    patched: Seq<char>,
    gs: Seq<Seq<DiffOpSpan>>,
    cs: Seq<SectionChoice>,
)
    requires
        diff_aligned(gs, lines(upstream), lines(patched)),
        cs.len() == gs.len(),
        all_ours(cs),
        !patched.contains('\r'),
        ends_with(patched, seq!['\n']) || !ends_with(upstream, seq!['\n']),
    ensures
        sections_fit(gs, 0, lines(upstream).len() as int, lines(patched).len() as int),
        resolved_text(upstream, patched, gs, cs) == patched,
{
    lemma_diff_sections_fit(gs, lines(upstream), lines(patched));
    lemma_all_ours_is_patched(gs, cs, lines(upstream), lines(patched));
    crate::text::lemma_lines_rejoin(patched);
}

/// Appends lines `a..b` of `src` to `out`.
fn push_lines(out: &mut Vec<Vec<char>>, src: &Vec<Vec<char>>, a: usize, b: usize)
    requires
        a <= b <= src.len(),
    ensures
        views(final(out)@) == views(old(out)@) + views(src@).subrange(a as int, b as int),
{
    let ghost start = views(out@);
    let mut i = a;
    while i < b
        invariant
            a <= i <= b <= src.len(),
            views(out@) == start + views(src@).subrange(a as int, i as int),
        decreases b - i,
    {
        let line = slice_chars(&src[i], 0, src[i].len());
        assert(line@ =~= src@[i as int]@);
        let ghost prev = out@;
        out.push(line);
        assert(views(out@) =~= views(prev).push(line@));
        assert(views(src@).subrange(a as int, i + 1) =~= views(src@).subrange(a as int, i as int).push(
            src@[i as int]@,
        ));
        assert(views(out@) =~= start + views(src@).subrange(a as int, i + 1));
        i += 1;
    }
}

/// Whether a section has an operation that is not `Equal`.
fn group_has_changes(g: &Vec<DiffOpSpan>) -> (b: bool)
    ensures
        b == has_changes(g@),
{
    let mut k: usize = 0;
    while k < g.len()
        invariant
            k <= g.len(),
            forall|j: int| 0 <= j < k ==> (#[trigger] g@[j]).kind == OpKind::Equal,
        decreases g.len() - k,
    {
        if g[k].kind != OpKind::Equal {
            return true;
        }
        k += 1;
    }
    false
}

/// Appends the lines that a section's operations insert.
fn push_inserted(out: &mut Vec<Vec<char>>, g: &Vec<DiffOpSpan>, p: &Vec<Vec<char>>)
    requires
        forall|k: int| 0 <= k < g.len() ==> new_fits(#[trigger] g@[k], p.len() as int),
    ensures
        views(final(out)@) == views(old(out)@) + inserted_lines(g@, views(p@)),
{
    let ghost start = views(out@);
    let mut k: usize = 0;
    assert(g@.take(0) =~= Seq::<DiffOpSpan>::empty());
    while k < g.len()
        invariant
            k <= g.len(),
            forall|j: int| 0 <= j < g.len() ==> new_fits(#[trigger] g@[j], p.len() as int),
            views(out@) == start + inserted_lines(g@.take(k as int), views(p@)),
        decreases g.len() - k,
    {
        let op = g[k];
        assert(g@.take(k + 1).drop_last() =~= g@.take(k as int));
        assert(g@.take(k + 1).last() == op);
        if op.kind == OpKind::Insert || op.kind == OpKind::Replace {
            push_lines(out, p, op.new_start, op.new_end);
            assert(views(out@) =~= start + inserted_lines(g@.take(k + 1), views(p@)));
        } else {
            assert(views(out@) =~= start + inserted_lines(g@.take(k + 1), views(p@)));
        }
        k += 1;
    }
    assert(g@.take(g.len() as int) =~= g@);
}

/// The resolved lines, given the lines of both texts.
fn resolve_lines(
    gs: &Vec<Vec<DiffOpSpan>>,
    cs: &Vec<SectionChoice>,
    u: &Vec<Vec<char>>,
    p: &Vec<Vec<char>>,
) -> (out: Vec<Vec<char>>)
    requires
        sections_fit(groups_view(gs@), 0, u.len() as int, p.len() as int),
        cs.len() == gs.len(),
    ensures
        views(out@) == resolved_lines(groups_view(gs@), cs@, views(u@), views(p@), 0),
{
    let ghost gv = groups_view(gs@);
    let ghost uv = views(u@);
    let ghost pv = views(p@);
    let mut out: Vec<Vec<char>> = Vec::new();
    let mut last: usize = 0;
    let mut i: usize = 0;
    assert(gv.skip(0) =~= gv && cs@.skip(0) =~= cs@);
    while i < gs.len()
        invariant
            i <= gs.len(),
            cs.len() == gs.len(),
            gv == groups_view(gs@),
            uv == views(u@),
            pv == views(p@),
            sections_fit(gv.skip(i as int), last as int, u.len() as int, p.len() as int),
            resolved_lines(gv, cs@, uv, pv, 0) == views(out@) + resolved_lines(
                gv.skip(i as int),
                cs@.skip(i as int),
                uv,
                pv,
                last as int,
            ),
        decreases gs.len() - i,
    {
        let g = &gs[i];
        let ghost gg = gv.skip(i as int);
        assert(gg[0] == g@);
        assert(gg.drop_first() =~= gv.skip(i + 1));
        assert(cs@.skip(i as int).drop_first() =~= cs@.skip(i + 1));
        assert(cs@.skip(i as int)[0] == cs@[i as int]);
        let os: usize = if g.len() > 0 { g[0].old_start } else { 0 };
        let oe: usize = if g.len() > 0 { g[g.len() - 1].old_end } else { 0 };
        let ns: usize = if g.len() > 0 { g[0].new_start } else { 0 };
        let ne: usize = if g.len() > 0 { g[g.len() - 1].new_end } else { 0 };
        let ghost before = views(out@);
        push_lines(&mut out, u, last, os);
        if group_has_changes(g) {
            match cs[i] {
                SectionChoice::Ours => {
                    push_lines(&mut out, p, ns, ne);
                },
                SectionChoice::Upstream => {
                    push_lines(&mut out, u, os, oe);
                },
                SectionChoice::Both => {
                    push_lines(&mut out, u, os, oe);
                    let ghost mid = views(out@);
                    push_inserted(&mut out, g, p);
                    assert(views(out@) =~= mid + inserted_lines(g@, pv));
                },
            }
        } else {
            push_lines(&mut out, u, os, oe);
        }
        assert(views(out@) =~= before + uv.subrange(last as int, os as int) + (if has_changes(g@) {
            section_lines(g@, cs@[i as int], uv, pv)
        } else {
            uv.subrange(os as int, oe as int)
        }));
        last = oe;
        i += 1;
    }
    let ghost before = views(out@);
    push_lines(&mut out, u, last, u.len());
    assert(gv.skip(i as int) =~= Seq::<Seq<DiffOpSpan>>::empty());
    out
}


/// Whether the sections follow one another within texts of `ulen` and `plen` lines.
#[verifier::loop_isolation(false)]
fn check_sections_fit(gs: &Vec<Vec<DiffOpSpan>>, ulen: usize, plen: usize) -> (b: bool)
    ensures
        b == sections_fit(groups_view(gs@), 0, ulen as int, plen as int),
{
    let ghost gv = groups_view(gs@);
    let mut last: usize = 0;
    let mut i: usize = 0;
    assert(gv.skip(0) =~= gv);
    while i < gs.len()
        invariant
            i <= gs.len(),
            last <= ulen,
            gv == groups_view(gs@),
            sections_fit(gv, 0, ulen as int, plen as int) == sections_fit(
                gv.skip(i as int),
                last as int,
                ulen as int,
                plen as int,
            ),
        decreases gs.len() - i,
    {
        let g = &gs[i];
        let ghost gg = gv.skip(i as int);
        assert(gg[0] == g@);
        assert(gg.drop_first() =~= gv.skip(i + 1));
        let mut k: usize = 0;
        while k < g.len()
            invariant
                k <= g.len(),
                forall|j: int| 0 <= j < k ==> op_fits(#[trigger] g@[j], ulen as int, plen as int),
            decreases g.len() - k,
        {
            let op = g[k];
            if !(op.old_start <= op.old_end && op.old_end <= ulen && op.new_start <= op.new_end
                && op.new_end <= plen) {
                return false;
            }
            k += 1;
        }
        let os: usize = if g.len() > 0 { g[0].old_start } else { 0 };
        let oe: usize = if g.len() > 0 { g[g.len() - 1].old_end } else { 0 };
        let ns: usize = if g.len() > 0 { g[0].new_start } else { 0 };
        let ne: usize = if g.len() > 0 { g[g.len() - 1].new_end } else { 0 };
        if !(last <= os && os <= oe && oe <= ulen && ns <= ne && ne <= plen) {
            return false;
        }
        last = oe;
        i += 1;
    }
    assert(gv.skip(i as int) =~= Seq::<Seq<DiffOpSpan>>::empty());
    true
}

/// The resolved text of a reviewed file: for each section that has changes, the lines
/// that its choice gives; everything else as upstream has it.
pub fn resolve_sections(
    upstream_text: &str,
    patched_text: &str,
    groups: &Vec<Vec<DiffOpSpan>>,
    choices: &Vec<SectionChoice>,
) -> (r: String)
    requires
        sections_fit(
            groups_view(groups@),
            0,
            lines(upstream_text@).len() as int,
            lines(patched_text@).len() as int,
        ),
        choices.len() == groups.len(),
    ensures
        r@ == resolved_text(upstream_text@, patched_text@, groups_view(groups@), choices@),
{
    let uc = chars_of(upstream_text);
    let pc = chars_of(patched_text);
    let u = split_lines(&uc);
    let p = split_lines(&pc);
    let out = resolve_lines(groups, choices, &u, &p);
    let mut text = join_lines_chars(&out);
    let nl: Vec<char> = vec!['\n'];
    assert(nl@ =~= seq!['\n']);
    if crate::text::ends_with_chars(&uc, &nl) || crate::text::ends_with_chars(&pc, &nl) {
        text.push('\n');
    }
    string_from_chars(&text)
}

// ---------------------------------------------------------------------------
// Showing a section
// ---------------------------------------------------------------------------

/// Lines, each with its own line ending, shown as changes: each indented, then marked and
/// styled together with its ending; a line without one (the text's last) is followed by
/// an unstyled `'\n'`.
pub open spec fn change_block(ls: Seq<Seq<char>>, mark: char, st: Style) -> Seq<(Seq<char>, Style)>
    decreases ls.len(),
{
    if ls.len() == 0 {
        seq![]
    } else {
        change_block(ls.drop_last(), mark, st) + pl("      "@) + sp(seq![mark] + ls.last(), st) + if ends_with(
            ls.last(),
            seq!['\n'],
        ) {
            Seq::<(Seq<char>, Style)>::empty()
        } else {
            pl(seq!['\n'])
        }
    }
}

/// The changes of one operation: equal lines dimmed with a space, deleted lines red with
/// `-`, inserted lines green with `+`; a replacement shows its deletions first.
pub open spec fn op_display(op: DiffOpSpan, u: Seq<Seq<char>>, p: Seq<Seq<char>>) -> Seq<
    (Seq<char>, Style),
> {
    let old_ls = u.subrange(op.old_start as int, op.old_end as int);
    let new_ls = p.subrange(op.new_start as int, op.new_end as int);
    match op.kind {
        OpKind::Equal => change_block(old_ls, ' ', dimmed()),
        OpKind::Delete => change_block(old_ls, '-', colored(Color::Red)),
        OpKind::Insert => change_block(new_ls, '+', colored(Color::Green)),
        OpKind::Replace => change_block(old_ls, '-', colored(Color::Red)) + change_block(
            new_ls,
            '+',
            colored(Color::Green),
        ),
    }
}

/// The changes of a section's operations, in order.
pub open spec fn ops_display(g: Seq<DiffOpSpan>, u: Seq<Seq<char>>, p: Seq<Seq<char>>) -> Seq<
    (Seq<char>, Style),
>
    decreases g.len(),
{
    if g.len() == 0 {
        seq![]
    } else {
        ops_display(g.drop_last(), u, p) + op_display(g.last(), u, p)
    }
}

/// The heading of section `i` (counted from 0) of `n`, with its upstream line range
/// counted from 1.
pub open spec fn section_heading(i: nat, n: nat, g: Seq<DiffOpSpan>) -> Seq<(Seq<char>, Style)> {
    pl("\n    "@) + sp("───"@, dimmed()) + pl(
        " Section "@ + decimal(i + 1) + "/"@ + decimal(n) + " (lines "@ + decimal(
            (old_start(g) + 1) as nat,
        ) + "-"@ + decimal(old_end(g) as nat) + "):\n"@,
    )
}

/// Appends lines as a block of changes.
fn push_change_block(
    t: &mut StyledText,
    src: &Vec<Vec<char>>,
    a: usize,
    b: usize,
    mark: char,
    st: Style,
)
    requires
        a <= b <= src.len(),
        mark != '\n',
    ensures
        final(t)@ == old(t)@ + change_block(views(src@).subrange(a as int, b as int), mark, st),
{
    let ghost start = t@;
    let mut i = a;
    while i < b
        invariant
            a <= i <= b <= src.len(),
            mark != '\n',
            t@ == start + change_block(views(src@).subrange(a as int, i as int), mark, st),
        decreases b - i,
    {
        let mut line: Vec<char> = vec![mark];
        crate::text::extend_chars(&mut line, &src[i]);
        assert(line@ =~= seq![mark] + src@[i as int]@);
        t.push_plain("      ");
        t.push_chars(&line, st);
        let ends_nl = line[line.len() - 1] == '\n';
        proof {
            let tok = src@[i as int]@;
            assert(line@ == seq![mark] + tok);
            assert(ends_nl == (line@.last() == '\n'));
            if tok.len() > 0 {
                assert(line@.last() == tok.last());
                assert(ends_with(tok, seq!['\n']) <==> tok.last() == '\n') by {
                    if tok.last() == '\n' {
                        assert(tok.skip(tok.len() - 1) =~= seq!['\n']);
                    }
                    if ends_with(tok, seq!['\n']) {
                        assert(tok.skip(tok.len() - 1)[0] == tok.last());
                    }
                }
            } else {
                assert(!ends_with(tok, seq!['\n']));
                assert(line@ =~= seq![mark]);
            }
            assert(ends_nl == ends_with(tok, seq!['\n']));
        }
        if !ends_nl {
            t.push_newline();
        }
        proof {
            let ls = views(src@).subrange(a as int, i + 1);
            assert(ls.drop_last() =~= views(src@).subrange(a as int, i as int));
            assert(ls.last() == src@[i as int]@);
        }
        assert(t@ =~= start + change_block(views(src@).subrange(a as int, i + 1), mark, st));
        i += 1;
    }
}

/// A file under review: the upstream and patched texts, their lines, and the sections of
/// their line diff.
pub struct FileReview {
    upstream: String,
    patched: String,
    upstream_lines: Vec<Vec<char>>,
    patched_lines: Vec<Vec<char>>,
    upstream_tokens: Vec<Vec<char>>,
    patched_tokens: Vec<Vec<char>>,
    groups: Vec<Vec<DiffOpSpan>>,
}

impl FileReview {
    /// The upstream text.
    pub closed spec fn upstream_text(&self) -> Seq<char> {
        self.upstream@
    }

    /// The patched text.
    pub closed spec fn patched_text(&self) -> Seq<char> {
        self.patched@
    }

    /// The sections of the diff.
    pub closed spec fn sections(&self) -> Seq<Seq<DiffOpSpan>> {
        groups_view(self.groups@)
    }

    /// The stored lines are the lines of the two texts, and the sections are a diff of
    /// them where `similar` cuts the texts into the same lines.
    pub closed spec fn wf(&self) -> bool {
        &&& views(self.upstream_lines@) == lines(self.upstream@)
        &&& views(self.patched_lines@) == lines(self.patched@)
        &&& views(self.upstream_tokens@) == line_tokens(self.upstream@)
        &&& views(self.patched_tokens@) == line_tokens(self.patched@)
        &&& no_lone_cr(self.upstream@) && no_lone_cr(self.patched@) ==> diff_aligned(
            groups_view(self.groups@),
            lines(self.upstream@),
            lines(self.patched@),
        )
    }

    /// Prepares the review of a file: its upstream and patched texts, and the sections of
    /// their line diff with three lines of context.
    pub fn new(upstream_text: &str, patched_text: &str) -> (r: FileReview)
        ensures
            r.wf(),
            r.upstream_text() == upstream_text@,
            r.patched_text() == patched_text@,
            r.sections() == spec_grouped_ops(upstream_text@, patched_text@, CONTEXT_RADIUS),
            no_lone_cr(upstream_text@) && no_lone_cr(patched_text@) ==> diff_aligned(
                r.sections(),
                lines(upstream_text@),
                lines(patched_text@),
            ),
    {
        let groups = grouped_ops(upstream_text, patched_text, CONTEXT_RADIUS);
        let upstream_lines = split_lines(&chars_of(upstream_text));
        let patched_lines = split_lines(&chars_of(patched_text));
        let upstream_tokens = split_line_tokens(&chars_of(upstream_text));
        let patched_tokens = split_line_tokens(&chars_of(patched_text));
        FileReview {
            upstream: upstream_text.to_owned(),
            patched: patched_text.to_owned(),
            upstream_lines,
            patched_lines,
            upstream_tokens,
            patched_tokens,
            groups,
        }
    }

    /// The number of sections.
    pub fn section_count(&self) -> (n: usize)
        ensures
            n == self.sections().len(),
    {
        self.groups.len()
    }

    /// Whether section `i` has a change to review.
    pub fn section_has_changes(&self, i: usize) -> (b: bool)
        requires
            i < self.sections().len(),
        ensures
            b == has_changes(self.sections()[i as int]),
    {
        group_has_changes(&self.groups[i])
    }

    /// Whether the sections lie within the two texts, one after the other.
    pub fn sections_fit(&self) -> (b: bool)
        requires
            self.wf(),
        ensures
            b == sections_fit(
                self.sections(),
                0,
                lines(self.upstream_text()).len() as int,
                lines(self.patched_text()).len() as int,
            ),
            no_lone_cr(self.upstream_text()) && no_lone_cr(self.patched_text()) ==> b,
    {
        proof {
            if no_lone_cr(self.upstream_text()) && no_lone_cr(self.patched_text()) {
                lemma_diff_sections_fit(
                    self.sections(),
                    lines(self.upstream_text()),
                    lines(self.patched_text()),
                );
            }
        }
        check_sections_fit(&self.groups, self.upstream_lines.len(), self.patched_lines.len())
    }

    /// Whether section `i` lies within the two texts.
    pub fn section_fits(&self, i: usize) -> (b: bool)
        requires
            self.wf(),
            i < self.sections().len(),
        ensures
            b == group_fits(
                self.sections()[i as int],
                0,
                lines(self.upstream_text()).len() as int,
                lines(self.patched_text()).len() as int,
            ),
    {
        let g = &self.groups[i];
        assert(self.sections()[i as int] == g@);
        let ulen = self.upstream_lines.len();
        let plen = self.patched_lines.len();
        assert(ulen == lines(self.upstream_text()).len());
        assert(plen == lines(self.patched_text()).len());
        let mut k: usize = 0;
        while k < g.len()
            invariant
                k <= g.len(),
                i < self.sections().len(),
                self.sections()[i as int] == g@,
                ulen == lines(self.upstream_text()).len(),
                plen == lines(self.patched_text()).len(),
                forall|j: int| 0 <= j < k ==> op_fits(#[trigger] g@[j], ulen as int, plen as int),
            decreases g.len() - k,
        {
            let op = g[k];
            if !(op.old_start <= op.old_end && op.old_end <= ulen && op.new_start <= op.new_end
                && op.new_end <= plen) {
                return false;
            }
            k += 1;
        }
        let os: usize = if g.len() > 0 { g[0].old_start } else { 0 };
        let oe: usize = if g.len() > 0 { g[g.len() - 1].old_end } else { 0 };
        let ns: usize = if g.len() > 0 { g[0].new_start } else { 0 };
        let ne: usize = if g.len() > 0 { g[g.len() - 1].new_end } else { 0 };
        os <= oe && oe <= ulen && ns <= ne && ne <= plen
    }

    /// Section `i` as shown for review: its heading, then its changes.
    pub fn render_section(&self, i: usize) -> (t: StyledText)
        requires
            self.wf(),
            i < self.sections().len(),
            group_fits(
                self.sections()[i as int],
                0,
                lines(self.upstream_text()).len() as int,
                lines(self.patched_text()).len() as int,
            ),
        ensures
            t@ == section_heading(i as nat, self.sections().len(), self.sections()[i as int])
                + ops_display(
                self.sections()[i as int],
                line_tokens(self.upstream_text()),
                line_tokens(self.patched_text()),
            ),
    {
        let g = &self.groups[i];
        let ghost u = views(self.upstream_tokens@);
        let ghost p = views(self.patched_tokens@);
        proof {
            lemma_tokens_count(self.upstream_text(), seq![]);
            lemma_tokens_count(self.patched_text(), seq![]);
        }
        assert(self.sections()[i as int] == g@);
        assert(i < self.groups.len());
        let os: usize = if g.len() > 0 { g[0].old_start } else { 0 };
        let oe: usize = if g.len() > 0 { g[g.len() - 1].old_end } else { 0 };
        let mut t = StyledText::new();
        t.push_plain("\n    ");
        t.push_str("───", Style::new_dimmed());
        let mut h: Vec<char> = Vec::new();
        crate::text::append_str(&mut h, " Section ");
        push_decimal(&mut h, i + 1);
        crate::text::append_str(&mut h, "/");
        push_decimal(&mut h, self.groups.len());
        crate::text::append_str(&mut h, " (lines ");
        crate::text::push_decimal_wide(&mut h, (os as u128) + 1);
        crate::text::append_str(&mut h, "-");
        push_decimal(&mut h, oe);
        crate::text::append_str(&mut h, "):\n");
        t.push_chars(&h, Style::new_plain());
        assert(t@ =~= section_heading(i as nat, self.sections().len(), g@));
        let ghost head = t@;
        let mut k: usize = 0;
        assert(g@.take(0) =~= Seq::<DiffOpSpan>::empty());
        while k < g.len()
            invariant
                k <= g.len(),
                self.wf(),
                u == views(self.upstream_tokens@),
                p == views(self.patched_tokens@),
                u == line_tokens(self.upstream_text()),
                p == line_tokens(self.patched_text()),
                forall|j: int| 0 <= j < g.len() ==> op_fits(#[trigger] g@[j], u.len() as int, p.len() as int),
                t@ == head + ops_display(g@.take(k as int), u, p),
            decreases g.len() - k,
        {
            let op = g[k];
            assert(g@.take(k + 1).drop_last() =~= g@.take(k as int));
            assert(g@.take(k + 1).last() == op);
            assert(op_fits(g@[k as int], u.len() as int, p.len() as int));
            let ghost before = t@;
            match op.kind {
                OpKind::Equal => {
                    push_change_block(&mut t, &self.upstream_tokens, op.old_start, op.old_end, ' ', Style::new_dimmed());
                },
                OpKind::Delete => {
                    push_change_block(&mut t, &self.upstream_tokens, op.old_start, op.old_end, '-', Style::new_colored(Color::Red));
                },
                OpKind::Insert => {
                    push_change_block(&mut t, &self.patched_tokens, op.new_start, op.new_end, '+', Style::new_colored(Color::Green));
                },
                OpKind::Replace => {
                    push_change_block(&mut t, &self.upstream_tokens, op.old_start, op.old_end, '-', Style::new_colored(Color::Red));
                    push_change_block(&mut t, &self.patched_tokens, op.new_start, op.new_end, '+', Style::new_colored(Color::Green));
                },
            }
            assert(t@ =~= before + op_display(op, u, p));
            k += 1;
        }
        assert(g@.take(g.len() as int) =~= g@);
        t
    }

    /// Every section as shown for review, each in its place: the shown section for one
    /// with changes, nothing for one without; nothing at all when the sections do not lie
    /// within the texts, one after the other.
    pub fn render_sections(&self) -> (r: Option<Vec<Option<StyledText>>>)
        requires
            self.wf(),
        ensures
            r is Some <==> sections_fit(
                self.sections(),
                0,
                lines(self.upstream_text()).len() as int,
                lines(self.patched_text()).len() as int,
            ),
            match r {
                Some(v) => {
                    &&& v.len() == self.sections().len()
                    &&& forall|i: int|
                        0 <= i < v.len() ==> ((#[trigger] v@[i]) is Some <==> has_changes(
                            self.sections()[i],
                        ))
                    &&& forall|i: int|
                        0 <= i < v.len() ==> match #[trigger] v@[i] {
                            Some(t) => t@ == section_heading(
                                i as nat,
                                self.sections().len(),
                                self.sections()[i],
                            ) + ops_display(
                                self.sections()[i],
                                line_tokens(self.upstream_text()),
                                line_tokens(self.patched_text()),
                            ),
                            None => true,
                        }
                },
                None => true,
            },
            no_lone_cr(self.upstream_text()) && no_lone_cr(self.patched_text()) ==> r is Some,
    {
        proof {
            if no_lone_cr(self.upstream_text()) && no_lone_cr(self.patched_text()) {
                lemma_diff_sections_fit(
                    self.sections(),
                    lines(self.upstream_text()),
                    lines(self.patched_text()),
                );
            }
        }
        if !self.sections_fit() {
            return None;
        }
        proof {
            lemma_fit_sections_each_fit(
                self.sections(),
                0,
                lines(self.upstream_text()).len() as int,
                lines(self.patched_text()).len() as int,
            );
        }
        let n = self.section_count();
        let mut out: Vec<Option<StyledText>> = Vec::new();
        let mut i: usize = 0;
        while i < n
            invariant
                i <= n,
                n == self.sections().len(),
                self.wf(),
                out.len() == i,
                forall|k: int| 0 <= k < self.sections().len() ==> group_fits(
                    #[trigger] self.sections()[k],
                    0,
                    lines(self.upstream_text()).len() as int,
                    lines(self.patched_text()).len() as int,
                ),
                forall|k: int|
                    0 <= k < i ==> ((#[trigger] out@[k]) is Some <==> has_changes(self.sections()[k])),
                forall|k: int|
                    0 <= k < i ==> match #[trigger] out@[k] {
                        Some(t) => t@ == section_heading(k as nat, self.sections().len(), self.sections()[k])
                            + ops_display(
                            self.sections()[k],
                            line_tokens(self.upstream_text()),
                            line_tokens(self.patched_text()),
                        ),
                        None => true,
                    },
            decreases n - i,
        {
            if self.section_has_changes(i) {
                let t = self.render_section(i);
                out.push(Some(t));
            } else {
                out.push(None);
            }
            i += 1;
        }
        Some(out)
    }

    /// The resolved text for the given choices, one per section (the choice of a section
    /// without changes is not used); nothing when the choices do not match the sections
    /// or the sections do not lie within the texts.
    pub fn resolve(&self, choices: &Vec<SectionChoice>) -> (r: Option<String>)
        requires
            self.wf(),
        ensures
            r is Some <==> (choices.len() == self.sections().len() && sections_fit(
                self.sections(),
                0,
                lines(self.upstream_text()).len() as int,
                lines(self.patched_text()).len() as int,
            )),
            match r {
                Some(s) => s@ == resolved_text(
                    self.upstream_text(),
                    self.patched_text(),
                    self.sections(),
                    choices@,
                ),
                None => true,
            },
            choices.len() == self.sections().len() && no_lone_cr(self.upstream_text())
                && no_lone_cr(self.patched_text()) ==> r is Some,
    {
        proof {
            if no_lone_cr(self.upstream_text()) && no_lone_cr(self.patched_text()) {
                lemma_diff_sections_fit(
                    self.sections(),
                    lines(self.upstream_text()),
                    lines(self.patched_text()),
                );
            }
        }
        if choices.len() != self.groups.len() || !self.sections_fit() {
            return None;
        }
        Some(resolve_sections(self.upstream.as_str(), self.patched.as_str(), &self.groups, choices))
    }
}

} // verus!
