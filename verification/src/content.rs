//! File contents: whitespace normalization, unified diffs and the counting
//! of changed lines in them.

use vstd::prelude::*;
use crate::text::{
    chars_of, join_lines, join_lines_chars, lines, slice_chars, split_lines, starts_with,
    is_ws, string_from_chars, trim_end, trim_end_len, views,
};

verus! {

/// The text with every `"\r\n"`, and then every remaining `'\r'`, replaced by `'\n'`.
pub open spec fn replace_newlines(s: Seq<char>) -> Seq<char>
    decreases s.len(),
{
    if s.len() == 0 {
        s
    } else if s[0] == '\r' && s.len() >= 2 && s[1] == '\n' {
        seq!['\n'] + replace_newlines(s.skip(2))
    } else if s[0] == '\r' {
        seq!['\n'] + replace_newlines(s.drop_first())
    } else {
        seq![s[0]] + replace_newlines(s.drop_first())
    }
}

/// A text compared without regard to line endings or trailing whitespace:
/// line endings made `'\n'`, each line trimmed at its end, the lines joined with
/// `'\n'` (so that no final line ending remains).
pub open spec fn normalized(s: Seq<char>) -> Seq<char> {
    join_lines(lines(replace_newlines(s)).map_values(|l: Seq<char>| trim_end(l)))
}

/// The content as it is compared: as it stands in strict mode, normalized otherwise.
pub open spec fn prepared(raw: Seq<char>, strict_whitespace: bool) -> Seq<char> {
    if strict_whitespace {
        raw
    } else {
        normalized(raw)
    }
}

/// The header lines of a unified diff.
pub open spec fn diff_header(old_label: Seq<char>, new_label: Seq<char>) -> Seq<char> {
    seq!['-', '-', '-', ' '] + old_label + seq!['\n', '+', '+', '+', ' '] + new_label + seq!['\n']
}

/// What `similar` renders as the unified diff of two texts compared line by line,
/// with the given header labels and number of context lines.
pub uninterp spec fn spec_unified_diff(
    old: Seq<char>,
    new: Seq<char>,
    old_label: Seq<char>,
    new_label: Seq<char>,
    context_radius: usize,
) -> Seq<char>;

/// Trusted: `similar::TextDiff::from_lines(old, new).unified_diff()` with the given
/// header and context radius, rendered with `to_string`. The contract names the
/// result; of its content it states only what the renderer's source shows plainly:
/// the output is empty when there is no hunk, and otherwise begins with the two
/// header lines `--- old_label` and `+++ new_label`. Every other line begins with a
/// hunk header `@@`, a change tag (`-` for a line of `old`, `+` for a line of `new`,
/// a space for a line of both) or the backslash of a missing-newline hint; so when `old` is
/// empty no line is a deletion line, and when `new` is empty none is an insertion line
/// (for labels without a line break). Different texts cut into different lines, whose
/// diff has a change, which makes a hunk: the output is then not empty. Which hunks and
/// lines the diff holds is not stated. The radius is at most half of `usize::MAX`, since `similar` groups the lines
/// by comparing a run with twice the radius.
#[verifier::external_body]
fn similar_unified_diff(
    old: &str,
    new: &str,
    old_label: &str,
    new_label: &str,
    context_radius: usize,
) -> (r: String)
    requires
        context_radius <= usize::MAX / 2,
    ensures
        r@ == spec_unified_diff(old@, new@, old_label@, new_label@, context_radius),
        r@.len() == 0 || starts_with(r@, diff_header(old_label@, new_label@)),
        old@ != new@ ==> r@.len() > 0,
        old@.len() == 0 && !old_label@.contains('\n') && !new_label@.contains('\n') ==> forall|
            k: int,
        |
            0 <= k < lines(r@).len() ==> !is_deletion_line(#[trigger] lines(r@)[k]),
        new@.len() == 0 && !old_label@.contains('\n') && !new_label@.contains('\n') ==> forall|
            k: int,
        |
            0 <= k < lines(r@).len() ==> !is_insertion_line(#[trigger] lines(r@)[k]),
{
    similar::TextDiff::from_lines(old, new).unified_diff().header(old_label, new_label).context_radius(
        context_radius,
    ).to_string()
}

/// The number of context lines around each change.
pub const CONTEXT_RADIUS: usize = 3;

/// The unified diff from `old` to `new`: empty when the texts are equal.
pub open spec fn unified_diff(
    old: Seq<char>,
    new: Seq<char>,
    old_label: Seq<char>,
    new_label: Seq<char>,
) -> Seq<char> {
    if old == new {
        seq![]
    } else {
        spec_unified_diff(old, new, old_label, new_label, CONTEXT_RADIUS)
    }
}

/// A line that a diff adds: it begins with `+` but is not a `+++` header.
pub open spec fn is_insertion_line(l: Seq<char>) -> bool {
    starts_with(l, seq!['+']) && !starts_with(l, seq!['+', '+', '+'])
}

/// A line that a diff removes: it begins with `-` but is not a `---` header.
pub open spec fn is_deletion_line(l: Seq<char>) -> bool {
    starts_with(l, seq!['-']) && !starts_with(l, seq!['-', '-', '-'])
}

/// How many of the lines are insertion lines.
pub open spec fn count_insertions(ls: Seq<Seq<char>>) -> nat
    decreases ls.len(),
{
    if ls.len() == 0 {
        0
    } else {
        count_insertions(ls.drop_last()) + if is_insertion_line(ls.last()) {
            1nat
        } else {
            0nat
        }
    }
}

/// How many of the lines are deletion lines.
pub open spec fn count_deletions(ls: Seq<Seq<char>>) -> nat
    decreases ls.len(),
{
    if ls.len() == 0 {
        0
    } else {
        count_deletions(ls.drop_last()) + if is_deletion_line(ls.last()) {
            1nat
        } else {
            0nat
        }
    }
}

proof fn lemma_counts_bounded(ls: Seq<Seq<char>>)
    ensures
        count_insertions(ls) <= ls.len(),
        count_deletions(ls) <= ls.len(),
    decreases ls.len(),
{
    if ls.len() > 0 {
        lemma_counts_bounded(ls.drop_last());
    }
}

/// The text with every `"\r\n"`, and then every remaining `'\r'`, replaced by `'\n'`.
fn replace_newlines_chars(v: &Vec<char>) -> (out: Vec<char>)
    ensures
        out@ == replace_newlines(v@),
{
    let mut out: Vec<char> = Vec::new();
    let mut i: usize = 0;
    assert(v@.skip(0) =~= v@);
    while i < v.len()
        invariant
            i <= v.len(),
            replace_newlines(v@) == out@ + replace_newlines(v@.skip(i as int)),
        decreases v.len() - i,
    {
        let ghost rest = v@.skip(i as int);
        if v[i] == '\r' && i + 1 < v.len() && v[i + 1] == '\n' {
            assert(rest.skip(2) =~= v@.skip(i + 2));
            out.push('\n');
            assert(out@ + replace_newlines(v@.skip(i + 2)) =~= old_out_plus(rest, out@));
            i += 2;
        } else {
            assert(rest.drop_first() =~= v@.skip(i + 1));
            if v[i] == '\r' {
                out.push('\n');
            } else {
                out.push(v[i]);
            }
            i += 1;
        }
    }
    assert(v@.skip(i as int) =~= Seq::<char>::empty());
    assert(out@ + Seq::<char>::empty() =~= out@);
    out
}

spec fn old_out_plus(rest: Seq<char>, out: Seq<char>) -> Seq<char> {
    out + replace_newlines(rest.skip(2))
}

/// The content with line endings made `'\n'`, trailing whitespace removed from every
/// line, and no final line ending.
pub fn normalize_whitespace(content: &str) -> (r: String)
    ensures
        r@ == normalized(content@),
{
    let v = chars_of(content);
    let replaced = replace_newlines_chars(&v);
    let ls = split_lines(&replaced);
    let ghost spec_lines = lines(replace_newlines(content@));
    let mut trimmed: Vec<Vec<char>> = Vec::new();
    let mut i: usize = 0;
    while i < ls.len()
        invariant
            i <= ls.len(),
            views(ls@) == spec_lines,
            views(trimmed@) == spec_lines.take(i as int).map_values(|l: Seq<char>| trim_end(l)),
        decreases ls.len() - i,
    {
        let line = &ls[i];
        let k = trim_end_len(line);
        let t = slice_chars(line, 0, k);
        assert(t@ =~= line@.take(k as int));
        proof {
            assert(spec_lines.take(i + 1) =~= spec_lines.take(i as int).push(spec_lines[i as int]));
            assert(views(trimmed@.push(t)) =~= views(trimmed@).push(t@));
        }
        trimmed.push(t);
        proof {
            assert(views(trimmed@) =~= spec_lines.take(i + 1).map_values(
                |l: Seq<char>| trim_end(l),
            ));
        }
        i += 1;
    }
    assert(spec_lines.take(ls.len() as int) =~= spec_lines);
    let joined = join_lines_chars(&trimmed);
    string_from_chars(&joined)
}

/// The content as it is compared: unchanged in strict mode, normalized otherwise.
pub fn prepare_content(raw: &str, strict_whitespace: bool) -> (r: String)
    ensures
        r@ == prepared(raw@, strict_whitespace),
{
    if strict_whitespace {
        raw.to_owned()
    } else {
        normalize_whitespace(raw)
    }
}

/// The unified diff from `old` to `new` under the given header labels, with three
/// lines of context; empty exactly when the texts are equal.
pub fn make_unified_diff(old: &str, new: &str, old_label: &str, new_label: &str) -> (r: String)
    ensures
        r@ == unified_diff(old@, new@, old_label@, new_label@),
        old@ != new@ ==> r@.len() > 0,
        r@.len() == 0 || starts_with(r@, diff_header(old_label@, new_label@)),
        old@.len() == 0 && !old_label@.contains('\n') && !new_label@.contains('\n')
            ==> count_deletions(lines(r@)) == 0,
        new@.len() == 0 && !old_label@.contains('\n') && !new_label@.contains('\n')
            ==> count_insertions(lines(r@)) == 0,
{
    let o = chars_of(old);
    let n = chars_of(new);
    if crate::paths::chars_eq(&o, &n) {
        proof {
            assert(lines(Seq::<char>::empty()) =~= Seq::<Seq<char>>::empty());
        }
        return String::new();
    }
    let r = similar_unified_diff(old, new, old_label, new_label, CONTEXT_RADIUS);
    proof {
        lemma_no_change_lines(lines(r@));
    }
    r
}

/// Lines none of which is an insertion (or a deletion) line count none.
proof fn lemma_no_change_lines(ls: Seq<Seq<char>>)
    ensures
        (forall|k: int| 0 <= k < ls.len() ==> !is_insertion_line(#[trigger] ls[k]))
            ==> count_insertions(ls) == 0,
        (forall|k: int| 0 <= k < ls.len() ==> !is_deletion_line(#[trigger] ls[k]))
            ==> count_deletions(ls) == 0,
    decreases ls.len(),
{
    if ls.len() > 0 {
        let init = ls.drop_last();
        lemma_no_change_lines(init);
        if forall|k: int| 0 <= k < ls.len() ==> !is_insertion_line(#[trigger] ls[k]) {
            assert forall|k: int| 0 <= k < init.len() implies !is_insertion_line(
                #[trigger] init[k],
            ) by {
                assert(init[k] == ls[k]);
            }
            assert(!is_insertion_line(ls[ls.len() - 1]));
        }
        if forall|k: int| 0 <= k < ls.len() ==> !is_deletion_line(#[trigger] ls[k]) {
            assert forall|k: int| 0 <= k < init.len() implies !is_deletion_line(
                #[trigger] init[k],
            ) by {
                assert(init[k] == ls[k]);
            }
            assert(!is_deletion_line(ls[ls.len() - 1]));
        }
    }
}

/// The numbers of inserted and deleted lines in a unified diff, header lines excluded.
pub fn count_changes(diff_text: &str) -> (r: (usize, usize))
    ensures
        r.0 == count_insertions(lines(diff_text@)),
        r.1 == count_deletions(lines(diff_text@)),
{
    let v = chars_of(diff_text);
    let ls = split_lines(&v);
    let ghost sl = views(ls@);
    let plus: Vec<char> = vec!['+'];
    let plus3: Vec<char> = vec!['+', '+', '+'];
    let minus: Vec<char> = vec!['-'];
    let minus3: Vec<char> = vec!['-', '-', '-'];
    let mut ins: usize = 0;
    let mut del: usize = 0;
    let mut i: usize = 0;
    while i < ls.len()
        invariant
            i <= ls.len(),
            sl == views(ls@),
            plus@ == seq!['+'],
            plus3@ == seq!['+', '+', '+'],
            minus@ == seq!['-'],
            minus3@ == seq!['-', '-', '-'],
            ins == count_insertions(sl.take(i as int)),
            del == count_deletions(sl.take(i as int)),
        decreases ls.len() - i,
    {
        proof {
            assert(sl.take(i + 1).drop_last() =~= sl.take(i as int));
            assert(sl.take(i + 1).last() == ls@[i as int]@);
            lemma_counts_bounded(sl.take(i as int));
        }
        let line = &ls[i];
        proof {
            if line@.len() > 0 {
                assert(line@.take(1)[0] == line@[0]);
                assert(seq!['+'][0] == '+');
                assert(seq!['-'][0] == '-');
            }
        }
        if crate::text::starts_with_chars(line, &plus) && !crate::text::starts_with_chars(
            line,
            &plus3,
        ) {
            ins += 1;
        } else if crate::text::starts_with_chars(line, &minus) && !crate::text::starts_with_chars(
            line,
            &minus3,
        ) {
            del += 1;
        }
        i += 1;
    }
    assert(sl.take(ls.len() as int) =~= sl);
    (ins, del)
}


/// The text with every `'\n'` written as `"\r\n"`.
pub open spec fn with_crlf(s: Seq<char>) -> Seq<char>
    decreases s.len(),
{
    if s.len() == 0 {
        s
    } else if s[0] == '\n' {
        seq!['\r', '\n'] + with_crlf(s.drop_first())
    } else {
        seq![s[0]] + with_crlf(s.drop_first())
    }
}

/// A text without `'\r'` keeps its line endings as they are, and gets them back from its
/// `"\r\n"` form.
proof fn lemma_replace_newlines_crlf(s: Seq<char>)
    requires
        !s.contains('\r'),
    ensures
        replace_newlines(with_crlf(s)) == s,
        replace_newlines(s) == s,
    decreases s.len(),
{
    if s.len() > 0 {
        let rest = s.drop_first();
        assert(!rest.contains('\r')) by {
            if rest.contains('\r') {
                let k = choose|k: int| 0 <= k < rest.len() && rest[k] == '\r';
                assert(s[k + 1] == '\r');
            }
        }
        assert(s[0] != '\r');
        lemma_replace_newlines_crlf(rest);
        let w = with_crlf(s);
        if s[0] == '\n' {
            assert(w.skip(2) =~= with_crlf(rest));
            assert(seq!['\n'] + rest =~= s);
        } else {
            assert(w.drop_first() =~= with_crlf(rest));
            assert(seq![s[0]] + rest =~= s);
        }
    }
}

/// Line endings do not matter unless whitespace is compared strictly: a text compares the
/// same with `"\n"` and with `"\r\n"` line endings.
pub proof fn lemma_line_endings_ignored(s: Seq<char>)
    requires
        !s.contains('\r'),
    ensures
        prepared(with_crlf(s), false) == prepared(s, false),
{
    lemma_replace_newlines_crlf(s);
}

/// Equal contents have an empty diff, with no line inserted or deleted.
pub proof fn lemma_equal_contents_no_diff(x: Seq<char>, old_label: Seq<char>, new_label: Seq<char>)
    ensures
        unified_diff(x, x, old_label, new_label) == Seq::<char>::empty(),
        count_insertions(lines(unified_diff(x, x, old_label, new_label))) == 0,
        count_deletions(lines(unified_diff(x, x, old_label, new_label))) == 0,
{
    assert(lines(Seq::<char>::empty()) =~= Seq::<Seq<char>>::empty());
}

/// A piece of a line: no line break in it.
pub open spec fn no_break(c: Seq<char>) -> bool {
    !c.contains('\n') && !c.contains('\r')
}

/// Spaces and tabs only.
pub open spec fn blank_pad(p: Seq<char>) -> bool {
    forall|i: int| 0 <= i < p.len() ==> p[i] == ' ' || p[i] == '\t'
}

/// A line ending: `"\n"`, `"\r\n"` or a lone `'\r'`.
pub open spec fn line_ending(e: Seq<char>) -> bool {
    e == seq!['\n'] || e == seq!['\r', '\n'] || e == seq!['\r']
}

/// Lines written out: each its content, then trailing spaces or tabs, then its ending.
pub open spec fn laid_out(ls: Seq<(Seq<char>, Seq<char>, Seq<char>)>) -> Seq<char>
    decreases ls.len(),
{
    if ls.len() == 0 {
        seq![]
    } else {
        ls[0].0 + ls[0].1 + ls[0].2 + laid_out(ls.drop_first())
    }
}

/// Each line's content has no break, its padding is blank and its ending is a line ending;
/// a lone `'\r'` is not directly followed by an empty unpadded line ending in `"\n"`
/// (the two would read as one `"\r\n"`).
pub open spec fn well_laid(ls: Seq<(Seq<char>, Seq<char>, Seq<char>)>) -> bool {
    &&& forall|i: int|
        0 <= i < ls.len() ==> no_break(#[trigger] ls[i].0) && blank_pad(ls[i].1) && line_ending(
            ls[i].2,
        )
    &&& forall|i: int|
        0 <= i < ls.len() - 1 && #[trigger] ls[i].2 == seq!['\r'] ==> !(ls[i + 1].0.len() == 0
            && ls[i + 1].1.len() == 0 && ls[i + 1].2 == seq!['\n'])
}

/// The same lines, unpadded and ended with `'\n'`.
spec fn laid_out_lf(ls: Seq<(Seq<char>, Seq<char>, Seq<char>)>) -> Seq<char>
    decreases ls.len(),
{
    if ls.len() == 0 {
        seq![]
    } else {
        ls[0].0 + ls[0].1 + seq!['\n'] + laid_out_lf(ls.drop_first())
    }
}

/// Text without `'\r'` passes through unchanged in front of the rest.
proof fn lemma_newlines_plain(p: Seq<char>, rest: Seq<char>)
    requires
        !p.contains('\r'),
    ensures
        replace_newlines(p + rest) == p + replace_newlines(rest),
    decreases p.len(),
{
    if p.len() > 0 {
        let t = p.drop_first();
        assert(!t.contains('\r')) by {
            if t.contains('\r') {
                let k = choose|k: int| 0 <= k < t.len() && t[k] == '\r';
                assert(p[k + 1] == '\r');
            }
        }
        assert(p[0] != '\r') by {
            assert(p.contains(p[0]));
        }
        lemma_newlines_plain(t, rest);
        assert((p + rest).drop_first() =~= t + rest);
        assert(seq![p[0]] + (t + replace_newlines(rest)) =~= p + replace_newlines(rest));
    } else {
        assert(p + rest =~= rest);
        assert(p + replace_newlines(rest) =~= replace_newlines(rest));
    }
}

/// A nonempty well-laid text, followed by anything, does not begin with `'\n'` unless its
/// first line is empty, unpadded and ends with `"\n"`.
proof fn lemma_laid_out_first(ls: Seq<(Seq<char>, Seq<char>, Seq<char>)>, tail: Seq<char>)
    requires
        well_laid(ls),
        ls.len() > 0,
        !(ls[0].0.len() == 0 && ls[0].1.len() == 0 && ls[0].2 == seq!['\n']),
    ensures
        (laid_out(ls) + tail).len() > 0,
        (laid_out(ls) + tail)[0] != '\n',
{
    let x = laid_out(ls) + tail;
    let e = ls[0];
    assert(no_break(e.0) && blank_pad(e.1) && line_ending(e.2));
    assert(x =~= e.0 + e.1 + e.2 + (laid_out(ls.drop_first()) + tail));
    if e.0.len() > 0 {
        assert(x[0] == e.0[0]);
        assert(e.0.contains(e.0[0]));
    } else if e.1.len() > 0 {
        assert(x[0] == e.1[0]);
    } else {
        assert(x[0] == e.2[0]);
    }
}

/// Every line ending of a well-laid text becomes `'\n'`.
proof fn lemma_laid_out_newlines(ls: Seq<(Seq<char>, Seq<char>, Seq<char>)>, tail: Seq<char>)
    requires
        well_laid(ls),
        no_break(tail),
    ensures
        replace_newlines(laid_out(ls) + tail) == laid_out_lf(ls) + tail,
    decreases ls.len(),
{
    if ls.len() == 0 {
        lemma_newlines_plain(tail, seq![]);
        assert(laid_out(ls) + tail =~= tail + seq![]);
        assert(laid_out_lf(ls) + tail =~= tail + replace_newlines(seq![]));
    } else {
        let e = ls[0];
        let rest = ls.drop_first();
        assert(no_break(e.0) && blank_pad(e.1) && line_ending(e.2));
        assert(well_laid(rest)) by {
            assert forall|i: int| 0 <= i < rest.len() implies no_break(#[trigger] rest[i].0)
                && blank_pad(rest[i].1) && line_ending(rest[i].2) by {
                assert(rest[i] == ls[i + 1]);
            }
            assert forall|i: int|
                0 <= i < rest.len() - 1 && #[trigger] rest[i].2 == seq!['\r'] implies !(rest[i
                + 1].0.len() == 0 && rest[i + 1].1.len() == 0 && rest[i + 1].2 == seq!['\n']) by {
                assert(rest[i] == ls[i + 1] && rest[i + 1] == ls[i + 2]);
            }
        }
        lemma_laid_out_newlines(rest, tail);
        let r = laid_out(rest) + tail;
        let head = e.0 + e.1;
        assert(!head.contains('\r')) by {
            if head.contains('\r') {
                let k = choose|k: int| 0 <= k < head.len() && head[k] == '\r';
                if k < e.0.len() {
                    assert(e.0[k] == '\r');
                    assert(e.0.contains('\r'));
                } else {
                    assert(e.1[k - e.0.len()] == '\r');
                }
            }
        }
        assert(laid_out(ls) + tail =~= head + (e.2 + r));
        lemma_newlines_plain(head, e.2 + r);
        assert(laid_out_lf(ls) + tail =~= head + (seq!['\n'] + (laid_out_lf(rest) + tail)));
        let w = e.2 + r;
        if e.2 == seq!['\n'] {
            assert(w.drop_first() =~= r);
        } else if e.2 == seq!['\r', '\n'] {
            assert(w.skip(2) =~= r);
        } else {
            assert(w.drop_first() =~= r);
            if rest.len() > 0 {
                assert(ls[1] == rest[0]);
                assert(ls[0].2 == seq!['\r']);
                lemma_laid_out_first(rest, tail);
            } else {
                assert(r =~= tail);
                if r.len() > 0 {
                    assert(tail.contains(tail[0]));
                }
            }
        }
    }
}

/// Reading on over text without `'\n'` only extends the current line.
proof fn lemma_lines_plain(p: Seq<char>, s: Seq<char>, cur: Seq<char>)
    requires
        !p.contains('\n'),
    ensures
        crate::text::lines_from(p + s, cur) == crate::text::lines_from(s, cur + p),
    decreases p.len(),
{
    if p.len() > 0 {
        let t = p.drop_first();
        assert(!t.contains('\n')) by {
            if t.contains('\n') {
                let k = choose|k: int| 0 <= k < t.len() && t[k] == '\n';
                assert(p[k + 1] == '\n');
            }
        }
        assert(p.contains(p[0]));
        lemma_lines_plain(t, s, cur.push(p[0]));
        assert((p + s).drop_first() =~= t + s);
        assert(cur.push(p[0]) + t =~= cur + p);
    } else {
        assert(p + s =~= s);
        assert(cur + p =~= cur);
    }
}

/// The lines of an unpadded, `'\n'`-ended layout followed by an unended last piece.
proof fn lemma_laid_out_lines(ls: Seq<(Seq<char>, Seq<char>, Seq<char>)>, tail: Seq<char>)
    requires
        well_laid(ls),
        no_break(tail),
    ensures
        lines(laid_out_lf(ls) + tail) == ls.map_values(
            |e: (Seq<char>, Seq<char>, Seq<char>)| e.0 + e.1,
        ) + (if tail.len() > 0 {
            seq![tail]
        } else {
            Seq::<Seq<char>>::empty()
        }),
    decreases ls.len(),
{
    if ls.len() == 0 {
        lemma_lines_plain(tail, seq![], seq![]);
        assert(laid_out_lf(ls) + tail =~= tail + seq![]);
        assert(Seq::<char>::empty() + tail =~= tail);
        assert(ls.map_values(|e: (Seq<char>, Seq<char>, Seq<char>)| e.0 + e.1) =~= seq![]);
    } else {
        let e = ls[0];
        let rest = ls.drop_first();
        assert(no_break(e.0) && blank_pad(e.1));
        assert(well_laid(rest)) by {
            assert forall|i: int| 0 <= i < rest.len() implies no_break(#[trigger] rest[i].0)
                && blank_pad(rest[i].1) && line_ending(rest[i].2) by {
                assert(rest[i] == ls[i + 1]);
            }
            assert forall|i: int|
                0 <= i < rest.len() - 1 && #[trigger] rest[i].2 == seq!['\r'] implies !(rest[i
                + 1].0.len() == 0 && rest[i + 1].1.len() == 0 && rest[i + 1].2 == seq!['\n']) by {
                assert(rest[i] == ls[i + 1] && rest[i + 1] == ls[i + 2]);
            }
        }
        lemma_laid_out_lines(rest, tail);
        let head = e.0 + e.1;
        assert(!head.contains('\n')) by {
            if head.contains('\n') {
                let k = choose|k: int| 0 <= k < head.len() && head[k] == '\n';
                if k < e.0.len() {
                    assert(e.0[k] == '\n');
                    assert(e.0.contains('\n'));
                } else {
                    assert(e.1[k - e.0.len()] == '\n');
                }
            }
        }
        let r = laid_out_lf(rest) + tail;
        assert(laid_out_lf(ls) + tail =~= head + (seq!['\n'] + r));
        lemma_lines_plain(head, seq!['\n'] + r, seq![]);
        assert(Seq::<char>::empty() + head =~= head);
        assert((seq!['\n'] + r).drop_first() =~= r);
        assert(crate::text::strip_cr(head) == head) by {
            if head.len() > 0 {
                if head.len() > e.0.len() {
                    assert(head.last() == e.1[e.1.len() - 1]);
                } else {
                    assert(head.last() == e.0[e.0.len() - 1]);
                    assert(e.0.contains(e.0[e.0.len() - 1]));
                }
            }
        }
        let f = |e: (Seq<char>, Seq<char>, Seq<char>)| e.0 + e.1;
        assert(ls.map_values(f) =~= seq![head] + rest.map_values(f));
    }
}

/// Blank padding at the end does not survive trimming.
proof fn lemma_trim_pad(c: Seq<char>, p: Seq<char>)
    requires
        blank_pad(p),
    ensures
        trim_end(c + p) == trim_end(c),
    decreases p.len(),
{
    if p.len() == 0 {
        assert(c + p =~= c);
    } else {
        let q = p.drop_last();
        assert((c + p).last() == p.last());
        assert((c + p).drop_last() =~= c + q);
        lemma_trim_pad(c, q);
    }
}

/// Comparing without regard to whitespace ignores which line endings a text uses
/// (`"\n"`, `"\r\n"` or a lone `'\r'`, mixed as they come) and any spaces or tabs at the
/// ends of its lines: the compared text is the lines' contents, each trimmed at its end,
/// joined with `'\n'`. So two texts that differ only in those respects compare equal.
pub proof fn lemma_layout_ignored(
    ls: Seq<(Seq<char>, Seq<char>, Seq<char>)>,
    last: Seq<char>,
    last_pad: Seq<char>,
)
    requires
        well_laid(ls),
        no_break(last),
        blank_pad(last_pad),
        last.len() > 0 || last_pad.len() == 0,
    ensures
        prepared(laid_out(ls) + last + last_pad, false) == join_lines(
            ls.map_values(|e: (Seq<char>, Seq<char>, Seq<char>)| trim_end(e.0)) + (if last.len()
                > 0 {
                seq![trim_end(last)]
            } else {
                Seq::<Seq<char>>::empty()
            }),
        ),
{
    let tail = last + last_pad;
    assert(no_break(tail)) by {
        if tail.contains('\n') || tail.contains('\r') {
            let k = choose|k: int| 0 <= k < tail.len() && (tail[k] == '\n' || tail[k] == '\r');
            if k < last.len() {
                assert(last[k] == tail[k]);
                assert(last.contains(tail[k]));
            } else {
                assert(last_pad[k - last.len()] == tail[k]);
            }
        }
    }
    assert(laid_out(ls) + last + last_pad =~= laid_out(ls) + tail);
    lemma_laid_out_newlines(ls, tail);
    lemma_laid_out_lines(ls, tail);
    lemma_trim_pad(last, last_pad);
    let f = |e: (Seq<char>, Seq<char>, Seq<char>)| e.0 + e.1;
    let g = |e: (Seq<char>, Seq<char>, Seq<char>)| trim_end(e.0);
    let tl = if tail.len() > 0 {
        seq![tail]
    } else {
        Seq::<Seq<char>>::empty()
    };
    let trimmed = (ls.map_values(f) + tl).map_values(|l: Seq<char>| trim_end(l));
    let expect = ls.map_values(g) + (if last.len() > 0 {
        seq![trim_end(last)]
    } else {
        Seq::<Seq<char>>::empty()
    });
    assert forall|i: int| 0 <= i < ls.len() implies trim_end(#[trigger] ls[i].0 + ls[i].1)
        == trim_end(ls[i].0) by {
        assert(no_break(ls[i].0) && blank_pad(ls[i].1) && line_ending(ls[i].2));
        lemma_trim_pad(ls[i].0, ls[i].1);
    }
    assert(trimmed =~= expect);
}

/// No `'\r'` and no `'\n'` in it.
spec fn unbroken(m: Seq<char>) -> bool {
    forall|i: int| 0 <= i < m.len() ==> m[i] != '\r' && m[i] != '\n'
}

/// No whitespace other than `'\n'` stands at the end of `n` or right before a `'\n'`.
pub open spec fn no_trailing_blanks(n: Seq<char>) -> bool {
    forall|i: int|
        0 <= i < n.len() && is_ws(#[trigger] n[i]) && n[i] != '\n' ==> i + 1 < n.len() && n[i
            + 1] != '\n'
}

/// Replacing line endings leaves no `'\r'`.
proof fn lemma_newlines_no_cr(s: Seq<char>)
    ensures
        forall|i: int| 0 <= i < replace_newlines(s).len() ==> replace_newlines(s)[i] != '\r',
    decreases s.len(),
{
    if s.len() > 0 {
        if s[0] == '\r' && s.len() >= 2 && s[1] == '\n' {
            lemma_newlines_no_cr(s.skip(2));
        } else {
            lemma_newlines_no_cr(s.drop_first());
        }
        let r = replace_newlines(s);
        assert forall|i: int| 0 <= i < r.len() implies r[i] != '\r' by {
            if i > 0 {
                if s[0] == '\r' && s.len() >= 2 && s[1] == '\n' {
                    assert(r[i] == replace_newlines(s.skip(2))[i - 1]);
                } else {
                    assert(r[i] == replace_newlines(s.drop_first())[i - 1]);
                }
            }
        }
    }
}

/// The lines of a text without `'\r'` hold no line break.
proof fn lemma_lines_unbroken(x: Seq<char>, cur: Seq<char>)
    requires
        forall|i: int| 0 <= i < x.len() ==> x[i] != '\r',
        unbroken(cur),
    ensures
        forall|k: int|
            0 <= k < crate::text::lines_from(x, cur).len() ==> unbroken(
                #[trigger] crate::text::lines_from(x, cur)[k],
            ),
    decreases x.len(),
{
    let ls = crate::text::lines_from(x, cur);
    if x.len() == 0 {
        if cur.len() > 0 {
            assert(ls == seq![cur]);
            assert(ls[0] == cur);
        }
    } else {
        let t = x.drop_first();
        assert forall|i: int| 0 <= i < t.len() implies t[i] != '\r' by {
            assert(t[i] == x[i + 1]);
        }
        if x[0] == '\n' {
            lemma_lines_unbroken(t, seq![]);
            assert(crate::text::strip_cr(cur) == cur) by {
                if cur.len() > 0 {
                    assert(cur[cur.len() - 1] != '\r');
                }
            }
            assert forall|k: int| 0 <= k < ls.len() implies unbroken(#[trigger] ls[k]) by {
                if k > 0 {
                    assert(ls[k] == crate::text::lines_from(t, seq![])[k - 1]);
                }
            }
        } else {
            assert(unbroken(cur.push(x[0]))) by {
                assert(x[0] != '\r');
                assert forall|i: int| 0 <= i < cur.len() + 1 implies cur.push(x[0])[i] != '\r'
                    && cur.push(x[0])[i] != '\n' by {
                    if i < cur.len() {
                        assert(cur.push(x[0])[i] == cur[i]);
                    }
                }
            }
            lemma_lines_unbroken(t, cur.push(x[0]));
            assert(ls == crate::text::lines_from(t, cur.push(x[0])));
        }
    }
}

/// Trimming keeps a prefix and leaves no whitespace at the end.
proof fn lemma_trim_end_solid(x: Seq<char>)
    ensures
        trim_end(x).len() <= x.len(),
        trim_end(x) == x.take(trim_end(x).len() as int),
        trim_end(x).len() == 0 || !is_ws(trim_end(x).last()),
    decreases x.len(),
{
    if x.len() > 0 && is_ws(x.last()) {
        lemma_trim_end_solid(x.drop_last());
        let t = trim_end(x.drop_last());
        assert(x.drop_last().take(t.len() as int) =~= x.take(t.len() as int));
    } else {
        assert(x.take(x.len() as int) =~= x);
    }
}

/// Lines without breaks and without whitespace at their ends, joined with `'\n'`, give a
/// text without `'\r'` and without trailing blanks.
proof fn lemma_join_clean(ms: Seq<Seq<char>>)
    requires
        forall|k: int|
            0 <= k < ms.len() ==> unbroken(#[trigger] ms[k]) && (ms[k].len() == 0 || !is_ws(
                ms[k].last(),
            )),
    ensures
        forall|i: int| 0 <= i < join_lines(ms).len() ==> join_lines(ms)[i] != '\r',
        no_trailing_blanks(join_lines(ms)),
        join_lines(ms).len() == 0 || !(is_ws(join_lines(ms).last()) && join_lines(ms).last()
            != '\n'),
    decreases ms.len(),
{
    let n = join_lines(ms);
    if ms.len() == 1 {
        assert(unbroken(ms[0]));
    } else if ms.len() > 1 {
        let init = ms.drop_last();
        let m = ms.last();
        assert(unbroken(ms[ms.len() - 1]));
        assert forall|k: int| 0 <= k < init.len() implies unbroken(#[trigger] init[k]) && (
        init[k].len() == 0 || !is_ws(init[k].last())) by {
            assert(init[k] == ms[k]);
        }
        lemma_join_clean(init);
        let a = join_lines(init);
        assert(n =~= a + seq!['\n'] + m);
        assert forall|i: int| 0 <= i < n.len() implies n[i] != '\r' by {
            if i < a.len() {
                assert(n[i] == a[i]);
            } else if i > a.len() {
                assert(n[i] == m[i - a.len() - 1]);
            }
        }
        assert forall|i: int|
            0 <= i < n.len() && is_ws(#[trigger] n[i]) && n[i] != '\n' implies i + 1 < n.len()
            && n[i + 1] != '\n' by {
            if i < a.len() {
                assert(n[i] == a[i]);
                if i + 1 < a.len() {
                    assert(n[i + 1] == a[i + 1]);
                } else {
                    assert(a.last() == a[i]);
                }
            } else if i > a.len() {
                let j = i - a.len() - 1;
                assert(n[i] == m[j]);
                if j + 1 < m.len() {
                    assert(n[i + 1] == m[j + 1]);
                } else {
                    assert(m.last() == m[j]);
                }
            }
        }
        if m.len() > 0 {
            assert(n.last() == m.last());
        } else {
            assert(n.last() == '\n');
        }
    }
}

/// A text compared without regard to whitespace holds no `'\r'`, and none of its lines
/// ends with whitespace.
pub proof fn lemma_normalized_clean(s: Seq<char>)
    ensures
        !normalized(s).contains('\r'),
        no_trailing_blanks(normalized(s)),
{
    let r = replace_newlines(s);
    lemma_newlines_no_cr(s);
    lemma_lines_unbroken(r, seq![]);
    let ls = lines(r);
    let ms = ls.map_values(|l: Seq<char>| trim_end(l));
    assert forall|k: int| 0 <= k < ms.len() implies unbroken(#[trigger] ms[k]) && (ms[k].len()
        == 0 || !is_ws(ms[k].last())) by {
        lemma_trim_end_solid(ls[k]);
        assert(unbroken(ls[k]));
        let t = trim_end(ls[k]);
        assert forall|i: int| 0 <= i < t.len() implies t[i] != '\r' && t[i] != '\n' by {
            assert(t[i] == ls[k][i]);
        }
    }
    lemma_join_clean(ms);
    let n = normalized(s);
    if n.contains('\r') {
        let k = choose|k: int| 0 <= k < n.len() && n[k] == '\r';
        assert(false);
    }
}

/// Two layouts of the same lines: line by line the same contents, the same unended last
/// piece, with any endings and any blank padding.
pub open spec fn relaid(
    la: Seq<(Seq<char>, Seq<char>, Seq<char>)>,
    lb: Seq<(Seq<char>, Seq<char>, Seq<char>)>,
    last: Seq<char>,
    pa: Seq<char>,
    pb: Seq<char>,
) -> bool {
    &&& well_laid(la)
    &&& well_laid(lb)
    &&& la.len() == lb.len()
    &&& forall|i: int| 0 <= i < la.len() ==> #[trigger] la[i].0 == lb[i].0
    &&& no_break(last)
    &&& blank_pad(pa)
    &&& blank_pad(pb)
    &&& last.len() > 0 || (pa.len() == 0 && pb.len() == 0)
}

/// `a` and `b` are the same lines, written with other line endings (`"\n"`, `"\r\n"` or a
/// lone `'\r'`) or other spaces and tabs at the ends of lines.
pub open spec fn same_up_to_layout(a: Seq<char>, b: Seq<char>) -> bool {
    exists|
        la: Seq<(Seq<char>, Seq<char>, Seq<char>)>,
        lb: Seq<(Seq<char>, Seq<char>, Seq<char>)>,
        last: Seq<char>,
        pa: Seq<char>,
        pb: Seq<char>,
    |
        #![trigger relaid(la, lb, last, pa, pb)]
        relaid(la, lb, last, pa, pb) && a == laid_out(la) + last + pa && b == laid_out(lb) + last
            + pb
}

/// Texts that differ only in line endings and trailing spaces or tabs compare equal when
/// whitespace is not compared strictly.
pub proof fn lemma_relaid_compare_equal(a: Seq<char>, b: Seq<char>)
    requires
        same_up_to_layout(a, b),
    ensures
        prepared(a, false) == prepared(b, false),
{
    let (la, lb, last, pa, pb) = choose|
        la: Seq<(Seq<char>, Seq<char>, Seq<char>)>,
        lb: Seq<(Seq<char>, Seq<char>, Seq<char>)>,
        last: Seq<char>,
        pa: Seq<char>,
        pb: Seq<char>,
    |
        #![trigger relaid(la, lb, last, pa, pb)]
        relaid(la, lb, last, pa, pb) && a == laid_out(la) + last + pa && b == laid_out(lb) + last
            + pb;
    lemma_layout_ignored(la, last, pa);
    lemma_layout_ignored(lb, last, pb);
    let g = |e: (Seq<char>, Seq<char>, Seq<char>)| trim_end(e.0);
    assert forall|i: int| 0 <= i < la.len() implies la.map_values(g)[i] == lb.map_values(g)[i] by {
        assert(la[i].0 == lb[i].0);
    }
    assert(la.map_values(g) =~= lb.map_values(g));
}

/// The laws of `normalize_whitespace`, whose result is `normalized`: two texts that are
/// the same lines with other line endings (`"\n"`, `"\r\n"`, a lone `'\r'`) or other
/// spaces and tabs at the ends of lines normalize alike; and a normalized text holds no
/// `'\r'` and no line of it ends with whitespace.
pub proof fn lemma_normalize_whitespace_laws(s: Seq<char>, t: Seq<char>)
    requires
        same_up_to_layout(s, t),
    ensures
        normalized(s) == normalized(t),
        !normalized(s).contains('\r'),
        no_trailing_blanks(normalized(s)),
{
    lemma_relaid_compare_equal(s, t);
    lemma_normalized_clean(s);
}

} // verus!
