//! Character-level text handling: the views of strings as `Seq<char>`,
//! line splitting as `str::lines` does it, whitespace trimming, and the
//! small formatting helpers that the renderers use.

use vstd::prelude::*;

verus! {

// ---------------------------------------------------------------------------
// Specifications
// ---------------------------------------------------------------------------

/// The Unicode `White_Space` property, which `char::is_whitespace`,
/// `str::trim` and `str::trim_end` go by.
pub open spec fn is_ws(c: char) -> bool {
    ||| c == '\t'
    ||| c == '\n'
    ||| c == '\u{0B}'
    ||| c == '\u{0C}'
    ||| c == '\r'
    ||| c == ' '
    ||| c == '\u{85}'
    ||| c == '\u{A0}'
    ||| c == '\u{1680}'
    ||| ('\u{2000}' <= c && c <= '\u{200A}')
    ||| c == '\u{2028}'
    ||| c == '\u{2029}'
    ||| c == '\u{202F}'
    ||| c == '\u{205F}'
    ||| c == '\u{3000}'
}

/// Removes one carriage return at the end, if there is one.
pub open spec fn strip_cr(x: Seq<char>) -> Seq<char> {
    if x.len() > 0 && x.last() == '\r' {
        x.drop_last()
    } else {
        x
    }
}

/// The lines of `cur + s`, where `cur` is the part of the current line read so far:
/// a line ends at each `'\n'`, which is dropped together with one `'\r'` before it;
/// a last line without `'\n'` is kept as it is, and an empty one is no line.
pub open spec fn lines_from(s: Seq<char>, cur: Seq<char>) -> Seq<Seq<char>>
    decreases s.len(),
{
    if s.len() == 0 {
        if cur.len() == 0 {
            seq![]
        } else {
            seq![cur]
        }
    } else if s[0] == '\n' {
        seq![strip_cr(cur)] + lines_from(s.drop_first(), seq![])
    } else {
        lines_from(s.drop_first(), cur.push(s[0]))
    }
}

/// The lines of a text, as `str::lines` yields them.
pub open spec fn lines(s: Seq<char>) -> Seq<Seq<char>> {
    lines_from(s, seq![])
}

/// The lines of `cur + s` with their endings kept: each piece ends just after a `'\n'`,
/// and a last piece without one is kept when it is not empty.
pub open spec fn tokens_from(s: Seq<char>, cur: Seq<char>) -> Seq<Seq<char>>
    decreases s.len(),
{
    if s.len() == 0 {
        if cur.len() == 0 {
            seq![]
        } else {
            seq![cur]
        }
    } else if s[0] == '\n' {
        seq![cur.push('\n')] + tokens_from(s.drop_first(), seq![])
    } else {
        tokens_from(s.drop_first(), cur.push(s[0]))
    }
}

/// The lines of a text with their line endings, as `str::split_inclusive('\n')` yields
/// them.
pub open spec fn line_tokens(s: Seq<char>) -> Seq<Seq<char>> {
    tokens_from(s, seq![])
}

/// The text without its trailing whitespace, as `str::trim_end` gives it.
pub open spec fn trim_end(x: Seq<char>) -> Seq<char>
    decreases x.len(),
{
    if x.len() > 0 && is_ws(x.last()) {
        trim_end(x.drop_last())
    } else {
        x
    }
}

/// The text without its leading whitespace, as `str::trim_start` gives it.
pub open spec fn trim_start(x: Seq<char>) -> Seq<char>
    decreases x.len(),
{
    if x.len() > 0 && is_ws(x[0]) {
        trim_start(x.drop_first())
    } else {
        x
    }
}

/// The text without whitespace at either end, as `str::trim` gives it.
pub open spec fn trim(x: Seq<char>) -> Seq<char> {
    trim_end(trim_start(x))
}

/// The pieces joined with `'\n'` between them, as `[..].join("\n")` gives it.
pub open spec fn join_lines(ls: Seq<Seq<char>>) -> Seq<char>
    decreases ls.len(),
{
    if ls.len() == 0 {
        seq![]
    } else if ls.len() == 1 {
        ls[0]
    } else {
        join_lines(ls.drop_last()) + seq!['\n'] + ls.last()
    }
}

/// `x` begins with `p`.
pub open spec fn starts_with(x: Seq<char>, p: Seq<char>) -> bool {
    p.len() <= x.len() && x.take(p.len() as int) == p
}

/// `x` ends with `p`.
pub open spec fn ends_with(x: Seq<char>, p: Seq<char>) -> bool {
    p.len() <= x.len() && x.skip(x.len() - p.len()) == p
}

/// `p` occurs in `x` at position `i`.
pub open spec fn occurs_at(x: Seq<char>, p: Seq<char>, i: int) -> bool {
    0 <= i && i + p.len() <= x.len() && x.subrange(i, i + p.len()) == p
}

/// `p` occurs somewhere in `x`.
pub open spec fn contains(x: Seq<char>, p: Seq<char>) -> bool {
    exists|i: int| occurs_at(x, p, i)
}

/// `n` spaces.
pub open spec fn spaces(n: nat) -> Seq<char> {
    Seq::new(n, |_i: int| ' ')
}

/// `n` copies of `c`.
pub open spec fn repeat(c: char, n: nat) -> Seq<char> {
    Seq::new(n, |_i: int| c)
}

/// `s` right-aligned in a field of `w` characters, as `{:>w$}` formats it.
pub open spec fn pad_start(s: Seq<char>, w: nat) -> Seq<char> {
    if s.len() >= w {
        s
    } else {
        spaces((w - s.len()) as nat) + s
    }
}

/// `s` left-aligned in a field of `w` characters, as `{:<w$}` formats it.
pub open spec fn pad_end(s: Seq<char>, w: nat) -> Seq<char> {
    if s.len() >= w {
        s
    } else {
        s + spaces((w - s.len()) as nat)
    }
}

/// The decimal digit for `d < 10`.
pub open spec fn digit_char(d: nat) -> char {
    if d == 0 {
        '0'
    } else if d == 1 {
        '1'
    } else if d == 2 {
        '2'
    } else if d == 3 {
        '3'
    } else if d == 4 {
        '4'
    } else if d == 5 {
        '5'
    } else if d == 6 {
        '6'
    } else if d == 7 {
        '7'
    } else if d == 8 {
        '8'
    } else {
        '9'
    }
}

/// `n` written in decimal, as `{}` formats an unsigned integer.
pub open spec fn decimal(n: nat) -> Seq<char>
    decreases n,
{
    if n < 10 {
        seq![digit_char(n)]
    } else {
        decimal(n / 10).push(digit_char(n % 10))
    }
}

/// The views of a sequence of character vectors.
pub open spec fn views(vv: Seq<Vec<char>>) -> Seq<Seq<char>> {
    vv.map_values(|x: Vec<char>| x@)
}

/// The views of a sequence of strings.
pub open spec fn string_views(vv: Seq<String>) -> Seq<Seq<char>> {
    vv.map_values(|x: String| x@)
}

// ---------------------------------------------------------------------------
// Conversions
// ---------------------------------------------------------------------------

/// Appends one character to a string.
/// Trusted: `String::push`, documented as appending the given char to the end of the string.
#[verifier::external_body]
pub(crate) fn push_char(s: &mut String, c: char)
    ensures
        final(s)@ == old(s)@.push(c),
{
    s.push(c)
}

/// The characters of a string, in order.
pub fn chars_of(s: &str) -> (v: Vec<char>)
    ensures
        v@ == s@,
{
    broadcast use vstd::string::group_string_axioms;

    let mut v: Vec<char> = Vec::new();
    for c in it: s.chars()
        invariant
            v@ == it.seq().take(it.index() as int),
            it.seq() == s@,
    {
        v.push(c);
    }
    v
}

/// Appends the characters of `s` to `dst`.
pub fn append_str(dst: &mut Vec<char>, s: &str)
    ensures
        final(dst)@ == old(dst)@ + s@,
{
    let c = chars_of(s);
    extend_chars(dst, &c);
}

/// Whether two strings hold the same text.
pub fn str_eq(a: &str, b: &str) -> (r: bool)
    ensures
        r == (a@ == b@),
{
    let x = chars_of(a);
    let y = chars_of(b);
    if x.len() != y.len() {
        return false;
    }
    let mut i: usize = 0;
    while i < x.len()
        invariant
            x.len() == y.len(),
            x@ == a@,
            y@ == b@,
            i <= x.len(),
            forall|k: int| 0 <= k < i ==> x@[k] == y@[k],
        decreases x.len() - i,
    {
        if x[i] != y[i] {
            assert(a@[i as int] != b@[i as int]);
            return false;
        }
        i += 1;
    }
    assert(x@ =~= y@);
    true
}

/// The string made of the given characters, in order.
pub fn string_from_chars(v: &Vec<char>) -> (s: String)
    ensures
        s@ == v@,
{
    let mut s = String::new();
    let mut i: usize = 0;
    while i < v.len()
        invariant
            i <= v.len(),
            s@ == v@.take(i as int),
        decreases v.len() - i,
    {
        push_char(&mut s, v[i]);
        assert(v@.take(i + 1) =~= v@.take(i as int).push(v@[i as int]));
        i += 1;
    }
    assert(v@.take(v.len() as int) =~= v@);
    s
}

/// Appends all characters of `src` to `dst`.
pub fn extend_chars(dst: &mut Vec<char>, src: &Vec<char>)
    ensures
        final(dst)@ == old(dst)@ + src@,
{
    let mut i: usize = 0;
    while i < src.len()
        invariant
            i <= src.len(),
            dst@ == old(dst)@ + src@.take(i as int),
        decreases src.len() - i,
    {
        dst.push(src[i]);
        assert(src@.take(i + 1) =~= src@.take(i as int).push(src@[i as int]));
        i += 1;
    }
    assert(src@.take(src.len() as int) =~= src@);
}

// ---------------------------------------------------------------------------
// Predicates on characters and texts
// ---------------------------------------------------------------------------

/// Whether `c` is Unicode whitespace, as `char::is_whitespace` decides it.
pub fn is_whitespace(c: char) -> (b: bool)
    ensures
        b == is_ws(c),
{
    c == '\t' || c == '\n' || c == '\u{0B}' || c == '\u{0C}' || c == '\r' || c == ' '
        || c == '\u{85}' || c == '\u{A0}' || c == '\u{1680}' || ('\u{2000}' <= c && c
        <= '\u{200A}') || c == '\u{2028}' || c == '\u{2029}' || c == '\u{202F}' || c
        == '\u{205F}' || c == '\u{3000}'
}

/// Whether `x` begins with `p`.
pub fn starts_with_chars(x: &Vec<char>, p: &Vec<char>) -> (b: bool)
    ensures
        b == starts_with(x@, p@),
{
    if p.len() > x.len() {
        return false;
    }
    let mut i: usize = 0;
    while i < p.len()
        invariant
            p.len() <= x.len(),
            i <= p.len(),
            forall|k: int| 0 <= k < i ==> x@[k] == p@[k],
        decreases p.len() - i,
    {
        if x[i] != p[i] {
            assert(x@.take(p.len() as int)[i as int] != p@[i as int]);
            return false;
        }
        i += 1;
    }
    assert(x@.take(p.len() as int) =~= p@);
    true
}

/// Whether `p` occurs in `x` at position `at`.
pub fn occurs_at_chars(x: &Vec<char>, p: &Vec<char>, at: usize) -> (b: bool)
    ensures
        b == occurs_at(x@, p@, at as int),
{
    if at > x.len() || p.len() > x.len() - at {
        return false;
    }
    let mut i: usize = 0;
    while i < p.len()
        invariant
            at + p.len() <= x.len(),
            i <= p.len(),
            forall|k: int| 0 <= k < i ==> x@[at + k] == p@[k],
        decreases p.len() - i,
    {
        if x[at + i] != p[i] {
            assert(x@.subrange(at as int, at + p.len())[i as int] != p@[i as int]);
            return false;
        }
        i += 1;
    }
    assert(x@.subrange(at as int, at + p.len()) =~= p@);
    true
}

/// Whether `x` ends with `p`.
pub fn ends_with_chars(x: &Vec<char>, p: &Vec<char>) -> (b: bool)
    ensures
        b == ends_with(x@, p@),
{
    if p.len() > x.len() {
        return false;
    }
    let r = occurs_at_chars(x, p, x.len() - p.len());
    assert(x@.subrange(x.len() - p.len(), x.len() as int) =~= x@.skip(x.len() - p.len()));
    r
}

/// Whether `p` occurs somewhere in `x`.
pub fn contains_chars(x: &Vec<char>, p: &Vec<char>) -> (b: bool)
    ensures
        b == contains(x@, p@),
{
    if p.len() > x.len() {
        return false;
    }
    let last = x.len() - p.len();
    let mut i: usize = 0;
    while i < last
        invariant
            p.len() <= x.len(),
            last == x.len() - p.len(),
            i <= last,
            forall|k: int| 0 <= k < i ==> !occurs_at(x@, p@, k),
        decreases last - i,
    {
        if occurs_at_chars(x, p, i) {
            return true;
        }
        i += 1;
    }
    if occurs_at_chars(x, p, last) {
        return true;
    }
    assert forall|k: int| !occurs_at(x@, p@, k) by {
        if 0 <= k && k + p.len() <= x.len() {
        }
    }
    false
}

/// Whether the string `x` begins with the string `p`.
pub fn str_starts_with(x: &str, p: &str) -> (b: bool)
    ensures
        b == starts_with(x@, p@),
{
    starts_with_chars(&chars_of(x), &chars_of(p))
}

// ---------------------------------------------------------------------------
// Lines, trimming, joining
// ---------------------------------------------------------------------------

/// The lines of a text, as `str::lines` yields them.
pub fn split_lines(v: &Vec<char>) -> (out: Vec<Vec<char>>)
    ensures
        views(out@) == lines(v@),
{
    let mut out: Vec<Vec<char>> = Vec::new();
    let mut cur: Vec<char> = Vec::new();
    let mut i: usize = 0;
    assert(v@.skip(0) =~= v@);
    while i < v.len()
        invariant
            i <= v.len(),
            lines(v@) == views(out@) + lines_from(v@.skip(i as int), cur@),
        decreases v.len() - i,
    {
        let ghost rest = v@.skip(i as int);
        assert(rest.drop_first() =~= v@.skip(i + 1));
        if v[i] == '\n' {
            if cur.len() > 0 && cur[cur.len() - 1] == '\r' {
                cur.pop();
            }
            let line = cur;
            cur = Vec::new();
            proof {
                assert(views(out@.push(line)) =~= views(out@).push(line@));
                assert(cur@ =~= Seq::<char>::empty());
            }
            out.push(line);
        } else {
            cur.push(v[i]);
        }
        i += 1;
    }
    if cur.len() > 0 {
        proof {
            assert(views(out@.push(cur)) =~= views(out@).push(cur@));
        }
        out.push(cur);
    }
    proof {
        assert(v@.skip(v.len() as int) =~= Seq::<char>::empty());
    }
    assert(views(out@) =~= lines(v@));
    out
}

/// A text has as many lines with their endings as lines.
pub proof fn lemma_tokens_count(s: Seq<char>, cur: Seq<char>)
    ensures
        tokens_from(s, cur).len() == lines_from(s, cur).len(),
    decreases s.len(),
{
    if s.len() > 0 {
        if s[0] == '\n' {
            lemma_tokens_count(s.drop_first(), seq![]);
        } else {
            lemma_tokens_count(s.drop_first(), cur.push(s[0]));
        }
    }
}

/// The lines of a text with their line endings.
pub fn split_line_tokens(v: &Vec<char>) -> (out: Vec<Vec<char>>)
    ensures
        views(out@) == line_tokens(v@),
{
    let mut out: Vec<Vec<char>> = Vec::new();
    let mut cur: Vec<char> = Vec::new();
    let mut i: usize = 0;
    assert(v@.skip(0) =~= v@);
    while i < v.len()
        invariant
            i <= v.len(),
            line_tokens(v@) == views(out@) + tokens_from(v@.skip(i as int), cur@),
        decreases v.len() - i,
    {
        let ghost rest = v@.skip(i as int);
        assert(rest.drop_first() =~= v@.skip(i + 1));
        if v[i] == '\n' {
            cur.push('\n');
            let line = cur;
            cur = Vec::new();
            proof {
                assert(views(out@.push(line)) =~= views(out@).push(line@));
                assert(cur@ =~= Seq::<char>::empty());
            }
            out.push(line);
        } else {
            cur.push(v[i]);
        }
        i += 1;
    }
    if cur.len() > 0 {
        proof {
            assert(views(out@.push(cur)) =~= views(out@).push(cur@));
        }
        out.push(cur);
    }
    proof {
        assert(v@.skip(v.len() as int) =~= Seq::<char>::empty());
    }
    assert(views(out@) =~= line_tokens(v@));
    out
}

/// The length of `x` without its trailing whitespace.
pub fn trim_end_len(x: &Vec<char>) -> (k: usize)
    ensures
        k <= x.len(),
        x@.take(k as int) == trim_end(x@),
{
    let mut k = x.len();
    assert(x@.take(k as int) =~= x@);
    while k > 0 && is_whitespace(x[k - 1])
        invariant
            k <= x.len(),
            trim_end(x@) == trim_end(x@.take(k as int)),
        decreases k,
    {
        assert(x@.take(k as int).drop_last() =~= x@.take(k - 1));
        k -= 1;
    }
    k
}

/// The index of the first character of `x` that is not whitespace, or its length.
pub fn trim_start_len(x: &Vec<char>) -> (k: usize)
    ensures
        k <= x.len(),
        x@.skip(k as int) == trim_start(x@),
{
    let mut k: usize = 0;
    assert(x@.skip(0) =~= x@);
    while k < x.len() && is_whitespace(x[k])
        invariant
            k <= x.len(),
            trim_start(x@) == trim_start(x@.skip(k as int)),
        decreases x.len() - k,
    {
        assert(x@.skip(k as int).drop_first() =~= x@.skip(k + 1));
        k += 1;
    }
    k
}

/// The characters of `x` from `from` up to `to`.
pub fn slice_chars(x: &Vec<char>, from: usize, to: usize) -> (out: Vec<char>)
    requires
        from <= to <= x.len(),
    ensures
        out@ == x@.subrange(from as int, to as int),
{
    let mut out: Vec<char> = Vec::new();
    let mut i = from;
    while i < to
        invariant
            from <= i <= to <= x.len(),
            out@ == x@.subrange(from as int, i as int),
        decreases to - i,
    {
        out.push(x[i]);
        assert(x@.subrange(from as int, i + 1) =~= x@.subrange(from as int, i as int).push(
            x@[i as int],
        ));
        i += 1;
    }
    out
}

/// `x` without whitespace at either end, as `str::trim` gives it.
pub fn trim_chars(x: &Vec<char>) -> (out: Vec<char>)
    ensures
        out@ == trim(x@),
{
    let a = trim_start_len(x);
    let rest = slice_chars(x, a, x.len());
    assert(rest@ =~= x@.skip(a as int));
    let b = trim_end_len(&rest);
    slice_chars(&rest, 0, b)
}

/// The pieces joined with `'\n'` between them.
pub fn join_lines_chars(ls: &Vec<Vec<char>>) -> (out: Vec<char>)
    ensures
        out@ == join_lines(views(ls@)),
{
    let mut out: Vec<char> = Vec::new();
    let mut i: usize = 0;
    while i < ls.len()
        invariant
            i <= ls.len(),
            out@ == join_lines(views(ls@).take(i as int)),
        decreases ls.len() - i,
    {
        let ghost prev = views(ls@).take(i as int);
        let ghost next = views(ls@).take(i + 1);
        assert(next.drop_last() =~= prev);
        assert(next.last() == ls@[i as int]@);
        if i > 0 {
            out.push('\n');
        } else {
            assert(next.len() == 1);
        }
        extend_chars(&mut out, &ls[i]);
        i += 1;
    }
    assert(views(ls@).take(ls.len() as int) =~= views(ls@));
    out
}

// ---------------------------------------------------------------------------
// Formatting helpers
// ---------------------------------------------------------------------------

/// The decimal digit for `d < 10`.
pub fn digit(d: usize) -> (c: char)
    requires
        d < 10,
    ensures
        c == digit_char(d as nat),
{
    if d == 0 {
        '0'
    } else if d == 1 {
        '1'
    } else if d == 2 {
        '2'
    } else if d == 3 {
        '3'
    } else if d == 4 {
        '4'
    } else if d == 5 {
        '5'
    } else if d == 6 {
        '6'
    } else if d == 7 {
        '7'
    } else if d == 8 {
        '8'
    } else {
        '9'
    }
}

/// Appends `n` written in decimal.
pub fn push_decimal(out: &mut Vec<char>, n: usize)
    ensures
        final(out)@ == old(out)@ + decimal(n as nat),
    decreases n,
{
    if n >= 10 {
        push_decimal(out, n / 10);
    }
    out.push(digit(n % 10));
    proof {
        if n >= 10 {
            assert(decimal(n as nat) == decimal((n / 10) as nat).push(digit_char((n % 10) as nat)));
        } else {
            assert(decimal(n as nat) == seq![digit_char(n as nat)]);
        }
    }
    assert(out@ =~= old(out)@ + decimal(n as nat));
}

/// Appends `n` written in decimal, for numbers beyond the range of `usize`.
pub fn push_decimal_wide(out: &mut Vec<char>, n: u128)
    ensures
        final(out)@ == old(out)@ + decimal(n as nat),
    decreases n,
{
    if n >= 10 {
        push_decimal_wide(out, n / 10);
    }
    out.push(digit((n % 10) as usize));
    proof {
        if n >= 10 {
            assert(decimal(n as nat) == decimal((n / 10) as nat).push(digit_char((n % 10) as nat)));
        } else {
            assert(decimal(n as nat) == seq![digit_char(n as nat)]);
        }
    }
    assert(out@ =~= old(out)@ + decimal(n as nat));
}

/// `n` written in decimal.
pub fn decimal_chars(n: usize) -> (out: Vec<char>)
    ensures
        out@ == decimal(n as nat),
{
    let mut out: Vec<char> = Vec::new();
    push_decimal(&mut out, n);
    assert(out@ =~= decimal(n as nat));
    out
}

/// `n` copies of `c`.
pub fn repeat_chars(c: char, n: usize) -> (out: Vec<char>)
    ensures
        out@ == repeat(c, n as nat),
{
    let mut out: Vec<char> = Vec::new();
    let mut i: usize = 0;
    while i < n
        invariant
            i <= n,
            out@ == repeat(c, i as nat),
        decreases n - i,
    {
        out.push(c);
        assert(out@ =~= repeat(c, (i + 1) as nat));
        i += 1;
    }
    out
}

/// `s` right-aligned in a field of `w` characters.
pub fn pad_start_chars(s: &Vec<char>, w: usize) -> (out: Vec<char>)
    ensures
        out@ == pad_start(s@, w as nat),
{
    if s.len() >= w {
        return s.clone();
    }
    let mut out = repeat_chars(' ', w - s.len());
    extend_chars(&mut out, s);
    assert(repeat(' ', (w - s.len()) as nat) =~= spaces((w - s.len()) as nat));
    out
}

/// `s` left-aligned in a field of `w` characters.
pub fn pad_end_chars(s: &Vec<char>, w: usize) -> (out: Vec<char>)
    ensures
        out@ == pad_end(s@, w as nat),
{
    let mut out = s.clone();
    if s.len() >= w {
        return out;
    }
    let sp = repeat_chars(' ', w - s.len());
    extend_chars(&mut out, &sp);
    assert(repeat(' ', (w - s.len()) as nat) =~= spaces((w - s.len()) as nat));
    out
}

/// A first piece in front of more pieces joins with a `'\n'` after it.
proof fn lemma_join_lines_front(a: Seq<char>, ls: Seq<Seq<char>>)
    requires
        ls.len() > 0,
    ensures
        join_lines(seq![a] + ls) == a + seq!['\n'] + join_lines(ls),
    decreases ls.len(),
{
    let all = seq![a] + ls;
    if ls.len() == 1 {
        assert(all.drop_last() =~= seq![a]);
        assert(all.last() == ls[0]);
        assert(join_lines(seq![a]) == a);
        assert(join_lines(all.drop_last()) == a);
        assert(join_lines(ls) == ls[0]);
        assert(join_lines(all) == join_lines(all.drop_last()) + seq!['\n'] + all.last());
        assert(join_lines(all) =~= a + seq!['\n'] + join_lines(ls));
    } else {
        lemma_join_lines_front(a, ls.drop_last());
        assert(all.drop_last() =~= seq![a] + ls.drop_last());
        assert(all.last() == ls.last());
        assert(join_lines(all) =~= a + seq!['\n'] + join_lines(ls));
    }
}

/// Text read on from a nonempty current line, or nonempty text, gives a line.
proof fn lemma_lines_from_nonempty(s: Seq<char>, cur: Seq<char>)
    requires
        s.len() > 0 || cur.len() > 0,
    ensures
        lines_from(s, cur).len() > 0,
    decreases s.len(),
{
    if s.len() > 0 && s[0] != '\n' {
        lemma_lines_from_nonempty(s.drop_first(), cur.push(s[0]));
    }
}

/// Splitting a text without `'\r'` into lines and joining them again gives the text
/// back, but for a final `'\n'`.
proof fn lemma_lines_rejoin_from(s: Seq<char>, cur: Seq<char>)
    requires
        !s.contains('\r'),
        !cur.contains('\n'),
        !cur.contains('\r'),
    ensures
        join_lines(lines_from(s, cur)) + (if ends_with(s, seq!['\n']) {
            seq!['\n']
        } else {
            Seq::<char>::empty()
        }) == cur + s,
    decreases s.len(),
{
    let t = s.drop_first();
    if s.len() == 0 {
        assert(cur + s =~= cur);
        if cur.len() > 0 {
            assert(join_lines(seq![cur]) == cur);
        }
        assert(join_lines(Seq::<Seq<char>>::empty()) + Seq::<char>::empty() =~= Seq::<char>::empty());
    } else {
        assert(!t.contains('\r')) by {
            if t.contains('\r') {
                let k = choose|k: int| 0 <= k < t.len() && t[k] == '\r';
                assert(s[k + 1] == '\r');
            }
        }
        assert(s.contains(s[0]));
        if s[0] == '\n' {
            assert(strip_cr(cur) == cur) by {
                if cur.len() > 0 {
                    assert(cur.contains(cur[cur.len() - 1]));
                }
            }
            lemma_lines_rejoin_from(t, seq![]);
            assert(Seq::<char>::empty() + t =~= t);
            if t.len() == 0 {
                assert(lines_from(t, seq![]) =~= Seq::<Seq<char>>::empty());
                assert(lines_from(s, cur) =~= seq![cur]);
                assert(ends_with(s, seq!['\n'])) by {
                    assert(s.skip(0) =~= seq!['\n']);
                }
                assert(cur + seq!['\n'] =~= cur + s);
            } else {
                lemma_lines_from_nonempty(t, seq![]);
                lemma_join_lines_front(cur, lines_from(t, seq![]));
                assert(lines_from(s, cur) =~= seq![cur] + lines_from(t, seq![]));
                assert(ends_with(s, seq!['\n']) == ends_with(t, seq!['\n'])) by {
                    assert(s.skip(s.len() - 1) =~= t.skip(t.len() - 1));
                }
                assert(cur + s =~= cur + seq!['\n'] + t);
            }
        } else {
            let c = cur.push(s[0]);
            assert(!c.contains('\n') && !c.contains('\r')) by {
                if c.contains('\n') || c.contains('\r') {
                    let k = choose|k: int| 0 <= k < c.len() && (c[k] == '\n' || c[k] == '\r');
                    if k < cur.len() {
                        assert(cur[k] == c[k]);
                        assert(cur.contains(c[k]));
                    }
                }
            }
            lemma_lines_rejoin_from(t, c);
            assert(c + t =~= cur + s);
            if t.len() == 0 {
                assert(!ends_with(s, seq!['\n'])) by {
                    if ends_with(s, seq!['\n']) {
                        assert(s.skip(0)[0] == s[0]);
                    }
                }
                assert(!ends_with(t, seq!['\n']));
            } else {
                assert(ends_with(s, seq!['\n']) == ends_with(t, seq!['\n'])) by {
                    assert(s.skip(s.len() - 1) =~= t.skip(t.len() - 1));
                }
            }
        }
    }
}

/// A text without `'\r'` is its lines joined with `'\n'`, and a final `'\n'` when it
/// ends with one.
pub proof fn lemma_lines_rejoin(s: Seq<char>)
    requires
        !s.contains('\r'),
    ensures
        join_lines(lines(s)) + (if ends_with(s, seq!['\n']) {
            seq!['\n']
        } else {
            Seq::<char>::empty()
        }) == s,
{
    lemma_lines_rejoin_from(s, seq![]);
    assert(Seq::<char>::empty() + s =~= s);
}

} // verus!
