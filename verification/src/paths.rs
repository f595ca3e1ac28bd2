//! Slash-separated paths as plain text: their components and their last
//! component, as `std::path::Path` reads them on Unix.

use vstd::prelude::*;
use crate::text::views;

verus! {

/// The pieces of `cur + s` between slashes, `cur` being the current piece read so far.
pub open spec fn segments_from(s: Seq<char>, cur: Seq<char>) -> Seq<Seq<char>>
    decreases s.len(),
{
    if s.len() == 0 {
        seq![cur]
    } else if s[0] == '/' {
        seq![cur] + segments_from(s.drop_first(), seq![])
    } else {
        segments_from(s.drop_first(), cur.push(s[0]))
    }
}

/// The pieces of a path between slashes, empty ones included.
pub open spec fn segments(s: Seq<char>) -> Seq<Seq<char>> {
    segments_from(s, seq![])
}

/// A piece that names a component: neither empty nor `.`.
pub open spec fn is_component(x: Seq<char>) -> bool {
    x.len() > 0 && x != seq!['.']
}

/// The last piece that names a component.
pub open spec fn last_component(segs: Seq<Seq<char>>) -> Option<Seq<char>>
    decreases segs.len(),
{
    if segs.len() == 0 {
        None
    } else if is_component(segs.last()) {
        Some(segs.last())
    } else {
        last_component(segs.drop_last())
    }
}

/// The final component of a path, unless it is `..` or there is none,
/// as `Path::file_name` gives it.
pub open spec fn file_name(s: Seq<char>) -> Option<Seq<char>> {
    match last_component(segments(s)) {
        Some(n) => if n == seq!['.', '.'] {
            None
        } else {
            Some(n)
        },
        None => None,
    }
}

/// The final component of a path, or the empty text where there is none.
pub open spec fn file_name_or_empty(s: Seq<char>) -> Seq<char> {
    match file_name(s) {
        Some(n) => n,
        None => seq![],
    }
}

/// Whether two character vectors hold the same text.
pub fn chars_eq(a: &Vec<char>, b: &Vec<char>) -> (r: bool)
    ensures
        r == (a@ == b@),
{
    if a.len() != b.len() {
        return false;
    }
    let mut i: usize = 0;
    while i < a.len()
        invariant
            a.len() == b.len(),
            i <= a.len(),
            forall|k: int| 0 <= k < i ==> a@[k] == b@[k],
        decreases a.len() - i,
    {
        if a[i] != b[i] {
            return false;
        }
        i += 1;
    }
    assert(a@ =~= b@);
    true
}

/// The pieces of a path between slashes, empty ones included.
pub fn split_segments(v: &Vec<char>) -> (out: Vec<Vec<char>>)
    ensures
        views(out@) == segments(v@),
{
    let mut out: Vec<Vec<char>> = Vec::new();
    let mut cur: Vec<char> = Vec::new();
    let mut i: usize = 0;
    assert(v@.skip(0) =~= v@);
    while i < v.len()
        invariant
            i <= v.len(),
            segments(v@) == views(out@) + segments_from(v@.skip(i as int), cur@),
        decreases v.len() - i,
    {
        assert(v@.skip(i as int).drop_first() =~= v@.skip(i + 1));
        if v[i] == '/' {
            let piece = cur;
            cur = Vec::new();
            proof {
                assert(views(out@.push(piece)) =~= views(out@).push(piece@));
                assert(cur@ =~= Seq::<char>::empty());
            }
            out.push(piece);
        } else {
            cur.push(v[i]);
        }
        i += 1;
    }
    proof {
        assert(v@.skip(v.len() as int) =~= Seq::<char>::empty());
        assert(views(out@.push(cur)) =~= views(out@).push(cur@));
    }
    out.push(cur);
    assert(views(out@) =~= segments(v@));
    out
}

/// The final component of a path, unless it is `..` or there is none.
pub fn path_file_name(v: &Vec<char>) -> (r: Option<Vec<char>>)
    ensures
        match r {
            Some(n) => file_name(v@) == Some(n@),
            None => file_name(v@) is None,
        },
{
    let segs = split_segments(v);
    let mut k = segs.len();
    assert(views(segs@).take(k as int) =~= views(segs@));
    while k > 0
        invariant
            k <= segs.len(),
            last_component(views(segs@)) == last_component(views(segs@).take(k as int)),
            views(segs@) == segments(v@),
        decreases k,
    {
        let ghost pre = views(segs@).take(k as int);
        assert(pre.last() == segs@[k - 1]@);
        assert(pre.drop_last() =~= views(segs@).take(k - 1));
        let s = &segs[k - 1];
        let is_dot = s.len() == 1 && s[0] == '.';
        proof {
            if s@.len() == 1 {
                assert(is_dot == (s@ =~= seq!['.']));
            } else {
                assert(s@ != seq!['.']);
            }
        }
        if s.len() > 0 && !is_dot {
            let is_dotdot = s.len() == 2 && s[0] == '.' && s[1] == '.';
            proof {
                if s@.len() == 2 {
                    assert(is_dotdot == (s@ =~= seq!['.', '.']));
                } else {
                    assert(s@ != seq!['.', '.']);
                }
            }
            if is_dotdot {
                return None;
            }
            return Some(s.clone());
        }
        k -= 1;
    }
    assert(views(segs@).take(0) =~= Seq::<Seq<char>>::empty());
    None
}

/// The final component of a path, or the empty text where there is none.
pub fn file_name_chars(v: &Vec<char>) -> (r: Vec<char>)
    ensures
        r@ == file_name_or_empty(v@),
{
    match path_file_name(v) {
        Some(n) => n,
        None => Vec::new(),
    }
}

} // verus!
