//! The path grammar the engine works on.
//!
//! A path is a string whose names are separated by `/`. Empty names are ignored, so
//! repeated and trailing separators do not matter. A path that begins with a
//! separator is absolute, and its first component is the separator itself. The
//! name `.` stands for the directory it is written in and is left out, unless it
//! is the first name of a path that is not absolute. Nothing else is normalised:
//! `..` is a name like any other, and no link is followed.

use vstd::prelude::*;
use crate::text::{chars_of, cut, piece_spans, pieces, spans_within};

verus! {

/// The names in `s`, where `name` holds the characters of the name that was being
/// read when `s` began: the stretches between separators that are not empty.
pub open spec fn names(s: Seq<char>, name: Seq<char>) -> Seq<Seq<char>> {
    pieces(s, '/', name)
}

/// Whether `p` begins at the root of the file system.
pub open spec fn is_absolute(p: Seq<char>) -> bool {
    p.len() > 0 && p[0] == '/'
}

/// The name `.`, which stands for the directory it is written in.
pub open spec fn is_dot(name: Seq<char>) -> bool {
    name.len() == 1 && name[0] == '.'
}

/// The names of `all` but `.`, in order.
pub open spec fn without_dots(all: Seq<Seq<char>>) -> Seq<Seq<char>> {
    all.filter(|name: Seq<char>| !is_dot(name))
}

/// The components of `p`. An absolute path has the root marker, then its names
/// but `.`. Any other path has its first name, whatever it is, then the rest of
/// its names but `.`.
pub open spec fn components(p: Seq<char>) -> Seq<Seq<char>> {
    let all = names(p, Seq::empty());
    if is_absolute(p) {
        seq![seq!['/']] + without_dots(all)
    } else if all.len() > 0 {
        seq![all[0]] + without_dots(all.drop_first())
    } else {
        Seq::empty()
    }
}

/// `p` lies under `root`: the components of `root` begin those of `p`. So
/// `/m/./Show/x` lies under `/m/Show`, and `/m/x/../Show` does not.
pub open spec fn under(p: Seq<char>, root: Seq<char>) -> bool {
    components(root).is_prefix_of(components(p))
}

/// The first component of `p` below `root`, if `p` lies strictly under `root`.
pub open spec fn top_below(p: Seq<char>, root: Seq<char>) -> Option<Seq<char>> {
    if under(p, root) && components(root).len() < components(p).len() {
        Some(components(p)[components(root).len() as int])
    } else {
        None
    }
}

/// `root` extended by one more name.
pub open spec fn joined(root: Seq<char>, name: Seq<char>) -> Seq<char> {
    if root.len() == 0 || root.last() == '/' {
        root + name
    } else {
        root + seq!['/'] + name
    }
}

/// Finds where each component of a path begins and ends.
fn component_spans(chars: &Vec<char>) -> (spans: Vec<(usize, usize)>)
    ensures
        spans_within(chars@, spans@),
        cut(chars@, spans@) == components(chars@),
{
    let ghost s = chars@;
    let all = piece_spans(chars, '/');
    let ghost found = cut(s, all@);
    let ghost keeps = |name: Seq<char>| !is_dot(name);
    let mut spans: Vec<(usize, usize)> = Vec::new();
    let mut k: usize = 0;
    if chars.len() > 0 && chars[0] == '/' {
        spans.push((0, 1));
        assert(cut(s, spans@) =~= seq![seq!['/']]) by {
            assert(s.subrange(0, 1) =~= seq!['/']);
        }
    } else if all.len() > 0 {
        spans.push(all[0]);
        k = 1;
        assert(cut(s, spans@) =~= seq![found[0]]);
    } else {
        assert(cut(s, spans@) =~= Seq::<Seq<char>>::empty());
    }
    let ghost head = cut(s, spans@);
    let ghost start = k as int;
    proof {
        reveal(Seq::filter);
        assert(found.subrange(start, start).filter(keeps) =~= Seq::<Seq<char>>::empty());
        assert(cut(s, spans@) =~= head + found.subrange(start, start).filter(keeps));
    }
    while k < all.len()
        invariant
            s == chars@,
            found == cut(s, all@),
            keeps == (|name: Seq<char>| !is_dot(name)),
            0 <= start <= k <= all.len(),
            spans_within(s, all@),
            spans_within(s, spans@),
            cut(s, spans@) == head + found.subrange(start, k as int).filter(keeps),
        decreases all.len() - k,
    {
        let span = all[k];
        let ghost before = cut(s, spans@);
        proof {
            assert(found[k as int] == s.subrange(span.0 as int, span.1 as int));
            assert(found.subrange(start, k + 1) =~= found.subrange(start, k as int).push(
                found[k as int],
            ));
            found.subrange(start, k as int).lemma_filter_push(found[k as int], keeps);
        }
        let dot = span.1 - span.0 == 1 && chars[span.0] == '.';
        assert(dot == is_dot(found[k as int])) by {
            if span.1 - span.0 == 1 {
                assert(found[k as int][0] == s[span.0 as int]);
            }
        }
        if !dot {
            spans.push(span);
            assert(cut(s, spans@) =~= before.push(found[k as int]));
        }
        k += 1;
    }
    proof {
        if start == 0 {
            assert(found.subrange(0, all.len() as int) =~= found);
        } else {
            assert(found.subrange(1, all.len() as int) =~= found.drop_first());
        }
    }
    spans
}

/// Whether two spans of two texts hold the same characters.
fn same_piece(a: &Vec<char>, x: (usize, usize), b: &Vec<char>, y: (usize, usize)) -> (same: bool)
    requires
        x.0 <= x.1 <= a.len(),
        y.0 <= y.1 <= b.len(),
    ensures
        same == (a@.subrange(x.0 as int, x.1 as int) == b@.subrange(y.0 as int, y.1 as int)),
{
    let ghost u = a@.subrange(x.0 as int, x.1 as int);
    let ghost v = b@.subrange(y.0 as int, y.1 as int);
    if x.1 - x.0 != y.1 - y.0 {
        assert(u.len() != v.len());
        return false;
    }
    let n: usize = x.1 - x.0;
    let mut k: usize = 0;
    while k < n
        invariant
            0 <= k <= n,
            n == x.1 - x.0,
            n == y.1 - y.0,
            x.1 <= a.len(),
            y.1 <= b.len(),
            u == a@.subrange(x.0 as int, x.1 as int),
            v == b@.subrange(y.0 as int, y.1 as int),
            forall|j: int| 0 <= j < k ==> u[j] == v[j],
        decreases n - k,
    {
        if a[x.0 + k] != b[y.0 + k] {
            assert(u[k as int] != v[k as int]);
            return false;
        }
        k += 1;
    }
    assert(u =~= v);
    true
}

/// Whether the components of `root` begin those of `p`.
fn begins_with(
    p: &Vec<char>,
    p_spans: &Vec<(usize, usize)>,
    root: &Vec<char>,
    root_spans: &Vec<(usize, usize)>,
) -> (b: bool)
    requires
        spans_within(p@, p_spans@),
        spans_within(root@, root_spans@),
    ensures
        b == cut(root@, root_spans@).is_prefix_of(cut(p@, p_spans@)),
{
    let ghost pc = cut(p@, p_spans@);
    let ghost rc = cut(root@, root_spans@);
    if root_spans.len() > p_spans.len() {
        return false;
    }
    let mut k: usize = 0;
    while k < root_spans.len()
        invariant
            0 <= k <= root_spans.len() <= p_spans.len(),
            spans_within(p@, p_spans@),
            spans_within(root@, root_spans@),
            pc == cut(p@, p_spans@),
            rc == cut(root@, root_spans@),
            forall|j: int| 0 <= j < k ==> pc[j] == rc[j],
        decreases root_spans.len() - k,
    {
        if !same_piece(p, p_spans[k], root, root_spans[k]) {
            assert(pc.subrange(0, rc.len() as int)[k as int] != rc[k as int]);
            return false;
        }
        k += 1;
    }
    assert(rc =~= pc.subrange(0, rc.len() as int));
    true
}

/// Whether the path `p` lies under `root`.
pub fn is_under(p: &str, root: &str) -> (b: bool)
    ensures
        b == under(p@, root@),
{
    let pc = chars_of(p);
    let rc = chars_of(root);
    let ps = component_spans(&pc);
    let rs = component_spans(&rc);
    begins_with(&pc, &ps, &rc, &rs)
}

/// The first component of `p` below `root`, or `None` if `p` does not lie strictly
/// under `root`.
pub fn top_component(p: &str, root: &str) -> (top: Option<String>)
    ensures
        top.deep_view() == top_below(p@, root@),
{
    let pc = chars_of(p);
    let rc = chars_of(root);
    let ps = component_spans(&pc);
    let rs = component_spans(&rc);
    if begins_with(&pc, &ps, &rc, &rs) && rs.len() < ps.len() {
        let span = ps[rs.len()];
        let name = p.substring_char(span.0, span.1);
        Some(name.to_owned())
    } else {
        None
    }
}

/// `root` extended by the name `name`.
pub fn join(root: &str, name: &str) -> (path: String)
    ensures
        path@ == joined(root@, name@),
{
    let rc = chars_of(root);
    let mut path = root.to_owned();
    if rc.len() > 0 && rc[rc.len() - 1] != '/' {
        path.append("/");
        proof {
            reveal_strlit("/");
            assert("/"@ =~= seq!['/']);
        }
    }
    path.append(name);
    path
}

} // verus!
