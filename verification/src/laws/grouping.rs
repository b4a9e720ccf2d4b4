//! Laws of grouping: that the groups are a function of the records, and that a
//! container names its title.

use vstd::prelude::*;
use crate::grouping::{
    container_of, has_placement, is_group_of, is_grouping, is_owning_root, placement, places,
    GroupView, Placement,
};
use crate::paths::{components, is_absolute, is_dot, joined, names, top_below, without_dots};
use crate::scanner::Record;
use crate::text::closed;

verus! {

/// A group of one grouping has its like in any other grouping of the same
/// records: a group with the same container, kind and members.
proof fn lemma_group_has_like(
    a: Seq<GroupView>,
    b: Seq<GroupView>,
    rs: Seq<Record>,
    downloads: bool,
    roots: Seq<Seq<char>>,
    i: int,
) -> (j: int)
    requires
        is_grouping(a, rs, downloads, roots),
        is_grouping(b, rs, downloads, roots),
        0 <= i < a.len(),
    ensures
        0 <= j < b.len(),
        container_of(b[j], downloads) == container_of(a[i], downloads),
        b[j].title == a[i].title,
        b[j].nodes == a[i].nodes,
        b[j].kind == a[i].kind,
{
    assert(is_group_of(a[i], rs, downloads, roots));
    let pl = Placement { container: container_of(a[i], downloads)->0, title: a[i].title };
    assert(has_placement(rs, downloads, roots, pl));
    let (x, y) = choose|x: int, y: int| places(rs, downloads, roots, x, y, pl);
    assert(places(rs, downloads, roots, x, y, pl));
    let j = choose|j: int|
        0 <= j < b.len() && container_of(#[trigger] b[j], downloads) == Some(pl.container);
    assert(is_group_of(b[j], rs, downloads, roots));
    let like = Placement { container: container_of(b[j], downloads)->0, title: b[j].title };
    assert(has_placement(rs, downloads, roots, like));
    let (u, v) = choose|u: int, v: int| places(rs, downloads, roots, u, v, like);
    assert(places(rs, downloads, roots, u, v, like));
    container_names_its_title(rs[x].paths[y], rs[u].paths[v], roots, roots);
    j
}

/// Two lists without repetition that hold the same elements are equally long.
proof fn lemma_same_elements_same_length<A>(x: Seq<A>, y: Seq<A>)
    requires
        x.no_duplicates(),
        y.no_duplicates(),
        forall|e: A| x.contains(e) <==> y.contains(e),
    ensures
        x.len() == y.len(),
{
    assert(x.to_set() =~= y.to_set());
    x.unique_seq_to_set();
    y.unique_seq_to_set();
}

/// The containers of the groups, in order.
spec fn containers_of(gs: Seq<GroupView>, downloads: bool) -> Seq<Option<Seq<char>>> {
    Seq::new(gs.len(), |i: int| container_of(gs[i], downloads))
}

/// Every container of one grouping is a container of any other grouping of the
/// same records.
proof fn lemma_containers_found(
    a: Seq<GroupView>,
    b: Seq<GroupView>,
    rs: Seq<Record>,
    downloads: bool,
    roots: Seq<Seq<char>>,
)
    requires
        is_grouping(a, rs, downloads, roots),
        is_grouping(b, rs, downloads, roots),
    ensures
        forall|c: Option<Seq<char>>|
            containers_of(a, downloads).contains(c) ==> containers_of(b, downloads).contains(c),
{
    let ca = containers_of(a, downloads);
    let cb = containers_of(b, downloads);
    assert forall|c: Option<Seq<char>>| ca.contains(c) implies cb.contains(c) by {
        let i = choose|i: int| 0 <= i < ca.len() && ca[i] == c;
        let j = lemma_group_has_like(a, b, rs, downloads, roots, i);
        assert(cb[j] == c);
    }
}

/// Grouping is repeatable. Two groupings of the same records under the same roots
/// have the same number of groups, and each group of the one has a group of the
/// other with the same container, the same title, the same kind and the same
/// members.
pub proof fn grouping_is_repeatable(
    a: Seq<GroupView>,
    b: Seq<GroupView>,
    rs: Seq<Record>,
    downloads: bool,
    roots: Seq<Seq<char>>,
)
    requires
        is_grouping(a, rs, downloads, roots),
        is_grouping(b, rs, downloads, roots),
    ensures
        a.len() == b.len(),
        forall|i: int|
            0 <= i < a.len() ==> exists|j: int|
                0 <= j < b.len() && container_of(#[trigger] b[j], downloads) == container_of(
                    #[trigger] a[i],
                    downloads,
                ) && b[j].title == a[i].title && b[j].nodes == a[i].nodes && b[j].kind == a[i].kind,
{
    assert(a.len() == b.len()) by {
        let ca = containers_of(a, downloads);
        let cb = containers_of(b, downloads);
        lemma_containers_found(a, b, rs, downloads, roots);
        lemma_containers_found(b, a, rs, downloads, roots);
        assert(ca.no_duplicates()) by {
            assert forall|i: int, j: int| 0 <= i < ca.len() && 0 <= j < ca.len() && i != j implies ca[i]
                != ca[j] by {
                if i < j {
                    assert(container_of(a[i], downloads) != container_of(a[j], downloads));
                } else {
                    assert(container_of(a[j], downloads) != container_of(a[i], downloads));
                }
            }
        }
        assert(cb.no_duplicates()) by {
            assert forall|i: int, j: int| 0 <= i < cb.len() && 0 <= j < cb.len() && i != j implies cb[i]
                != cb[j] by {
                if i < j {
                    assert(container_of(b[i], downloads) != container_of(b[j], downloads));
                } else {
                    assert(container_of(b[j], downloads) != container_of(b[i], downloads));
                }
            }
        }
        lemma_same_elements_same_length(ca, cb);
    }
    assert forall|i: int| 0 <= i < a.len() implies exists|j: int|
        0 <= j < b.len() && container_of(#[trigger] b[j], downloads) == container_of(
            #[trigger] a[i],
            downloads,
        ) && b[j].title == a[i].title && b[j].nodes == a[i].nodes && b[j].kind == a[i].kind by {
        let j = lemma_group_has_like(a, b, rs, downloads, roots, i);
    }
}

/// A name that was being read when a stretch without a separator began.
spec fn is_name(name: Seq<char>) -> bool {
    name.len() > 0 && !name.contains('/')
}

/// Every name of a path is a name: it has a character, and no separator.
proof fn lemma_names_are_names(s: Seq<char>, name: Seq<char>)
    requires
        !name.contains('/'),
    ensures
        forall|i: int| 0 <= i < names(s, name).len() ==> is_name(#[trigger] names(s, name)[i]),
        name.len() > 0 ==> names(s, name).len() > 0,
        s.len() > 0 && s[0] != '/' ==> names(s, name).len() > 0,
    decreases s.len(),
{
    if s.len() == 0 {
    } else if s[0] == '/' {
        let rest = names(s.drop_first(), Seq::empty());
        lemma_names_are_names(s.drop_first(), Seq::empty());
        assert forall|i: int| 0 <= i < names(s, name).len() implies is_name(
            #[trigger] names(s, name)[i],
        ) by {
            if i < closed(name).len() {
                assert(names(s, name)[i] == name);
            } else {
                assert(names(s, name)[i] == rest[i - closed(name).len()]);
            }
        }
    } else {
        let grown = name.push(s[0]);
        assert(!grown.contains('/')) by {
            if grown.contains('/') {
                let k = choose|k: int| 0 <= k < grown.len() && grown[k] == '/';
                assert(name[k] == '/');
            }
        }
        lemma_names_are_names(s.drop_first(), grown);
    }
}

/// Every component of a path is a name, but that the first component of an
/// absolute path is the root marker. A path with a character has a component.
proof fn lemma_components_are_names(p: Seq<char>)
    ensures
        forall|i: int|
            0 <= i < components(p).len() ==> is_name(#[trigger] components(p)[i]) || (i == 0
                && components(p)[0] == seq!['/']),
        p.len() > 0 ==> components(p).len() > 0,
{
    let all = names(p, Seq::empty());
    let keeps = |name: Seq<char>| !is_dot(name);
    lemma_names_are_names(p, Seq::empty());
    if is_absolute(p) {
        let rest = without_dots(all);
        assert forall|i: int| 0 <= i < components(p).len() implies is_name(
            #[trigger] components(p)[i],
        ) || (i == 0 && components(p)[0] == seq!['/']) by {
            if i > 0 {
                assert(components(p)[i] == rest[i - 1]);
                assert(rest.contains(rest[i - 1]));
                all.lemma_filter_contains_rev(keeps, rest[i - 1]);
                let m = choose|m: int| 0 <= m < all.len() && all[m] == rest[i - 1];
                assert(is_name(all[m]));
            }
        }
    } else if all.len() > 0 {
        let tail = all.drop_first();
        let rest = without_dots(tail);
        assert forall|i: int| 0 <= i < components(p).len() implies is_name(
            #[trigger] components(p)[i],
        ) || (i == 0 && components(p)[0] == seq!['/']) by {
            if i > 0 {
                assert(components(p)[i] == rest[i - 1]);
                assert(rest.contains(rest[i - 1]));
                tail.lemma_filter_contains_rev(keeps, rest[i - 1]);
                let m = choose|m: int| 0 <= m < tail.len() && tail[m] == rest[i - 1];
                assert(is_name(all[m + 1]));
            } else {
                assert(is_name(all[0]));
            }
        }
    }
}

/// The first component of a path below a root is the root marker, which happens
/// below the empty root only, or a name.
proof fn lemma_top_is_marker_or_name(p: Seq<char>, root: Seq<char>)
    requires
        top_below(p, root) is Some,
    ensures
        is_name(top_below(p, root)->0) || (top_below(p, root)->0 == seq!['/'] && root.len() == 0),
{
    lemma_components_are_names(p);
    lemma_components_are_names(root);
    let at = components(root).len() as int;
    assert(top_below(p, root)->0 == components(p)[at]);
}

/// A name that ends a string is that string's stretch after its last separator:
/// two names that end the same string, each at the start or after a separator,
/// are the same.
proof fn lemma_same_ending_name(x: Seq<char>, n: Seq<char>, y: Seq<char>, m: Seq<char>)
    requires
        is_name(n),
        is_name(m),
        x.len() == 0 || x.last() == '/',
        y.len() == 0 || y.last() == '/',
        x + n == y + m,
    ensures
        n == m,
{
    let whole = x + n;
    assert(whole.len() == x.len() + n.len());
    assert((y + m).len() == y.len() + m.len());
    if x.len() > y.len() {
        let k = x.len() - 1;
        assert(whole[k] == x[k]);
        assert((y + m)[k] == m[k - y.len()]);
        assert(m.contains('/'));
    } else if y.len() > x.len() {
        let k = y.len() - 1;
        assert((y + m)[k] == y[k]);
        assert(whole[k] == n[k - x.len()]);
        assert(n.contains('/'));
    } else {
        assert forall|i: int| 0 <= i < n.len() implies n[i] == m[i] by {
            assert(whole[x.len() + i] == n[i]);
            assert((y + m)[y.len() + i] == m[i]);
        }
        assert(n =~= m);
    }
}

/// The part of a container before the title: empty, or ending in a separator.
spec fn stem(root: Seq<char>) -> Seq<char> {
    if root.len() == 0 || root.last() == '/' {
        root
    } else {
        root + seq!['/']
    }
}

/// A container names its title. Paths that fall into the same container give
/// the same title, whatever root each of them lies under.
pub proof fn container_names_its_title(
    p: Seq<char>,
    q: Seq<char>,
    roots: Seq<Seq<char>>,
    other_roots: Seq<Seq<char>>,
)
    requires
        placement(p, roots) is Some,
        placement(q, other_roots) is Some,
        placement(p, roots)->0.container == placement(q, other_roots)->0.container,
    ensures
        placement(p, roots)->0.title == placement(q, other_roots)->0.title,
{
    let r = choose|r: int| is_owning_root(p, roots, r);
    let t = choose|t: int| is_owning_root(q, other_roots, t);
    let n = top_below(p, roots[r])->0;
    let m = top_below(q, other_roots[t])->0;
    lemma_top_is_marker_or_name(p, roots[r]);
    lemma_top_is_marker_or_name(q, other_roots[t]);
    let x = stem(roots[r]);
    let y = stem(other_roots[t]);
    assert(joined(roots[r], n) =~= x + n);
    assert(joined(other_roots[t], m) =~= y + m);
    let whole = x + n;
    assert(whole.len() == x.len() + n.len());
    assert((y + m).len() == y.len() + m.len());
    if is_name(n) && is_name(m) {
        lemma_same_ending_name(x, n, y, m);
    } else if !is_name(n) {
        assert(whole =~= seq!['/']);
        assert(y.len() == 0);
        assert((y + m) =~= m);
    } else {
        assert((y + m) =~= seq!['/']);
        assert(x.len() == 0);
        assert(whole =~= n);
    }
}

} // verus!
