//! Which groups a view lists, and in what order.
//!
//! A view lists the groups that match the search query and pass the filter,
//! sorted by name, by size or by date. Groups that the sort key does not tell
//! apart keep the order in which they were derived.

use vstd::prelude::*;
use crate::app::{FilterMode, SortBy, SortOrder};
use crate::grouping::{group_views, Group, GroupView};
use crate::scanner::{Record, Timestamp};
use crate::text::{
    contains, is_text_before, lowercase, occurs_in, text_before, text_order_is_asymmetric,
    text_order_is_total, text_order_is_transitive, to_lowercase,
};

verus! {

/// The title matches the query: the query is empty, or its lower-case form occurs
/// in the lower-case form of the title.
pub open spec fn matches_query(title: Seq<char>, query: Seq<char>) -> bool {
    query.len() == 0 || occurs_in(lowercase(query), lowercase(title))
}

/// The record is present on both sides.
pub open spec fn is_linked(r: Record) -> bool {
    r.has_downloads && r.has_media
}

/// The group passes the filter.
pub open spec fn passes(g: GroupView, filter: FilterMode) -> bool {
    match filter {
        FilterMode::All => true,
        FilterMode::Orphans => exists|i: int| 0 <= i < g.nodes.len() && !is_linked(#[trigger] g.nodes[i]),
        FilterMode::Hardlinked => forall|i: int|
            0 <= i < g.nodes.len() ==> is_linked(#[trigger] g.nodes[i]),
    }
}

/// The group is listed.
pub open spec fn shown(g: GroupView, query: Seq<char>, filter: FilterMode) -> bool {
    matches_query(g.title, query) && passes(g, filter)
}

/// The sizes of the records, added up.
pub open spec fn total_size(nodes: Seq<Record>) -> nat
    decreases nodes.len(),
{
    if nodes.len() == 0 {
        0
    } else {
        total_size(nodes.drop_last()) + nodes.last().size as nat
    }
}

/// `a` is earlier than `b`. No time at all is earlier than any time.
pub open spec fn time_before(a: Option<Timestamp>, b: Option<Timestamp>) -> bool {
    match (a, b) {
        (None, Some(_)) => true,
        (Some(x), Some(y)) => x.secs < y.secs || (x.secs == y.secs && x.nanos < y.nanos),
        _ => false,
    }
}

/// The later of two times.
pub open spec fn later_of(a: Option<Timestamp>, b: Option<Timestamp>) -> Option<Timestamp> {
    if time_before(a, b) {
        b
    } else {
        a
    }
}

/// The latest time that any of the records carries, if any carries one.
pub open spec fn newest(nodes: Seq<Record>) -> Option<Timestamp>
    decreases nodes.len(),
{
    if nodes.len() == 0 {
        None
    } else {
        later_of(newest(nodes.drop_last()), nodes.last().modified)
    }
}

/// `a` sorts before `b` in ascending order: by title; or by total size and then
/// by title; or by newest time and then by title.
pub open spec fn sorts_before(a: GroupView, b: GroupView, by: SortBy) -> bool {
    match by {
        SortBy::Name => text_before(a.title, b.title),
        SortBy::Size => total_size(a.nodes) < total_size(b.nodes) || (total_size(a.nodes)
            == total_size(b.nodes) && text_before(a.title, b.title)),
        SortBy::DateAdded => time_before(newest(a.nodes), newest(b.nodes)) || (newest(a.nodes)
            == newest(b.nodes) && text_before(a.title, b.title)),
    }
}

/// Group `i` is listed before group `j`: its key sorts first in the chosen
/// direction, or the keys do not tell the two apart and `i` was derived first.
pub open spec fn precedes(gs: Seq<GroupView>, i: int, j: int, by: SortBy, order: SortOrder) -> bool {
    if order == SortOrder::Descending {
        sorts_before(gs[j], gs[i], by) || (!sorts_before(gs[i], gs[j], by) && i < j)
    } else {
        sorts_before(gs[i], gs[j], by) || (!sorts_before(gs[j], gs[i], by) && i < j)
    }
}

/// The positions are listed in order: each precedes all that follow it.
pub open spec fn in_order(listed: Seq<usize>, gs: Seq<GroupView>, by: SortBy, order: SortOrder) -> bool {
    forall|a: int, b: int|
        0 <= a < b < listed.len() ==> precedes(gs, listed[a] as int, listed[b] as int, by, order)
}

/// Position `i` is marked in `mask`.
pub open spec fn marked(mask: Seq<bool>, i: int) -> bool {
    0 <= i < mask.len() && mask[i]
}

/// `listed` lists the marked positions below `upto`: it holds each of them, and
/// no other, in order.
pub open spec fn lists(
    listed: Seq<usize>,
    gs: Seq<GroupView>,
    upto: int,
    mask: Seq<bool>,
    by: SortBy,
    order: SortOrder,
) -> bool {
    &&& forall|k: int|
        0 <= k < listed.len() ==> (#[trigger] listed[k]) < upto && marked(mask, listed[k] as int)
    &&& forall|i: int| 0 <= i < upto && marked(mask, i) ==> #[trigger] listed.contains(i as usize)
    &&& in_order(listed, gs, by, order)
}

/// `listed` is the listing of the marked groups of `gs`.
pub open spec fn is_listing(
    listed: Seq<usize>,
    gs: Seq<GroupView>,
    mask: Seq<bool>,
    by: SortBy,
    order: SortOrder,
) -> bool {
    gs.len() <= usize::MAX && lists(listed, gs, gs.len() as int, mask, by, order)
}

/// Any two groups are told apart by the sort key, one sorting before the other,
/// or have the same key.
proof fn lemma_sort_key_is_total(a: GroupView, b: GroupView, by: SortBy)
    ensures
        sorts_before(a, b, by) || sorts_before(b, a, by) || (a.title == b.title && total_size(
            a.nodes,
        ) == total_size(b.nodes) && newest(a.nodes) == newest(b.nodes)) || (by == SortBy::Name
            && a.title == b.title) || (by == SortBy::Size && a.title == b.title && total_size(
            a.nodes,
        ) == total_size(b.nodes)) || (by == SortBy::DateAdded && a.title == b.title && newest(
            a.nodes,
        ) == newest(b.nodes)),
{
    text_order_is_total(a.title, b.title);
    let x = newest(a.nodes);
    let y = newest(b.nodes);
    if x is Some && y is Some && !time_before(x, y) && !time_before(y, x) {
        assert(x->0 == y->0);
    }
}

/// The listing order is a strict total order of the positions: of two different
/// positions exactly one precedes the other, and what precedes a position
/// precedes all that the position precedes.
proof fn lemma_precedes_is_an_order(
    gs: Seq<GroupView>,
    i: int,
    j: int,
    k: int,
    by: SortBy,
    order: SortOrder,
)
    ensures
        !(precedes(gs, i, j, by, order) && precedes(gs, j, i, by, order)),
        i != j ==> precedes(gs, i, j, by, order) || precedes(gs, j, i, by, order),
        precedes(gs, i, j, by, order) && precedes(gs, j, k, by, order) ==> precedes(
            gs,
            i,
            k,
            by,
            order,
        ),
{
    let a = gs[i];
    let b = gs[j];
    let c = gs[k];
    text_order_is_asymmetric(a.title, b.title);
    text_order_is_asymmetric(b.title, c.title);
    text_order_is_asymmetric(a.title, c.title);
    lemma_sort_key_is_total(a, b, by);
    lemma_sort_key_is_total(b, c, by);
    lemma_sort_key_is_total(a, c, by);
    if text_before(a.title, b.title) && text_before(b.title, c.title) {
        text_order_is_transitive(a.title, b.title, c.title);
    }
    if text_before(c.title, b.title) && text_before(b.title, a.title) {
        text_order_is_transitive(c.title, b.title, a.title);
    }
}

/// Two lists in order that hold the same positions are the same list.
proof fn lemma_one_order(p: Seq<usize>, q: Seq<usize>, gs: Seq<GroupView>, by: SortBy, order: SortOrder)
    requires
        in_order(p, gs, by, order),
        in_order(q, gs, by, order),
        forall|x: usize| p.contains(x) <==> q.contains(x),
    ensures
        p == q,
    decreases p.len(),
{
    if p.len() == 0 {
        if q.len() > 0 {
            assert(q.contains(q[0]));
        }
        assert(p =~= q);
    } else {
        assert(p.contains(p[0]));
        let b = choose|b: int| 0 <= b < q.len() && q[b] == p[0];
        assert(q.contains(q[0]));
        let a = choose|a: int| 0 <= a < p.len() && p[a] == q[0];
        lemma_precedes_is_an_order(gs, p[0] as int, q[0] as int, 0, by, order);
        assert(p[0] == q[0]);
        let pt = p.skip(1);
        let qt = q.skip(1);
        assert forall|x: usize| pt.contains(x) <==> qt.contains(x) by {
            lemma_precedes_is_an_order(gs, x as int, x as int, 0, by, order);
            if pt.contains(x) {
                let d = choose|d: int| 0 <= d < pt.len() && pt[d] == x;
                assert(p[d + 1] == x);
                assert(p.contains(x));
                let c = choose|c: int| 0 <= c < q.len() && q[c] == x;
                assert(c != 0);
                assert(qt[c - 1] == x);
            }
            if qt.contains(x) {
                let d = choose|d: int| 0 <= d < qt.len() && qt[d] == x;
                assert(q[d + 1] == x);
                assert(q.contains(x));
                let c = choose|c: int| 0 <= c < p.len() && p[c] == x;
                assert(c != 0);
                assert(pt[c - 1] == x);
            }
        }
        assert forall|a: int, b: int| 0 <= a < b < pt.len() implies precedes(
            gs,
            pt[a] as int,
            pt[b] as int,
            by,
            order,
        ) by {
            assert(pt[a] == p[a + 1] && pt[b] == p[b + 1]);
        }
        assert forall|a: int, b: int| 0 <= a < b < qt.len() implies precedes(
            gs,
            qt[a] as int,
            qt[b] as int,
            by,
            order,
        ) by {
            assert(qt[a] == q[a + 1] && qt[b] == q[b + 1]);
        }
        lemma_one_order(pt, qt, gs, by, order);
        assert(p =~= seq![p[0]] + pt);
        assert(q =~= seq![q[0]] + qt);
    }
}

/// The listing of the marked groups of a list is unique.
pub proof fn listing_is_unique(
    p: Seq<usize>,
    q: Seq<usize>,
    gs: Seq<GroupView>,
    mask: Seq<bool>,
    by: SortBy,
    order: SortOrder,
)
    requires
        is_listing(p, gs, mask, by, order),
        is_listing(q, gs, mask, by, order),
    ensures
        p == q,
{
    assert forall|x: usize| p.contains(x) <==> q.contains(x) by {
        if p.contains(x) {
            let k = choose|k: int| 0 <= k < p.len() && p[k] == x;
            assert(marked(mask, p[k] as int));
            assert(q.contains(x as int as usize));
        }
        if q.contains(x) {
            let k = choose|k: int| 0 <= k < q.len() && q[k] == x;
            assert(marked(mask, q[k] as int));
            assert(p.contains(x as int as usize));
        }
    }
    lemma_one_order(p, q, gs, by, order);
}

/// The listing of the marked groups of `gs`: their positions, sorted by the
/// chosen key in the chosen direction.
pub open spec fn listing_of(gs: Seq<GroupView>, mask: Seq<bool>, by: SortBy, order: SortOrder) -> Seq<
    usize,
> {
    choose|listed: Seq<usize>| is_listing(listed, gs, mask, by, order)
}

/// Which groups of `gs` are shown.
pub open spec fn shown_mask(gs: Seq<GroupView>, query: Seq<char>, filter: FilterMode) -> Seq<bool> {
    Seq::new(gs.len(), |i: int| shown(gs[i], query, filter))
}

/// The listing of `gs`: the positions of the groups that are shown, in the order
/// in which they are listed.
pub open spec fn listing(
    gs: Seq<GroupView>,
    query: Seq<char>,
    filter: FilterMode,
    by: SortBy,
    order: SortOrder,
) -> Seq<usize> {
    listing_of(gs, shown_mask(gs, query, filter), by, order)
}

/// The sizes of the nodes of `group`, added up.
pub fn size_of(group: &Group) -> (total: u128)
    ensures
        total == total_size(group@.nodes),
{
    let ghost rs = group@.nodes;
    let mut total: u128 = 0;
    let mut i: usize = 0;
    assert(rs.take(0) =~= Seq::<Record>::empty());
    while i < group.nodes.len()
        invariant
            0 <= i <= group.nodes.len(),
            rs == group@.nodes,
            total == total_size(rs.take(i as int)),
            total <= i * 0xffff_ffff_ffff_ffff,
        decreases group.nodes.len() - i,
    {
        proof {
            assert(rs.take(i + 1).drop_last() =~= rs.take(i as int));
            assert(rs.take(i + 1).last() == group.nodes[i as int]@);
        }
        total = total + group.nodes[i].size as u128;
        i += 1;
    }
    assert(rs.take(group.nodes.len() as int) =~= rs);
    total
}

/// Whether `a` is earlier than `b`.
pub fn is_time_before(a: Option<Timestamp>, b: Option<Timestamp>) -> (before: bool)
    ensures
        before == time_before(a, b),
{
    match (a, b) {
        (None, Some(_)) => true,
        (Some(x), Some(y)) => x.secs < y.secs || (x.secs == y.secs && x.nanos < y.nanos),
        _ => false,
    }
}

/// The latest time that any node of `group` carries.
pub fn newest_of(group: &Group) -> (latest: Option<Timestamp>)
    ensures
        latest == newest(group@.nodes),
{
    let ghost rs = group@.nodes;
    let mut latest: Option<Timestamp> = None;
    let mut i: usize = 0;
    assert(rs.take(0) =~= Seq::<Record>::empty());
    while i < group.nodes.len()
        invariant
            0 <= i <= group.nodes.len(),
            rs == group@.nodes,
            latest == newest(rs.take(i as int)),
        decreases group.nodes.len() - i,
    {
        proof {
            assert(rs.take(i + 1).drop_last() =~= rs.take(i as int));
            assert(rs.take(i + 1).last() == group.nodes[i as int]@);
        }
        if is_time_before(latest, group.nodes[i].modified) {
            latest = group.nodes[i].modified;
        }
        i += 1;
    }
    assert(rs.take(group.nodes.len() as int) =~= rs);
    latest
}

/// Whether `group` passes the filter.
pub fn passes_filter(group: &Group, filter: FilterMode) -> (b: bool)
    ensures
        b == passes(group@, filter),
{
    let ghost rs = group@.nodes;
    match filter {
        FilterMode::All => true,
        FilterMode::Orphans => {
            let mut i: usize = 0;
            while i < group.nodes.len()
                invariant
                    0 <= i <= group.nodes.len(),
                    rs == group@.nodes,
                    filter == FilterMode::Orphans,
                    forall|k: int| 0 <= k < i ==> is_linked(#[trigger] rs[k]),
                decreases group.nodes.len() - i,
            {
                assert(rs[i as int] == group.nodes[i as int]@);
                if !(group.nodes[i].has_downloads && group.nodes[i].has_media) {
                    assert(!is_linked(rs[i as int]));
                    return true;
                }
                i += 1;
            }
            false
        },
        FilterMode::Hardlinked => {
            let mut i: usize = 0;
            while i < group.nodes.len()
                invariant
                    0 <= i <= group.nodes.len(),
                    rs == group@.nodes,
                    filter == FilterMode::Hardlinked,
                    forall|k: int| 0 <= k < i ==> is_linked(#[trigger] rs[k]),
                decreases group.nodes.len() - i,
            {
                assert(rs[i as int] == group.nodes[i as int]@);
                if !(group.nodes[i].has_downloads && group.nodes[i].has_media) {
                    assert(!is_linked(rs[i as int]));
                    return false;
                }
                i += 1;
            }
            true
        },
    }
}

/// What the groups are sorted by, worked out once for each group.
struct SortKeys {
    sizes: Vec<u128>,
    dates: Vec<Option<Timestamp>>,
}

impl SortKeys {
    spec fn of(&self, gs: Seq<GroupView>) -> bool {
        &&& self.sizes.len() == gs.len()
        &&& self.dates.len() == gs.len()
        &&& forall|i: int| 0 <= i < gs.len() ==> self.sizes[i] == total_size(#[trigger] gs[i].nodes)
        &&& forall|i: int| 0 <= i < gs.len() ==> self.dates[i] == newest(#[trigger] gs[i].nodes)
    }
}

/// The sort keys of each group.
fn sort_keys(groups: &[Group]) -> (keys: SortKeys)
    ensures
        keys.of(group_views(groups@)),
{
    let ghost gs = group_views(groups@);
    let mut sizes: Vec<u128> = Vec::new();
    let mut dates: Vec<Option<Timestamp>> = Vec::new();
    let mut i: usize = 0;
    while i < groups.len()
        invariant
            0 <= i <= groups.len(),
            gs == group_views(groups@),
            sizes.len() == i,
            dates.len() == i,
            forall|k: int| 0 <= k < i ==> sizes[k] == total_size(#[trigger] gs[k].nodes),
            forall|k: int| 0 <= k < i ==> dates[k] == newest(#[trigger] gs[k].nodes),
        decreases groups.len() - i,
    {
        assert(gs[i as int] == groups[i as int]@);
        sizes.push(size_of(&groups[i]));
        dates.push(newest_of(&groups[i]));
        i += 1;
    }
    SortKeys { sizes, dates }
}

/// Whether group `i` sorts before group `j` in ascending order.
fn sorts_first(groups: &[Group], keys: &SortKeys, i: usize, j: usize, by: SortBy) -> (b: bool)
    requires
        keys.of(group_views(groups@)),
        i < groups.len(),
        j < groups.len(),
    ensures
        b == sorts_before(group_views(groups@)[i as int], group_views(groups@)[j as int], by),
{
    let ghost gs = group_views(groups@);
    assert(gs[i as int] == groups[i as int]@);
    assert(gs[j as int] == groups[j as int]@);
    assert(keys.sizes[i as int] == total_size(gs[i as int].nodes));
    assert(keys.sizes[j as int] == total_size(gs[j as int].nodes));
    assert(keys.dates[i as int] == newest(gs[i as int].nodes));
    assert(keys.dates[j as int] == newest(gs[j as int].nodes));
    let by_title = is_text_before(groups[i].title.as_str(), groups[j].title.as_str());
    match by {
        SortBy::Name => by_title,
        SortBy::Size => keys.sizes[i] < keys.sizes[j] || (keys.sizes[i] == keys.sizes[j]
            && by_title),
        SortBy::DateAdded => {
            let x = keys.dates[i];
            let y = keys.dates[j];
            is_time_before(x, y) || (!is_time_before(y, x) && by_title)
        },
    }
}

/// Whether group `i` is listed before group `j`.
fn comes_first(
    groups: &[Group],
    keys: &SortKeys,
    i: usize,
    j: usize,
    by: SortBy,
    order: SortOrder,
) -> (b: bool)
    requires
        keys.of(group_views(groups@)),
        i < groups.len(),
        j < groups.len(),
    ensures
        b == precedes(group_views(groups@), i as int, j as int, by, order),
{
    match order {
        SortOrder::Descending => sorts_first(groups, keys, j, i, by) || (!sorts_first(
            groups,
            keys,
            i,
            j,
            by,
        ) && i < j),
        SortOrder::Ascending => sorts_first(groups, keys, i, j, by) || (!sorts_first(
            groups,
            keys,
            j,
            i,
            by,
        ) && i < j),
    }
}

/// Puts the position `x` into the list where it belongs.
fn insert_in_order(
    listed: &mut Vec<usize>,
    x: usize,
    groups: &[Group],
    keys: &SortKeys,
    by: SortBy,
    order: SortOrder,
)
    requires
        keys.of(group_views(groups@)),
        x < groups.len(),
        in_order(old(listed)@, group_views(groups@), by, order),
        forall|k: int| 0 <= k < old(listed)@.len() ==> old(listed)@[k] < groups.len(),
        !old(listed)@.contains(x),
    ensures
        in_order(final(listed)@, group_views(groups@), by, order),
        forall|y: usize| final(listed)@.contains(y) <==> (old(listed)@.contains(y) || y == x),
{
    let ghost gs = group_views(groups@);
    let ghost before = listed@;
    let mut p: usize = 0;
    while p < listed.len() && !comes_first(groups, keys, x, listed[p], by, order)
        invariant
            0 <= p <= listed.len(),
            listed@ == before,
            keys.of(gs),
            gs == group_views(groups@),
            x < groups.len(),
            forall|k: int| 0 <= k < before.len() ==> before[k] < groups.len(),
            !before.contains(x),
            forall|q: int| 0 <= q < p ==> precedes(gs, before[q] as int, x as int, by, order),
        decreases listed.len() - p,
    {
        proof {
            assert(before.contains(before[p as int]));
            lemma_precedes_is_an_order(gs, x as int, before[p as int] as int, 0, by, order);
        }
        p += 1;
    }
    listed.insert(p, x);
    proof {
        let after = listed@;
        assert forall|a: int, b: int| 0 <= a < b < after.len() implies precedes(
            gs,
            after[a] as int,
            after[b] as int,
            by,
            order,
        ) by {
            if b < p {
                assert(after[a] == before[a] && after[b] == before[b]);
            } else if b == p {
                assert(after[a] == before[a]);
            } else if a == p {
                assert(after[b] == before[b - 1]);
                if b - 1 > p {
                    lemma_precedes_is_an_order(
                        gs,
                        x as int,
                        before[p as int] as int,
                        before[b - 1] as int,
                        by,
                        order,
                    );
                }
            } else if a < p {
                assert(after[a] == before[a] && after[b] == before[b - 1]);
            } else {
                assert(after[a] == before[a - 1] && after[b] == before[b - 1]);
            }
        }
        assert forall|y: usize| after.contains(y) <==> (before.contains(y) || y == x) by {
            if after.contains(y) {
                let k = choose|k: int| 0 <= k < after.len() && after[k] == y;
                if k < p {
                    assert(before[k] == y);
                } else if k > p {
                    assert(before[k - 1] == y);
                }
            }
            if before.contains(y) {
                let k = choose|k: int| 0 <= k < before.len() && before[k] == y;
                if k < p {
                    assert(after[k] == y);
                } else {
                    assert(after[k + 1] == y);
                }
            }
            if y == x {
                assert(after[p as int] == y);
            }
        }
    }
}

/// The positions of the marked groups, sorted by the chosen key in the chosen
/// direction. Groups that the key does not tell apart keep their order. A group
/// beyond the end of `mask` counts as not marked.
pub fn arrange_marked(groups: &[Group], mask: &[bool], by: SortBy, order: SortOrder) -> (listed: Vec<
    usize,
>)
    ensures
        is_listing(listed@, group_views(groups@), mask@, by, order),
        listed@ == listing_of(group_views(groups@), mask@, by, order),
{
    let ghost gs = group_views(groups@);
    let keys = sort_keys(groups);
    let mut listed: Vec<usize> = Vec::new();
    let mut i: usize = 0;
    while i < groups.len()
        invariant
            0 <= i <= groups.len(),
            gs == group_views(groups@),
            keys.of(gs),
            lists(listed@, gs, i as int, mask@, by, order),
        decreases groups.len() - i,
    {
        let ghost before = listed@;
        if i < mask.len() && mask[i] {
            proof {
                if before.contains(i) {
                    let k = choose|k: int| 0 <= k < before.len() && before[k] == i;
                    assert(before[k] < i);
                }
            }
            insert_in_order(&mut listed, i, groups, &keys, by, order);
        }
        proof {
            let after = listed@;
            assert forall|k: int| 0 <= k < after.len() implies (#[trigger] after[k]) < i + 1
                && marked(mask@, after[k] as int) by {
                assert(after.contains(after[k]));
                if before.contains(after[k]) {
                    let m = choose|m: int| 0 <= m < before.len() && before[m] == after[k];
                    assert(before[m] < i);
                }
            }
            assert forall|j: int| 0 <= j < i + 1 && marked(mask@, j) implies #[trigger] after.contains(
                j as usize,
            ) by {
                if j < i {
                    assert(before.contains(j as usize));
                }
            }
        }
        i += 1;
    }
    proof {
        listing_is_unique(listed@, listing_of(gs, mask@, by, order), gs, mask@, by, order);
    }
    listed
}

/// Whether each group is shown: whether it matches the query and passes the
/// filter.
pub fn mark_shown(groups: &[Group], query: &str, filter: FilterMode) -> (mask: Vec<bool>)
    ensures
        mask@ == shown_mask(group_views(groups@), query@, filter),
{
    let ghost gs = group_views(groups@);
    let any_title = chars_are_none(query);
    let lower_query = to_lowercase(query);
    let mut mask: Vec<bool> = Vec::new();
    let mut i: usize = 0;
    while i < groups.len()
        invariant
            0 <= i <= groups.len(),
            gs == group_views(groups@),
            any_title == (query@.len() == 0),
            lower_query@ == lowercase(query@),
            mask@.len() == i,
            forall|k: int| 0 <= k < i ==> mask@[k] == shown(gs[k], query@, filter),
        decreases groups.len() - i,
    {
        assert(gs[i as int] == groups[i as int]@);
        let matches = any_title || {
            let lower_title = to_lowercase(groups[i].title.as_str());
            contains(lower_title.as_str(), lower_query.as_str())
        };
        mask.push(matches && passes_filter(&groups[i], filter));
        i += 1;
    }
    assert(mask@ =~= shown_mask(gs, query@, filter));
    mask
}

/// The positions of the groups that a view lists, in the order in which it lists
/// them: those that match the query and pass the filter, sorted by the chosen
/// key in the chosen direction.
pub fn arrange(groups: &[Group], query: &str, filter: FilterMode, by: SortBy, order: SortOrder) -> (listed:
    Vec<usize>)
    ensures
        is_listing(
            listed@,
            group_views(groups@),
            shown_mask(group_views(groups@), query@, filter),
            by,
            order,
        ),
        listed@ == listing(group_views(groups@), query@, filter, by, order),
{
    let mask = mark_shown(groups, query, filter);
    arrange_marked(groups, mask.as_slice(), by, order)
}

/// Whether the string has no characters.
fn chars_are_none(s: &str) -> (none: bool)
    ensures
        none == (s@.len() == 0),
{
    s.unicode_len() == 0
}

} // verus!
