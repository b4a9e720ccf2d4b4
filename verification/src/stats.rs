//! The figures that a view shows of its groups.

use vstd::prelude::*;
use crate::grouping::{group_views, Group, GroupView};
use crate::scanner::Record;
use crate::sorting::{is_linked, size_of, total_size};

verus! {

/// How many of the records are present on both sides.
pub open spec fn linked_count(nodes: Seq<Record>) -> nat
    decreases nodes.len(),
{
    if nodes.len() == 0 {
        0
    } else {
        linked_count(nodes.drop_last()) + if is_linked(nodes.last()) {
            1nat
        } else {
            0nat
        }
    }
}

/// The sizes of the records that are present on both sides, added up: the space
/// that hard links save.
pub open spec fn linked_size(nodes: Seq<Record>) -> nat
    decreases nodes.len(),
{
    if nodes.len() == 0 {
        0
    } else {
        linked_size(nodes.drop_last()) + if is_linked(nodes.last()) {
            nodes.last().size as nat
        } else {
            0nat
        }
    }
}

/// The figures of a list of groups.
#[derive(Debug, Clone, Copy, PartialEq, Eq)]
pub struct Totals {
    /// How many records the groups hold, a record counting once for each group
    /// that holds it.
    pub files: u128,
    /// The sizes of those records, added up.
    pub size: u128,
    /// The sizes of those of them that are present on both sides, added up.
    pub saved: u128,
}

/// The number of records in the groups.
pub open spec fn files_in(gs: Seq<GroupView>) -> nat
    decreases gs.len(),
{
    if gs.len() == 0 {
        0
    } else {
        files_in(gs.drop_last()) + gs.last().nodes.len()
    }
}

/// The sizes of the records in the groups, added up.
pub open spec fn size_in(gs: Seq<GroupView>) -> nat
    decreases gs.len(),
{
    if gs.len() == 0 {
        0
    } else {
        size_in(gs.drop_last()) + total_size(gs.last().nodes)
    }
}

/// The sizes of the records in the groups that are present on both sides, added
/// up.
pub open spec fn saved_in(gs: Seq<GroupView>) -> nat
    decreases gs.len(),
{
    if gs.len() == 0 {
        0
    } else {
        saved_in(gs.drop_last()) + linked_size(gs.last().nodes)
    }
}

/// How many nodes of `group` are present on both sides.
pub fn count_linked(group: &Group) -> (count: usize)
    ensures
        count == linked_count(group@.nodes),
{
    let ghost rs = group@.nodes;
    let mut count: usize = 0;
    let mut i: usize = 0;
    assert(rs.take(0) =~= Seq::<Record>::empty());
    while i < group.nodes.len()
        invariant
            0 <= i <= group.nodes.len(),
            rs == group@.nodes,
            count == linked_count(rs.take(i as int)),
            count <= i,
        decreases group.nodes.len() - i,
    {
        proof {
            assert(rs.take(i + 1).drop_last() =~= rs.take(i as int));
            assert(rs.take(i + 1).last() == group.nodes[i as int]@);
        }
        if group.nodes[i].has_downloads && group.nodes[i].has_media {
            count += 1;
        }
        i += 1;
    }
    assert(rs.take(group.nodes.len() as int) =~= rs);
    count
}

/// The sizes of the nodes of `group` that are present on both sides, added up.
pub fn saved_size_of(group: &Group) -> (saved: u128)
    ensures
        saved == linked_size(group@.nodes),
{
    let ghost rs = group@.nodes;
    let mut saved: u128 = 0;
    let mut i: usize = 0;
    assert(rs.take(0) =~= Seq::<Record>::empty());
    while i < group.nodes.len()
        invariant
            0 <= i <= group.nodes.len(),
            rs == group@.nodes,
            saved == linked_size(rs.take(i as int)),
            saved <= i * 0xffff_ffff_ffff_ffff,
        decreases group.nodes.len() - i,
    {
        proof {
            assert(rs.take(i + 1).drop_last() =~= rs.take(i as int));
            assert(rs.take(i + 1).last() == group.nodes[i as int]@);
        }
        if group.nodes[i].has_downloads && group.nodes[i].has_media {
            saved = saved + group.nodes[i].size as u128;
        }
        i += 1;
    }
    assert(rs.take(group.nodes.len() as int) =~= rs);
    saved
}

/// The figures of the groups, or `None` where one of them does not fit in 128
/// bits.
pub fn totals(groups: &[Group]) -> (figures: Option<Totals>)
    ensures
        match figures {
            Some(t) => {
                &&& t.files == files_in(group_views(groups@))
                &&& t.size == size_in(group_views(groups@))
                &&& t.saved == saved_in(group_views(groups@))
            },
            None => files_in(group_views(groups@)) > u128::MAX || size_in(group_views(groups@))
                > u128::MAX,
        },
{
    let ghost gs = group_views(groups@);
    let mut files: u128 = 0;
    let mut size: u128 = 0;
    let mut saved: u128 = 0;
    let mut i: usize = 0;
    assert(gs.take(0) =~= Seq::<GroupView>::empty());
    while i < groups.len()
        invariant
            0 <= i <= groups.len(),
            gs == group_views(groups@),
            files == files_in(gs.take(i as int)),
            size == size_in(gs.take(i as int)),
            saved == saved_in(gs.take(i as int)),
            saved <= size,
        decreases groups.len() - i,
    {
        proof {
            assert(gs.take(i + 1).drop_last() =~= gs.take(i as int));
            assert(gs.take(i + 1).last() == groups[i as int]@);
            lemma_linked_is_part(groups[i as int]@.nodes);
            lemma_totals_grow(gs, i + 1);
        }
        let count = groups[i].nodes.len() as u128;
        let group_size = size_of(&groups[i]);
        let group_saved = saved_size_of(&groups[i]);
        if count > u128::MAX - files || group_size > u128::MAX - size {
            return None;
        }
        files = files + count;
        size = size + group_size;
        saved = saved + group_saved;
        i += 1;
    }
    assert(gs.take(groups.len() as int) =~= gs);
    Some(Totals { files, size, saved })
}

/// The linked records of a list weigh no more than all of its records.
proof fn lemma_linked_is_part(nodes: Seq<Record>)
    ensures
        linked_size(nodes) <= total_size(nodes),
    decreases nodes.len(),
{
    if nodes.len() > 0 {
        lemma_linked_is_part(nodes.drop_last());
    }
}

/// The figures of the first groups of a list do not exceed those of the list.
proof fn lemma_totals_grow(gs: Seq<GroupView>, upto: int)
    requires
        0 <= upto <= gs.len(),
    ensures
        files_in(gs.take(upto)) <= files_in(gs),
        size_in(gs.take(upto)) <= size_in(gs),
    decreases gs.len() - upto,
{
    if upto < gs.len() {
        lemma_totals_grow(gs, upto + 1);
        assert(gs.take(upto + 1).drop_last() =~= gs.take(upto));
    } else {
        assert(gs.take(upto) =~= gs);
    }
}

} // verus!
