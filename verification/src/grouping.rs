//! Grouping of records into the top-level folders they live in.
//!
//! Under each configured root, the first component of a path below the root names
//! a container: a movie's folder, or one downloaded item. A group collects the
//! records that have a path in one container. A record with paths in several
//! containers belongs to each of them.

use vstd::prelude::*;
use crate::paths::{is_under, join, joined, top_below, top_component, under};
use crate::scanner::{records, FileNode, Record};
use crate::text::{clone_opt_text, same_text};

verus! {

#[derive(Debug, Clone, Copy, PartialEq, Eq, Structural)]
pub enum GroupKind {
    Movie,
    Series,
    DownloadTorrent,
    Other,
}

/// A group as the contracts see it.
pub struct GroupView {
    pub kind: GroupKind,
    pub title: Seq<char>,
    pub media_container: Option<Seq<char>>,
    pub downloads_container: Option<Seq<char>>,
    pub nodes: Seq<Record>,
}

/// The records found in one container, as copies of the records they were made
/// from.
#[derive(Debug)]
pub struct Group {
    pub kind: GroupKind,
    pub title: String,
    pub media_container: Option<String>,
    pub downloads_container: Option<String>,
    pub nodes: Vec<FileNode>,
}

impl View for Group {
    type V = GroupView;

    open spec fn view(&self) -> GroupView {
        GroupView {
            kind: self.kind,
            title: self.title@,
            media_container: self.media_container.deep_view(),
            downloads_container: self.downloads_container.deep_view(),
            nodes: records(self.nodes@),
        }
    }
}

impl Clone for Group {
    fn clone(&self) -> (copy: Self)
        ensures
            copy@ == self@,
    {
        Group {
            kind: self.kind,
            title: self.title.clone(),
            media_container: clone_opt_text(&self.media_container),
            downloads_container: clone_opt_text(&self.downloads_container),
            nodes: crate::scanner::clone_nodes(self.nodes.as_slice()),
        }
    }
}

/// The groups that a list of groups stands for.
pub open spec fn group_views(groups: Seq<Group>) -> Seq<GroupView> {
    Seq::new(groups.len(), |i: int| groups[i]@)
}

/// A container and the title of its group.
pub struct Placement {
    pub container: Seq<char>,
    pub title: Seq<char>,
}

/// `r` is the first of `roots` that `path` lies under.
pub open spec fn is_owning_root(path: Seq<char>, roots: Seq<Seq<char>>, r: int) -> bool {
    &&& 0 <= r < roots.len()
    &&& under(path, roots[r])
    &&& forall|q: int| 0 <= q < r ==> !under(path, roots[q])
}

/// The container that `path` falls into: the first root that `path` lies under,
/// extended by the first component of `path` below it. A path that lies under
/// no root, or is a root itself, falls into none.
pub open spec fn placement(path: Seq<char>, roots: Seq<Seq<char>>) -> Option<Placement> {
    if exists|r: int| is_owning_root(path, roots, r) {
        let r = choose|r: int| is_owning_root(path, roots, r);
        match top_below(path, roots[r]) {
            Some(name) => Some(Placement { container: joined(roots[r], name), title: name }),
            None => None,
        }
    } else {
        None
    }
}

/// The flag that a grouping goes by: seen under the downloads root, or seen
/// under a media root.
pub open spec fn on_side(r: Record, downloads: bool) -> bool {
    if downloads {
        r.has_downloads
    } else {
        r.has_media
    }
}

/// `path` falls into `container`.
pub open spec fn falls_into(path: Seq<char>, roots: Seq<Seq<char>>, container: Seq<char>) -> bool {
    match placement(path, roots) {
        Some(pl) => pl.container == container,
        None => false,
    }
}

/// `r` has the flag of the side and a path that falls into `container`.
pub open spec fn belongs(r: Record, downloads: bool, roots: Seq<Seq<char>>, container: Seq<char>) -> bool {
    on_side(r, downloads) && exists|j: int|
        0 <= j < r.paths.len() && falls_into(#[trigger] r.paths[j], roots, container)
}

/// The records of `rs` that belong to `container`, in the order of `rs`.
pub open spec fn members(
    rs: Seq<Record>,
    downloads: bool,
    roots: Seq<Seq<char>>,
    container: Seq<char>,
) -> Seq<Record> {
    rs.filter(|r: Record| belongs(r, downloads, roots, container))
}

/// The container of a group on the given side.
pub open spec fn container_of(g: GroupView, downloads: bool) -> Option<Seq<char>> {
    if downloads {
        g.downloads_container
    } else {
        g.media_container
    }
}

/// Path `j` of record `i` of `rs` counts for the side and falls into `pl`.
pub open spec fn places(
    rs: Seq<Record>,
    downloads: bool,
    roots: Seq<Seq<char>>,
    i: int,
    j: int,
    pl: Placement,
) -> bool {
    &&& 0 <= i < rs.len()
    &&& 0 <= j < rs[i].paths.len()
    &&& on_side(rs[i], downloads)
    &&& placement(rs[i].paths[j], roots) == Some(pl)
}

/// Some path of a record of `rs` counts for the side and falls into `pl`.
pub open spec fn has_placement(rs: Seq<Record>, downloads: bool, roots: Seq<Seq<char>>, pl: Placement) -> bool {
    exists|i: int, j: int| places(rs, downloads, roots, i, j, pl)
}

/// `g` is the group of one container of `rs`: it names the container on its side
/// only, is titled by the component that made the container, and holds exactly
/// the records that belong to the container, each once, in the order of `rs`.
pub open spec fn is_group_of(g: GroupView, rs: Seq<Record>, downloads: bool, roots: Seq<Seq<char>>) -> bool {
    &&& g.kind == if downloads {
        GroupKind::DownloadTorrent
    } else {
        GroupKind::Movie
    }
    &&& container_of(g, downloads) is Some
    &&& container_of(g, !downloads) is None
    &&& has_placement(
        rs,
        downloads,
        roots,
        Placement { container: container_of(g, downloads)->0, title: g.title },
    )
    &&& g.nodes == members(rs, downloads, roots, container_of(g, downloads)->0)
}

/// `gs` is the grouping of `rs` on one side: one group for each container that a
/// path of a flagged record falls into, and no other.
pub open spec fn is_grouping(
    gs: Seq<GroupView>,
    rs: Seq<Record>,
    downloads: bool,
    roots: Seq<Seq<char>>,
) -> bool {
    &&& forall|k: int| 0 <= k < gs.len() ==> is_group_of(#[trigger] gs[k], rs, downloads, roots)
    &&& forall|a: int, b: int|
        0 <= a < b < gs.len() ==> container_of(gs[a], downloads) != container_of(gs[b], downloads)
    &&& forall|i: int, j: int, pl: Placement| #[trigger]
        places(rs, downloads, roots, i, j, pl) ==> exists|k: int|
            0 <= k < gs.len() && container_of(#[trigger] gs[k], downloads) == Some(pl.container)
}

/// A container found for a path.
#[derive(Debug)]
pub struct Placed {
    pub container: String,
    pub title: String,
}

impl View for Placed {
    type V = Placement;

    open spec fn view(&self) -> Placement {
        Placement { container: self.container@, title: self.title@ }
    }
}

/// The view of an optional placement.
pub open spec fn placed_view(p: Option<Placed>) -> Option<Placement> {
    match p {
        Some(pl) => Some(pl@),
        None => None,
    }
}

/// The container that `path` falls into under `roots`, with the title of its
/// group.
pub fn place(path: &str, roots: &[String]) -> (placed: Option<Placed>)
    ensures
        placed_view(placed) == placement(path@, roots.deep_view()),
{
    let ghost rv = roots.deep_view();
    let mut r: usize = 0;
    while r < roots.len()
        invariant
            0 <= r <= roots.len(),
            rv == roots.deep_view(),
            forall|q: int| 0 <= q < r ==> !under(path@, rv[q]),
        decreases roots.len() - r,
    {
        let root = roots[r].as_str();
        assert(root@ == rv[r as int]);
        if is_under(path, root) {
            proof {
                assert(is_owning_root(path@, rv, r as int));
                let c = choose|c: int| is_owning_root(path@, rv, c);
                assert(c == r);
            }
            return match top_component(path, root) {
                Some(name) => {
                    let container = join(root, name.as_str());
                    Some(Placed { container, title: name })
                },
                None => None,
            };
        }
        r += 1;
    }
    None
}

/// Whether `node` belongs to `container`.
pub fn belongs_to(node: &FileNode, downloads: bool, roots: &[String], container: &str) -> (b: bool)
    ensures
        b == belongs(node@, downloads, roots.deep_view(), container@),
{
    let flagged = if downloads {
        node.has_downloads
    } else {
        node.has_media
    };
    if !flagged {
        return false;
    }
    let ghost rv = roots.deep_view();
    let ghost paths = node@.paths;
    let mut j: usize = 0;
    while j < node.paths.len()
        invariant
            0 <= j <= node.paths.len(),
            rv == roots.deep_view(),
            paths == node@.paths,
            on_side(node@, downloads),
            forall|q: int| 0 <= q < j ==> !falls_into(#[trigger] paths[q], rv, container@),
        decreases node.paths.len() - j,
    {
        assert(node.paths[j as int]@ == paths[j as int]);
        match place(node.paths[j].as_str(), roots) {
            Some(pl) => {
                if same_text(pl.container.as_str(), container) {
                    assert(falls_into(paths[j as int], rv, container@));
                    return true;
                }
            },
            None => {},
        }
        j += 1;
    }
    false
}

/// Copies of the nodes that belong to `container`, in order.
fn collect_members(nodes: &[FileNode], downloads: bool, roots: &[String], container: &str) -> (out: Vec<
    FileNode,
>)
    ensures
        records(out@) == members(records(nodes@), downloads, roots.deep_view(), container@),
{
    let ghost rs = records(nodes@);
    let ghost rv = roots.deep_view();
    let ghost pred = |r: Record| belongs(r, downloads, rv, container@);
    let mut out: Vec<FileNode> = Vec::new();
    let mut i: usize = 0;
    assert(rs.take(0).filter(pred) =~= Seq::<Record>::empty()) by {
        reveal(Seq::filter);
    }
    assert(records(out@) =~= Seq::<Record>::empty());
    while i < nodes.len()
        invariant
            0 <= i <= nodes.len(),
            rs == records(nodes@),
            rv == roots.deep_view(),
            pred == (|r: Record| belongs(r, downloads, rv, container@)),
            records(out@) == rs.take(i as int).filter(pred),
        decreases nodes.len() - i,
    {
        let ghost before = records(out@);
        proof {
            assert(rs.take(i + 1) =~= rs.take(i as int).push(rs[i as int]));
            rs.take(i as int).lemma_filter_push(rs[i as int], pred);
        }
        if belongs_to(&nodes[i], downloads, roots, container) {
            out.push(nodes[i].clone());
            assert(records(out@) =~= before.push(rs[i as int]));
        }
        i += 1;
    }
    assert(rs.take(nodes.len() as int) =~= rs);
    out
}

/// Whether one of `found` names `container`.
fn names_container(found: &Vec<Placed>, container: &str) -> (b: bool)
    ensures
        b == exists|k: int| 0 <= k < found@.len() && (#[trigger] found@[k])@.container == container@,
{
    let mut k: usize = 0;
    while k < found.len()
        invariant
            0 <= k <= found.len(),
            forall|q: int| 0 <= q < k ==> (#[trigger] found@[q])@.container != container@,
        decreases found.len() - k,
    {
        if same_text(found[k].container.as_str(), container) {
            return true;
        }
        k += 1;
    }
    false
}

/// Every placement of the paths `0..j` of record `i` is among `found`.
spec fn covers_paths(
    found: Seq<Placed>,
    rs: Seq<Record>,
    downloads: bool,
    roots: Seq<Seq<char>>,
    i: int,
    j: int,
) -> bool {
    forall|q: int, pl: Placement|
        0 <= q < j && #[trigger] places(rs, downloads, roots, i, q, pl) ==> exists|k: int|
            0 <= k < found.len() && (#[trigger] found[k])@.container == pl.container
}

/// Every placement of the records `0..i` is among `found`.
spec fn covers_records(
    found: Seq<Placed>,
    rs: Seq<Record>,
    downloads: bool,
    roots: Seq<Seq<char>>,
    i: int,
) -> bool {
    forall|p: int, q: int, pl: Placement|
        0 <= p < i && #[trigger] places(rs, downloads, roots, p, q, pl) ==> exists|k: int|
            0 <= k < found.len() && (#[trigger] found[k])@.container == pl.container
}

/// Each of `found` is the placement of some path, and no container comes twice.
spec fn sound(found: Seq<Placed>, rs: Seq<Record>, downloads: bool, roots: Seq<Seq<char>>) -> bool {
    &&& forall|k: int| 0 <= k < found.len() ==> has_placement(rs, downloads, roots, (#[trigger] found[k])@)
    &&& forall|a: int, b: int|
        0 <= a < b < found.len() ==> found[a]@.container != found[b]@.container
}

/// A sound list stays sound when the placement of one more path joins it under a
/// container that it did not name.
proof fn lemma_sound_push(
    found: Seq<Placed>,
    rs: Seq<Record>,
    downloads: bool,
    roots: Seq<Seq<char>>,
    i: int,
    j: int,
    pl: Placed,
)
    requires
        sound(found, rs, downloads, roots),
        places(rs, downloads, roots, i, j, pl@),
        forall|k: int| 0 <= k < found.len() ==> (#[trigger] found[k])@.container != pl@.container,
    ensures
        sound(found.push(pl), rs, downloads, roots),
{
    let next = found.push(pl);
    assert forall|k: int| 0 <= k < next.len() implies has_placement(
        rs,
        downloads,
        roots,
        (#[trigger] next[k])@,
    ) by {
        if k < found.len() {
            assert(next[k] == found[k]);
        } else {
            assert(places(rs, downloads, roots, i, j, next[k]@));
        }
    }
    assert forall|a: int, b: int| 0 <= a < b < next.len() implies next[a]@.container
        != next[b]@.container by {
        if b == found.len() {
            assert(found[a]@.container != pl@.container);
        } else {
            assert(next[a] == found[a] && next[b] == found[b]);
        }
    }
}

/// The containers that the paths of flagged nodes fall into, each once.
fn containers(nodes: &[FileNode], downloads: bool, roots: &[String]) -> (found: Vec<Placed>)
    ensures
        sound(found@, records(nodes@), downloads, roots.deep_view()),
        covers_records(found@, records(nodes@), downloads, roots.deep_view(), nodes.len() as int),
{
    let ghost rs = records(nodes@);
    let ghost rv = roots.deep_view();
    let mut found: Vec<Placed> = Vec::new();
    let mut i: usize = 0;
    while i < nodes.len()
        invariant
            0 <= i <= nodes.len(),
            rs == records(nodes@),
            rv == roots.deep_view(),
            sound(found@, rs, downloads, rv),
            covers_records(found@, rs, downloads, rv, i as int),
        decreases nodes.len() - i,
    {
        let node = &nodes[i];
        assert(node@ == rs[i as int]);
        let flagged = if downloads {
            node.has_downloads
        } else {
            node.has_media
        };
        let mut j: usize = 0;
        if flagged {
            while j < node.paths.len()
                invariant
                    0 <= j <= node.paths.len(),
                    0 <= i < nodes.len(),
                    rs == records(nodes@),
                    rv == roots.deep_view(),
                    node@ == rs[i as int],
                    on_side(rs[i as int], downloads),
                    sound(found@, rs, downloads, rv),
                    covers_records(found@, rs, downloads, rv, i as int),
                    covers_paths(found@, rs, downloads, rv, i as int, j as int),
                decreases node.paths.len() - j,
            {
                assert(node.paths[j as int]@ == rs[i as int].paths[j as int]);
                let ghost old_found = found@;
                match place(node.paths[j].as_str(), roots) {
                    Some(pl) => {
                        if !names_container(&found, pl.container.as_str()) {
                            proof {
                                lemma_sound_push(found@, rs, downloads, rv, i as int, j as int, pl);
                            }
                            found.push(pl);
                            assert(forall|k: int|
                                0 <= k < old_found.len() ==> found@[k] == old_found[k]);
                            assert(sound(found@, rs, downloads, rv));
                        }
                    },
                    None => {},
                }
                proof {
                    assert forall|q: int, pl: Placement|
                        0 <= q < j + 1 && #[trigger] places(
                            rs,
                            downloads,
                            rv,
                            i as int,
                            q,
                            pl,
                        ) implies exists|k: int|
                        0 <= k < found.len() && (#[trigger] found@[k])@.container
                            == pl.container by {
                        if q < j {
                            let k = choose|k: int|
                                0 <= k < old_found.len() && (#[trigger] old_found[k])@.container
                                    == pl.container;
                            assert(found@[k]@.container == pl.container);
                        } else {
                            if exists|k: int|
                                0 <= k < old_found.len() && old_found[k]@.container
                                    == pl.container {
                                let k = choose|k: int|
                                    0 <= k < old_found.len() && old_found[k]@.container
                                        == pl.container;
                                assert(found@[k]@.container == pl.container);
                            } else {
                                assert(found@[found.len() - 1]@.container == pl.container);
                            }
                        }
                    }
                    assert forall|p: int, q: int, pl: Placement|
                        0 <= p < i && #[trigger] places(rs, downloads, rv, p, q, pl) implies exists|
                        k: int,
                    |
                        0 <= k < found.len() && (#[trigger] found@[k])@.container
                            == pl.container by {
                        let k = choose|k: int|
                            0 <= k < old_found.len() && (#[trigger] old_found[k])@.container
                                == pl.container;
                        assert(found@[k]@.container == pl.container);
                    }
                }
                j += 1;
            }
        }
        proof {
            assert forall|p: int, q: int, pl: Placement|
                0 <= p < i + 1 && #[trigger] places(rs, downloads, rv, p, q, pl) implies exists|
                k: int,
            |
                0 <= k < found.len() && (#[trigger] found@[k])@.container == pl.container by {
                if p == i {
                    assert(flagged);
                    assert(q < j);
                }
            }
        }
        i += 1;
    }
    found
}

/// The groups of `nodes` on one side: one for each container under `roots`.
fn group_records(nodes: &[FileNode], downloads: bool, roots: &[String]) -> (groups: Vec<Group>)
    ensures
        is_grouping(group_views(groups@), records(nodes@), downloads, roots.deep_view()),
{
    let ghost rs = records(nodes@);
    let ghost rv = roots.deep_view();
    let found = containers(nodes, downloads, roots);
    let mut groups: Vec<Group> = Vec::new();
    let mut k: usize = 0;
    while k < found.len()
        invariant
            0 <= k <= found.len(),
            rs == records(nodes@),
            rv == roots.deep_view(),
            sound(found@, rs, downloads, rv),
            groups.len() == k,
            forall|q: int|
                0 <= q < k ==> is_group_of(#[trigger] groups[q]@, rs, downloads, rv) && container_of(
                    groups[q]@,
                    downloads,
                ) == Some(found[q]@.container),
        decreases found.len() - k,
    {
        let pl = &found[k];
        let members = collect_members(nodes, downloads, roots, pl.container.as_str());
        let group = if downloads {
            Group {
                kind: GroupKind::DownloadTorrent,
                title: pl.title.clone(),
                media_container: None,
                downloads_container: Some(pl.container.clone()),
                nodes: members,
            }
        } else {
            Group {
                kind: GroupKind::Movie,
                title: pl.title.clone(),
                media_container: Some(pl.container.clone()),
                downloads_container: None,
                nodes: members,
            }
        };
        proof {
            assert(has_placement(rs, downloads, rv, found@[k as int]@));
            assert(found@[k as int]@ == Placement {
                container: container_of(group@, downloads)->0,
                title: group@.title,
            });
        }
        groups.push(group);
        k += 1;
    }
    proof {
        let gs = group_views(groups@);
        assert forall|i: int, j: int, pl: Placement| #[trigger]
            places(rs, downloads, rv, i, j, pl) implies exists|k: int|
            0 <= k < gs.len() && container_of(#[trigger] gs[k], downloads) == Some(
                pl.container,
            ) by {
            let k = choose|k: int|
                0 <= k < found.len() && (#[trigger] found[k])@.container == pl.container;
            assert(container_of(gs[k], downloads) == Some(pl.container));
        }
    }
    groups
}

/// Groups the records seen under a media root by the top-level folder they live
/// in. A path counts for the first media root that it lies under.
pub fn group_by_media(nodes: &[FileNode], media_dirs: &[String]) -> (groups: Vec<Group>)
    ensures
        is_grouping(group_views(groups@), records(nodes@), false, media_dirs.deep_view()),
{
    group_records(nodes, false, media_dirs)
}

/// Groups the records seen under the downloads root by the top-level item they
/// live in.
pub fn group_by_downloads(nodes: &[FileNode], download_dir: &str) -> (groups: Vec<Group>)
    ensures
        is_grouping(group_views(groups@), records(nodes@), true, seq![download_dir@]),
{
    let mut roots: Vec<String> = Vec::new();
    roots.push(download_dir.to_owned());
    let roots = roots.as_slice();
    assert(roots.deep_view() =~= seq![download_dir@]);
    group_records(nodes, true, roots)
}

} // verus!
