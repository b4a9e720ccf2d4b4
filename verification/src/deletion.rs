//! The deletion coordinator.
//!
//! A deletion runs in three steps. [`plan_delete`] works out, for a selected group
//! and a scope, which paths to remove from disk and which torrents to hand to the
//! torrent service. The caller removes the paths, a path that is already gone
//! counting as removed. [`apply_removal`] then takes the planned paths that are
//! gone out of the records, derives the root flags of every record anew and drops
//! the records that are left without a path.

use vstd::prelude::*;
use crate::app::DeleteScope;
use crate::grouping::{Group, GroupView};
use crate::paths::{is_under, under};
use crate::scanner::{records, FileKey, FileNode, Record};
use crate::text::{clone_opt_text, clone_texts, holds_text};

verus! {

/// The scope reaches the downloads side.
pub open spec fn touches_downloads(scope: DeleteScope) -> bool {
    scope == DeleteScope::Downloads || scope == DeleteScope::All
}

/// The scope reaches the media side.
pub open spec fn touches_media(scope: DeleteScope) -> bool {
    scope == DeleteScope::Media || scope == DeleteScope::All
}

/// `path` lies under one of `roots`.
pub open spec fn under_any(path: Seq<char>, roots: Seq<Seq<char>>) -> bool {
    exists|r: int| 0 <= r < roots.len() && under(path, #[trigger] roots[r])
}

/// The downloads root as a list of roots: empty where none is configured.
pub open spec fn root_list(download_dir: Option<Seq<char>>) -> Seq<Seq<char>> {
    match download_dir {
        Some(dir) => seq![dir],
        None => Seq::empty(),
    }
}

/// The paths of `paths` that lie under one of `roots`, in order.
pub open spec fn paths_under(paths: Seq<Seq<char>>, roots: Seq<Seq<char>>) -> Seq<Seq<char>> {
    paths.filter(|p: Seq<char>| under_any(p, roots))
}

/// `r` is a member of the selection: the selection holds a copy of it.
pub open spec fn selected(r: Record, selection: GroupView) -> bool {
    exists|m: int| 0 <= m < selection.nodes.len() && (#[trigger] selection.nodes[m]).key == r.key
}

/// The paths of `r` that the scope removes from disk. On the downloads side a
/// record that carries a torrent identifier gives none: its files are the torrent
/// service's to remove.
pub open spec fn targets(
    r: Record,
    scope: DeleteScope,
    download_dir: Option<Seq<char>>,
    media_dirs: Seq<Seq<char>>,
) -> Seq<Seq<char>> {
    let downloads = if touches_downloads(scope) && r.torrent_hash is None {
        paths_under(r.paths, root_list(download_dir))
    } else {
        Seq::empty()
    };
    let media = if touches_media(scope) {
        paths_under(r.paths, media_dirs)
    } else {
        Seq::empty()
    };
    downloads + media
}

/// The torrent whose removal the scope requests for `r`, if any.
pub open spec fn request(r: Record, scope: DeleteScope) -> Seq<Seq<char>> {
    if touches_downloads(scope) && r.torrent_hash is Some {
        seq![r.torrent_hash->0]
    } else {
        Seq::empty()
    }
}

/// The paths to remove from disk: the targets of each selected record, in the
/// order of the records.
pub open spec fn planned_paths(
    rs: Seq<Record>,
    selection: GroupView,
    scope: DeleteScope,
    download_dir: Option<Seq<char>>,
    media_dirs: Seq<Seq<char>>,
) -> Seq<Seq<char>>
    decreases rs.len(),
{
    if rs.len() == 0 {
        Seq::empty()
    } else {
        planned_paths(rs.drop_last(), selection, scope, download_dir, media_dirs) + if selected(
            rs.last(),
            selection,
        ) {
            targets(rs.last(), scope, download_dir, media_dirs)
        } else {
            Seq::empty()
        }
    }
}

/// The torrents to hand to the torrent service: the request of each selected
/// record, in the order of the records.
pub open spec fn planned_hashes(rs: Seq<Record>, selection: GroupView, scope: DeleteScope) -> Seq<
    Seq<char>,
>
    decreases rs.len(),
{
    if rs.len() == 0 {
        Seq::empty()
    } else {
        planned_hashes(rs.drop_last(), selection, scope) + if selected(rs.last(), selection) {
            request(rs.last(), scope)
        } else {
            Seq::empty()
        }
    }
}

/// What a deletion is to remove.
#[derive(Debug)]
pub struct DeletionPlan {
    /// The paths to remove from disk.
    pub paths: Vec<String>,
    /// The torrents to hand to the torrent service.
    pub hashes: Vec<String>,
}

/// Whether `path` lies under one of `roots`.
pub fn is_under_any(path: &str, roots: &[String]) -> (b: bool)
    ensures
        b == under_any(path@, roots.deep_view()),
{
    let ghost rv = roots.deep_view();
    let mut r: usize = 0;
    while r < roots.len()
        invariant
            0 <= r <= roots.len(),
            rv == roots.deep_view(),
            forall|q: int| 0 <= q < r ==> !under(path@, #[trigger] rv[q]),
        decreases roots.len() - r,
    {
        assert(roots[r as int]@ == rv[r as int]);
        if is_under(path, roots[r].as_str()) {
            return true;
        }
        r += 1;
    }
    false
}

/// Whether the selection holds a copy of the record with the key `key`.
fn holds_key(selection: &Group, key: FileKey) -> (b: bool)
    ensures
        b == exists|m: int|
            0 <= m < selection@.nodes.len() && (#[trigger] selection@.nodes[m]).key == key,
{
    let mut m: usize = 0;
    while m < selection.nodes.len()
        invariant
            0 <= m <= selection.nodes.len(),
            forall|q: int| 0 <= q < m ==> (#[trigger] selection@.nodes[q]).key != key,
        decreases selection.nodes.len() - m,
    {
        assert(selection@.nodes[m as int] == selection.nodes[m as int]@);
        if selection.nodes[m].key.dev == key.dev && selection.nodes[m].key.inode == key.inode {
            return true;
        }
        m += 1;
    }
    false
}

/// Appends to `out` the paths of `paths` that lie under one of `roots`.
fn push_paths_under(out: &mut Vec<String>, paths: &Vec<String>, roots: &[String])
    ensures
        final(out).deep_view() == old(out).deep_view() + paths_under(
            paths.deep_view(),
            roots.deep_view(),
        ),
{
    let ghost before = out.deep_view();
    let ghost pv = paths.deep_view();
    let ghost rv = roots.deep_view();
    let ghost pred = |p: Seq<char>| under_any(p, rv);
    let mut j: usize = 0;
    proof {
        reveal(Seq::filter);
        assert(pv.take(0).filter(pred) =~= Seq::<Seq<char>>::empty());
        assert(out.deep_view() =~= before + pv.take(0).filter(pred));
    }
    while j < paths.len()
        invariant
            0 <= j <= paths.len(),
            pv == paths.deep_view(),
            rv == roots.deep_view(),
            pred == (|p: Seq<char>| under_any(p, rv)),
            out.deep_view() == before + pv.take(j as int).filter(pred),
        decreases paths.len() - j,
    {
        let ghost so_far = out.deep_view();
        proof {
            assert(pv.take(j + 1) =~= pv.take(j as int).push(pv[j as int]));
            pv.take(j as int).lemma_filter_push(pv[j as int], pred);
            assert(paths[j as int]@ == pv[j as int]);
        }
        if is_under_any(paths[j].as_str(), roots) {
            out.push(paths[j].clone());
            assert(out.deep_view() =~= so_far.push(pv[j as int]));
            assert(out.deep_view() =~= before + pv.take(j + 1).filter(pred));
        }
        j += 1;
    }
    assert(pv.take(paths.len() as int) =~= pv);
}

/// The downloads root as a list of roots.
fn root_vec(download_dir: &Option<String>) -> (roots: Vec<String>)
    ensures
        roots.deep_view() == root_list(download_dir.deep_view()),
{
    let mut roots: Vec<String> = Vec::new();
    match download_dir {
        Some(dir) => {
            roots.push(dir.clone());
            assert(roots.deep_view() =~= seq![dir@]);
        },
        None => {
            assert(roots.deep_view() =~= Seq::<Seq<char>>::empty());
        },
    }
    roots
}

/// Works out what a deletion of `selection` in `scope` removes: the paths to
/// remove from disk and the torrents to hand to the torrent service. The members
/// of the selection are the records of `nodes` of which it holds a copy.
pub fn plan_delete(
    nodes: &[FileNode],
    selection: &Group,
    scope: DeleteScope,
    download_dir: &Option<String>,
    media_dirs: &[String],
) -> (plan: DeletionPlan)
    ensures
        plan.paths.deep_view() == planned_paths(
            records(nodes@),
            selection@,
            scope,
            download_dir.deep_view(),
            media_dirs.deep_view(),
        ),
        plan.hashes.deep_view() == planned_hashes(records(nodes@), selection@, scope),
{
    let ghost rs = records(nodes@);
    let ghost dl = download_dir.deep_view();
    let ghost md = media_dirs.deep_view();
    let download_roots = root_vec(download_dir);
    let on_downloads = match scope {
        DeleteScope::Downloads => true,
        DeleteScope::Media => false,
        DeleteScope::All => true,
    };
    let on_media = match scope {
        DeleteScope::Downloads => false,
        DeleteScope::Media => true,
        DeleteScope::All => true,
    };
    let mut paths: Vec<String> = Vec::new();
    let mut hashes: Vec<String> = Vec::new();
    let mut i: usize = 0;
    assert(rs.take(0) =~= Seq::<Record>::empty());
    assert(paths.deep_view() =~= Seq::<Seq<char>>::empty());
    assert(hashes.deep_view() =~= Seq::<Seq<char>>::empty());
    while i < nodes.len()
        invariant
            0 <= i <= nodes.len(),
            rs == records(nodes@),
            dl == download_dir.deep_view(),
            md == media_dirs.deep_view(),
            download_roots.deep_view() == root_list(dl),
            on_downloads == touches_downloads(scope),
            on_media == touches_media(scope),
            paths.deep_view() == planned_paths(rs.take(i as int), selection@, scope, dl, md),
            hashes.deep_view() == planned_hashes(rs.take(i as int), selection@, scope),
        decreases nodes.len() - i,
    {
        let node = &nodes[i];
        let ghost r = rs[i as int];
        let ghost paths_before = paths.deep_view();
        let ghost hashes_before = hashes.deep_view();
        proof {
            assert(node@ == r);
            assert(rs.take(i + 1).drop_last() =~= rs.take(i as int));
            assert(rs.take(i + 1).last() == r);
        }
        if holds_key(selection, node.key) {
            assert(selected(r, selection@));
            if on_downloads {
                match &node.torrent_hash {
                    Some(hash) => {
                        hashes.push(hash.clone());
                        assert(hashes.deep_view() =~= hashes_before + request(r, scope));
                    },
                    None => {
                        push_paths_under(&mut paths, &node.paths, download_roots.as_slice());
                    },
                }
            }
            let ghost paths_between = paths.deep_view();
            if on_media {
                push_paths_under(&mut paths, &node.paths, media_dirs);
            }
            proof {
                assert(hashes.deep_view() =~= hashes_before + request(r, scope));
                assert(paths.deep_view() =~= paths_before + targets(r, scope, dl, md));
            }
        } else {
            assert(!selected(r, selection@));
            assert(paths.deep_view() =~= paths_before + Seq::<Seq<char>>::empty());
            assert(hashes.deep_view() =~= hashes_before + Seq::<Seq<char>>::empty());
        }
        i += 1;
    }
    assert(rs.take(nodes.len() as int) =~= rs);
    DeletionPlan { paths, hashes }
}

/// The paths of `paths` that are not among `removed`, in order.
pub open spec fn kept_paths(paths: Seq<Seq<char>>, removed: Seq<Seq<char>>) -> Seq<Seq<char>> {
    paths.filter(|p: Seq<char>| !removed.contains(p))
}

/// Some path of `paths` lies under one of `roots`.
pub open spec fn seen_under(paths: Seq<Seq<char>>, roots: Seq<Seq<char>>) -> bool {
    exists|j: int| 0 <= j < paths.len() && under_any(#[trigger] paths[j], roots)
}

/// The root flags of `r` are what its path set gives.
pub open spec fn flags_derived(r: Record, download_dir: Option<Seq<char>>, media_dirs: Seq<Seq<char>>) -> bool {
    &&& r.has_downloads == seen_under(r.paths, root_list(download_dir))
    &&& r.has_media == seen_under(r.paths, media_dirs)
}

/// The record `r` without the removed paths, its root flags derived anew from
/// the paths that are left.
pub open spec fn stripped(
    r: Record,
    removed: Seq<Seq<char>>,
    download_dir: Option<Seq<char>>,
    media_dirs: Seq<Seq<char>>,
) -> Record {
    let paths = kept_paths(r.paths, removed);
    Record {
        paths,
        has_downloads: seen_under(paths, root_list(download_dir)),
        has_media: seen_under(paths, media_dirs),
        ..r
    }
}

/// The records after the removal of `removed`: every record stripped, and those
/// left without a path dropped.
pub open spec fn after_removal(
    rs: Seq<Record>,
    removed: Seq<Seq<char>>,
    download_dir: Option<Seq<char>>,
    media_dirs: Seq<Seq<char>>,
) -> Seq<Record> {
    rs.map_values(|r: Record| stripped(r, removed, download_dir, media_dirs)).filter(
        |r: Record| r.paths.len() > 0,
    )
}

/// The strings of `paths` that are not among `removed`.
fn keep_paths(paths: &Vec<String>, removed: &Vec<String>) -> (kept: Vec<String>)
    ensures
        kept.deep_view() == kept_paths(paths.deep_view(), removed.deep_view()),
{
    let ghost pv = paths.deep_view();
    let ghost rv = removed.deep_view();
    let ghost pred = |p: Seq<char>| !rv.contains(p);
    let mut kept: Vec<String> = Vec::new();
    let mut j: usize = 0;
    proof {
        reveal(Seq::filter);
        assert(pv.take(0).filter(pred) =~= Seq::<Seq<char>>::empty());
        assert(kept.deep_view() =~= pv.take(0).filter(pred));
    }
    while j < paths.len()
        invariant
            0 <= j <= paths.len(),
            pv == paths.deep_view(),
            rv == removed.deep_view(),
            pred == (|p: Seq<char>| !rv.contains(p)),
            kept.deep_view() == pv.take(j as int).filter(pred),
        decreases paths.len() - j,
    {
        let ghost so_far = kept.deep_view();
        proof {
            assert(pv.take(j + 1) =~= pv.take(j as int).push(pv[j as int]));
            pv.take(j as int).lemma_filter_push(pv[j as int], pred);
            assert(paths[j as int]@ == pv[j as int]);
        }
        if !holds_text(removed, paths[j].as_str()) {
            kept.push(paths[j].clone());
            assert(kept.deep_view() =~= so_far.push(pv[j as int]));
        }
        j += 1;
    }
    assert(pv.take(paths.len() as int) =~= pv);
    kept
}

/// Whether some path of `paths` lies under one of `roots`.
fn any_under(paths: &Vec<String>, roots: &[String]) -> (b: bool)
    ensures
        b == seen_under(paths.deep_view(), roots.deep_view()),
{
    let ghost pv = paths.deep_view();
    let mut j: usize = 0;
    while j < paths.len()
        invariant
            0 <= j <= paths.len(),
            pv == paths.deep_view(),
            forall|q: int| 0 <= q < j ==> !under_any(#[trigger] pv[q], roots.deep_view()),
        decreases paths.len() - j,
    {
        assert(paths[j as int]@ == pv[j as int]);
        if is_under_any(paths[j].as_str(), roots) {
            return true;
        }
        j += 1;
    }
    false
}

/// Takes the paths `removed` out of the records: each record loses those of its
/// paths, its root flags are derived anew from the paths that are left, and a
/// record that is left without a path is dropped.
fn strip_records(
    nodes: &mut Vec<FileNode>,
    removed: &Vec<String>,
    download_dir: &Option<String>,
    media_dirs: &[String],
)
    ensures
        records(final(nodes)@) == after_removal(
            records(old(nodes)@),
            removed.deep_view(),
            download_dir.deep_view(),
            media_dirs.deep_view(),
        ),
{
    let ghost rs = records(nodes@);
    let ghost rv = removed.deep_view();
    let ghost dl = download_dir.deep_view();
    let ghost md = media_dirs.deep_view();
    let ghost strip = |r: Record| stripped(r, rv, dl, md);
    let ghost alive = |r: Record| r.paths.len() > 0;
    let download_roots = root_vec(download_dir);
    let mut kept: Vec<FileNode> = Vec::new();
    let mut i: usize = 0;
    proof {
        reveal(Seq::filter);
        assert(rs.take(0).map_values(strip).filter(alive) =~= Seq::<Record>::empty());
        assert(records(kept@) =~= Seq::<Record>::empty());
    }
    while i < nodes.len()
        invariant
            0 <= i <= nodes.len(),
            rs == records(nodes@),
            rv == removed.deep_view(),
            dl == download_dir.deep_view(),
            md == media_dirs.deep_view(),
            download_roots.deep_view() == root_list(dl),
            strip == (|r: Record| stripped(r, rv, dl, md)),
            alive == (|r: Record| r.paths.len() > 0),
            records(kept@) == rs.take(i as int).map_values(strip).filter(alive),
        decreases nodes.len() - i,
    {
        let node = &nodes[i];
        let ghost so_far = records(kept@);
        let paths = keep_paths(&node.paths, removed);
        let has_downloads = any_under(&paths, download_roots.as_slice());
        let has_media = any_under(&paths, media_dirs);
        proof {
            assert(node@ == rs[i as int]);
            assert(rs.take(i + 1).map_values(strip) =~= rs.take(i as int).map_values(strip).push(
                strip(rs[i as int]),
            ));
            rs.take(i as int).map_values(strip).lemma_filter_push(strip(rs[i as int]), alive);
        }
        if paths.len() > 0 {
            let updated = FileNode {
                key: node.key,
                size: node.size,
                nlink: node.nlink,
                paths,
                has_downloads,
                has_media,
                torrent_hash: clone_opt_text(&node.torrent_hash),
                is_seeding: node.is_seeding,
                modified: node.modified,
            };
            assert(updated@ == strip(rs[i as int]));
            kept.push(updated);
            assert(records(kept@) =~= so_far.push(strip(rs[i as int])));
        }
        i += 1;
    }
    assert(rs.take(nodes.len() as int) =~= rs);
    *nodes = kept;
}

/// The paths of `paths` that are among `removed`, in order.
pub open spec fn gone_paths(paths: Seq<Seq<char>>, removed: Seq<Seq<char>>) -> Seq<Seq<char>> {
    paths.filter(|p: Seq<char>| removed.contains(p))
}

/// The strings of `paths` that are among `removed`.
fn gone_of(paths: &Vec<String>, removed: &Vec<String>) -> (gone: Vec<String>)
    ensures
        gone.deep_view() == gone_paths(paths.deep_view(), removed.deep_view()),
{
    let ghost pv = paths.deep_view();
    let ghost rv = removed.deep_view();
    let ghost is_gone = |p: Seq<char>| rv.contains(p);
    let mut gone: Vec<String> = Vec::new();
    let mut j: usize = 0;
    proof {
        reveal(Seq::filter);
        assert(pv.take(0).filter(is_gone) =~= Seq::<Seq<char>>::empty());
        assert(gone.deep_view() =~= pv.take(0).filter(is_gone));
    }
    while j < paths.len()
        invariant
            0 <= j <= paths.len(),
            pv == paths.deep_view(),
            rv == removed.deep_view(),
            is_gone == (|p: Seq<char>| rv.contains(p)),
            gone.deep_view() == pv.take(j as int).filter(is_gone),
        decreases paths.len() - j,
    {
        let ghost so_far = gone.deep_view();
        proof {
            assert(pv.take(j + 1) =~= pv.take(j as int).push(pv[j as int]));
            pv.take(j as int).lemma_filter_push(pv[j as int], is_gone);
            assert(paths[j as int]@ == pv[j as int]);
        }
        if holds_text(removed, paths[j].as_str()) {
            gone.push(paths[j].clone());
            assert(gone.deep_view() =~= so_far.push(pv[j as int]));
        }
        j += 1;
    }
    assert(pv.take(paths.len() as int) =~= pv);
    gone
}

/// Takes out of the records the planned paths that are gone from disk: the paths
/// of the plan that are among `removed`. Each record loses those of its paths,
/// its root flags are derived anew from the paths that are left, and a record
/// that is left without a path is dropped. A path that was not planned stays,
/// whatever `removed` says of it.
pub fn apply_removal(
    nodes: &mut Vec<FileNode>,
    plan: &DeletionPlan,
    removed: &Vec<String>,
    download_dir: &Option<String>,
    media_dirs: &[String],
)
    ensures
        records(final(nodes)@) == after_removal(
            records(old(nodes)@),
            gone_paths(plan.paths.deep_view(), removed.deep_view()),
            download_dir.deep_view(),
            media_dirs.deep_view(),
        ),
{
    let gone = gone_of(&plan.paths, removed);
    strip_records(nodes, &gone, download_dir, media_dirs);
}

/// Some record is seen under the downloads root.
pub open spec fn any_in_downloads(rs: Seq<Record>) -> bool {
    exists|i: int| 0 <= i < rs.len() && (#[trigger] rs[i]).has_downloads
}

/// Some record is seen under a media root.
pub open spec fn any_in_media(rs: Seq<Record>) -> bool {
    exists|i: int| 0 <= i < rs.len() && (#[trigger] rs[i]).has_media
}

/// The scopes in which the records of a group can be deleted: the downloads side
/// where a record is seen there, the media side where a record is seen there, and
/// both sides where both holds.
pub open spec fn feasible_scopes(rs: Seq<Record>) -> Seq<DeleteScope> {
    let downloads: Seq<DeleteScope> = if any_in_downloads(rs) {
        seq![DeleteScope::Downloads]
    } else {
        Seq::empty()
    };
    let media: Seq<DeleteScope> = if any_in_media(rs) {
        seq![DeleteScope::Media]
    } else {
        Seq::empty()
    };
    let both: Seq<DeleteScope> = if any_in_downloads(rs) && any_in_media(rs) {
        seq![DeleteScope::All]
    } else {
        Seq::empty()
    };
    downloads + media + both
}

/// The scopes in which `group` can be deleted.
pub fn available_scopes(group: &Group) -> (scopes: Vec<DeleteScope>)
    ensures
        scopes@ == feasible_scopes(group@.nodes),
{
    let ghost rs = group@.nodes;
    let mut has_downloads = false;
    let mut has_media = false;
    let mut i: usize = 0;
    while i < group.nodes.len()
        invariant
            0 <= i <= group.nodes.len(),
            rs == group@.nodes,
            has_downloads == any_in_downloads(rs.take(i as int)),
            has_media == any_in_media(rs.take(i as int)),
        decreases group.nodes.len() - i,
    {
        proof {
            let grown = rs.take(i + 1);
            assert(grown[i as int] == group.nodes[i as int]@);
            assert(forall|k: int| 0 <= k < i ==> rs.take(i as int)[k] == grown[k]);
            if any_in_downloads(rs.take(i as int)) {
                let k = choose|k: int| 0 <= k < i && (#[trigger] rs.take(i as int)[k]).has_downloads;
                assert(grown[k].has_downloads);
            }
            if any_in_media(rs.take(i as int)) {
                let k = choose|k: int| 0 <= k < i && (#[trigger] rs.take(i as int)[k]).has_media;
                assert(grown[k].has_media);
            }
            if any_in_downloads(grown) && !group.nodes[i as int].has_downloads {
                let k = choose|k: int| 0 <= k < i + 1 && (#[trigger] grown[k]).has_downloads;
                assert(rs.take(i as int)[k].has_downloads);
            }
            if any_in_media(grown) && !group.nodes[i as int].has_media {
                let k = choose|k: int| 0 <= k < i + 1 && (#[trigger] grown[k]).has_media;
                assert(rs.take(i as int)[k].has_media);
            }
        }
        if group.nodes[i].has_downloads {
            has_downloads = true;
        }
        if group.nodes[i].has_media {
            has_media = true;
        }
        i += 1;
    }
    assert(rs.take(group.nodes.len() as int) =~= rs);
    let mut scopes: Vec<DeleteScope> = Vec::new();
    if has_downloads {
        scopes.push(DeleteScope::Downloads);
    }
    if has_media {
        scopes.push(DeleteScope::Media);
    }
    if has_downloads && has_media {
        scopes.push(DeleteScope::All);
    }
    assert(scopes@ =~= feasible_scopes(rs));
    scopes
}

/// The queue of torrents to remove after `hashes` joined it, each unless it was
/// queued already.
pub open spec fn queued(pending: Seq<Seq<char>>, hashes: Seq<Seq<char>>) -> Seq<Seq<char>>
    decreases hashes.len(),
{
    if hashes.len() == 0 {
        pending
    } else {
        let before = queued(pending, hashes.drop_last());
        if before.contains(hashes.last()) {
            before
        } else {
            before.push(hashes.last())
        }
    }
}

/// Queues the torrents for removal, each unless it is queued already.
pub fn queue_hashes(pending: &mut Vec<String>, hashes: &Vec<String>)
    ensures
        final(pending).deep_view() == queued(old(pending).deep_view(), hashes.deep_view()),
{
    let ghost start = pending.deep_view();
    let ghost hv = hashes.deep_view();
    let mut i: usize = 0;
    assert(hv.take(0) =~= Seq::<Seq<char>>::empty());
    while i < hashes.len()
        invariant
            0 <= i <= hashes.len(),
            hv == hashes.deep_view(),
            pending.deep_view() == queued(start, hv.take(i as int)),
        decreases hashes.len() - i,
    {
        let ghost so_far = pending.deep_view();
        proof {
            assert(hv.take(i + 1).drop_last() =~= hv.take(i as int));
            assert(hv.take(i + 1).last() == hashes[i as int]@);
        }
        if !holds_text(pending, hashes[i].as_str()) {
            pending.push(hashes[i].clone());
            assert(pending.deep_view() =~= so_far.push(hashes[i as int]@));
        }
        i += 1;
    }
    assert(hv.take(hashes.len() as int) =~= hv);
}

/// How a deletion ended.
#[derive(Debug)]
pub struct DeletionOutcome {
    /// The planned paths that are gone from disk.
    pub removed: Vec<String>,
    /// The planned paths that could not be removed; they stay in their records.
    pub failed: Vec<String>,
    /// The torrents whose removal is asked of the torrent service.
    pub requested: Vec<String>,
}

/// The account of a deletion: which of the planned paths are gone and which are
/// not, and which torrents the plan hands to the torrent service.
pub fn account(plan: &DeletionPlan, removed: &Vec<String>) -> (outcome: DeletionOutcome)
    ensures
        outcome.removed.deep_view() == gone_paths(plan.paths.deep_view(), removed.deep_view()),
        outcome.failed.deep_view() == kept_paths(plan.paths.deep_view(), removed.deep_view()),
        outcome.requested.deep_view() == plan.hashes.deep_view(),
{
    DeletionOutcome {
        removed: gone_of(&plan.paths, removed),
        failed: keep_paths(&plan.paths, removed),
        requested: clone_texts(&plan.hashes),
    }
}

} // verus!
