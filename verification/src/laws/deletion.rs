//! Laws of deletion: what a removal leaves behind, and that a deletion can be
//! repeated without harm.

use vstd::prelude::*;
use crate::app::DeleteScope;
use crate::deletion::{
    after_removal, flags_derived, gone_paths, kept_paths, paths_under, planned_hashes, planned_paths, request,
    root_list, selected, stripped, targets, touches_downloads, touches_media, under_any,
};
use crate::grouping::GroupView;
use crate::scanner::{distinct_keys, well_formed, Record};

verus! {

/// A filter that every element passes keeps the sequence as it is.
proof fn lemma_filter_keeps_all<A>(s: Seq<A>, pred: spec_fn(A) -> bool)
    requires
        forall|i: int| 0 <= i < s.len() ==> pred(#[trigger] s[i]),
    ensures
        s.filter(pred) == s,
    decreases s.len(),
{
    reveal(Seq::filter);
    if s.len() > 0 {
        lemma_filter_keeps_all(s.drop_last(), pred);
        assert(s.drop_last().push(s.last()) =~= s);
    }
}

/// What passes a filter is an element of the sequence and meets the predicate.
proof fn lemma_filtered_element<A>(s: Seq<A>, pred: spec_fn(A) -> bool, i: int)
    requires
        0 <= i < s.filter(pred).len(),
    ensures
        pred(s.filter(pred)[i]),
        s.contains(s.filter(pred)[i]),
{
    s.lemma_filter_pred(pred, i);
    assert(s.filter(pred).contains(s.filter(pred)[i]));
    s.lemma_filter_contains_rev(pred, s.filter(pred)[i]);
}

/// Every record that survives a removal is the stripped form of a record that was
/// there before, and has a path left.
proof fn lemma_survivor(
    rs: Seq<Record>,
    removed: Seq<Seq<char>>,
    download_dir: Option<Seq<char>>,
    media_dirs: Seq<Seq<char>>,
    i: int,
) -> (k: int)
    requires
        0 <= i < after_removal(rs, removed, download_dir, media_dirs).len(),
    ensures
        0 <= k < rs.len(),
        after_removal(rs, removed, download_dir, media_dirs)[i] == stripped(
            rs[k],
            removed,
            download_dir,
            media_dirs,
        ),
        after_removal(rs, removed, download_dir, media_dirs)[i].paths.len() > 0,
{
    let strip = |r: Record| stripped(r, removed, download_dir, media_dirs);
    let alive = |r: Record| r.paths.len() > 0;
    let all = rs.map_values(strip);
    lemma_filtered_element(all, alive, i);
    let survivor = all.filter(alive)[i];
    let k = choose|k: int| 0 <= k < all.len() && all[k] == survivor;
    k
}

/// After a removal no record holds a removed path, no record is without a path,
/// and the root flags of every record are what its path set gives. Every record
/// is the stripped form of a record that was there before, and every record that
/// kept a path is still there.
pub proof fn removal_leaves_clean_records(
    rs: Seq<Record>,
    removed: Seq<Seq<char>>,
    download_dir: Option<Seq<char>>,
    media_dirs: Seq<Seq<char>>,
)
    ensures
        ({
            let after = after_removal(rs, removed, download_dir, media_dirs);
            &&& forall|i: int, j: int|
                0 <= i < after.len() && 0 <= j < after[i].paths.len() ==> !removed.contains(
                    #[trigger] after[i].paths[j],
                )
            &&& forall|i: int| 0 <= i < after.len() ==> (#[trigger] after[i]).paths.len() > 0
            &&& forall|i: int|
                0 <= i < after.len() ==> flags_derived(#[trigger] after[i], download_dir, media_dirs)
            &&& forall|i: int|
                0 <= i < after.len() ==> exists|k: int|
                    0 <= k < rs.len() && #[trigger] after[i] == stripped(
                        rs[k],
                        removed,
                        download_dir,
                        media_dirs,
                    )
            &&& forall|k: int|
                0 <= k < rs.len() && kept_paths(#[trigger] rs[k].paths, removed).len() > 0
                    ==> after.contains(stripped(rs[k], removed, download_dir, media_dirs))
        }),
{
    let after = after_removal(rs, removed, download_dir, media_dirs);
    let strip = |r: Record| stripped(r, removed, download_dir, media_dirs);
    let alive = |r: Record| r.paths.len() > 0;
    assert forall|i: int| 0 <= i < after.len() implies {
        &&& (#[trigger] after[i]).paths.len() > 0
        &&& flags_derived(after[i], download_dir, media_dirs)
        &&& exists|k: int|
            0 <= k < rs.len() && after[i] == stripped(rs[k], removed, download_dir, media_dirs)
        &&& forall|j: int| 0 <= j < after[i].paths.len() ==> !removed.contains(after[i].paths[j])
    } by {
        let k = lemma_survivor(rs, removed, download_dir, media_dirs, i);
        assert forall|j: int| 0 <= j < after[i].paths.len() implies !removed.contains(
            after[i].paths[j],
        ) by {
            lemma_filtered_element(rs[k].paths, |p: Seq<char>| !removed.contains(p), j);
        }
    }
    assert forall|k: int|
        0 <= k < rs.len() && kept_paths(#[trigger] rs[k].paths, removed).len() > 0 implies after.contains(
        stripped(rs[k], removed, download_dir, media_dirs),
    ) by {
        let all = rs.map_values(strip);
        assert(all[k] == stripped(rs[k], removed, download_dir, media_dirs));
        all.lemma_filter_contains(alive, k);
    }
}

/// A target of a selected record is among the planned paths.
proof fn lemma_target_is_planned(
    rs: Seq<Record>,
    selection: GroupView,
    scope: DeleteScope,
    download_dir: Option<Seq<char>>,
    media_dirs: Seq<Seq<char>>,
    k: int,
    p: Seq<char>,
)
    requires
        0 <= k < rs.len(),
        selected(rs[k], selection),
        targets(rs[k], scope, download_dir, media_dirs).contains(p),
    ensures
        planned_paths(rs, selection, scope, download_dir, media_dirs).contains(p),
    decreases rs.len(),
{
    let head = planned_paths(rs.drop_last(), selection, scope, download_dir, media_dirs);
    let tail = if selected(rs.last(), selection) {
        targets(rs.last(), scope, download_dir, media_dirs)
    } else {
        Seq::empty()
    };
    if k == rs.len() - 1 {
        let j = choose|j: int| 0 <= j < tail.len() && tail[j] == p;
        assert((head + tail)[head.len() + j] == p);
    } else {
        lemma_target_is_planned(rs.drop_last(), selection, scope, download_dir, media_dirs, k, p);
        let j = choose|j: int| 0 <= j < head.len() && head[j] == p;
        assert((head + tail)[j] == p);
    }
}

/// Where no selected record has a target, nothing is planned.
proof fn lemma_nothing_planned(
    rs: Seq<Record>,
    selection: GroupView,
    scope: DeleteScope,
    download_dir: Option<Seq<char>>,
    media_dirs: Seq<Seq<char>>,
)
    requires
        forall|k: int|
            0 <= k < rs.len() && selected(#[trigger] rs[k], selection) ==> targets(
                rs[k],
                scope,
                download_dir,
                media_dirs,
            ).len() == 0,
    ensures
        planned_paths(rs, selection, scope, download_dir, media_dirs).len() == 0,
    decreases rs.len(),
{
    if rs.len() > 0 {
        assert(forall|k: int| 0 <= k < rs.len() - 1 ==> rs.drop_last()[k] == rs[k]);
        lemma_nothing_planned(rs.drop_last(), selection, scope, download_dir, media_dirs);
        assert(rs.last() == rs[rs.len() - 1]);
    }
}

/// A path of the stripped record that lies under `roots` is such a path of the
/// record itself, and was not removed.
proof fn lemma_kept_path_under(
    r: Record,
    removed: Seq<Seq<char>>,
    roots: Seq<Seq<char>>,
    p: Seq<char>,
)
    requires
        paths_under(kept_paths(r.paths, removed), roots).contains(p),
    ensures
        paths_under(r.paths, roots).contains(p),
        !removed.contains(p),
{
    let kept = kept_paths(r.paths, removed);
    let here = |q: Seq<char>| under_any(q, roots);
    let stays = |q: Seq<char>| !removed.contains(q);
    let j = choose|j: int| 0 <= j < kept.filter(here).len() && kept.filter(here)[j] == p;
    lemma_filtered_element(kept, here, j);
    let m = choose|m: int| 0 <= m < kept.len() && kept[m] == p;
    lemma_filtered_element(r.paths, stays, m);
    let n = choose|n: int| 0 <= n < r.paths.len() && r.paths[n] == p;
    r.paths.lemma_filter_contains(here, n);
}

/// Once every planned path of a deletion is out of the records, the same
/// deletion plans no path, leaves the records as they are, and requests no
/// torrent that the first did not request.
proof fn lemma_second_deletion(
    rs: Seq<Record>,
    selection: GroupView,
    scope: DeleteScope,
    download_dir: Option<Seq<char>>,
    media_dirs: Seq<Seq<char>>,
    removed: Seq<Seq<char>>,
)
    requires
        forall|p: Seq<char>|
            planned_paths(rs, selection, scope, download_dir, media_dirs).contains(p)
                ==> removed.contains(p),
    ensures
        ({
            let once = after_removal(rs, removed, download_dir, media_dirs);
            let again = planned_paths(once, selection, scope, download_dir, media_dirs);
            &&& again.len() == 0
            &&& after_removal(once, again, download_dir, media_dirs) == once
            &&& forall|h: Seq<char>|
                planned_hashes(once, selection, scope).contains(h) ==> planned_hashes(
                    rs,
                    selection,
                    scope,
                ).contains(h)
        }),
{
    let once = after_removal(rs, removed, download_dir, media_dirs);
    let planned = planned_paths(rs, selection, scope, download_dir, media_dirs);
    assert forall|i: int| 0 <= i < once.len() && selected(#[trigger] once[i], selection) implies targets(
        once[i],
        scope,
        download_dir,
        media_dirs,
    ).len() == 0 by {
        let k = lemma_survivor(rs, removed, download_dir, media_dirs, i);
        let r = rs[k];
        let mine = targets(once[i], scope, download_dir, media_dirs);
        if mine.len() > 0 {
            let p = mine[0];
            let on_downloads = if touches_downloads(scope) && r.torrent_hash is None {
                paths_under(once[i].paths, root_list(download_dir))
            } else {
                Seq::empty()
            };
            let on_media = if touches_media(scope) {
                paths_under(once[i].paths, media_dirs)
            } else {
                Seq::empty()
            };
            let theirs_downloads = if touches_downloads(scope) && r.torrent_hash is None {
                paths_under(r.paths, root_list(download_dir))
            } else {
                Seq::empty()
            };
            let theirs_media = if touches_media(scope) {
                paths_under(r.paths, media_dirs)
            } else {
                Seq::empty()
            };
            assert(mine == on_downloads + on_media);
            if on_downloads.len() > 0 {
                assert(on_downloads.contains(on_downloads[0]));
                lemma_kept_path_under(r, removed, root_list(download_dir), p);
                let j = choose|j: int| 0 <= j < theirs_downloads.len() && theirs_downloads[j] == p;
                assert((theirs_downloads + theirs_media)[j] == p);
            } else {
                assert(on_media.contains(on_media[0]));
                lemma_kept_path_under(r, removed, media_dirs, p);
                let j = choose|j: int| 0 <= j < theirs_media.len() && theirs_media[j] == p;
                assert((theirs_downloads + theirs_media)[theirs_downloads.len() + j] == p);
            }
            assert(targets(r, scope, download_dir, media_dirs).contains(p));
            assert(selected(r, selection));
            lemma_target_is_planned(rs, selection, scope, download_dir, media_dirs, k, p);
            assert(false);
        }
    }
    lemma_nothing_planned(once, selection, scope, download_dir, media_dirs);
    let again = planned_paths(once, selection, scope, download_dir, media_dirs);
    assert(again =~= Seq::<Seq<char>>::empty());
    let strip = |r: Record| stripped(r, again, download_dir, media_dirs);
    let alive = |r: Record| r.paths.len() > 0;
    assert forall|i: int| 0 <= i < once.len() implies strip(#[trigger] once[i]) == once[i] && alive(
        once[i],
    ) by {
        let k = lemma_survivor(rs, removed, download_dir, media_dirs, i);
        lemma_filter_keeps_all(once[i].paths, |p: Seq<char>| !again.contains(p));
    }
    assert(once.map_values(strip) =~= once);
    lemma_filter_keeps_all(once, alive);
    assert forall|h: Seq<char>| planned_hashes(once, selection, scope).contains(h) implies planned_hashes(
        rs,
        selection,
        scope,
    ).contains(h) by {
        let k = lemma_hash_source(once, selection, scope, h);
        let m = lemma_survivor(rs, removed, download_dir, media_dirs, k);
        lemma_request_is_planned(rs, selection, scope, m, h);
    }
}

/// A planned torrent is the request of some selected record.
proof fn lemma_hash_source(rs: Seq<Record>, selection: GroupView, scope: DeleteScope, h: Seq<char>) -> (k:
    int)
    requires
        planned_hashes(rs, selection, scope).contains(h),
    ensures
        0 <= k < rs.len(),
        selected(rs[k], selection),
        request(rs[k], scope).contains(h),
    decreases rs.len(),
{
    let all = planned_hashes(rs, selection, scope);
    let j = choose|j: int| 0 <= j < all.len() && all[j] == h;
    if rs.len() == 0 {
        0
    } else {
        let head = planned_hashes(rs.drop_last(), selection, scope);
        if j < head.len() {
            assert(head[j] == h);
            lemma_hash_source(rs.drop_last(), selection, scope, h)
        } else {
            let tail = request(rs.last(), scope);
            assert(tail[j - head.len()] == h);
            rs.len() - 1
        }
    }
}

/// The request of a selected record is among the planned torrents.
proof fn lemma_request_is_planned(
    rs: Seq<Record>,
    selection: GroupView,
    scope: DeleteScope,
    k: int,
    h: Seq<char>,
)
    requires
        0 <= k < rs.len(),
        selected(rs[k], selection),
        request(rs[k], scope).contains(h),
    ensures
        planned_hashes(rs, selection, scope).contains(h),
    decreases rs.len(),
{
    let head = planned_hashes(rs.drop_last(), selection, scope);
    let tail = if selected(rs.last(), selection) {
        request(rs.last(), scope)
    } else {
        Seq::empty()
    };
    if k == rs.len() - 1 {
        let j = choose|j: int| 0 <= j < tail.len() && tail[j] == h;
        assert((head + tail)[head.len() + j] == h);
    } else {
        lemma_request_is_planned(rs.drop_last(), selection, scope, k, h);
        let j = choose|j: int| 0 <= j < head.len() && head[j] == h;
        assert((head + tail)[j] == h);
    }
}

/// A removal leaves at most one record for each key, where there was at most one
/// before.
pub proof fn removal_keeps_keys_distinct(
    rs: Seq<Record>,
    removed: Seq<Seq<char>>,
    download_dir: Option<Seq<char>>,
    media_dirs: Seq<Seq<char>>,
)
    requires
        distinct_keys(rs),
    ensures
        distinct_keys(after_removal(rs, removed, download_dir, media_dirs)),
    decreases rs.len(),
{
    let strip = |r: Record| stripped(r, removed, download_dir, media_dirs);
    let alive = |r: Record| r.paths.len() > 0;
    let after = after_removal(rs, removed, download_dir, media_dirs);
    if rs.len() == 0 {
        assert(rs.map_values(strip) =~= Seq::<Record>::empty());
        reveal(Seq::filter);
    } else {
        let init = rs.drop_last();
        let last = rs.last();
        assert(forall|i: int| 0 <= i < init.len() ==> init[i] == rs[i]);
        removal_keeps_keys_distinct(init, removed, download_dir, media_dirs);
        let before = after_removal(init, removed, download_dir, media_dirs);
        assert(rs.map_values(strip) =~= init.map_values(strip).push(strip(last)));
        init.map_values(strip).lemma_filter_push(strip(last), alive);
        if alive(strip(last)) {
            assert(after == before.push(strip(last)));
            assert forall|a: int, b: int| 0 <= a < b < after.len() implies after[a].key
                != after[b].key by {
                if b == before.len() {
                    let k = lemma_survivor(init, removed, download_dir, media_dirs, a);
                    assert(init[k].key != last.key);
                }
            }
        }
    }
}

/// What is kept of a list without repetition has no repetition.
proof fn lemma_filter_keeps_distinct<A>(s: Seq<A>, pred: spec_fn(A) -> bool)
    requires
        s.no_duplicates(),
    ensures
        s.filter(pred).no_duplicates(),
    decreases s.len(),
{
    reveal(Seq::filter);
    if s.len() > 0 {
        let init = s.drop_last();
        lemma_filter_keeps_distinct(init, pred);
        if pred(s.last()) {
            let kept = init.filter(pred);
            assert forall|i: int, j: int|
                0 <= i < kept.len() + 1 && 0 <= j < kept.len() + 1 && i != j implies kept.push(
                s.last(),
            )[i] != kept.push(s.last())[j] by {
                let low = if i < j {
                    i
                } else {
                    j
                };
                let high = if i < j {
                    j
                } else {
                    i
                };
                if high == kept.len() {
                    if kept[low] == s.last() {
                        assert(kept.contains(kept[low]));
                        init.lemma_filter_contains_rev(pred, kept[low]);
                        let m = choose|m: int| 0 <= m < init.len() && init[m] == s.last();
                        assert(s[m] == s[s.len() - 1]);
                    }
                }
            }
        }
    }
}

/// A removal keeps the records well formed: there is still at most one record
/// for each key, and every record that is left has a path set that is not empty
/// and holds no path twice.
pub proof fn removal_keeps_records_well_formed(
    rs: Seq<Record>,
    removed: Seq<Seq<char>>,
    download_dir: Option<Seq<char>>,
    media_dirs: Seq<Seq<char>>,
)
    requires
        well_formed(rs),
    ensures
        well_formed(after_removal(rs, removed, download_dir, media_dirs)),
{
    let after = after_removal(rs, removed, download_dir, media_dirs);
    removal_keeps_keys_distinct(rs, removed, download_dir, media_dirs);
    assert forall|i: int| 0 <= i < after.len() implies (#[trigger] after[i]).paths.len() > 0
        && after[i].paths.no_duplicates() by {
        let k = lemma_survivor(rs, removed, download_dir, media_dirs, i);
        lemma_filter_keeps_distinct(rs[k].paths, |p: Seq<char>| !removed.contains(p));
    }
}

/// The planned paths that are gone are the planned paths that were reported as
/// removed.
proof fn lemma_gone_paths(planned: Seq<Seq<char>>, reported: Seq<Seq<char>>)
    ensures
        forall|p: Seq<char>|
            gone_paths(planned, reported).contains(p) <==> planned.contains(p) && reported.contains(
                p,
            ),
{
    let is_gone = |p: Seq<char>| reported.contains(p);
    let gone = planned.filter(is_gone);
    assert forall|p: Seq<char>| gone.contains(p) <==> planned.contains(p) && reported.contains(
        p,
    ) by {
        if gone.contains(p) {
            let i = choose|i: int| 0 <= i < gone.len() && gone[i] == p;
            lemma_filtered_element(planned, is_gone, i);
        }
        if planned.contains(p) && reported.contains(p) {
            let i = choose|i: int| 0 <= i < planned.len() && planned[i] == p;
            planned.lemma_filter_contains(is_gone, i);
        }
    }
}

/// A planned path is a path of a selected record.
proof fn lemma_path_source(
    rs: Seq<Record>,
    selection: GroupView,
    scope: DeleteScope,
    download_dir: Option<Seq<char>>,
    media_dirs: Seq<Seq<char>>,
    p: Seq<char>,
) -> (k: int)
    requires
        planned_paths(rs, selection, scope, download_dir, media_dirs).contains(p),
    ensures
        0 <= k < rs.len(),
        selected(rs[k], selection),
        rs[k].paths.contains(p),
    decreases rs.len(),
{
    let all = planned_paths(rs, selection, scope, download_dir, media_dirs);
    let j = choose|j: int| 0 <= j < all.len() && all[j] == p;
    if rs.len() == 0 {
        0
    } else {
        let head = planned_paths(rs.drop_last(), selection, scope, download_dir, media_dirs);
        if j < head.len() {
            assert(head[j] == p);
            lemma_path_source(rs.drop_last(), selection, scope, download_dir, media_dirs, p)
        } else {
            let r = rs.last();
            let mine = targets(r, scope, download_dir, media_dirs);
            assert(mine[j - head.len()] == p);
            let on_downloads = if touches_downloads(scope) && r.torrent_hash is None {
                paths_under(r.paths, root_list(download_dir))
            } else {
                Seq::empty()
            };
            let on_media = if touches_media(scope) {
                paths_under(r.paths, media_dirs)
            } else {
                Seq::empty()
            };
            assert(mine == on_downloads + on_media);
            let at = j - head.len();
            if at < on_downloads.len() {
                assert(on_downloads[at] == p);
                lemma_filtered_element(
                    r.paths,
                    |q: Seq<char>| under_any(q, root_list(download_dir)),
                    at,
                );
            } else {
                assert(on_media[at - on_downloads.len()] == p);
                lemma_filtered_element(
                    r.paths,
                    |q: Seq<char>| under_any(q, media_dirs),
                    at - on_downloads.len(),
                );
            }
            rs.len() - 1
        }
    }
}

/// Deletion is idempotent. Where every planned path of a deletion was reported
/// as removed, the same deletion on the records that are left plans no path and
/// requests no torrent that the first did not request; and whatever is then
/// reported as removed, the records stay as they are.
pub proof fn deletion_is_idempotent(
    rs: Seq<Record>,
    selection: GroupView,
    scope: DeleteScope,
    download_dir: Option<Seq<char>>,
    media_dirs: Seq<Seq<char>>,
    reported: Seq<Seq<char>>,
    reported_again: Seq<Seq<char>>,
)
    requires
        forall|p: Seq<char>|
            planned_paths(rs, selection, scope, download_dir, media_dirs).contains(p)
                ==> reported.contains(p),
    ensures
        ({
            let planned = planned_paths(rs, selection, scope, download_dir, media_dirs);
            let once = after_removal(rs, gone_paths(planned, reported), download_dir, media_dirs);
            let again = planned_paths(once, selection, scope, download_dir, media_dirs);
            &&& again.len() == 0
            &&& after_removal(once, gone_paths(again, reported_again), download_dir, media_dirs)
                == once
            &&& forall|h: Seq<char>|
                planned_hashes(once, selection, scope).contains(h) ==> planned_hashes(
                    rs,
                    selection,
                    scope,
                ).contains(h)
        }),
{
    let planned = planned_paths(rs, selection, scope, download_dir, media_dirs);
    let gone = gone_paths(planned, reported);
    lemma_gone_paths(planned, reported);
    lemma_second_deletion(rs, selection, scope, download_dir, media_dirs, gone);
    let once = after_removal(rs, gone, download_dir, media_dirs);
    let again = planned_paths(once, selection, scope, download_dir, media_dirs);
    assert(again =~= Seq::<Seq<char>>::empty());
    assert(gone_paths(again, reported_again) =~= again) by {
        reveal(Seq::filter);
    }
}

/// Only planned paths leave the records. A path that was not planned, or was not
/// reported as removed, stays in its record, and its record stays among the
/// records.
pub proof fn unremoved_paths_stay(
    rs: Seq<Record>,
    planned: Seq<Seq<char>>,
    reported: Seq<Seq<char>>,
    download_dir: Option<Seq<char>>,
    media_dirs: Seq<Seq<char>>,
    k: int,
    j: int,
)
    requires
        0 <= k < rs.len(),
        0 <= j < rs[k].paths.len(),
        !(planned.contains(rs[k].paths[j]) && reported.contains(rs[k].paths[j])),
    ensures
        ({
            let gone = gone_paths(planned, reported);
            let left = stripped(rs[k], gone, download_dir, media_dirs);
            &&& left.paths.contains(rs[k].paths[j])
            &&& after_removal(rs, gone, download_dir, media_dirs).contains(left)
        }),
{
    let gone = gone_paths(planned, reported);
    lemma_gone_paths(planned, reported);
    rs[k].paths.lemma_filter_contains(|p: Seq<char>| !gone.contains(p), j);
    let left = stripped(rs[k], gone, download_dir, media_dirs);
    let strip = |r: Record| stripped(r, gone, download_dir, media_dirs);
    let all = rs.map_values(strip);
    assert(all[k] == left);
    all.lemma_filter_contains(|r: Record| r.paths.len() > 0, k);
}

/// A deletion leaves other records untouched. A record that shares no path with
/// a member of the selection, and whose root flags are what its paths give, is
/// among the records after the deletion as it was before, whatever was reported
/// as removed.
pub proof fn deletion_leaves_other_records(
    rs: Seq<Record>,
    selection: GroupView,
    scope: DeleteScope,
    download_dir: Option<Seq<char>>,
    media_dirs: Seq<Seq<char>>,
    reported: Seq<Seq<char>>,
    k: int,
)
    requires
        0 <= k < rs.len(),
        rs[k].paths.len() > 0,
        flags_derived(rs[k], download_dir, media_dirs),
        forall|m: int, j: int|
            0 <= m < rs.len() && selected(#[trigger] rs[m], selection) && 0 <= j < rs[k].paths.len()
                ==> !rs[m].paths.contains(#[trigger] rs[k].paths[j]),
    ensures
        ({
            let planned = planned_paths(rs, selection, scope, download_dir, media_dirs);
            let gone = gone_paths(planned, reported);
            &&& stripped(rs[k], gone, download_dir, media_dirs) == rs[k]
            &&& after_removal(rs, gone, download_dir, media_dirs).contains(rs[k])
        }),
{
    let planned = planned_paths(rs, selection, scope, download_dir, media_dirs);
    let gone = gone_paths(planned, reported);
    lemma_gone_paths(planned, reported);
    let stays = |p: Seq<char>| !gone.contains(p);
    assert forall|j: int| 0 <= j < rs[k].paths.len() implies stays(#[trigger] rs[k].paths[j]) by {
        let p = rs[k].paths[j];
        if planned.contains(p) {
            let m = lemma_path_source(rs, selection, scope, download_dir, media_dirs, p);
            assert(!rs[m].paths.contains(rs[k].paths[j]));
        }
    }
    lemma_filter_keeps_all(rs[k].paths, stays);
    unremoved_paths_stay(rs, planned, reported, download_dir, media_dirs, k, 0);
}

} // verus!
