//! Laws of scanning: that the hard links of one object end up in one record, and
//! that the cache does not change what a scan finds.

use vstd::prelude::*;
use crate::cache::{cached_identity, CacheEntry};
use crate::qbittorrent::{enriched, Torrent};
use crate::scanner::{
    absorbed, distinct_keys, first_with_key, folded, fresh, has_key, observed, position_of_key,
    scanned, scanned_with, sighting_of, well_formed, FileKey, Listing, Record, Sighting,
};

verus! {

/// Where a record has the key, some record is the first to have it.
proof fn lemma_first_with_key(rs: Seq<Record>, key: FileKey, i: int)
    requires
        0 <= i < rs.len(),
        rs[i].key == key,
    ensures
        first_with_key(rs, key, position_of_key(rs, key)),
    decreases i,
{
    if exists|j: int| 0 <= j < i && rs[j].key == key {
        let j = choose|j: int| 0 <= j < i && rs[j].key == key;
        lemma_first_with_key(rs, key, j);
    } else {
        assert(first_with_key(rs, key, i));
    }
}

/// The key `key` was seen at the path `path`.
pub open spec fn seen_at(sightings: Seq<Sighting>, key: FileKey, path: Seq<char>) -> bool {
    exists|i: int|
        0 <= i < sightings.len() && (#[trigger] sightings[i]).key == key && sightings[i].path == path
}

/// The key `key` was seen while the downloads root was walked (`is_download`), or
/// while a media root was.
pub open spec fn seen_on(sightings: Seq<Sighting>, key: FileKey, is_download: bool) -> bool {
    exists|i: int|
        0 <= i < sightings.len() && (#[trigger] sightings[i]).key == key && sightings[i].is_download
            == is_download
}

/// The record `r` sums up what the sightings say of its key: its path set holds
/// each path at which the key was seen, once, and its flags tell under which
/// kinds of root the key was seen.
pub open spec fn sums_up(r: Record, sightings: Seq<Sighting>) -> bool {
    &&& forall|p: Seq<char>| r.paths.contains(p) <==> seen_at(sightings, r.key, p)
    &&& r.paths.no_duplicates()
    &&& r.has_downloads <==> seen_on(sightings, r.key, true)
    &&& r.has_media <==> seen_on(sightings, r.key, false)
}

/// The records `rs` are the merge of the sightings: one record for each key that
/// was seen, which sums up the sightings of that key, and no record without a
/// path.
pub open spec fn merges(rs: Seq<Record>, sightings: Seq<Sighting>) -> bool {
    &&& forall|k: int| 0 <= k < rs.len() ==> sums_up(#[trigger] rs[k], sightings)
    &&& forall|k: int| 0 <= k < rs.len() ==> (#[trigger] rs[k]).paths.len() > 0
    &&& distinct_keys(rs)
    &&& forall|i: int| 0 <= i < sightings.len() ==> has_key(rs, (#[trigger] sightings[i]).key)
}

/// Folding one more sighting into the merge of the earlier ones gives the merge of
/// all of them.
proof fn lemma_fold_merges(rs: Seq<Record>, before: Seq<Sighting>, s: Sighting)
    requires
        merges(rs, before),
    ensures
        merges(folded(rs, s), before.push(s)),
{
    let all = before.push(s);
    let next = folded(rs, s);
    assert(all[before.len() as int] == s);
    assert forall|key: FileKey, p: Seq<char>| seen_at(all, key, p) <==> (seen_at(before, key, p) || (
    key == s.key && p == s.path)) by {
        if seen_at(before, key, p) {
            let i = choose|i: int|
                0 <= i < before.len() && (#[trigger] before[i]).key == key && before[i].path == p;
            assert(all[i] == before[i]);
        }
        if seen_at(all, key, p) {
            let i = choose|i: int|
                0 <= i < all.len() && (#[trigger] all[i]).key == key && all[i].path == p;
            if i < before.len() {
                assert(all[i] == before[i]);
            }
        }
    }
    assert forall|key: FileKey, d: bool| seen_on(all, key, d) <==> (seen_on(before, key, d) || (key
        == s.key && d == s.is_download)) by {
        if seen_on(before, key, d) {
            let i = choose|i: int|
                0 <= i < before.len() && (#[trigger] before[i]).key == key && before[i].is_download
                    == d;
            assert(all[i] == before[i]);
        }
        if seen_on(all, key, d) {
            let i = choose|i: int|
                0 <= i < all.len() && (#[trigger] all[i]).key == key && all[i].is_download == d;
            if i < before.len() {
                assert(all[i] == before[i]);
            }
        }
    }
    if has_key(rs, s.key) {
        let at = position_of_key(rs, s.key);
        let some = choose|i: int| 0 <= i < rs.len() && rs[i].key == s.key;
        lemma_first_with_key(rs, s.key, some);
        let r = rs[at];
        let merged = absorbed(r, s);
        assert(next[at] == merged);
        assert(sums_up(r, before));
        assert forall|p: Seq<char>| merged.paths.contains(p) <==> (r.paths.contains(p) || p
            == s.path) by {
            if r.paths.contains(s.path) {
            } else {
                let grown = r.paths.push(s.path);
                assert(grown[r.paths.len() as int] == s.path);
                if r.paths.contains(p) {
                    let j = choose|j: int| 0 <= j < r.paths.len() && r.paths[j] == p;
                    assert(grown[j] == p);
                }
            }
        }
        assert(sums_up(merged, all));
        assert forall|k: int| 0 <= k < next.len() implies sums_up(#[trigger] next[k], all) by {
            if k != at {
                assert(next[k] == rs[k]);
                assert(sums_up(rs[k], before));
                assert(rs[k].key != s.key) by {
                    if k < at {
                    } else {
                        assert(rs[at].key != rs[k].key);
                    }
                }
            }
        }
        assert forall|i: int| 0 <= i < all.len() implies has_key(next, (#[trigger] all[i]).key) by {
            let key = all[i].key;
            if i < before.len() {
                assert(all[i] == before[i]);
                assert(has_key(rs, before[i].key));
            }
            let k = choose|k: int| 0 <= k < rs.len() && rs[k].key == key;
            assert(next[k].key == key);
        }
    } else {
        let newest = fresh(s);
        assert(next[rs.len() as int] == newest);
        assert(!seen_at(before, s.key, s.path)) by {
            if seen_at(before, s.key, s.path) {
                let i = choose|i: int|
                    0 <= i < before.len() && (#[trigger] before[i]).key == s.key && before[i].path
                        == s.path;
                assert(has_key(rs, before[i].key));
            }
        }
        assert forall|key: FileKey| key == s.key implies !seen_on(before, key, true) && !seen_on(
            before,
            key,
            false,
        ) && forall|p: Seq<char>| !seen_at(before, key, p) by {
            if seen_on(before, key, true) {
                let i = choose|i: int|
                    0 <= i < before.len() && (#[trigger] before[i]).key == key
                        && before[i].is_download == true;
                assert(has_key(rs, before[i].key));
            }
            if seen_on(before, key, false) {
                let i = choose|i: int|
                    0 <= i < before.len() && (#[trigger] before[i]).key == key
                        && before[i].is_download == false;
                assert(has_key(rs, before[i].key));
            }
            assert forall|p: Seq<char>| !seen_at(before, key, p) by {
                if seen_at(before, key, p) {
                    let i = choose|i: int|
                        0 <= i < before.len() && (#[trigger] before[i]).key == key
                            && before[i].path == p;
                    assert(has_key(rs, before[i].key));
                }
            }
        }
        assert(newest.paths[0] == s.path);
        assert(sums_up(newest, all));
        assert forall|k: int| 0 <= k < next.len() implies sums_up(#[trigger] next[k], all) by {
            if k < rs.len() {
                assert(next[k] == rs[k]);
                assert(sums_up(rs[k], before));
            }
        }
        assert forall|i: int| 0 <= i < all.len() implies has_key(next, (#[trigger] all[i]).key) by {
            if i < before.len() {
                assert(all[i] == before[i]);
                assert(has_key(rs, before[i].key));
                let k = choose|k: int| 0 <= k < rs.len() && rs[k].key == before[i].key;
                assert(next[k].key == all[i].key);
            } else {
                assert(next[rs.len() as int].key == all[i].key);
            }
        }
    }
}

/// A scan merges what it sees. Whatever the sightings and their order, the
/// records of a scan hold exactly one record for each key that was seen; its path
/// set holds every path at which the key was seen, each once; and its flags tell
/// whether the key was seen under the downloads root and under a media root. So
/// the hard links of one object, wherever they lie, end up in one record.
pub proof fn scan_merges_hard_links(sightings: Seq<Sighting>)
    ensures
        merges(scanned(sightings), sightings),
    decreases sightings.len(),
{
    if sightings.len() > 0 {
        scan_merges_hard_links(sightings.drop_last());
        lemma_fold_merges(scanned(sightings.drop_last()), sightings.drop_last(), sightings.last());
        assert(sightings.drop_last().push(sightings.last()) =~= sightings);
    }
}

/// A scan yields well-formed records: at most one for each key, each with a path
/// set that is not empty and holds no path twice.
pub proof fn scan_yields_well_formed_records(sightings: Seq<Sighting>)
    ensures
        well_formed(scanned(sightings)),
{
    scan_merges_hard_links(sightings);
    let rs = scanned(sightings);
    assert forall|k: int| 0 <= k < rs.len() implies (#[trigger] rs[k]).paths.len() > 0
        && rs[k].paths.no_duplicates() by {
        assert(sums_up(rs[k], sightings));
    }
}

/// What `cache` remembers of each of `files` at its present size and modification
/// time is the identity and link count that resolving the file gives.
pub open spec fn faithful(cache: Map<Seq<char>, CacheEntry>, files: Seq<Listing>) -> bool {
    forall|i: int|
        0 <= i < files.len() ==> match cached_identity(
            cache,
            (#[trigger] files[i]).path,
            files[i].size,
            files[i].modified,
        ) {
            Some(id) => id == (files[i].key, files[i].nlink),
            None => true,
        }
}

/// The file system stands still during the scan: listings of one path at one
/// size and modification time resolve to one identity and link count.
pub open spec fn stands_still(files: Seq<Listing>) -> bool {
    forall|i: int, j: int|
        0 <= i < files.len() && 0 <= j < files.len() && (#[trigger] files[i]).path == (
        #[trigger] files[j]).path && files[i].size == files[j].size && files[i].modified
            == files[j].modified ==> files[i].key == files[j].key && files[i].nlink
            == files[j].nlink
}

/// The sightings of the files under their resolved identities.
pub open spec fn sightings_of(files: Seq<Listing>) -> Seq<Sighting> {
    files.map_values(|f: Listing| sighting_of(f))
}

/// A scan with a faithful cache stays faithful, and folds what a scan that
/// resolves every file folds.
proof fn lemma_cache_is_transparent(
    files: Seq<Listing>,
    cache: Map<Seq<char>, CacheEntry>,
    all: Seq<Listing>,
)
    requires
        faithful(cache, all),
        stands_still(all),
        files.is_prefix_of(all),
    ensures
        scanned_with(files, cache).records == scanned(sightings_of(files)),
        faithful(scanned_with(files, cache).cache, all),
    decreases files.len(),
{
    if files.len() == 0 {
        assert(sightings_of(files) =~= Seq::<Sighting>::empty());
    } else {
        let init = files.drop_last();
        let f = files.last();
        lemma_cache_is_transparent(init, cache, all);
        let state = scanned_with(init, cache);
        let at = files.len() - 1;
        assert(all[at] == f);
        assert(sightings_of(files).drop_last() =~= sightings_of(init));
        assert(sightings_of(files).last() == sighting_of(f));
        let next = observed(state, f);
        assert forall|i: int| 0 <= i < all.len() implies match cached_identity(
            next.cache,
            (#[trigger] all[i]).path,
            all[i].size,
            all[i].modified,
        ) {
            Some(id) => id == (all[i].key, all[i].nlink),
            None => true,
        } by {
            if all[i].path == f.path {
            }
        }
    }
}

/// The cache is a pure optimisation. As long as the file system stands still and
/// the cache is faithful to it, a scan with the cache yields the very records
/// that a scan yields which resolves the identity of every file. An empty cache
/// is faithful, so a warm scan and a cold scan of the same trees agree.
pub proof fn warm_scan_matches_cold_scan(files: Seq<Listing>, cache: Map<Seq<char>, CacheEntry>)
    requires
        faithful(cache, files),
        stands_still(files),
    ensures
        scanned_with(files, cache).records == scanned(sightings_of(files)),
        scanned_with(files, Map::empty()).records == scanned(sightings_of(files)),
{
    lemma_cache_is_transparent(files, cache, files);
    lemma_cache_is_transparent(files, Map::empty(), files);
}

/// Matching the records to torrents keeps them well formed: neither keys nor
/// paths change.
pub proof fn enrichment_keeps_records_well_formed(
    rs: Seq<Record>,
    after: Seq<Record>,
    torrents: Seq<Torrent>,
)
    requires
        well_formed(rs),
        after.len() == rs.len(),
        forall|i: int| 0 <= i < rs.len() ==> #[trigger] after[i] == enriched(rs[i], torrents),
    ensures
        well_formed(after),
        forall|i: int|
            0 <= i < rs.len() ==> (#[trigger] after[i]).key == rs[i].key && after[i].paths
                == rs[i].paths && after[i].has_downloads == rs[i].has_downloads
                && after[i].has_media == rs[i].has_media,
{
}

} // verus!
