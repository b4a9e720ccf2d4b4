//! File identities, the records a scan produces, and the scan itself as a fold
//! over the files that a walk lists.

use vstd::prelude::*;
use crate::cache::{cached_identity, CacheEntry, ScanCache};
use crate::text::{clone_opt_text, clone_texts, holds_text};

verus! {

/// Identity of one on-disk object: the volume it lives on and its file id there.
/// Every hard link to the object has the same key.
#[derive(Debug, Clone, Copy, PartialEq, Eq, Hash, Structural)]
pub struct FileKey {
    pub dev: u64,
    pub inode: u64,
}

/// A point in time, as whole seconds since the Unix epoch and the nanoseconds
/// into that second.
#[derive(Debug, Clone, Copy, PartialEq, Eq, Hash, Structural)]
pub struct Timestamp {
    pub secs: i64,
    pub nanos: u32,
}

impl Timestamp {
    /// The nanoseconds of the time are less than a second.
    pub open spec fn valid(self) -> bool {
        self.nanos < 1_000_000_000
    }

    /// The time in nanoseconds since the Unix epoch; negative before it.
    pub open spec fn nanos_since_epoch(self) -> int {
        self.secs * 1_000_000_000 + self.nanos
    }

    /// The time that lies `secs` seconds and `nanos` nanoseconds after the Unix
    /// epoch, or `None` where `nanos` is a second or more or the time is out of
    /// range.
    pub fn after_epoch(secs: u64, nanos: u32) -> (time: Option<Timestamp>)
        ensures
            time is Some <==> nanos < 1_000_000_000 && secs <= i64::MAX,
            time matches Some(t) ==> t.valid() && t.nanos_since_epoch() == secs * 1_000_000_000
                + nanos,
    {
        if nanos < 1_000_000_000 && secs <= 0x7fff_ffff_ffff_ffff {
            Some(Timestamp { secs: secs as i64, nanos })
        } else {
            None
        }
    }

    /// The time that lies `secs` seconds and `nanos` nanoseconds before the Unix
    /// epoch, or `None` where `nanos` is a second or more or the time is out of
    /// range.
    pub fn before_epoch(secs: u64, nanos: u32) -> (time: Option<Timestamp>)
        ensures
            time is Some <==> nanos < 1_000_000_000 && secs < i64::MAX,
            time matches Some(t) ==> t.valid() && t.nanos_since_epoch() == -(secs * 1_000_000_000
                + nanos),
    {
        if nanos < 1_000_000_000 && secs < 0x7fff_ffff_ffff_ffff {
            let whole: i64 = secs as i64;
            if nanos == 0 {
                Some(Timestamp { secs: -whole, nanos: 0 })
            } else {
                Some(Timestamp { secs: -whole - 1, nanos: 1_000_000_000 - nanos })
            }
        } else {
            None
        }
    }

    /// How far the time lies from the Unix epoch, in seconds and nanoseconds, and
    /// whether it lies before it; `None` where the nanoseconds of the time are a
    /// second or more.
    pub fn distance(self) -> (far: Option<(bool, u64, u32)>)
        ensures
            far is Some <==> self.valid(),
            far matches Some(d) ==> {
                &&& d.2 < 1_000_000_000
                &&& d.0 == (self.nanos_since_epoch() < 0)
                &&& d.1 * 1_000_000_000 + d.2 == if d.0 {
                    -self.nanos_since_epoch()
                } else {
                    self.nanos_since_epoch()
                }
            },
    {
        if self.nanos >= 1_000_000_000 {
            None
        } else if self.secs >= 0 {
            Some((false, self.secs as u64, self.nanos))
        } else {
            let short: u64 = (-(self.secs + 1)) as u64;
            if self.nanos == 0 {
                Some((true, short + 1, 0))
            } else {
                Some((true, short, 1_000_000_000 - self.nanos))
            }
        }
    }
}

/// Whether two optional timestamps are the same.
pub fn same_time(a: Option<Timestamp>, b: Option<Timestamp>) -> (same: bool)
    ensures
        same == (a == b),
{
    match (a, b) {
        (None, None) => true,
        (Some(x), Some(y)) => x.secs == y.secs && x.nanos == y.nanos,
        _ => false,
    }
}

/// The identity and link count of a file whose metadata carries a device number,
/// an inode number and a link count. The link count is kept to its low 32 bits.
pub fn file_info_from_stat(dev: u64, ino: u64, nlink: u64) -> (info: (FileKey, u32))
    ensures
        info.0 == (FileKey { dev, inode: ino }),
        info.1 as int == nlink as int % 0x1_0000_0000,
{
    let low: u64 = nlink & 0xffff_ffff;
    assert(low == nlink % 0x1_0000_0000) by (bit_vector)
        requires
            low == nlink & 0xffff_ffff,
    ;
    (FileKey { dev, inode: ino }, low as u32)
}

/// The identity and link count of a file described by a volume serial number and a
/// file index that comes in two 32-bit halves.
pub fn file_info_from_index(volume_serial: u32, index_high: u32, index_low: u32, links: u32) -> (info: (
    FileKey,
    u32,
))
    ensures
        info.0.dev == volume_serial,
        info.0.inode as int == index_high as int * 0x1_0000_0000 + index_low as int,
        info.1 == links,
{
    let high: u64 = index_high as u64;
    let low: u64 = index_low as u64;
    let inode: u64 = (high << 32) | low;
    assert(inode == high * 0x1_0000_0000 + low) by (bit_vector)
        requires
            inode == (high << 32) | low,
            high < 0x1_0000_0000,
            low < 0x1_0000_0000,
    ;
    (FileKey { dev: volume_serial as u64, inode }, links)
}

/// A record as the contracts see it: the aggregate of every path that was observed
/// for one identity key.
pub struct Record {
    pub key: FileKey,
    pub size: u64,
    pub nlink: u32,
    pub paths: Seq<Seq<char>>,
    pub has_downloads: bool,
    pub has_media: bool,
    pub torrent_hash: Option<Seq<char>>,
    pub is_seeding: bool,
    pub modified: Option<Timestamp>,
}

/// One on-disk object with every path at which it was observed.
#[derive(Debug)]
pub struct FileNode {
    pub key: FileKey,
    pub size: u64,
    pub nlink: u32,
    pub paths: Vec<String>,
    pub has_downloads: bool,
    pub has_media: bool,
    pub torrent_hash: Option<String>,
    pub is_seeding: bool,
    pub modified: Option<Timestamp>,
}

impl View for FileNode {
    type V = Record;

    open spec fn view(&self) -> Record {
        Record {
            key: self.key,
            size: self.size,
            nlink: self.nlink,
            paths: self.paths.deep_view(),
            has_downloads: self.has_downloads,
            has_media: self.has_media,
            torrent_hash: self.torrent_hash.deep_view(),
            is_seeding: self.is_seeding,
            modified: self.modified,
        }
    }
}

impl Clone for FileNode {
    fn clone(&self) -> (copy: Self)
        ensures
            copy@ == self@,
    {
        FileNode {
            key: self.key,
            size: self.size,
            nlink: self.nlink,
            paths: clone_texts(&self.paths),
            has_downloads: self.has_downloads,
            has_media: self.has_media,
            torrent_hash: clone_opt_text(&self.torrent_hash),
            is_seeding: self.is_seeding,
            modified: self.modified,
        }
    }
}

/// The records that a list of nodes stands for.
pub open spec fn records(nodes: Seq<FileNode>) -> Seq<Record> {
    Seq::new(nodes.len(), |i: int| nodes[i]@)
}

/// A copy of every node in `nodes`, in order.
pub fn clone_nodes(nodes: &[FileNode]) -> (copy: Vec<FileNode>)
    ensures
        records(copy@) == records(nodes@),
{
    let mut copy: Vec<FileNode> = Vec::new();
    let mut k: usize = 0;
    while k < nodes.len()
        invariant
            0 <= k <= nodes.len(),
            copy.len() == k,
            forall|j: int| 0 <= j < k ==> copy@[j]@ == nodes@[j]@,
        decreases nodes.len() - k,
    {
        copy.push(nodes[k].clone());
        k += 1;
    }
    assert(records(copy@) =~= records(nodes@));
    copy
}

/// What a scan reports while it runs.
#[derive(Debug, Clone)]
pub enum ScanEvent {
    /// One more file was folded into the records.
    FileScanned,
    /// The scan is complete; these are its records.
    Finished(Vec<FileNode>),
    /// The scan failed.
    Error(String),
}

/// One observation of a file during a scan: where it was seen, what it is, and
/// whether the downloads root or a media root was being walked.
pub struct Sighting {
    pub key: FileKey,
    pub size: u64,
    pub nlink: u32,
    pub path: Seq<char>,
    pub is_download: bool,
    pub modified: Option<Timestamp>,
}

/// The record of an object that is seen for the first time.
pub open spec fn fresh(s: Sighting) -> Record {
    Record {
        key: s.key,
        size: s.size,
        nlink: s.nlink,
        paths: seq![s.path],
        has_downloads: s.is_download,
        has_media: !s.is_download,
        torrent_hash: None,
        is_seeding: false,
        modified: s.modified,
    }
}

/// The record `r` after its object was seen once more: the path joins the path
/// set and the flag of the root being walked is raised.
pub open spec fn absorbed(r: Record, s: Sighting) -> Record {
    Record {
        paths: if r.paths.contains(s.path) {
            r.paths
        } else {
            r.paths.push(s.path)
        },
        has_downloads: r.has_downloads || s.is_download,
        has_media: r.has_media || !s.is_download,
        ..r
    }
}

/// Some record has the key `key`.
pub open spec fn has_key(rs: Seq<Record>, key: FileKey) -> bool {
    exists|i: int| 0 <= i < rs.len() && rs[i].key == key
}

/// No two records have the same key.
pub open spec fn distinct_keys(rs: Seq<Record>) -> bool {
    forall|a: int, b: int| 0 <= a < b < rs.len() ==> rs[a].key != rs[b].key
}

/// The records are well formed: there is at most one record for each key, and
/// the path set of each record is not empty and holds no path twice.
pub open spec fn well_formed(rs: Seq<Record>) -> bool {
    &&& distinct_keys(rs)
    &&& forall|k: int|
        0 <= k < rs.len() ==> (#[trigger] rs[k]).paths.len() > 0 && rs[k].paths.no_duplicates()
}

/// `i` is the first position in `rs` of a record with the key `key`.
pub open spec fn first_with_key(rs: Seq<Record>, key: FileKey, i: int) -> bool {
    &&& 0 <= i < rs.len()
    &&& rs[i].key == key
    &&& forall|j: int| 0 <= j < i ==> rs[j].key != key
}

/// The first position in `rs` of a record with the key `key`.
pub open spec fn position_of_key(rs: Seq<Record>, key: FileKey) -> int {
    choose|i: int| first_with_key(rs, key, i)
}

/// The records after one more sighting: the record of its key absorbs it, or a
/// fresh record is added at the end.
pub open spec fn folded(rs: Seq<Record>, s: Sighting) -> Seq<Record> {
    if has_key(rs, s.key) {
        let i = position_of_key(rs, s.key);
        rs.update(i, absorbed(rs[i], s))
    } else {
        rs.push(fresh(s))
    }
}

/// The first position in `nodes` of a node with the key `key`.
pub fn find_key(nodes: &[FileNode], key: FileKey) -> (at: Option<usize>)
    ensures
        match at {
            Some(i) => has_key(records(nodes@), key) && position_of_key(records(nodes@), key) == i
                && first_with_key(records(nodes@), key, i as int),
            None => !has_key(records(nodes@), key),
        },
{
    let ghost rs = records(nodes@);
    let mut i: usize = 0;
    while i < nodes.len()
        invariant
            0 <= i <= nodes.len(),
            rs == records(nodes@),
            forall|j: int| 0 <= j < i ==> rs[j].key != key,
        decreases nodes.len() - i,
    {
        if nodes[i].key.dev == key.dev && nodes[i].key.inode == key.inode {
            assert(rs[i as int].key == key);
            assert(first_with_key(rs, key, i as int));
            let ghost c = position_of_key(rs, key);
            assert(first_with_key(rs, key, c));
            return Some(i);
        }
        i += 1;
    }
    None
}

/// Folds one observed file into the records: the node of its key gains the path
/// and the flag of the root being walked, or a new node is added.
pub fn fold_file(
    nodes: &mut Vec<FileNode>,
    key: FileKey,
    size: u64,
    nlink: u32,
    path: &str,
    is_download: bool,
    modified: Option<Timestamp>,
)
    ensures
        records(final(nodes)@) == folded(
            records(old(nodes)@),
            Sighting { key, size, nlink, path: path@, is_download, modified },
        ),
{
    let ghost s = Sighting { key, size, nlink, path: path@, is_download, modified };
    let ghost before = records(nodes@);
    match find_key(nodes.as_slice(), key) {
        Some(i) => {
            let node = &nodes[i];
            let mut paths = clone_texts(&node.paths);
            if !holds_text(&paths, path) {
                paths.push(path.to_owned());
                assert(paths.deep_view() =~= before[i as int].paths.push(path@));
            }
            let updated = FileNode {
                key: node.key,
                size: node.size,
                nlink: node.nlink,
                paths,
                has_downloads: node.has_downloads || is_download,
                has_media: node.has_media || !is_download,
                torrent_hash: clone_opt_text(&node.torrent_hash),
                is_seeding: node.is_seeding,
                modified: node.modified,
            };
            assert(updated@ == absorbed(before[i as int], s));
            nodes.set(i, updated);
            assert(records(nodes@) =~= before.update(i as int, absorbed(before[i as int], s)));
        },
        None => {
            let mut paths: Vec<String> = Vec::new();
            paths.push(path.to_owned());
            assert(paths.deep_view() =~= seq![path@]);
            nodes.push(
                FileNode {
                    key,
                    size,
                    nlink,
                    paths,
                    has_downloads: is_download,
                    has_media: !is_download,
                    torrent_hash: None,
                    is_seeding: false,
                    modified,
                },
            );
            assert(records(nodes@) =~= before.push(fresh(s)));
        },
    }
}

/// The trees a scan walks: one downloads root and any number of media roots.
#[derive(Debug)]
pub struct Scanner {
    pub download_dir: String,
    pub media_dirs: Vec<String>,
}

/// One root to walk, and whether it is the downloads root.
#[derive(Debug)]
pub struct WalkRoot {
    pub dir: String,
    pub is_download: bool,
}

impl Scanner {
    pub fn new(download_dir: String, media_dirs: Vec<String>) -> (scanner: Self)
        ensures
            scanner.download_dir == download_dir,
            scanner.media_dirs == media_dirs,
    {
        Self { download_dir, media_dirs }
    }

    /// The roots in the order in which a scan walks them: the downloads root
    /// first, then the media roots as configured.
    pub fn walk_order(&self) -> (order: Vec<WalkRoot>)
        ensures
            order.len() == self.media_dirs.len() + 1,
            order[0].dir@ == self.download_dir@,
            order[0].is_download,
            forall|i: int|
                0 <= i < self.media_dirs.len() ==> (#[trigger] order[i + 1]).dir@
                    == self.media_dirs[i]@ && !order[i + 1].is_download,
    {
        let mut order: Vec<WalkRoot> = Vec::new();
        order.push(WalkRoot { dir: self.download_dir.clone(), is_download: true });
        let mut k: usize = 0;
        while k < self.media_dirs.len()
            invariant
                0 <= k <= self.media_dirs.len(),
                order.len() == k + 1,
                order[0].dir@ == self.download_dir@,
                order[0].is_download,
                forall|i: int|
                    0 <= i < k ==> (#[trigger] order[i + 1]).dir@ == self.media_dirs[i]@
                        && !order[i + 1].is_download,
            decreases self.media_dirs.len() - k,
        {
            order.push(WalkRoot { dir: self.media_dirs[k].clone(), is_download: false });
            k += 1;
        }
        order
    }
}

/// The state of a scan in progress: the records folded so far and the cache.
///
/// The walk itself is the caller's: it lists the files of each root and reports
/// them here one by one. For each file it first calls [`ScanSession::observe`];
/// where that misses the cache it resolves the identity of the file and calls
/// [`ScanSession::identified`], or skips the file if the identity cannot be had.
pub struct ScanSession {
    pub nodes: Vec<FileNode>,
    pub cache: ScanCache,
}

impl ScanSession {
    /// A scan that has seen no file yet.
    pub fn new(cache: ScanCache) -> (session: Self)
        ensures
            session.nodes@.len() == 0,
            session.cache@ == cache@,
    {
        ScanSession { nodes: Vec::new(), cache }
    }

    /// Reports a listed file. Where the cache knows the file at this size and
    /// modification time, the file is folded into the records under the cached
    /// identity and the result is `true`. Otherwise nothing changes and the
    /// result is `false`.
    pub fn observe(
        &mut self,
        path: &str,
        size: u64,
        modified: Option<Timestamp>,
        is_download: bool,
    ) -> (hit: bool)
        ensures
            final(self).cache@ == old(self).cache@,
            hit == cached_identity(old(self).cache@, path@, size, modified).is_some(),
            match cached_identity(old(self).cache@, path@, size, modified) {
                Some(id) => records(final(self).nodes@) == folded(
                    records(old(self).nodes@),
                    Sighting { key: id.0, size, nlink: id.1, path: path@, is_download, modified },
                ),
                None => final(self).nodes@ == old(self).nodes@,
            },
    {
        match self.cache.lookup(path, size, modified) {
            Some(id) => {
                fold_file(&mut self.nodes, id.0, size, id.1, path, is_download, modified);
                true
            },
            None => false,
        }
    }

    /// Reports a listed file whose identity was resolved after a cache miss: the
    /// cache remembers it and the file is folded into the records.
    pub fn identified(
        &mut self,
        path: &str,
        size: u64,
        modified: Option<Timestamp>,
        is_download: bool,
        key: FileKey,
        nlink: u32,
    )
        ensures
            final(self).cache@ == old(self).cache@.insert(
                path@,
                CacheEntry { key, nlink, size, modified },
            ),
            records(final(self).nodes@) == folded(
                records(old(self).nodes@),
                Sighting { key, size, nlink, path: path@, is_download, modified },
            ),
    {
        self.cache.record(path, key, nlink, size, modified);
        fold_file(&mut self.nodes, key, size, nlink, path, is_download, modified);
    }

    /// Reports a listed file whose identity is at hand. Where the cache knows the
    /// file at this size and modification time, the cached identity counts;
    /// otherwise the identity given counts and the cache remembers it.
    pub fn report(&mut self, file: &SeenFile)
        ensures
            (ScanState { records: records(final(self).nodes@), cache: final(self).cache@ })
                == observed(
                ScanState { records: records(old(self).nodes@), cache: old(self).cache@ },
                file@,
            ),
    {
        let path = file.path.as_str();
        if !self.observe(path, file.size, file.modified, file.is_download) {
            self.identified(
                path,
                file.size,
                file.modified,
                file.is_download,
                file.key,
                file.nlink,
            );
        }
    }

    /// Ends the scan: the completion event that carries the records, and the
    /// cache to persist.
    pub fn finish(self) -> (done: (ScanEvent, ScanCache))
        ensures
            done.0 == ScanEvent::Finished(self.nodes),
            done.1 == self.cache,
    {
        (ScanEvent::Finished(self.nodes), self.cache)
    }
}

/// The records that a scan folds from the sightings, taken in order.
pub open spec fn scanned(sightings: Seq<Sighting>) -> Seq<Record>
    decreases sightings.len(),
{
    if sightings.len() == 0 {
        Seq::empty()
    } else {
        folded(scanned(sightings.drop_last()), sightings.last())
    }
}

/// A file as a walk lists it, together with the identity and link count that
/// resolving it gives.
pub struct Listing {
    pub path: Seq<char>,
    pub size: u64,
    pub modified: Option<Timestamp>,
    pub is_download: bool,
    pub key: FileKey,
    pub nlink: u32,
}

/// A listed file with the identity and link count that resolving it gave.
#[derive(Debug)]
pub struct SeenFile {
    pub path: String,
    pub size: u64,
    pub modified: Option<Timestamp>,
    pub is_download: bool,
    pub key: FileKey,
    pub nlink: u32,
}

impl View for SeenFile {
    type V = Listing;

    open spec fn view(&self) -> Listing {
        Listing {
            path: self.path@,
            size: self.size,
            modified: self.modified,
            is_download: self.is_download,
            key: self.key,
            nlink: self.nlink,
        }
    }
}

/// The sighting of a listed file under the identity `id`.
pub open spec fn sighting_as(f: Listing, id: (FileKey, u32)) -> Sighting {
    Sighting {
        key: id.0,
        size: f.size,
        nlink: id.1,
        path: f.path,
        is_download: f.is_download,
        modified: f.modified,
    }
}

/// The sighting of a listed file under its resolved identity.
pub open spec fn sighting_of(f: Listing) -> Sighting {
    sighting_as(f, (f.key, f.nlink))
}

/// The records and the cache of a scan.
pub struct ScanState {
    pub records: Seq<Record>,
    pub cache: Map<Seq<char>, CacheEntry>,
}

/// One step of a scan with a cache: on a hit the file is folded under the cached
/// identity; on a miss it is folded under its resolved identity, which the cache
/// then remembers. This is what [`ScanSession::observe`] does, followed on a miss
/// by [`ScanSession::identified`].
pub open spec fn observed(state: ScanState, f: Listing) -> ScanState {
    match cached_identity(state.cache, f.path, f.size, f.modified) {
        Some(id) => ScanState { records: folded(state.records, sighting_as(f, id)), ..state },
        None => ScanState {
            records: folded(state.records, sighting_of(f)),
            cache: state.cache.insert(
                f.path,
                CacheEntry { key: f.key, nlink: f.nlink, size: f.size, modified: f.modified },
            ),
        },
    }
}

/// The state of a scan that began with `cache` and has listed `files` in order.
pub open spec fn scanned_with(files: Seq<Listing>, cache: Map<Seq<char>, CacheEntry>) -> ScanState
    decreases files.len(),
{
    if files.len() == 0 {
        ScanState { records: Seq::empty(), cache }
    } else {
        observed(scanned_with(files.drop_last(), cache), files.last())
    }
}

/// Scans the listed files in order, beginning with `cache`: the records that the
/// scan folds, and the cache as the scan leaves it.
pub fn scan_files(files: &[SeenFile], cache: ScanCache) -> (found: (Vec<FileNode>, ScanCache))
    ensures
        (ScanState { records: records(found.0@), cache: found.1@ }) == scanned_with(
            listings(files@),
            cache@,
        ),
{
    let ghost all = listings(files@);
    let ghost start = cache@;
    let mut session = ScanSession::new(cache);
    let mut i: usize = 0;
    assert(all.take(0) =~= Seq::<Listing>::empty());
    assert(records(session.nodes@) =~= Seq::<Record>::empty());
    while i < files.len()
        invariant
            0 <= i <= files.len(),
            all == listings(files@),
            (ScanState { records: records(session.nodes@), cache: session.cache@ }) == scanned_with(
                all.take(i as int),
                start,
            ),
        decreases files.len() - i,
    {
        proof {
            assert(all.take(i + 1).drop_last() =~= all.take(i as int));
            assert(all.take(i + 1).last() == files[i as int]@);
        }
        session.report(&files[i]);
        i += 1;
    }
    assert(all.take(files.len() as int) =~= all);
    (session.nodes, session.cache)
}

/// The listings that a list of listed files stands for.
pub open spec fn listings(files: Seq<SeenFile>) -> Seq<Listing> {
    Seq::new(files.len(), |i: int| files[i]@)
}

} // verus!
