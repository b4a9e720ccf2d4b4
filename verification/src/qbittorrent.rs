//! What the engine takes from the torrent service: the torrents it lists, and how
//! they are matched to records.

use vstd::prelude::*;
use crate::scanner::{FileNode, Record};
use crate::text::{clone_texts, contains, occurs_in, same_text};

verus! {

/// A torrent as the torrent service lists it.
#[derive(Debug, Clone)]
pub struct TorrentInfo {
    /// The identifier by which the service knows the torrent.
    pub hash: String,
    /// The display name; it is matched against the paths of the records.
    pub name: String,
    /// The state that the service reports.
    pub state: String,
}

/// A torrent as the contracts see it.
pub struct Torrent {
    pub hash: Seq<char>,
    pub name: Seq<char>,
    pub state: Seq<char>,
}

impl View for TorrentInfo {
    type V = Torrent;

    open spec fn view(&self) -> Torrent {
        Torrent { hash: self.hash@, name: self.name@, state: self.state@ }
    }
}

/// The torrents that a list of listed torrents stands for.
pub open spec fn torrents_of(list: Seq<TorrentInfo>) -> Seq<Torrent> {
    Seq::new(list.len(), |i: int| list[i]@)
}

/// One file of a torrent.
#[derive(Debug, Clone)]
pub struct TorrentFile {
    pub name: String,
    pub size: u64,
}

/// A state in which the torrent is uploading: one that mentions `UP` or
/// `uploading`.
pub open spec fn seeding_state(state: Seq<char>) -> bool {
    occurs_in("UP"@, state) || occurs_in("uploading"@, state)
}

/// Whether a torrent in this state is actively seeding.
pub fn is_seeding(state: &str) -> (seeding: bool)
    ensures
        seeding == seeding_state(state@),
{
    contains(state, "UP") || contains(state, "uploading")
}

/// The last of `torrents` whose name occurs in `path`.
pub open spec fn last_named_in(path: Seq<char>, torrents: Seq<Torrent>) -> Option<int>
    decreases torrents.len(),
{
    if torrents.len() == 0 {
        None
    } else if occurs_in(torrents.last().name, path) {
        Some(torrents.len() - 1)
    } else {
        last_named_in(path, torrents.drop_last())
    }
}

/// The torrent that a record with these paths is associated with: the last
/// torrent named in the last path that names any.
pub open spec fn association(paths: Seq<Seq<char>>, torrents: Seq<Torrent>) -> Option<int>
    decreases paths.len(),
{
    if paths.len() == 0 {
        None
    } else {
        match last_named_in(paths.last(), torrents) {
            Some(t) => Some(t),
            None => association(paths.drop_last(), torrents),
        }
    }
}

/// The record `r` with the identifier and seeding state of the torrent it is
/// associated with, or as it is where it is associated with none.
pub open spec fn enriched(r: Record, torrents: Seq<Torrent>) -> Record {
    match association(r.paths, torrents) {
        Some(t) => Record {
            torrent_hash: Some(torrents[t].hash),
            is_seeding: seeding_state(torrents[t].state),
            ..r
        },
        None => r,
    }
}

/// The last of `torrents` whose name occurs in `path`.
fn find_named_in(path: &str, torrents: &[TorrentInfo]) -> (found: Option<usize>)
    ensures
        match found {
            Some(t) => last_named_in(path@, torrents_of(torrents@)) == Some(t as int)
                && t < torrents.len(),
            None => last_named_in(path@, torrents_of(torrents@)) is None,
        },
{
    let ghost ts = torrents_of(torrents@);
    let mut found: Option<usize> = None;
    let mut t: usize = 0;
    assert(ts.take(0) =~= Seq::<Torrent>::empty());
    while t < torrents.len()
        invariant
            0 <= t <= torrents.len(),
            ts == torrents_of(torrents@),
            match found {
                Some(x) => last_named_in(path@, ts.take(t as int)) == Some(x as int) && x < t,
                None => last_named_in(path@, ts.take(t as int)) is None,
            },
        decreases torrents.len() - t,
    {
        proof {
            assert(ts.take(t + 1).drop_last() =~= ts.take(t as int));
            assert(ts.take(t + 1).last() == torrents[t as int]@);
        }
        if contains(path, torrents[t].name.as_str()) {
            found = Some(t);
        }
        t += 1;
    }
    assert(ts.take(torrents.len() as int) =~= ts);
    found
}

/// The torrent that a record with these paths is associated with.
fn associate(paths: &Vec<String>, torrents: &[TorrentInfo]) -> (found: Option<usize>)
    ensures
        match found {
            Some(t) => association(paths.deep_view(), torrents_of(torrents@)) == Some(t as int)
                && t < torrents.len(),
            None => association(paths.deep_view(), torrents_of(torrents@)) is None,
        },
{
    let ghost pv = paths.deep_view();
    let ghost ts = torrents_of(torrents@);
    let mut found: Option<usize> = None;
    let mut j: usize = 0;
    assert(pv.take(0) =~= Seq::<Seq<char>>::empty());
    while j < paths.len()
        invariant
            0 <= j <= paths.len(),
            pv == paths.deep_view(),
            ts == torrents_of(torrents@),
            match found {
                Some(t) => association(pv.take(j as int), ts) == Some(t as int) && t
                    < torrents.len(),
                None => association(pv.take(j as int), ts) is None,
            },
        decreases paths.len() - j,
    {
        proof {
            assert(pv.take(j + 1).drop_last() =~= pv.take(j as int));
            assert(pv.take(j + 1).last() == paths[j as int]@);
        }
        match find_named_in(paths[j].as_str(), torrents) {
            Some(t) => {
                found = Some(t);
            },
            None => {},
        }
        j += 1;
    }
    assert(pv.take(paths.len() as int) =~= pv);
    found
}

/// Gives each node the identifier and the seeding state of the torrent it is
/// associated with. A node is associated with a torrent whose name occurs in one
/// of its paths; where several do, the last torrent named in the last such path
/// counts. A node that is associated with none stays as it is.
pub fn enrich(nodes: &mut Vec<FileNode>, torrents: &[TorrentInfo])
    ensures
        final(nodes)@.len() == old(nodes)@.len(),
        forall|i: int|
            0 <= i < old(nodes)@.len() ==> (#[trigger] final(nodes)@[i])@ == enriched(
                old(nodes)@[i]@,
                torrents_of(torrents@),
            ),
{
    let ghost before = nodes@;
    let ghost ts = torrents_of(torrents@);
    let mut i: usize = 0;
    while i < nodes.len()
        invariant
            0 <= i <= nodes.len(),
            nodes@.len() == before.len(),
            ts == torrents_of(torrents@),
            forall|k: int| 0 <= k < i ==> (#[trigger] nodes@[k])@ == enriched(before[k]@, ts),
            forall|k: int| i <= k < nodes.len() ==> nodes@[k] == before[k],
        decreases nodes.len() - i,
    {
        let node = &nodes[i];
        match associate(&node.paths, torrents) {
            Some(t) => {
                let updated = FileNode {
                    key: node.key,
                    size: node.size,
                    nlink: node.nlink,
                    paths: clone_texts(&node.paths),
                    has_downloads: node.has_downloads,
                    has_media: node.has_media,
                    torrent_hash: Some(torrents[t].hash.clone()),
                    is_seeding: is_seeding(torrents[t].state.as_str()),
                    modified: node.modified,
                };
                assert(ts[t as int] == torrents[t as int]@);
                nodes.set(i, updated);
            },
            None => {},
        }
        i += 1;
    }
}

/// A stand-in for the torrent service that lists two fixed torrents.
pub struct MockQbitClient;

impl MockQbitClient {
    /// The two torrents of the stand-in.
    pub fn get_torrents(&self) -> (list: Vec<TorrentInfo>)
        ensures
            list@.len() == 2,
            list@[0]@ == (Torrent {
                hash: "hash_inception"@,
                name: "Inception.2010.1080p.mkv"@,
                state: "stalledUP"@,
            }),
            list@[1]@ == (Torrent {
                hash: "hash_the_bear"@,
                name: "The.Bear.S01.1080p"@,
                state: "uploading"@,
            }),
    {
        let mut list: Vec<TorrentInfo> = Vec::new();
        list.push(
            TorrentInfo {
                hash: "hash_inception".to_owned(),
                name: "Inception.2010.1080p.mkv".to_owned(),
                state: "stalledUP".to_owned(),
            },
        );
        list.push(
            TorrentInfo {
                hash: "hash_the_bear".to_owned(),
                name: "The.Bear.S01.1080p".to_owned(),
                state: "uploading".to_owned(),
            },
        );
        list
    }

    /// The files of a torrent of the stand-in; none for any other torrent.
    pub fn get_torrent_files(&self, hash: &str) -> (files: Vec<TorrentFile>)
        ensures
            hash@ == "hash_inception"@ ==> files@.len() == 1 && files@[0].name@
                == "Inception.2010.1080p.mkv"@ && files@[0].size == 1000,
            hash@ != "hash_inception"@ && hash@ == "hash_the_bear"@ ==> files@.len() == 2
                && files@[0].name@ == "The.Bear.S01.1080p/The.Bear.S01E01.mkv"@ && files@[0].size
                == 500 && files@[1].name@ == "The.Bear.S01.1080p/The.Bear.S01E02.mkv"@
                && files@[1].size == 500,
            hash@ != "hash_inception"@ && hash@ != "hash_the_bear"@ ==> files@.len() == 0,
    {
        let mut files: Vec<TorrentFile> = Vec::new();
        if same_text(hash, "hash_inception") {
            files.push(TorrentFile { name: "Inception.2010.1080p.mkv".to_owned(), size: 1000 });
        } else if same_text(hash, "hash_the_bear") {
            files.push(
                TorrentFile {
                    name: "The.Bear.S01.1080p/The.Bear.S01E01.mkv".to_owned(),
                    size: 500,
                },
            );
            files.push(
                TorrentFile {
                    name: "The.Bear.S01.1080p/The.Bear.S01E02.mkv".to_owned(),
                    size: 500,
                },
            );
        }
        files
    }
}

} // verus!
