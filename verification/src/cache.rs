//! The scan cache: what earlier scans learned of each path, which spares a scan
//! from resolving the identity of files that did not change.
//!
//! The cache goes by path, not by identity: whether an entry is stale is judged
//! for each path by itself, from the size and modification time of the file.

use vstd::prelude::*;
use crate::scanner::{same_time, FileKey, Timestamp};
use crate::text::same_text;

verus! {

/// What the cache remembers of one path.
#[derive(Debug, Clone, Copy, PartialEq, Eq, Structural)]
pub struct CacheEntry {
    pub key: FileKey,
    pub nlink: u32,
    pub size: u64,
    pub modified: Option<Timestamp>,
}

/// One path of the cache with what is remembered of it.
#[derive(Debug)]
pub struct CachedPath {
    pub path: String,
    pub entry: CacheEntry,
}

/// The identity that `cache` yields for a file at `path` with the given size and
/// modification time: a hit only when both are what the cache remembers.
pub open spec fn cached_identity(
    cache: Map<Seq<char>, CacheEntry>,
    path: Seq<char>,
    size: u64,
    modified: Option<Timestamp>,
) -> Option<(FileKey, u32)> {
    if cache.contains_key(path) && cache[path].size == size && cache[path].modified == modified {
        Some((cache[path].key, cache[path].nlink))
    } else {
        None
    }
}

/// What earlier scans learned of each path: its identity and link count, and the
/// size and modification time it had then.
pub struct ScanCache {
    entries: Vec<CachedPath>,
}

impl ScanCache {
    #[verifier::type_invariant]
    spec fn distinct_paths(&self) -> bool {
        forall|i: int, j: int|
            0 <= i < j < self.entries.len() ==> self.entries[i].path@ != self.entries[j].path@
    }

    spec fn position(&self, path: Seq<char>) -> int {
        choose|i: int| 0 <= i < self.entries.len() && self.entries[i].path@ == path
    }

    /// The cache as a map from path to what is remembered of it.
    pub closed spec fn view(&self) -> Map<Seq<char>, CacheEntry> {
        Map::new(
            |path: Seq<char>|
                exists|i: int| 0 <= i < self.entries.len() && self.entries[i].path@ == path,
            |path: Seq<char>| self.entries[self.position(path)].entry,
        )
    }

    /// A cache that remembers nothing.
    pub fn new() -> (cache: Self)
        ensures
            cache@ == Map::<Seq<char>, CacheEntry>::empty(),
    {
        let cache = ScanCache { entries: Vec::new() };
        assert(cache@ =~= Map::<Seq<char>, CacheEntry>::empty());
        cache
    }

    /// Where `path` is remembered, if it is.
    fn find(&self, path: &str) -> (at: Option<usize>)
        ensures
            match at {
                Some(i) => i < self.entries.len() && self.entries[i as int].path@ == path@
                    && self@.contains_key(path@) && self@[path@] == self.entries[i as int].entry,
                None => !self@.contains_key(path@),
            },
    {
        proof {
            use_type_invariant(self);
        }
        let mut i: usize = 0;
        while i < self.entries.len()
            invariant
                0 <= i <= self.entries.len(),
                self.distinct_paths(),
                forall|j: int| 0 <= j < i ==> self.entries[j].path@ != path@,
            decreases self.entries.len() - i,
        {
            if same_text(self.entries[i].path.as_str(), path) {
                assert(self.position(path@) == i);
                return Some(i);
            }
            i += 1;
        }
        None
    }

    /// The identity remembered for `path`, provided the file still has the size and
    /// modification time it had when it was recorded.
    pub fn lookup(&self, path: &str, size: u64, modified: Option<Timestamp>) -> (hit: Option<
        (FileKey, u32),
    >)
        ensures
            hit == cached_identity(self@, path@, size, modified),
    {
        match self.find(path) {
            Some(i) => {
                let entry = &self.entries[i].entry;
                if entry.size == size && same_time(entry.modified, modified) {
                    Some((entry.key, entry.nlink))
                } else {
                    None
                }
            },
            None => None,
        }
    }

    /// Remembers `path` with the given identity, link count, size and modification
    /// time, in place of whatever was remembered of it.
    pub fn record(
        &mut self,
        path: &str,
        key: FileKey,
        nlink: u32,
        size: u64,
        modified: Option<Timestamp>,
    )
        ensures
            final(self)@ == old(self)@.insert(path@, CacheEntry { key, nlink, size, modified }),
    {
        proof {
            use_type_invariant(&*self);
        }
        let entry = CacheEntry { key, nlink, size, modified };
        let ghost before = *self;
        let found = self.find(path);
        let mut entries: Vec<CachedPath> = Vec::new();
        std::mem::swap(&mut entries, &mut self.entries);
        match found {
            Some(i) => {
                entries.set(i, CachedPath { path: path.to_owned(), entry });
            },
            None => {
                entries.push(CachedPath { path: path.to_owned(), entry });
            },
        }
        self.entries = entries;
        proof {
            let after = *self;
            assert forall|q: Seq<char>| after@.contains_key(q) <==> before@.insert(
                path@,
                entry,
            ).contains_key(q) by {
                if before@.contains_key(q) {
                    let j = before.position(q);
                    assert(after.entries[j].path@ == q);
                }
                if q == path@ {
                    let j = match found {
                        Some(i) => i as int,
                        None => after.entries.len() - 1,
                    };
                    assert(after.entries[j].path@ == q);
                }
            }
            assert forall|q: Seq<char>| after@.contains_key(q) implies after@[q] == before@.insert(
                path@,
                entry,
            )[q] by {
                let j = after.position(q);
                if q != path@ {
                    assert(before.entries[j].path@ == q);
                    assert(before.position(q) == j);
                }
            }
            assert(after@ =~= before@.insert(path@, entry));
        }
    }

    /// Everything the cache remembers, one entry per path.
    pub fn entries(&self) -> (all: &Vec<CachedPath>)
        ensures
            forall|i: int|
                0 <= i < all.len() ==> self@.contains_key(#[trigger] all[i].path@) && self@[all[i].path@]
                    == all[i].entry,
            forall|p: Seq<char>|
                self@.contains_key(p) ==> exists|i: int| 0 <= i < all.len() && all[i].path@ == p,
            forall|i: int, j: int| 0 <= i < j < all.len() ==> all[i].path@ != all[j].path@,
    {
        proof {
            use_type_invariant(self);
            assert forall|i: int| 0 <= i < self.entries.len() implies self@.contains_key(
                #[trigger] self.entries[i].path@,
            ) && self@[self.entries[i].path@] == self.entries[i].entry by {
                assert(self.position(self.entries[i].path@) == i);
            }
        }
        &self.entries
    }
}

} // verus!
