use ratatidy::cache::ScanCache;
use ratatidy::scanner::{
    file_info_from_index, file_info_from_stat, find_key, fold_file, same_time, scan_files, FileKey,
    FileNode, ScanEvent, ScanSession, Scanner, SeenFile, Timestamp,
};

fn key(dev: u64, inode: u64) -> FileKey {
    FileKey { dev, inode }
}

fn at(secs: i64) -> Option<Timestamp> {
    Some(Timestamp { secs, nanos: 0 })
}

#[test]
fn stat_gives_the_identity_directly() {
    let (k, links) = file_info_from_stat(2049, 77, 3);
    assert_eq!(k, key(2049, 77));
    assert_eq!(links, 3);
}

#[test]
fn a_link_count_keeps_its_low_32_bits() {
    let (_, links) = file_info_from_stat(1, 1, 0x1_0000_0005);
    assert_eq!(links, 5);
    let (_, links) = file_info_from_stat(1, 1, 0xffff_ffff);
    assert_eq!(links, 0xffff_ffff);
}

#[test]
fn a_file_index_is_joined_from_its_halves() {
    let (k, links) = file_info_from_index(0xdead_beef, 0x0000_0001, 0x0000_0002, 4);
    assert_eq!(k.dev, 0xdead_beef);
    assert_eq!(k.inode, 0x0000_0001_0000_0002);
    assert_eq!(links, 4);
    let (k, _) = file_info_from_index(0, 0xffff_ffff, 0xffff_ffff, 1);
    assert_eq!(k.inode, u64::MAX);
}

#[test]
fn times_are_compared_by_value() {
    assert!(same_time(None, None));
    assert!(same_time(at(5), at(5)));
    assert!(!same_time(at(5), at(6)));
    assert!(!same_time(at(5), None));
    assert!(!same_time(
        Some(Timestamp { secs: 5, nanos: 1 }),
        Some(Timestamp { secs: 5, nanos: 2 })
    ));
}

#[test]
fn an_empty_cache_misses() {
    let cache = ScanCache::new();
    assert_eq!(cache.lookup("/d/a.mkv", 10, at(1)), None);
    assert!(cache.entries().is_empty());
}

#[test]
fn a_recorded_path_is_found_at_the_same_size_and_time() {
    let mut cache = ScanCache::new();
    cache.record("/d/a.mkv", key(1, 42), 2, 100, at(7));
    assert_eq!(cache.lookup("/d/a.mkv", 100, at(7)), Some((key(1, 42), 2)));
    assert_eq!(cache.lookup("/d/b.mkv", 100, at(7)), None);
}

#[test]
fn a_changed_size_is_a_miss_even_if_the_time_matches() {
    let mut cache = ScanCache::new();
    cache.record("/d/a.mkv", key(1, 42), 2, 100, at(7));
    assert_eq!(cache.lookup("/d/a.mkv", 101, at(7)), None);
}

#[test]
fn a_changed_time_is_a_miss_even_if_the_size_matches() {
    let mut cache = ScanCache::new();
    cache.record("/d/a.mkv", key(1, 42), 2, 100, at(7));
    assert_eq!(cache.lookup("/d/a.mkv", 100, at(8)), None);
    assert_eq!(cache.lookup("/d/a.mkv", 100, None), None);
}

#[test]
fn recording_a_path_again_replaces_what_was_remembered() {
    let mut cache = ScanCache::new();
    cache.record("/d/a.mkv", key(1, 42), 2, 100, at(7));
    cache.record("/d/b.mkv", key(1, 43), 1, 5, None);
    cache.record("/d/a.mkv", key(1, 99), 1, 200, at(9));
    assert_eq!(cache.lookup("/d/a.mkv", 100, at(7)), None);
    assert_eq!(cache.lookup("/d/a.mkv", 200, at(9)), Some((key(1, 99), 1)));
    assert_eq!(cache.lookup("/d/b.mkv", 5, None), Some((key(1, 43), 1)));
    let entries = cache.entries();
    assert_eq!(entries.len(), 2);
    assert_eq!(entries[0].path, "/d/a.mkv");
    assert_eq!(entries[0].entry.key, key(1, 99));
    assert_eq!(entries[0].entry.size, 200);
    assert_eq!(entries[1].path, "/d/b.mkv");
}

#[test]
fn the_first_sighting_makes_a_record() {
    let mut nodes: Vec<FileNode> = Vec::new();
    fold_file(&mut nodes, key(1, 42), 100, 2, "/d/Show/ep1.mkv", true, at(7));
    assert_eq!(nodes.len(), 1);
    assert_eq!(nodes[0].key, key(1, 42));
    assert_eq!(nodes[0].size, 100);
    assert_eq!(nodes[0].nlink, 2);
    assert_eq!(nodes[0].paths, vec!["/d/Show/ep1.mkv".to_string()]);
    assert!(nodes[0].has_downloads);
    assert!(!nodes[0].has_media);
    assert_eq!(nodes[0].torrent_hash, None);
    assert!(!nodes[0].is_seeding);
    assert_eq!(nodes[0].modified, at(7));
}

#[test]
fn hard_links_are_merged_into_one_record() {
    let mut nodes: Vec<FileNode> = Vec::new();
    fold_file(&mut nodes, key(1, 42), 100, 4, "/m/Show/a.mkv", false, at(7));
    fold_file(&mut nodes, key(1, 50), 9, 1, "/m/Other/x.mkv", false, at(1));
    fold_file(&mut nodes, key(1, 42), 100, 4, "/m/Show/b.mkv", false, at(7));
    fold_file(&mut nodes, key(1, 42), 100, 4, "/m/Show/c.mkv", false, at(7));
    fold_file(&mut nodes, key(1, 42), 100, 4, "/d/Show/a.mkv", true, at(7));
    assert_eq!(nodes.len(), 2);
    assert_eq!(nodes[0].key, key(1, 42));
    assert_eq!(
        nodes[0].paths,
        vec![
            "/m/Show/a.mkv".to_string(),
            "/m/Show/b.mkv".to_string(),
            "/m/Show/c.mkv".to_string(),
            "/d/Show/a.mkv".to_string(),
        ]
    );
    assert!(nodes[0].has_downloads);
    assert!(nodes[0].has_media);
    assert_eq!(nodes[1].key, key(1, 50));
    assert!(!nodes[1].has_downloads);
    assert!(nodes[1].has_media);
}

#[test]
fn a_path_seen_twice_is_kept_once() {
    let mut nodes: Vec<FileNode> = Vec::new();
    fold_file(&mut nodes, key(1, 42), 100, 1, "/d/a.mkv", true, None);
    fold_file(&mut nodes, key(1, 42), 100, 1, "/d/a.mkv", false, None);
    assert_eq!(nodes.len(), 1);
    assert_eq!(nodes[0].paths, vec!["/d/a.mkv".to_string()]);
    assert!(nodes[0].has_downloads);
    assert!(nodes[0].has_media);
}

#[test]
fn a_later_sighting_keeps_what_the_first_said_of_the_object() {
    let mut nodes: Vec<FileNode> = Vec::new();
    fold_file(&mut nodes, key(1, 42), 100, 1, "/d/a.mkv", true, at(1));
    fold_file(&mut nodes, key(1, 42), 200, 2, "/m/a.mkv", false, at(2));
    assert_eq!(nodes[0].size, 100);
    assert_eq!(nodes[0].nlink, 1);
    assert_eq!(nodes[0].modified, at(1));
}

#[test]
fn keys_on_different_devices_are_different_objects() {
    let mut nodes: Vec<FileNode> = Vec::new();
    fold_file(&mut nodes, key(1, 42), 100, 1, "/d/a.mkv", true, None);
    fold_file(&mut nodes, key(2, 42), 100, 1, "/m/a.mkv", false, None);
    assert_eq!(nodes.len(), 2);
    assert_eq!(find_key(&nodes, key(2, 42)), Some(1));
    assert_eq!(find_key(&nodes, key(1, 42)), Some(0));
    assert_eq!(find_key(&nodes, key(3, 42)), None);
}

#[test]
fn the_downloads_root_is_walked_first() {
    let scanner = Scanner::new(
        "/d".to_string(),
        vec!["/m/movies".to_string(), "/m/tv".to_string()],
    );
    let order = scanner.walk_order();
    assert_eq!(order.len(), 3);
    assert_eq!(order[0].dir, "/d");
    assert!(order[0].is_download);
    assert_eq!(order[1].dir, "/m/movies");
    assert!(!order[1].is_download);
    assert_eq!(order[2].dir, "/m/tv");
    assert!(!order[2].is_download);
}

#[test]
fn a_scan_without_media_roots_walks_the_downloads_root_only() {
    let scanner = Scanner::new("/d".to_string(), Vec::new());
    let order = scanner.walk_order();
    assert_eq!(order.len(), 1);
    assert!(order[0].is_download);
}

#[test]
fn a_cold_scan_resolves_every_file_and_fills_the_cache() {
    let mut session = ScanSession::new(ScanCache::new());
    assert!(!session.observe("/d/Show/ep1.mkv", 100, at(7), true));
    assert!(session.nodes.is_empty());
    session.identified("/d/Show/ep1.mkv", 100, at(7), true, key(1, 42), 2);
    assert!(!session.observe("/m/Show/ep1.mkv", 100, at(7), false));
    session.identified("/m/Show/ep1.mkv", 100, at(7), false, key(1, 42), 2);
    assert_eq!(session.nodes.len(), 1);
    assert_eq!(session.nodes[0].paths.len(), 2);
    assert!(session.nodes[0].has_downloads && session.nodes[0].has_media);
    assert_eq!(session.cache.lookup("/d/Show/ep1.mkv", 100, at(7)), Some((key(1, 42), 2)));
    assert_eq!(session.cache.lookup("/m/Show/ep1.mkv", 100, at(7)), Some((key(1, 42), 2)));
}

fn cold_scan() -> (Vec<FileNode>, ScanCache) {
    let mut session = ScanSession::new(ScanCache::new());
    assert!(!session.observe("/d/Show/ep1.mkv", 100, at(7), true));
    session.identified("/d/Show/ep1.mkv", 100, at(7), true, key(1, 42), 2);
    assert!(!session.observe("/d/solo.mkv", 5, None, true));
    session.identified("/d/solo.mkv", 5, None, true, key(1, 43), 1);
    assert!(!session.observe("/m/Show/ep1.mkv", 100, at(7), false));
    session.identified("/m/Show/ep1.mkv", 100, at(7), false, key(1, 42), 2);
    let (event, cache) = session.finish();
    match event {
        ScanEvent::Finished(nodes) => (nodes, cache),
        _ => panic!("a finished scan reports its records"),
    }
}

#[test]
fn a_warm_scan_yields_the_records_of_a_cold_scan() {
    let (cold, cache) = cold_scan();
    let mut session = ScanSession::new(cache);
    assert!(session.observe("/d/Show/ep1.mkv", 100, at(7), true));
    assert!(session.observe("/d/solo.mkv", 5, None, true));
    assert!(session.observe("/m/Show/ep1.mkv", 100, at(7), false));
    let (event, _) = session.finish();
    let warm = match event {
        ScanEvent::Finished(nodes) => nodes,
        _ => panic!("a finished scan reports its records"),
    };
    assert_eq!(warm.len(), cold.len());
    for (w, c) in warm.iter().zip(cold.iter()) {
        assert_eq!(w.key, c.key);
        assert_eq!(w.size, c.size);
        assert_eq!(w.nlink, c.nlink);
        assert_eq!(w.paths, c.paths);
        assert_eq!(w.has_downloads, c.has_downloads);
        assert_eq!(w.has_media, c.has_media);
        assert_eq!(w.modified, c.modified);
    }
}

#[test]
fn a_warm_scan_resolves_a_file_that_changed() {
    let (_, cache) = cold_scan();
    let mut session = ScanSession::new(cache);
    assert!(!session.observe("/d/solo.mkv", 6, None, true));
    assert!(session.nodes.is_empty());
    session.identified("/d/solo.mkv", 6, None, true, key(1, 90), 1);
    assert_eq!(session.nodes.len(), 1);
    assert_eq!(session.nodes[0].key, key(1, 90));
    assert_eq!(session.cache.lookup("/d/solo.mkv", 6, None), Some((key(1, 90), 1)));
    assert_eq!(session.cache.lookup("/d/solo.mkv", 5, None), None);
}

#[test]
fn a_scan_of_nothing_finishes_with_no_records() {
    let session = ScanSession::new(ScanCache::new());
    let (event, cache) = session.finish();
    match event {
        ScanEvent::Finished(nodes) => assert!(nodes.is_empty()),
        _ => panic!("a finished scan reports its records"),
    }
    assert!(cache.entries().is_empty());
}

#[test]
fn a_copy_of_a_node_has_the_same_fields() {
    let node = FileNode {
        key: key(1, 42),
        size: 100,
        nlink: 2,
        paths: vec!["/d/a.mkv".to_string(), "/m/a.mkv".to_string()],
        has_downloads: true,
        has_media: true,
        torrent_hash: Some("abc".to_string()),
        is_seeding: true,
        modified: at(3),
    };
    let copy = node.clone();
    assert_eq!(copy.key, node.key);
    assert_eq!(copy.paths, node.paths);
    assert_eq!(copy.torrent_hash, node.torrent_hash);
    assert_eq!(copy.is_seeding, node.is_seeding);
    assert_eq!(copy.modified, node.modified);
}

fn seen(path: &str, size: u64, is_download: bool, inode: u64) -> SeenFile {
    SeenFile {
        path: path.to_string(),
        size,
        modified: at(7),
        is_download,
        key: key(1, inode),
        nlink: 2,
    }
}

#[test]
fn a_reported_file_is_folded_and_remembered() {
    let mut session = ScanSession::new(ScanCache::new());
    session.report(&seen("/d/Show/ep1.mkv", 100, true, 42));
    session.report(&seen("/m/Show/ep1.mkv", 100, false, 42));
    assert_eq!(session.nodes.len(), 1);
    assert_eq!(session.nodes[0].paths.len(), 2);
    assert!(session.nodes[0].has_downloads && session.nodes[0].has_media);
    assert_eq!(session.cache.lookup("/d/Show/ep1.mkv", 100, at(7)), Some((key(1, 42), 2)));
}

#[test]
fn a_reported_file_that_the_cache_knows_takes_the_cached_identity() {
    let mut cache = ScanCache::new();
    cache.record("/d/a.mkv", key(1, 5), 3, 100, at(7));
    let mut session = ScanSession::new(cache);
    session.report(&seen("/d/a.mkv", 100, true, 99));
    assert_eq!(session.nodes.len(), 1);
    assert_eq!(session.nodes[0].key, key(1, 5));
    assert_eq!(session.nodes[0].nlink, 3);
    assert_eq!(session.cache.lookup("/d/a.mkv", 100, at(7)), Some((key(1, 5), 3)));
    session.report(&seen("/d/a.mkv", 101, true, 99));
    assert_eq!(session.nodes.len(), 2);
    assert_eq!(session.nodes[1].key, key(1, 99));
    assert_eq!(session.cache.lookup("/d/a.mkv", 101, at(7)), Some((key(1, 99), 2)));
}

#[test]
fn a_time_after_the_epoch_counts_up() {
    assert_eq!(Timestamp::after_epoch(5, 7), Some(Timestamp { secs: 5, nanos: 7 }));
    assert_eq!(Timestamp::after_epoch(0, 0), Some(Timestamp { secs: 0, nanos: 0 }));
    assert_eq!(
        Timestamp::after_epoch(i64::MAX as u64, 999_999_999),
        Some(Timestamp { secs: i64::MAX, nanos: 999_999_999 })
    );
    assert_eq!(Timestamp::after_epoch(i64::MAX as u64 + 1, 0), None);
    assert_eq!(Timestamp::after_epoch(5, 1_000_000_000), None);
}

#[test]
fn a_time_before_the_epoch_counts_down_from_the_second_below() {
    assert_eq!(Timestamp::before_epoch(5, 0), Some(Timestamp { secs: -5, nanos: 0 }));
    assert_eq!(Timestamp::before_epoch(5, 1), Some(Timestamp { secs: -6, nanos: 999_999_999 }));
    assert_eq!(Timestamp::before_epoch(0, 250), Some(Timestamp { secs: -1, nanos: 999_999_750 }));
    assert_eq!(Timestamp::before_epoch(0, 0), Some(Timestamp { secs: 0, nanos: 0 }));
    assert_eq!(Timestamp::before_epoch(i64::MAX as u64, 0), None);
    assert_eq!(Timestamp::before_epoch(5, 1_000_000_000), None);
}

#[test]
fn the_distance_of_a_time_gives_the_time_back() {
    for (secs, nanos) in [(0u64, 0u32), (5, 0), (5, 1), (0, 999_999_999), (1 << 40, 123)] {
        let after = Timestamp::after_epoch(secs, nanos).expect("a time in range");
        assert_eq!(after.distance(), Some((false, secs, nanos)));
        let before = Timestamp::before_epoch(secs, nanos).expect("a time in range");
        assert_eq!(before.distance(), Some((secs != 0 || nanos != 0, secs, nanos)));
    }
    assert_eq!(Timestamp { secs: i64::MIN, nanos: 0 }.distance(), Some((true, 1 << 63, 0)));
    assert_eq!(
        Timestamp { secs: i64::MIN, nanos: 1 }.distance(),
        Some((true, (1 << 63) - 1, 999_999_999))
    );
    assert_eq!(Timestamp { secs: 1, nanos: 1_000_000_000 }.distance(), None);
}

#[test]
fn a_listing_is_scanned_in_one_go() {
    let files = vec![
        seen("/d/Show/ep1.mkv", 100, true, 42),
        seen("/d/solo.mkv", 5, true, 43),
        seen("/m/Show/ep1.mkv", 100, false, 42),
    ];
    let (cold, cache) = scan_files(&files, ScanCache::new());
    assert_eq!(cold.len(), 2);
    assert_eq!(cold[0].key, key(1, 42));
    assert_eq!(
        cold[0].paths,
        vec!["/d/Show/ep1.mkv".to_string(), "/m/Show/ep1.mkv".to_string()]
    );
    assert!(cold[0].has_downloads && cold[0].has_media);
    assert_eq!(cold[1].key, key(1, 43));
    assert!(cold[1].has_downloads && !cold[1].has_media);
    assert_eq!(cache.entries().len(), 3);

    let (warm, _) = scan_files(&files, cache);
    assert_eq!(warm.len(), cold.len());
    for (w, c) in warm.iter().zip(cold.iter()) {
        assert_eq!(w.key, c.key);
        assert_eq!(w.paths, c.paths);
        assert_eq!(w.nlink, c.nlink);
        assert_eq!((w.has_downloads, w.has_media), (c.has_downloads, c.has_media));
    }
    let (none, cache) = scan_files(&[], ScanCache::new());
    assert!(none.is_empty());
    assert!(cache.entries().is_empty());
}
