use ratatidy::qbittorrent::{enrich, is_seeding, MockQbitClient, TorrentInfo};
use ratatidy::scanner::{FileKey, FileNode};

fn node(inode: u64, paths: &[&str]) -> FileNode {
    FileNode {
        key: FileKey { dev: 1, inode },
        size: 100,
        nlink: 1,
        paths: paths.iter().map(|p| p.to_string()).collect(),
        has_downloads: true,
        has_media: false,
        torrent_hash: None,
        is_seeding: false,
        modified: None,
    }
}

fn torrent(hash: &str, name: &str, state: &str) -> TorrentInfo {
    TorrentInfo { hash: hash.to_string(), name: name.to_string(), state: state.to_string() }
}

#[test]
fn uploading_states_are_seeding() {
    assert!(is_seeding("uploading"));
    assert!(is_seeding("stalledUP"));
    assert!(is_seeding("forcedUP"));
    assert!(is_seeding("queuedUP"));
    assert!(!is_seeding("downloading"));
    assert!(!is_seeding("pausedDL"));
    assert!(!is_seeding("up"));
    assert!(!is_seeding(""));
}

#[test]
fn the_stand_in_lists_its_two_torrents() {
    let list = MockQbitClient.get_torrents();
    assert_eq!(list.len(), 2);
    assert_eq!(list[0].hash, "hash_inception");
    assert_eq!(list[0].name, "Inception.2010.1080p.mkv");
    assert_eq!(list[0].state, "stalledUP");
    assert_eq!(list[1].hash, "hash_the_bear");
    assert_eq!(list[1].name, "The.Bear.S01.1080p");
    assert_eq!(list[1].state, "uploading");
}

#[test]
fn a_record_takes_the_torrent_named_in_its_path() {
    let mut nodes = vec![
        node(1, &["/d/Inception.2010.1080p.mkv"]),
        node(2, &["/d/The.Bear.S01.1080p/The.Bear.S01E01.mkv"]),
        node(3, &["/d/Other/file.mkv"]),
    ];
    enrich(&mut nodes, &MockQbitClient.get_torrents());
    assert_eq!(nodes[0].torrent_hash, Some("hash_inception".to_string()));
    assert!(nodes[0].is_seeding);
    assert_eq!(nodes[1].torrent_hash, Some("hash_the_bear".to_string()));
    assert!(nodes[1].is_seeding);
    assert_eq!(nodes[2].torrent_hash, None);
    assert!(!nodes[2].is_seeding);
}

#[test]
fn a_torrent_that_is_not_uploading_is_not_seeding() {
    let mut nodes = vec![node(1, &["/d/Film/film.mkv"])];
    nodes[0].is_seeding = true;
    enrich(&mut nodes, &[torrent("h", "Film", "pausedDL")]);
    assert_eq!(nodes[0].torrent_hash, Some("h".to_string()));
    assert!(!nodes[0].is_seeding);
}

#[test]
fn the_last_torrent_named_in_the_last_matching_path_counts() {
    let torrents =
        vec![torrent("first", "Show", "uploading"), torrent("second", "Show.S01", "pausedDL")];
    let mut nodes = vec![node(1, &["/d/Show.S01/ep1.mkv"])];
    enrich(&mut nodes, &torrents);
    assert_eq!(nodes[0].torrent_hash, Some("second".to_string()));
    assert!(!nodes[0].is_seeding);

    let mut nodes = vec![node(1, &["/d/Show.S01/ep1.mkv", "/d/Show/ep1.mkv", "/m/x.mkv"])];
    enrich(&mut nodes, &torrents);
    assert_eq!(nodes[0].torrent_hash, Some("first".to_string()));
    assert!(nodes[0].is_seeding);
}

#[test]
fn a_record_that_matches_no_torrent_stays_as_it_is() {
    let mut nodes = vec![node(1, &["/d/Film/film.mkv"])];
    nodes[0].torrent_hash = Some("old".to_string());
    nodes[0].is_seeding = true;
    enrich(&mut nodes, &[torrent("h", "Other", "uploading")]);
    assert_eq!(nodes[0].torrent_hash, Some("old".to_string()));
    assert!(nodes[0].is_seeding);
    enrich(&mut nodes, &[]);
    assert_eq!(nodes[0].torrent_hash, Some("old".to_string()));
}

#[test]
fn matching_is_by_case() {
    let mut nodes = vec![node(1, &["/d/film/film.mkv"])];
    enrich(&mut nodes, &[torrent("h", "Film", "uploading")]);
    assert_eq!(nodes[0].torrent_hash, None);
}

#[test]
fn the_stand_in_lists_the_files_of_its_torrents() {
    let files = MockQbitClient.get_torrent_files("hash_inception");
    assert_eq!(files.len(), 1);
    assert_eq!(files[0].name, "Inception.2010.1080p.mkv");
    assert_eq!(files[0].size, 1000);
    let files = MockQbitClient.get_torrent_files("hash_the_bear");
    assert_eq!(files.len(), 2);
    assert_eq!(files[0].name, "The.Bear.S01.1080p/The.Bear.S01E01.mkv");
    assert_eq!(files[0].size, 500);
    assert_eq!(files[1].name, "The.Bear.S01.1080p/The.Bear.S01E02.mkv");
    assert_eq!(files[1].size, 500);
    assert!(MockQbitClient.get_torrent_files("other").is_empty());
    assert!(MockQbitClient.get_torrent_files("").is_empty());
}
