use ratatidy::grouping::{belongs_to, group_by_downloads, group_by_media, place, Group, GroupKind};
use ratatidy::scanner::{FileKey, FileNode};

fn node(inode: u64, paths: &[&str], has_downloads: bool, has_media: bool) -> FileNode {
    FileNode {
        key: FileKey { dev: 1, inode },
        size: 100,
        nlink: paths.len() as u32,
        paths: paths.iter().map(|p| p.to_string()).collect(),
        has_downloads,
        has_media,
        torrent_hash: None,
        is_seeding: false,
        modified: None,
    }
}

fn by_title<'a>(groups: &'a [Group], title: &str) -> &'a Group {
    groups.iter().find(|g| g.title == title).expect("a group with this title")
}

fn inodes(group: &Group) -> Vec<u64> {
    group.nodes.iter().map(|n| n.key.inode).collect()
}

#[test]
fn a_path_is_placed_in_the_folder_below_its_root() {
    let roots = vec!["/m".to_string()];
    let placed = place("/m/Show/ep1.mkv", &roots).expect("a placement");
    assert_eq!(placed.container, "/m/Show");
    assert_eq!(placed.title, "Show");
}

#[test]
fn a_path_counts_for_the_first_root_it_lies_under() {
    let roots = vec!["/m".to_string(), "/m/tv".to_string()];
    let placed = place("/m/tv/Show/ep1.mkv", &roots).expect("a placement");
    assert_eq!(placed.container, "/m/tv");
    assert_eq!(placed.title, "tv");
    let roots = vec!["/m/tv".to_string(), "/m".to_string()];
    let placed = place("/m/tv/Show/ep1.mkv", &roots).expect("a placement");
    assert_eq!(placed.container, "/m/tv/Show");
    assert_eq!(placed.title, "Show");
}

#[test]
fn a_path_outside_every_root_is_placed_nowhere() {
    let roots = vec!["/m".to_string()];
    assert!(place("/d/Show/ep1.mkv", &roots).is_none());
    assert!(place("/m", &roots).is_none());
    assert!(place("/m/Show", &[]).is_none());
}

#[test]
fn a_hard_linked_show_is_one_group_on_each_side() {
    let nodes = vec![node(42, &["/d/Show/ep1.mkv", "/m/Show/ep1.mkv"], true, true)];
    let media = group_by_media(&nodes, &["/m".to_string()]);
    assert_eq!(media.len(), 1);
    assert_eq!(media[0].title, "Show");
    assert_eq!(media[0].kind, GroupKind::Movie);
    assert_eq!(media[0].media_container, Some("/m/Show".to_string()));
    assert_eq!(media[0].downloads_container, None);
    assert_eq!(inodes(&media[0]), vec![42]);
    assert_eq!(media[0].nodes[0].paths.len(), 2);

    let downloads = group_by_downloads(&nodes, "/d");
    assert_eq!(downloads.len(), 1);
    assert_eq!(downloads[0].title, "Show");
    assert_eq!(downloads[0].kind, GroupKind::DownloadTorrent);
    assert_eq!(downloads[0].media_container, None);
    assert_eq!(downloads[0].downloads_container, Some("/d/Show".to_string()));
    assert_eq!(inodes(&downloads[0]), vec![42]);
}

#[test]
fn records_share_the_group_of_their_folder() {
    let nodes = vec![
        node(1, &["/m/Show/ep1.mkv"], false, true),
        node(2, &["/m/Film/film.mkv"], false, true),
        node(3, &["/m/Show/ep2.mkv"], false, true),
    ];
    let groups = group_by_media(&nodes, &["/m".to_string()]);
    assert_eq!(groups.len(), 2);
    assert_eq!(inodes(by_title(&groups, "Show")), vec![1, 3]);
    assert_eq!(inodes(by_title(&groups, "Film")), vec![2]);
}

#[test]
fn a_record_in_two_folders_is_in_both_groups() {
    let nodes = vec![node(1, &["/m/A/x.mkv", "/m/B/x.mkv"], false, true)];
    let groups = group_by_media(&nodes, &["/m".to_string()]);
    assert_eq!(groups.len(), 2);
    assert_eq!(inodes(by_title(&groups, "A")), vec![1]);
    assert_eq!(inodes(by_title(&groups, "B")), vec![1]);
}

#[test]
fn a_record_with_several_paths_in_one_folder_is_in_its_group_once() {
    let nodes = vec![node(1, &["/m/A/x.mkv", "/m/A/y.mkv", "/m/A/z.mkv"], false, true)];
    let groups = group_by_media(&nodes, &["/m".to_string()]);
    assert_eq!(groups.len(), 1);
    assert_eq!(inodes(&groups[0]), vec![1]);
}

#[test]
fn a_record_without_the_flag_of_the_side_is_not_grouped() {
    let nodes = vec![node(1, &["/m/A/x.mkv"], true, false)];
    assert!(group_by_media(&nodes, &["/m".to_string()]).is_empty());
    let nodes = vec![node(1, &["/d/A/x.mkv"], false, true)];
    assert!(group_by_downloads(&nodes, "/d").is_empty());
}

#[test]
fn a_file_directly_under_the_root_is_its_own_group() {
    let nodes = vec![node(1, &["/d/single.mkv"], true, false)];
    let groups = group_by_downloads(&nodes, "/d");
    assert_eq!(groups.len(), 1);
    assert_eq!(groups[0].title, "single.mkv");
    assert_eq!(groups[0].downloads_container, Some("/d/single.mkv".to_string()));
}

#[test]
fn folders_of_the_same_name_under_two_roots_are_two_groups() {
    let nodes = vec![
        node(1, &["/m/movies/Show/a.mkv"], false, true),
        node(2, &["/m/tv/Show/b.mkv"], false, true),
    ];
    let roots = vec!["/m/movies".to_string(), "/m/tv".to_string()];
    let groups = group_by_media(&nodes, &roots);
    assert_eq!(groups.len(), 2);
    let mut containers: Vec<String> =
        groups.iter().map(|g| g.media_container.clone().expect("a container")).collect();
    containers.sort();
    assert_eq!(containers, vec!["/m/movies/Show".to_string(), "/m/tv/Show".to_string()]);
    assert!(groups.iter().all(|g| g.title == "Show" && g.nodes.len() == 1));
}

#[test]
fn grouping_twice_gives_the_same_groups() {
    let nodes = vec![
        node(1, &["/m/Show/ep1.mkv", "/d/Show/ep1.mkv"], true, true),
        node(2, &["/m/Film/film.mkv"], false, true),
        node(3, &["/m/Show/ep2.mkv"], false, true),
    ];
    let roots = vec!["/m".to_string()];
    let first = group_by_media(&nodes, &roots);
    let second = group_by_media(&nodes, &roots);
    assert_eq!(first.len(), second.len());
    for g in &first {
        let h = second
            .iter()
            .find(|h| h.media_container == g.media_container)
            .expect("the same container");
        assert_eq!(h.title, g.title);
        assert_eq!(inodes(h), inodes(g));
    }
}

#[test]
fn no_records_give_no_groups() {
    assert!(group_by_media(&[], &["/m".to_string()]).is_empty());
    assert!(group_by_downloads(&[], "/d").is_empty());
    let nodes = vec![node(1, &["/m/A/x.mkv"], false, true)];
    assert!(group_by_media(&nodes, &[]).is_empty());
}

#[test]
fn membership_goes_by_flag_and_container() {
    let roots = vec!["/m".to_string()];
    let n = node(1, &["/d/A/x.mkv", "/m/A/x.mkv"], true, true);
    assert!(belongs_to(&n, false, &roots, "/m/A"));
    assert!(!belongs_to(&n, false, &roots, "/m/B"));
    assert!(!belongs_to(&n, false, &roots, "/d/A"));
    let unflagged = node(1, &["/m/A/x.mkv"], true, false);
    assert!(!belongs_to(&unflagged, false, &roots, "/m/A"));
}

#[test]
fn a_copy_of_a_group_has_the_same_fields() {
    let nodes = vec![node(42, &["/d/Show/ep1.mkv", "/m/Show/ep1.mkv"], true, true)];
    let groups = group_by_media(&nodes, &["/m".to_string()]);
    let copy = groups[0].clone();
    assert_eq!(copy.title, groups[0].title);
    assert_eq!(copy.kind, groups[0].kind);
    assert_eq!(copy.media_container, groups[0].media_container);
    assert_eq!(copy.downloads_container, groups[0].downloads_container);
    assert_eq!(inodes(&copy), inodes(&groups[0]));
}

#[test]
fn a_dot_in_a_path_does_not_name_a_group() {
    let nodes = vec![
        node(1, &["/m/./Show/ep1.mkv"], false, true),
        node(2, &["/m/Show/./ep2.mkv"], false, true),
    ];
    let groups = group_by_media(&nodes, &["/m/.".to_string()]);
    assert_eq!(groups.len(), 1);
    assert_eq!(groups[0].title, "Show");
    assert_eq!(inodes(&groups[0]), vec![1, 2]);
}
