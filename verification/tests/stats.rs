use ratatidy::grouping::{Group, GroupKind};
use ratatidy::scanner::{FileKey, FileNode};
use ratatidy::stats::{count_linked, saved_size_of, totals};

fn node(size: u64, has_downloads: bool, has_media: bool) -> FileNode {
    FileNode {
        key: FileKey { dev: 1, inode: size },
        size,
        nlink: 1,
        paths: vec!["/m/x".to_string()],
        has_downloads,
        has_media,
        torrent_hash: None,
        is_seeding: false,
        modified: None,
    }
}

fn group(nodes: Vec<FileNode>) -> Group {
    Group {
        kind: GroupKind::Movie,
        title: "g".to_string(),
        media_container: Some("/m/g".to_string()),
        downloads_container: None,
        nodes,
    }
}

#[test]
fn linked_records_are_counted() {
    assert_eq!(count_linked(&group(vec![])), 0);
    let g = group(vec![
        node(10, true, true),
        node(20, true, false),
        node(30, false, true),
        node(40, true, true),
        node(50, false, false),
    ]);
    assert_eq!(count_linked(&g), 2);
    assert_eq!(saved_size_of(&g), 50);
}

#[test]
fn the_figures_of_a_view_add_up_over_its_groups() {
    let groups = vec![
        group(vec![node(10, true, true), node(20, true, false)]),
        group(vec![]),
        group(vec![node(30, false, true), node(40, true, true)]),
    ];
    let figures = totals(&groups).expect("figures that fit");
    assert_eq!(figures.files, 4);
    assert_eq!(figures.size, 100);
    assert_eq!(figures.saved, 50);
    let nothing = totals(&[]).expect("figures that fit");
    assert_eq!((nothing.files, nothing.size, nothing.saved), (0, 0, 0));
}

#[test]
fn large_sizes_do_not_wrap() {
    let groups = vec![
        group(vec![node(u64::MAX, true, true), node(u64::MAX, true, true)]),
        group(vec![node(u64::MAX, false, true)]),
    ];
    let figures = totals(&groups).expect("figures that fit");
    assert_eq!(figures.size, 3 * (u64::MAX as u128));
    assert_eq!(figures.saved, 2 * (u64::MAX as u128));
}
