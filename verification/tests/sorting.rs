use ratatidy::app::{FilterMode, SortBy, SortOrder};
use ratatidy::grouping::{Group, GroupKind};
use ratatidy::scanner::{FileKey, FileNode, Timestamp};
use ratatidy::sorting::{
    arrange, arrange_marked, is_time_before, mark_shown, newest_of, passes_filter, size_of,
};

fn node(size: u64, linked: bool, modified: Option<i64>) -> FileNode {
    FileNode {
        key: FileKey { dev: 1, inode: size },
        size,
        nlink: 1,
        paths: vec!["/m/x".to_string()],
        has_downloads: linked,
        has_media: true,
        torrent_hash: None,
        is_seeding: false,
        modified: modified.map(|secs| Timestamp { secs, nanos: 0 }),
    }
}

fn group(title: &str, nodes: Vec<FileNode>) -> Group {
    Group {
        kind: GroupKind::Movie,
        title: title.to_string(),
        media_container: Some(format!("/m/{}", title)),
        downloads_container: None,
        nodes,
    }
}

fn sample() -> Vec<Group> {
    vec![
        group("Charlie", vec![node(10, true, Some(30))]),
        group("alpha", vec![node(30, false, Some(10)), node(5, true, None)]),
        group("Bravo", vec![node(20, true, Some(20)), node(15, true, Some(25))]),
        group("delta", vec![]),
    ]
}

#[test]
fn sizes_add_up() {
    assert_eq!(size_of(&group("g", vec![])), 0);
    assert_eq!(size_of(&group("g", vec![node(30, false, None), node(5, true, None)])), 35);
    let big = group("g", vec![node(u64::MAX, false, None), node(u64::MAX, true, None)]);
    assert_eq!(size_of(&big), 2 * (u64::MAX as u128));
}

#[test]
fn the_newest_time_of_a_group_is_its_latest() {
    assert_eq!(newest_of(&group("g", vec![])), None);
    assert_eq!(newest_of(&group("g", vec![node(1, true, None)])), None);
    let g = group("g", vec![node(1, true, Some(20)), node(2, true, None), node(3, true, Some(25))]);
    assert_eq!(newest_of(&g), Some(Timestamp { secs: 25, nanos: 0 }));
}

#[test]
fn no_time_is_before_every_time() {
    let t = |secs, nanos| Some(Timestamp { secs, nanos });
    assert!(is_time_before(None, t(0, 0)));
    assert!(is_time_before(None, t(-5, 0)));
    assert!(!is_time_before(None, None));
    assert!(!is_time_before(t(0, 0), None));
    assert!(is_time_before(t(1, 5), t(1, 6)));
    assert!(is_time_before(t(1, 999_999_999), t(2, 0)));
    assert!(is_time_before(t(-2, 0), t(-1, 0)));
    assert!(!is_time_before(t(1, 5), t(1, 5)));
    assert!(!is_time_before(t(2, 0), t(1, 999_999_999)));
}

#[test]
fn the_filters_go_by_the_links_of_the_records() {
    let linked = group("g", vec![node(1, true, None), node(2, true, None)]);
    let mixed = group("g", vec![node(1, true, None), node(2, false, None)]);
    let empty = group("g", vec![]);
    assert!(passes_filter(&linked, FilterMode::All));
    assert!(passes_filter(&linked, FilterMode::Hardlinked));
    assert!(!passes_filter(&linked, FilterMode::Orphans));
    assert!(passes_filter(&mixed, FilterMode::Orphans));
    assert!(!passes_filter(&mixed, FilterMode::Hardlinked));
    assert!(passes_filter(&empty, FilterMode::Hardlinked));
    assert!(!passes_filter(&empty, FilterMode::Orphans));
}

#[test]
fn groups_are_sorted_by_name() {
    let groups = sample();
    let order = arrange(&groups, "", FilterMode::All, SortBy::Name, SortOrder::Ascending);
    assert_eq!(order, vec![2, 0, 1, 3]);
    let order = arrange(&groups, "", FilterMode::All, SortBy::Name, SortOrder::Descending);
    assert_eq!(order, vec![3, 1, 0, 2]);
}

#[test]
fn groups_are_sorted_by_size() {
    let groups = sample();
    let order = arrange(&groups, "", FilterMode::All, SortBy::Size, SortOrder::Ascending);
    assert_eq!(order, vec![3, 0, 2, 1]);
    let order = arrange(&groups, "", FilterMode::All, SortBy::Size, SortOrder::Descending);
    assert_eq!(order, vec![1, 2, 0, 3]);
}

#[test]
fn groups_are_sorted_by_date() {
    let groups = sample();
    let order = arrange(&groups, "", FilterMode::All, SortBy::DateAdded, SortOrder::Ascending);
    assert_eq!(order, vec![3, 1, 2, 0]);
    let order = arrange(&groups, "", FilterMode::All, SortBy::DateAdded, SortOrder::Descending);
    assert_eq!(order, vec![0, 2, 1, 3]);
}

#[test]
fn equal_sizes_are_sorted_by_name() {
    let groups = vec![
        group("b", vec![node(10, true, None)]),
        group("a", vec![node(10, true, None)]),
        group("c", vec![node(5, true, None)]),
    ];
    let order = arrange(&groups, "", FilterMode::All, SortBy::Size, SortOrder::Ascending);
    assert_eq!(order, vec![2, 1, 0]);
    let order = arrange(&groups, "", FilterMode::All, SortBy::Size, SortOrder::Descending);
    assert_eq!(order, vec![0, 1, 2]);
}

#[test]
fn groups_with_the_same_key_keep_their_order() {
    let groups = vec![
        group("same", vec![node(1, true, None)]),
        group("other", vec![node(2, true, None)]),
        group("same", vec![node(3, true, None)]),
    ];
    let order = arrange(&groups, "", FilterMode::All, SortBy::Name, SortOrder::Ascending);
    assert_eq!(order, vec![1, 0, 2]);
    let order = arrange(&groups, "", FilterMode::All, SortBy::Name, SortOrder::Descending);
    assert_eq!(order, vec![0, 2, 1]);
}

#[test]
fn the_order_is_that_of_a_stable_sort() {
    let groups = sample();
    for by in [SortBy::Name, SortBy::Size, SortBy::DateAdded] {
        let mut expected: Vec<usize> = (0..groups.len()).collect();
        expected.sort_by(|&i, &j| {
            let (a, b) = (&groups[i], &groups[j]);
            let title = a.title.cmp(&b.title);
            match by {
                SortBy::Name => title,
                SortBy::Size => {
                    let sa: u64 = a.nodes.iter().map(|n| n.size).sum();
                    let sb: u64 = b.nodes.iter().map(|n| n.size).sum();
                    sa.cmp(&sb).then(title)
                }
                SortBy::DateAdded => {
                    let da = a.nodes.iter().filter_map(|n| n.modified.map(|t| t.secs)).max();
                    let db = b.nodes.iter().filter_map(|n| n.modified.map(|t| t.secs)).max();
                    da.cmp(&db).then(title)
                }
            }
        });
        assert_eq!(arrange(&groups, "", FilterMode::All, by, SortOrder::Ascending), expected);
    }
}

#[test]
fn the_search_ignores_case() {
    let groups = sample();
    let order = arrange(&groups, "BRAVO", FilterMode::All, SortBy::Name, SortOrder::Ascending);
    assert_eq!(order, vec![2]);
    let order = arrange(&groups, "a", FilterMode::All, SortBy::Name, SortOrder::Ascending);
    assert_eq!(order, vec![2, 0, 1, 3]);
    let order = arrange(&groups, "AL", FilterMode::All, SortBy::Name, SortOrder::Ascending);
    assert_eq!(order, vec![1]);
    let order = arrange(&groups, "zulu", FilterMode::All, SortBy::Name, SortOrder::Ascending);
    assert!(order.is_empty());
}

#[test]
fn the_filter_narrows_the_listing() {
    let groups = sample();
    let order = arrange(&groups, "", FilterMode::Orphans, SortBy::Name, SortOrder::Ascending);
    assert_eq!(order, vec![1]);
    let order = arrange(&groups, "", FilterMode::Hardlinked, SortBy::Name, SortOrder::Ascending);
    assert_eq!(order, vec![2, 0, 3]);
    let order = arrange(&groups, "r", FilterMode::Hardlinked, SortBy::Size, SortOrder::Descending);
    assert_eq!(order, vec![2, 0]);
}

#[test]
fn no_groups_give_an_empty_listing() {
    assert!(arrange(&[], "", FilterMode::All, SortBy::Name, SortOrder::Ascending).is_empty());
}

#[test]
fn marked_groups_are_listed_in_order() {
    let groups = sample();
    let all = [true, true, true, true];
    assert_eq!(arrange_marked(&groups, &all, SortBy::Name, SortOrder::Ascending), vec![2, 0, 1, 3]);
    let some = [true, false, true, false];
    assert_eq!(arrange_marked(&groups, &some, SortBy::Name, SortOrder::Ascending), vec![2, 0]);
    assert_eq!(arrange_marked(&groups, &some, SortBy::Size, SortOrder::Descending), vec![2, 0]);
    let none = [false; 4];
    assert!(arrange_marked(&groups, &none, SortBy::Name, SortOrder::Ascending).is_empty());
}

#[test]
fn a_group_beyond_the_marks_is_not_listed() {
    let groups = sample();
    assert_eq!(arrange_marked(&groups, &[true, true], SortBy::Name, SortOrder::Ascending), vec![
        0, 1
    ]);
    assert!(arrange_marked(&groups, &[], SortBy::Name, SortOrder::Ascending).is_empty());
    let many = [true; 9];
    assert_eq!(arrange_marked(&groups, &many, SortBy::Name, SortOrder::Ascending), vec![
        2, 0, 1, 3
    ]);
}

#[test]
fn groups_are_marked_by_query_and_filter() {
    let groups = sample();
    assert_eq!(mark_shown(&groups, "", FilterMode::All), vec![true, true, true, true]);
    assert_eq!(mark_shown(&groups, "L", FilterMode::All), vec![true, true, false, true]);
    assert_eq!(mark_shown(&groups, "", FilterMode::Orphans), vec![false, true, false, false]);
    assert_eq!(mark_shown(&groups, "ÉTÉ", FilterMode::All), vec![false, false, false, false]);
    let accented = vec![group("Été indien", vec![])];
    assert_eq!(mark_shown(&accented, "ÉTÉ", FilterMode::All), vec![true]);
    assert_eq!(mark_shown(&accented, "été I", FilterMode::Hardlinked), vec![true]);
}
