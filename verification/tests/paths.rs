use ratatidy::paths::{is_under, join, top_component};

#[test]
fn a_file_lies_under_its_root() {
    assert!(is_under("/d/Show/ep1.mkv", "/d"));
    assert!(is_under("/d/Show/ep1.mkv", "/d/"));
    assert!(is_under("/d", "/d"));
    assert!(!is_under("/downloads/x", "/d"));
    assert!(!is_under("/m/Show/ep1.mkv", "/d"));
    assert!(!is_under("d/Show", "/d"));
}

#[test]
fn the_top_component_is_the_first_name_below_the_root() {
    assert_eq!(top_component("/d/Show/ep1.mkv", "/d"), Some("Show".to_string()));
    assert_eq!(top_component("/d//Show/ep1.mkv", "/d/"), Some("Show".to_string()));
    assert_eq!(top_component("/d/file.mkv", "/d"), Some("file.mkv".to_string()));
    assert_eq!(top_component("/d", "/d"), None);
    assert_eq!(top_component("/m/Show", "/d"), None);
}

#[test]
fn join_adds_one_separator() {
    assert_eq!(join("/d", "Show"), "/d/Show");
    assert_eq!(join("/d/", "Show"), "/d/Show");
    assert_eq!(join("", "Show"), "Show");
}

#[test]
fn everything_absolute_lies_under_the_root_of_the_file_system() {
    assert!(is_under("/a/b", "/"));
    assert!(is_under("/", "/"));
    assert!(!is_under("a/b", "/"));
    assert_eq!(top_component("/a/b", "/"), Some("a".to_string()));
    assert_eq!(top_component("/", "/"), None);
    assert_eq!(join("/", "a"), "/a");
}

#[test]
fn relative_paths_are_compared_by_their_names() {
    assert!(is_under("a/b/c", "a/b"));
    assert!(is_under("a//b/", "a/b"));
    assert!(!is_under("a/bc", "a/b"));
    assert!(!is_under("/a/b", "a"));
    assert_eq!(top_component("a/b/c", "a"), Some("b".to_string()));
}

#[test]
fn every_path_lies_under_the_empty_path() {
    assert!(is_under("a/b", ""));
    assert!(is_under("/a/b", ""));
    assert!(is_under("", ""));
    assert!(!is_under("", "a"));
    assert_eq!(top_component("a/b", ""), Some("a".to_string()));
    assert_eq!(top_component("/a/b", ""), Some("/".to_string()));
    assert_eq!(top_component("", ""), None);
    assert_eq!(join("", "/"), "/");
}

#[test]
fn a_dot_inside_a_path_is_left_out() {
    assert!(is_under("/d/./Show/a", "/d/Show"));
    assert!(is_under("/d/Show/a", "/d/./Show/."));
    assert!(is_under("/./d", "/d"));
    assert_eq!(top_component("/m/./Show/x", "/m"), Some("Show".to_string()));
    assert_eq!(top_component("/m/Show/./x", "/m/Show"), Some("x".to_string()));
    assert_eq!(top_component("/m/.", "/m"), None);
    assert_eq!(top_component("a/./b", "a"), Some("b".to_string()));
}

#[test]
fn a_dot_that_begins_a_path_is_kept() {
    assert!(is_under("./a/b", "./a"));
    assert!(is_under("./a/./b", "."));
    assert!(!is_under("./a", "a"));
    assert!(!is_under("a", "."));
    assert_eq!(top_component("./a", ""), Some(".".to_string()));
    assert_eq!(top_component("./a", "."), Some("a".to_string()));
    assert_eq!(top_component("././a", "."), Some("a".to_string()));
}

#[test]
fn two_dots_are_a_name_like_any_other() {
    assert!(!is_under("/d/x/../Show/a", "/d/Show"));
    assert!(is_under("/d/../x", "/d/.."));
    assert_eq!(top_component("/d/../x", "/d"), Some("..".to_string()));
    assert_eq!(top_component("/d/.../x", "/d"), Some("...".to_string()));
    assert_eq!(top_component("/d/.a/x", "/d"), Some(".a".to_string()));
}

#[test]
fn paths_lie_under_roots_as_the_standard_library_has_it() {
    let paths = [
        "", "/", ".", "..", "a", "/a", "a/b", "/a/b", "/a//b/", "/a/./b", "./a", "./a/./b", "/./a",
        "a/.", "/a/..", "/a/../b", "/a/b/c.mkv", "/ab", "/a/.b", "/a/...", ".//.", "/média/é",
    ];
    for p in paths {
        for root in paths {
            let expected = std::path::Path::new(p).starts_with(root);
            assert_eq!(is_under(p, root), expected, "{:?} under {:?}", p, root);
            let top = std::path::Path::new(p)
                .strip_prefix(root)
                .ok()
                .and_then(|rest| rest.components().next().map(|c| c.as_os_str().to_os_string()))
                .map(|name| name.to_string_lossy().into_owned());
            assert_eq!(top_component(p, root), top, "{:?} below {:?}", p, root);
        }
    }
}

#[test]
fn names_may_hold_any_character_but_the_separator() {
    assert!(is_under("/média/Séries/épisode 1.mkv", "/média"));
    assert_eq!(
        top_component("/média/Séries (2010)/é.mkv", "/média"),
        Some("Séries (2010)".to_string())
    );
    assert_eq!(join("/média", "日本"), "/média/日本");
}
