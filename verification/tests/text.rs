use ratatidy::text::{
    blank, chars_of, clone_opt_text, clone_texts, contains, holds_text, is_text_before,
    piece_spans, same_text, split_list, trim,
};

#[test]
fn the_characters_of_a_string_come_in_order() {
    assert_eq!(chars_of("aé/"), vec!['a', 'é', '/']);
    assert!(chars_of("").is_empty());
}

#[test]
fn strings_are_the_same_if_their_characters_are() {
    assert!(same_text("abc", "abc"));
    assert!(same_text("", ""));
    assert!(!same_text("abc", "abd"));
    assert!(!same_text("abc", "ab"));
    assert!(!same_text("", "a"));
}

#[test]
fn a_substring_is_found_anywhere() {
    assert!(contains("stalledUP", "UP"));
    assert!(contains("UPstalled", "UP"));
    assert!(contains("aUPb", "UP"));
    assert!(contains("abc", "abc"));
    assert!(contains("abc", ""));
    assert!(contains("", ""));
    assert!(!contains("", "a"));
    assert!(!contains("ab", "abc"));
    assert!(!contains("aXbc", "abc"));
    assert!(contains("aab", "ab"));
    assert!(contains("héllo wörld", "o wö"));
}

#[test]
fn strings_are_ordered_by_their_first_difference() {
    assert!(is_text_before("a", "b"));
    assert!(!is_text_before("b", "a"));
    assert!(is_text_before("ab", "abc"));
    assert!(!is_text_before("abc", "ab"));
    assert!(!is_text_before("abc", "abc"));
    assert!(is_text_before("", "a"));
    assert!(!is_text_before("", ""));
    assert!(is_text_before("Zebra", "apple"));
    assert!(is_text_before("abd", "abe"));
    assert!(is_text_before("z", "é"));
}

#[test]
fn the_order_of_strings_is_that_of_the_standard_library() {
    let words = ["", "a", "A", "ab", "abc", "b", "é", "z", "Zebra", "apple", "日本", "abd"];
    for x in words {
        for y in words {
            assert_eq!(is_text_before(x, y), x < y, "{:?} {:?}", x, y);
        }
    }
}

#[test]
fn a_string_is_found_in_a_list() {
    let list = vec!["a".to_string(), "b".to_string()];
    assert!(holds_text(&list, "b"));
    assert!(!holds_text(&list, "c"));
    assert!(!holds_text(&Vec::new(), "a"));
}

#[test]
fn copies_hold_the_same_strings() {
    let list = vec!["a".to_string(), "b".to_string()];
    assert_eq!(clone_texts(&list), list);
    assert_eq!(clone_opt_text(&Some("x".to_string())), Some("x".to_string()));
    assert_eq!(clone_opt_text(&None), None);
}

#[test]
fn white_space_is_what_the_standard_library_takes_for_it() {
    for code in 0..=0x10_ffffu32 {
        if let Some(c) = char::from_u32(code) {
            assert_eq!(blank(c), c.is_whitespace(), "{:?}", c);
        }
    }
}

#[test]
fn trimming_takes_the_white_space_off_both_ends() {
    assert_eq!(trim("  /d/Show \t\n"), "/d/Show");
    assert_eq!(trim("a b"), "a b");
    assert_eq!(trim(""), "");
    assert_eq!(trim(" \u{3000}\u{a0} "), "");
    assert_eq!(trim("x"), "x");
    for s in ["", " ", " a", "a ", " a b ", "\u{2003}é\u{85}", "\t\r\n"] {
        assert_eq!(trim(s), s.trim());
    }
}

#[test]
fn a_list_is_split_at_its_commas() {
    assert_eq!(split_list("/m/movies, /m/tv"), vec!["/m/movies".to_string(), "/m/tv".to_string()]);
    assert_eq!(split_list("  /m  "), vec!["/m".to_string()]);
    assert_eq!(split_list("a,,b,"), vec!["a".to_string(), "b".to_string()]);
    assert_eq!(split_list(""), Vec::<String>::new());
    assert_eq!(split_list("  "), Vec::<String>::new());
    assert_eq!(split_list(","), Vec::<String>::new());
    assert_eq!(split_list("a, ,b"), vec!["a".to_string(), "".to_string(), "b".to_string()]);
}

#[test]
fn a_list_is_split_as_by_the_standard_library() {
    for input in ["", "a", " a , b ", ",a,,b,", " , ", "x y,z", "\u{a0}a\u{a0},\tb\n", ",,"] {
        let expected: Vec<String> = input
            .trim()
            .split(',')
            .filter(|s| !s.is_empty())
            .map(|s| s.trim().to_string())
            .collect();
        assert_eq!(split_list(input), expected, "{:?}", input);
    }
}

#[test]
fn pieces_are_found_between_separators() {
    let chars: Vec<char> = "/a//bc/".chars().collect();
    assert_eq!(piece_spans(&chars, '/'), vec![(1, 2), (4, 6)]);
    let chars: Vec<char> = "abc".chars().collect();
    assert_eq!(piece_spans(&chars, ','), vec![(0, 3)]);
    assert!(piece_spans(&Vec::new(), ',').is_empty());
}
