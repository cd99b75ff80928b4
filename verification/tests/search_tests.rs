use grep::{contains_substring, run, search, search_case_insensitive, split_lines, Config};

#[test]
fn case_sensitive() {
    let query = "a";
    let contents = "foo\nbar\nbaz";
    assert_eq!(vec!["bar", "baz"], search(query, contents));
}

#[test]
fn case_insensitive() {
    let query = "foo";
    let contents = "Foo\nBar\nBaz";
    assert_eq!(vec!["Foo"], search_case_insensitive(query, contents));
}

#[test]
fn empty_query_returns_every_line() {
    let contents = "foo\nbar\nbaz";
    assert_eq!(vec!["foo", "bar", "baz"], search("", contents));
}

#[test]
fn empty_query_on_empty_text() {
    assert_eq!(Vec::<&str>::new(), search("", ""));
}

#[test]
fn no_match_is_success_not_error() {
    let contents = "foo\nbar";
    assert_eq!(Vec::<&str>::new(), search("xyz", contents));
    assert_eq!(Vec::<&str>::new(), search_case_insensitive("xyz", contents));
}

#[test]
fn output_keeps_source_order() {
    let contents = "abc\nxyz\nalpha\nbravo";
    assert_eq!(vec!["abc", "alpha", "bravo"], search("a", contents));
}

#[test]
fn case_insensitive_output_contains_sensitive_output() {
    let query = "Ba";
    let contents = "Bar\nbar\nBaz";
    let sensitive = search(query, contents);
    let insensitive = search_case_insensitive(query, contents);
    assert_eq!(vec!["Bar", "Baz"], sensitive);
    assert_eq!(vec!["Bar", "bar", "Baz"], insensitive);
    let mut it = insensitive.iter();
    for line in &sensitive {
        assert!(it.any(|l| l == line));
    }
}

#[test]
fn case_insensitive_keeps_original_casing() {
    let query = "rUsT";
    let contents = "Rust:\nTrust me.\nsafe, fast, productive.";
    assert_eq!(
        vec!["Rust:", "Trust me."],
        search_case_insensitive(query, contents)
    );
}

#[test]
fn uppercase_query_matches_lowercase_line() {
    assert_eq!(vec!["foo"], search_case_insensitive("FOO", "foo"));
}

#[test]
fn split_lines_drops_trailing_newline() {
    assert_eq!(vec!["a", "b"], split_lines("a\nb\n"));
}

#[test]
fn split_lines_empty_text_has_no_lines() {
    assert_eq!(Vec::<&str>::new(), split_lines(""));
}

#[test]
fn split_lines_strips_carriage_return_before_newline() {
    assert_eq!(vec!["a", "b"], split_lines("a\r\nb"));
}

#[test]
fn split_lines_keeps_lone_trailing_carriage_return() {
    assert_eq!(vec!["a\r"], split_lines("a\r"));
}

#[test]
fn split_lines_keeps_empty_lines_between_newlines() {
    assert_eq!(vec!["a", "", "b"], split_lines("a\n\nb"));
}

#[test]
fn contains_substring_examples() {
    assert!(contains_substring("hello", "ell"));
    assert!(contains_substring("hello", ""));
    assert!(contains_substring("hello", "hello"));
    assert!(!contains_substring("hi", "hello"));
    assert!(!contains_substring("hello", "Hello"));
}

#[test]
fn final_sigma_folding_is_not_always_broader() {
    // "ΑΣ" lowercases to "ας" (word-final sigma) but inside "ΑΣX" the sigma
    // lowercases to "σ", so this case-sensitive match disappears after
    // folding: folding broadens matches only where the lowercase mapping is
    // context-free.
    assert_eq!(vec!["ΑΣX"], search("ΑΣ", "ΑΣX"));
    assert_eq!(Vec::<&str>::new(), search_case_insensitive("ΑΣ", "ΑΣX"));
}

#[test]
fn run_dispatches_on_case_sensitivity() {
    let args = vec![
        "prog".to_string(),
        "foo".to_string(),
        "poem.txt".to_string(),
    ];
    let sensitive = Config::new(args.clone(), None).unwrap();
    assert_eq!(Vec::<&str>::new(), run(&sensitive, "Foo\nBar"));
    let insensitive = Config::new(args, Some("1".to_string())).unwrap();
    assert_eq!(vec!["Foo"], run(&insensitive, "Foo\nBar"));
}
