use grep::Config;

#[test]
fn missing_query_is_a_configuration_error() {
    let args = vec!["prog".to_string()];
    assert_eq!(Err("didn't get a query"), Config::new(args, None).map(|_| ()));
}

#[test]
fn no_arguments_at_all_is_a_configuration_error() {
    assert_eq!(
        Err("didn't get a query"),
        Config::new(Vec::new(), None).map(|_| ())
    );
}

#[test]
fn missing_filename_is_a_configuration_error() {
    let args = vec!["prog".to_string(), "query".to_string()];
    assert_eq!(
        Err("didn't get a filename"),
        Config::new(args, None).map(|_| ())
    );
}

#[test]
fn both_arguments_build_a_configuration() {
    let args = vec![
        "prog".to_string(),
        "needle".to_string(),
        "haystack.txt".to_string(),
    ];
    let config = Config::new(args, None).unwrap();
    assert_eq!("needle", config.query);
    assert_eq!("haystack.txt", config.filename);
    assert!(config.case_sensitive);
}

#[test]
fn toggle_present_selects_case_insensitive() {
    let args = vec![
        "prog".to_string(),
        "needle".to_string(),
        "haystack.txt".to_string(),
    ];
    let config = Config::new(args, Some("yes".to_string())).unwrap();
    assert!(!config.case_sensitive);
}

#[test]
fn empty_toggle_value_still_selects_case_insensitive() {
    let args = vec![
        "prog".to_string(),
        "needle".to_string(),
        "haystack.txt".to_string(),
    ];
    let config = Config::new(args, Some(String::new())).unwrap();
    assert!(!config.case_sensitive);
}
