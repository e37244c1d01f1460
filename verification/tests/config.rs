use globgrep::{ConfigError, Grep};

fn args(list: &[&str]) -> Vec<String> {
    list.iter().map(|s| s.to_string()).collect()
}

#[test]
fn configuration_takes_query_and_pattern_from_the_arguments() {
    let grep = Grep::construct_grep_from_args(&args(&["prog", "needle", "*.txt"]), false, false).unwrap();
    assert_eq!(grep.query, "needle");
    assert_eq!(grep.filename, "*.txt");
    assert!(!grep.ignore_case);
    assert!(!grep.is_regexp);
}

#[test]
fn configuration_carries_the_mode_flags() {
    let grep = Grep::construct_grep_from_args(&args(&["prog", "q", "p"]), true, false).unwrap();
    assert!(grep.ignore_case && !grep.is_regexp);
    let grep = Grep::construct_grep_from_args(&args(&["prog", "q", "p"]), false, true).unwrap();
    assert!(!grep.ignore_case && grep.is_regexp);
    let grep = Grep::construct_grep_from_args(&args(&["prog", "q", "p"]), true, true).unwrap();
    assert!(grep.ignore_case && grep.is_regexp);
}

#[test]
fn further_arguments_are_ignored() {
    let grep = Grep::construct_grep_from_args(&args(&["prog", "q", "p", "extra", "more"]), false, false).unwrap();
    assert_eq!(grep.query, "q");
    assert_eq!(grep.filename, "p");
}

#[test]
fn missing_arguments_are_rejected() {
    for list in [&[][..], &["prog"][..], &["prog", "query"][..]] {
        let built = Grep::construct_grep_from_args(&args(list), true, true);
        assert_eq!(built.unwrap_err(), ConfigError::MissingArguments);
    }
}
