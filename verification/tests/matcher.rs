use globgrep::{build_matcher, search, Grep, Matcher, MatcherError};

fn config(ignore_case: bool, is_regexp: bool) -> Grep {
    Grep { filename: String::new(), query: String::new(), ignore_case, is_regexp }
}

#[test]
fn matcher_default() {
    let matcher = build_matcher(&Grep { filename: String::new(), query: String::new(), ignore_case: false, is_regexp: false },
                                "hello World").unwrap();

    assert!(!matcher.matches("hello"), "should not contain 'hello World'");
    assert!(!matcher.matches("hello 123 World"));
    assert!(!matcher.matches("hello world and more"), "should not contain 'hello World'");
    assert!(!matcher.matches("unknown"));

    assert!(matcher.matches("hello World and more"), "should contain 'hello World'");
}

#[test]
fn matcher_ignore_case() {
    let matcher = build_matcher(&Grep { filename: String::new(), query: String::new(), ignore_case: true, is_regexp: false },
                                "HellO World").unwrap();
    assert!(!matcher.matches("ello wo"));

    assert!(matcher.matches("hello world"));
    assert!(matcher.matches("prefix hEllo worLd postfix"));
}

#[test]
fn matcher_regexp() {
    let matcher = build_matcher(&Grep { filename: String::new(), query: String::new(), ignore_case: false, is_regexp: true },
                                r"He.*\sWorld").unwrap();
    assert!(!matcher.matches("ello wo"));
    assert!(!matcher.matches("hello world"));

    assert!(matcher.matches("Hello World"));
    assert!(matcher.matches("prefix Hello World postfix"));
}

#[test]
fn matcher_regexp_ignore_case() {
    let matcher = build_matcher(&Grep { filename: String::new(), query: String::new(), ignore_case: true, is_regexp: true },
                                r"He.*\sWorld").unwrap();
    assert!(!matcher.matches("ello wo"));

    assert!(matcher.matches("hello world"));
    assert!(matcher.matches("Hello World"));
    assert!(matcher.matches("prefix Hello World postfix"));
}

#[test]
fn folded_substring_ignores_case_only() {
    let matcher = build_matcher(&config(true, false), "HellO World").unwrap();
    assert!(matcher.matches("hello world"));
    assert!(matcher.matches("prefix hEllo worLd postfix"));
    assert!(matcher.matches("hello World and more"));
    assert!(!matcher.matches("hello  world"));
    assert!(!matcher.matches("helloworld"));
}

#[test]
fn regex_case_sensitive_is_not_anchored() {
    let matcher = build_matcher(&config(false, true), "He.*\\sWorld").unwrap();
    assert!(!matcher.matches("hello world"));
    assert!(matcher.matches("Hello World"));
    assert!(matcher.matches("prefix Hello World postfix"));
}

#[test]
fn regex_case_insensitive_uses_the_engine_folding() {
    let matcher = build_matcher(&config(true, true), "He.*\\sWorld").unwrap();
    assert!(matcher.matches("hello world"));
    assert!(matcher.matches("Hello World"));
}

#[test]
fn malformed_regex_fails_at_build_time() {
    let built = build_matcher(&config(false, true), "(unbalanced");
    assert!(matches!(built, Err(MatcherError::InvalidPattern(_))));
    let built = build_matcher(&config(true, true), "a)");
    assert!(matches!(built, Err(MatcherError::InvalidPattern(_))));
}

#[test]
fn malformed_regex_is_fine_as_a_plain_query() {
    let exact = build_matcher(&config(false, false), "(unbalanced").unwrap();
    assert!(exact.matches("an (unbalanced group"));
    assert!(!exact.matches("an (Unbalanced group"));
    let folded = build_matcher(&config(true, false), "(unbalanced").unwrap();
    assert!(folded.matches("an (UNbalanced group"));
}

#[test]
fn regex_mode_wins_over_substring_mode() {
    let matcher = build_matcher(&config(false, true), "a.c").unwrap();
    assert!(matches!(matcher, Matcher::Regex(_)));
    assert!(matcher.matches("abc"));
    assert!(!matcher.matches("a.C"));
    let matcher = build_matcher(&config(true, true), "a.c").unwrap();
    assert!(matches!(matcher, Matcher::Regex(_)));
    assert!(matcher.matches("xAbCx"));
}

#[test]
fn substring_modes_build_the_matching_variant() {
    match build_matcher(&config(false, false), "MiXed").unwrap() {
        Matcher::SubstringExact(query) => assert_eq!(query, "MiXed"),
        other => panic!("not an exact matcher: {:?}", other),
    }
    match build_matcher(&config(true, false), "MiXed").unwrap() {
        Matcher::SubstringFolded(query) => assert_eq!(query, "mixed"),
        other => panic!("not a folded matcher: {:?}", other),
    }
}

#[test]
fn only_the_flags_of_the_configuration_are_read() {
    let grep = Grep {
        filename: String::from("*.txt"),
        query: String::from("other"),
        ignore_case: false,
        is_regexp: false,
    };
    let matcher = build_matcher(&grep, "needle").unwrap();
    assert!(matcher.matches("a needle in the hay"));
    assert!(!matcher.matches("some other text"));
}

#[test]
fn empty_query_matches_every_line() {
    for (ignore_case, is_regexp) in [(false, false), (true, false), (false, true), (true, true)] {
        let matcher = build_matcher(&config(ignore_case, is_regexp), "").unwrap();
        assert!(matcher.matches(""));
        assert!(matcher.matches("anything"));
        assert!(matcher.matches("\u{e9}t\u{e9}"));
    }
}

#[test]
fn folding_is_unicode_lowercasing() {
    let matcher = build_matcher(&config(true, false), "\u{c9}T\u{c9}").unwrap();
    assert!(matcher.matches("un \u{e9}t\u{e9} chaud"));
    assert!(matcher.matches("UN \u{c9}T\u{c9} CHAUD"));
    assert!(!matcher.matches("un ete chaud"));
}

#[test]
fn exact_substring_respects_character_boundaries() {
    let matcher = build_matcher(&config(false, false), "\u{e9}").unwrap();
    assert!(matcher.matches("caf\u{e9}"));
    assert!(!matcher.matches("cafe"));
    assert!(!matcher.matches("caf\u{e8}"));
    let matcher = build_matcher(&config(false, false), "\u{65e5}\u{672c}").unwrap();
    assert!(matcher.matches("\u{65e5}\u{672c}\u{8a9e}"));
    assert!(!matcher.matches("\u{65e5}\u{8a9e}\u{672c}"));
}

#[test]
fn query_longer_than_the_line_does_not_match() {
    let matcher = build_matcher(&config(false, false), "longer than the line").unwrap();
    assert!(!matcher.matches("short"));
    assert!(!matcher.matches(""));
    assert!(matcher.matches("longer than the line"));
}

#[test]
fn match_at_either_end_of_the_line() {
    let matcher = build_matcher(&config(false, false), "ab").unwrap();
    assert!(matcher.matches("abxx"));
    assert!(matcher.matches("xxab"));
    assert!(matcher.matches("ab"));
    assert!(matcher.matches("aab"));
    assert!(!matcher.matches("a b"));
    assert!(!matcher.matches("ba"));
}

#[test]
fn from_compiled_keeps_the_expression_or_the_error() {
    let expression = match build_matcher(&config(false, true), "^a+$").unwrap() {
        Matcher::Regex(expression) => expression,
        other => panic!("not a regex matcher: {:?}", other),
    };
    match Matcher::from_compiled(Ok(expression)) {
        Ok(matcher) => {
            assert!(matches!(matcher, Matcher::Regex(_)));
            assert!(matcher.matches("aaa"));
            assert!(!matcher.matches("aab"));
            assert!(!matcher.matches("AAA"));
        }
        other => panic!("not a regex matcher: {:?}", other),
    }
    let failure = regex::Regex::new("(").unwrap_err();
    match Matcher::from_compiled(Err(failure.clone())) {
        Err(MatcherError::InvalidPattern(e)) => assert_eq!(e, failure),
        other => panic!("not an invalid pattern: {:?}", other),
    }
}

#[test]
fn build_error_is_the_error_of_the_engine() {
    let expected = regex::RegexBuilder::new("(unbalanced").build().unwrap_err();
    match build_matcher(&config(false, true), "(unbalanced") {
        Err(MatcherError::InvalidPattern(e)) => assert_eq!(e, expected),
        other => panic!("not an invalid pattern: {:?}", other),
    }
}

#[test]
fn regex_is_compiled_with_the_default_options() {
    // White space in a pattern stands for itself, `^` and `$` match at the
    // ends of the line only, and classes know Unicode.
    let spaced = build_matcher(&config(false, true), "a b").unwrap();
    assert!(spaced.matches("a b"));
    assert!(!spaced.matches("ab"));
    let anchored = build_matcher(&config(false, true), "^b$").unwrap();
    assert!(anchored.matches("b"));
    assert!(!anchored.matches("a\rb"));
    let word = build_matcher(&config(false, true), r"^\w+$").unwrap();
    assert!(word.matches("\u{e9}t\u{e9}"));
}

#[test]
fn matcher_search_numbers_the_lines_it_accepts() {
    let matcher = build_matcher(&config(false, false), "world").unwrap();
    assert_eq!(matcher.search("hello\nworld"), vec![(2, "world")]);
    assert_eq!(matcher.search("world\r\nhello\nmy world\n"), vec![(1, "world"), (3, "my world")]);
    assert_eq!(matcher.search("hello"), vec![]);
    assert_eq!(matcher.search(""), vec![]);
}

#[test]
fn matcher_search_agrees_with_search_by_closure() {
    let text = "Alpha\nbeta\r\nALPHA beta\n\ngamma";
    for (ignore_case, is_regexp, query) in
        [(false, false, "Alpha"), (true, false, "Alpha"), (false, true, "^.*a$"), (true, true, "^a")]
    {
        let matcher = build_matcher(&config(ignore_case, is_regexp), query).unwrap();
        assert_eq!(matcher.search(text), search(text, |line: &str| matcher.matches(line)));
    }
}

#[test]
fn a_matcher_can_be_used_on_many_texts() {
    let matcher = build_matcher(&config(true, false), "Needle").unwrap();
    let first = search("hay\nNEEDLE here\nhay", |line: &str| matcher.matches(line));
    let second = search("a needle\nno\nanother nEEdLe", |line: &str| matcher.matches(line));
    assert_eq!(first, vec![(2, "NEEDLE here")]);
    assert_eq!(second, vec![(1, "a needle"), (3, "another nEEdLe")]);
}

fn shareable<T: Send + Sync>(_: &T) {}

#[test]
fn a_matcher_can_be_shared_between_threads() {
    for (ignore_case, is_regexp) in [(false, false), (true, false), (false, true), (true, true)] {
        let matcher = build_matcher(&config(ignore_case, is_regexp), "query").unwrap();
        shareable(&matcher);
        assert_eq!(matcher.matches("a query"), matcher.matches("a query"));
    }
}
