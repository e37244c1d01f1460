use globgrep::search;

#[test]
fn search_finds_second_line() {
    assert_eq!(search("hello\nworld", |s: &str| s == "world").into_iter().next().unwrap(), (2, "world"));
}

#[test]
fn search_second_line_is_the_only_result() {
    assert_eq!(search("hello\nworld", |s: &str| s == "world"), vec![(2, "world")]);
}

#[test]
fn always_true_returns_every_line_numbered_from_one() {
    let found = search("alpha\nbeta\n\ngamma", |_: &str| true);
    assert_eq!(found, vec![(1, "alpha"), (2, "beta"), (3, ""), (4, "gamma")]);
}

#[test]
fn always_false_returns_nothing() {
    assert!(search("alpha\nbeta\n\ngamma", |_: &str| false).is_empty());
    assert!(search("", |_: &str| false).is_empty());
}

#[test]
fn no_match_is_an_empty_result() {
    assert_eq!(search("one\ntwo", |s: &str| s == "three"), vec![]);
}

#[test]
fn empty_text_has_no_lines() {
    assert!(search("", |_: &str| true).is_empty());
}

#[test]
fn final_terminator_adds_no_line() {
    assert_eq!(search("a\nb\n", |_: &str| true), vec![(1, "a"), (2, "b")]);
    assert_eq!(search("a\nb", |_: &str| true), vec![(1, "a"), (2, "b")]);
}

#[test]
fn lone_line_feed_is_one_empty_line() {
    assert_eq!(search("\n", |_: &str| true), vec![(1, "")]);
    assert_eq!(search("\n\n", |_: &str| true), vec![(1, ""), (2, "")]);
}

#[test]
fn carriage_return_line_feed_ends_a_line() {
    assert_eq!(search("a\r\nb\r\n", |_: &str| true), vec![(1, "a"), (2, "b")]);
    assert_eq!(search("\r\n", |_: &str| true), vec![(1, "")]);
}

#[test]
fn only_one_carriage_return_belongs_to_the_terminator() {
    assert_eq!(search("a\r\r\nb", |_: &str| true), vec![(1, "a\r"), (2, "b")]);
}

#[test]
fn carriage_return_without_line_feed_stays_in_the_line() {
    assert_eq!(search("a\rb\nc\r", |_: &str| true), vec![(1, "a\rb"), (2, "c\r")]);
}

#[test]
fn lines_agree_with_the_standard_library() {
    let texts = [
        "",
        "\n",
        "\r",
        "\r\n",
        "a",
        "a\n",
        "a\r\n",
        "a\n\nb",
        "a\r\n\r\nb\r",
        " lead\n trail \n\ttab",
        "h\u{e9}llo\nw\u{f6}rld\r\n\u{65e5}\u{672c}\u{8a9e}\n\u{1f600}",
        "\u{85}x\u{2028}y\n\u{a}",
    ];
    for text in texts {
        let expected: Vec<(usize, &str)> =
            text.lines().enumerate().map(|(i, line)| (i + 1, line)).collect();
        assert_eq!(search(text, |_: &str| true), expected);
    }
}

#[test]
fn results_keep_the_order_and_the_numbers_of_the_text() {
    let found = search("x1\ny\nx2\ny\nx3", |s: &str| s.starts_with('x'));
    assert_eq!(found, vec![(1, "x1"), (3, "x2"), (5, "x3")]);
}

#[test]
fn equal_lines_are_all_reported() {
    let found = search("same\nsame\nother\nsame", |s: &str| s == "same");
    assert_eq!(found, vec![(1, "same"), (2, "same"), (4, "same")]);
}

#[test]
fn found_text_is_not_trimmed_or_folded() {
    let found = search("  MiXed Case  \nplain", |s: &str| s.to_lowercase().contains("mixed"));
    assert_eq!(found, vec![(1, "  MiXed Case  ")]);
}

#[test]
fn found_lines_borrow_from_the_text() {
    let text = String::from("first\nsecond\nthird");
    let found = search(&text, |s: &str| s.len() > 5);
    let base = text.as_ptr() as usize;
    assert_eq!(found.len(), 1);
    assert_eq!(found[0].1.as_ptr() as usize - base, 6);
}
