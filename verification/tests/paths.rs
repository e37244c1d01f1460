use globgrep::{get_files, get_paths};

#[test]
fn get_files_keeps_the_regular_files_in_order() {
    let entries = vec![("a.txt", true), ("dir", false), ("b.txt", true), ("link", false), ("c.txt", true)];
    assert_eq!(get_files(entries), vec!["a.txt", "b.txt", "c.txt"]);
}

#[test]
fn get_files_of_nothing_is_nothing() {
    assert_eq!(get_files(Vec::<(String, bool)>::new()), Vec::<String>::new());
    assert_eq!(get_files(vec![("dir", false)]), Vec::<&str>::new());
}

#[test]
fn get_files_works_on_real_paths() {
    let entries = vec![
        (std::path::PathBuf::from("src"), false),
        (std::path::PathBuf::from("src/lib.rs"), true),
    ];
    assert_eq!(get_files(entries), vec![std::path::PathBuf::from("src/lib.rs")]);
}

#[test]
fn get_paths_returns_every_path_when_none_failed() {
    let entries: Vec<Result<&str, String>> = vec![Ok("a"), Ok("b"), Ok("c")];
    assert_eq!(get_paths(entries), Ok(vec!["a", "b", "c"]));
    assert_eq!(get_paths(Vec::<Result<&str, String>>::new()), Ok(vec![]));
}

#[test]
fn get_paths_returns_the_first_failure() {
    let entries: Vec<Result<&str, u32>> = vec![Ok("a"), Err(1), Ok("b"), Err(2)];
    assert_eq!(get_paths(entries), Err(1));
    let entries: Vec<Result<&str, u32>> = vec![Err(7)];
    assert_eq!(get_paths(entries), Err(7));
}
