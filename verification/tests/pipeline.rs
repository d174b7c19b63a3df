use project_analyser::pipeline::{
    extract_git_repo_from_line, get_bad_log_file_as_string, get_git_folder_from_project_as_string,
    get_git_log_file_path_as_string, get_git_log_output_file_path_as_string,
    remove_all_occurrences, replace_character, tally_log_lines, InputError,
};

#[test]
fn repository_named_by_a_line() {
    let repo = extract_git_repo_from_line(2, String::from("1,https://github.com/bitcoin/bitcoin,x")).unwrap();
    assert_eq!(repo.url, "https://github.com/bitcoin/bitcoin");
    assert_eq!(repo.id, "bitcoin_bitcoin");
    let repo = extract_git_repo_from_line(3, String::from("2,rust-lang/rust,x")).unwrap();
    assert_eq!(repo.url, "https://github.com/rust-lang/rust");
    assert_eq!(repo.id, "rust-lang_rust");
}

#[test]
fn lines_without_three_columns_name_nothing() {
    assert!(extract_git_repo_from_line(1, String::from("no commas")).is_err());
    assert!(extract_git_repo_from_line(1, String::from("1,https://github.com/a/b")).is_err());
    assert_eq!(
        extract_git_repo_from_line(1, String::from("1,https://github.com/a/b")).err(),
        Some(InputError::InvalidInput)
    );
}

#[test]
fn removing_and_replacing() {
    assert_eq!(remove_all_occurrences("aXbXXc", "X"), "abc");
    assert_eq!(remove_all_occurrences("aaaa", "aa"), "");
    assert_eq!(remove_all_occurrences("aaa", "aa"), "a");
    assert_eq!(remove_all_occurrences("abc", ""), "abc");
    assert_eq!(remove_all_occurrences("", "x"), "");
    assert_eq!(replace_character("a/b/c", '/', '_'), "a_b_c");
}

#[test]
fn repository_file_paths() {
    let home = String::from("/home/pa");
    let id = String::from("bitcoin_bitcoin");
    assert_eq!(get_git_log_file_path_as_string(&home, &id), "/home/pa/project_downloader/git_log/bitcoin_bitcoin.log");
    assert_eq!(get_git_folder_from_project_as_string(&home, &id), "/home/pa/project_downloader/repos/bitcoin_bitcoin");
    assert_eq!(get_git_log_output_file_path_as_string(&home, &id), "/home/pa/project_downloader/analysis_csv/bitcoin_bitcoin.csv");
    assert_eq!(get_bad_log_file_as_string(&home), "/home/pa/project_downloader/bad_logs.txt");
}

#[test]
fn tally_of_log_lines() {
    let lines: Vec<String> = ["2018-01-01", "2018-01-02", "2018-01-01", "2018-01-01"]
        .iter()
        .map(|s| s.to_string())
        .collect();
    let tally = tally_log_lines(&lines);
    assert_eq!(tally, vec![(String::from("2018-01-01"), 3), (String::from("2018-01-02"), 1)]);
    assert!(tally_log_lines(&Vec::new()).is_empty());
}

#[test]
fn tally_keeps_the_order_of_first_occurrence() {
    let lines: Vec<String> = ["b", "a", "b", "c", "a", "b"].iter().map(|l| String::from(*l)).collect();
    let tally = tally_log_lines(&lines);
    let expected: Vec<(String, usize)> =
        vec![(String::from("b"), 3), (String::from("a"), 2), (String::from("c"), 1)];
    assert_eq!(tally, expected);
}
