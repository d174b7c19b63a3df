use project_analyser::config::{get, set_to_default, ConfigItem, PrefMap};
use project_analyser::get_root_folder;
use project_analyser::git_analyser::{get_git_log_path, parse_git_log, Git};
use project_analyser::models::{ClonedProject, GitRepository};
use project_analyser::text::{join_path, parse_i64, usize_to_decimal};

#[test]
fn git_letters() {
    assert_eq!(Git::DELETED.to_string(), "D");
    assert_eq!(Git::RENAMED.to_string(), "R");
    assert_eq!(Git::ADDED.to_string(), "A");
    assert_eq!(Git::MODIFIED.to_string(), "M");
    assert_eq!(Git::UNKNOWN.to_string(), "U");
}

#[test]
fn git_letters_read_back() {
    for g in [Git::DELETED, Git::RENAMED, Git::ADDED, Git::MODIFIED, Git::UNKNOWN] {
        assert!(Git::to_enum(&g.to_string()) == g);
    }
    assert!(Git::to_enum(&String::from("X")) == Git::UNKNOWN);
    assert!(Git::to_enum(&String::from("DD")) == Git::UNKNOWN);
    assert!(Git::to_enum(&String::new()) == Git::UNKNOWN);
}

#[test]
fn cloned_project_paths() {
    let github = GitRepository { id: 42, url: String::from("https://github.com/bitcoin/bitcoin") };
    let project = ClonedProject::new(github, String::from("/home/pa/project_analyser/repos/42"), &String::from("/home/pa"));
    assert_eq!(project.github.id, 42);
    assert_eq!(project.path, "/home/pa/project_analyser/repos/42");
    assert_eq!(project.output_log_path, "/home/pa/project_analyser/repos/42/pa_git.log");
    assert_eq!(project.input_log_path, "/home/pa/project_analyser/repos/42/.git");
    assert_eq!(project.analysis_csv_file, "/home/pa/project_analyser/git_log/42.csv");
    assert_eq!(get_git_log_path(&String::from("/home/pa"), &project), "/home/pa/project_analyser/git_logs/42");
    assert!(std::ptr::eq(parse_git_log(&project).unwrap(), &project));
}

#[test]
fn joining_paths() {
    assert_eq!(join_path(&String::from("/a"), "b"), "/a/b");
    assert_eq!(join_path(&String::from("/a/"), "b"), "/a/b");
    assert_eq!(join_path(&String::new(), "b"), "b");
    assert_eq!(join_path(&String::from("/a"), "/b"), "/b");
    assert_eq!(join_path(&String::from("/a"), ""), "/a/");
}

#[test]
fn decimal_numbers() {
    assert_eq!(usize_to_decimal(0), "0");
    assert_eq!(usize_to_decimal(7), "7");
    assert_eq!(usize_to_decimal(1234567890), "1234567890");
    assert_eq!(usize_to_decimal(usize::MAX), usize::MAX.to_string());
}

#[test]
fn parsing_integers() {
    assert_eq!(parse_i64(&String::from("1514764800")), Some(1514764800));
    assert_eq!(parse_i64(&String::from("-12")), Some(-12));
    assert_eq!(parse_i64(&String::from("+12")), Some(12));
    assert_eq!(parse_i64(&String::from("9223372036854775807")), Some(i64::MAX));
    assert_eq!(parse_i64(&String::from("-9223372036854775808")), Some(i64::MIN));
    assert_eq!(parse_i64(&String::from("9223372036854775808")), None);
    assert_eq!(parse_i64(&String::from("99999999999999999999999")), None);
    assert_eq!(parse_i64(&String::from("")), None);
    assert_eq!(parse_i64(&String::from("-")), None);
    assert_eq!(parse_i64(&String::from("12a")), None);
    assert_eq!(parse_i64(&String::from(" 12")), None);
}

#[test]
fn root_folder() {
    assert_eq!(get_root_folder(), "project_downloader");
}

#[test]
fn config_keys() {
    assert_eq!(ConfigItem::DatabaseUser.as_key(), "db_user");
    assert_eq!(ConfigItem::DatabasePassword.as_key(), "db_password");
    assert_eq!(ConfigItem::Custom(String::from("theme")).as_key(), "theme");
}

#[test]
fn config_defaults_are_read_back() {
    let mut prefs = PrefMap::new();
    assert_eq!(get(&prefs, ConfigItem::DatabaseUser), None);
    set_to_default(&mut prefs);
    assert_eq!(get(&prefs, ConfigItem::DatabaseUser), Some(String::from("root")));
    assert_eq!(get(&prefs, ConfigItem::DatabasePassword), Some(String::from("pw")));
    assert_eq!(get(&prefs, ConfigItem::Custom(String::from("other"))), None);
}

#[test]
fn config_insert_replaces() {
    let mut prefs = PrefMap::new();
    prefs.insert(String::from("db_user"), String::from("alice"));
    prefs.insert(String::from("theme"), String::from("dark"));
    set_to_default(&mut prefs);
    assert_eq!(get(&prefs, ConfigItem::DatabaseUser), Some(String::from("root")));
    assert_eq!(get(&prefs, ConfigItem::Custom(String::from("theme"))), Some(String::from("dark")));
    let pairs = prefs.into_pairs();
    assert_eq!(pairs.len(), 3);
}
