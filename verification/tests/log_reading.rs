use project_analyser::extract_measures_and_features::{
    extract_activity_time_series_from_log, read_activity_time_series, LogReading,
};
use project_analyser::text::{parse_usize, trim_start_string};

const MONDAY_2018_01_01: i64 = 1514764800;
const DAY: i64 = 86400;

fn line(parents: &str, author: &str, author_date: i64, integrator: &str, integration_date: i64) -> String {
    format!(
        "hash,{},author name,{},{},integrator name,{},{}\n",
        parents, author, author_date, integrator, integration_date
    )
}

fn well_formed_log() -> Vec<u8> {
    let mut log = String::new();
    log.push_str(&line("p1", "a@x", MONDAY_2018_01_01 + 3600, "i@x", MONDAY_2018_01_01 + 7200));
    log.push_str(&line("p1 p2", "b@x", MONDAY_2018_01_01 + 8 * DAY, "i@x", MONDAY_2018_01_01 + 8 * DAY));
    log.push_str(&line("p3", "a@x", MONDAY_2018_01_01 + DAY, "j@x", MONDAY_2018_01_01 + 15 * DAY));
    log.push_str(&line("p4 p5", "a@x", MONDAY_2018_01_01 + 2 * DAY, "i@x", MONDAY_2018_01_01 + 16 * DAY));
    log.into_bytes()
}

#[test]
fn series_read_from_the_bytes_of_a_log() {
    let series = match read_activity_time_series(&well_formed_log()) {
        LogReading::Series(series) => series,
        _ => panic!("a well-formed log gives its series"),
    };
    assert_eq!(series.integration_frequency, vec![1, 1, 2]);
    assert_eq!(series.integrator_activity, vec![1, 1, 2]);
    assert_eq!(series.merge_frequency, vec![0, 1, 1]);
    assert_eq!(series.commit_frequency, vec![3, 1]);
    assert_eq!(series.author_activity, vec![1, 1]);
}

#[test]
fn series_extracted_from_log_bytes() {
    let series = extract_activity_time_series_from_log(&well_formed_log()).expect("well-formed log");
    assert_eq!(series.integration_frequency, vec![1, 1, 2]);
    assert_eq!(series.commit_frequency, vec![3, 1]);
    let mut short = well_formed_log();
    short.extend_from_slice(b"hash,p,author name,a@x,1000,integrator name,i@x\n");
    assert!(extract_activity_time_series_from_log(&short).is_none());
}

#[test]
fn a_line_with_seven_columns_is_malformed() {
    let mut log = well_formed_log();
    log.extend_from_slice(b"hash,p,author name,a@x,1000,integrator name,i@x\n");
    assert!(matches!(read_activity_time_series(&log), LogReading::Malformed));
}

#[test]
fn an_empty_log_is_unreadable() {
    assert!(matches!(read_activity_time_series(&Vec::new()), LogReading::Unreadable));
}

#[test]
fn a_date_that_is_no_integer_is_unreadable() {
    let log = b"hash,p,author name,a@x,yesterday,integrator name,i@x,1000\n".to_vec();
    assert!(matches!(read_activity_time_series(&log), LogReading::Unreadable));
}

#[test]
fn bytes_that_are_no_text_are_unreadable() {
    let mut log = well_formed_log();
    log.extend_from_slice(b"hash,p,author name,\xff\xfe,1000,integrator name,i@x,1000\n");
    assert!(matches!(read_activity_time_series(&log), LogReading::Unreadable));
}

#[test]
fn a_malformed_line_before_undecodable_bytes_is_malformed() {
    let mut log = b"hash,p,author name,a@x,1000,integrator name,i@x\n".to_vec();
    log.extend_from_slice(b"hash,p,author name,\xff\xfe,1000,integrator name,i@x,1000\n");
    assert!(matches!(read_activity_time_series(&log), LogReading::Malformed));
}

#[test]
fn leading_white_space_is_trimmed() {
    assert_eq!(trim_start_string(&String::from(" \t 12, x ")), String::from("12, x "));
    assert_eq!(trim_start_string(&String::from("   ")), String::new());
    assert_eq!(trim_start_string(&String::from("a b")), String::from("a b"));
}

#[test]
fn numbers_parse_as_usize() {
    assert_eq!(parse_usize(&String::from("42")), Some(42));
    assert_eq!(parse_usize(&String::from("+7")), Some(7));
    assert_eq!(parse_usize(&String::from(&usize::MAX.to_string())), Some(usize::MAX));
    assert_eq!(parse_usize(&String::from("18446744073709551616")), None);
    assert_eq!(parse_usize(&String::from("-1")), None);
    assert_eq!(parse_usize(&String::from("")), None);
    assert_eq!(parse_usize(&String::from("+")), None);
    assert_eq!(parse_usize(&String::from("1a")), None);
}
