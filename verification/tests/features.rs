use project_analyser::calendar::{calculate_week_num, get_monday_timestamp};
use project_analyser::extract_measures_and_features::{
    extract_activity_time_series, get_bad_log_file_as_string, UniqueDeveloperList,
};
use project_analyser::peaks::{detect_peaks_and_set_features, PEAK_DOWN, PEAK_NONE, PEAK_UP};
use project_analyser::series::{
    find_quantile_sum, min_max_sum, quartiles, sort_series, summarize_time_series,
};

const MONDAY_2018_01_01: i64 = 1514764800;
const DAY: i64 = 86400;

fn commit(parents: &str, author: &str, author_date: i64, integrator: &str, integration_date: i64) -> Vec<String> {
    vec![
        String::from("hash"),
        String::from(parents),
        String::from("author name"),
        String::from(author),
        author_date.to_string(),
        String::from("integrator name"),
        String::from(integrator),
        integration_date.to_string(),
    ]
}

#[test]
fn unique_developer_list_counts_each_developer_once() {
    let mut list = UniqueDeveloperList::new();
    assert_eq!(list.countDevelopers(), 0);
    assert!(list.addDeveloper(String::from("a@example.org")));
    assert!(list.addDeveloper(String::from("b@example.org")));
    assert!(!list.addDeveloper(String::from("a@example.org")));
    assert_eq!(list.countDevelopers(), 2);
}

#[test]
fn monday_of_a_timestamp() {
    // 2018-01-01 was a Monday
    assert_eq!(get_monday_timestamp(MONDAY_2018_01_01), MONDAY_2018_01_01);
    assert_eq!(get_monday_timestamp(MONDAY_2018_01_01 + 6 * DAY + 86399), MONDAY_2018_01_01);
    assert_eq!(get_monday_timestamp(MONDAY_2018_01_01 + 7 * DAY), MONDAY_2018_01_01 + 7 * DAY);
    assert_eq!(get_monday_timestamp(MONDAY_2018_01_01 - 1), MONDAY_2018_01_01 - 7 * DAY);
    // 1970-01-01 was a Thursday
    assert_eq!(get_monday_timestamp(0), -3 * DAY);
    assert_eq!(get_monday_timestamp(-1), -3 * DAY);
}

#[test]
fn week_numbers() {
    assert_eq!(calculate_week_num(&0, &0), 0);
    assert_eq!(calculate_week_num(&0, &604799), 0);
    assert_eq!(calculate_week_num(&0, &604800), 1);
    assert_eq!(calculate_week_num(&100, &(100 + 3 * 604800 + 5)), 3);
    // rounds toward zero before the conversion, as `as usize` does
    assert_eq!(calculate_week_num(&604799, &0), 0);
    assert_eq!(calculate_week_num(&604800, &0), usize::MAX);
}

#[test]
fn activity_time_series_of_a_log() {
    let commits = vec![
        commit("p1", "a@x", MONDAY_2018_01_01 + 3600, "i@x", MONDAY_2018_01_01 + 7200),
        commit("p1 p2", "b@x", MONDAY_2018_01_01 + 8 * DAY, "i@x", MONDAY_2018_01_01 + 8 * DAY),
        commit("p3", "a@x", MONDAY_2018_01_01 + DAY, "j@x", MONDAY_2018_01_01 + 15 * DAY),
        commit("p4 p5", "a@x", MONDAY_2018_01_01 + 2 * DAY, "i@x", MONDAY_2018_01_01 + 16 * DAY),
    ];
    let series = extract_activity_time_series(&commits).expect("well-formed log");
    assert_eq!(series.integration_frequency, vec![1, 1, 2]);
    assert_eq!(series.integrator_activity, vec![1, 1, 2]);
    assert_eq!(series.merge_frequency, vec![0, 1, 1]);
    assert_eq!(series.commit_frequency, vec![3, 1]);
    assert_eq!(series.author_activity, vec![1, 1]);
}

#[test]
fn activity_time_series_every_commit_counted_once() {
    let commits = vec![
        commit("p", "a@x", 1000, "a@x", 5000),
        commit("p", "a@x", 2000000, "b@x", 9000000),
        commit("p q", "c@x", 1000000, "a@x", 2000),
    ];
    let series = extract_activity_time_series(&commits).unwrap();
    assert_eq!(series.integration_frequency.iter().sum::<usize>(), 3);
    assert_eq!(series.commit_frequency.iter().sum::<usize>(), 3);
    assert_eq!(series.merge_frequency.iter().sum::<usize>(), 1);
}

#[test]
fn activity_time_series_rejects_malformed_log() {
    let mut short = commit("p", "a@x", 1000, "a@x", 1000);
    short.pop();
    let commits = vec![commit("p", "a@x", 1000, "a@x", 1000), short];
    assert!(extract_activity_time_series(&commits).is_none());
    // a malformed first line is refused before any date is read
    let commits = vec![vec![String::from("just one column")]];
    assert!(extract_activity_time_series(&commits).is_none());
}

#[test]
fn summary_of_a_series() {
    let summary = summarize_time_series(&vec![1, 4, 2, 4, 0]);
    assert_eq!(summary.duration, 5);
    assert_eq!(summary.max_y, 4);
    assert_eq!(summary.max_y_pos, 2);
    assert_eq!(summary.sum_y, 11);
    let flat = summarize_time_series(&vec![0, 0]);
    assert_eq!(flat.max_y, 0);
    assert_eq!(flat.max_y_pos, 0);
}

#[test]
fn min_max_sum_of_counts() {
    let r = min_max_sum(&vec![3, 1, 2]);
    assert_eq!((r.min, r.max, r.sum), (1, 3, 6));
    let empty = min_max_sum(&Vec::new());
    assert_eq!((empty.min, empty.max, empty.sum), (usize::MAX, 0, 0));
}

#[test]
fn quartiles_of_a_sorted_series() {
    let s = vec![1, 2, 3, 4, 5];
    // positions (len - 1) * q / 4 = 1, 2, 3
    assert_eq!(quartiles(&s), (4, 6, 8));
    let t = vec![10, 20, 30, 40];
    // positions 0.75, 1.5, 2.25 average their neighbours
    assert_eq!(find_quantile_sum(&t, 1), 30);
    assert_eq!(find_quantile_sum(&t, 2), 50);
    assert_eq!(find_quantile_sum(&t, 3), 70);
}

#[test]
fn sorting_a_series() {
    let mut v = vec![3, 1, 2, 1];
    sort_series(&mut v);
    assert_eq!(v, vec![1, 1, 2, 3]);
}

#[test]
fn peaks_of_a_single_rise_and_fall() {
    let mut data = vec![0, 1, 0];
    let (marks, features) = detect_peaks_and_set_features(&mut data);
    assert_eq!(marks, vec![PEAK_NONE, PEAK_UP, PEAK_NONE]);
    let f = features.unwrap();
    assert_eq!((f.peak_up, f.peak_down, f.peak_none), (1, 0, 2));
    assert_eq!(f.ps_sequence, vec![1, 0]);
    assert!(f.ns_sequence.is_empty());
    assert_eq!(f.peak_values, vec![1]);
    assert_eq!(f.amplitudes, vec![1]);
    assert_eq!(f.positive_gradients, vec![0]);
    assert_eq!(f.time_between_peaks_up, vec![2]);
    assert_eq!((f.ps.min, f.ps.max, f.ps.sum), (0, 1, 1));
    assert_eq!((f.ns.min, f.ns.max, f.ns.sum), (usize::MAX, 0, 0));
    assert_eq!((f.tbp_up.min, f.tbp_up.max, f.tbp_up.sum), (2, 2, 2));
    assert_eq!(f.quartile_sums, (0, 0, 1));
    assert_eq!(data, vec![0, 0, 1]);
}

#[test]
fn peaks_after_a_plateau() {
    let mut data = vec![3, 1, 1, 4, 2];
    let (marks, features) = detect_peaks_and_set_features(&mut data);
    assert_eq!(marks, vec![PEAK_NONE, PEAK_NONE, PEAK_DOWN, PEAK_UP, PEAK_NONE]);
    let f = features.unwrap();
    assert_eq!((f.peak_up, f.peak_down, f.peak_none), (1, 1, 3));
    assert_eq!(f.valley_values, vec![1]);
    assert_eq!(f.peak_values, vec![4]);
    assert_eq!(f.negative_gradients, vec![4]);
    assert_eq!(f.positive_gradients, vec![-2]);
    assert_eq!(f.time_between_peaks_down, vec![3]);
    assert_eq!(f.time_between_peaks_up, vec![4]);
    assert_eq!(f.amplitudes, vec![3]);
    assert_eq!(f.ns_sequence, vec![1]);
    assert_eq!(f.ps_sequence, vec![0, 0]);
    assert_eq!(data, vec![1, 1, 2, 3, 4]);
}

#[test]
fn peaks_of_a_short_series() {
    let mut data = vec![5];
    let (marks, features) = detect_peaks_and_set_features(&mut data);
    assert_eq!(marks, vec![PEAK_NONE]);
    assert!(features.is_none());
    assert_eq!(data, vec![5]);
    let mut empty: Vec<usize> = Vec::new();
    let (marks, features) = detect_peaks_and_set_features(&mut empty);
    assert!(marks.is_empty());
    assert!(features.is_none());
}

#[test]
fn bad_log_file_path() {
    assert_eq!(get_bad_log_file_as_string(&String::from("/home/pa")), "/home/pa/project_downloader/bad_logs.log");
    assert_eq!(get_bad_log_file_as_string(&String::from("/home/pa/")), "/home/pa/project_downloader/bad_logs.log");
    assert_eq!(get_bad_log_file_as_string(&String::new()), "project_downloader/bad_logs.log");
}

#[test]
fn monday_of_a_monday_is_itself() {
    for t in [0i64, -1, 1514764800 + 12345, 987654321, -987654321] {
        let monday = get_monday_timestamp(t);
        assert_eq!(get_monday_timestamp(monday), monday);
        assert!(monday <= t && t < monday + 7 * DAY);
    }
}

#[test]
fn peak_counts_match_marks() {
    let mut data = vec![1, 3, 3, 2, 2, 5, 0, 4];
    let (marks, features) = detect_peaks_and_set_features(&mut data);
    let f = features.unwrap();
    assert_eq!(marks.iter().filter(|m| **m == PEAK_UP).count(), f.peak_up);
    assert_eq!(marks.iter().filter(|m| **m == PEAK_DOWN).count(), f.peak_down);
    assert_eq!(marks.iter().filter(|m| **m == PEAK_NONE).count(), f.peak_none);
    assert_eq!(marks, vec![0, 0, 1, 0, -1, 1, -1, 0]);
}

#[test]
fn quartiles_never_decrease() {
    let mut data = vec![9, 2, 7, 4, 4, 1, 8];
    sort_series(&mut data);
    let (q1, q2, q3) = quartiles(&data);
    assert!(q1 <= q2 && q2 <= q3);
}

#[test]
fn activity_never_exceeds_frequency() {
    let commits = vec![
        commit("p q", "a@x", 1000, "a@x", 1000),
        commit("p", "a@x", 2000, "a@x", 2000),
        commit("p q", "b@x", 3000, "c@x", 3000),
    ];
    let series = extract_activity_time_series(&commits).unwrap();
    for w in 0..series.integration_frequency.len() {
        assert!(series.integrator_activity[w] <= series.integration_frequency[w]);
        assert!(series.merge_frequency[w] <= series.integration_frequency[w]);
    }
    assert_eq!(series.integrator_activity, vec![2]);
    assert_eq!(series.merge_frequency, vec![2]);
    assert_eq!(series.author_activity, vec![2]);
}

#[test]
fn developer_count_is_the_number_of_distinct_names_added() {
    let mut list = UniqueDeveloperList::new();
    let names = ["a", "a", "b", "c", "b", "a"];
    let added = names.iter().filter(|n| list.addDeveloper(String::from(**n))).count();
    assert_eq!(added, 3);
    assert_eq!(list.countDevelopers(), 3);
    assert_eq!(list.countDevelopers(), 3);
}

#[test]
fn features_measured_between_peaks_and_valleys() {
    let mut data = vec![1, 3, 2, 2, 5, 1];
    let (marks, features) = detect_peaks_and_set_features(&mut data);
    assert_eq!(marks, vec![PEAK_NONE, PEAK_UP, PEAK_NONE, PEAK_DOWN, PEAK_UP, PEAK_NONE]);
    let f = features.unwrap();
    // peaks at 1 and 4, a valley at 3
    assert_eq!(f.time_between_peaks_up, vec![2, 3]);
    assert_eq!(f.time_between_peaks_down, vec![4]);
    assert_eq!(f.positive_gradients, vec![2, -4]);
    assert_eq!(f.negative_gradients, vec![3]);
    assert_eq!(f.amplitudes, vec![2, 3]);
    assert_eq!(f.ps_sequence, vec![1, 0, 0]);
    assert_eq!(f.ns_sequence, vec![1]);
}
