use project_analyser::downloader::{
    character_count, check_http_code_response, read_project_urls_from_lines, utf8_to_http_code,
};

#[test]
fn downloader_character_count_test_comma() {
    assert_eq!(character_count(&String::from(",,,,"), ','), 4);
}

#[test]
fn downloader_character_count_test_number_as_param() {
    assert_eq!(character_count(&String::from(",,,,"), '4'), 0);
}

#[test]
fn downloader_character_count_test_russian() {
    assert_eq!(character_count(&String::from("ру́сский язы́к"), 'й'), 1);
}

#[test]
fn downloader_character_count_test_japanese() {
    assert_eq!(character_count(&String::from("日本語"), '語'), 1);
}

#[test]
fn downloader_character_count_test_null_unicode() {
    assert_eq!(character_count(&String::from(""), '\0'), 0);
}

#[test]
fn downloader_utf8_to_http_code_correct_code_404() {
    let input = vec![0x34, 0x30, 0x34];
    let result = match utf8_to_http_code(input) {
        Ok(result) => result,
        Err(_) => -1,
    };
    assert_eq!(result, 404);
}

#[test]
fn downloader_utf8_to_http_code_correct_code_200() {
    let input = vec![0x032, 0x030, 0x030];
    let result = match utf8_to_http_code(input) {
        Ok(result) => result,
        Err(_) => -1,
    };
    assert_eq!(result, 200);
}

#[test]
fn downloader_utf8_to_http_code_text() {
    let input = vec![0x60, 0x60, 0x60, 0x65, 0x65, 0x65, 0x23, 0x43];
    let result = match utf8_to_http_code(input) {
        Ok(_) => false,
        Err(_) => true,
    };
    assert!(result);
}

#[test]
fn downloader_utf8_to_http_code_code_large() {
    let input = vec![0x32, 0x00, 0x00, 0x00, 0x00, 0x00, 0x00, 0x32];
    let result = match utf8_to_http_code(input) {
        Ok(_) => false,
        Err(_) => true,
    };
    assert!(result);
}

#[test]
fn character_count_counts_every_occurrence() {
    assert_eq!(character_count(&String::from("a b  c "), ' '), 4);
    assert_eq!(character_count(&String::from("abc"), ' '), 0);
}

#[test]
fn utf8_to_http_code_strips_quotes() {
    // curl is asked to wrap the code in double quotes
    assert_eq!(utf8_to_http_code(b"\"301\"".to_vec()), Ok(301));
    assert_eq!(utf8_to_http_code(b"\"\"2\"0\"0".to_vec()), Ok(200));
}

#[test]
fn utf8_to_http_code_signed_codes() {
    assert_eq!(utf8_to_http_code(b"+42".to_vec()), Ok(42));
    assert_eq!(utf8_to_http_code(b"-42".to_vec()), Ok(-42));
    assert_eq!(utf8_to_http_code(b"--4".to_vec()), Err(()));
    assert_eq!(utf8_to_http_code(b"4-4".to_vec()), Err(()));
}

#[test]
fn utf8_to_http_code_wrong_length() {
    assert_eq!(utf8_to_http_code(b"20".to_vec()), Err(()));
    assert_eq!(utf8_to_http_code(b"2000".to_vec()), Err(()));
    assert_eq!(utf8_to_http_code(Vec::new()), Err(()));
}

#[test]
fn utf8_to_http_code_invalid_utf8() {
    assert_eq!(utf8_to_http_code(vec![0x32, 0xff, 0x30]), Err(()));
    assert_eq!(utf8_to_http_code(vec![0x32, 0x30, 0x30, 0xff]), Err(()));
}

#[test]
fn http_code_response_accepted_when_listed() {
    assert_eq!(check_http_code_response(&[200, 301], b"\"301\"".to_vec()), Ok(()));
    assert_eq!(check_http_code_response(&[200], b"\"200\"".to_vec()), Ok(()));
}

#[test]
fn http_code_response_refused_when_not_listed() {
    assert_eq!(check_http_code_response(&[200], b"\"404\"".to_vec()), Err(()));
    assert_eq!(check_http_code_response(&[], b"\"200\"".to_vec()), Err(()));
    assert_eq!(check_http_code_response(&[200], b"\"000\"".to_vec()), Err(()));
    assert_eq!(check_http_code_response(&[200], b"garbage".to_vec()), Err(()));
}

fn line(s: &str) -> Option<String> {
    Some(String::from(s))
}

#[test]
fn project_urls_skip_header_and_bad_lines() {
    let lines = vec![
        line("id,url,name"),
        line("7,https://github.com/bitcoin/bitcoin,bitcoin"),
        line("no commas here"),
        None,
        line("8,only-two-columns"),
        line("  9,https://github.com/rust-lang/rust,rust,extra  "),
        line("x1,https://github.com/not/numbered,x"),
        line("-3,https://github.com/negative/id,x"),
        line("+12,https://github.com/plus/sign,x"),
    ];
    let result = read_project_urls_from_lines(lines);
    assert!(result.skipped_lines.is_none());
    assert_eq!(result.response.len(), 5);
    assert_eq!(result.response[0].id, 7);
    assert_eq!(result.response[0].url, "https://github.com/bitcoin/bitcoin");
    assert_eq!(result.response[1].id, 9);
    assert_eq!(result.response[1].url, "https://github.com/rust-lang/rust");
    // a first column that is not a number gives the row's place among those kept
    assert_eq!(result.response[2].id, 3);
    assert_eq!(result.response[2].url, "https://github.com/not/numbered");
    assert_eq!(result.response[3].id, 4);
    assert_eq!(result.response[3].url, "https://github.com/negative/id");
    assert_eq!(result.response[4].id, 12);
    assert_eq!(result.response[4].url, "https://github.com/plus/sign");
}

#[test]
fn project_ids_follow_the_rows() {
    let lines = vec![line("id,url,name"), line("42,a,b"), line("5,c,d"), line("42,e,f")];
    let result = read_project_urls_from_lines(lines);
    let ids: Vec<usize> = result.response.iter().map(|r| r.id).collect();
    assert_eq!(ids, vec![42, 5, 42]);
    // "3 " is not a number: only the white space at the ends of the line is trimmed
    let result = read_project_urls_from_lines(vec![line("h"), line("\t 3 ,a,b")]);
    assert_eq!(result.response.len(), 1);
    assert_eq!(result.response[0].id, 1);
    assert_eq!(result.response[0].url, "a");
}

#[test]
fn rows_without_a_numbered_id_are_kept() {
    let lines = vec![line(""), None, line(",,")];
    let result = read_project_urls_from_lines(lines);
    assert!(result.skipped_lines.is_none());
    assert_eq!(result.response.len(), 1);
    assert_eq!(result.response[0].id, 1);
    assert_eq!(result.response[0].url, "");
}

#[test]
fn project_urls_of_header_only_or_nothing() {
    assert_eq!(read_project_urls_from_lines(Vec::new()).response.len(), 0);
    assert_eq!(read_project_urls_from_lines(vec![line("a,b,c")]).response.len(), 0);
}

#[test]
fn project_urls_empty_second_column() {
    let result = read_project_urls_from_lines(vec![line("header"), line("1,,x")]);
    assert_eq!(result.response.len(), 1);
    assert_eq!(result.response[0].id, 1);
    assert_eq!(result.response[0].url, "");
}
