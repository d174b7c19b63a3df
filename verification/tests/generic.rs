use project_analyser::downloader;

#[test]
fn generic_character_count_test_comma() {
    assert_eq!(downloader::character_count(&String::from(",,,,"), ','), 4);
}

#[test]
fn generic_character_count_test_number_as_param() {
    assert_eq!(downloader::character_count(&String::from(",,,,"), '4'), 0);
}

#[test]
fn generic_character_count_test_russian() {
    assert_eq!(downloader::character_count(&String::from("ру́сский язы́к"), 'й'), 1);
}

#[test]
fn generic_character_count_test_japanese() {
    assert_eq!(downloader::character_count(&String::from("日本語"), '語'), 1);
}

#[test]
fn generic_character_count_test_null_unicode() {
    assert_eq!(downloader::character_count(&String::from(""), '\0'), 0);
}

#[test]
fn generic_utf8_to_http_code_correct_code_404() {
    let input = vec![0x34, 0x30, 0x34];
    let result = match downloader::utf8_to_http_code(input) {
        Ok(result) => result,
        Err(_) => -1,
    };
    assert_eq!(result, 404);
}

#[test]
fn generic_utf8_to_http_code_correct_code_200() {
    let input = vec![0x032, 0x030, 0x030];
    let result = match downloader::utf8_to_http_code(input) {
        Ok(result) => result,
        Err(_) => -1,
    };
    assert_eq!(result, 200);
}

#[test]
fn generic_utf8_to_http_code_text() {
    let input = vec![0x60, 0x60, 0x60, 0x65, 0x65, 0x65, 0x23, 0x43];
    let result = match downloader::utf8_to_http_code(input) {
        Ok(_) => false,
        Err(_) => true,
    };
    assert!(result);
}

#[test]
fn generic_utf8_to_http_code_code_large() {
    let input = vec![0x32, 0x00, 0x00, 0x00, 0x00, 0x00, 0x00, 0x32];
    let result = match downloader::utf8_to_http_code(input) {
        Ok(_) => false,
        Err(_) => true,
    };
    assert!(result);
}
