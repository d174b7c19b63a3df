//! Parsing of the project list and of the HTTP status reported for a project url.

use vstd::prelude::*;
use crate::models::GitRepository;
use crate::text::{lemma_parse_usize_range, spec_parse_usize, parse_usize, trim_start, trim_start_string};

verus! {

/// Number of occurrences of `c` in `s`.
pub open spec fn count_char(s: Seq<char>, c: char) -> nat
    decreases s.len(),
{
    if s.len() == 0 {
        0
    } else {
        count_char(s.drop_last(), c) + if s.last() == c { 1nat } else { 0nat }
    }
}

/// Counts the number of matching characters in a string.
pub fn character_count(str_line: &String, matching_character: char) -> (count: u32)
    requires
        count_char(str_line@, matching_character) <= u32::MAX,
    ensures
        count == count_char(str_line@, matching_character),
{
    let mut count: u32 = 0;
    for character in it: str_line.chars()
        invariant
            it.seq() == str_line@,
            count == count_char(str_line@.take(it.index()), matching_character),
            count_char(str_line@, matching_character) <= u32::MAX,
    {
        proof {
            let i = it.index();
            assert(str_line@.take(i + 1).drop_last() == str_line@.take(i));
            lemma_count_char_prefix_monotone(str_line@, matching_character, i + 1);
        }
        if character == matching_character {
            count += 1;
        }
    }
    proof {
        assert(str_line@.take(str_line@.len() as int) == str_line@);
    }
    count
}

/// No character occurs more often than the string is long.
pub proof fn lemma_count_char_at_most_len(s: Seq<char>, c: char)
    ensures
        count_char(s, c) <= s.len(),
    decreases s.len(),
{
    if s.len() > 0 {
        lemma_count_char_at_most_len(s.drop_last(), c);
    }
}

/// The count over a prefix never exceeds the count over the whole sequence.
pub proof fn lemma_count_char_prefix_monotone(s: Seq<char>, c: char, n: int)
    requires
        0 <= n <= s.len(),
    ensures
        count_char(s.take(n), c) <= count_char(s, c),
    decreases s.len() - n,
{
    if n < s.len() {
        lemma_count_char_prefix_monotone(s, c, n + 1);
        assert(s.take(n + 1).drop_last() == s.take(n));
    } else {
        assert(s.take(n) == s);
    }
}

} // verus!

verus! {

/// The byte of the double quote character, which curl's output format wraps the code in.
pub const QUOTE_BYTE: u8 = 0x22;

/// The bytes of `data` with every double quote removed.
pub open spec fn strip_quotes(data: Seq<u8>) -> Seq<u8>
    decreases data.len(),
{
    if data.len() == 0 {
        data
    } else if data.last() == QUOTE_BYTE {
        strip_quotes(data.drop_last())
    } else {
        strip_quotes(data.drop_last()).push(data.last())
    }
}

pub open spec fn is_ascii_digit(b: u8) -> bool {
    0x30 <= b <= 0x39
}

/// Value of a non-empty run of ASCII decimal digits.
pub open spec fn digits_value(s: Seq<u8>) -> int
    decreases s.len(),
{
    if s.len() == 0 {
        0
    } else {
        10 * digits_value(s.drop_last()) + (s.last() - 0x30)
    }
}

pub open spec fn all_digits(s: Seq<u8>) -> bool {
    forall|i: int| 0 <= i < s.len() ==> is_ascii_digit(#[trigger] s[i])
}

/// The integer written by `s` in the decimal notation that Rust's `i32::from_str`
/// accepts: an optional `+` or `-` followed by at least one ASCII digit.
/// (The range check of `i32` is left to the caller.)
pub open spec fn signed_decimal(s: Seq<u8>) -> Option<int> {
    if s.len() > 0 && (s[0] == 0x2b || s[0] == 0x2d) {
        let rest = s.skip(1);
        if rest.len() > 0 && all_digits(rest) {
            if s[0] == 0x2d {
                Some(-digits_value(rest))
            } else {
                Some(digits_value(rest))
            }
        } else {
            None
        }
    } else if s.len() > 0 && all_digits(s) {
        Some(digits_value(s))
    } else {
        None
    }
}

/// The HTTP status that curl's `-w "%{http_code}"` output denotes: once the double
/// quotes are removed, exactly three bytes that spell an integer.
///
/// The output must also be valid UTF-8; that needs no clause of its own, because
/// three bytes that spell an integer are ASCII, and so is every quote around them.
pub open spec fn spec_http_code(data: Seq<u8>) -> Option<int> {
    let stripped = strip_quotes(data);
    if stripped.len() == 3 {
        signed_decimal(stripped)
    } else {
        None
    }
}

proof fn lemma_digits_value_bound(s: Seq<u8>)
    requires
        all_digits(s),
    ensures
        0 <= digits_value(s),
        s.len() <= 3 ==> digits_value(s) <= 999,
        s.len() <= 2 ==> digits_value(s) <= 99,
        s.len() <= 1 ==> digits_value(s) <= 9,
    decreases s.len(),
{
    if s.len() > 0 {
        assert(all_digits(s.drop_last())) by {
            assert forall|i: int| 0 <= i < s.drop_last().len() implies is_ascii_digit(
                #[trigger] s.drop_last()[i],
            ) by {
                assert(s.drop_last()[i] == s[i]);
            }
        }
        lemma_digits_value_bound(s.drop_last());
        assert(is_ascii_digit(s[s.len() - 1]));
    }
}

/// Value of the ASCII digits `s[start..end]`.
fn digits_to_i32(s: &Vec<u8>, start: usize, end: usize) -> (v: i32)
    requires
        start <= end <= s.len(),
        end - start <= 3,
        all_digits(s@.subrange(start as int, end as int)),
    ensures
        v == digits_value(s@.subrange(start as int, end as int)),
{
    let mut v: i32 = 0;
    let mut i = start;
    while i < end
        invariant
            start <= i <= end <= s.len(),
            end - start <= 3,
            all_digits(s@.subrange(start as int, end as int)),
            v == digits_value(s@.subrange(start as int, i as int)),
        decreases end - i,
    {
        let ghost sub = s@.subrange(start as int, (i + 1) as int);
        proof {
            assert(sub.drop_last() == s@.subrange(start as int, i as int));
            assert(sub.last() == s@[i as int]);
            assert(s@[i as int] == s@.subrange(start as int, end as int)[i - start]);
            assert(all_digits(sub)) by {
                assert forall|k: int| 0 <= k < sub.len() implies is_ascii_digit(#[trigger] sub[k]) by {
                    assert(sub[k] == s@.subrange(start as int, end as int)[k]);
                }
            }
            lemma_digits_value_bound(sub);
        }
        v = 10 * v + (s[i] - 0x30u8) as i32;
        i += 1;
    }
    v
}

/// Tries to parse the specified data into a string and then into an integer.
///
/// Returns `Ok(code)` exactly when, without its double quotes, the data is three
/// bytes that spell the integer `code`.
pub fn utf8_to_http_code(data: Vec<u8>) -> (result: Result<i32, ()>)
    ensures
        match spec_http_code(data@) {
            Some(v) => result == Ok::<i32, ()>(v as i32) && -99 <= v <= 999,
            None => result is Err,
        },
{
    let mut stripped: Vec<u8> = Vec::new();
    let mut i: usize = 0;
    while i < data.len()
        invariant
            i <= data.len(),
            stripped@ == strip_quotes(data@.take(i as int)),
        decreases data.len() - i,
    {
        proof {
            let t = data@.take(i as int + 1);
            assert(t.drop_last() == data@.take(i as int));
            assert(t.last() == data@[i as int]);
        }
        if data[i] != QUOTE_BYTE {
            stripped.push(data[i]);
        }
        i += 1;
    }
    proof {
        assert(data@.take(data@.len() as int) == data@);
    }
    if stripped.len() != 3 {
        return Err(());
    }
    let first = stripped[0];
    if first == 0x2b || first == 0x2d {
        if !(is_digit_byte(stripped[1]) && is_digit_byte(stripped[2])) {
            proof {
                let rest = stripped@.skip(1);
                if all_digits(rest) {
                    assert(rest[0] == stripped@[1]);
                    assert(rest[1] == stripped@[2]);
                }
            }
            return Err(());
        }
        proof {
            assert(stripped@.skip(1) == stripped@.subrange(1, 3));
        }
        let magnitude = digits_to_i32(&stripped, 1, 3);
        proof {
            lemma_digits_value_bound(stripped@.subrange(1, 3));
        }
        if first == 0x2d {
            Ok(-magnitude)
        } else {
            Ok(magnitude)
        }
    } else {
        if !(is_digit_byte(stripped[0]) && is_digit_byte(stripped[1]) && is_digit_byte(stripped[2])) {
            return Err(());
        }
        proof {
            assert(stripped@.subrange(0, 3) == stripped@);
            assert(all_digits(stripped@));
        }
        let value = digits_to_i32(&stripped, 0, 3);
        proof {
            lemma_digits_value_bound(stripped@);
        }
        Ok(value)
    }
}

fn is_digit_byte(b: u8) -> (r: bool)
    ensures
        r == is_ascii_digit(b),
{
    0x30 <= b && b <= 0x39
}

} // verus!

verus! {

/// What reading a list of lines gives: the items read, and the numbers of the lines
/// that were skipped, where they are reported.
pub struct LinesResponse<T> {
    pub response: Vec<T>,
    pub skipped_lines: Option<Vec<u32>>,
}

/// The characters of `s` that follow its first comma and precede its second one:
/// the second column of a comma separated line.
pub open spec fn second_column(s: Seq<char>) -> Seq<char>
    decreases s.len(),
{
    if s.len() == 0 {
        s
    } else {
        let before = second_column(s.drop_last());
        if s.last() != ',' && count_char(s.drop_last(), ',') == 1 {
            before.push(s.last())
        } else {
            before
        }
    }
}

/// The characters of `s` before its first comma: the first column of a comma
/// separated line.
pub open spec fn first_column(s: Seq<char>) -> Seq<char>
    decreases s.len(),
{
    if s.len() == 0 {
        s
    } else {
        let before = first_column(s.drop_last());
        if s.last() != ',' && count_char(s.drop_last(), ',') == 0 {
            before.push(s.last())
        } else {
            before
        }
    }
}

/// The id that the first column of a line gives, once the line is trimmed: the
/// column read as a `usize`, where it is one.
pub open spec fn project_id(line: Seq<char>) -> Option<int> {
    spec_parse_usize(first_column(trim_start(line)))
}

/// A line names a project when it could be read and splits into more than two
/// columns (that is, holds at least two commas).
pub open spec fn names_project(line: Option<String>) -> bool {
    &&& line is Some
    &&& count_char(line->0@, ',') >= 2
}

/// The id of the project that a line names when `n` projects were listed before
/// it: the number in its first column, or else its place in the list, counted
/// from one.
pub open spec fn listed_id(line: Seq<char>, n: int) -> int {
    match project_id(line) {
        Some(id) => id,
        None => n + 1,
    }
}

/// The ids and urls of the projects that the lines name, in order.
pub open spec fn listed_projects(lines: Seq<Option<String>>) -> Seq<(int, Seq<char>)>
    decreases lines.len(),
{
    if lines.len() == 0 {
        Seq::empty()
    } else {
        let before = listed_projects(lines.drop_last());
        if names_project(lines.last()) {
            before.push(
                (listed_id(lines.last()->0@, before.len() as int), second_column(lines.last()->0@)),
            )
        } else {
            before
        }
    }
}

/// Every line that could be read has at most `u32::MAX` commas, so that counting
/// them cannot overflow.
pub open spec fn comma_counts_fit(lines: Seq<Option<String>>) -> bool {
    forall|i: int|
        0 <= i < lines.len() && (#[trigger] lines[i]) is Some ==> count_char(lines[i]->0@, ',')
            <= u32::MAX
}

/// The lines below the header line.
pub open spec fn body_lines(lines: Seq<Option<String>>) -> Seq<Option<String>> {
    if lines.len() == 0 {
        lines
    } else {
        lines.skip(1)
    }
}

/// The first column of a line.
fn extract_first_column(line: &String) -> (column: String)
    ensures
        column@ == first_column(line@),
{
    let mut column = String::new();
    let mut after_comma = false;
    for c in it: line.chars()
        invariant
            it.seq() == line@,
            column@ == first_column(line@.take(it.index())),
            after_comma <==> count_char(line@.take(it.index()), ',') > 0,
    {
        proof {
            let i = it.index();
            assert(line@.take(i + 1).drop_last() == line@.take(i));
            assert(line@.take(i + 1).last() == c);
        }
        if c == ',' {
            after_comma = true;
        } else if !after_comma {
            crate::text::push_char(&mut column, c);
        }
    }
    proof {
        assert(line@.take(line@.len() as int) == line@);
    }
    column
}

/// The second column of a line.
pub(crate) fn extract_second_column(line: &String) -> (url: String)
    ensures
        url@ == second_column(line@),
{
    let mut url = String::new();
    let mut commas: usize = 0;
    for c in it: line.chars()
        invariant
            it.seq() == line@,
            url@ == second_column(line@.take(it.index())),
            commas == if count_char(line@.take(it.index()), ',') < 2 {
                count_char(line@.take(it.index()), ',')
            } else {
                2
            },
    {
        proof {
            let i = it.index();
            assert(line@.take(i + 1).drop_last() == line@.take(i));
            assert(line@.take(i + 1).last() == c);
        }
        if c == ',' {
            if commas < 2 {
                commas += 1;
            }
        } else if commas == 1 {
            crate::text::push_char(&mut url, c);
        }
    }
    proof {
        assert(line@.take(line@.len() as int) == line@);
    }
    url
}

/// Reads the lines of the project list (see "projects.csv" in the project root) and
/// extracts the id and url of each row: the id from its first column, the url from
/// its second. The first line is a header and is skipped; so is every line that
/// could not be read or has fewer than three columns. A row whose first column is
/// not a number gets its place among the rows kept, counted from one, as its id.
///
/// The columns are those of the line trimmed of white space. Trimming only removes
/// white space at the ends of the line, so the second column, which lies between
/// two commas, is the same with or without it, and so is the end of the first one.
pub fn read_project_urls_from_lines(lines: Vec<Option<String>>) -> (result: LinesResponse<
    GitRepository,
>)
    requires
        comma_counts_fit(lines@),
    ensures
        result.response@.len() == listed_projects(body_lines(lines@)).len(),
        forall|i: int|
            0 <= i < result.response@.len() ==> {
                &&& (#[trigger] result.response@[i]).id == listed_projects(body_lines(lines@))[i].0
                &&& result.response@[i].url@ == listed_projects(body_lines(lines@))[i].1
            },
        result.skipped_lines is None,
{
    let mut projects: Vec<GitRepository> = Vec::new();
    let mut i: usize = 1;
    let ghost body = body_lines(lines@);
    while i < lines.len()
        invariant
            1 <= i <= lines.len() || (lines.len() == 0 && i == 1),
            body == body_lines(lines@),
            lines.len() > 0 ==> body.len() == lines.len() - 1,
            lines.len() == 0 ==> body.len() == 0,
            comma_counts_fit(lines@),
            projects@.len() == listed_projects(body.take(i - 1)).len(),
            projects@.len() <= i - 1,
            forall|k: int|
                0 <= k < projects@.len() ==> {
                    &&& (#[trigger] projects@[k]).id == listed_projects(body.take(i - 1))[k].0
                    &&& projects@[k].url@ == listed_projects(body.take(i - 1))[k].1
                },
        decreases lines.len() - i,
    {
        proof {
            assert(body.take(i as int).drop_last() == body.take(i - 1));
            assert(body.take(i as int).last() == lines@[i as int]);
        }
        match &lines[i] {
            None => {},
            Some(str_line) => {
                proof {
                    assert(lines@[i as int] is Some);
                }
                if character_count(str_line, ',') >= 2 {
                    let trimmed = trim_start_string(str_line);
                    let id_column = extract_first_column(&trimmed);
                    let id = match parse_usize(&id_column) {
                        Some(id) => {
                            proof {
                                lemma_parse_usize_range(id_column@);
                            }
                            id
                        },
                        None => projects.len() + 1,
                    };
                    proof {
                        assert(id == listed_id(str_line@, projects@.len() as int));
                    }
                    let url = extract_second_column(str_line);
                    projects.push(GitRepository { id, url });
                }
            },
        }
        i += 1;
    }
    proof {
        assert(body.take(i - 1) == body);
    }
    LinesResponse { response: projects, skipped_lines: None }
}

} // verus!

verus! {

/// Decides whether the status curl reported for a url is one of the expected codes.
///
/// `Ok(())` exactly when curl's output denotes a status and that status is listed.
pub fn check_http_code_response(expected_codes: &[i32], curl_output: Vec<u8>) -> (result: Result<
    (),
    (),
>)
    ensures
        result is Ok <==> (spec_http_code(curl_output@) is Some && expected_codes@.contains(
            spec_http_code(curl_output@)->0 as i32,
        )),
{
    let http_code = match utf8_to_http_code(curl_output) {
        Ok(code) => code,
        Err(()) => return Err(()),
    };
    let mut i: usize = 0;
    while i < expected_codes.len()
        invariant
            i <= expected_codes@.len(),
            spec_http_code(curl_output@) == Some(http_code as int),
            forall|k: int| 0 <= k < i ==> expected_codes@[k] != http_code,
        decreases expected_codes@.len() - i,
    {
        if http_code == expected_codes[i] {
            return Ok(());
        }
        i += 1;
    }
    Err(())
}

} // verus!
