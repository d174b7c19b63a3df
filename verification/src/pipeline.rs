//! The naming rules of the download pipeline: the repository that a line of the
//! project list names, the paths of the files kept for a repository, and the tally
//! of the lines of a git log.

use vstd::prelude::*;
use crate::downloader::{count_char, second_column, character_count, extract_second_column};
use crate::text::{spec_join, join_path, push_char, push_str, string_from};
use crate::ROOT_FOLDER;

verus! {

/// The prefix of the url of every GitHub repository.
pub const GITHUB_PREFIX: &'static str = "https://github.com/";

/// `s` with every occurrence of `pattern` removed, scanning from left to right
/// (the occurrences removed do not overlap), as `str::replace(pattern, "")` does.
pub open spec fn remove_all(s: Seq<char>, pattern: Seq<char>) -> Seq<char>
    decreases s.len(),
{
    if s.len() == 0 || pattern.len() == 0 {
        s
    } else if pattern.len() <= s.len() && s.take(pattern.len() as int) == pattern {
        remove_all(s.skip(pattern.len() as int), pattern)
    } else {
        seq![s[0]] + remove_all(s.skip(1), pattern)
    }
}

/// `s` with every `from` replaced by `to`.
pub open spec fn replace_char(s: Seq<char>, from: char, to: char) -> Seq<char> {
    s.map_values(|c: char| if c == from { to } else { c })
}

/// The characters of a string, one per element.
fn chars_of(s: &str) -> (v: Vec<char>)
    ensures
        v@ == s@,
{
    let mut v: Vec<char> = Vec::new();
    for c in it: s.chars()
        invariant
            it.seq() == s@,
            v@ == s@.take(it.index()),
    {
        proof {
            assert(s@.take(it.index() + 1) == s@.take(it.index()).push(c));
        }
        v.push(c);
    }
    proof {
        assert(s@.take(s@.len() as int) == s@);
    }
    v
}

proof fn lemma_remove_all_skip(s: Seq<char>, pattern: Seq<char>, i: int)
    requires
        0 <= i < s.len(),
        pattern.len() > 0,
    ensures
        remove_all(s.skip(i), pattern) == if pattern.len() <= s.len() - i && s.subrange(
            i,
            i + pattern.len(),
        ) == pattern {
            remove_all(s.skip(i + pattern.len()), pattern)
        } else {
            seq![s[i]] + remove_all(s.skip(i + 1), pattern)
        },
{
    let t = s.skip(i);
    if pattern.len() <= t.len() {
        assert(t.take(pattern.len() as int) == s.subrange(i, i + pattern.len()));
        assert(t.skip(pattern.len() as int) == s.skip(i + pattern.len()));
    }
    assert(t.skip(1) == s.skip(i + 1));
    assert(t[0] == s[i]);
}

/// Removes every occurrence of `pattern` from `s`.
pub fn remove_all_occurrences(s: &str, pattern: &str) -> (r: String)
    ensures
        r@ == remove_all(s@, pattern@),
{
    let chars = chars_of(s);
    let pat = chars_of(pattern);
    let n = chars.len();
    let m = pat.len();
    let mut r = String::new();
    if m == 0 {
        return string_from(s);
    }
    let mut i: usize = 0;
    proof {
        assert(chars@.skip(0) =~= chars@);
        assert(r@ + remove_all(s@, pattern@) =~= remove_all(s@, pattern@));
    }
    while i < n
        invariant
            i <= n,
            n == chars@.len(),
            m == pat@.len(),
            m > 0,
            chars@ == s@,
            pat@ == pattern@,
            r@ + remove_all(chars@.skip(i as int), pat@) == remove_all(s@, pattern@),
        decreases n - i,
    {
        proof {
            lemma_remove_all_skip(chars@, pat@, i as int);
        }
        let mut matches = m <= n - i;
        let mut k: usize = 0;
        while matches && k < m
            invariant
                i < n,
                n == chars@.len(),
                m == pat@.len(),
                k <= m,
                matches ==> m <= n - i,
                matches ==> forall|j: int| 0 <= j < k ==> chars@[i + j] == pat@[j],
                !matches ==> !(m <= n - i && chars@.subrange(i as int, i + m) == pat@),
            decreases m - k,
        {
            if chars[i + k] != pat[k] {
                matches = false;
                proof {
                    if m <= n - i && chars@.subrange(i as int, i + m) == pat@ {
                        assert(chars@.subrange(i as int, i + m)[k as int] == chars@[i + k]);
                    }
                }
            }
            k += 1;
        }
        if matches {
            proof {
                assert(chars@.subrange(i as int, i + m) =~= pat@);
            }
            i += m;
        } else {
            let ghost before = r@;
            push_char(&mut r, chars[i]);
            proof {
                assert(r@ + remove_all(chars@.skip(i + 1), pat@) =~= before + (seq![chars@[i as int]]
                    + remove_all(chars@.skip(i + 1), pat@)));
            }
            i += 1;
        }
    }
    proof {
        assert(chars@.skip(n as int) =~= Seq::<char>::empty());
        assert(r@ + Seq::<char>::empty() =~= r@);
    }
    r
}

/// Replaces every `from` in `s` by `to`.
pub fn replace_character(s: &str, from: char, to: char) -> (r: String)
    ensures
        r@ == replace_char(s@, from, to),
{
    let mut r = String::new();
    for c in it: s.chars()
        invariant
            it.seq() == s@,
            r@ == replace_char(s@.take(it.index()), from, to),
    {
        proof {
            assert(replace_char(s@.take(it.index() + 1), from, to) =~= replace_char(
                s@.take(it.index()),
                from,
                to,
            ).push(if c == from { to } else { c }));
        }
        if c == from {
            push_char(&mut r, to);
        } else {
            push_char(&mut r, c);
        }
    }
    proof {
        assert(s@.take(s@.len() as int) == s@);
    }
    r
}

/// A repository as the download pipeline names it: an id made from its path on
/// GitHub (the account and the repository, joined by `_`), and its url.
pub struct NamedRepository {
    pub id: String,
    pub url: String,
}

/// Why a line of the project list names no repository, as std's `io::ErrorKind`
/// names it.
#[derive(Debug, Clone, Copy, PartialEq, Eq, Structural)]
pub enum InputError {
    /// The line has fewer than three columns.
    InvalidInput,
}

/// The path on GitHub that the second column of a line names: the column with every
/// GitHub url prefix removed.
pub open spec fn github_path(line: Seq<char>) -> Seq<char> {
    remove_all(second_column(line), GITHUB_PREFIX@)
}

/// The repository that a line of the project list names, if the line has at least
/// three columns: its url is the GitHub prefix followed by the path that the second
/// column names, and its id is that path with `/` replaced by `_`.
pub fn extract_git_repo_from_line(line_num: usize, str_line: String) -> (result: Result<
    NamedRepository,
    InputError,
>)
    requires
        count_char(str_line@, ',') <= u32::MAX,
    ensures
        count_char(str_line@, ',') < 2 ==> result == Err::<NamedRepository, InputError>(
            InputError::InvalidInput,
        ),
        count_char(str_line@, ',') >= 2 ==> {
            &&& result is Ok
            &&& result->Ok_0.url@ == GITHUB_PREFIX@ + github_path(str_line@)
            &&& result->Ok_0.id@ == replace_char(github_path(str_line@), '/', '_')
        },
{
    if character_count(&str_line, ',') < 2 {
        return Err(InputError::InvalidInput);
    }
    let column = extract_second_column(&str_line);
    let url_context = remove_all_occurrences(column.as_str(), GITHUB_PREFIX);
    let mut full_url = string_from(GITHUB_PREFIX);
    push_str(&mut full_url, url_context.as_str());
    let id = replace_character(url_context.as_str(), '/', '_');
    Ok(NamedRepository { id, url: full_url })
}

/// `<home>/<root folder>/<folder>/<id><extension>`.
pub open spec fn repository_file(
    home: Seq<char>,
    folder: Seq<char>,
    id: Seq<char>,
    extension: Seq<char>,
) -> Seq<char> {
    spec_join(spec_join(spec_join(home, ROOT_FOLDER@), folder), id + extension)
}

fn repository_file_path(home_dir: &String, folder: &str, id: &String, extension: &str) -> (path:
    String)
    ensures
        path@ == repository_file(home_dir@, folder@, id@, extension@),
{
    let root = join_path(home_dir, ROOT_FOLDER);
    let folder_path = join_path(&root, folder);
    let mut file_name = string_from(id.as_str());
    push_str(&mut file_name, extension);
    join_path(&folder_path, file_name.as_str())
}

/// Where the git log of a repository is saved: `<home>/<root folder>/git_log/<id>.log`.
pub fn get_git_log_file_path_as_string(home_dir: &String, id: &String) -> (path: String)
    ensures
        path@ == repository_file(home_dir@, "git_log"@, id@, ".log"@),
{
    repository_file_path(home_dir, "git_log", id, ".log")
}

/// Where a repository is cloned: `<home>/<root folder>/repos/<id>`.
pub fn get_git_folder_from_project_as_string(home_dir: &String, id: &String) -> (path: String)
    ensures
        path@ == repository_file(home_dir@, "repos"@, id@, ""@),
{
    repository_file_path(home_dir, "repos", id, "")
}

/// Where the tally of a repository's git log is written:
/// `<home>/<root folder>/analysis_csv/<id>.csv`.
pub fn get_git_log_output_file_path_as_string(home_dir: &String, id: &String) -> (path: String)
    ensures
        path@ == repository_file(home_dir@, "analysis_csv"@, id@, ".csv"@),
{
    repository_file_path(home_dir, "analysis_csv", id, ".csv")
}

/// Where the pipeline records the logs it could not read: `<home>/<root folder>/bad_logs.txt`.
pub fn get_bad_log_file_as_string(home_dir: &String) -> (path: String)
    ensures
        path@ == spec_join(spec_join(home_dir@, ROOT_FOLDER@), "bad_logs.txt"@),
{
    let root = join_path(home_dir, ROOT_FOLDER);
    join_path(&root, "bad_logs.txt")
}

/// Number of occurrences of `line` in `lines`.
pub open spec fn occurrences(lines: Seq<String>, line: Seq<char>) -> nat
    decreases lines.len(),
{
    if lines.len() == 0 {
        0
    } else {
        occurrences(lines.drop_last(), line) + if lines.last()@ == line {
            1nat
        } else {
            0nat
        }
    }
}

/// The distinct lines of `lines`, in the order in which they first occur.
pub open spec fn first_occurrences(lines: Seq<String>) -> Seq<Seq<char>>
    decreases lines.len(),
{
    if lines.len() == 0 {
        Seq::empty()
    } else {
        let before = first_occurrences(lines.drop_last());
        if before.contains(lines.last()@) {
            before
        } else {
            before.push(lines.last()@)
        }
    }
}

/// The tally of a git log: each distinct line once, with the number of times it
/// occurs, in the order the lines first occur.
///
/// The tally is a list of pairs rather than a `HashMap`: vstd specifies `HashMap`
/// only for key types whose hashing it models, and `String` is not among them.
pub fn tally_log_lines(lines: &Vec<String>) -> (tally: Vec<(String, usize)>)
    ensures
        tally@.map_values(|e: (String, usize)| e.0@) == first_occurrences(lines@),
        tally@.map_values(|e: (String, usize)| e.0@).no_duplicates(),
        forall|k: int|
            0 <= k < tally@.len() ==> (#[trigger] tally@[k]).1 == occurrences(lines@, tally@[k].0@)
                && tally@[k].1 > 0,
        forall|j: int|
            0 <= j < lines@.len() ==> exists|k: int|
                0 <= k < tally@.len() && #[trigger] tally@[k].0@ == (#[trigger] lines@[j])@,
{
    let mut tally: Vec<(String, usize)> = Vec::new();
    let mut i: usize = 0;
    while i < lines.len()
        invariant
            i <= lines@.len(),
            tally@.map_values(|e: (String, usize)| e.0@) == first_occurrences(lines@.take(i as int)),
            tally@.map_values(|e: (String, usize)| e.0@).no_duplicates(),
            forall|k: int|
                0 <= k < tally@.len() ==> (#[trigger] tally@[k]).1 == occurrences(
                    lines@.take(i as int),
                    tally@[k].0@,
                ) && tally@[k].1 > 0,
            forall|j: int|
                0 <= j < i ==> exists|k: int|
                    0 <= k < tally@.len() && #[trigger] tally@[k].0@ == (#[trigger] lines@[j])@,
            forall|x: Seq<char>|
                occurrences(lines@.take(i as int), x) > 0 ==> exists|k: int|
                    0 <= k < tally@.len() && #[trigger] tally@[k].0@ == x,
            forall|k: int| 0 <= k < tally@.len() ==> (#[trigger] tally@[k]).1 <= i,
        decreases lines@.len() - i,
    {
        let ghost before = lines@.take(i as int);
        let ghost after = lines@.take(i + 1);
        proof {
            assert(after.drop_last() == before);
            assert(after.last() == lines@[i as int]);
        }
        let line = &lines[i];
        let mut found: Option<usize> = None;
        let mut k: usize = 0;
        while k < tally.len()
            invariant
                k <= tally@.len(),
                found is None ==> forall|m: int| 0 <= m < k ==> tally@[m].0@ != line@,
                found matches Some(f) ==> f < tally@.len() && tally@[f as int].0@ == line@,
            decreases tally@.len() - k,
        {
            if found.is_none() && tally[k].0 == *line {
                found = Some(k);
            }
            k += 1;
        }
        let ghost old_tally = tally@;
        match found {
            Some(f) => {
                let entry_line = tally[f].0.clone();
                let count = tally[f].1;
                tally.set(f, (entry_line, count + 1));
                proof {
                    assert(tally@.map_values(|e: (String, usize)| e.0@) =~= old_tally.map_values(
                        |e: (String, usize)| e.0@,
                    ));
                    assert(old_tally.map_values(|e: (String, usize)| e.0@)[f as int] == line@);
                    assert(old_tally.map_values(|e: (String, usize)| e.0@).contains(line@));
                    assert forall|k: int| 0 <= k < tally@.len() implies (#[trigger] tally@[k]).1
                        == occurrences(after, tally@[k].0@) && tally@[k].1 > 0 by {
                        if k != f {
                            assert(old_tally.map_values(|e: (String, usize)| e.0@)[k]
                                != old_tally.map_values(|e: (String, usize)| e.0@)[f as int]);
                        }
                    }
                    assert forall|j: int| 0 <= j < i + 1 implies exists|k: int|
                        0 <= k < tally@.len() && #[trigger] tally@[k].0@ == (
                        #[trigger] lines@[j])@ by {
                        if j < i {
                            let k = choose|k: int|
                                0 <= k < old_tally.len() && #[trigger] old_tally[k].0@ == lines@[j]@;
                            assert(tally@[k].0@ == lines@[j]@);
                        } else {
                            assert(tally@[f as int].0@ == lines@[j]@);
                        }
                    }
                    assert forall|x: Seq<char>| occurrences(after, x) > 0 implies exists|k: int|
                        0 <= k < tally@.len() && #[trigger] tally@[k].0@ == x by {
                        if occurrences(before, x) > 0 {
                            let k = choose|k: int| 0 <= k < old_tally.len() && #[trigger] old_tally[k].0@ == x;
                            assert(tally@[k].0@ == x);
                        } else {
                            assert(tally@[f as int].0@ == x);
                        }
                    }
                }
            },
            None => {
                tally.push((line.clone(), 1));
                proof {
                    assert(occurrences(before, line@) == 0) by {
                        if occurrences(before, line@) > 0 {
                            let k = choose|k: int| 0 <= k < old_tally.len() && #[trigger] old_tally[k].0@ == line@;
                        }
                    }
                    assert(tally@.map_values(|e: (String, usize)| e.0@) =~= old_tally.map_values(
                        |e: (String, usize)| e.0@,
                    ).push(line@));
                    assert(!old_tally.map_values(|e: (String, usize)| e.0@).contains(line@)) by {
                        if old_tally.map_values(|e: (String, usize)| e.0@).contains(line@) {
                            let keys = old_tally.map_values(|e: (String, usize)| e.0@);
                            let m = choose|m: int| 0 <= m < keys.len() && #[trigger] keys[m] == line@;
                            assert(old_tally[m].0@ == line@);
                        }
                    }
                    assert forall|k: int| 0 <= k < tally@.len() implies (#[trigger] tally@[k]).1
                        == occurrences(after, tally@[k].0@) && tally@[k].1 > 0 by {
                        if k < old_tally.len() {
                            assert(tally@[k] == old_tally[k]);
                        }
                    }
                    assert forall|j: int| 0 <= j < i + 1 implies exists|k: int|
                        0 <= k < tally@.len() && #[trigger] tally@[k].0@ == (
                        #[trigger] lines@[j])@ by {
                        if j < i {
                            let k = choose|k: int|
                                0 <= k < old_tally.len() && #[trigger] old_tally[k].0@ == lines@[j]@;
                            assert(tally@[k].0@ == lines@[j]@);
                        } else {
                            assert(tally@[old_tally.len() as int].0@ == lines@[j]@);
                        }
                    }
                    assert forall|x: Seq<char>| occurrences(after, x) > 0 implies exists|k: int|
                        0 <= k < tally@.len() && #[trigger] tally@[k].0@ == x by {
                        if occurrences(before, x) > 0 {
                            let k = choose|k: int| 0 <= k < old_tally.len() && #[trigger] old_tally[k].0@ == x;
                            assert(tally@[k].0@ == x);
                        } else {
                            assert(tally@[old_tally.len() as int].0@ == x);
                        }
                    }
                }
            },
        }
        i += 1;
    }
    proof {
        assert(lines@.take(lines@.len() as int) == lines@);
    }
    tally
}

} // verus!
