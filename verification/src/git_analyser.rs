//! The kinds of change that git reports for a file, and the paths of the git logs.

use vstd::prelude::*;
use crate::models::ClonedProject;
use crate::text::{spec_join, join_path, decimal, usize_to_decimal, string_from};

verus! {

/// The change that git reports for a file in a commit.
#[derive(PartialEq, Eq, Structural)]
pub enum Git {
    DELETED,
    RENAMED,
    ADDED,
    MODIFIED,
    UNKNOWN,
}

/// The letter with which git reports a change.
pub open spec fn git_letter(g: Git) -> char {
    match g {
        Git::DELETED => 'D',
        Git::RENAMED => 'R',
        Git::ADDED => 'A',
        Git::MODIFIED => 'M',
        Git::UNKNOWN => 'U',
    }
}

/// The change that git's letter `action` reports; anything else is unknown.
pub open spec fn git_of_action(action: Seq<char>) -> Git {
    if action == seq!['D'] {
        Git::DELETED
    } else if action == seq!['A'] {
        Git::ADDED
    } else if action == seq!['R'] {
        Git::RENAMED
    } else if action == seq!['M'] {
        Git::MODIFIED
    } else {
        Git::UNKNOWN
    }
}

impl Git {
    pub fn to_string(&self) -> (s: String)
        ensures
            s@ == seq![git_letter(*self)],
    {
        let s = match *self {
            Git::DELETED => string_from("D"),
            Git::RENAMED => string_from("R"),
            Git::ADDED => string_from("A"),
            Git::MODIFIED => string_from("M"),
            Git::UNKNOWN => string_from("U"),
        };
        proof {
            reveal_strlit("D");
            reveal_strlit("R");
            reveal_strlit("A");
            reveal_strlit("M");
            reveal_strlit("U");
        }
        s
    }

    pub fn to_enum(action: &String) -> (g: Git)
        ensures
            g == git_of_action(action@),
    {
        let d = string_from("D");
        let a = string_from("A");
        let r = string_from("R");
        let m = string_from("M");
        proof {
            reveal_strlit("D");
            reveal_strlit("A");
            reveal_strlit("R");
            reveal_strlit("M");
            assert(d@ =~= seq!['D']);
            assert(a@ =~= seq!['A']);
            assert(r@ =~= seq!['R']);
            assert(m@ =~= seq!['M']);
        }
        if *action == d {
            Git::DELETED
        } else if *action == a {
            Git::ADDED
        } else if *action == r {
            Git::RENAMED
        } else if *action == m {
            Git::MODIFIED
        } else {
            Git::UNKNOWN
        }
    }
}

/// Reading back the letter of a change gives the change.
pub proof fn lemma_git_letter_round_trip(g: Git)
    ensures
        git_of_action(seq![git_letter(g)]) == g,
{
    assert(seq!['D'] != seq!['A']) by { assert(seq!['D'][0] != seq!['A'][0]); }
    assert(seq!['D'] != seq!['R']) by { assert(seq!['D'][0] != seq!['R'][0]); }
    assert(seq!['D'] != seq!['M']) by { assert(seq!['D'][0] != seq!['M'][0]); }
    assert(seq!['D'] != seq!['U']) by { assert(seq!['D'][0] != seq!['U'][0]); }
    assert(seq!['A'] != seq!['R']) by { assert(seq!['A'][0] != seq!['R'][0]); }
    assert(seq!['A'] != seq!['M']) by { assert(seq!['A'][0] != seq!['M'][0]); }
    assert(seq!['A'] != seq!['U']) by { assert(seq!['A'][0] != seq!['U'][0]); }
    assert(seq!['R'] != seq!['M']) by { assert(seq!['R'][0] != seq!['M'][0]); }
    assert(seq!['R'] != seq!['U']) by { assert(seq!['R'][0] != seq!['U'][0]); }
    assert(seq!['M'] != seq!['U']) by { assert(seq!['M'][0] != seq!['U'][0]); }
}

/// `<home>/project_analyser/git_logs/<id>`: where the git log of a project is kept.
pub open spec fn git_log_path(home: Seq<char>, id: usize) -> Seq<char> {
    spec_join(spec_join(spec_join(home, "project_analyser"@), "git_logs"@), decimal(id as nat))
}

/// The path of the git log of a project, below the home directory `home_dir`.
pub fn get_git_log_path(home_dir: &String, cloned_project: &ClonedProject) -> (path: String)
    ensures
        path@ == git_log_path(home_dir@, cloned_project.github.id),
{
    let first = join_path(home_dir, "project_analyser");
    let second = join_path(&first, "git_logs");
    let id = usize_to_decimal(cloned_project.github.id);
    join_path(&second, id.as_str())
}

/// The step of the analysis that follows the generation of a cloned project's git
/// log: it yields the project back.
/// Generating the log runs `git log`, a process, which this library does not start:
/// the program does it before this step.
pub fn parse_git_log(cloned_project: &ClonedProject) -> (result: Result<&ClonedProject, ()>)
    ensures
        result == Ok::<&ClonedProject, ()>(cloned_project),
{
    Ok(cloned_project)
}

} // verus!
