//! The records that describe a project and its local copy.

use vstd::prelude::*;
use crate::text::{spec_join, join_path, decimal, usize_to_decimal, push_str};

verus! {

/// A project to analyse: its numeric id and the url it is cloned from.
pub struct GitRepository {
    pub id: usize,
    pub url: String,
}

/// A project together with the paths of its local copy and of the files made from it.
pub struct ClonedProject {
    pub github: GitRepository,
    pub path: String,
    pub output_log_path: String,
    pub input_log_path: String,
    pub analysis_csv_file: String,
}

/// `<home>/project_analyser/git_log/<id>.csv`: where the analysis of a project is written.
pub open spec fn analysis_csv_path(home: Seq<char>, id: usize) -> Seq<char> {
    spec_join(
        spec_join(spec_join(home, "project_analyser"@), "git_log"@),
        decimal(id as nat) + ".csv"@,
    )
}

impl ClonedProject {
    /// Helper function to create a new struct: the project cloned into `file_path`,
    /// below the home directory `home_dir`.
    pub fn new(github: GitRepository, file_path: String, home_dir: &String) -> (project:
        ClonedProject)
        ensures
            project.github == github,
            project.path@ == file_path@,
            project.output_log_path@ == spec_join(file_path@, "pa_git.log"@),
            project.input_log_path@ == spec_join(file_path@, ".git"@),
            project.analysis_csv_file@ == analysis_csv_path(home_dir@, github.id),
    {
        let first = join_path(home_dir, "project_analyser");
        let second = join_path(&first, "git_log");
        let mut file_name = usize_to_decimal(github.id);
        push_str(&mut file_name, ".csv");
        let csv_path = join_path(&second, file_name.as_str());
        ClonedProject {
            github,
            analysis_csv_file: csv_path,
            output_log_path: join_path(&file_path, "pa_git.log"),
            input_log_path: join_path(&file_path, ".git"),
            path: file_path,
        }
    }
}

} // verus!
