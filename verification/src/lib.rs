//! Verified core of a toolset that characterises software projects from their git
//! history: parsing of project lists and tool output, weekly activity time series
//! built from commit logs, and the integer features extracted from those series.

use vstd::prelude::*;

pub mod calendar;
pub mod config;
pub mod downloader;
pub mod git_analyser;
pub mod extract_measures_and_features;
pub mod models;
pub mod peaks;
pub mod pipeline;
pub mod series;
pub mod text;
pub mod utils;

verus! {

/// Name of the folder, below the home directory, where all data of the tool lives.
pub const ROOT_FOLDER: &'static str = "project_downloader";

/// The folder, below the home directory, where all data of the tool lives.
pub fn get_root_folder() -> (folder: String)
    ensures
        folder@ == ROOT_FOLDER@,
{
    text::string_from(ROOT_FOLDER)
}

} // verus!
