//! The temporal analysis of a repository: its mainline is walked, commits
//! are sampled and analyzed one by one, and the results are cached under
//! keys that change with everything the analysis depends on.

pub mod analysis_cache;
pub mod chronograph_engine;
pub mod commit_analysis;
pub mod dependency_analyzer;
pub mod file_search;
pub mod fingerprint;
pub mod git_navigator;
pub mod lakos_analyzer;
pub mod ordering;
pub mod progress;
pub mod sampling;
pub mod subfolder;
pub mod tally;
pub mod text;
