//! Core types and functionality.

pub mod checkout;
pub mod config;
pub mod git;
pub mod issue;
pub mod merge;
pub mod project;
pub mod status;
pub mod tree;

pub use checkout::{cherry_pick, cleanup_working_file};
pub use config::Config;
pub use git::{
    commit_to_branch, find_issue_file_in_branch, read_file_from_branch, remove_from_branch,
};
pub use issue::{Issue, Timestamp};
pub use merge::merge_branches;
pub use project::Project;
pub use status::Status;
