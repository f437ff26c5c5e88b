//! Storage layer for issues.

pub mod db;
pub mod db_laws;
pub mod markdown;
pub mod metadata;
pub mod records;

pub use db::{Claim, Database};
pub use markdown::{extract_title_heading, format_issue, parse_issue};
pub use metadata::Metadata;
pub use records::{
    load_all_issues_from_data_branch, load_issue, load_issue_from_data_branch, IssueInfo,
};
