//! Git-backed issue tracker: the verified core.
//!
//! Records live as files on a data branch of the host repository; a small ledger hands out
//! identifiers and claims. This crate holds the rules of both, stated over plain values.

pub mod commands;
pub mod domain;
pub mod error;
pub mod output;
pub mod storage;
pub mod text;

pub use crate::domain::{Config, Issue, Project, Status, Timestamp};
pub use crate::error::{ItackError, Result};
