//! What each command decides, apart from reading the repository and printing.

pub mod board;
pub mod claim;
pub mod create;
pub mod depend;
pub mod doctor;
pub mod done;
pub mod edit;
pub mod init;
pub mod list;
pub mod release;
pub mod search;
pub mod set_session;
pub mod show;
pub mod status;
pub mod undepend;
