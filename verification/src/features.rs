//! The operations on a repository: each takes the repository as it is and
//! leaves it as the operation makes it.

pub mod add;
pub mod checkout;
pub mod commit;
pub mod create_branch;
pub mod delete;
pub mod first_commit;
pub mod history;
pub mod init;
pub mod merge;
pub mod message;
pub mod persist;
pub mod revert;
pub mod rm;
pub mod show;
