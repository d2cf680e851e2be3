//! The bartender keeps a room in step: agents' worktrees with the source
//! repository, and the source repository with its remote.
pub mod cli;
pub mod git;
pub mod manager;
pub mod remote;
pub mod status;
pub mod sync;
