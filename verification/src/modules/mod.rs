//! The components that work on the data model.

pub mod alias;
pub mod config;
pub mod environment;
pub mod git_mgr;
pub mod init;
pub mod install;
pub mod profile_switcher;
pub mod state_manager;
