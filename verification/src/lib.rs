//! Profile-scoped package and environment management.
//!
//! A user keeps several named profiles. Each profile has a set of packages and
//! an environment: PATH entries, variables and aliases. A ledger records every
//! installed package together with the profiles that depend on it, and at most
//! one profile is active at a time.
//!
//! - [`models`] holds the data model and its mathematical views.
//! - [`modules::state_manager`] is the state engine: installing, the five
//!   removal strategies, creating, switching and deleting profiles, and the
//!   proofs that ledger and registry stay in step.
//! - [`modules::environment`] renders an environment as shell source text and
//!   applies or reverses it on a process environment held in memory.
//! - [`modules::profile_switcher`] is the ordered protocol of a profile
//!   transition, as a state machine that asks its driver for one file-system
//!   action at a time.
//! - [`modules::config`], [`modules::alias`], [`modules::install`],
//!   [`modules::init`] and [`modules::git_mgr`] hold the rules on groups and
//!   aliases and the decisions behind installing, set-up and synchronisation.
//! - [`string_map`], [`string_set`] and [`text`] are the collections and text
//!   primitives that everything else is stated over.
//!
//! The library touches neither files nor the process environment, and it does
//! not read the clock. Whoever drives it owns those: it hands in the time,
//! carries out what the library asks for and writes the configuration out
//! whenever [`modules::config::ConfigManager::needs_save`] says that a save is
//! due.

pub mod error;
pub mod models;
pub mod modules;
pub mod string_map;
pub mod string_set;
pub mod text;
