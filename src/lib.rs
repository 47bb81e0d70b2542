//! Configuration expansion and repository orchestration for a tree of
//! git-hosted package sources.

pub mod error;
pub mod spec_string;
pub mod text;
pub mod config;
pub mod invocation;
pub mod reconcile;
pub mod package;
