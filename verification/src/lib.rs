//! A verified compiler for DNS blocklists.
//!
//! Candidate domains gathered from local files and remote lists are parsed,
//! sorted by specificity, deduplicated against the domain hierarchy and an
//! allow-list closure, and serialized as a plain list or a response-policy
//! zone file.

pub mod allowlist;
pub mod cli;
pub mod compile;
pub mod config;
pub mod dedup;
pub mod domain;
pub mod fetch_cli;
pub mod filter_cli;
pub mod hierarchy;
pub mod lists;
pub mod man;
pub mod name_set;
pub mod output;
pub mod scan;
pub mod sorting;
pub mod statistics;
