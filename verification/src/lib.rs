//! Finds unused variables in a tree of Terraform files.
//!
//! The library extracts three kinds of named entries from file contents
//! (variable definitions, variable uses and assigned values), matches them
//! against each other by name over the whole tree, and renders what is left
//! over: definitions that nothing uses and values that nothing defines.

pub mod analysis;
pub mod entry;
pub mod pattern;
pub mod report;
pub mod resolve;
pub mod source;
