//! Evidence sources for knowledge bases.
//!
//! Each source turns material that lives elsewhere (a directory tree, a git
//! repository, another knowledge base, a mailbox, a SOQL query) into hashed
//! evidence items. This crate holds what the sources decide and compute:
//! configuration, selection, naming, paging, retrying, deduplication and the
//! shape of every item. It performs no I/O. Where a source has to read or send
//! something, the crate offers the decision as a step from what is known to
//! what to do next, and the program around it performs that action.

pub mod digest;
pub mod document;
pub mod git;
pub mod graph;
pub mod json;
pub mod kb;
mod lists;
pub mod pack;
pub mod patterns;
pub mod plugin;
pub mod salesforce;
pub mod sorting;
pub mod sweep;
pub mod tap;
pub mod text;
pub mod textmap;
pub mod tree;
