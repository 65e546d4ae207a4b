//! Mirrors a source directory tree into a destination tree with an external
//! one-way copy tool, then removes from the destination every entry that was
//! excluded from the mirror: hidden top-level entries and caller-supplied
//! paths. The crate holds the exclusion-to-deletion pipeline: computing the
//! exclusion set, re-rooting excluded source paths under the destination with
//! a containment guard, and deleting the targets through link-safe,
//! handle-relative traversal whose decisions are verified against an explicit
//! model of the destination tree.

pub mod engine;
pub mod exclusions;
pub mod fs_model;
pub mod laws;
pub mod paths;
pub mod sync;
pub mod translate;
