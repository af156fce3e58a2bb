//! The events table: what a rebuild drops, what the writer admits and when it
//! rebuilds, and how rows become columns.

pub mod actor;
pub mod columns;
pub mod dedup;
pub mod prune;
pub mod spans;
pub mod wire;
pub mod writer;
