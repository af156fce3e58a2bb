//! What the agent keeps: one table for each kind of row, and the rules by which rows
//! are merged, decided, listed and dumped.

pub mod cases;
pub mod cold;
pub mod dump;
pub mod environment;
pub mod ingest_seq;
pub mod ledger;
pub mod memory;
pub mod records;
pub mod registry;
pub mod review;
pub mod tables;
