//! PostgreSQL-aware analysis of SQL statements.

pub mod analysis;
pub mod audit;
pub mod fingerprint;
pub mod keyword;
pub mod laws;
pub mod parsable;
pub mod reader;
pub mod scan;
pub mod token;
