//! Cold storage and replication: what is sealed, shipped, pulled, thawed and
//! rewritten, and when.

pub mod archiver;
pub mod erase;
pub mod ha;
pub mod pass;
pub mod settings;
pub mod thaw;
