//! Verified core of the garmr security event store.

pub mod archive;
pub mod clock;
pub mod events;
pub mod guard;
pub mod hash;
pub mod le;
pub mod lock;
pub mod names;
pub mod numerals;
pub mod order;
pub mod retention;
pub mod route;
pub mod search;
pub mod sql;
pub mod state;
pub mod text;
