//! The KDB1-style record schema: header, groups, entries and their times.

pub mod db;
pub mod entry;
pub mod error;
pub mod group;
pub mod header;
pub mod times;

pub use db::KeePassDb;
pub use entry::Entry;
pub use error::KDBError;
pub use group::Group;
pub use header::{KDBHeader, HEADER_SIZE};
pub use times::Times;
