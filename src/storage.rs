//! The flash layout: a metadata sector followed by fixed, sector-aligned
//! regions, and the record store kept in one of them.

pub mod flash;
pub mod header;
pub mod keepass;
pub mod layout;
pub mod region;
pub mod startup;
