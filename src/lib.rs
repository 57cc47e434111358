//! Persistence layer of a handheld password manager: a fixed flash layout
//! with a bootstrap/healthcheck protocol, and a KDB1-style record store that
//! lives inside one bounds-checked region of it.

pub mod codec;
pub mod keepass;
pub mod storage;
