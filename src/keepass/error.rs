use vstd::prelude::*;

verus! {

/// Failures of the record store.
#[derive(Clone, Copy, Debug, PartialEq, Eq, Structural)]
pub enum KDBError {
    /// The database is corrupted, or an access fell outside its region.
    DatabaseIntegrityError,
    /// The selected item does not exist.
    EntryNotFound,
}

} // verus!
