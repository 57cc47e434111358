//! The in-memory record store bound to one region.

use vstd::prelude::*;

use crate::keepass::entry::Entry;
use crate::keepass::group::Group;
use crate::keepass::header::KDBHeader;
use crate::storage::region::RegionHandle;

verus! {

/// Number of group slots.
pub const MAX_GROUPS: usize = 4;

/// Number of entry slots.
pub const MAX_ENTRIES: usize = 128;

/// A loaded record store: the region it lives in, its header, and the
/// groups and entries it holds, slot by slot.
#[derive(Clone, Debug)]
pub struct KeePassDb {
    pub storage: RegionHandle,
    pub signature1: u32,
    pub signature2: u32,
    pub header: KDBHeader,
    pub groups: [Option<Group>; MAX_GROUPS],
    pub entries: [Option<Entry>; MAX_ENTRIES],
}

impl KeePassDb {
    /// The counts fit the slots, and exactly the slots below each count are
    /// filled.
    pub open spec fn wf(&self) -> bool {
        &&& self.header.num_groups <= MAX_GROUPS
        &&& self.header.num_entries <= MAX_ENTRIES
        &&& forall|i: int|
            0 <= i < MAX_GROUPS ==> (#[trigger] self.groups@[i] is Some <==> i
                < self.header.num_groups)
        &&& forall|i: int|
            0 <= i < MAX_ENTRIES ==> (#[trigger] self.entries@[i] is Some <==> i
                < self.header.num_entries)
    }
}

} // verus!
