//! The record store's life in its region: two signatures, the header, the
//! group table and the entry table, laid out back to back.

use vstd::prelude::*;

use crate::codec::{le_u32_at, push_bytes, push_u32_le, u32_at, u32_le};
use crate::keepass::db::{KeePassDb, MAX_ENTRIES, MAX_GROUPS};
use crate::keepass::entry::{Entry, ENTRY_SIZE};
use crate::keepass::error::KDBError;
use crate::keepass::group::{Group, GROUP_SIZE};
use crate::keepass::header::{KDBHeader, HEADER_SIZE, KDB_SIGNATURE1, KDB_SIGNATURE2};
use crate::storage::flash::{written, Flash};
use crate::storage::header::{get_user_storage_offset, LAYOUT_HEADER_SIZE};
use crate::storage::layout::{descriptor_at, stored_descriptor};
use crate::storage::region::{DataRegion, RegionDescriptor, RegionHandle, REGION_DESCRIPTOR_SIZE};

verus! {

pub const SIGNATURE1_OFFSET_REL: u32 = 0;

pub const SIGNATURE2_OFFSET_REL: u32 = 4;

pub const HEADER_OFFSET_REL: u32 = 8;

/// Bytes of a freshly initialized store: both signatures and the header.
pub const INITIAL_STORE_SIZE: usize = 124;

/// Offset of the group table inside the region.
pub fn groups_offset_rel() -> (r: u32)
    ensures
        r == HEADER_OFFSET_REL + HEADER_SIZE,
{
    HEADER_OFFSET_REL + HEADER_SIZE as u32
}

/// Offset of the entry table inside the region, after every group slot.
pub fn entries_offset_rel() -> (r: u32)
    ensures
        r == HEADER_OFFSET_REL + HEADER_SIZE + MAX_GROUPS * GROUP_SIZE,
{
    groups_offset_rel() + (MAX_GROUPS as u32 * GROUP_SIZE as u32)
}

/// Offset of group slot `i` inside the region.
pub open spec fn group_slot(i: int) -> int {
    HEADER_OFFSET_REL + HEADER_SIZE + GROUP_SIZE * i
}

/// Offset of entry slot `i` inside the region.
pub open spec fn entry_slot(i: int) -> int {
    HEADER_OFFSET_REL + HEADER_SIZE + MAX_GROUPS * GROUP_SIZE + ENTRY_SIZE * i
}

/// The `len` bytes at `rel` lie inside `region` and inside a device holding `img`.
pub open spec fn accessible(img: Seq<u8>, region: RegionHandle, rel: int, len: int) -> bool {
    rel + len <= region.capacity && region.base + rel + len <= img.len()
}

/// The `len` bytes at `rel` inside `region`.
pub open spec fn region_bytes(img: Seq<u8>, region: RegionHandle, rel: int, len: int) -> Seq<u8> {
    img.subrange(region.base + rel, region.base + rel + len)
}

/// The 32-bit value stored at `rel` inside `region`.
pub open spec fn region_u32(img: Seq<u8>, region: RegionHandle, rel: int) -> u32 {
    le_u32_at(region_bytes(img, region, rel, 4), 0)
}

/// The absolute offset of `relative_offset`, when `len` bytes from it lie
/// inside the region; the integrity error otherwise.
pub fn checked_absolute(region: RegionHandle, relative_offset: u32, len: usize) -> (r: Result<
    u32,
    KDBError,
>)
    ensures
        r is Ok <==> relative_offset + len <= region.capacity && region.base + relative_offset
            <= u32::MAX,
        r matches Ok(a) ==> a == region.base + relative_offset,
        r matches Err(e) ==> e == KDBError::DatabaseIntegrityError,
{
    if !region.contains_range(relative_offset, len) {
        return Err(KDBError::DatabaseIntegrityError);
    }
    match region.absolute(relative_offset) {
        Some(a) => Ok(a),
        None => Err(KDBError::DatabaseIntegrityError),
    }
}

/// Absolute offset of the stored descriptor of `kind`.
pub fn descriptor_offset(kind: DataRegion) -> (r: u32)
    ensures
        r == descriptor_at(kind.spec_index() as int),
{
    get_user_storage_offset() + LAYOUT_HEADER_SIZE as u32 + (REGION_DESCRIPTOR_SIZE as u32
        * kind.index() as u32)
}

/// Reads `len` bytes at `rel` inside `region`.
fn read_region(flash: &Flash, region: RegionHandle, rel: u32, len: usize) -> (r: Result<
    Vec<u8>,
    KDBError,
>)
    ensures
        flash@.len() <= u32::MAX,
        r is Ok <==> accessible(flash@, region, rel as int, len as int),
        r matches Ok(v) ==> v@ == region_bytes(flash@, region, rel as int, len as int),
        r matches Err(e) ==> e == KDBError::DatabaseIntegrityError,
{
    // The device's size, a u32, bounds every address on it.
    let _size = flash.capacity();
    let abs = match checked_absolute(region, rel, len) {
        Ok(a) => a,
        Err(e) => return Err(e),
    };
    match flash.read(abs, len) {
        Ok(v) => Ok(v),
        Err(_) => Err(KDBError::DatabaseIntegrityError),
    }
}

/// Writes `data` at `rel` inside `region`; nothing changes when it does not fit.
fn write_region(flash: &mut Flash, region: RegionHandle, rel: u32, data: &[u8]) -> (r: Result<
    (),
    KDBError,
>)
    ensures
        old(flash)@.len() <= u32::MAX,
        r is Ok <==> accessible(old(flash)@, region, rel as int, data@.len() as int),
        r is Ok ==> final(flash)@ == written(old(flash)@, region.base + rel, data@),
        r matches Err(e) ==> e == KDBError::DatabaseIntegrityError && final(flash)@ == old(
            flash,
        )@,
{
    // The device's size, a u32, bounds every address on it.
    let _size = flash.capacity();
    let abs = match checked_absolute(region, rel, data.len()) {
        Ok(a) => a,
        Err(e) => return Err(e),
    };
    match flash.write(abs, data) {
        Ok(()) => Ok(()),
        Err(_) => Err(KDBError::DatabaseIntegrityError),
    }
}

/// What `check_if_exists` finds in a region of a device holding `img`.
pub open spec fn exists_spec(img: Seq<u8>, region: RegionHandle) -> Result<bool, KDBError> {
    if !accessible(img, region, SIGNATURE1_OFFSET_REL as int, 4) {
        Err(KDBError::DatabaseIntegrityError)
    } else if region_u32(img, region, SIGNATURE1_OFFSET_REL as int) != KDB_SIGNATURE1 {
        Ok(false)
    } else if !accessible(img, region, SIGNATURE2_OFFSET_REL as int, 4) {
        Err(KDBError::DatabaseIntegrityError)
    } else {
        Ok(region_u32(img, region, SIGNATURE2_OFFSET_REL as int) == KDB_SIGNATURE2)
    }
}

/// The bytes `initialize_db` writes: both signatures, then an all-zero header.
pub open spec fn initial_store() -> Seq<u8> {
    u32_le(KDB_SIGNATURE1) + u32_le(KDB_SIGNATURE2) + Seq::new(HEADER_SIZE as nat, |i: int| 0u8)
}

/// Both signatures are stored and the header can be read.
pub open spec fn signed(img: Seq<u8>, region: RegionHandle) -> bool {
    &&& accessible(img, region, 0, HEADER_OFFSET_REL + HEADER_SIZE)
    &&& region_u32(img, region, SIGNATURE1_OFFSET_REL as int) == KDB_SIGNATURE1
    &&& region_u32(img, region, SIGNATURE2_OFFSET_REL as int) == KDB_SIGNATURE2
}

/// The header stored in `region`.
pub open spec fn header_bytes(img: Seq<u8>, region: RegionHandle) -> Seq<u8> {
    region_bytes(img, region, HEADER_OFFSET_REL as int, HEADER_SIZE as int)
}

/// A region of a device holding `img` holds a store that `new` loads.
pub open spec fn loadable(img: Seq<u8>, region: RegionHandle) -> bool {
    let ng = le_u32_at(header_bytes(img, region), 40);
    let ne = le_u32_at(header_bytes(img, region), 44);
    &&& signed(img, region)
    &&& ng <= MAX_GROUPS
    &&& ne <= MAX_ENTRIES
    &&& forall|i: int| 0 <= i < ng ==> accessible(img, region, #[trigger] group_slot(i), GROUP_SIZE as int)
    &&& forall|i: int| 0 <= i < ne ==> accessible(img, region, #[trigger] entry_slot(i), ENTRY_SIZE as int)
}

/// Position of the record store's region in the layout table.
pub open spec fn keepass_index() -> int {
    DataRegion::KeePassDb.spec_index() as int
}

/// The record store's descriptor in the layout table can be read and decoded.
pub open spec fn bookkeeping_ok(img: Seq<u8>) -> bool {
    &&& descriptor_at(keepass_index()) + REGION_DESCRIPTOR_SIZE <= img.len()
    &&& stored_descriptor(img, keepass_index()) is Some
}

/// `img` after the record store's descriptor records that bytes up to `end`
/// of its region have been written.
pub open spec fn bookkept(img: Seq<u8>, end: u32) -> Seq<u8> {
    let d = stored_descriptor(img, keepass_index())->0;
    let used = if d.used_len >= end {
        d.used_len
    } else {
        end
    };
    written(img, descriptor_at(keepass_index()), RegionDescriptor { used_len: used, ..d }.spec_bytes())
}

/// Raises the advisory `used_len` of the record store's descriptor to at
/// least `end`.
fn bump_used_len(flash: &mut Flash, end: u32) -> (r: Result<(), KDBError>)
    ensures
        r is Ok <==> bookkeeping_ok(old(flash)@),
        r is Ok ==> final(flash)@ == bookkept(old(flash)@, end),
        r matches Err(e) ==> e == KDBError::DatabaseIntegrityError && final(flash)@ == old(
            flash,
        )@,
{
    let offset = descriptor_offset(DataRegion::KeePassDb);
    let buffer = match flash.read(offset, REGION_DESCRIPTOR_SIZE) {
        Ok(b) => b,
        Err(_) => return Err(KDBError::DatabaseIntegrityError),
    };
    let bytes = crate::codec::to_array::<REGION_DESCRIPTOR_SIZE>(&buffer);
    let mut descriptor = match RegionDescriptor::new_from_bytes(&bytes) {
        Some(d) => d,
        None => return Err(KDBError::DatabaseIntegrityError),
    };
    if descriptor.used_len < end {
        descriptor.used_len = end;
    }
    match flash.write(offset, &descriptor.to_bytes()) {
        Ok(()) => Ok(()),
        Err(_) => Err(KDBError::DatabaseIntegrityError),
    }
}

/// `img` after `create_group` appends `group` to `db`: the record, the
/// bookkeeping, then the header with one more group.
pub open spec fn group_appended(img: Seq<u8>, db: KeePassDb, group: Group) -> Seq<u8> {
    let n = db.header.num_groups as int;
    let region = db.storage;
    let with_record = written(img, region.base + group_slot(n), group.spec_bytes());
    let header = KDBHeader { num_groups: (n + 1) as u32, ..db.header };
    written(
        bookkept(with_record, group_slot(n + 1) as u32),
        region.base + HEADER_OFFSET_REL,
        header.spec_bytes(),
    )
}

/// `img` after `create_entry` appends `entry` to `db`: the record, the
/// bookkeeping, then the header with one more entry.
pub open spec fn entry_appended(img: Seq<u8>, db: KeePassDb, entry: Entry) -> Seq<u8> {
    let n = db.header.num_entries as int;
    let region = db.storage;
    let with_record = written(img, region.base + entry_slot(n), entry.spec_bytes());
    let header = KDBHeader { num_entries: (n + 1) as u32, ..db.header };
    written(
        bookkept(with_record, entry_slot(n + 1) as u32),
        region.base + HEADER_OFFSET_REL,
        header.spec_bytes(),
    )
}

/// `after` is `img` once entry `k` of `db` was deleted: entries above `k`
/// each stored one slot lower, the header stored with one entry fewer, and
/// every other byte as it was.
pub open spec fn entry_deleted(img: Seq<u8>, after: Seq<u8>, db: KeePassDb, k: int) -> bool {
    let region = db.storage;
    let n = db.header.num_entries as int;
    let header = KDBHeader { num_entries: (n - 1) as u32, ..db.header };
    let header_start = region.base + HEADER_OFFSET_REL;
    &&& after.len() == img.len()
    &&& header_bytes(after, region) == header.spec_bytes()
    &&& forall|i: int|
        k <= i < n - 1 ==> region_bytes(after, region, #[trigger] entry_slot(i), ENTRY_SIZE as int)
            == db.entries@[i + 1]->0.spec_bytes()
    &&& forall|b: int|
        0 <= b < img.len() && !(header_start <= b < header_start + HEADER_SIZE) && !(region.base
            + entry_slot(k) <= b < region.base + entry_slot(n - 1)) ==> #[trigger] after[b]
            == img[b]
}

impl KeePassDb {
    /// `self` mirrors the store held in `region` of a device holding `img`.
    pub open spec fn loaded_from(&self, img: Seq<u8>, region: RegionHandle) -> bool {
        &&& self.storage == region
        &&& self.signature1 == KDB_SIGNATURE1
        &&& self.signature2 == KDB_SIGNATURE2
        &&& self.header.parsed_from(header_bytes(img, region))
        &&& forall|i: int|
            0 <= i < MAX_GROUPS ==> if i < self.header.num_groups {
                #[trigger] self.groups@[i] matches Some(g) && g.parsed_from(
                    region_bytes(img, region, group_slot(i), GROUP_SIZE as int),
                )
            } else {
                self.groups@[i] is None
            }
        &&& forall|i: int|
            0 <= i < MAX_ENTRIES ==> if i < self.header.num_entries {
                #[trigger] self.entries@[i] matches Some(e) && e.parsed_from(
                    region_bytes(img, region, entry_slot(i), ENTRY_SIZE as int),
                )
            } else {
                self.entries@[i] is None
            }
    }

    /// Whether `region` holds both signatures of a record store. The
    /// integrity error when a signature to read lies outside the region or
    /// the device.
    pub fn check_if_exists(flash: &Flash, region: RegionHandle) -> (r: Result<bool, KDBError>)
        ensures
            r == exists_spec(flash@, region),
    {
        let signature1 = read_region(flash, region, SIGNATURE1_OFFSET_REL, 4)?;
        if u32_at(signature1.as_slice(), 0) != KDB_SIGNATURE1 {
            return Ok(false);
        }
        let signature2 = read_region(flash, region, SIGNATURE2_OFFSET_REL, 4)?;
        if u32_at(signature2.as_slice(), 0) != KDB_SIGNATURE2 {
            return Ok(false);
        }
        Ok(true)
    }

    /// Loads the store held in `region`: checks both signatures, reads the
    /// header, refuses counts above the slot capacities, then decodes the
    /// stored groups and entries. The integrity error on any failure.
    pub fn new(flash: &Flash, region: RegionHandle) -> (r: Result<KeePassDb, KDBError>)
        ensures
            r is Ok <==> loadable(flash@, region),
            r matches Ok(db) ==> db.loaded_from(flash@, region) && db.wf(),
            r matches Err(e) ==> e == KDBError::DatabaseIntegrityError,
    {
        let ghost img = flash@;
        let signature1_buffer = read_region(flash, region, SIGNATURE1_OFFSET_REL, 4)?;
        let signature1 = u32_at(signature1_buffer.as_slice(), 0);
        if signature1 != KDB_SIGNATURE1 {
            return Err(KDBError::DatabaseIntegrityError);
        }
        let signature2_buffer = read_region(flash, region, SIGNATURE2_OFFSET_REL, 4)?;
        let signature2 = u32_at(signature2_buffer.as_slice(), 0);
        if signature2 != KDB_SIGNATURE2 {
            return Err(KDBError::DatabaseIntegrityError);
        }
        let header_buffer = read_region(flash, region, HEADER_OFFSET_REL, HEADER_SIZE)?;
        let header = KDBHeader::new_from_bytes(header_buffer.as_slice())?;
        if header.num_groups > MAX_GROUPS as u32 || header.num_entries > MAX_ENTRIES as u32 {
            return Err(KDBError::DatabaseIntegrityError);
        }
        let num_groups = header.num_groups as usize;
        let mut groups: [Option<Group>; MAX_GROUPS] = [None;MAX_GROUPS];
        let mut i: usize = 0;
        while i < num_groups
            invariant
                i <= num_groups <= MAX_GROUPS,
                num_groups == header.num_groups,
                header.parsed_from(header_bytes(img, region)),
                img == flash@,
                forall|j: int|
                    0 <= j < i ==> (#[trigger] groups@[j] matches Some(g) && g.parsed_from(
                        region_bytes(img, region, group_slot(j), GROUP_SIZE as int),
                    )),
                forall|j: int| i <= j < MAX_GROUPS ==> #[trigger] groups@[j] is None,
                forall|j: int|
                    0 <= j < i ==> accessible(img, region, #[trigger] group_slot(j), GROUP_SIZE as int),
            decreases num_groups - i,
        {
            let rel = groups_offset_rel() + (i as u32) * (GROUP_SIZE as u32);
            assert(rel == group_slot(i as int));
            let buffer = match read_region(flash, region, rel, GROUP_SIZE) {
                Ok(b) => b,
                Err(e) => {
                    assert(!accessible(img, region, group_slot(i as int), GROUP_SIZE as int));
                    return Err(e);
                },
            };
            groups[i] = Some(Group::new_from_bytes(buffer.as_slice()));
            i += 1;
        }
        let num_entries = header.num_entries as usize;
        let mut entries: [Option<Entry>; MAX_ENTRIES] = [None;MAX_ENTRIES];
        let mut i: usize = 0;
        while i < num_entries
            invariant
                i <= num_entries <= MAX_ENTRIES,
                num_entries == header.num_entries,
                header.parsed_from(header_bytes(img, region)),
                img == flash@,
                forall|j: int|
                    0 <= j < i ==> (#[trigger] entries@[j] matches Some(e) && e.parsed_from(
                        region_bytes(img, region, entry_slot(j), ENTRY_SIZE as int),
                    )),
                forall|j: int| i <= j < MAX_ENTRIES ==> #[trigger] entries@[j] is None,
                forall|j: int|
                    0 <= j < i ==> accessible(img, region, #[trigger] entry_slot(j), ENTRY_SIZE as int),
            decreases num_entries - i,
        {
            let rel = entries_offset_rel() + (i as u32) * (ENTRY_SIZE as u32);
            assert(rel == entry_slot(i as int));
            let buffer = match read_region(flash, region, rel, ENTRY_SIZE) {
                Ok(b) => b,
                Err(e) => {
                    assert(!accessible(img, region, entry_slot(i as int), ENTRY_SIZE as int));
                    return Err(e);
                },
            };
            entries[i] = Some(Entry::new_from_bytes(buffer.as_slice()));
            i += 1;
        }
        Ok(KeePassDb { storage: region, signature1, signature2, header, groups, entries })
    }

    /// Appends `group` in the next free group slot: writes the record first,
    /// then raises the region's `used_len`, then rewrites the header with
    /// one more group, then updates the loaded copy. The integrity error
    /// when the table is full, the slot lies outside the region or device,
    /// or the layout table cannot be read; the loaded copy is then unchanged.
    pub fn create_group(&mut self, group: Group, flash: &mut Flash) -> (r: Result<(), KDBError>)
        requires
            old(self).wf(),
        ensures
            final(self).wf(),
            ({
                let n = old(self).header.num_groups as int;
                let region = old(self).storage;
                r is Ok <==> n < MAX_GROUPS && accessible(
                    old(flash)@,
                    region,
                    group_slot(n),
                    GROUP_SIZE as int,
                ) && bookkeeping_ok(
                    written(old(flash)@, region.base + group_slot(n), group.spec_bytes()),
                )
            }),
            r is Ok ==> final(flash)@ == group_appended(old(flash)@, *old(self), group),
            r is Ok ==> final(self).header == (KDBHeader {
                num_groups: (old(self).header.num_groups + 1) as u32,
                ..old(self).header
            }),
            r is Ok ==> final(self).groups@ == old(self).groups@.update(
                old(self).header.num_groups as int,
                Some(group),
            ),
            r is Ok ==> final(self).entries == old(self).entries && final(self).storage == old(
                self,
            ).storage && final(self).signature1 == old(self).signature1 && final(self).signature2
                == old(self).signature2,
            r matches Err(e) ==> e == KDBError::DatabaseIntegrityError && *final(self) == *old(
                self,
            ),
            r is Err && (old(self).header.num_groups >= MAX_GROUPS || !accessible(
                old(flash)@,
                old(self).storage,
                group_slot(old(self).header.num_groups as int),
                GROUP_SIZE as int,
            )) ==> final(flash)@ == old(flash)@,
    {
        if self.header.num_groups >= MAX_GROUPS as u32 {
            return Err(KDBError::DatabaseIntegrityError);
        }
        let group_index = self.header.num_groups;
        assert(group_index * (GROUP_SIZE as u32) < 400) by (nonlinear_arith)
            requires
                group_index < 4,
        ;
        let relative_offset = groups_offset_rel() + group_index * GROUP_SIZE as u32;
        write_region(flash, self.storage, relative_offset, &group.to_bytes())?;
        bump_used_len(flash, relative_offset + GROUP_SIZE as u32)?;
        let mut header = self.header;
        header.num_groups = group_index + 1;
        write_region(flash, self.storage, HEADER_OFFSET_REL, &header.to_bytes())?;
        self.header = header;
        self.groups[group_index as usize] = Some(group);
        Ok(())
    }

    /// Appends `entry` in the next free entry slot, in the same order as
    /// `create_group`: record, `used_len`, header, loaded copy.
    pub fn create_entry(&mut self, entry: Entry, flash: &mut Flash) -> (r: Result<(), KDBError>)
        requires
            old(self).wf(),
        ensures
            final(self).wf(),
            ({
                let n = old(self).header.num_entries as int;
                let region = old(self).storage;
                r is Ok <==> n < MAX_ENTRIES && accessible(
                    old(flash)@,
                    region,
                    entry_slot(n),
                    ENTRY_SIZE as int,
                ) && bookkeeping_ok(
                    written(old(flash)@, region.base + entry_slot(n), entry.spec_bytes()),
                )
            }),
            r is Ok ==> final(flash)@ == entry_appended(old(flash)@, *old(self), entry),
            r is Ok ==> final(self).header == (KDBHeader {
                num_entries: (old(self).header.num_entries + 1) as u32,
                ..old(self).header
            }),
            r is Ok ==> final(self).entries@ == old(self).entries@.update(
                old(self).header.num_entries as int,
                Some(entry),
            ),
            r is Ok ==> final(self).groups == old(self).groups && final(self).storage == old(
                self,
            ).storage && final(self).signature1 == old(self).signature1 && final(self).signature2
                == old(self).signature2,
            r matches Err(e) ==> e == KDBError::DatabaseIntegrityError && *final(self) == *old(
                self,
            ),
            r is Err && (old(self).header.num_entries >= MAX_ENTRIES || !accessible(
                old(flash)@,
                old(self).storage,
                entry_slot(old(self).header.num_entries as int),
                ENTRY_SIZE as int,
            )) ==> final(flash)@ == old(flash)@,
    {
        if self.header.num_entries >= MAX_ENTRIES as u32 {
            return Err(KDBError::DatabaseIntegrityError);
        }
        let entry_index = self.header.num_entries;
        assert(entry_index * (ENTRY_SIZE as u32) < 128 * 372) by (nonlinear_arith)
            requires
                entry_index < 128,
        ;
        let relative_offset = entries_offset_rel() + entry_index * ENTRY_SIZE as u32;
        write_region(flash, self.storage, relative_offset, &entry.to_bytes())?;
        bump_used_len(flash, relative_offset + ENTRY_SIZE as u32)?;
        let mut header = self.header;
        header.num_entries = entry_index + 1;
        write_region(flash, self.storage, HEADER_OFFSET_REL, &header.to_bytes())?;
        self.header = header;
        self.entries[entry_index as usize] = Some(entry);
        Ok(())
    }

    /// Rewrites entry slot `entry_index` with `entry`, and nothing else. The
    /// integrity error, changing nothing, when the slot holds no entry or
    /// lies outside the region or device.
    pub fn update_entry(&mut self, entry_index: usize, entry: Entry, flash: &mut Flash) -> (r: Result<
        (),
        KDBError,
    >)
        requires
            old(self).wf(),
        ensures
            final(self).wf(),
            r is Ok <==> entry_index < old(self).header.num_entries && accessible(
                old(flash)@,
                old(self).storage,
                entry_slot(entry_index as int),
                ENTRY_SIZE as int,
            ),
            r is Ok ==> final(flash)@ == written(
                old(flash)@,
                old(self).storage.base + entry_slot(entry_index as int),
                entry.spec_bytes(),
            ),
            r is Ok ==> final(self).entries@ == old(self).entries@.update(
                entry_index as int,
                Some(entry),
            ),
            r is Ok ==> final(self).header == old(self).header && final(self).groups == old(
                self,
            ).groups && final(self).storage == old(self).storage && final(self).signature1 == old(
                self,
            ).signature1 && final(self).signature2 == old(self).signature2,
            r matches Err(e) ==> e == KDBError::DatabaseIntegrityError && *final(self) == *old(
                self,
            ) && final(flash)@ == old(flash)@,
    {
        if entry_index >= MAX_ENTRIES {
            return Err(KDBError::DatabaseIntegrityError);
        }
        if entry_index >= self.header.num_entries as usize {
            return Err(KDBError::DatabaseIntegrityError);
        }
        let relative_offset = entries_offset_rel() + (entry_index as u32) * ENTRY_SIZE as u32;
        write_region(flash, self.storage, relative_offset, &entry.to_bytes())?;
        self.entries[entry_index] = Some(entry);
        Ok(())
    }

    /// Removes entry `entry_index` and shifts every later entry down one
    /// slot, so that the table stays dense and keeps its order; then
    /// rewrites the header with one entry fewer. `EntryNotFound` when the
    /// slot holds no entry; the integrity error when the table's last used
    /// slot lies outside the region or device. Nothing changes on an error.
    pub fn delete_entry(&mut self, entry_index: usize, flash: &mut Flash) -> (r: Result<(), KDBError>)
        requires
            old(self).wf(),
        ensures
            final(self).wf(),
            ({
                let n = old(self).header.num_entries as int;
                &&& (r == Err::<(), KDBError>(KDBError::EntryNotFound) <==> entry_index >= n)
                &&& (r is Ok <==> entry_index < n && accessible(
                    old(flash)@,
                    old(self).storage,
                    entry_slot(n - 1),
                    ENTRY_SIZE as int,
                ))
            }),
            r is Err ==> *final(self) == *old(self) && final(flash)@ == old(flash)@,
            r matches Err(e) ==> e == KDBError::EntryNotFound || e
                == KDBError::DatabaseIntegrityError,
            r is Ok ==> final(self).header == (KDBHeader {
                num_entries: (old(self).header.num_entries - 1) as u32,
                ..old(self).header
            }),
            r is Ok ==> forall|i: int|
                0 <= i < MAX_ENTRIES ==> #[trigger] final(self).entries@[i] == if i < entry_index {
                    old(self).entries@[i]
                } else if i + 1 < old(self).header.num_entries {
                    old(self).entries@[i + 1]
                } else {
                    None
                },
            r is Ok ==> final(self).groups == old(self).groups && final(self).storage == old(
                self,
            ).storage && final(self).signature1 == old(self).signature1 && final(self).signature2
                == old(self).signature2,
            r is Ok ==> header_bytes(final(flash)@, old(self).storage)
                == final(self).header.spec_bytes(),
            r is Ok ==> forall|i: int|
                entry_index <= i < final(self).header.num_entries ==> region_bytes(
                    final(flash)@,
                    old(self).storage,
                    #[trigger] entry_slot(i),
                    ENTRY_SIZE as int,
                ) == final(self).entries@[i]->0.spec_bytes(),
            r is Ok ==> final(flash)@.len() == old(flash)@.len(),
            r is Ok ==> entry_deleted(old(flash)@, final(flash)@, *old(self), entry_index as int),
            ({
                let base = old(self).storage.base;
                let header_start = base + HEADER_OFFSET_REL;
                let shifted_start = base + entry_slot(entry_index as int);
                let shifted_end = base + entry_slot(final(self).header.num_entries as int);
                r is Ok ==> forall|k: int|
                    0 <= k < old(flash)@.len() && !(header_start <= k < header_start + HEADER_SIZE)
                        && !(shifted_start <= k < shifted_end) ==> #[trigger] final(flash)@[k]
                        == old(flash)@[k]
            }),
    {
        let n = self.header.num_entries as usize;
        if entry_index >= n {
            return Err(KDBError::EntryNotFound);
        }
        let region = self.storage;
        assert((n - 1) * ENTRY_SIZE < 128 * 372) by (nonlinear_arith)
            requires
                n <= 128,
        ;
        let last_rel = entries_offset_rel() + ((n - 1) as u32) * ENTRY_SIZE as u32;
        let capacity = flash.capacity();
        let last = checked_absolute(region, last_rel, ENTRY_SIZE)?;
        if last as u64 + ENTRY_SIZE as u64 > capacity as u64 {
            return Err(KDBError::DatabaseIntegrityError);
        }
        let ghost img = flash@;
        let ghost old_entries = self.entries@;
        let mut entries = self.entries;
        let mut i: usize = entry_index;
        while i + 1 < n
            invariant
                entry_index <= i < n <= MAX_ENTRIES,
                forall|j: int|
                    0 <= j < MAX_ENTRIES ==> #[trigger] entries@[j] == if j < entry_index {
                        old_entries[j]
                    } else if j < i {
                        old_entries[j + 1]
                    } else {
                        old_entries[j]
                    },
            decreases n - i,
        {
            entries[i] = entries[i + 1];
            i += 1;
        }
        entries[n - 1] = None;
        let mut header = self.header;
        header.num_entries = (n - 1) as u32;
        let mut i: usize = entry_index;
        while i + 1 < n
            invariant
                entry_index <= i < n <= MAX_ENTRIES,
                n == old(self).header.num_entries,
                old(self).wf(),
                old_entries == old(self).entries@,
                forall|j: int|
                    0 <= j < MAX_ENTRIES ==> #[trigger] entries@[j] == if j < entry_index {
                        old_entries[j]
                    } else if j + 1 < n {
                        old_entries[j + 1]
                    } else {
                        None
                    },
                accessible(img, region, entry_slot(n - 1), ENTRY_SIZE as int),
                flash@.len() == img.len(),
                forall|j: int|
                    entry_index <= j < i ==> region_bytes(
                        flash@,
                        region,
                        #[trigger] entry_slot(j),
                        ENTRY_SIZE as int,
                    ) == entries@[j]->0.spec_bytes(),
                forall|k: int|
                    0 <= k < img.len() && !(region.base + entry_slot(entry_index as int) <= k
                        < region.base + entry_slot(i as int)) ==> #[trigger] flash@[k] == img[k],
            decreases n - i,
        {
            let entry = match entries[i] {
                Some(e) => e,
                None => {
                    assert(old_entries[i + 1] is Some);
                    return Err(KDBError::DatabaseIntegrityError);
                },
            };
            let ghost before = flash@;
            assert(i * ENTRY_SIZE < 128 * 372) by (nonlinear_arith)
                requires
                    i < 128,
            ;
            let relative_offset = entries_offset_rel() + (i as u32) * ENTRY_SIZE as u32;
            assert(relative_offset == entry_slot(i as int));
            match write_region(flash, region, relative_offset, &entry.to_bytes()) {
                Ok(()) => {},
                Err(e) => {
                    assert(accessible(img, region, entry_slot(i as int), ENTRY_SIZE as int));
                    return Err(e);
                },
            }
            proof {
                entry.lemma_spec_bytes_len();
                assert forall|j: int| entry_index <= j < i + 1 implies region_bytes(
                    flash@,
                    region,
                    #[trigger] entry_slot(j),
                    ENTRY_SIZE as int,
                ) == entries@[j]->0.spec_bytes() by {
                    if j < i {
                        assert(region_bytes(flash@, region, entry_slot(j), ENTRY_SIZE as int)
                            =~= region_bytes(before, region, entry_slot(j), ENTRY_SIZE as int));
                    } else {
                        assert(region_bytes(flash@, region, entry_slot(j), ENTRY_SIZE as int)
                            =~= entry.spec_bytes());
                    }
                }
            }
            i += 1;
        }
        let ghost before = flash@;
        match write_region(flash, region, HEADER_OFFSET_REL, &header.to_bytes()) {
            Ok(()) => {},
            Err(e) => {
                return Err(e);
            },
        }
        proof {
            assert(header_bytes(flash@, region) =~= header.spec_bytes());
            assert forall|j: int| entry_index <= j < n - 1 implies region_bytes(
                flash@,
                region,
                #[trigger] entry_slot(j),
                ENTRY_SIZE as int,
            ) == entries@[j]->0.spec_bytes() by {
                assert(region_bytes(flash@, region, entry_slot(j), ENTRY_SIZE as int)
                    =~= region_bytes(before, region, entry_slot(j), ENTRY_SIZE as int));
            }
        }
        self.entries = entries;
        self.header = header;
        Ok(())
    }

    /// Writes both signatures and an empty header at the start of `region`.
    /// Earlier contents are not checked. The integrity error, changing
    /// nothing, when they do not fit.
    pub fn initialize_db(flash: &mut Flash, region: RegionHandle) -> (r: Result<(), KDBError>)
        ensures
            r is Ok <==> accessible(old(flash)@, region, 0, INITIAL_STORE_SIZE as int),
            r is Ok ==> final(flash)@ == written(old(flash)@, region.base as int, initial_store()),
            r matches Err(e) ==> e == KDBError::DatabaseIntegrityError && final(flash)@ == old(
                flash,
            )@,
    {
        let header = KDBHeader::empty();
        let mut bytes: Vec<u8> = Vec::new();
        push_u32_le(&mut bytes, KDB_SIGNATURE1);
        push_u32_le(&mut bytes, KDB_SIGNATURE2);
        push_bytes(&mut bytes, &header.to_bytes());
        assert(bytes@ =~= initial_store());
        write_region(flash, region, SIGNATURE1_OFFSET_REL, bytes.as_slice())
    }
}

} // verus!

verus! {

/// Update isolation: rewriting entry slot `k` changes no byte of the
/// signatures, the header, the groups or any other entry; the store still
/// loads, and a reload shows the new entry in slot `k` and every other
/// group, entry and the header as they were.
pub proof fn lemma_update_then_reload(
    img: Seq<u8>,
    db: KeePassDb,
    k: int,
    entry: Entry,
    reloaded: KeePassDb,
)
    requires
        db.loaded_from(img, db.storage),
        loadable(img, db.storage),
        0 <= k < db.header.num_entries,
        accessible(img, db.storage, entry_slot(k), ENTRY_SIZE as int),
    ensures
        ({
            let region = db.storage;
            let updated = written(img, region.base + entry_slot(k), entry.spec_bytes());
            &&& loadable(updated, region)
            &&& region_bytes(updated, region, 0, group_slot(0)) == region_bytes(img, region, 0, group_slot(0))
            &&& forall|i: int|
                0 <= i < db.header.num_groups ==> region_bytes(updated, region, #[trigger] group_slot(i), GROUP_SIZE as int)
                    == region_bytes(img, region, group_slot(i), GROUP_SIZE as int)
            &&& forall|j: int|
                0 <= j < db.header.num_entries && j != k ==> region_bytes(
                    updated,
                    region,
                    #[trigger] entry_slot(j),
                    ENTRY_SIZE as int,
                ) == region_bytes(img, region, entry_slot(j), ENTRY_SIZE as int)
            &&& reloaded.loaded_from(updated, region) ==> {
                &&& reloaded.entries@[k] == Some(entry)
                &&& forall|j: int|
                    0 <= j < MAX_ENTRIES && j != k ==> #[trigger] reloaded.entries@[j]
                        == db.entries@[j]
                &&& reloaded.groups == db.groups
                &&& reloaded.header == db.header
            }
        }),
{
    let region = db.storage;
    let bytes = entry.spec_bytes();
    entry.lemma_spec_bytes_len();
    let updated = written(img, region.base + entry_slot(k), bytes);
    let front = group_slot(0);
    assert(region_bytes(updated, region, 0, front) =~= region_bytes(img, region, 0, front));
    assert(region_bytes(updated, region, 0, 4) =~= region_bytes(img, region, 0, 4));
    assert(region_bytes(updated, region, 4, 4) =~= region_bytes(img, region, 4, 4));
    assert(header_bytes(updated, region) =~= header_bytes(img, region));
    assert forall|i: int| 0 <= i < db.header.num_groups implies region_bytes(
        updated,
        region,
        #[trigger] group_slot(i),
        GROUP_SIZE as int,
    ) == region_bytes(img, region, group_slot(i), GROUP_SIZE as int) by {
        assert(region_bytes(updated, region, group_slot(i), GROUP_SIZE as int) =~= region_bytes(
            img,
            region,
            group_slot(i),
            GROUP_SIZE as int,
        ));
    }
    assert forall|j: int| 0 <= j < db.header.num_entries && j != k implies region_bytes(
        updated,
        region,
        #[trigger] entry_slot(j),
        ENTRY_SIZE as int,
    ) == region_bytes(img, region, entry_slot(j), ENTRY_SIZE as int) by {
        assert(region_bytes(updated, region, entry_slot(j), ENTRY_SIZE as int) =~= region_bytes(
            img,
            region,
            entry_slot(j),
            ENTRY_SIZE as int,
        ));
    }
    assert(region_bytes(updated, region, entry_slot(k), ENTRY_SIZE as int) =~= bytes);
    if reloaded.loaded_from(updated, region) {
        reloaded.header.lemma_parse_unique(db.header, header_bytes(img, region));
        assert forall|i: int| 0 <= i < MAX_GROUPS implies reloaded.groups@[i] == db.groups@[i] by {
            if i < db.header.num_groups {
                let g1 = reloaded.groups@[i]->0;
                let g2 = db.groups@[i]->0;
                g1.lemma_parse_unique(g2, region_bytes(img, region, group_slot(i), GROUP_SIZE as int));
            }
        }
        assert(reloaded.groups =~= db.groups);
        assert forall|j: int| 0 <= j < MAX_ENTRIES && j != k implies #[trigger] reloaded.entries@[j]
            == db.entries@[j] by {
            if j < db.header.num_entries {
                let e1 = reloaded.entries@[j]->0;
                let e2 = db.entries@[j]->0;
                e1.lemma_parse_unique(e2, region_bytes(img, region, entry_slot(j), ENTRY_SIZE as int));
            }
        }
        let e = reloaded.entries@[k]->0;
        entry.lemma_round_trip(e);
    }
}

/// Append invariant: after a successful `create_entry` on a store that
/// lies after the layout table, the store still loads with one more entry,
/// the new one stored byte for byte in the first free slot, and every other
/// slot and group as it was.
pub proof fn lemma_append_then_reload(img: Seq<u8>, db: KeePassDb, entry: Entry, reloaded: KeePassDb)
    requires
        db.loaded_from(img, db.storage),
        loadable(img, db.storage),
        db.header.num_entries < MAX_ENTRIES,
        accessible(img, db.storage, entry_slot(db.header.num_entries as int), ENTRY_SIZE as int),
        bookkeeping_ok(
            written(
                img,
                db.storage.base + entry_slot(db.header.num_entries as int),
                entry.spec_bytes(),
            ),
        ),
        descriptor_at(keepass_index()) + REGION_DESCRIPTOR_SIZE <= db.storage.base,
    ensures
        ({
            let region = db.storage;
            let n = db.header.num_entries as int;
            let appended = entry_appended(img, db, entry);
            &&& loadable(appended, region)
            &&& region_bytes(appended, region, entry_slot(n), ENTRY_SIZE as int)
                == entry.spec_bytes()
            &&& reloaded.loaded_from(appended, region) ==> {
                &&& reloaded.header.num_entries == n + 1
                &&& reloaded.entries@ == db.entries@.update(n, Some(entry))
                &&& reloaded.groups == db.groups
            }
        }),
{
    let region = db.storage;
    let n = db.header.num_entries as int;
    let bytes = entry.spec_bytes();
    entry.lemma_spec_bytes_len();
    let img1 = written(img, region.base + entry_slot(n), bytes);
    let img2 = bookkept(img1, entry_slot(n + 1) as u32);
    let header = KDBHeader { num_entries: (n + 1) as u32, ..db.header };
    let appended = written(img2, region.base + HEADER_OFFSET_REL, header.spec_bytes());
    assert(appended == entry_appended(img, db, entry));
    let d = stored_descriptor(img1, keepass_index())->0;
    let used = if d.used_len >= entry_slot(n + 1) as u32 {
        d.used_len
    } else {
        entry_slot(n + 1) as u32
    };
    assert(RegionDescriptor { used_len: used, ..d }.spec_bytes().len() == REGION_DESCRIPTOR_SIZE);
    assert(header.spec_bytes().len() == HEADER_SIZE);
    assert(region_bytes(appended, region, 0, 4) =~= region_bytes(img, region, 0, 4));
    assert(region_bytes(appended, region, 4, 4) =~= region_bytes(img, region, 4, 4));
    assert(header_bytes(appended, region) =~= header.spec_bytes());
    header.lemma_parses_own_bytes();
    assert(le_u32_at(header_bytes(appended, region), 40) == db.header.num_groups);
    assert(le_u32_at(header_bytes(appended, region), 44) == n + 1);
    assert forall|i: int| 0 <= i < db.header.num_groups implies region_bytes(
        appended,
        region,
        #[trigger] group_slot(i),
        GROUP_SIZE as int,
    ) == region_bytes(img, region, group_slot(i), GROUP_SIZE as int) by {
        assert(region_bytes(appended, region, group_slot(i), GROUP_SIZE as int) =~= region_bytes(
            img,
            region,
            group_slot(i),
            GROUP_SIZE as int,
        ));
    }
    assert forall|j: int| 0 <= j < n implies region_bytes(
        appended,
        region,
        #[trigger] entry_slot(j),
        ENTRY_SIZE as int,
    ) == region_bytes(img, region, entry_slot(j), ENTRY_SIZE as int) by {
        assert(region_bytes(appended, region, entry_slot(j), ENTRY_SIZE as int) =~= region_bytes(
            img,
            region,
            entry_slot(j),
            ENTRY_SIZE as int,
        ));
    }
    assert(region_bytes(appended, region, entry_slot(n), ENTRY_SIZE as int) =~= bytes);
    assert forall|i: int| 0 <= i < n + 1 implies accessible(
        appended,
        region,
        #[trigger] entry_slot(i),
        ENTRY_SIZE as int,
    ) by {
        if i < n {
            assert(accessible(img, region, entry_slot(i), ENTRY_SIZE as int));
        }
    }
    assert forall|i: int| 0 <= i < db.header.num_groups implies accessible(
        appended,
        region,
        #[trigger] group_slot(i),
        GROUP_SIZE as int,
    ) by {
        assert(accessible(img, region, group_slot(i), GROUP_SIZE as int));
    }
    if reloaded.loaded_from(appended, region) {
        reloaded.header.lemma_parse_unique(header, header_bytes(appended, region));
        assert forall|i: int| 0 <= i < MAX_GROUPS implies reloaded.groups@[i] == db.groups@[i] by {
            if i < db.header.num_groups {
                let g1 = reloaded.groups@[i]->0;
                let g2 = db.groups@[i]->0;
                g1.lemma_parse_unique(g2, region_bytes(img, region, group_slot(i), GROUP_SIZE as int));
            }
        }
        assert(reloaded.groups =~= db.groups);
        assert forall|j: int| 0 <= j < MAX_ENTRIES implies #[trigger] reloaded.entries@[j]
            == db.entries@.update(n, Some(entry))[j] by {
            if j < n {
                let e1 = reloaded.entries@[j]->0;
                let e2 = db.entries@[j]->0;
                e1.lemma_parse_unique(e2, region_bytes(img, region, entry_slot(j), ENTRY_SIZE as int));
            } else if j == n {
                let e = reloaded.entries@[n]->0;
                entry.lemma_round_trip(e);
            }
        }
        assert(reloaded.entries@ =~= db.entries@.update(n, Some(entry)));
    }
}

/// Delete compaction: after entry `k` is deleted, the store still loads,
/// with one entry fewer; entries below `k` are as they were, each entry
/// above `k` has moved down one slot, and the groups are unchanged.
pub proof fn lemma_delete_then_reload(
    img: Seq<u8>,
    after: Seq<u8>,
    db: KeePassDb,
    k: int,
    reloaded: KeePassDb,
)
    requires
        db.loaded_from(img, db.storage),
        loadable(img, db.storage),
        0 <= k < db.header.num_entries,
        entry_deleted(img, after, db, k),
    ensures
        loadable(after, db.storage),
        reloaded.loaded_from(after, db.storage) ==> {
            &&& reloaded.header.num_entries == db.header.num_entries - 1
            &&& forall|i: int|
                0 <= i < MAX_ENTRIES ==> #[trigger] reloaded.entries@[i] == if i < k {
                    db.entries@[i]
                } else if i + 1 < db.header.num_entries {
                    db.entries@[i + 1]
                } else {
                    None
                }
            &&& reloaded.groups == db.groups
        },
{
    let region = db.storage;
    let n = db.header.num_entries as int;
    let header = KDBHeader { num_entries: (n - 1) as u32, ..db.header };
    header.lemma_parses_own_bytes();
    assert(region_bytes(after, region, 0, 4) =~= region_bytes(img, region, 0, 4));
    assert(region_bytes(after, region, 4, 4) =~= region_bytes(img, region, 4, 4));
    assert forall|i: int| 0 <= i < db.header.num_groups implies region_bytes(
        after,
        region,
        #[trigger] group_slot(i),
        GROUP_SIZE as int,
    ) == region_bytes(img, region, group_slot(i), GROUP_SIZE as int) by {
        assert(region_bytes(after, region, group_slot(i), GROUP_SIZE as int) =~= region_bytes(
            img,
            region,
            group_slot(i),
            GROUP_SIZE as int,
        ));
    }
    assert forall|j: int| 0 <= j < k implies region_bytes(
        after,
        region,
        #[trigger] entry_slot(j),
        ENTRY_SIZE as int,
    ) == region_bytes(img, region, entry_slot(j), ENTRY_SIZE as int) by {
        assert(region_bytes(after, region, entry_slot(j), ENTRY_SIZE as int) =~= region_bytes(
            img,
            region,
            entry_slot(j),
            ENTRY_SIZE as int,
        ));
    }
    assert forall|i: int| 0 <= i < n - 1 implies accessible(
        after,
        region,
        #[trigger] entry_slot(i),
        ENTRY_SIZE as int,
    ) by {
        assert(accessible(img, region, entry_slot(i), ENTRY_SIZE as int));
    }
    assert forall|i: int| 0 <= i < db.header.num_groups implies accessible(
        after,
        region,
        #[trigger] group_slot(i),
        GROUP_SIZE as int,
    ) by {
        assert(accessible(img, region, group_slot(i), GROUP_SIZE as int));
    }
    if reloaded.loaded_from(after, region) {
        reloaded.header.lemma_parse_unique(header, header_bytes(after, region));
        assert forall|i: int| 0 <= i < MAX_GROUPS implies reloaded.groups@[i] == db.groups@[i] by {
            if i < db.header.num_groups {
                let g1 = reloaded.groups@[i]->0;
                let g2 = db.groups@[i]->0;
                g1.lemma_parse_unique(g2, region_bytes(img, region, group_slot(i), GROUP_SIZE as int));
            }
        }
        assert(reloaded.groups =~= db.groups);
        assert forall|i: int| 0 <= i < MAX_ENTRIES implies #[trigger] reloaded.entries@[i] == if i
            < k {
            db.entries@[i]
        } else if i + 1 < n {
            db.entries@[i + 1]
        } else {
            None
        } by {
            if i < k {
                let e1 = reloaded.entries@[i]->0;
                let e2 = db.entries@[i]->0;
                e1.lemma_parse_unique(e2, region_bytes(img, region, entry_slot(i), ENTRY_SIZE as int));
            } else if i + 1 < n {
                let e1 = reloaded.entries@[i]->0;
                let e2 = db.entries@[i + 1]->0;
                e2.lemma_round_trip(e1);
            }
        }
    }
}

} // verus!
