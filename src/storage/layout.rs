//! The deterministic region table, and the bootstrap, healthcheck and wipe of
//! the metadata sector that holds it.

use vstd::prelude::*;

use crate::codec::{lemma_le_u16_bytes, lemma_le_u32_bytes, lemma_le_u16_of, le_u16_at, push_bytes, push_u16_le, same_bytes, take_array, u16_le};
use crate::storage::flash::{erased, written, Flash, SECTOR_SIZE};
use crate::storage::header::{
    spec_storage_magic, storage_magic, storage_magic_offset,
    LayoutHeader, LAYOUT_HEADER_SIZE, REGION_COUNT, STORAGE_LAYOUT_VERSION, STORAGE_OFFSET,
};
use crate::storage::region::{DataRegion, RegionDescriptor, RegionHandle, REGION_DESCRIPTOR_SIZE};

verus! {

/// Bytes of the metadata sector at the start of the storage window.
pub const STORAGE_METADATA_BYTES: u32 = SECTOR_SIZE;

pub const REGION_PROJECT_CAPACITY: u32 = SECTOR_SIZE;

pub const REGION_USER_CONFIG_CAPACITY: u32 = SECTOR_SIZE;

pub const REGION_KEEPASS_CAPACITY: u32 = 64 * 1024;

pub const REGION_SCRATCH_CAPACITY: u32 = SECTOR_SIZE;

/// Bytes of the whole storage window: metadata sector and regions.
pub const STORAGE_TOTAL_BYTES: u32 = STORAGE_METADATA_BYTES + REGION_PROJECT_CAPACITY
    + REGION_USER_CONFIG_CAPACITY + REGION_KEEPASS_CAPACITY + REGION_SCRATCH_CAPACITY;

/// Offset of the first region descriptor: after the magic marker and the
/// layout header.
pub const DESCRIPTORS_OFFSET: u32 = STORAGE_OFFSET + 4 + 7;

/// Bytes of the stored layout table: magic, layout header, descriptors.
pub const LAYOUT_TABLE_SIZE: usize = 91;

/// Failures of the layout manager.
#[derive(Clone, Copy, Debug, PartialEq, Eq, Structural)]
pub enum StorageError {
    BadMagic,
    UnsupportedLayout(u16),
    RegionNotFound,
    BufferTooSmall,
    Io,
    InvalidLayout,
}

/// Offset of region `i` when regions with capacities `caps` are laid back
/// to back from `start`.
pub open spec fn planned_offset(start: int, caps: Seq<int>, i: int) -> int
    decreases i,
{
    if i <= 0 {
        start
    } else {
        planned_offset(start, caps, i - 1) + caps[i - 1]
    }
}

/// Whole sectors laid back to back from a sector boundary start on sector
/// boundaries.
pub proof fn lemma_planned_aligned(start: int, caps: Seq<int>, i: int)
    requires
        start % (SECTOR_SIZE as int) == 0,
        forall|k: int| 0 <= k < caps.len() ==> #[trigger] caps[k] % (SECTOR_SIZE as int) == 0,
        0 <= i <= caps.len(),
    ensures
        planned_offset(start, caps, i) % (SECTOR_SIZE as int) == 0,
    decreases i,
{
    if i > 0 {
        lemma_planned_aligned(start, caps, i - 1);
        let a = planned_offset(start, caps, i - 1);
        let c = caps[i - 1];
        vstd::arithmetic::div_mod::lemma_add_mod_noop(a, c, SECTOR_SIZE as int);
    }
}

/// Regions of positive capacity laid back to back are strictly increasing
/// and do not overlap: each ends no later than any later one starts.
pub proof fn lemma_planned_disjoint(start: int, caps: Seq<int>, i: int, j: int)
    requires
        forall|k: int| 0 <= k < caps.len() ==> #[trigger] caps[k] > 0,
        0 <= i < j <= caps.len(),
    ensures
        planned_offset(start, caps, i) < planned_offset(start, caps, i) + caps[i] <= planned_offset(
            start,
            caps,
            j,
        ),
    decreases j,
{
    if j > i + 1 {
        lemma_planned_disjoint(start, caps, i, j - 1);
        assert(caps[j - 1] > 0);
    }
}

/// Capacities of the four regions, in layout order.
pub open spec fn region_caps() -> Seq<int> {
    seq![
        REGION_PROJECT_CAPACITY as int,
        REGION_USER_CONFIG_CAPACITY as int,
        REGION_KEEPASS_CAPACITY as int,
        REGION_SCRATCH_CAPACITY as int,
    ]
}

/// Where region `i` starts: regions follow the metadata sector back to back.
pub open spec fn expected_offset(i: int) -> int {
    planned_offset(STORAGE_OFFSET + STORAGE_METADATA_BYTES, region_caps(), i)
}

/// The region in position `i` of the layout.
pub open spec fn region_at(i: int) -> DataRegion {
    if i == 0 {
        DataRegion::ProjectConfig
    } else if i == 1 {
        DataRegion::UserConfig
    } else if i == 2 {
        DataRegion::KeePassDb
    } else {
        DataRegion::Scratch
    }
}

/// The descriptor that position `i` of the layout table must hold.
pub open spec fn expected_descriptor(i: int) -> RegionDescriptor {
    RegionDescriptor {
        kind: region_at(i),
        offset: expected_offset(i) as u32,
        capacity: region_caps()[i] as u32,
        used_len: 0,
        crc32: 0,
    }
}

/// The offsets that the layout gives each region, and the end of the window.
pub proof fn lemma_expected_offsets()
    ensures
        expected_offset(0) == 0x201000,
        expected_offset(1) == 0x202000,
        expected_offset(2) == 0x203000,
        expected_offset(3) == 0x213000,
        expected_offset(4) == 0x214000,
        expected_offset(4) == STORAGE_OFFSET + STORAGE_TOTAL_BYTES,
{
    assert(expected_offset(0) == 0x201000);
    assert(expected_offset(1) == 0x202000);
    assert(expected_offset(2) == 0x203000);
    assert(expected_offset(3) == 0x213000);
    assert(expected_offset(4) == 0x214000);
}

/// The fixed layout: every region starts on a sector boundary inside the
/// window after the metadata sector, has a positive whole number of sectors,
/// and lies strictly after the region before it without overlapping it.
pub proof fn lemma_expected_layout(i: int, j: int)
    requires
        0 <= i < j < REGION_COUNT,
    ensures
        expected_descriptor(i).offset % SECTOR_SIZE == 0,
        expected_descriptor(i).capacity % SECTOR_SIZE == 0,
        STORAGE_OFFSET + STORAGE_METADATA_BYTES <= expected_descriptor(i).offset,
        expected_descriptor(i).offset < expected_descriptor(i).offset
            + expected_descriptor(i).capacity <= expected_descriptor(j).offset,
        expected_descriptor(j).offset + expected_descriptor(j).capacity <= STORAGE_OFFSET
            + STORAGE_TOTAL_BYTES,
{
    lemma_expected_offsets();
    let caps = region_caps();
    let start = STORAGE_OFFSET + STORAGE_METADATA_BYTES;
    assert forall|k: int| 0 <= k < caps.len() implies #[trigger] caps[k] > 0 && caps[k] % (
    SECTOR_SIZE as int) == 0 by {
        assert(caps[k] == 4096 || caps[k] == 65536);
    }
    lemma_planned_aligned(start, caps, i);
    lemma_planned_disjoint(start, caps, i, j);
    lemma_planned_disjoint(start, caps, j, 4);
}

/// Capacity reserved for `region`.
pub fn region_capacity(region: DataRegion) -> (r: u32)
    ensures
        r == region_caps()[region.spec_index() as int],
{
    match region {
        DataRegion::ProjectConfig => REGION_PROJECT_CAPACITY,
        DataRegion::UserConfig => REGION_USER_CONFIG_CAPACITY,
        DataRegion::KeePassDb => REGION_KEEPASS_CAPACITY,
        DataRegion::Scratch => REGION_SCRATCH_CAPACITY,
    }
}

/// The region table a formatted device holds, derived from the fixed
/// capacities alone.
pub fn expected_region_descriptors() -> (r: [RegionDescriptor; REGION_COUNT])
    ensures
        forall|i: int| 0 <= i < REGION_COUNT ==> r@[i] == expected_descriptor(i),
{
    proof {
        lemma_expected_offsets();
    }
    let mut regions = [RegionDescriptor::empty();REGION_COUNT];
    let mut next_offset: u32 = storage_magic_offset() + STORAGE_METADATA_BYTES;
    let mut idx: usize = 0;
    while idx < REGION_COUNT
        invariant
            idx <= REGION_COUNT,
            next_offset == expected_offset(idx as int),
            expected_offset(4) == 0x214000,
            expected_offset(3) == 0x213000,
            expected_offset(2) == 0x203000,
            expected_offset(1) == 0x202000,
            expected_offset(0) == 0x201000,
            forall|j: int| 0 <= j < idx ==> regions@[j] == expected_descriptor(j),
        decreases REGION_COUNT - idx,
    {
        let kind = if idx == 0 {
            DataRegion::ProjectConfig
        } else if idx == 1 {
            DataRegion::UserConfig
        } else if idx == 2 {
            DataRegion::KeePassDb
        } else {
            DataRegion::Scratch
        };
        let capacity = region_capacity(kind);
        regions[idx] = RegionDescriptor { kind, offset: next_offset, capacity, used_len: 0, crc32: 0 };
        assert(expected_offset(idx + 1) == expected_offset(idx as int) + region_caps()[idx as int]);
        next_offset = next_offset + capacity;
        idx += 1;
    }
    regions
}

/// Offset of the stored descriptor of the region in position `i`.
pub open spec fn descriptor_at(i: int) -> int {
    DESCRIPTORS_OFFSET + REGION_DESCRIPTOR_SIZE * i
}

/// Whether the storage window fits on a device holding `img`.
pub open spec fn window_fits(img: Seq<u8>) -> bool {
    STORAGE_OFFSET + STORAGE_TOTAL_BYTES <= img.len()
}

/// The descriptor in position `i` of `img` decodes to the expected kind,
/// offset and capacity.
pub open spec fn descriptor_matches(img: Seq<u8>, i: int) -> bool {
    let d = descriptor_at(i);
    match RegionDescriptor::spec_decode(img.subrange(d, d + REGION_DESCRIPTOR_SIZE)) {
        Some(a) => a.kind == expected_descriptor(i).kind && a.offset == expected_descriptor(
            i,
        ).offset && a.capacity == expected_descriptor(i).capacity,
        None => false,
    }
}

/// The verdict of the healthcheck on a device holding `img`.
pub open spec fn healthcheck_spec(img: Seq<u8>) -> Result<(), StorageError> {
    let h = STORAGE_OFFSET + 4;
    if !window_fits(img) {
        Err(StorageError::InvalidLayout)
    } else if img.subrange(STORAGE_OFFSET as int, STORAGE_OFFSET + 4) != spec_storage_magic() {
        Err(StorageError::BadMagic)
    } else if img.subrange(h, h + 4) != spec_storage_magic() {
        Err(StorageError::InvalidLayout)
    } else if le_u16_at(img, h + 4) != STORAGE_LAYOUT_VERSION {
        Err(StorageError::UnsupportedLayout(le_u16_at(img, h + 4)))
    } else if img[h + 6] != REGION_COUNT {
        Err(StorageError::InvalidLayout)
    } else if !(forall|i: int| 0 <= i < REGION_COUNT ==> descriptor_matches(img, i)) {
        Err(StorageError::InvalidLayout)
    } else {
        Ok(())
    }
}

/// The layout table a formatted device holds at the start of its storage
/// window: magic marker, layout header, then the four expected descriptors.
pub open spec fn layout_table() -> Seq<u8> {
    spec_storage_magic() + spec_storage_magic() + u16_le(STORAGE_LAYOUT_VERSION) + seq![
        REGION_COUNT as u8,
    ] + expected_descriptor(0).spec_bytes() + expected_descriptor(1).spec_bytes()
        + expected_descriptor(2).spec_bytes() + expected_descriptor(3).spec_bytes()
}

/// `img` after the metadata sector is erased and the layout table written.
pub open spec fn formatted(img: Seq<u8>) -> Seq<u8> {
    written(
        erased(img, STORAGE_OFFSET as int, STORAGE_OFFSET + STORAGE_METADATA_BYTES),
        STORAGE_OFFSET as int,
        layout_table(),
    )
}

/// The layout table, built from the expected region table.
fn layout_table_bytes() -> (r: Vec<u8>)
    ensures
        r@ == layout_table(),
{
    let expected = expected_region_descriptors();
    let mut out: Vec<u8> = Vec::new();
    push_bytes(&mut out, &storage_magic());
    push_bytes(&mut out, &storage_magic());
    push_u16_le(&mut out, STORAGE_LAYOUT_VERSION);
    out.push(REGION_COUNT as u8);
    push_bytes(&mut out, &expected[0].to_bytes());
    push_bytes(&mut out, &expected[1].to_bytes());
    push_bytes(&mut out, &expected[2].to_bytes());
    push_bytes(&mut out, &expected[3].to_bytes());
    assert(out@ =~= layout_table());
    out
}

/// A formatted device passes the healthcheck.
pub proof fn lemma_formatted_is_healthy(img: Seq<u8>)
    requires
        window_fits(img),
    ensures
        healthcheck_spec(formatted(img)) == Ok::<(), StorageError>(()),
{
    let f = formatted(img);
    let t = layout_table();
    let s = STORAGE_OFFSET as int;
    lemma_expected_offsets();
    assert(t.len() == LAYOUT_TABLE_SIZE);
    assert(f.subrange(s, s + LAYOUT_TABLE_SIZE) =~= t);
    assert(f.subrange(s, s + 4) =~= spec_storage_magic());
    assert(f.subrange(s + 4, s + 8) =~= spec_storage_magic());
    assert(f.subrange(s + 8, s + 10) =~= u16_le(STORAGE_LAYOUT_VERSION));
    lemma_le_u16_of(f, s + 8, STORAGE_LAYOUT_VERSION);
    assert(f[s + 10] == REGION_COUNT);
    assert forall|i: int| 0 <= i < REGION_COUNT implies descriptor_matches(f, i) by {
        let d = descriptor_at(i);
        let e = expected_descriptor(i);
        assert(f.subrange(d, d + 20) =~= e.spec_bytes());
        e.lemma_round_trip();
    }
}

/// Byte `pos` is one the healthcheck guards: part of a magic marker, of the
/// layout version, or of a stored region offset or capacity.
pub open spec fn guarded_byte(pos: int) -> bool {
    ||| STORAGE_OFFSET <= pos < STORAGE_OFFSET + 10
    ||| exists|i: int|
        0 <= i < REGION_COUNT && #[trigger] descriptor_at(i) + 1 <= pos < descriptor_at(i) + 9
}

/// The healthcheck fails closed: on a device that passes it, changing any
/// one guarded byte makes it fail.
pub proof fn lemma_healthcheck_fails_closed(img: Seq<u8>, pos: int, v: u8)
    requires
        healthcheck_spec(img) is Ok,
        guarded_byte(pos),
        v != img[pos],
    ensures
        healthcheck_spec(img.update(pos, v)) is Err,
{
    let s = STORAGE_OFFSET as int;
    let img2 = img.update(pos, v);
    if s <= pos < s + 4 {
        assert(img2.subrange(s, s + 4)[pos - s] != img.subrange(s, s + 4)[pos - s]);
    } else if s + 4 <= pos < s + 8 {
        assert(img2.subrange(s, s + 4) =~= img.subrange(s, s + 4));
        assert(img2.subrange(s + 4, s + 8)[pos - s - 4] != img.subrange(s + 4, s + 8)[pos - s - 4]);
    } else if s + 8 <= pos < s + 10 {
        assert(img2.subrange(s, s + 4) =~= img.subrange(s, s + 4));
        assert(img2.subrange(s + 4, s + 8) =~= img.subrange(s + 4, s + 8));
        lemma_le_u16_bytes(img, s + 8);
        lemma_le_u16_bytes(img2, s + 8);
        assert(img2.subrange(s + 8, s + 10)[pos - s - 8] != img.subrange(s + 8, s + 10)[pos - s
            - 8]);
    } else {
        let i = choose|i: int|
            0 <= i < REGION_COUNT && #[trigger] descriptor_at(i) + 1 <= pos < descriptor_at(i) + 9;
        let d = descriptor_at(i);
        assert(img2.subrange(s, s + 4) =~= img.subrange(s, s + 4));
        assert(img2.subrange(s + 4, s + 8) =~= img.subrange(s + 4, s + 8));
        assert(img2[s + 8] == img[s + 8] && img2[s + 9] == img[s + 9] && img2[s + 10] == img[s
            + 10]);
        let b = img.subrange(d, d + 20);
        let b2 = img2.subrange(d, d + 20);
        assert(descriptor_matches(img, i));
        assert(b2[0] == b[0]);
        lemma_le_u32_bytes(b, 1);
        lemma_le_u32_bytes(b2, 1);
        lemma_le_u32_bytes(b, 5);
        lemma_le_u32_bytes(b2, 5);
        if pos < d + 5 {
            assert(b2.subrange(1, 5)[pos - d - 1] != b.subrange(1, 5)[pos - d - 1]);
        } else {
            assert(b2.subrange(5, 9)[pos - d - 5] != b.subrange(5, 9)[pos - d - 5]);
        }
        assert(!descriptor_matches(img2, i));
    }
}

/// Fixed set of descriptors, as read from flash.
#[derive(Clone, Copy, Debug, PartialEq, Eq)]
pub struct StorageLayout {
    pub header: LayoutHeader,
    pub regions: [RegionDescriptor; REGION_COUNT],
}

/// Whether the layout header and all descriptors lie inside a device holding `img`.
pub open spec fn layout_readable(img: Seq<u8>) -> bool {
    STORAGE_OFFSET + LAYOUT_TABLE_SIZE <= img.len()
}

/// The descriptor stored in position `i` of `img`.
pub open spec fn stored_descriptor(img: Seq<u8>, i: int) -> Option<RegionDescriptor> {
    RegionDescriptor::spec_decode(img.subrange(descriptor_at(i), descriptor_at(i) + REGION_DESCRIPTOR_SIZE))
}

impl StorageLayout {
    /// Reads the layout header and the region table from flash: `Io` when
    /// they do not lie inside the device, `InvalidLayout` when a descriptor
    /// has an unknown kind.
    pub fn new(flash: &Flash) -> (r: Result<StorageLayout, StorageError>)
        ensures
            r is Ok <==> layout_readable(flash@) && forall|i: int|
                0 <= i < REGION_COUNT ==> (#[trigger] stored_descriptor(flash@, i)) is Some,
            r matches Err(e) ==> (e == StorageError::Io <==> !layout_readable(flash@)),
            r matches Err(e) ==> e == StorageError::Io || e == StorageError::InvalidLayout,
            r matches Ok(l) ==> l.header.parsed_from(
                flash@.subrange(STORAGE_OFFSET + 4, STORAGE_OFFSET + 4 + LAYOUT_HEADER_SIZE),
            ),
            r matches Ok(l) ==> forall|i: int|
                0 <= i < REGION_COUNT ==> stored_descriptor(flash@, i) == Some(l.regions@[i]),
    {
        let table = match flash.read(storage_magic_offset(), LAYOUT_TABLE_SIZE) {
            Ok(t) => t,
            Err(_) => return Err(StorageError::Io),
        };
        let ghost img = flash@;
        let ghost s = STORAGE_OFFSET as int;
        let t = table.as_slice();
        let header = LayoutHeader::new_from_bytes(&take_array::<LAYOUT_HEADER_SIZE>(t, 4));
        assert(t@.subrange(4, 11) =~= img.subrange(s + 4, s + 11));
        let mut regions = [RegionDescriptor::empty();REGION_COUNT];
        let mut idx: usize = 0;
        while idx < REGION_COUNT
            invariant
                idx <= REGION_COUNT,
                t@ == img.subrange(s, s + LAYOUT_TABLE_SIZE),
                img == flash@,
                layout_readable(img),
                s == STORAGE_OFFSET,
                forall|j: int| 0 <= j < idx ==> stored_descriptor(img, j) == Some(regions@[j]),
            decreases REGION_COUNT - idx,
        {
            let start = 11 + REGION_DESCRIPTOR_SIZE * idx;
            let bytes = take_array::<REGION_DESCRIPTOR_SIZE>(t, start);
            assert(bytes@ =~= img.subrange(descriptor_at(idx as int), descriptor_at(idx as int) + 20));
            match RegionDescriptor::new_from_bytes(&bytes) {
                Some(d) => {
                    regions[idx] = d;
                },
                None => {
                    assert(stored_descriptor(flash@, idx as int) is None);
                    return Err(StorageError::InvalidLayout);
                },
            }
            idx += 1;
        }
        Ok(StorageLayout { header, regions })
    }

    /// Checks that the device holds a valid layout: the window fits, both
    /// magic markers, the version and the region count are right, and every
    /// stored descriptor has the expected kind, offset and capacity. Never
    /// repairs anything.
    pub fn run_healthcheck(flash: &Flash) -> (r: Result<(), StorageError>)
        ensures
            r == healthcheck_spec(flash@),
    {
        let capacity = flash.capacity();
        let start = storage_magic_offset();
        let end = match start.checked_add(STORAGE_TOTAL_BYTES) {
            Some(e) => e,
            None => return Err(StorageError::InvalidLayout),
        };
        if end > capacity {
            return Err(StorageError::InvalidLayout);
        }
        proof {
            lemma_expected_offsets();
        }
        let ghost img = flash@;
        let ghost s = STORAGE_OFFSET as int;
        let table = match flash.read(start, LAYOUT_TABLE_SIZE) {
            Ok(t) => t,
            Err(_) => return Err(StorageError::Io),
        };
        let t = table.as_slice();
        let magic = take_array::<4>(t, 0);
        assert(magic@ =~= img.subrange(s, s + 4));
        if !same_bytes(&magic, &storage_magic()) {
            return Err(StorageError::BadMagic);
        }
        let header = LayoutHeader::new_from_bytes(&take_array::<LAYOUT_HEADER_SIZE>(t, 4));
        assert(header.magic@ =~= img.subrange(s + 4, s + 8));
        assert(t@[8] == img[s + 8] && t@[9] == img[s + 9] && t@[10] == img[s + 10]);
        if !same_bytes(&header.magic, &storage_magic()) {
            return Err(StorageError::InvalidLayout);
        }
        if header.layout_version != STORAGE_LAYOUT_VERSION {
            return Err(StorageError::UnsupportedLayout(header.layout_version));
        }
        if header.region_count != REGION_COUNT as u8 {
            return Err(StorageError::InvalidLayout);
        }
        let expected = expected_region_descriptors();
        let mut idx: usize = 0;
        while idx < REGION_COUNT
            invariant
                idx <= REGION_COUNT,
                t@ == img.subrange(s, s + LAYOUT_TABLE_SIZE),
                img == flash@,
                window_fits(img),
                img.subrange(s, s + 4) == spec_storage_magic(),
                img.subrange(s + 4, s + 8) == spec_storage_magic(),
                le_u16_at(img, s + 8) == STORAGE_LAYOUT_VERSION,
                img[s + 10] == REGION_COUNT,
                s == STORAGE_OFFSET,
                start == STORAGE_OFFSET,
                end == STORAGE_OFFSET + STORAGE_TOTAL_BYTES,
                forall|i: int| 0 <= i < REGION_COUNT ==> expected@[i] == expected_descriptor(i),
                forall|j: int| 0 <= j < idx ==> descriptor_matches(img, j),
            decreases REGION_COUNT - idx,
        {
            let bytes = take_array::<REGION_DESCRIPTOR_SIZE>(t, 11 + REGION_DESCRIPTOR_SIZE * idx);
            assert(bytes@ =~= img.subrange(descriptor_at(idx as int), descriptor_at(idx as int) + 20));
            let actual = match RegionDescriptor::new_from_bytes(&bytes) {
                Some(d) => d,
                None => {
                    assert(!descriptor_matches(img, idx as int));
                    return Err(StorageError::InvalidLayout);
                },
            };
            let expected_desc = expected[idx];
            if actual.kind != expected_desc.kind || actual.offset != expected_desc.offset
                || actual.capacity != expected_desc.capacity {
                assert(!descriptor_matches(img, idx as int));
                return Err(StorageError::InvalidLayout);
            }
            proof {
                if idx > 0 {
                    lemma_expected_layout(idx - 1, idx as int);
                } else {
                    lemma_expected_layout(0, 1);
                }
            }
            // Alignment and overlap, checked on the stored values themselves.
            if actual.offset % SECTOR_SIZE != 0 || actual.capacity % SECTOR_SIZE != 0 {
                return Err(StorageError::InvalidLayout);
            }
            let actual_end = match actual.offset.checked_add(actual.capacity) {
                Some(e) => e,
                None => return Err(StorageError::InvalidLayout),
            };
            if actual.offset < start || actual_end > end {
                return Err(StorageError::InvalidLayout);
            }
            if idx > 0 {
                let prev = expected[idx - 1];
                let prev_end = match prev.offset.checked_add(prev.capacity) {
                    Some(e) => e,
                    None => return Err(StorageError::InvalidLayout),
                };
                if actual.offset < prev_end {
                    return Err(StorageError::InvalidLayout);
                }
            }
            idx += 1;
        }
        Ok(())
    }

    /// Erases the metadata sector, so that the device reads as unformatted.
    pub fn wipe_layout(flash: &mut Flash) -> (r: Result<(), StorageError>)
        ensures
            r is Ok <==> STORAGE_OFFSET + STORAGE_METADATA_BYTES <= old(flash)@.len(),
            r is Ok ==> final(flash)@ == erased(
                old(flash)@,
                STORAGE_OFFSET as int,
                STORAGE_OFFSET + STORAGE_METADATA_BYTES,
            ),
            r matches Err(e) ==> e == StorageError::Io && final(flash)@ == old(flash)@,
    {
        let start = storage_magic_offset();
        let end = start + STORAGE_METADATA_BYTES;
        match flash.erase(start, end) {
            Ok(()) => Ok(()),
            Err(_) => Err(StorageError::Io),
        }
    }

    /// Formats the device: erases the metadata sector and writes the magic
    /// marker, the layout header and the expected region table. Refused with
    /// `InvalidLayout`, changing nothing, when the storage window does not
    /// fit on the device.
    pub fn bootstrap_storage_write(flash: &mut Flash) -> (r: Result<(), StorageError>)
        ensures
            r is Ok <==> window_fits(old(flash)@),
            r is Ok ==> final(flash)@ == formatted(old(flash)@),
            r matches Err(e) ==> e == StorageError::InvalidLayout && final(flash)@ == old(flash)@,
            r is Ok ==> healthcheck_spec(final(flash)@) == Ok::<(), StorageError>(()),
    {
        let capacity = flash.capacity();
        let start = storage_magic_offset();
        let end = match start.checked_add(STORAGE_TOTAL_BYTES) {
            Some(e) => e,
            None => return Err(StorageError::InvalidLayout),
        };
        if end > capacity {
            return Err(StorageError::InvalidLayout);
        }
        let ghost img = flash@;
        let table = layout_table_bytes();
        match flash.erase(start, start + STORAGE_METADATA_BYTES) {
            Ok(()) => {},
            Err(_) => return Err(StorageError::Io),
        }
        match flash.write(start, table.as_slice()) {
            Ok(()) => {},
            Err(_) => return Err(StorageError::Io),
        }
        proof {
            lemma_formatted_is_healthy(img);
        }
        Ok(())
    }

    /// Absolute offset of `region`.
    pub fn get_offset_to_region(&self, region: DataRegion) -> (r: Result<u32, StorageError>)
        ensures
            r == Ok::<u32, StorageError>(self.regions@[region.spec_index() as int].offset),
    {
        let idx = region.index();
        Ok(self.regions[idx].offset)
    }

    /// The handle that grants access to `region`.
    pub fn region_handle(&self, region: DataRegion) -> (r: Result<RegionHandle, StorageError>)
        ensures
            r == Ok::<RegionHandle, StorageError>(
                RegionHandle {
                    base: self.regions@[region.spec_index() as int].offset,
                    capacity: self.regions@[region.spec_index() as int].capacity,
                },
            ),
    {
        let idx = region.index();
        Ok(self.regions[idx].handle())
    }

    /// Absolute offset of the record store's region.
    pub fn get_offset_to_keepass(&self) -> (r: u32)
        ensures
            r == self.regions@[DataRegion::KeePassDb.spec_index() as int].offset,
    {
        match self.get_offset_to_region(DataRegion::KeePassDb) {
            Ok(offset) => offset,
            Err(_) => storage_magic_offset() + STORAGE_METADATA_BYTES + REGION_PROJECT_CAPACITY
                + REGION_USER_CONFIG_CAPACITY,
        }
    }
}

} // verus!
