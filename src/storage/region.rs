//! Region descriptors and the bounds-checked handles derived from them.

use vstd::prelude::*;

use crate::codec::{lemma_le_u32_of, le_u32_at, push_u32_le, to_array, u32_at, u32_le};

verus! {

/// Bytes of one stored region descriptor: kind tag 0:1, offset 1:4,
/// capacity 5:4, used_len 9:4, crc32 13:4, then three zero bytes.
pub const REGION_DESCRIPTOR_SIZE: usize = 20;

/// The logical regions kept in flash, in layout order.
#[derive(Clone, Copy, Debug, PartialEq, Eq, Structural)]
pub enum DataRegion {
    ProjectConfig,
    UserConfig,
    KeePassDb,
    Scratch,
}

impl DataRegion {
    /// Position of the region in the layout; also its stored tag.
    pub open spec fn spec_index(self) -> nat {
        match self {
            DataRegion::ProjectConfig => 0,
            DataRegion::UserConfig => 1,
            DataRegion::KeePassDb => 2,
            DataRegion::Scratch => 3,
        }
    }

    /// The region with stored tag `tag`, if the tag is one of the four known.
    pub open spec fn spec_from_tag(tag: u8) -> Option<DataRegion> {
        if tag == 0 {
            Some(DataRegion::ProjectConfig)
        } else if tag == 1 {
            Some(DataRegion::UserConfig)
        } else if tag == 2 {
            Some(DataRegion::KeePassDb)
        } else if tag == 3 {
            Some(DataRegion::Scratch)
        } else {
            None
        }
    }

    /// Position of the region in the layout.
    pub fn index(self) -> (r: usize)
        ensures
            r == self.spec_index(),
    {
        match self {
            DataRegion::ProjectConfig => 0,
            DataRegion::UserConfig => 1,
            DataRegion::KeePassDb => 2,
            DataRegion::Scratch => 3,
        }
    }

    /// The region with stored tag `tag`; `None` for an unknown tag.
    pub fn from_tag(tag: u8) -> (r: Option<DataRegion>)
        ensures
            r == Self::spec_from_tag(tag),
    {
        match tag {
            0 => Some(DataRegion::ProjectConfig),
            1 => Some(DataRegion::UserConfig),
            2 => Some(DataRegion::KeePassDb),
            3 => Some(DataRegion::Scratch),
            _ => None,
        }
    }
}

/// Where a region lives in flash.
#[derive(Clone, Copy, Debug, PartialEq, Eq, Structural)]
pub struct RegionDescriptor {
    pub kind: DataRegion,
    /// Absolute byte offset of the region.
    pub offset: u32,
    /// Total bytes reserved for the region.
    pub capacity: u32,
    /// Advisory high-water mark kept by writers; never enforced.
    pub used_len: u32,
    /// Reserved; neither computed nor checked.
    pub crc32: u32,
}

impl RegionDescriptor {
    /// The stored form of the descriptor.
    pub open spec fn spec_bytes(self) -> Seq<u8> {
        seq![self.kind.spec_index() as u8] + u32_le(self.offset) + u32_le(self.capacity) + u32_le(
            self.used_len,
        ) + u32_le(self.crc32) + seq![0u8, 0u8, 0u8]
    }

    /// The descriptor stored in the first bytes of `b`; `None` when its kind
    /// tag is unknown.
    pub open spec fn spec_decode(b: Seq<u8>) -> Option<RegionDescriptor> {
        match DataRegion::spec_from_tag(b[0]) {
            Some(kind) => Some(
                RegionDescriptor {
                    kind,
                    offset: le_u32_at(b, 1),
                    capacity: le_u32_at(b, 5),
                    used_len: le_u32_at(b, 9),
                    crc32: le_u32_at(b, 13),
                },
            ),
            None => None,
        }
    }

    /// Decoding the stored form of a descriptor gives back the same descriptor.
    pub proof fn lemma_round_trip(self)
        ensures
            Self::spec_decode(self.spec_bytes()) == Some(self),
    {
        let b = self.spec_bytes();
        assert(b.subrange(1, 5) =~= u32_le(self.offset));
        lemma_le_u32_of(b, 1, self.offset);
        assert(b.subrange(5, 9) =~= u32_le(self.capacity));
        lemma_le_u32_of(b, 5, self.capacity);
        assert(b.subrange(9, 13) =~= u32_le(self.used_len));
        lemma_le_u32_of(b, 9, self.used_len);
        assert(b.subrange(13, 17) =~= u32_le(self.crc32));
        lemma_le_u32_of(b, 13, self.crc32);
    }

    /// A descriptor of kind Scratch with every number zero.
    pub fn empty() -> (r: Self)
        ensures
            r == (RegionDescriptor {
                kind: DataRegion::Scratch,
                offset: 0,
                capacity: 0,
                used_len: 0,
                crc32: 0,
            }),
    {
        Self { kind: DataRegion::Scratch, offset: 0, capacity: 0, used_len: 0, crc32: 0 }
    }

    /// A descriptor of kind `kind` with every number zero.
    pub fn empty_with_kind(kind: DataRegion) -> (r: Self)
        ensures
            r == (RegionDescriptor { kind, offset: 0, capacity: 0, used_len: 0, crc32: 0 }),
    {
        Self { kind, offset: 0, capacity: 0, used_len: 0, crc32: 0 }
    }

    /// Decodes a stored descriptor; `None` when its kind tag is unknown.
    pub fn new_from_bytes(bytes: &[u8; REGION_DESCRIPTOR_SIZE]) -> (r: Option<Self>)
        ensures
            r == Self::spec_decode(bytes@),
    {
        let b = bytes.as_slice();
        match DataRegion::from_tag(b[0]) {
            Some(kind) => Some(
                RegionDescriptor {
                    kind,
                    offset: u32_at(b, 1),
                    capacity: u32_at(b, 5),
                    used_len: u32_at(b, 9),
                    crc32: u32_at(b, 13),
                },
            ),
            None => None,
        }
    }

    /// The stored form.
    pub fn to_bytes(&self) -> (r: [u8; REGION_DESCRIPTOR_SIZE])
        ensures
            r@ == self.spec_bytes(),
    {
        let mut out: Vec<u8> = Vec::new();
        out.push(self.kind.index() as u8);
        push_u32_le(&mut out, self.offset);
        push_u32_le(&mut out, self.capacity);
        push_u32_le(&mut out, self.used_len);
        push_u32_le(&mut out, self.crc32);
        out.push(0);
        out.push(0);
        out.push(0);
        assert(out@ =~= self.spec_bytes());
        to_array::<REGION_DESCRIPTOR_SIZE>(&out)
    }

    /// The handle that grants access to this region.
    pub fn handle(&self) -> (r: RegionHandle)
        ensures
            r == (RegionHandle { base: self.offset, capacity: self.capacity }),
    {
        RegionHandle { base: self.offset, capacity: self.capacity }
    }
}

/// A capability for one region: translates offsets relative to the region
/// into absolute ones, and refuses any range that leaves it.
#[derive(Clone, Copy, Debug, PartialEq, Eq, Structural)]
pub struct RegionHandle {
    /// Absolute offset of the region's first byte.
    pub base: u32,
    /// Bytes in the region.
    pub capacity: u32,
}

impl RegionHandle {
    /// Whether `len` bytes from `relative_offset` lie inside the region.
    pub fn contains_range(&self, relative_offset: u32, len: usize) -> (r: bool)
        ensures
            r <==> relative_offset + len <= self.capacity,
    {
        if len > u32::MAX as usize {
            return false;
        }
        match relative_offset.checked_add(len as u32) {
            Some(end) => end <= self.capacity,
            None => false,
        }
    }

    /// The absolute offset of `relative_offset`; `None` when it does not fit
    /// in 32 bits.
    pub fn absolute(&self, relative_offset: u32) -> (r: Option<u32>)
        ensures
            r matches Some(a) ==> a == self.base + relative_offset,
            r is None <==> self.base + relative_offset > u32::MAX,
    {
        self.base.checked_add(relative_offset)
    }
}

} // verus!
