//! The layout header that follows the magic marker.

use vstd::prelude::*;

use crate::codec::{lemma_le_u16_of, le_u16_at, push_bytes, push_u16_le, take_array, to_array, u16_at, u16_le};

verus! {

/// Where the storage window begins, clear of the bootloader and application
/// image.
pub const STORAGE_OFFSET: u32 = 0x200000;

/// Current version of the layout.
pub const STORAGE_LAYOUT_VERSION: u16 = 1;

/// Bytes of the stored layout header: magic 0:4, layout_version 4:2,
/// region_count 6:1.
pub const LAYOUT_HEADER_SIZE: usize = 7;

/// Number of logical regions.
pub const REGION_COUNT: usize = 4;

/// The marker that shows a device has been formatted: "PBDY".
pub open spec fn spec_storage_magic() -> Seq<u8> {
    seq![0x50u8, 0x42u8, 0x44u8, 0x59u8]
}

/// The marker that shows a device has been formatted: "PBDY".
pub fn storage_magic() -> (r: [u8; 4])
    ensures
        r@ == spec_storage_magic(),
{
    let r = [0x50u8, 0x42u8, 0x44u8, 0x59u8];
    assert(r@ =~= spec_storage_magic());
    r
}

/// Small header ahead of the region descriptors.
#[derive(Clone, Copy, Debug, PartialEq, Eq)]
pub struct LayoutHeader {
    pub magic: [u8; 4],
    pub layout_version: u16,
    pub region_count: u8,
}

/// The header a formatted device carries.
pub fn get_header() -> (r: LayoutHeader)
    ensures
        r.magic@ == spec_storage_magic(),
        r.layout_version == STORAGE_LAYOUT_VERSION,
        r.region_count == REGION_COUNT,
{
    LayoutHeader {
        magic: storage_magic(),
        layout_version: STORAGE_LAYOUT_VERSION,
        region_count: REGION_COUNT as u8,
    }
}

/// Offset of the magic marker.
pub fn storage_magic_offset() -> (r: u32)
    ensures
        r == STORAGE_OFFSET,
{
    STORAGE_OFFSET
}

/// Offset of the layout header, right after the magic marker.
pub fn get_user_storage_offset() -> (r: u32)
    ensures
        r == STORAGE_OFFSET + 4,
{
    STORAGE_OFFSET + 4
}

impl LayoutHeader {
    /// The stored form of the header.
    pub open spec fn spec_bytes(self) -> Seq<u8> {
        self.magic@ + u16_le(self.layout_version) + seq![self.region_count]
    }

    /// `self` is what decoding the first `LAYOUT_HEADER_SIZE` bytes of `b` yields.
    pub open spec fn parsed_from(self, b: Seq<u8>) -> bool {
        &&& self.magic@ == b.subrange(0, 4)
        &&& self.layout_version == le_u16_at(b, 4)
        &&& self.region_count == b[6]
    }

    /// Decoding the stored form of a header gives back the same header.
    pub proof fn lemma_round_trip(self, d: LayoutHeader)
        requires
            d.parsed_from(self.spec_bytes()),
        ensures
            d == self,
    {
        let b = self.spec_bytes();
        assert(b.subrange(0, 4) =~= self.magic@);
        assert(d.magic =~= self.magic);
        assert(b.subrange(4, 6) =~= u16_le(self.layout_version));
        lemma_le_u16_of(b, 4, self.layout_version);
    }

    /// Decodes a stored layout header.
    pub fn new_from_bytes(bytes: &[u8; LAYOUT_HEADER_SIZE]) -> (r: Self)
        ensures
            r.parsed_from(bytes@),
    {
        let b = bytes.as_slice();
        LayoutHeader { magic: take_array::<4>(b, 0), layout_version: u16_at(b, 4), region_count: b[6] }
    }

    /// The stored form.
    pub fn get_bytes(&self) -> (r: [u8; LAYOUT_HEADER_SIZE])
        ensures
            r@ == self.spec_bytes(),
    {
        let mut out: Vec<u8> = Vec::new();
        push_bytes(&mut out, &self.magic);
        push_u16_le(&mut out, self.layout_version);
        out.push(self.region_count);
        assert(out@ =~= self.spec_bytes());
        to_array::<LAYOUT_HEADER_SIZE>(&out)
    }
}

} // verus!
