//! The KDB1 database header.

use vstd::prelude::*;

use crate::codec::{
    lemma_le_u32_bytes, lemma_le_u32_of, le_u32_at, push_bytes, push_u32_le, take_array,
    to_array, u32_at, u32_le,
};
use crate::keepass::error::KDBError;

verus! {

/// First signature of a record store, stored little-endian.
pub const KDB_SIGNATURE1: u32 = 0x9AA2D903;

/// Second signature of a record store, stored little-endian.
pub const KDB_SIGNATURE2: u32 = 0xB54BFB65;

/// Bytes of the stored header, not counting the two signatures before it.
pub const HEADER_SIZE: usize = 116;

/// The KDB1 header. `num_groups` and `num_entries` are both the live counts
/// and the next free slots. The key-derivation fields are kept as stored and
/// not used.
#[derive(Clone, Copy, Debug)]
pub struct KDBHeader {
    pub flags: u32,
    pub subversion: u32,
    pub master_seed: [u8; 16],
    pub encryption_iv: [u8; 16],
    pub num_groups: u32,
    pub num_entries: u32,
    pub contents_hash: [u8; 32],
    pub transform_seed: [u8; 32],
    pub transform_rounds: u32,
}

/// `Ok(v)` where `data[start..start + 4]` holds `v` little-endian, else the
/// integrity error.
pub fn read_u32_le(data: &[u8], start: usize) -> (r: Result<u32, KDBError>)
    ensures
        r is Ok <==> start + 4 <= data@.len(),
        r matches Ok(v) ==> v == le_u32_at(data@, start as int),
        r matches Err(e) ==> e == KDBError::DatabaseIntegrityError,
{
    if start > data.len() || data.len() - start < 4 {
        return Err(KDBError::DatabaseIntegrityError);
    }
    Ok(u32_at(data, start))
}

/// `Ok` with the `N` bytes at `data[start..start + N]`, else the integrity error.
pub fn copy_array<const N: usize>(data: &[u8], start: usize) -> (r: Result<[u8; N], KDBError>)
    ensures
        r is Ok <==> start + N <= data@.len(),
        r matches Ok(a) ==> a@ == data@.subrange(start as int, start + N),
        r matches Err(e) ==> e == KDBError::DatabaseIntegrityError,
{
    if start > data.len() || data.len() - start < N {
        return Err(KDBError::DatabaseIntegrityError);
    }
    Ok(take_array::<N>(data, start))
}

impl KDBHeader {
    /// The stored form of the header.
    pub open spec fn spec_bytes(self) -> Seq<u8> {
        u32_le(self.flags) + u32_le(self.subversion) + self.master_seed@ + self.encryption_iv@
            + u32_le(self.num_groups) + u32_le(self.num_entries) + self.contents_hash@
            + self.transform_seed@ + u32_le(self.transform_rounds)
    }

    /// `self` is what decoding the first `HEADER_SIZE` bytes of `b` yields.
    pub open spec fn parsed_from(self, b: Seq<u8>) -> bool {
        &&& self.flags == le_u32_at(b, 0)
        &&& self.subversion == le_u32_at(b, 4)
        &&& self.master_seed@ == b.subrange(8, 24)
        &&& self.encryption_iv@ == b.subrange(24, 40)
        &&& self.num_groups == le_u32_at(b, 40)
        &&& self.num_entries == le_u32_at(b, 44)
        &&& self.contents_hash@ == b.subrange(48, 80)
        &&& self.transform_seed@ == b.subrange(80, 112)
        &&& self.transform_rounds == le_u32_at(b, 112)
    }

    /// Decoding the stored form of a header gives back the same header.
    pub proof fn lemma_round_trip(self, d: KDBHeader)
        requires
            d.parsed_from(self.spec_bytes()),
        ensures
            d == self,
    {
        let b = self.spec_bytes();
        assert(b.subrange(0, 4) =~= u32_le(self.flags));
        lemma_le_u32_of(b, 0, self.flags);
        assert(b.subrange(4, 8) =~= u32_le(self.subversion));
        lemma_le_u32_of(b, 4, self.subversion);
        assert(b.subrange(8, 24) =~= self.master_seed@);
        assert(d.master_seed =~= self.master_seed);
        assert(b.subrange(24, 40) =~= self.encryption_iv@);
        assert(d.encryption_iv =~= self.encryption_iv);
        assert(b.subrange(40, 44) =~= u32_le(self.num_groups));
        lemma_le_u32_of(b, 40, self.num_groups);
        assert(b.subrange(44, 48) =~= u32_le(self.num_entries));
        lemma_le_u32_of(b, 44, self.num_entries);
        assert(b.subrange(48, 80) =~= self.contents_hash@);
        assert(d.contents_hash =~= self.contents_hash);
        assert(b.subrange(80, 112) =~= self.transform_seed@);
        assert(d.transform_seed =~= self.transform_seed);
        assert(b.subrange(112, 116) =~= u32_le(self.transform_rounds));
        lemma_le_u32_of(b, 112, self.transform_rounds);
    }

    /// The stored form of a header decodes to that header.
    pub proof fn lemma_parses_own_bytes(self)
        ensures
            self.parsed_from(self.spec_bytes()),
    {
        let b = self.spec_bytes();
        assert(b.subrange(0, 4) =~= u32_le(self.flags));
        lemma_le_u32_of(b, 0, self.flags);
        assert(b.subrange(4, 8) =~= u32_le(self.subversion));
        lemma_le_u32_of(b, 4, self.subversion);
        assert(b.subrange(8, 24) =~= self.master_seed@);
        assert(b.subrange(24, 40) =~= self.encryption_iv@);
        assert(b.subrange(40, 44) =~= u32_le(self.num_groups));
        lemma_le_u32_of(b, 40, self.num_groups);
        assert(b.subrange(44, 48) =~= u32_le(self.num_entries));
        lemma_le_u32_of(b, 44, self.num_entries);
        assert(b.subrange(48, 80) =~= self.contents_hash@);
        assert(b.subrange(80, 112) =~= self.transform_seed@);
        assert(b.subrange(112, 116) =~= u32_le(self.transform_rounds));
        lemma_le_u32_of(b, 112, self.transform_rounds);
    }

    /// Decoding is a function of the bytes.
    pub proof fn lemma_parse_unique(self, other: KDBHeader, b: Seq<u8>)
        requires
            self.parsed_from(b),
            other.parsed_from(b),
        ensures
            self == other,
    {
        assert(self.master_seed =~= other.master_seed);
        assert(self.encryption_iv =~= other.encryption_iv);
        assert(self.contents_hash =~= other.contents_hash);
        assert(self.transform_seed =~= other.transform_seed);
    }

    /// Every 116-byte header, decoded and stored again, is the same bytes.
    pub proof fn lemma_bytes_round_trip(self, b: Seq<u8>)
        requires
            b.len() == HEADER_SIZE,
            self.parsed_from(b),
        ensures
            self.spec_bytes() == b,
    {
        lemma_le_u32_bytes(b, 0);
        lemma_le_u32_bytes(b, 4);
        lemma_le_u32_bytes(b, 40);
        lemma_le_u32_bytes(b, 44);
        lemma_le_u32_bytes(b, 112);
        assert(self.spec_bytes() =~= b);
    }

    /// The header of an empty database: every field zero.
    pub fn empty() -> (r: KDBHeader)
        ensures
            r.spec_bytes() == Seq::new(HEADER_SIZE as nat, |i: int| 0u8),
            r.num_groups == 0,
            r.num_entries == 0,
    {
        let r = KDBHeader {
            flags: 0,
            subversion: 0,
            master_seed: [0;16],
            encryption_iv: [0;16],
            num_groups: 0,
            num_entries: 0,
            contents_hash: [0;32],
            transform_seed: [0;32],
            transform_rounds: 0,
        };
        proof {
            crate::codec::lemma_u32_le_zero();
        }
        assert(r.spec_bytes() =~= Seq::new(HEADER_SIZE as nat, |i: int| 0u8));
        r
    }

    /// Decodes the header from the first `HEADER_SIZE` bytes of `data`; the
    /// integrity error when `data` is shorter.
    pub fn new_from_bytes(data: &[u8]) -> (r: Result<KDBHeader, KDBError>)
        ensures
            r is Ok <==> data@.len() >= HEADER_SIZE,
            r matches Ok(h) ==> h.parsed_from(data@),
            r matches Err(e) ==> e == KDBError::DatabaseIntegrityError,
    {
        if data.len() < HEADER_SIZE {
            return Err(KDBError::DatabaseIntegrityError);
        }
        Ok(KDBHeader {
            flags: read_u32_le(data, 0)?,
            subversion: read_u32_le(data, 4)?,
            master_seed: copy_array::<16>(data, 8)?,
            encryption_iv: copy_array::<16>(data, 24)?,
            num_groups: read_u32_le(data, 40)?,
            num_entries: read_u32_le(data, 44)?,
            contents_hash: copy_array::<32>(data, 48)?,
            transform_seed: copy_array::<32>(data, 80)?,
            transform_rounds: read_u32_le(data, 112)?,
        })
    }

    /// The stored form.
    pub fn to_bytes(&self) -> (r: [u8; HEADER_SIZE])
        ensures
            r@ == self.spec_bytes(),
    {
        let mut out: Vec<u8> = Vec::new();
        push_u32_le(&mut out, self.flags);
        push_u32_le(&mut out, self.subversion);
        push_bytes(&mut out, &self.master_seed);
        push_bytes(&mut out, &self.encryption_iv);
        push_u32_le(&mut out, self.num_groups);
        push_u32_le(&mut out, self.num_entries);
        push_bytes(&mut out, &self.contents_hash);
        push_bytes(&mut out, &self.transform_seed);
        push_u32_le(&mut out, self.transform_rounds);
        to_array::<HEADER_SIZE>(&out)
    }
}

} // verus!
