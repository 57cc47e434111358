//! Group records.

use vstd::prelude::*;

use crate::codec::{
    encode_text, lemma_le_u16_of, lemma_le_u32_of, le_u16_at, le_u32_at, push_bytes, push_u16_le,
    push_u32_le, take_array, text_field, to_array, u16_at, u16_le, u32_at, u32_le,
};
use crate::keepass::times::{Times, TIMES_SIZE};
use vstd::string::StringSliceAdditionalSpecFns;

verus! {

/// Bytes of a stored group name.
pub const GROUP_NAME_SIZE: usize = 64;

/// Bytes of one stored group: group_id 0:4, name 4:64, icon_id 68:4, icon
/// presence flag 72:4, level 76:2, times 78:20, then two zero bytes.
pub const GROUP_SIZE: usize = 100;

/// The stored form of an optional icon: its id, then a presence flag.
pub open spec fn icon_bytes(icon_id: Option<u32>) -> Seq<u8> {
    match icon_id {
        Some(id) => u32_le(id) + u32_le(1),
        None => u32_le(0) + u32_le(0),
    }
}

/// The optional icon stored at `b[i..i + 8]`: present when the flag is not zero.
pub open spec fn icon_at(b: Seq<u8>, i: int) -> Option<u32> {
    if le_u32_at(b, i + 4) != 0 {
        Some(le_u32_at(b, i))
    } else {
        None
    }
}

pub proof fn lemma_icon_round_trip(b: Seq<u8>, i: int, icon_id: Option<u32>)
    requires
        0 <= i,
        i + 8 <= b.len(),
        b.subrange(i, i + 8) == icon_bytes(icon_id),
    ensures
        icon_at(b, i) == icon_id,
{
    let (id, flag) = match icon_id {
        Some(id) => (id, 1u32),
        None => (0u32, 0u32),
    };
    assert(b.subrange(i, i + 4) =~= b.subrange(i, i + 8).subrange(0, 4));
    assert(b.subrange(i + 4, i + 8) =~= b.subrange(i, i + 8).subrange(4, 8));
    assert(icon_bytes(icon_id).subrange(0, 4) =~= u32_le(id));
    assert(icon_bytes(icon_id).subrange(4, 8) =~= u32_le(flag));
    lemma_le_u32_of(b, i, id);
    lemma_le_u32_of(b, i + 4, flag);
}

/// Appends the stored form of an optional icon.
pub fn push_icon(out: &mut Vec<u8>, icon_id: Option<u32>)
    ensures
        final(out)@ == old(out)@ + icon_bytes(icon_id),
{
    match icon_id {
        Some(id) => {
            push_u32_le(out, id);
            push_u32_le(out, 1);
        },
        None => {
            push_u32_le(out, 0);
            push_u32_le(out, 0);
        },
    }
    assert(final(out)@ =~= old(out)@ + icon_bytes(icon_id));
}

/// Decodes the optional icon stored at `data[start..start + 8]`.
pub fn icon_from(data: &[u8], start: usize) -> (r: Option<u32>)
    requires
        start + 8 <= data.len(),
    ensures
        r == icon_at(data@, start as int),
{
    if u32_at(data, start + 4) != 0 {
        Some(u32_at(data, start))
    } else {
        None
    }
}

/// A folder of entries.
#[derive(Clone, Copy, Debug)]
pub struct Group {
    /// The unique identifier of the group.
    pub group_id: u32,
    /// The name of the group, as null-padded UTF-8.
    pub name: [u8; GROUP_NAME_SIZE],
    pub icon_id: Option<u32>,
    pub level: u16,
    /// The time fields of the group.
    pub times: Times,
}

impl Group {
    /// The stored form of the group.
    pub open spec fn spec_bytes(self) -> Seq<u8> {
        u32_le(self.group_id) + self.name@ + icon_bytes(self.icon_id) + u16_le(self.level)
            + self.times.spec_bytes() + seq![0u8, 0u8]
    }

    /// `self` is what decoding the first `GROUP_SIZE` bytes of `b` yields.
    pub open spec fn parsed_from(self, b: Seq<u8>) -> bool {
        &&& self.group_id == le_u32_at(b, 0)
        &&& self.name@ == b.subrange(4, 68)
        &&& self.icon_id == icon_at(b, 68)
        &&& self.level == le_u16_at(b, 76)
        &&& self.times.parsed_from(b.subrange(78, 98))
    }

    pub proof fn lemma_spec_bytes_len(self)
        ensures
            self.spec_bytes().len() == GROUP_SIZE,
    {
        self.times.lemma_spec_bytes_len();
    }

    /// Decoding the stored form of a group gives back the same group.
    pub proof fn lemma_round_trip(self, d: Group)
        requires
            d.parsed_from(self.spec_bytes()),
        ensures
            d == self,
    {
        let b = self.spec_bytes();
        self.lemma_spec_bytes_len();
        self.times.lemma_spec_bytes_len();
        assert(b.subrange(0, 4) =~= u32_le(self.group_id));
        lemma_le_u32_of(b, 0, self.group_id);
        assert(b.subrange(4, 68) =~= self.name@);
        assert(d.name =~= self.name);
        assert(b.subrange(68, 76) =~= icon_bytes(self.icon_id));
        lemma_icon_round_trip(b, 68, self.icon_id);
        assert(b.subrange(76, 78) =~= u16_le(self.level));
        lemma_le_u16_of(b, 76, self.level);
        assert(b.subrange(78, 98) =~= self.times.spec_bytes());
        self.times.lemma_round_trip(d.times);
    }

    /// Decoding is a function of the bytes.
    pub proof fn lemma_parse_unique(self, other: Group, b: Seq<u8>)
        requires
            self.parsed_from(b),
            other.parsed_from(b),
        ensures
            self == other,
    {
        assert(self.name =~= other.name);
        self.times.lemma_parse_unique(other.times, b.subrange(78, 98));
    }

    /// Decodes the first `GROUP_SIZE` bytes of `bytes`.
    pub fn new_from_bytes(bytes: &[u8]) -> (r: Self)
        requires
            bytes@.len() >= GROUP_SIZE,
        ensures
            r.parsed_from(bytes@),
    {
        let times = Times::new_from_bytes(vstd::slice::slice_subrange(bytes, 78, 98));
        Self {
            group_id: u32_at(bytes, 0),
            name: take_array::<GROUP_NAME_SIZE>(bytes, 4),
            icon_id: icon_from(bytes, 68),
            level: u16_at(bytes, 76),
            times,
        }
    }

    /// The default first group: id 1, named "Private", no icon, level 0, no times.
    pub fn random() -> (r: Self)
        ensures
            r.group_id == 1,
            r.name@ == text_field("Private".spec_bytes(), GROUP_NAME_SIZE as nat),
            r.icon_id is None,
            r.level == 0,
            r.times.spec_bytes() == Seq::new(TIMES_SIZE as nat, |i: int| 0u8),
    {
        Self {
            group_id: 1,
            name: encode_text::<GROUP_NAME_SIZE>("Private"),
            icon_id: None,
            level: 0,
            times: Times::zero(),
        }
    }

    /// The stored form.
    pub fn to_bytes(&self) -> (r: [u8; GROUP_SIZE])
        ensures
            r@ == self.spec_bytes(),
    {
        let mut out: Vec<u8> = Vec::new();
        push_u32_le(&mut out, self.group_id);
        push_bytes(&mut out, &self.name);
        push_icon(&mut out, self.icon_id);
        push_u16_le(&mut out, self.level);
        push_bytes(&mut out, &self.times.to_bytes());
        out.push(0);
        out.push(0);
        proof {
            self.lemma_spec_bytes_len();
            assert(out@ =~= self.spec_bytes());
        }
        to_array::<GROUP_SIZE>(&out)
    }
}

} // verus!
