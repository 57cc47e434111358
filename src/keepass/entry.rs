//! Entry records: one stored credential.

use vstd::prelude::*;

use crate::codec::{
    encode_text, lemma_le_u32_of, le_u32_at, push_bytes, push_u32_le, take_array, text_field,
    to_array, u32_at, u32_le,
};
use crate::keepass::group::{icon_at, icon_bytes, icon_from, lemma_icon_round_trip, push_icon};
use crate::keepass::times::{Times, TIMES_SIZE};
use vstd::string::StringSliceAdditionalSpecFns;

verus! {

/// Bytes of a stored uuid.
pub const UUID_SIZE: usize = 16;

/// Bytes of a stored title, user name or password.
pub const TEXT_FIELD_SIZE: usize = 64;

/// Bytes of a stored url.
pub const URL_SIZE: usize = 128;

/// Bytes of one stored entry: uuid 0:16, group_id 16:4, title 20:64,
/// username 84:64, password 148:64, url 212:128, icon_id 340:4, icon presence
/// flag 344:4, times 348:20, autotype 368:1, then three zero bytes.
pub const ENTRY_SIZE: usize = 372;

/// One stored credential.
#[derive(Clone, Copy, Debug)]
pub struct Entry {
    pub uuid: [u8; UUID_SIZE],
    /// The group the entry belongs to; not checked against the stored groups.
    pub group_id: u32,
    pub title: [u8; TEXT_FIELD_SIZE],
    pub username: [u8; TEXT_FIELD_SIZE],
    pub password: [u8; TEXT_FIELD_SIZE],
    pub url: [u8; URL_SIZE],
    pub icon_id: Option<u32>,
    pub times: Times,
    /// The credential may be typed in by emulated keystrokes.
    pub autotype: bool,
}

impl Entry {
    /// The stored form of the entry.
    pub open spec fn spec_bytes(self) -> Seq<u8> {
        self.uuid@ + u32_le(self.group_id) + self.title@ + self.username@ + self.password@
            + self.url@ + icon_bytes(self.icon_id) + self.times.spec_bytes() + seq![
            if self.autotype {
                1u8
            } else {
                0u8
            },
            0u8,
            0u8,
            0u8,
        ]
    }

    /// `self` is what decoding the first `ENTRY_SIZE` bytes of `b` yields.
    pub open spec fn parsed_from(self, b: Seq<u8>) -> bool {
        &&& self.uuid@ == b.subrange(0, 16)
        &&& self.group_id == le_u32_at(b, 16)
        &&& self.title@ == b.subrange(20, 84)
        &&& self.username@ == b.subrange(84, 148)
        &&& self.password@ == b.subrange(148, 212)
        &&& self.url@ == b.subrange(212, 340)
        &&& self.icon_id == icon_at(b, 340)
        &&& self.times.parsed_from(b.subrange(348, 368))
        &&& self.autotype == (b[368] != 0)
    }

    pub proof fn lemma_spec_bytes_len(self)
        ensures
            self.spec_bytes().len() == ENTRY_SIZE,
    {
        self.times.lemma_spec_bytes_len();
    }

    /// Decoding the stored form of an entry gives back the same entry.
    pub proof fn lemma_round_trip(self, d: Entry)
        requires
            d.parsed_from(self.spec_bytes()),
        ensures
            d == self,
    {
        let b = self.spec_bytes();
        self.lemma_spec_bytes_len();
        self.times.lemma_spec_bytes_len();
        assert(b.subrange(0, 16) =~= self.uuid@);
        assert(d.uuid =~= self.uuid);
        assert(b.subrange(16, 20) =~= u32_le(self.group_id));
        lemma_le_u32_of(b, 16, self.group_id);
        assert(b.subrange(20, 84) =~= self.title@);
        assert(d.title =~= self.title);
        assert(b.subrange(84, 148) =~= self.username@);
        assert(d.username =~= self.username);
        assert(b.subrange(148, 212) =~= self.password@);
        assert(d.password =~= self.password);
        assert(b.subrange(212, 340) =~= self.url@);
        assert(d.url =~= self.url);
        assert(b.subrange(340, 348) =~= icon_bytes(self.icon_id));
        lemma_icon_round_trip(b, 340, self.icon_id);
        assert(b.subrange(348, 368) =~= self.times.spec_bytes());
        self.times.lemma_round_trip(d.times);
        assert(b[368] == if self.autotype {
            1u8
        } else {
            0u8
        });
    }

    /// Decoding is a function of the bytes.
    pub proof fn lemma_parse_unique(self, other: Entry, b: Seq<u8>)
        requires
            self.parsed_from(b),
            other.parsed_from(b),
        ensures
            self == other,
    {
        assert(self.uuid =~= other.uuid);
        assert(self.title =~= other.title);
        assert(self.username =~= other.username);
        assert(self.password =~= other.password);
        assert(self.url =~= other.url);
        self.times.lemma_parse_unique(other.times, b.subrange(348, 368));
    }

    /// A sample entry in group `group_id`: uuid 1, title "Google", user
    /// "carlos", password "123456", no url, no icon, no times, autotype on.
    pub fn default_with_group_id(group_id: u32) -> (r: Self)
        ensures
            r.uuid@ == seq![1u8] + Seq::new(15, |i: int| 0u8),
            r.group_id == group_id,
            r.title@ == text_field("Google".spec_bytes(), TEXT_FIELD_SIZE as nat),
            r.username@ == text_field("carlos".spec_bytes(), TEXT_FIELD_SIZE as nat),
            r.password@ == text_field("123456".spec_bytes(), TEXT_FIELD_SIZE as nat),
            r.url@ == Seq::new(URL_SIZE as nat, |i: int| 0u8),
            r.icon_id is None,
            r.times.spec_bytes() == Seq::new(TIMES_SIZE as nat, |i: int| 0u8),
            r.autotype,
    {
        let mut uuid = [0u8; UUID_SIZE];
        uuid[0] = 1;
        let url = [0u8; URL_SIZE];
        assert(uuid@ =~= seq![1u8] + Seq::new(15, |i: int| 0u8));
        assert(url@ =~= Seq::new(URL_SIZE as nat, |i: int| 0u8));
        Entry {
            uuid,
            group_id,
            title: encode_text::<TEXT_FIELD_SIZE>("Google"),
            username: encode_text::<TEXT_FIELD_SIZE>("carlos"),
            password: encode_text::<TEXT_FIELD_SIZE>("123456"),
            url,
            icon_id: None,
            times: Times::zero(),
            autotype: true,
        }
    }

    /// Decodes the first `ENTRY_SIZE` bytes of `bytes`.
    pub fn new_from_bytes(bytes: &[u8]) -> (r: Self)
        requires
            bytes@.len() >= ENTRY_SIZE,
        ensures
            r.parsed_from(bytes@),
    {
        let times = Times::new_from_bytes(vstd::slice::slice_subrange(bytes, 348, 368));
        Entry {
            uuid: take_array::<UUID_SIZE>(bytes, 0),
            group_id: u32_at(bytes, 16),
            title: take_array::<TEXT_FIELD_SIZE>(bytes, 20),
            username: take_array::<TEXT_FIELD_SIZE>(bytes, 84),
            password: take_array::<TEXT_FIELD_SIZE>(bytes, 148),
            url: take_array::<URL_SIZE>(bytes, 212),
            icon_id: icon_from(bytes, 340),
            times,
            autotype: bytes[368] != 0,
        }
    }

    /// The stored form.
    pub fn to_bytes(&self) -> (r: [u8; ENTRY_SIZE])
        ensures
            r@ == self.spec_bytes(),
    {
        let mut out: Vec<u8> = Vec::new();
        push_bytes(&mut out, &self.uuid);
        push_u32_le(&mut out, self.group_id);
        push_bytes(&mut out, &self.title);
        push_bytes(&mut out, &self.username);
        push_bytes(&mut out, &self.password);
        push_bytes(&mut out, &self.url);
        push_icon(&mut out, self.icon_id);
        push_bytes(&mut out, &self.times.to_bytes());
        out.push(if self.autotype {
            1u8
        } else {
            0u8
        });
        out.push(0);
        out.push(0);
        out.push(0);
        proof {
            self.lemma_spec_bytes_len();
            assert(out@ =~= self.spec_bytes());
        }
        to_array::<ENTRY_SIZE>(&out)
    }
}

} // verus!
