//! Packed KeePass v1 timestamps.

use vstd::prelude::*;

use crate::codec::take_array;

verus! {

/// Bytes of one packed timestamp.
pub const KDB_TIME_SIZE: usize = 5;

/// Bytes of the four timestamps of a record.
pub const TIMES_SIZE: usize = 20;

/// A KeePass v1 timestamp: a packed 5-byte little-endian value (40 bits).
///
/// Layout, least-significant bits first: second (6 bits), minute (6),
/// hour (5), day (5), month (4), year (14). All zero means "never".
#[derive(Clone, Copy, PartialEq, Eq, Debug)]
pub struct KdbTime {
    raw: [u8; KDB_TIME_SIZE],
}

impl View for KdbTime {
    type V = Seq<u8>;

    closed spec fn view(&self) -> Seq<u8> {
        self.raw@
    }
}

impl KdbTime {
    pub proof fn lemma_view_len(self)
        ensures
            self@.len() == KDB_TIME_SIZE,
    {
    }

    /// Two timestamps with the same bytes are the same timestamp.
    pub proof fn lemma_view_injective(self, other: KdbTime)
        requires
            self@ == other@,
        ensures
            self == other,
    {
        assert(self.raw =~= other.raw);
    }

    /// The timestamp whose packed bytes are `raw`.
    pub fn from_raw(raw: [u8; KDB_TIME_SIZE]) -> (r: Self)
        ensures
            r@ == raw@,
    {
        Self { raw }
    }

    /// The packed bytes.
    pub fn raw(&self) -> (r: &[u8; KDB_TIME_SIZE])
        ensures
            r@ == self@,
    {
        &self.raw
    }

    /// The all-zero timestamp, read as "never".
    pub fn never() -> (r: Self)
        ensures
            r@ == Seq::new(KDB_TIME_SIZE as nat, |i: int| 0u8),
    {
        let r = Self { raw: [0u8; KDB_TIME_SIZE] };
        assert(r@ =~= Seq::new(KDB_TIME_SIZE as nat, |i: int| 0u8));
        r
    }
}

/// The four timestamps of a group or an entry.
#[derive(Clone, Copy, Debug)]
pub struct Times {
    pub created: KdbTime,
    pub modified: KdbTime,
    pub accessed: KdbTime,
    /// All-zero packed time means "never expires".
    pub expires: KdbTime,
}

impl Times {
    /// The stored form: created, modified, accessed, expires, 5 bytes each.
    pub open spec fn spec_bytes(self) -> Seq<u8> {
        self.created@ + self.modified@ + self.accessed@ + self.expires@
    }

    /// `self` is what decoding the first 20 bytes of `b` yields.
    pub open spec fn parsed_from(self, b: Seq<u8>) -> bool {
        &&& self.created@ == b.subrange(0, 5)
        &&& self.modified@ == b.subrange(5, 10)
        &&& self.accessed@ == b.subrange(10, 15)
        &&& self.expires@ == b.subrange(15, 20)
    }

    pub proof fn lemma_spec_bytes_len(self)
        ensures
            self.spec_bytes().len() == TIMES_SIZE,
    {
        self.created.lemma_view_len();
        self.modified.lemma_view_len();
        self.accessed.lemma_view_len();
        self.expires.lemma_view_len();
    }

    /// Decoding the stored form gives back the same times.
    pub proof fn lemma_round_trip(self, d: Times)
        requires
            d.parsed_from(self.spec_bytes()),
        ensures
            d == self,
    {
        self.lemma_spec_bytes_len();
        let b = self.spec_bytes();
        self.created.lemma_view_len();
        self.modified.lemma_view_len();
        self.accessed.lemma_view_len();
        self.expires.lemma_view_len();
        assert(b.subrange(0, 5) =~= self.created@);
        assert(b.subrange(5, 10) =~= self.modified@);
        assert(b.subrange(10, 15) =~= self.accessed@);
        assert(b.subrange(15, 20) =~= self.expires@);
        d.created.lemma_view_injective(self.created);
        d.modified.lemma_view_injective(self.modified);
        d.accessed.lemma_view_injective(self.accessed);
        d.expires.lemma_view_injective(self.expires);
    }

    /// Decoding is a function of the bytes.
    pub proof fn lemma_parse_unique(self, other: Times, b: Seq<u8>)
        requires
            self.parsed_from(b),
            other.parsed_from(b),
        ensures
            self == other,
    {
        self.created.lemma_view_injective(other.created);
        self.modified.lemma_view_injective(other.modified);
        self.accessed.lemma_view_injective(other.accessed);
        self.expires.lemma_view_injective(other.expires);
    }

    /// Any 20 bytes, decoded and stored again, are the same bytes.
    pub proof fn lemma_bytes_round_trip(self, b: Seq<u8>)
        requires
            b.len() == TIMES_SIZE,
            self.parsed_from(b),
        ensures
            self.spec_bytes() == b,
    {
        assert(self.spec_bytes() =~= b);
    }

    /// All four timestamps "never".
    pub fn zero() -> (r: Self)
        ensures
            r.spec_bytes() == Seq::new(TIMES_SIZE as nat, |i: int| 0u8),
    {
        let r = Self {
            created: KdbTime::never(),
            modified: KdbTime::never(),
            accessed: KdbTime::never(),
            expires: KdbTime::never(),
        };
        assert(r.spec_bytes() =~= Seq::new(TIMES_SIZE as nat, |i: int| 0u8));
        r
    }

    /// Decodes the first 20 bytes of `bytes`.
    pub fn new_from_bytes(bytes: &[u8]) -> (r: Self)
        requires
            bytes@.len() >= TIMES_SIZE,
        ensures
            r.parsed_from(bytes@),
    {
        Self {
            created: KdbTime::from_raw(take_array::<KDB_TIME_SIZE>(bytes, 0)),
            modified: KdbTime::from_raw(take_array::<KDB_TIME_SIZE>(bytes, 5)),
            accessed: KdbTime::from_raw(take_array::<KDB_TIME_SIZE>(bytes, 10)),
            expires: KdbTime::from_raw(take_array::<KDB_TIME_SIZE>(bytes, 15)),
        }
    }

    /// The stored form.
    pub fn to_bytes(&self) -> (r: [u8; TIMES_SIZE])
        ensures
            r@ == self.spec_bytes(),
    {
        let mut out: Vec<u8> = Vec::new();
        crate::codec::push_bytes(&mut out, self.created.raw());
        crate::codec::push_bytes(&mut out, self.modified.raw());
        crate::codec::push_bytes(&mut out, self.accessed.raw());
        crate::codec::push_bytes(&mut out, self.expires.raw());
        proof {
            self.lemma_spec_bytes_len();
            assert(out@ =~= self.spec_bytes());
        }
        crate::codec::to_array::<TIMES_SIZE>(&out)
    }
}

} // verus!
