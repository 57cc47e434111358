//! A NOR flash device held in memory: the block device that the layout and
//! the record store read, write and erase.

use vstd::prelude::*;

verus! {

/// Smallest unit that can be erased.
pub const SECTOR_SIZE: u32 = 4096;

/// Value of every byte of an erased sector.
pub const ERASED_BYTE: u8 = 0xFF;

/// Why a device operation was refused.
#[derive(Clone, Copy, Debug, PartialEq, Eq, Structural)]
pub enum FlashError {
    /// The range does not lie inside the device.
    OutOfBounds,
    /// An erase bound is not on a sector boundary.
    NotAligned,
}

/// `img` after `data` is written at `offset`.
pub open spec fn written(img: Seq<u8>, offset: int, data: Seq<u8>) -> Seq<u8> {
    Seq::new(
        img.len(),
        |i: int|
            if offset <= i < offset + data.len() {
                data[i - offset]
            } else {
                img[i]
            },
    )
}

/// `img` after the bytes in `[start, end)` are erased.
pub open spec fn erased(img: Seq<u8>, start: int, end: int) -> Seq<u8> {
    Seq::new(
        img.len(),
        |i: int|
            if start <= i < end {
                ERASED_BYTE
            } else {
                img[i]
            },
    )
}

/// The contents of a flash device. A write replaces the bytes it covers, as
/// a device that performs read-erase-write on each call does; an erase works
/// on whole sectors.
#[derive(Debug)]
pub struct Flash {
    bytes: Vec<u8>,
}

impl View for Flash {
    type V = Seq<u8>;

    closed spec fn view(&self) -> Seq<u8> {
        self.bytes@
    }
}

impl Flash {
    #[verifier::type_invariant]
    spec fn addressable(&self) -> bool {
        self.bytes@.len() <= u32::MAX
    }

    /// A freshly erased device of `capacity` bytes.
    pub fn new_erased(capacity: u32) -> (r: Flash)
        ensures
            r@ == Seq::new(capacity as nat, |i: int| ERASED_BYTE),
    {
        let mut bytes: Vec<u8> = Vec::new();
        let mut i: u32 = 0;
        while i < capacity
            invariant
                i <= capacity,
                bytes@ == Seq::new(i as nat, |j: int| ERASED_BYTE),
            decreases capacity - i,
        {
            bytes.push(ERASED_BYTE);
            i += 1;
            assert(bytes@ =~= Seq::new(i as nat, |j: int| ERASED_BYTE));
        }
        Flash { bytes }
    }

    /// A device holding `bytes`; `None` when they are too many to address
    /// with 32 bits.
    pub fn from_bytes(bytes: Vec<u8>) -> (r: Option<Flash>)
        ensures
            r is Some <==> bytes@.len() <= u32::MAX,
            r matches Some(f) ==> f@ == bytes@,
    {
        if bytes.len() > u32::MAX as usize {
            None
        } else {
            Some(Flash { bytes })
        }
    }

    /// Everything the device holds.
    pub fn as_bytes(&self) -> (r: &[u8])
        ensures
            r@ == self@,
    {
        self.bytes.as_slice()
    }

    /// Size of the device in bytes.
    pub fn capacity(&self) -> (r: u32)
        ensures
            r == self@.len(),
    {
        proof {
            use_type_invariant(self);
        }
        self.bytes.len() as u32
    }

    /// The `len` bytes at `offset`.
    pub fn read(&self, offset: u32, len: usize) -> (r: Result<Vec<u8>, FlashError>)
        ensures
            self@.len() <= u32::MAX,
            r is Ok <==> offset + len <= self@.len(),
            r matches Ok(v) ==> v@ == self@.subrange(offset as int, offset + len),
            r matches Err(e) ==> e == FlashError::OutOfBounds,
    {
        proof {
            use_type_invariant(self);
        }
        let size = self.bytes.len();
        if offset as usize > size || size - (offset as usize) < len {
            return Err(FlashError::OutOfBounds);
        }
        let start = offset as usize;
        let mut out: Vec<u8> = Vec::new();
        let mut i: usize = 0;
        while i < len
            invariant
                i <= len,
                start + len <= self@.len(),
                self@.len() <= u32::MAX,
                start == offset,
                out@ == self@.subrange(start as int, start + i),
            decreases len - i,
        {
            out.push(self.bytes[start + i]);
            i += 1;
            assert(out@ =~= self@.subrange(start as int, start + i));
        }
        Ok(out)
    }

    /// Replaces the bytes at `offset` with `data`; refused, changing nothing,
    /// when they do not lie inside the device.
    pub fn write(&mut self, offset: u32, data: &[u8]) -> (r: Result<(), FlashError>)
        ensures
            old(self)@.len() <= u32::MAX,
            r is Ok <==> offset + data@.len() <= old(self)@.len(),
            r is Ok ==> final(self)@ == written(old(self)@, offset as int, data@),
            r matches Err(e) ==> e == FlashError::OutOfBounds && final(self)@ == old(self)@,
    {
        proof {
            use_type_invariant(&*self);
        }
        let size = self.bytes.len();
        if offset as usize > size || size - (offset as usize) < data.len() {
            return Err(FlashError::OutOfBounds);
        }
        let start = offset as usize;
        let ghost before = self@;
        let mut i: usize = 0;
        while i < data.len()
            invariant
                i <= data@.len(),
                start + data@.len() <= before.len(),
                before.len() <= u32::MAX,
                start == offset,
                self@.len() == before.len(),
                forall|j: int|
                    0 <= j < before.len() ==> self@[j] == if start <= j < start + i {
                        data@[j - start]
                    } else {
                        before[j]
                    },
            decreases data@.len() - i,
        {
            self.bytes[start + i] = data[i];
            i += 1;
        }
        assert(self@ =~= written(before, offset as int, data@));
        Ok(())
    }

    /// Erases the bytes in `[start, end)`. Both bounds must be sector
    /// boundaries inside the device; otherwise nothing changes.
    pub fn erase(&mut self, start: u32, end: u32) -> (r: Result<(), FlashError>)
        ensures
            old(self)@.len() <= u32::MAX,
            r is Ok <==> start <= end <= old(self)@.len() && start % SECTOR_SIZE == 0 && end
                % SECTOR_SIZE == 0,
            r is Ok ==> final(self)@ == erased(old(self)@, start as int, end as int),
            r is Err ==> final(self)@ == old(self)@,
            r matches Err(e) ==> (e == FlashError::NotAligned <==> start <= end
                <= old(self)@.len()),
    {
        proof {
            use_type_invariant(&*self);
        }
        if start > end || end as usize > self.bytes.len() {
            return Err(FlashError::OutOfBounds);
        }
        if start % SECTOR_SIZE != 0 || end % SECTOR_SIZE != 0 {
            return Err(FlashError::NotAligned);
        }
        let ghost before = self@;
        let mut i: usize = start as usize;
        while i < end as usize
            invariant
                start <= i <= end,
                end <= before.len(),
                before.len() <= u32::MAX,
                self@.len() == before.len(),
                forall|j: int|
                    0 <= j < before.len() ==> self@[j] == if start <= j < i {
                        ERASED_BYTE
                    } else {
                        before[j]
                    },
            decreases end - i,
        {
            self.bytes[i] = ERASED_BYTE;
            i += 1;
        }
        assert(self@ =~= erased(before, start as int, end as int));
        Ok(())
    }
}

} // verus!
