use vstd::prelude::*;
use crate::bytes::push_bytes;
use crate::index::IndexEntry;

verus! {

/// The largest volume size that offsets can address.
pub const MAX_VOLUME: u64 = 0xffff_ffff_ffff_ffff;

/// Whether `e` names a byte range that lies wholly inside a volume of
/// `size` bytes.
pub open spec fn range_within(e: IndexEntry, size: int) -> bool {
    e.offset + e.length <= size
}

/// The bytes of `vol` that `e` names.
pub open spec fn range_of(vol: Seq<u8>, e: IndexEntry) -> Seq<u8> {
    vol.subrange(e.offset as int, e.offset + e.length)
}

/// An append-only byte store. Bytes once appended are never changed or
/// removed; the store only grows.
///
/// Durability: the volume itself lives in memory. Its owner makes each
/// appended range durable (written and flushed to stable storage) before
/// the mutation that appended it is reported as done, so that an
/// acknowledged write is never lost; a range appended but not yet
/// flushed may be lost in a crash and is then simply never referenced.
pub struct Volume {
    bytes: Vec<u8>,
}

impl View for Volume {
    type V = Seq<u8>;

    closed spec fn view(&self) -> Seq<u8> {
        self.bytes@
    }
}

impl Volume {
    pub fn new() -> (r: Volume)
        ensures
            r@ == Seq::<u8>::empty(),
    {
        Volume { bytes: Vec::new() }
    }

    /// A volume that holds `bytes`, as read back from stable storage.
    pub fn from_bytes(bytes: Vec<u8>) -> (r: Volume)
        ensures
            r@ == bytes@,
    {
        Volume { bytes }
    }

    /// The volume's size in bytes: the end-of-file offset.
    pub fn size(&self) -> (r: u64)
        ensures
            r == self@.len(),
    {
        self.bytes.len() as u64
    }

    pub fn as_bytes(&self) -> (r: &[u8])
        ensures
            r@ == self@,
    {
        self.bytes.as_slice()
    }

    /// `Append(bytes)`: writes `data` at the end and returns where it
    /// begins and how long it is. The bytes before the old end stay as
    /// they were.
    pub fn append(&mut self, data: &[u8]) -> (r: IndexEntry)
        requires
            old(self)@.len() + data@.len() <= MAX_VOLUME,
        ensures
            r.offset == old(self)@.len(),
            r.length == data@.len(),
            final(self)@ == old(self)@ + data@,
            range_of(final(self)@, r) == data@,
    {
        let offset = self.bytes.len() as u64;
        push_bytes(&mut self.bytes, data);
        let r = IndexEntry { offset, length: data.len() as u64 };
        assert(range_of(self@, r) =~= data@);
        r
    }

    /// Reads the range `e`: `None` where the volume is too short to hold it.
    pub fn read(&self, e: IndexEntry) -> (r: Option<Vec<u8>>)
        ensures
            match r {
                Some(b) => range_within(e, self@.len() as int) && b@ == range_of(self@, e),
                None => !range_within(e, self@.len() as int),
            },
    {
        let size = self.bytes.len() as u64;
        if e.offset > size || e.length > size - e.offset {
            return None;
        }
        let start = e.offset as usize;
        let end = start + e.length as usize;
        let mut out: Vec<u8> = Vec::new();
        let mut i: usize = start;
        while i < end
            invariant
                start <= i <= end <= self.bytes@.len(),
                start == e.offset,
                end == e.offset + e.length,
                out@ == self.bytes@.subrange(start as int, i as int),
            decreases end - i,
        {
            out.push(self.bytes[i]);
            assert(self.bytes@.subrange(start as int, i + 1)
                == self.bytes@.subrange(start as int, i as int).push(self.bytes@[i as int]));
            i = i + 1;
        }
        Some(out)
    }
}

} // verus!
