use vstd::prelude::*;
use crate::index::IndexEntry;

verus! {

/// One deletion: the key, the range it freed and when.
#[derive(Debug)]
pub struct TombstoneRecord {
    pub key: Vec<u8>,
    pub offset: u64,
    pub length: u64,
    pub timestamp: u64,
}

/// A tombstone record as a mathematical value.
pub struct Tombstone {
    pub key: Seq<u8>,
    pub offset: u64,
    pub length: u64,
    pub timestamp: u64,
}

impl View for TombstoneRecord {
    type V = Tombstone;

    open spec fn view(&self) -> Tombstone {
        Tombstone {
            key: self.key@,
            offset: self.offset,
            length: self.length,
            timestamp: self.timestamp,
        }
    }
}

impl TombstoneRecord {
    /// The range that the deletion freed.
    pub fn freed(&self) -> (r: IndexEntry)
        ensures
            r.offset == self.offset,
            r.length == self.length,
    {
        IndexEntry { offset: self.offset, length: self.length }
    }
}

/// The append-only record of freed ranges, one record per deletion.
pub struct DeleteLog {
    records: Vec<TombstoneRecord>,
}

impl View for DeleteLog {
    type V = Seq<Tombstone>;

    closed spec fn view(&self) -> Seq<Tombstone> {
        self.records@.map_values(|r: TombstoneRecord| r@)
    }
}

impl DeleteLog {
    pub fn new() -> (r: DeleteLog)
        ensures
            r@ == Seq::<Tombstone>::empty(),
    {
        let r = DeleteLog { records: Vec::new() };
        assert(r@ =~= Seq::<Tombstone>::empty());
        r
    }

    pub fn len(&self) -> (r: usize)
        ensures
            r == self@.len(),
    {
        self.records.len()
    }

    /// The record at position `i`, oldest first.
    pub fn get(&self, i: usize) -> (r: &TombstoneRecord)
        requires
            i < self@.len(),
        ensures
            r@ == self@[i as int],
    {
        &self.records[i]
    }

    /// Appends `record` after all earlier ones.
    pub fn append(&mut self, record: TombstoneRecord)
        ensures
            final(self)@ == old(self)@.push(record@),
    {
        self.records.push(record);
        assert(self@ =~= old(self)@.push(record@));
    }
}

} // verus!
