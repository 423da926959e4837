use vstd::prelude::*;
use vstd::string::StringSliceAdditionalSpecFns;
use crate::delete_log::{DeleteLog, Tombstone, TombstoneRecord};
use crate::index::{keys_encodable, keys_unique, map_of, IndexEntry, ObjectIndex, Rows};
use crate::snapshot::{encode_rows, parse_rows};
use crate::volume::{range_of, range_within, Volume, MAX_VOLUME};

verus! {

/// The ways an operation of the store can fail.
#[derive(Clone, Copy, Debug, PartialEq, Eq, Structural)]
pub enum StoreError {
    /// Create on a key that already has a live entry.
    KeyExists,
    /// Get, Update or Delete on a key without a live entry.
    NotFound,
    /// The index names a range that the volume does not hold.
    CorruptRead,
    /// Reading or writing stable storage failed, or the volume is full.
    IoFailure,
    /// A snapshot could not be encoded or decoded.
    SerializationFailure,
    /// A missing or empty payload.
    MalformedInput,
}

/// The whole store as mathematical values: live entries by key, the
/// volume's bytes, and the delete log.
pub struct StoreState {
    pub index: Map<Seq<u8>, IndexEntry>,
    pub volume: Seq<u8>,
    pub log: Seq<Tombstone>,
}

/// The entry that a payload of `len` bytes gets when appended to `s`.
pub open spec fn next_entry(s: StoreState, len: nat) -> IndexEntry {
    IndexEntry { offset: s.volume.len() as u64, length: len as u64 }
}

/// Whether a payload of `len` bytes still fits the volume of `s`.
pub open spec fn fits(s: StoreState, len: nat) -> bool {
    s.volume.len() + len <= MAX_VOLUME
}

/// What `Create(k, b)` returns on `s`.
pub open spec fn create_result(s: StoreState, k: Seq<u8>, b: Seq<u8>) -> Result<IndexEntry, StoreError> {
    if s.index.contains_key(k) {
        Err(StoreError::KeyExists)
    } else if b.len() == 0 {
        Err(StoreError::MalformedInput)
    } else if !fits(s, b.len()) {
        Err(StoreError::IoFailure)
    } else {
        Ok(next_entry(s, b.len()))
    }
}

/// The state after `Create(k, b)` on `s`.
pub open spec fn after_create(s: StoreState, k: Seq<u8>, b: Seq<u8>) -> StoreState {
    match create_result(s, k, b) {
        Ok(e) => StoreState { index: s.index.insert(k, e), volume: s.volume + b, log: s.log },
        Err(_) => s,
    }
}

/// What `Update(k, b)` returns on `s`.
pub open spec fn update_result(s: StoreState, k: Seq<u8>, b: Seq<u8>) -> Result<IndexEntry, StoreError> {
    if !s.index.contains_key(k) {
        Err(StoreError::NotFound)
    } else if b.len() == 0 {
        Err(StoreError::MalformedInput)
    } else if !fits(s, b.len()) {
        Err(StoreError::IoFailure)
    } else {
        Ok(next_entry(s, b.len()))
    }
}

/// The state after `Update(k, b)` on `s`: the payload goes to a fresh
/// range and the key points there; the old range is left as it was.
pub open spec fn after_update(s: StoreState, k: Seq<u8>, b: Seq<u8>) -> StoreState {
    match update_result(s, k, b) {
        Ok(e) => StoreState { index: s.index.insert(k, e), volume: s.volume + b, log: s.log },
        Err(_) => s,
    }
}

/// What `Delete(k)` at time `t` returns on `s`: the tombstone it logs.
pub open spec fn delete_result(s: StoreState, k: Seq<u8>, t: u64) -> Result<Tombstone, StoreError> {
    if !s.index.contains_key(k) {
        Err(StoreError::NotFound)
    } else {
        Ok(Tombstone { key: k, offset: s.index[k].offset, length: s.index[k].length, timestamp: t })
    }
}

/// The state after `Delete(k)` at time `t` on `s`: the tombstone is
/// logged, the key leaves the index, the volume is untouched.
pub open spec fn after_delete(s: StoreState, k: Seq<u8>, t: u64) -> StoreState {
    match delete_result(s, k, t) {
        Ok(rec) => StoreState { index: s.index.remove(k), volume: s.volume, log: s.log.push(rec) },
        Err(_) => s,
    }
}

/// What `Get(k)` returns on `s`.
pub open spec fn get_result(s: StoreState, k: Seq<u8>) -> Result<Seq<u8>, StoreError> {
    if !s.index.contains_key(k) {
        Err(StoreError::NotFound)
    } else if !range_within(s.index[k], s.volume.len() as int) {
        Err(StoreError::CorruptRead)
    } else {
        Ok(range_of(s.volume, s.index[k]))
    }
}

/// The storage engine: it owns the index, the volume and the delete log.
/// Every mutation takes `&mut self`, so mutations are serialized: the
/// existence check, the append and the index change of one call happen
/// as one unit with respect to every other call.
pub struct Engine {
    index: ObjectIndex,
    volume: Volume,
    log: DeleteLog,
}

impl View for Engine {
    type V = StoreState;

    closed spec fn view(&self) -> StoreState {
        StoreState { index: self.index@, volume: self.volume@, log: self.log@ }
    }
}

impl Engine {
    pub closed spec fn wf(&self) -> bool {
        self.index.wf()
    }

    /// An empty store.
    pub fn new() -> (r: Engine)
        ensures
            r.wf(),
            r@.index == Map::<Seq<u8>, IndexEntry>::empty(),
            r@.volume == Seq::<u8>::empty(),
            r@.log == Seq::<Tombstone>::empty(),
    {
        Engine { index: ObjectIndex::new(), volume: Volume::new(), log: DeleteLog::new() }
    }

    /// The index's rows, in order of first insertion.
    pub closed spec fn rows(&self) -> Rows {
        self.index.rows()
    }

    /// The snapshot bytes of the index, to be persisted by writing them
    /// to a temporary file and renaming it over the previous snapshot.
    pub fn snapshot(&self) -> (r: Vec<u8>)
        requires
            self.wf(),
        ensures
            r@ == encode_rows(self.rows()),
            keys_unique(self.rows()),
            keys_encodable(self.rows()),
            map_of(self.rows()) == self@.index,
    {
        self.index.to_snapshot()
    }

    /// Load at startup: the store whose index the snapshot holds, over the
    /// volume's bytes as read back from stable storage. The delete log of
    /// this run starts empty. Fails with `SerializationFailure` exactly
    /// where the snapshot is malformed or names a key twice.
    pub fn restore(snapshot: &[u8], volume: Vec<u8>) -> (r: Result<Engine, StoreError>)
        ensures
            r is Ok <==> (parse_rows(snapshot@) is Some && keys_unique(parse_rows(snapshot@)->0)
                && keys_encodable(parse_rows(snapshot@)->0)),
            r is Ok ==> ({
                let e = r->Ok_0;
                &&& e.wf()
                &&& Some(e.rows()) == parse_rows(snapshot@)
                &&& e@.index == map_of(e.rows())
                &&& e@.volume == volume@
                &&& e@.log == Seq::<Tombstone>::empty()
            }),
            r is Err ==> r->Err_0 == StoreError::SerializationFailure,
    {
        match ObjectIndex::from_snapshot(snapshot) {
            Ok(index) => Ok(Engine::from_parts(index, Volume::from_bytes(volume))),
            Err(e) => Err(e),
        }
    }

    /// The live rows, key and entry, in order of first insertion.
    pub fn entries(&self) -> (r: Vec<(Vec<u8>, IndexEntry)>)
        requires
            self.wf(),
        ensures
            r@.len() == self.rows().len(),
            forall|i: int| 0 <= i < r@.len() ==> (#[trigger] r@[i]).0@ == self.rows()[i].0
                && r@[i].1 == self.rows()[i].1,
    {
        let mut out: Vec<(Vec<u8>, IndexEntry)> = Vec::new();
        let n = self.index.len();
        let mut i: usize = 0;
        while i < n
            invariant
                n == self.rows().len(),
                0 <= i <= n,
                out@.len() == i,
                forall|j: int| 0 <= j < i ==> (#[trigger] out@[j]).0@ == self.rows()[j].0
                    && out@[j].1 == self.rows()[j].1,
            decreases n - i,
        {
            out.push((crate::bytes::copy_bytes(self.index.key_at(i)), self.index.entry_at(i)));
            i = i + 1;
        }
        out
    }

    /// A store from an index and a volume; the delete log starts empty.
    pub fn from_parts(index: ObjectIndex, volume: Volume) -> (r: Engine)
        requires
            index.wf(),
        ensures
            r.wf(),
            r.rows() == index.rows(),
            r@.index == index@,
            r@.volume == volume@,
            r@.log == Seq::<Tombstone>::empty(),
    {
        Engine { index, volume, log: DeleteLog::new() }
    }

    pub fn index(&self) -> (r: &ObjectIndex)
        requires
            self.wf(),
        ensures
            r.wf(),
            r@ == self@.index,
    {
        &self.index
    }

    pub fn volume(&self) -> (r: &Volume)
        ensures
            r@ == self@.volume,
    {
        &self.volume
    }

    pub fn delete_log(&self) -> (r: &DeleteLog)
        ensures
            r@ == self@.log,
    {
        &self.log
    }

    /// `Lookup(key)`: the live entry of `key`, if any.
    pub fn lookup(&self, key: &str) -> (r: Option<IndexEntry>)
        requires
            self.wf(),
        ensures
            r == (if self@.index.contains_key(key.spec_bytes()) {
                Some(self@.index[key.spec_bytes()])
            } else {
                None::<IndexEntry>
            }),
    {
        self.index.lookup(key.as_bytes())
    }

    /// `Create(key, data)`: stores `data` under a key that has no live
    /// entry, at the end of the volume.
    pub fn create(&mut self, key: &str, data: &[u8]) -> (r: Result<IndexEntry, StoreError>)
        requires
            old(self).wf(),
        ensures
            final(self).wf(),
            r == create_result(old(self)@, key.spec_bytes(), data@),
            final(self)@ == after_create(old(self)@, key.spec_bytes(), data@),
    {
        let k = key.as_bytes();
        if self.index.lookup(k).is_some() {
            return Err(StoreError::KeyExists);
        }
        if data.len() == 0 {
            return Err(StoreError::MalformedInput);
        }
        if data.len() as u64 > MAX_VOLUME - self.volume.size() {
            return Err(StoreError::IoFailure);
        }
        let e = self.volume.append(data);
        let inserted = self.index.insert(k, e);
        assert(inserted);
        Ok(e)
    }

    /// `Update(key, data)`: stores `data` in a fresh range at the end of
    /// the volume and points the live key there in one step.
    pub fn update(&mut self, key: &str, data: &[u8]) -> (r: Result<IndexEntry, StoreError>)
        requires
            old(self).wf(),
        ensures
            final(self).wf(),
            r == update_result(old(self)@, key.spec_bytes(), data@),
            final(self)@ == after_update(old(self)@, key.spec_bytes(), data@),
    {
        let k = key.as_bytes();
        if self.index.lookup(k).is_none() {
            return Err(StoreError::NotFound);
        }
        if data.len() == 0 {
            return Err(StoreError::MalformedInput);
        }
        if data.len() as u64 > MAX_VOLUME - self.volume.size() {
            return Err(StoreError::IoFailure);
        }
        let e = self.volume.append(data);
        let replaced = self.index.replace(k, e);
        assert(replaced);
        Ok(e)
    }

    /// `Delete(key)` at time `timestamp`: logs the freed range first, then
    /// drops the key from the index. The volume keeps its bytes.
    pub fn delete(&mut self, key: &str, timestamp: u64) -> (r: Result<TombstoneRecord, StoreError>)
        requires
            old(self).wf(),
        ensures
            final(self).wf(),
            match r {
                Ok(rec) => delete_result(old(self)@, key.spec_bytes(), timestamp)
                    == Ok::<Tombstone, StoreError>(rec@),
                Err(e) => delete_result(old(self)@, key.spec_bytes(), timestamp)
                    == Err::<Tombstone, StoreError>(e),
            },
            final(self)@ == after_delete(old(self)@, key.spec_bytes(), timestamp),
    {
        let k = key.as_bytes();
        match self.index.lookup(k) {
            None => Err(StoreError::NotFound),
            Some(e) => {
                let record = TombstoneRecord {
                    key: crate::bytes::copy_bytes(k),
                    offset: e.offset,
                    length: e.length,
                    timestamp,
                };
                let logged = TombstoneRecord {
                    key: crate::bytes::copy_bytes(k),
                    offset: e.offset,
                    length: e.length,
                    timestamp,
                };
                self.log.append(logged);
                let removed = self.index.remove(k);
                assert(removed is Some);
                Ok(record)
            },
        }
    }

    /// `Get(key)`: the payload stored under `key`.
    pub fn get(&self, key: &str) -> (r: Result<Vec<u8>, StoreError>)
        requires
            self.wf(),
        ensures
            match r {
                Ok(b) => get_result(self@, key.spec_bytes()) == Ok::<Seq<u8>, StoreError>(b@),
                Err(e) => get_result(self@, key.spec_bytes()) == Err::<Seq<u8>, StoreError>(e),
            },
    {
        match self.index.lookup(key.as_bytes()) {
            None => Err(StoreError::NotFound),
            Some(e) => match self.volume.read(e) {
                None => Err(StoreError::CorruptRead),
                Some(b) => Ok(b),
            },
        }
    }
}

} // verus!
