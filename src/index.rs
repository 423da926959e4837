use vstd::prelude::*;
use crate::bytes::{bytes_equal, copy_bytes};

verus! {

/// Where a live object's payload lies in the volume.
#[derive(Clone, Copy, Debug, PartialEq, Eq, Structural)]
pub struct IndexEntry {
    pub offset: u64,
    pub length: u64,
}

/// The index's rows, in order of first insertion, as mathematical values.
pub type Rows = Seq<(Seq<u8>, IndexEntry)>;

/// No key appears in two rows.
pub open spec fn keys_unique(rows: Rows) -> bool {
    forall|i: int, j: int| 0 <= i < j < rows.len() ==> rows[i].0 != rows[j].0
}

/// Every key's length can be written as a `u64`.
pub open spec fn keys_encodable(rows: Rows) -> bool {
    forall|i: int| 0 <= i < rows.len() ==> (#[trigger] rows[i]).0.len() <= u64::MAX
}

/// Whether `k` is the key of some row.
pub open spec fn has_key(rows: Rows, k: Seq<u8>) -> bool {
    exists|i: int| 0 <= i < rows.len() && rows[i].0 == k
}

/// The key-to-entry mapping that the rows describe.
pub open spec fn map_of(rows: Rows) -> Map<Seq<u8>, IndexEntry> {
    Map::new(
        |k: Seq<u8>| has_key(rows, k),
        |k: Seq<u8>| rows[choose|i: int| 0 <= i < rows.len() && rows[i].0 == k].1,
    )
}

/// With unique keys, each row's entry is what the mapping gives for its key.
pub proof fn lemma_map_of_row(rows: Rows, i: int)
    requires
        keys_unique(rows),
        0 <= i < rows.len(),
    ensures
        map_of(rows).contains_key(rows[i].0),
        map_of(rows)[rows[i].0] == rows[i].1,
{
    let k = rows[i].0;
    assert(has_key(rows, k));
    let j = choose|j: int| 0 <= j < rows.len() && rows[j].0 == k;
    if j != i {
        if j < i {
            assert(rows[j].0 != rows[i].0);
        } else {
            assert(rows[i].0 != rows[j].0);
        }
    }
}

/// The in-memory object index: one row per live key.
pub struct ObjectIndex {
    rows: Vec<(Vec<u8>, IndexEntry)>,
}

impl ObjectIndex {
    /// The rows as mathematical values.
    pub closed spec fn rows(&self) -> Rows {
        self.rows@.map_values(|r: (Vec<u8>, IndexEntry)| (r.0@, r.1))
    }

    pub open spec fn wf(&self) -> bool {
        keys_unique(self.rows()) && keys_encodable(self.rows())
    }

    /// The live entries by key.
    pub open spec fn view(&self) -> Map<Seq<u8>, IndexEntry> {
        map_of(self.rows())
    }

    pub fn new() -> (r: ObjectIndex)
        ensures
            r.wf(),
            r.rows() == Seq::<(Seq<u8>, IndexEntry)>::empty(),
            r@ == Map::<Seq<u8>, IndexEntry>::empty(),
    {
        let r = ObjectIndex { rows: Vec::new() };
        assert(r.rows() =~= Seq::<(Seq<u8>, IndexEntry)>::empty());
        assert(r@ =~= Map::<Seq<u8>, IndexEntry>::empty());
        r
    }

    pub fn len(&self) -> (r: usize)
        ensures
            r == self.rows().len(),
    {
        self.rows.len()
    }

    /// The key of the row at position `i`.
    pub fn key_at(&self, i: usize) -> (r: &[u8])
        requires
            i < self.rows().len(),
        ensures
            r@ == self.rows()[i as int].0,
    {
        self.rows[i].0.as_slice()
    }

    /// The entry of the row at position `i`.
    pub fn entry_at(&self, i: usize) -> (r: IndexEntry)
        requires
            i < self.rows().len(),
        ensures
            r == self.rows()[i as int].1,
    {
        self.rows[i].1
    }

    /// The position of the row for `key`, if there is one.
    fn position(&self, key: &[u8]) -> (r: Option<usize>)
        requires
            self.wf(),
        ensures
            match r {
                Some(i) => i < self.rows().len() && self.rows()[i as int].0 == key@,
                None => !has_key(self.rows(), key@),
            },
    {
        let mut i: usize = 0;
        while i < self.rows.len()
            invariant
                0 <= i <= self.rows@.len(),
                forall|j: int| 0 <= j < i ==> #[trigger] self.rows()[j].0 != key@,
            decreases self.rows@.len() - i,
        {
            if bytes_equal(self.rows[i].0.as_slice(), key) {
                return Some(i);
            }
            i = i + 1;
        }
        None
    }

    /// `Lookup(key)`: the live entry for `key`, if any.
    pub fn lookup(&self, key: &[u8]) -> (r: Option<IndexEntry>)
        requires
            self.wf(),
        ensures
            r == (if self@.contains_key(key@) { Some(self@[key@]) } else { None::<IndexEntry> }),
    {
        match self.position(key) {
            Some(i) => {
                proof { lemma_map_of_row(self.rows(), i as int); }
                Some(self.rows[i].1)
            },
            None => None,
        }
    }

    /// `Insert(key, entry)`: adds a row for a key that has none; fails
    /// with `false`, changing nothing, where the key already has one.
    pub fn insert(&mut self, key: &[u8], entry: IndexEntry) -> (r: bool)
        requires
            old(self).wf(),
        ensures
            final(self).wf(),
            r == !old(self)@.contains_key(key@),
            r ==> final(self).rows() == old(self).rows().push((key@, entry)),
            !r ==> *final(self) == *old(self),
            final(self)@ == (if r { old(self)@.insert(key@, entry) } else { old(self)@ }),
    {
        match self.position(key) {
            Some(_) => false,
            None => {
                let ghost before = self.rows();
                let klen: usize = key.len();
                self.rows.push((copy_bytes(key), entry));
                let ghost after = self.rows();
                assert(after =~= before.push((key@, entry)));
                assert(key@.len() == klen);
                assert forall|k: Seq<u8>| #[trigger] map_of(after).contains_key(k)
                    <==> map_of(before).insert(key@, entry).contains_key(k) by {
                    if has_key(before, k) {
                        let j = choose|j: int| 0 <= j < before.len() && before[j].0 == k;
                        assert(after[j].0 == k);
                    }
                    if has_key(after, k) && k != key@ {
                        let j = choose|j: int| 0 <= j < after.len() && after[j].0 == k;
                        assert(j < before.len());
                        assert(before[j].0 == k);
                    }
                    if k == key@ {
                        assert(after[before.len() as int].0 == k);
                    }
                }
                assert forall|k: Seq<u8>| #[trigger] map_of(after).contains_key(k)
                    implies map_of(after)[k] == map_of(before).insert(key@, entry)[k] by {
                    if k == key@ {
                        lemma_map_of_row(after, before.len() as int);
                    } else {
                        let j = choose|j: int| 0 <= j < after.len() && after[j].0 == k;
                        lemma_map_of_row(after, j);
                        lemma_map_of_row(before, j);
                    }
                }
                assert(map_of(after) =~= map_of(before).insert(key@, entry));
                true
            },
        }
    }

    /// `Replace(key, entry)`: gives an existing key a new entry in one
    /// step; fails with `false`, changing nothing, where the key has none.
    pub fn replace(&mut self, key: &[u8], entry: IndexEntry) -> (r: bool)
        requires
            old(self).wf(),
        ensures
            final(self).wf(),
            r == old(self)@.contains_key(key@),
            !r ==> *final(self) == *old(self),
            final(self)@ == (if r { old(self)@.insert(key@, entry) } else { old(self)@ }),
    {
        match self.position(key) {
            None => false,
            Some(i) => {
                let ghost before = self.rows();
                let klen: usize = key.len();
                let k = copy_bytes(key);
                self.rows.set(i, (k, entry));
                let ghost after = self.rows();
                assert(after =~= before.update(i as int, (key@, entry)));
                assert(key@.len() == klen);
                assert forall|a: int| 0 <= a < after.len() implies (#[trigger] after[a]).0.len() <= u64::MAX by {
                    if a != i {
                        assert(after[a] == before[a]);
                    }
                }
                assert forall|a: int, b: int| 0 <= a < b < after.len()
                    implies after[a].0 != after[b].0 by {
                    assert(before[a].0 != before[b].0);
                }
                assert forall|k: Seq<u8>| #[trigger] map_of(after).contains_key(k)
                    <==> map_of(before).insert(key@, entry).contains_key(k) by {
                    if has_key(before, k) {
                        let j = choose|j: int| 0 <= j < before.len() && before[j].0 == k;
                        assert(after[j].0 == k);
                    }
                    if has_key(after, k) {
                        let j = choose|j: int| 0 <= j < after.len() && after[j].0 == k;
                        assert(before[j].0 == k);
                    }
                }
                assert forall|k: Seq<u8>| #[trigger] map_of(after).contains_key(k)
                    implies map_of(after)[k] == map_of(before).insert(key@, entry)[k] by {
                    let j = choose|j: int| 0 <= j < after.len() && after[j].0 == k;
                    lemma_map_of_row(after, j);
                    if j != i {
                        lemma_map_of_row(before, j);
                    }
                }
                assert(map_of(after) =~= map_of(before).insert(key@, entry));
                true
            },
        }
    }

    /// `Remove(key)`: drops the row of `key` and returns its entry; `None`,
    /// changing nothing, where the key has none.
    pub fn remove(&mut self, key: &[u8]) -> (r: Option<IndexEntry>)
        requires
            old(self).wf(),
        ensures
            final(self).wf(),
            r == (if old(self)@.contains_key(key@) { Some(old(self)@[key@]) } else { None::<IndexEntry> }),
            r is None ==> *final(self) == *old(self),
            final(self)@ == old(self)@.remove(key@),
    {
        match self.position(key) {
            None => {
                assert(self@ =~= self@.remove(key@));
                None
            },
            Some(i) => {
                proof { lemma_map_of_row(self.rows(), i as int); }
                let ghost before = self.rows();
                let row = self.rows.remove(i);
                let ghost after = self.rows();
                assert(after =~= before.remove(i as int));
                assert forall|a: int| 0 <= a < after.len() implies (#[trigger] after[a]).0.len() <= u64::MAX by {
                    let a2 = if a < i { a } else { a + 1 };
                    assert(after[a] == before[a2]);
                }
                assert forall|a: int, b: int| 0 <= a < b < after.len()
                    implies after[a].0 != after[b].0 by {
                    let a2 = if a < i { a } else { a + 1 };
                    let b2 = if b < i { b } else { b + 1 };
                    assert(before[a2].0 != before[b2].0);
                }
                assert forall|k: Seq<u8>| #[trigger] map_of(after).contains_key(k)
                    <==> map_of(before).remove(key@).contains_key(k) by {
                    if has_key(before, k) && k != key@ {
                        let j = choose|j: int| 0 <= j < before.len() && before[j].0 == k;
                        assert(j != i);
                        let j2 = if j < i { j } else { j - 1 };
                        assert(after[j2].0 == k);
                    }
                    if has_key(after, k) {
                        let j = choose|j: int| 0 <= j < after.len() && after[j].0 == k;
                        let j2 = if j < i { j } else { j + 1 };
                        assert(before[j2].0 == k);
                        assert(j2 != i);
                        assert(before[i as int].0 != before[j2].0);
                    }
                }
                assert forall|k: Seq<u8>| #[trigger] map_of(after).contains_key(k)
                    implies map_of(after)[k] == map_of(before).remove(key@)[k] by {
                    let j = choose|j: int| 0 <= j < after.len() && after[j].0 == k;
                    let j2 = if j < i { j } else { j + 1 };
                    lemma_map_of_row(after, j);
                    lemma_map_of_row(before, j2);
                }
                assert(map_of(after) =~= map_of(before).remove(key@));
                Some(row.1)
            },
        }
    }
}

} // verus!
