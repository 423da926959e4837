//! The durable form of the index: each row as the key's length (eight
//! bytes, little-endian), the key's bytes, then the entry's offset and
//! length (eight bytes each, little-endian), rows one after another.

use vstd::prelude::*;
use vstd::bytes::{
    lemma_auto_spec_u64_to_from_le_bytes, spec_u64_from_le_bytes, spec_u64_to_le_bytes,
    u64_from_le_bytes, u64_to_le_bytes,
};
use vstd::slice::slice_subrange;
use crate::bytes::push_bytes;
use crate::engine::StoreError;
use crate::index::{keys_encodable, keys_unique, IndexEntry, ObjectIndex, Rows};

verus! {

/// The bytes of one row.
pub open spec fn encode_row(r: (Seq<u8>, IndexEntry)) -> Seq<u8> {
    spec_u64_to_le_bytes(r.0.len() as u64) + r.0 + spec_u64_to_le_bytes(r.1.offset)
        + spec_u64_to_le_bytes(r.1.length)
}

/// The bytes of all rows, in order.
pub open spec fn encode_rows(rows: Rows) -> Seq<u8>
    decreases rows.len(),
{
    if rows.len() == 0 {
        Seq::empty()
    } else {
        encode_row(rows[0]) + encode_rows(rows.drop_first())
    }
}

/// The rows that `b` holds, if it is a well-formed snapshot.
pub open spec fn parse_rows(b: Seq<u8>) -> Option<Rows>
    decreases b.len(),
{
    if b.len() == 0 {
        Some(Seq::empty())
    } else if b.len() < 24 {
        None
    } else {
        let kl = spec_u64_from_le_bytes(b.subrange(0, 8)) as int;
        if b.len() < 24 + kl {
            None
        } else {
            let row = (
                b.subrange(8, 8 + kl),
                IndexEntry {
                    offset: spec_u64_from_le_bytes(b.subrange(8 + kl, 16 + kl)),
                    length: spec_u64_from_le_bytes(b.subrange(16 + kl, 24 + kl)),
                },
            );
            match parse_rows(b.subrange(24 + kl, b.len() as int)) {
                Some(rest) => Some(seq![row] + rest),
                None => None,
            }
        }
    }
}

proof fn lemma_encode_push(rows: Rows, r: (Seq<u8>, IndexEntry))
    ensures
        encode_rows(rows.push(r)) == encode_rows(rows) + encode_row(r),
    decreases rows.len(),
{
    if rows.len() == 0 {
        let e = Seq::<(Seq<u8>, IndexEntry)>::empty();
        assert(rows.push(r).drop_first() =~= e);
        assert(encode_rows(e) == Seq::<u8>::empty());
        assert(encode_rows(rows.push(r)) == encode_row(r) + Seq::<u8>::empty());
        assert(encode_rows(rows.push(r)) =~= encode_row(r));
        assert(encode_rows(rows) == Seq::<u8>::empty());
    } else {
        assert(rows.push(r).drop_first() =~= rows.drop_first().push(r));
        lemma_encode_push(rows.drop_first(), r);
        assert(encode_rows(rows.push(r)) =~= encode_rows(rows) + encode_row(r));
    }
}

/// Reading back a snapshot gives exactly the rows that were written.
pub proof fn lemma_snapshot_round_trip(rows: Rows)
    requires
        keys_encodable(rows),
    ensures
        parse_rows(encode_rows(rows)) == Some(rows),
    decreases rows.len(),
{
    lemma_auto_spec_u64_to_from_le_bytes();
    if rows.len() == 0 {
        assert(encode_rows(rows) =~= Seq::<u8>::empty());
        assert(rows =~= Seq::<(Seq<u8>, IndexEntry)>::empty());
    } else {
        let r = rows[0];
        let tail = rows.drop_first();
        assert forall|i: int| 0 <= i < tail.len() implies (#[trigger] tail[i]).0.len() <= u64::MAX by {
            assert(tail[i] == rows[i + 1]);
        }
        lemma_snapshot_round_trip(tail);
        let b = encode_rows(rows);
        let kl = r.0.len() as int;
        assert(r.0.len() <= u64::MAX);
        assert(b.subrange(0, 8) =~= spec_u64_to_le_bytes(kl as u64));
        assert(b.subrange(8, 8 + kl) =~= r.0);
        assert(b.subrange(8 + kl, 16 + kl) =~= spec_u64_to_le_bytes(r.1.offset));
        assert(b.subrange(16 + kl, 24 + kl) =~= spec_u64_to_le_bytes(r.1.length));
        assert(b.subrange(24 + kl, b.len() as int) =~= encode_rows(tail));
        assert(seq![r] + tail =~= rows);
    }
}

/// Appends the little-endian bytes of `x` to `out`.
fn push_u64(out: &mut Vec<u8>, x: u64)
    ensures
        final(out)@ == old(out)@ + spec_u64_to_le_bytes(x),
{
    let b = u64_to_le_bytes(x);
    push_bytes(out, b.as_slice());
}

impl ObjectIndex {
    /// The snapshot bytes of the index.
    pub fn to_snapshot(&self) -> (r: Vec<u8>)
        ensures
            r@ == encode_rows(self.rows()),
    {
        let mut out: Vec<u8> = Vec::new();
        let n = self.len();
        let mut i: usize = 0;
        while i < n
            invariant
                n == self.rows().len(),
                0 <= i <= n,
                out@ == encode_rows(self.rows().subrange(0, i as int)),
            decreases n - i,
        {
            let key = self.key_at(i);
            let e = self.entry_at(i);
            push_u64(&mut out, key.len() as u64);
            push_bytes(&mut out, key);
            push_u64(&mut out, e.offset);
            push_u64(&mut out, e.length);
            proof {
                let rows = self.rows();
                lemma_encode_push(rows.subrange(0, i as int), rows[i as int]);
                assert(rows.subrange(0, i + 1) =~= rows.subrange(0, i as int).push(rows[i as int]));
            }
            i = i + 1;
        }
        assert(self.rows().subrange(0, n as int) =~= self.rows());
        out
    }

    /// The index that the snapshot `b` holds. Fails with
    /// `SerializationFailure` exactly where `b` is not a well-formed
    /// snapshot or names a key twice.
    pub fn from_snapshot(b: &[u8]) -> (r: Result<ObjectIndex, StoreError>)
        ensures
            r is Ok <==> (parse_rows(b@) is Some && keys_unique(parse_rows(b@)->0)
                && keys_encodable(parse_rows(b@)->0)),
            r is Ok ==> r->Ok_0.wf() && Some(r->Ok_0.rows()) == parse_rows(b@),
            r is Err ==> r->Err_0 == StoreError::SerializationFailure,
    {
        let mut idx = ObjectIndex::new();
        let n = b.len();
        let mut pos: usize = 0;
        assert(b@.subrange(0, n as int) =~= b@);
        proof {
            if let Some(all) = parse_rows(b@) {
                assert(idx.rows() + all =~= all);
            }
        }
        while pos < n
            invariant
                n == b@.len(),
                0 <= pos <= n,
                idx.wf(),
                parse_rows(b@) == (match parse_rows(b@.subrange(pos as int, n as int)) {
                    Some(rest) => Some(idx.rows() + rest),
                    None => None::<Rows>,
                }),
            decreases n - pos,
        {
            let ghost sub = b@.subrange(pos as int, n as int);
            let rem = n - pos;
            if rem < 24 {
                assert(parse_rows(sub) is None);
                return Err(StoreError::SerializationFailure);
            }
            let kl = u64_from_le_bytes(slice_subrange(b, pos, pos + 8));
            assert(sub.subrange(0, 8) =~= b@.subrange(pos as int, pos + 8));
            if kl > (rem - 24) as u64 {
                assert(parse_rows(sub) is None);
                return Err(StoreError::SerializationFailure);
            }
            let k = kl as usize;
            let key = slice_subrange(b, pos + 8, pos + 8 + k);
            let offset = u64_from_le_bytes(slice_subrange(b, pos + 8 + k, pos + 16 + k));
            let length = u64_from_le_bytes(slice_subrange(b, pos + 16 + k, pos + 24 + k));
            let e = IndexEntry { offset, length };
            let ghost row = (key@, e);
            let ghost next = b@.subrange((pos + 24 + k) as int, n as int);
            assert(sub.subrange(8, 8 + k) =~= key@);
            assert(sub.subrange(8 + k, 16 + k) =~= b@.subrange(pos + 8 + k, pos + 16 + k));
            assert(sub.subrange(16 + k, 24 + k) =~= b@.subrange(pos + 16 + k, pos + 24 + k));
            assert(sub.subrange(24 + k, sub.len() as int) =~= next);
            let ghost before = idx.rows();
            if !idx.insert(key, e) {
                proof {
                    if let Some(all) = parse_rows(b@) {
                        let rest = parse_rows(next)->0;
                        assert(all == before + (seq![row] + rest));
                        let j = choose|j: int| 0 <= j < before.len() && before[j].0 == key@;
                        assert(all[j].0 == all[before.len() as int].0);
                    }
                }
                return Err(StoreError::SerializationFailure);
            }
            proof {
                match parse_rows(next) {
                    Some(rest) => {
                        assert(before + (seq![row] + rest) =~= before.push(row) + rest);
                    },
                    None => {},
                }
            }
            pos = pos + 24 + k;
        }
        assert(b@.subrange(n as int, n as int) =~= Seq::<u8>::empty());
        assert(idx.rows() + Seq::<(Seq<u8>, IndexEntry)>::empty() =~= idx.rows());
        Ok(idx)
    }
}

} // verus!
