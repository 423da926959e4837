use vstd::prelude::*;
use crate::engine::{
    after_create, after_delete, after_update, create_result, delete_result, fits, get_result,
    update_result, StoreError, StoreState,
};
use crate::delete_log::Tombstone;
use crate::index::{keys_encodable, keys_unique, map_of, IndexEntry, Rows};
use crate::snapshot::{encode_rows, lemma_snapshot_round_trip, parse_rows};
use crate::volume::{range_of, range_within};

verus! {

/// Every live entry names a range that the volume holds.
pub open spec fn entries_within(s: StoreState) -> bool {
    forall|k: Seq<u8>| #[trigger] s.index.contains_key(k) ==> range_within(s.index[k], s.volume.len() as int)
}

/// The state after `Create(k, b)` for each `b` of `bs` in turn.
pub open spec fn creates_state(s: StoreState, k: Seq<u8>, bs: Seq<Seq<u8>>) -> StoreState
    decreases bs.len(),
{
    if bs.len() == 0 {
        s
    } else {
        after_create(creates_state(s, k, bs.drop_last()), k, bs.last())
    }
}

/// What each `Create(k, b)` returns, for each `b` of `bs` in turn.
pub open spec fn creates_results(s: StoreState, k: Seq<u8>, bs: Seq<Seq<u8>>) -> Seq<Result<IndexEntry, StoreError>>
    decreases bs.len(),
{
    if bs.len() == 0 {
        Seq::empty()
    } else {
        creates_results(s, k, bs.drop_last()).push(
            create_result(creates_state(s, k, bs.drop_last()), k, bs.last()),
        )
    }
}

/// Create, Update and Delete keep every live entry inside the volume.
pub proof fn lemma_mutations_keep_entries_within(s: StoreState, k: Seq<u8>, b: Seq<u8>, t: u64)
    requires
        entries_within(s),
    ensures
        entries_within(after_create(s, k, b)),
        entries_within(after_update(s, k, b)),
        entries_within(after_delete(s, k, t)),
{
}

/// A successful `Create(k, b)` is followed by a `Get(k)` that returns
/// exactly `b`.
pub proof fn lemma_create_then_get(s: StoreState, k: Seq<u8>, b: Seq<u8>)
    requires
        create_result(s, k, b) is Ok,
    ensures
        get_result(after_create(s, k, b), k) == Ok::<Seq<u8>, StoreError>(b),
{
    let t = after_create(s, k, b);
    assert(range_of(t.volume, t.index[k]) =~= b);
}

/// Creating a key that already exists fails with `KeyExists`, changes
/// nothing, and the first payload is still read back unchanged.
pub proof fn lemma_create_twice(s: StoreState, k: Seq<u8>, b1: Seq<u8>, b2: Seq<u8>)
    requires
        create_result(s, k, b1) is Ok,
    ensures
        create_result(after_create(s, k, b1), k, b2) == Err::<IndexEntry, StoreError>(StoreError::KeyExists),
        after_create(after_create(s, k, b1), k, b2) == after_create(s, k, b1),
        get_result(after_create(after_create(s, k, b1), k, b2), k) == Ok::<Seq<u8>, StoreError>(b1),
{
    lemma_create_then_get(s, k, b1);
}

/// After `Create(k, b1)`, a successful `Update(k, b2)` makes `Get(k)`
/// return exactly `b2`.
pub proof fn lemma_update_then_get(s: StoreState, k: Seq<u8>, b1: Seq<u8>, b2: Seq<u8>)
    requires
        create_result(s, k, b1) is Ok,
        update_result(after_create(s, k, b1), k, b2) is Ok,
    ensures
        get_result(after_update(after_create(s, k, b1), k, b2), k) == Ok::<Seq<u8>, StoreError>(b2),
{
    let m = after_create(s, k, b1);
    let t = after_update(m, k, b2);
    assert(range_of(t.volume, t.index[k]) =~= b2);
}

/// After a `Delete(k)`, `Get(k)` and a second `Delete(k)` both fail with
/// `NotFound`, and the key may be created afresh.
pub proof fn lemma_delete_then_get(s: StoreState, k: Seq<u8>, t1: u64, t2: u64, b: Seq<u8>)
    ensures
        get_result(after_delete(s, k, t1), k) == Err::<Seq<u8>, StoreError>(StoreError::NotFound),
        delete_result(after_delete(s, k, t1), k, t2) == Err::<crate::delete_log::Tombstone, StoreError>(StoreError::NotFound),
        b.len() > 0 && fits(after_delete(s, k, t1), b.len())
            ==> create_result(after_delete(s, k, t1), k, b) is Ok,
{
}

/// Of any number of `Create(k, ..)` calls on a key without a live entry,
/// taken in the order in which they are serialized, exactly one succeeds:
/// the first; every later one fails with `KeyExists`.
pub proof fn lemma_racing_creates(s: StoreState, k: Seq<u8>, bs: Seq<Seq<u8>>)
    requires
        !s.index.contains_key(k),
        bs.len() >= 1,
        forall|i: int| 0 <= i < bs.len() ==> (#[trigger] bs[i]).len() > 0,
        fits(s, bs[0].len()),
    ensures
        creates_results(s, k, bs).len() == bs.len(),
        creates_results(s, k, bs)[0] is Ok,
        forall|i: int| 1 <= i < bs.len()
            ==> #[trigger] creates_results(s, k, bs)[i] == Err::<IndexEntry, StoreError>(StoreError::KeyExists),
        creates_state(s, k, bs).index.contains_key(k),
    decreases bs.len(),
{
    if bs.len() == 1 {
        assert(bs.drop_last() =~= Seq::<Seq<u8>>::empty());
        assert(bs.last() == bs[0]);
    } else {
        let pre = bs.drop_last();
        assert(pre[0] == bs[0]);
        assert forall|i: int| 0 <= i < pre.len() implies (#[trigger] pre[i]).len() > 0 by {
            assert(pre[i] == bs[i]);
        }
        lemma_racing_creates(s, k, pre);
    }
    assert(bs.len() >= 1);
    assert(creates_results(s, k, bs).len() == bs.len());
}

/// Persisting the index and loading it again after a restart gives the
/// same index, so every key reads back exactly as before.
pub proof fn lemma_restart_reads_same(rows: Rows, volume: Seq<u8>, log: Seq<Tombstone>)
    requires
        keys_unique(rows),
        keys_encodable(rows),
    ensures
        parse_rows(encode_rows(rows)) == Some(rows),
        forall|k: Seq<u8>| #[trigger] get_result(
            StoreState { index: map_of(parse_rows(encode_rows(rows))->0), volume, log: Seq::empty() },
            k,
        ) == get_result(StoreState { index: map_of(rows), volume, log }, k),
{
    lemma_snapshot_round_trip(rows);
}

/// A crash after a Create's volume append but before its index was
/// persisted: on restart the index is the one persisted before, the
/// volume holds the extra bytes. The key is not found, and every other
/// key reads exactly as before.
pub proof fn lemma_crash_before_persist(s: StoreState, k: Seq<u8>, b: Seq<u8>)
    requires
        entries_within(s),
        create_result(s, k, b) is Ok,
    ensures
        ({
            let restarted = StoreState { index: s.index, volume: after_create(s, k, b).volume, log: s.log };
            &&& get_result(restarted, k) == Err::<Seq<u8>, StoreError>(StoreError::NotFound)
            &&& forall|j: Seq<u8>| #[trigger] get_result(restarted, j) == get_result(s, j)
        }),
{
    let restarted = StoreState { index: s.index, volume: after_create(s, k, b).volume, log: s.log };
    assert forall|j: Seq<u8>| #[trigger] get_result(restarted, j) == get_result(s, j) by {
        if s.index.contains_key(j) {
            let e = s.index[j];
            assert(range_of(restarted.volume, e) =~= range_of(s.volume, e));
        }
    }
}

} // verus!
