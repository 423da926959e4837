use haystack::engine::{Engine, StoreError};
use haystack::index::IndexEntry;

fn entry(offset: u64, length: u64) -> IndexEntry {
    IndexEntry { offset, length }
}

#[test]
fn scenario_two_files_delete_and_recreate() {
    let mut e = Engine::new();
    assert_eq!(e.create("a.txt", b"hello"), Ok(entry(0, 5)));
    assert_eq!(e.create("b.txt", b"world!"), Ok(entry(5, 6)));
    assert_eq!(e.get("a.txt"), Ok(b"hello".to_vec()));
    let rec = e.delete("a.txt", 1700000000).unwrap();
    assert_eq!(rec.key, b"a.txt".to_vec());
    assert_eq!((rec.offset, rec.length, rec.timestamp), (0, 5, 1700000000));
    assert_eq!(e.get("a.txt"), Err(StoreError::NotFound));
    let log = e.delete_log();
    assert_eq!(log.len(), 1);
    let logged = log.get(0);
    assert_eq!(logged.key, b"a.txt".to_vec());
    assert_eq!((logged.offset, logged.length), (0, 5));
    assert_eq!(logged.freed(), entry(0, 5));
    assert_eq!(e.create("a.txt", b"bye"), Ok(entry(11, 3)));
    assert_eq!(e.get("a.txt"), Ok(b"bye".to_vec()));
    assert_eq!(e.get("b.txt"), Ok(b"world!".to_vec()));
    assert_eq!(e.volume().as_bytes(), b"helloworld!bye");
}

#[test]
fn create_then_get_returns_payload() {
    let mut e = Engine::new();
    let payload: Vec<u8> = (0..=255u8).collect();
    assert!(e.create("bin", &payload).is_ok());
    assert_eq!(e.get("bin"), Ok(payload));
}

#[test]
fn create_existing_key_fails_and_keeps_first() {
    let mut e = Engine::new();
    assert!(e.create("k", b"first").is_ok());
    assert_eq!(e.create("k", b"second"), Err(StoreError::KeyExists));
    assert_eq!(e.create("k", b"first"), Err(StoreError::KeyExists));
    assert_eq!(e.get("k"), Ok(b"first".to_vec()));
    assert_eq!(e.volume().size(), 5);
}

#[test]
fn update_replaces_payload() {
    let mut e = Engine::new();
    assert_eq!(e.create("k", b"old"), Ok(entry(0, 3)));
    assert_eq!(e.update("k", b"newer"), Ok(entry(3, 5)));
    assert_eq!(e.get("k"), Ok(b"newer".to_vec()));
    assert_eq!(e.lookup("k"), Some(entry(3, 5)));
    // the old range stays in the volume, orphaned
    assert_eq!(e.volume().as_bytes(), b"oldnewer");
}

#[test]
fn update_missing_key_is_not_found() {
    let mut e = Engine::new();
    assert_eq!(e.update("nope", b"x"), Err(StoreError::NotFound));
    assert_eq!(e.volume().size(), 0);
}

#[test]
fn empty_payload_is_malformed() {
    let mut e = Engine::new();
    assert_eq!(e.create("k", b""), Err(StoreError::MalformedInput));
    assert_eq!(e.lookup("k"), None);
    assert!(e.create("k", b"v").is_ok());
    assert_eq!(e.update("k", b""), Err(StoreError::MalformedInput));
    assert_eq!(e.get("k"), Ok(b"v".to_vec()));
}

#[test]
fn delete_twice_is_not_found() {
    let mut e = Engine::new();
    assert!(e.create("k", b"v").is_ok());
    assert!(e.delete("k", 1).is_ok());
    assert_eq!(e.get("k"), Err(StoreError::NotFound));
    assert!(matches!(e.delete("k", 2), Err(StoreError::NotFound)));
    assert_eq!(e.delete_log().len(), 1);
    assert_eq!(e.volume().size(), 1);
}

#[test]
fn get_missing_key_is_not_found() {
    let e = Engine::new();
    assert_eq!(e.get(""), Err(StoreError::NotFound));
    assert_eq!(e.lookup("x"), None);
}

#[test]
fn repeated_creates_of_one_key_succeed_once() {
    let mut e = Engine::new();
    let mut ok = 0;
    let mut exists = 0;
    for i in 0..8u8 {
        match e.create("same", &[i + 1]) {
            Ok(_) => ok += 1,
            Err(StoreError::KeyExists) => exists += 1,
            Err(other) => panic!("unexpected {:?}", other),
        }
    }
    assert_eq!((ok, exists), (1, 7));
    assert_eq!(e.get("same"), Ok(vec![1]));
}

#[test]
fn snapshot_restore_reads_same() {
    let mut e = Engine::new();
    assert!(e.create("a", b"alpha").is_ok());
    assert!(e.create("b", b"beta").is_ok());
    assert!(e.create("c", b"gamma").is_ok());
    assert!(e.update("b", b"BETA!").is_ok());
    assert!(e.delete("c", 9).is_ok());
    let snap = e.snapshot();
    let vol = e.volume().as_bytes().to_vec();
    let r = Engine::restore(&snap, vol).unwrap();
    assert_eq!(r.get("a"), Ok(b"alpha".to_vec()));
    assert_eq!(r.get("b"), Ok(b"BETA!".to_vec()));
    assert_eq!(r.get("c"), Err(StoreError::NotFound));
    assert_eq!(r.delete_log().len(), 0);
    assert_eq!(r.snapshot(), snap);
}

#[test]
fn snapshot_bytes_are_exact() {
    let mut e = Engine::new();
    assert!(e.create("ab", b"xyz").is_ok());
    let mut want = vec![2, 0, 0, 0, 0, 0, 0, 0, b'a', b'b'];
    want.extend_from_slice(&[0, 0, 0, 0, 0, 0, 0, 0]);
    want.extend_from_slice(&[3, 0, 0, 0, 0, 0, 0, 0]);
    assert_eq!(e.snapshot(), want);
    assert_eq!(Engine::new().snapshot(), Vec::<u8>::new());
}

#[test]
fn crash_before_index_persist_loses_only_new_key() {
    let mut e = Engine::new();
    assert!(e.create("kept", b"safe").is_ok());
    let persisted = e.snapshot();
    assert!(e.create("lost", b"unpersisted").is_ok());
    let vol = e.volume().as_bytes().to_vec();
    let r = Engine::restore(&persisted, vol).unwrap();
    assert_eq!(r.get("lost"), Err(StoreError::NotFound));
    assert_eq!(r.get("kept"), Ok(b"safe".to_vec()));
    assert_eq!(r.volume().size(), 15);
}

#[test]
fn restore_rejects_malformed_snapshot() {
    assert!(matches!(Engine::restore(&[1, 2, 3], Vec::new()), Err(StoreError::SerializationFailure)));
    let mut e = Engine::new();
    assert!(e.create("k", b"v").is_ok());
    let mut snap = e.snapshot();
    snap.pop();
    assert!(matches!(Engine::restore(&snap, Vec::new()), Err(StoreError::SerializationFailure)));
}

#[test]
fn restore_rejects_duplicate_keys() {
    let mut e = Engine::new();
    assert!(e.create("k", b"v").is_ok());
    let mut snap = e.snapshot();
    let copy = snap.clone();
    snap.extend_from_slice(&copy);
    assert!(matches!(Engine::restore(&snap, b"v".to_vec()), Err(StoreError::SerializationFailure)));
}

#[test]
fn index_past_volume_end_is_corrupt_read() {
    let mut e = Engine::new();
    assert!(e.create("k", b"payload").is_ok());
    let snap = e.snapshot();
    let r = Engine::restore(&snap, b"pay".to_vec()).unwrap();
    assert_eq!(r.get("k"), Err(StoreError::CorruptRead));
    assert_eq!(r.lookup("k"), Some(entry(0, 7)));
}

#[test]
fn entries_list_live_rows_in_order() {
    let mut e = Engine::new();
    assert!(e.create("x", b"1").is_ok());
    assert!(e.create("y", b"22").is_ok());
    assert!(e.create("z", b"333").is_ok());
    assert!(e.delete("y", 0).is_ok());
    let rows = e.entries();
    assert_eq!(rows, vec![(b"x".to_vec(), entry(0, 1)), (b"z".to_vec(), entry(3, 3))]);
    assert_eq!(e.index().len(), 2);
}

#[test]
fn keys_are_byte_exact() {
    let mut e = Engine::new();
    assert!(e.create("Key", b"upper").is_ok());
    assert!(e.create("key", b"lower").is_ok());
    assert!(e.create("ké", b"accent").is_ok());
    assert_eq!(e.get("Key"), Ok(b"upper".to_vec()));
    assert_eq!(e.get("key"), Ok(b"lower".to_vec()));
    assert_eq!(e.get("ké"), Ok(b"accent".to_vec()));
    assert_eq!(e.get("ke"), Err(StoreError::NotFound));
}
