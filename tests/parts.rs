use haystack::bytes::{bytes_equal, copy_bytes, push_bytes};
use haystack::index::{IndexEntry, ObjectIndex};
use haystack::volume::Volume;

#[test]
fn index_insert_replace_remove() {
    let mut idx = ObjectIndex::new();
    let a = IndexEntry { offset: 0, length: 4 };
    let b = IndexEntry { offset: 4, length: 2 };
    assert!(idx.insert(b"k", a));
    assert!(!idx.insert(b"k", b));
    assert_eq!(idx.lookup(b"k"), Some(a));
    assert!(idx.replace(b"k", b));
    assert_eq!(idx.lookup(b"k"), Some(b));
    assert!(!idx.replace(b"other", a));
    assert_eq!(idx.remove(b"k"), Some(b));
    assert_eq!(idx.remove(b"k"), None);
    assert_eq!(idx.lookup(b"k"), None);
    assert_eq!(idx.len(), 0);
}

#[test]
fn index_snapshot_round_trip() {
    let mut idx = ObjectIndex::new();
    assert!(idx.insert(b"one", IndexEntry { offset: 0, length: 1 }));
    assert!(idx.insert(b"", IndexEntry { offset: u64::MAX, length: 7 }));
    let snap = idx.to_snapshot();
    let back = ObjectIndex::from_snapshot(&snap).unwrap();
    assert_eq!(back.len(), 2);
    assert_eq!(back.key_at(0), b"one");
    assert_eq!(back.entry_at(1), IndexEntry { offset: u64::MAX, length: 7 });
    assert_eq!(back.to_snapshot(), snap);
}

#[test]
fn volume_append_and_read() {
    let mut v = Volume::new();
    assert_eq!(v.append(b"abc"), IndexEntry { offset: 0, length: 3 });
    assert_eq!(v.append(b"de"), IndexEntry { offset: 3, length: 2 });
    assert_eq!(v.size(), 5);
    assert_eq!(v.read(IndexEntry { offset: 2, length: 3 }), Some(b"cde".to_vec()));
    assert_eq!(v.read(IndexEntry { offset: 5, length: 0 }), Some(Vec::new()));
    assert_eq!(v.read(IndexEntry { offset: 3, length: 3 }), None);
    assert_eq!(v.read(IndexEntry { offset: u64::MAX, length: 2 }), None);
    let w = Volume::from_bytes(b"xyz".to_vec());
    assert_eq!(w.as_bytes(), b"xyz");
}

#[test]
fn byte_helpers() {
    assert!(bytes_equal(b"ab", b"ab"));
    assert!(!bytes_equal(b"ab", b"ac"));
    assert!(!bytes_equal(b"ab", b"abc"));
    assert_eq!(copy_bytes(b"q"), b"q".to_vec());
    let mut v = b"12".to_vec();
    push_bytes(&mut v, b"34");
    assert_eq!(v, b"1234".to_vec());
}
