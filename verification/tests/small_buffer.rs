use ockam_multiaddr::small::{split_off as split_off_inline, SmallBuf, INLINE_CAPACITY};

#[test]
fn split_off() {
    let hello = [b'h'; INLINE_CAPACITY];
    let world = [b'w'; INLINE_CAPACITY];
    let mut t = SmallBuf::new();
    t.extend_from_slice(&hello);
    assert!(t.is_inline());
    t.extend_from_slice(&world);
    assert!(t.is_heap());
    let mut v = t.duplicate();
    let a = v.split_off(INLINE_CAPACITY);
    assert!(a.is_heap());
    let b = split_off_inline(&mut t, INLINE_CAPACITY);
    assert!(b.is_inline());
    assert!(a.same_bytes(&b));
    assert!(v.same_bytes(&t));
    assert_eq!(b.as_slice(), &world[..]);
    assert_eq!(t.as_slice(), &hello[..]);
}

#[test]
fn split_off_short_words() {
    let mut t = SmallBuf::new();
    t.extend_from_slice(b"hello");
    assert!(t.is_inline());
    t.extend_from_slice(b"world");
    assert!(t.is_inline());
    let b = split_off_inline(&mut t, 5);
    assert!(b.is_inline());
    assert_eq!(t.as_slice(), b"hello");
    assert_eq!(b.as_slice(), b"world");
}

#[test]
fn split_off_long_tail_stays_on_heap() {
    let bytes: Vec<u8> = (0..100u8).collect();
    let mut t = SmallBuf::from_slice(&bytes);
    assert!(t.is_heap());
    let tail = split_off_inline(&mut t, 10);
    assert!(tail.is_heap());
    assert_eq!(tail.len(), 90);
    assert_eq!(tail.as_slice(), &bytes[10..]);
    assert_eq!(t.as_slice(), &bytes[..10]);
    assert!(t.is_heap());
}

#[test]
fn from_slice_picks_storage_by_length() {
    let short = SmallBuf::from_slice(&[7u8; 28]);
    assert!(short.is_inline());
    assert_eq!(short.len(), 28);
    let long = SmallBuf::from_slice(&[7u8; 29]);
    assert!(long.is_heap());
    let forced = SmallBuf::heap_from_slice(&[1, 2, 3]);
    assert!(forced.is_heap());
    assert_eq!(forced.as_slice(), &[1, 2, 3]);
}

#[test]
fn truncate_and_shrink() {
    let mut t = SmallBuf::from_slice(&[9u8; 40]);
    t.truncate(50);
    assert_eq!(t.len(), 40);
    t.truncate(4);
    assert_eq!(t.as_slice(), &[9, 9, 9, 9]);
    assert!(t.is_heap());
    t.shrink_to_fit();
    assert!(t.is_inline());
    assert_eq!(t.as_slice(), &[9, 9, 9, 9]);
    let copy = t.duplicate();
    assert!(copy.is_inline());
    assert!(copy.same_bytes(&t));
    assert!(!copy.same_bytes(&SmallBuf::new()));
}
