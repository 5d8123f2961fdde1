use teleterm::buffer::Buffer;

#[test]
fn append_within_capacity_keeps_everything() {
    let mut b = Buffer::new(8);
    assert_eq!(b.append(b"abc"), 0);
    assert_eq!(b.append(b"de"), 0);
    assert_eq!(b.contents(), b"abcde");
    assert_eq!(b.len(), 5);
}

#[test]
fn oversize_truncation_keeps_newest_bytes() {
    let mut b = Buffer::new(8);
    assert_eq!(b.append(b"12345678"), 0);
    assert_eq!(b.append(b"9A"), 2);
    assert_eq!(b.contents(), b"3456789A");
}

#[test]
fn chunk_larger_than_capacity_keeps_its_tail() {
    let mut b = Buffer::new(4);
    assert_eq!(b.append(b"xy"), 0);
    assert_eq!(b.append(b"abcdefg"), 5);
    assert_eq!(b.contents(), b"defg");
}

#[test]
fn total_dropped_is_excess_over_capacity() {
    let mut b = Buffer::new(5);
    let chunks: [&[u8]; 4] = [b"ab", b"cde", b"fghi", b"j"];
    let mut dropped = 0;
    let mut all = Vec::new();
    for c in chunks.iter() {
        dropped += b.append(c);
        all.extend_from_slice(c);
    }
    assert_eq!(dropped, all.len() - 5);
    assert_eq!(b.contents(), &all[all.len() - 5..]);
}

#[test]
fn zero_capacity_keeps_nothing() {
    let mut b = Buffer::new(0);
    assert_eq!(b.append(b"abc"), 3);
    assert!(b.is_empty());
}
