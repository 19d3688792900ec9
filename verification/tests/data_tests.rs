use std::sync::Arc;

use rav::data::{IoBuf, IoRef, Packet, Packet2};

#[test]
fn iobuf_from_vec_keeps_content() {
    let buf = IoBuf::from_vec(vec![1u8, 2, 3]);
    assert_eq!(buf.len, 3);
    assert_eq!(&buf.buf[..], &[1u8, 2, 3]);
}

#[test]
fn iobuf_default_is_empty_sentinel() {
    let buf = IoBuf::default();
    assert_eq!(buf.len, 0);
    assert!(buf.buf.is_empty());
}

#[test]
fn ioref_default_is_unpopulated() {
    let ioref = IoRef::default();
    assert!(ioref.shared_buf.is_none());
    assert!(ioref.buf.is_none());
    assert_eq!(ioref.offset, 0);
    assert_eq!(ioref.len, 0);
}

#[test]
fn packet_push_and_clear() {
    let first = [1u8, 2, 3];
    let second = [4u8, 5];
    let mut packet = Packet::default();
    assert_eq!(packet.data(), &[] as &[u8]);

    packet.push(&first);
    packet.push(&second);
    assert_eq!(packet.data(), &[1u8, 2, 3]);

    packet.clear();
    assert_eq!(packet.data(), &[] as &[u8]);
}

#[test]
fn packet2_len_and_bufs_len() {
    let mut packet = Packet2::default();
    assert_eq!(packet.len(), 0);
    assert_eq!(packet.bufs_len(), 0);

    packet.bufs[0] = IoRef {
        shared_buf: Some(Arc::new(vec![1u8, 2, 3])),
        buf: None,
        offset: 0,
        len: 3,
    };
    packet.bufs[2] = IoRef {
        shared_buf: None,
        buf: Some(vec![9u8, 9]),
        offset: 0,
        len: 2,
    };
    assert_eq!(packet.len(), 5);
    assert_eq!(packet.bufs_len(), 2);

    packet.clear();
    assert_eq!(packet.len(), 0);
    assert_eq!(packet.bufs_len(), 0);
}
