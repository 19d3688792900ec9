use std::sync::Arc;

use rav::data::{IoBuf, IoRef, Packet};
use rav::error::Error;
use rav::format::{FormatContext, IoBufSupplierIoUring, MediaSourceStream, RING_SIZE};

fn new_iobuf(data: &[u8]) -> IoBuf {
    IoBuf::from_vec(data.to_vec())
}

#[test]
fn add_single_buf() {
    let mut stream = MediaSourceStream::new(IoBufSupplierIoUring {});

    let mut err_buf = new_iobuf(b"123");
    err_buf.len = 0;
    assert_eq!(stream.add_iobuf(err_buf), Err(Error::InvalidInput));

    let mut err_buf = new_iobuf(b"123");
    err_buf.len = 4;
    assert_eq!(stream.add_iobuf(err_buf), Err(Error::InvalidInput));

    let mut err_buf = new_iobuf(b"");
    err_buf.len = 1;
    assert_eq!(stream.add_iobuf(err_buf), Err(Error::InvalidInput));

    let buf = new_iobuf(b"hello");
    assert!(stream.add_iobuf(buf).is_ok());
    assert_eq!(stream.ring_add_idx, 1);
    assert_eq!(stream.ring_remove_idx, 0);
    assert_eq!(stream.ring_cur_idx, 0);
    assert_eq!(stream.ring_cur_pos, 0);
}

#[test]
fn add_three_bufs_and_check_full() {
    let mut stream = MediaSourceStream::new(IoBufSupplierIoUring {});
    for i in 0..RING_SIZE - 1 {
        let buf = new_iobuf(&[i as u8]);
        assert!(stream.add_iobuf(buf).is_ok());
    }
    let full_buf = new_iobuf(b"full");
    assert_eq!(stream.add_iobuf(full_buf), Err(Error::RetryLater));
}

#[test]
fn cannot_remove_referenced_buf() {
    let mut stream = MediaSourceStream::new(IoBufSupplierIoUring {});
    stream.add_iobuf(new_iobuf(b"a")).unwrap();

    {
        let mut ioref = IoRef::default();
        let ioref = stream.get_ioref(&mut ioref, 1);
        assert!(ioref.is_ok());
        let result = stream.remove_iobuf();
        assert!(result.is_err());
        assert_eq!(result.err().unwrap(), Error::RetryLater);
    }
    assert!(stream.remove_iobuf().is_ok());
}

#[test]
fn remove_one_and_add_one() {
    let mut stream = MediaSourceStream::new(IoBufSupplierIoUring {});
    // Add max possible bufs to leave one slot empty
    for i in 0..RING_SIZE - 1 {
        let buf = new_iobuf(&[i as u8]);
        assert!(stream.add_iobuf(buf).is_ok());
    }
    // Read 2 bytes to "remove" 2 bufs logically
    for _ in 0..2 {
        assert!(stream.get_u8().is_ok());
    }

    assert_eq!(stream.ring_cur_idx, 2);
    assert!(stream.remove_iobuf().is_ok());

    // Add a new buf, should succeed
    let new_buf = new_iobuf(b"test");
    assert!(stream.add_iobuf(new_buf).is_ok());
    // Add index should have wrapped around to 0
    assert_eq!(stream.ring_add_idx, 0);
}

// --- read_ioref tests ---
#[test]
fn no_data() {
    let mut stream = MediaSourceStream::new(IoBufSupplierIoUring {});
    let mut ioref = IoRef::default();

    // Requesting 0 bytes, but no data is available
    assert_eq!(stream.get_ioref(&mut ioref, 0), Err(Error::InvalidInput));

    // Requesting 1 bytes, but no data is available
    assert_eq!(stream.get_ioref(&mut ioref, 1), Err(Error::RetryLater));
}

#[test]
fn not_enough_data_in_current_buf() {
    let mut stream = MediaSourceStream::new(IoBufSupplierIoUring {});
    stream.add_iobuf(new_iobuf(b"a")).unwrap();
    let mut ioref = IoRef::default();
    // Requesting 2 bytes, but only 1 are available
    assert_eq!(stream.get_ioref(&mut ioref, 2), Err(Error::RetryLater));
}

#[test]
fn not_enough_data_in_all_bufs() {
    let mut stream = MediaSourceStream::new(IoBufSupplierIoUring {});
    stream.add_iobuf(new_iobuf(b"a")).unwrap();
    stream.add_iobuf(new_iobuf(b"b")).unwrap();
    let mut ioref = IoRef::default();
    // Requesting 3 bytes, but only 2 are available
    assert_eq!(stream.get_ioref(&mut ioref, 3), Err(Error::RetryLater));
}

#[test]
fn data_found_in_single_buf_more_data_remain() {
    let mut stream = MediaSourceStream::new(IoBufSupplierIoUring {});
    stream.add_iobuf(new_iobuf(b"abcdef")).unwrap();
    let mut ioref = IoRef::default();
    // Read 3 bytes
    assert!(stream.get_ioref(&mut ioref, 3).is_ok());
    assert_eq!(ioref.len, 3);
    assert_eq!(ioref.offset, 0);
    // The shared buf should be the same
    assert!(ioref.shared_buf.is_some());
    assert_eq!(stream.ring_cur_idx, 0);
    assert_eq!(stream.ring_cur_pos, 3);
}

#[test]
fn data_found_in_single_buf_no_more_data_remain() {
    let mut stream = MediaSourceStream::new(IoBufSupplierIoUring {});
    stream.add_iobuf(new_iobuf(b"abcd")).unwrap();
    let mut ioref = IoRef::default();
    // Read all 4 bytes
    assert!(stream.get_ioref(&mut ioref, 4).is_ok());
    assert_eq!(ioref.len, 4);
    assert!(ioref.shared_buf.is_some());
    // The stream should advance to the next buffer
    assert_eq!(stream.ring_cur_idx, 1);
    assert_eq!(stream.ring_cur_pos, 0);
}

#[test]
fn data_found_in_two_bufs_more_data_remain() {
    let mut stream = MediaSourceStream::new(IoBufSupplierIoUring {});
    stream.add_iobuf(new_iobuf(b"abc")).unwrap();
    stream.add_iobuf(new_iobuf(b"def")).unwrap();
    let mut ioref = IoRef::default();
    // Read 5 bytes, spanning two bufs
    assert!(stream.get_ioref(&mut ioref, 5).is_ok());
    assert_eq!(ioref.len, 5);
    // This read should result in a copy
    assert!(ioref.buf.is_some());
    assert!(ioref.shared_buf.is_none());
    assert_eq!(&ioref.buf.unwrap()[..], b"abcde");
    // Stream state should be updated correctly
    assert_eq!(stream.ring_cur_idx, 1);
    assert_eq!(stream.ring_cur_pos, 2);
}

#[test]
fn data_found_in_two_bufs_no_more_data_remain() {
    let mut stream = MediaSourceStream::new(IoBufSupplierIoUring {});
    stream.add_iobuf(new_iobuf(b"abc")).unwrap();
    stream.add_iobuf(new_iobuf(b"de")).unwrap();
    let mut ioref = IoRef::default();
    // Read all 5 bytes
    assert!(stream.get_ioref(&mut ioref, 5).is_ok());
    assert_eq!(ioref.len, 5);
    assert!(ioref.buf.is_some());
    assert_eq!(&ioref.buf.unwrap()[..], b"abcde");
    // Stream should be at the add index, indicating no more data
    assert_eq!(stream.ring_cur_idx, 2);
    assert_eq!(stream.ring_cur_pos, 0);
}

#[test]
fn data_found_in_three_bufs_no_more_data_remain() {
    let mut stream = MediaSourceStream::new(IoBufSupplierIoUring {});
    stream.add_iobuf(new_iobuf(b"a")).unwrap();
    stream.add_iobuf(new_iobuf(b"b")).unwrap();
    stream.add_iobuf(new_iobuf(b"c")).unwrap();
    let mut ioref = IoRef::default();
    // Read all 3 bytes, spanning all three bufs
    assert!(stream.get_ioref(&mut ioref, 3).is_ok());
    assert_eq!(ioref.len, 3);
    assert!(ioref.buf.is_some());
    assert_eq!(&ioref.buf.unwrap()[..], b"abc");
    // Stream should be at the add index, which has wrapped around
    assert_eq!(stream.ring_cur_idx, 3);
    assert_eq!(stream.ring_cur_pos, 0);
}

#[test]
fn read_past_current_and_wrap_around() {
    let mut stream = MediaSourceStream::new(IoBufSupplierIoUring {});
    // Add max possible bufs to leave one slot empty
    for i in 0..RING_SIZE - 1 {
        let buf = new_iobuf(&[i as u8]);
        assert!(stream.add_iobuf(buf).is_ok());
    }

    // Read first 2 bufs to advance to the next buf
    let mut ioref_initial = IoRef::default();
    assert!(stream.get_ioref(&mut ioref_initial, 2).is_ok());
    assert_eq!(stream.ring_cur_idx, 2);
    assert_eq!(stream.ring_cur_pos, 0);

    // removing two bufs
    assert!(stream.remove_iobuf().is_ok());
    assert!(stream.remove_iobuf().is_ok());

    // add other 2 bufs
    stream.add_iobuf(new_iobuf(b"a")).unwrap();
    stream.add_iobuf(new_iobuf(b"b")).unwrap();

    // Read RING_SIZE - 1 bytes which will span from the last buffer and wrap around
    let mut ioref = IoRef::default();
    assert!(stream.get_ioref(&mut ioref, RING_SIZE - 1).is_ok());
    assert_eq!(ioref.len, RING_SIZE - 1);
    assert!(ioref.buf.is_some());

    // The stream state should be updated to point to the correct position after the read
    assert_eq!(stream.ring_cur_idx, 1);
    assert_eq!(stream.ring_cur_pos, 0);
}

#[test]
fn get_u8_no_data() {
    let mut stream = MediaSourceStream::new(IoBufSupplierIoUring {});
    assert_eq!(stream.get_u8(), Err(Error::RetryLater));
}

#[test]
fn get_u8_test() {
    let mut stream = MediaSourceStream::new(IoBufSupplierIoUring {});
    stream.add_iobuf(new_iobuf(b"abc")).unwrap();
    stream.add_iobuf(new_iobuf(b"de")).unwrap();

    // Read first byte
    assert_eq!(stream.get_u8().unwrap(), b'a');
    assert_eq!(stream.ring_cur_idx, 0);
    assert_eq!(stream.ring_cur_pos, 1);

    // Read last byte of first buffer
    assert_eq!(stream.get_u8().unwrap(), b'b');
    assert_eq!(stream.get_u8().unwrap(), b'c');
    assert_eq!(stream.ring_cur_idx, 1);
    assert_eq!(stream.ring_cur_pos, 0);

    // Read first byte of second buffer
    assert_eq!(stream.get_u8().unwrap(), b'd');
    assert_eq!(stream.ring_cur_idx, 1);
    assert_eq!(stream.ring_cur_pos, 1);
}

// --- scenario tests ---

#[test]
fn fast_path_single_slot_pins_and_releases() {
    let mut stream = MediaSourceStream::new(IoBufSupplierIoUring {});
    stream.add_iobuf(new_iobuf(b"abcdef")).unwrap();

    let mut ioref = IoRef::default();
    assert!(stream.get_ioref(&mut ioref, 3).is_ok());
    assert!(ioref.shared_buf.is_some());
    assert_eq!(ioref.offset, 0);
    assert_eq!(ioref.len, 3);
    let shared = ioref.shared_buf.as_ref().unwrap();
    assert_eq!(&shared[ioref.offset..ioref.offset + ioref.len], b"abc");
    assert_eq!(stream.ring_cur_idx, 0);
    assert_eq!(stream.ring_cur_pos, 3);
    // The segment reference holds a second strong count on the slot.
    assert_eq!(Arc::strong_count(&stream.ring[0].buf), 2);
    assert_eq!(stream.remove_iobuf().err().unwrap(), Error::RetryLater);

    drop(ioref);
    // Still not recyclable: the cursor has not passed the slot yet.
    assert_eq!(Arc::strong_count(&stream.ring[0].buf), 1);
    assert_eq!(stream.remove_iobuf().err().unwrap(), Error::RetryLater);

    let mut ioref2 = IoRef::default();
    assert!(stream.get_ioref(&mut ioref2, 3).is_ok());
    assert!(ioref2.shared_buf.is_some());
    assert_eq!(ioref2.offset, 3);
    assert_eq!(ioref2.len, 3);
    let shared2 = ioref2.shared_buf.as_ref().unwrap();
    assert_eq!(&shared2[ioref2.offset..ioref2.offset + ioref2.len], b"def");
    assert_eq!(stream.ring_cur_idx, 1);
    assert_eq!(stream.ring_cur_pos, 0);

    // Pinned again by the second reference.
    assert_eq!(stream.remove_iobuf().err().unwrap(), Error::RetryLater);
    drop(ioref2);
    let removed = stream.remove_iobuf().unwrap();
    assert_eq!(&removed.buf[..removed.len], b"abcdef");
}

#[test]
fn insufficient_data_leaves_ring_unchanged() {
    let mut stream = MediaSourceStream::new(IoBufSupplierIoUring {});
    stream.add_iobuf(new_iobuf(b"a")).unwrap();
    stream.add_iobuf(new_iobuf(b"b")).unwrap();

    let mut ioref = IoRef::default();
    assert_eq!(stream.get_ioref(&mut ioref, 3), Err(Error::RetryLater));
    // Failure leaves the ring exactly as it was.
    assert_eq!(stream.ring_cur_idx, 0);
    assert_eq!(stream.ring_cur_pos, 0);
    assert_eq!(stream.ring_add_idx, 2);
    assert_eq!(stream.ring_remove_idx, 0);
    assert_eq!(stream.stream_pos, 0);
    // An identical call fails identically.
    assert_eq!(stream.get_ioref(&mut ioref, 3), Err(Error::RetryLater));

    assert_eq!(stream.get_u8().unwrap(), b'a');
    assert_eq!(stream.get_u8().unwrap(), b'b');
    assert_eq!(stream.get_u8(), Err(Error::RetryLater));
}

#[test]
fn ring_full_recovers_after_recycle() {
    let mut stream = MediaSourceStream::new(IoBufSupplierIoUring {});
    for i in 0..RING_SIZE - 1 {
        assert!(stream.add_iobuf(new_iobuf(&[i as u8])).is_ok());
    }
    // occupied == RING_SIZE - 1: the fourth admission is refused.
    assert_eq!(stream.add_iobuf(new_iobuf(b"x")), Err(Error::RetryLater));

    // Consume one byte, recycle that slot, and the admission succeeds.
    assert!(stream.get_u8().is_ok());
    assert!(stream.remove_iobuf().is_ok());
    assert!(stream.add_iobuf(new_iobuf(b"x")).is_ok());
    assert_eq!(stream.ring_add_idx, 0);
}

#[test]
fn stream_pos_tracks_bytes_consumed() {
    let mut stream = MediaSourceStream::new(IoBufSupplierIoUring {});
    stream.add_iobuf(new_iobuf(b"abc")).unwrap();
    stream.add_iobuf(new_iobuf(b"defgh")).unwrap();

    assert_eq!(stream.stream_pos, 0);
    assert!(stream.get_u8().is_ok());
    assert_eq!(stream.stream_pos, 1);

    let mut ioref = IoRef::default();
    assert!(stream.get_ioref(&mut ioref, 4).is_ok());
    assert_eq!(stream.stream_pos, 5);
    assert_eq!(&ioref.buf.unwrap()[..], b"bcde");

    let mut ioref2 = IoRef::default();
    assert!(stream.get_ioref(&mut ioref2, 3).is_ok());
    assert_eq!(stream.stream_pos, 8);
    assert!(ioref2.shared_buf.is_some());
    assert_eq!(ioref2.offset, 2);
}

#[test]
fn recycle_decision_follows_the_observed_count() {
    let mut stream = MediaSourceStream::new(IoBufSupplierIoUring {});
    stream.add_iobuf(new_iobuf(b"ab")).unwrap();
    // Consume the slot, so that only the count decides recyclability.
    assert_eq!(stream.get_u8().unwrap(), b'a');
    assert_eq!(stream.get_u8().unwrap(), b'b');
    // A count above one means a pinned slot: refused, nothing changes.
    assert_eq!(stream.remove_iobuf_with_count(2).err().unwrap(), Error::RetryLater);
    assert_eq!(stream.ring_remove_idx, 0);
    // A count of one means only the ring holds the buffer: recycled.
    let removed = stream.remove_iobuf_with_count(1).unwrap();
    assert_eq!(&removed.buf[..removed.len], b"ab");
    assert_eq!(stream.ring_remove_idx, 1);
}

#[test]
fn format_context_routes_read_packet() {
    let mut ctx = FormatContext::open_input("movie.mkv");
    let mut packet = Packet::default();
    // The fresh stream holds no bytes, so the demuxer reports back-pressure.
    assert_eq!(ctx.read_packet(&mut packet), Err(Error::RetryLater));
}

#[test]
fn admissions_do_not_disturb_pending_bytes() {
    let mut stream = MediaSourceStream::new(IoBufSupplierIoUring {});
    stream.add_iobuf(new_iobuf(b"ab")).unwrap();
    assert_eq!(stream.get_u8().unwrap(), b'a');
    // A later admission leaves the pending byte at the front.
    stream.add_iobuf(new_iobuf(b"cd")).unwrap();
    assert_eq!(stream.get_u8().unwrap(), b'b');
    assert_eq!(stream.get_u8().unwrap(), b'c');
    assert_eq!(stream.get_u8().unwrap(), b'd');
    assert_eq!(stream.get_u8(), Err(Error::RetryLater));
}
