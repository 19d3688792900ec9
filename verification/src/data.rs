//! Data model of the media layer: shared byte buffers, segment references,
//! and the packet containers built from them.

use std::sync::Arc;
use vstd::prelude::*;

verus! {

/// Errors reported by an early draft of the media source stream.
#[derive(Debug, PartialEq, Eq)]
pub enum MediaError {
    /// Not enough data in the stream to complete the operation.
    NotEnoughData,
    /// The ring buffer is full and cannot accept a new IoBuf.
    RingBufferFull,
    /// The requested slice is too large to fit into a single Packet (spans more than 4 IoBufs).
    PacketTooLarge,
}

/// A contiguous block of memory, owned and shared via an `Arc`.
///
/// Only the first `len` bytes of `buf` are valid content; a default-constructed
/// `IoBuf` is the empty sentinel with `len == 0`.
#[derive(Debug)]
pub struct IoBuf {
    /// The shared backing buffer.
    pub buf: Arc<Vec<u8>>,
    /// The length of the actual content in the buffer.
    pub len: usize,
}

impl IoBuf {
    /// A populated buffer: a nonempty valid prefix that fits the backing storage.
    pub open spec fn valid(&self) -> bool {
        0 < self.len <= self.buf@.len()
    }

    /// The valid bytes: the prefix of the backing buffer of length `len`.
    pub open spec fn content(&self) -> Seq<u8> {
        self.buf@.take(self.len as int)
    }

    /// Creates a new IoBuf whose content is exactly `data`.
    pub fn from_vec(data: Vec<u8>) -> (r: Self)
        ensures
            r.buf@ == data@,
            r.len == data@.len(),
            r.content() == data@,
    {
        let len = data.len();
        proof {
            assert(data@.take(data@.len() as int) == data@);
        }
        IoBuf { buf: Arc::new(data), len }
    }
}

impl Default for IoBuf {
    /// The empty sentinel: no backing bytes, zero content length.
    fn default() -> (r: Self)
        ensures
            r.len == 0,
            r.buf@.len() == 0,
    {
        IoBuf { buf: Arc::new(Vec::new()), len: 0 }
    }
}

/// A reference to a segment of stream data.
///
/// Exactly one representation is populated at a time:
/// - shared: a zero-copy borrow into a live `IoBuf` (`shared_buf`, `offset`, `len`), or
/// - owned: a freshly allocated slab holding a stitched copy (`buf`, `len`).
///
/// A shared reference holds one strong count on its buffer and releases it on drop.
#[derive(Debug, Clone)]
pub struct IoRef {
    /// The shared, immutable backing buffer of a zero-copy reference.
    pub shared_buf: Option<Arc<Vec<u8>>>,
    /// The owned slab of a stitched reference.
    pub buf: Option<Vec<u8>>,
    /// The starting position of this reference within the shared buffer.
    pub offset: usize,
    /// The length of the data segment this reference points to.
    pub len: usize,
}

impl IoRef {
    /// The reference borrows into a shared buffer.
    pub open spec fn is_shared(&self) -> bool {
        self.shared_buf is Some && self.buf is None
    }

    /// The reference owns a stitched slab.
    pub open spec fn is_owned(&self) -> bool {
        self.buf is Some && self.shared_buf is None
    }

    /// A populated, in-bounds reference.
    pub open spec fn valid(&self) -> bool {
        &&& self.len > 0
        &&& self.is_shared() || self.is_owned()
        &&& self.is_shared() ==> self.offset + self.len <= self.shared_buf->Some_0@.len()
        &&& self.is_owned() ==> self.offset == 0 && self.buf->Some_0@.len() == self.len
    }

    /// The bytes this reference denotes.
    pub open spec fn bytes(&self) -> Seq<u8> {
        if self.is_shared() {
            self.shared_buf->Some_0@.subrange(self.offset as int, self.offset + self.len)
        } else {
            self.buf->Some_0@
        }
    }
}

impl Default for IoRef {
    /// An unpopulated reference.
    fn default() -> (r: Self)
        ensures
            r.shared_buf is None,
            r.buf is None,
            r.offset == 0,
            r.len == 0,
    {
        IoRef { shared_buf: None, buf: None, offset: 0, len: 0 }
    }
}

/// Represents a compressed data packet.
#[derive(Debug, Default)]
pub struct Packet<'a> {
    /// Slices of the actual data; a packet may span several of them.
    slices: Vec<&'a [u8]>,
    /// Cache for the merged memory.
    merged: Option<Vec<u8>>,
}

impl<'a> View for Packet<'a> {
    type V = Seq<Seq<u8>>;

    closed spec fn view(&self) -> Seq<Seq<u8>> {
        self.slices.deep_view()
    }
}

impl<'a> Packet<'a> {
    /// Empties the packet.
    pub fn clear(&mut self)
        ensures
            final(self)@.len() == 0,
    {
        self.slices.clear();
        self.merged = None;
    }

    /// Appends one data slice to the packet.
    pub fn push(&mut self, data: &'a [u8])
        ensures
            final(self)@ == old(self)@.push(data@),
    {
        self.slices.push(data);
        proof {
            assert(final(self)@ =~~= old(self)@.push(data@));
        }
    }

    /// The packet's data: its first slice, or nothing when the packet is
    /// empty.
    pub fn data(&self) -> (r: &[u8])
        ensures
            r@ == if self@.len() == 0 {
                Seq::<u8>::empty()
            } else {
                self@[0]
            },
    {
        match self.slices.len() {
            0 => &[],
            _ => self.slices[0],
        }
    }
}

/// A packet of data that can be composed of up to 4 non-contiguous buffer
/// segments, so one logical packet can span several IoBufs of the ring.
#[derive(Debug, Default)]
pub struct Packet2 {
    /// The buffer references that constitute the packet's data.
    pub bufs: [IoRef; 4],
}

impl Packet2 {
    /// Resets the packet to its default, empty state, dropping any shared buffers.
    pub fn clear(&mut self)
        ensures
            forall|i: int| 0 <= i < 4 ==> !(#[trigger] final(self).bufs[i]).is_shared()
                && !final(self).bufs[i].is_owned(),
            forall|i: int| 0 <= i < 4 ==> (#[trigger] final(self).bufs[i]).len == 0,
    {
        self.bufs = [IoRef::default(), IoRef::default(), IoRef::default(), IoRef::default()];
    }

    /// Returns the total length of the data contained in the packet.
    pub fn len(&self) -> (r: usize)
        requires
            self.bufs[0].len + self.bufs[1].len + self.bufs[2].len + self.bufs[3].len <= usize::MAX,
        ensures
            r == self.bufs[0].len + self.bufs[1].len + self.bufs[2].len + self.bufs[3].len,
    {
        self.bufs[0].len + self.bufs[1].len + self.bufs[2].len + self.bufs[3].len
    }

    /// Returns the number of populated references in the packet.
    pub fn bufs_len(&self) -> (r: usize)
        ensures
            r == Self::count_populated(self.bufs@, 4),
    {
        proof {
            reveal_with_fuel(Packet2::count_populated, 5);
        }
        let mut count: usize = 0;
        if self.bufs[0].shared_buf.is_some() || self.bufs[0].buf.is_some() {
            count += 1;
        }
        if self.bufs[1].shared_buf.is_some() || self.bufs[1].buf.is_some() {
            count += 1;
        }
        if self.bufs[2].shared_buf.is_some() || self.bufs[2].buf.is_some() {
            count += 1;
        }
        if self.bufs[3].shared_buf.is_some() || self.bufs[3].buf.is_some() {
            count += 1;
        }
        count
    }

    /// How many of the first `n` references hold data.
    pub open spec fn count_populated(bufs: Seq<IoRef>, n: int) -> int
        decreases n,
    {
        if n <= 0 {
            0
        } else {
            Self::count_populated(bufs, n - 1)
                + if bufs[n - 1].shared_buf is Some || bufs[n - 1].buf is Some { 1int } else { 0int }
        }
    }
}

} // verus!
