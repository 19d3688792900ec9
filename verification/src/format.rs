//! The media source stream: a fixed-capacity ring of shared byte buffers,
//! the zero-copy byte reader that demuxers consume, and the supply protocol
//! that connects the ring to an I/O producer.

use std::sync::Arc;

use crate::data::{IoBuf, IoRef, Packet};
use crate::error::{invalid_input_error, retry_later_error, Error};
use vstd::prelude::*;

verus! {

/// The fixed size of the internal ring buffer, a power of two.
pub const RING_SIZE: usize = 4;

/// Mask for reducing an index modulo `RING_SIZE`.
pub const RING_MASK: usize = RING_SIZE - 1;

/// Ring-order distance from slot `from` to slot `to`: how many steps forward
/// (wrapping at `RING_SIZE`) lead from `from` to `to`.
pub open spec fn ring_dist(from: int, to: int) -> int {
    if from <= to {
        to - from
    } else {
        to - from + RING_SIZE
    }
}

/// The slot after `i` in ring order.
pub open spec fn ring_nxt(i: int) -> int {
    if i + 1 < RING_SIZE {
        i + 1
    } else {
        0
    }
}

/// The slot `k` steps after `i` in ring order (for `i + k` wrapping at most once).
pub open spec fn ring_at(i: int, k: int) -> int {
    if i + k < RING_SIZE {
        i + k
    } else {
        i + k - RING_SIZE
    }
}

/// The unread bytes of the ring, walking `n` slots forward from slot `idx`,
/// starting `off` bytes into the first of them.
pub open spec fn avail_bytes(ring: Seq<IoBuf>, idx: int, off: int, n: int) -> Seq<u8>
    decreases n,
{
    if n <= 0 {
        Seq::empty()
    } else {
        ring[idx].content().skip(off) + avail_bytes(ring, ring_nxt(idx), 0, n - 1)
    }
}

/// Ring-order distance from a common base is injective: two slots at the
/// same distance are the same slot.
proof fn lemma_ring_dist_inj(base: int, x: int, y: int)
    requires
        0 <= base < RING_SIZE,
        0 <= x < RING_SIZE,
        0 <= y < RING_SIZE,
        ring_dist(base, x) == ring_dist(base, y),
    ensures
        x == y,
{
}

/// `avail_bytes` reads only the `n` slots on the arc starting at `idx`:
/// two rings that agree there yield the same bytes.
proof fn lemma_avail_bytes_congruent(r1: Seq<IoBuf>, r2: Seq<IoBuf>, idx: int, off: int, n: int)
    requires
        0 <= idx < RING_SIZE,
        r1.len() == RING_SIZE,
        r2.len() == RING_SIZE,
        0 <= n <= RING_SIZE,
        forall|k: int| 0 <= k < n ==> r1[ring_at(idx, k)] == r2[ring_at(idx, k)],
    ensures
        avail_bytes(r1, idx, off, n) == avail_bytes(r2, idx, off, n),
    decreases n,
{
    if n > 0 {
        assert(r1[ring_at(idx, 0)] == r2[ring_at(idx, 0)]);
        assert forall|k: int| 0 <= k < n - 1 implies r1[ring_at(ring_nxt(idx), k)]
            == r2[ring_at(ring_nxt(idx), k)] by {
            assert(ring_at(ring_nxt(idx), k) == ring_at(idx, k + 1));
        }
        lemma_avail_bytes_congruent(r1, r2, ring_nxt(idx), 0, n - 1);
    }
}

/// Walking one more slot appends that slot's content at the end.
proof fn lemma_avail_bytes_snoc(ring: Seq<IoBuf>, idx: int, off: int, n: int)
    requires
        0 <= idx < RING_SIZE,
        ring.len() == RING_SIZE,
        0 <= n,
        n + 1 <= RING_SIZE,
    ensures
        avail_bytes(ring, idx, off, n + 1) == avail_bytes(ring, idx, off, n) + (if n == 0 {
            ring[idx].content().skip(off)
        } else {
            ring[ring_at(idx, n)].content()
        }),
    decreases n,
{
    if n == 0 {
        assert(avail_bytes(ring, idx, off, 1) == ring[idx].content().skip(off) + avail_bytes(
            ring,
            ring_nxt(idx),
            0,
            0,
        ));
        assert(avail_bytes(ring, idx, off, 1) =~= avail_bytes(ring, idx, off, 0) + ring[idx].content().skip(off));
    } else {
        lemma_avail_bytes_snoc(ring, ring_nxt(idx), 0, n - 1);
        assert(ring_at(ring_nxt(idx), n - 1) == ring_at(idx, n));
        assert(avail_bytes(ring, idx, off, n + 1) =~= avail_bytes(ring, idx, off, n)
            + ring[ring_at(idx, n)].content());
    }
}

/// Index of the first entry among the first `count` of `bufs`, looking from
/// `i` on, that is not a valid admission; `count` when all of them are.
pub open spec fn first_invalid_from(bufs: Seq<IoBuf>, i: int, count: int) -> int
    decreases count - i,
{
    if i >= count {
        count
    } else if !bufs[i].valid() {
        i
    } else {
        first_invalid_from(bufs, i + 1, count)
    }
}

/// The concatenated content of the first `n` buffers, in order.
pub open spec fn iobuf_contents(bufs: Seq<IoBuf>, n: int) -> Seq<u8>
    decreases n,
{
    if n <= 0 {
        Seq::empty()
    } else {
        iobuf_contents(bufs, n - 1) + bufs[n - 1].content()
    }
}

/// The first invalid entry lies between the start of the search and `count`.
proof fn lemma_first_invalid_range(bufs: Seq<IoBuf>, i: int, count: int)
    requires
        0 <= i <= count,
    ensures
        i <= first_invalid_from(bufs, i, count) <= count,
    decreases count - i,
{
    if i < count && bufs[i].valid() {
        lemma_first_invalid_range(bufs, i + 1, count);
    }
}

/// While every buffer before `i` is valid, the first invalid entry of the
/// whole prefix is the first invalid entry from `i` on.
proof fn lemma_first_invalid_skip(bufs: Seq<IoBuf>, i: int, count: int)
    requires
        0 <= i <= count,
        forall|k: int| 0 <= k < i ==> (#[trigger] bufs[k]).valid(),
    ensures
        first_invalid_from(bufs, 0, count) == first_invalid_from(bufs, i, count),
    decreases i,
{
    if i > 0 {
        lemma_first_invalid_skip(bufs, i - 1, count);
        assert(bufs[i - 1].valid());
    }
}

/// The ring interface an I/O producer drives: admit a filled buffer, take a
/// consumed one back.
pub trait IoBufRing {
    /// Structural invariant of the ring, preserved by every operation.
    spec fn inv(&self) -> bool;

    /// Adds a new IoBuf to the ring.
    fn add_iobuf(&mut self, iobuf: IoBuf) -> (r: Result<(), Error>)
        requires
            old(self).inv(),
        ensures
            final(self).inv(),
    ;

    /// Removes a fully parsed IoBuf from the ring.
    fn remove_iobuf(&mut self) -> (r: Result<IoBuf, Error>)
        requires
            old(self).inv(),
        ensures
            final(self).inv(),
    ;
}

/// The byte-reader interface demuxers consume.
pub trait MediaIoBufRead {
    /// Structural invariant of the reader, preserved by every operation.
    spec fn inv(&self) -> bool;

    /// The absolute number of bytes consumed so far.
    spec fn pos(&self) -> int;

    /// Reads a single byte, advancing the position by exactly one on
    /// success and not at all on failure.
    fn get_u8(&mut self) -> (r: Result<u8, Error>)
        requires
            old(self).inv(),
            old(self).pos() < usize::MAX,
        ensures
            final(self).inv(),
            r matches Ok(_) ==> final(self).pos() == old(self).pos() + 1,
            r matches Err(_) ==> final(self).pos() == old(self).pos(),
    ;

    /// Reads `len` bytes as one segment reference, advancing the position
    /// by exactly `len` on success and not at all on failure.
    fn get_ioref(&mut self, ioref: &mut IoRef, len: usize) -> (r: Result<(), Error>)
        requires
            old(self).inv(),
            old(self).pos() + len <= usize::MAX,
        ensures
            final(self).inv(),
            r matches Ok(_) ==> final(self).pos() == old(self).pos() + len,
            r matches Err(_) ==> final(self).pos() == old(self).pos(),
    ;
}

/// A demuxer bound to a byte reader.
pub trait Demux {
    /// Structural invariant of the demuxer, preserved by every operation.
    spec fn inv(&self) -> bool;

    /// The absolute number of bytes consumed so far.
    spec fn pos(&self) -> int;

    /// Reads the next packet from the stream.
    fn read_packet(&mut self, packet: &mut Packet<'_>) -> (r: Result<(), Error>)
        requires
            old(self).inv(),
            old(self).pos() < usize::MAX,
        ensures
            final(self).inv(),
    ;
}

/// The contract between the ring and an external I/O producer.
pub trait IoBufSupply {
    /// Binds the producer to a source named by `uri`.
    fn open_input(&mut self, uri: &str) -> (r: Result<(), Error>);

    /// Hands consumed buffers back to the producer and asks for new ones
    /// holding at least `len_bytes` bytes. The producer fills a prefix of
    /// `new_iobufs` and reports how many entries it filled.
    fn supply_iobufs(
        &mut self,
        len_bytes: usize,
        parsed_iobufs: &Vec<IoBuf>,
        new_iobufs: &mut Vec<IoBuf>,
    ) -> (r: Result<usize, Error>)
        ensures
            final(new_iobufs)@.len() == old(new_iobufs)@.len(),
            r matches Ok(count) ==> count <= final(new_iobufs)@.len(),
    ;
}

/// A producer intended to run over an asynchronous submission-queue I/O
/// backend; the backend itself lives outside this crate.
#[derive(Debug)]
pub struct IoBufSupplierIoUring {}

impl IoBufSupply for IoBufSupplierIoUring {
    fn open_input(&mut self, uri: &str) -> (r: Result<(), Error>) {
        Ok(())
    }

    fn supply_iobufs(
        &mut self,
        len_bytes: usize,
        parsed_iobufs: &Vec<IoBuf>,
        new_iobufs: &mut Vec<IoBuf>,
    ) -> (r: Result<usize, Error>)
        ensures
            r == Result::<usize, Error>::Ok(0usize),
            final(new_iobufs)@ == old(new_iobufs)@,
    {
        Ok(0)
    }
}

/// A single elementary stream within a container.
pub struct Stream {
    pub id: usize,
    pub codec_params: Vec<u8>,
}

/// A shared buffer paired with the length of its valid content.
pub struct IoBuf2 {
    /// Allocated space for the buffer.
    data: Arc<Vec<u8>>,
    /// How much data is actually there.
    len: u64,
}

/// A stream that consumes IoBufs from a fixed-size ring buffer.
/// It allows for zero-copy reading of data into packets.
#[derive(Debug)]
pub struct MediaSourceStream<S: IoBufSupply> {
    pub iobuf_supplier: S,
    /// Ring of buffers.
    pub ring: Vec<IoBuf>,
    /// The index where the IoBuf will be removed once the buffer is read.
    pub ring_remove_idx: usize,
    /// The index where the next IoBuf will be added.
    pub ring_add_idx: usize,
    /// The index of the IoBuf currently being read from.
    pub ring_cur_idx: usize,
    /// The position in the current IoBuf to read from.
    pub ring_cur_pos: usize,
    /// Absolute stream position.
    pub stream_pos: usize,
    /// Total stream length.
    pub stream_len: usize,
}

impl<S: IoBufSupply> MediaSourceStream<S> {
    /// Number of occupied slots: those on the arc from the remove index
    /// (inclusive) to the add index (exclusive).
    pub open spec fn occupied_spec(&self) -> int {
        ring_dist(self.ring_remove_idx as int, self.ring_add_idx as int)
    }

    /// The ring's structural invariant:
    /// the three indices are in range; the cursor lies on the arc from the
    /// remove index to the add index; every occupied slot holds a populated
    /// buffer; and the cursor offset addresses a valid byte of its slot.
    pub open spec fn wf(&self) -> bool {
        &&& self.ring@.len() == RING_SIZE
        &&& self.ring_remove_idx < RING_SIZE
        &&& self.ring_add_idx < RING_SIZE
        &&& self.ring_cur_idx < RING_SIZE
        &&& ring_dist(self.ring_remove_idx as int, self.ring_cur_idx as int) <= self.occupied_spec()
        &&& (self.ring_cur_idx == self.ring_add_idx ==> self.ring_cur_pos == 0)
        &&& (self.ring_cur_idx != self.ring_add_idx ==> self.ring_cur_pos < self.ring@[self.ring_cur_idx as int].len)
        &&& forall|i: int|
            0 <= i < RING_SIZE && ring_dist(self.ring_remove_idx as int, i) < self.occupied_spec()
                ==> (#[trigger] self.ring@[i]).valid()
    }

    /// The bytes not yet consumed by the cursor, in stream order.
    pub open spec fn avail(&self) -> Seq<u8> {
        avail_bytes(
            self.ring@,
            self.ring_cur_idx as int,
            self.ring_cur_pos as int,
            ring_dist(self.ring_cur_idx as int, self.ring_add_idx as int),
        )
    }

    /// Creates an empty stream fed by `iobuf_supplier`: every index starts
    /// at slot zero and every slot holds the empty sentinel.
    pub fn new(iobuf_supplier: S) -> (r: Self)
        ensures
            r.wf(),
            r.occupied_spec() == 0,
            r.avail() == Seq::<u8>::empty(),
            r.ring_remove_idx == 0,
            r.ring_add_idx == 0,
            r.ring_cur_idx == 0,
            r.ring_cur_pos == 0,
            r.stream_pos == 0,
            r.stream_len == 0,
            forall|i: int|
                0 <= i < RING_SIZE ==> (#[trigger] r.ring@[i]).len == 0 && r.ring@[i].buf@.len()
                    == 0,
    {
        let mut ring: Vec<IoBuf> = Vec::new();
        ring.push(IoBuf::default());
        ring.push(IoBuf::default());
        ring.push(IoBuf::default());
        ring.push(IoBuf::default());
        Self {
            iobuf_supplier,
            ring,
            ring_remove_idx: 0,
            ring_add_idx: 0,
            ring_cur_idx: 0,
            ring_cur_pos: 0,
            stream_pos: 0,
            stream_len: 0,
        }
    }

    /// Adds a new IoBuf to the stream's ring buffer.
    ///
    /// A malformed buffer (empty, or content length beyond capacity) is
    /// rejected with `InvalidInput`; a full ring rejects with `RetryLater`;
    /// otherwise the buffer's content is appended to the available bytes.
    /// On any failure the stream is left unchanged.
    pub fn add_iobuf(&mut self, iobuf: IoBuf) -> (r: Result<(), Error>)
        requires
            old(self).wf(),
        ensures
            final(self).wf(),
            !iobuf.valid() ==> r == Result::<(), Error>::Err(Error::InvalidInput) && *final(self)
                == *old(self),
            iobuf.valid() && old(self).occupied_spec() == RING_SIZE - 1 ==> r == Result::<
                (),
                Error,
            >::Err(Error::RetryLater) && *final(self) == *old(self),
            iobuf.valid() && old(self).occupied_spec() < RING_SIZE - 1 ==> {
                &&& r == Result::<(), Error>::Ok(())
                &&& final(self).ring@ == old(self).ring@.update(old(self).ring_add_idx as int, iobuf)
                &&& final(self).ring_add_idx as int == ring_nxt(old(self).ring_add_idx as int)
                &&& final(self).ring_remove_idx == old(self).ring_remove_idx
                &&& final(self).ring_cur_idx == old(self).ring_cur_idx
                &&& final(self).ring_cur_pos == old(self).ring_cur_pos
                &&& final(self).stream_pos == old(self).stream_pos
                &&& final(self).occupied_spec() == old(self).occupied_spec() + 1
                &&& final(self).avail() == old(self).avail() + iobuf.content()
            },
    {
        if iobuf.len == 0 || iobuf.len > iobuf.buf.len() {
            return invalid_input_error();
        }

        let next_add_idx = (self.ring_add_idx + 1) % RING_SIZE;
        // The buffer is full if the next add index would be the same as the
        // remove index: the ring stores up to RING_SIZE - 1 items.
        if next_add_idx == self.ring_remove_idx {
            return retry_later_error();
        }

        let ghost pre = *self;
        self.ring[self.ring_add_idx] = iobuf;
        self.ring_add_idx = next_add_idx;

        proof {
            let cur = pre.ring_cur_idx as int;
            let add = pre.ring_add_idx as int;
            let n = ring_dist(cur, add);
            assert forall|k: int| 0 <= k < n implies pre.ring@[ring_at(cur, k)]
                == self.ring@[ring_at(cur, k)] by {
                assert(ring_at(cur, k) != add);
            }
            lemma_avail_bytes_congruent(pre.ring@, self.ring@, cur, pre.ring_cur_pos as int, n);
            lemma_avail_bytes_snoc(self.ring@, cur, pre.ring_cur_pos as int, n);
            assert(ring_at(cur, n) == add);
            if n == 0 {
                assert(pre.ring_cur_pos == 0);
                assert(self.ring@[add].content().skip(0) =~= self.ring@[add].content());
            }
            assert(self.avail() =~= pre.avail() + iobuf.content());
        }

        Ok(())
    }

    /// Removes a fully consumed IoBuf from the stream's ring buffer and hands
    /// it back for reuse.
    ///
    /// Fails with `RetryLater` when there is nothing to recycle, when the
    /// oldest slot has not yet been passed by the cursor, or when a live
    /// `IoRef` still shares the slot's buffer (its strong count is above one,
    /// which this contract cannot see and therefore does not promise against).
    /// Any failure leaves the stream unchanged. On success the oldest slot's
    /// buffer is returned with its content intact, the slot reverts to the
    /// empty sentinel, and the unread bytes are unaffected.
    pub fn remove_iobuf(&mut self) -> (r: Result<IoBuf, Error>)
        requires
            old(self).wf(),
        ensures
            final(self).wf(),
            old(self).occupied_spec() == 0 || old(self).ring_remove_idx == old(self).ring_cur_idx
                ==> (r matches Err(e) && e == Error::RetryLater),
            r matches Err(e) ==> e == Error::RetryLater && *final(self) == *old(self),
            r matches Ok(b) ==> {
                &&& old(self).occupied_spec() > 0
                &&& old(self).ring_remove_idx != old(self).ring_cur_idx
                &&& b == old(self).ring@[old(self).ring_remove_idx as int]
                &&& b.valid()
                &&& final(self).ring@.len() == RING_SIZE
                &&& final(self).ring@[old(self).ring_remove_idx as int].len == 0
                &&& forall|i: int|
                    0 <= i < RING_SIZE && i != old(self).ring_remove_idx ==> final(self).ring@[i]
                        == old(self).ring@[i]
                &&& final(self).ring_remove_idx as int == ring_nxt(old(self).ring_remove_idx as int)
                &&& final(self).ring_add_idx == old(self).ring_add_idx
                &&& final(self).ring_cur_idx == old(self).ring_cur_idx
                &&& final(self).ring_cur_pos == old(self).ring_cur_pos
                &&& final(self).stream_pos == old(self).stream_pos
                &&& final(self).occupied_spec() == old(self).occupied_spec() - 1
                &&& final(self).avail() == old(self).avail()
            },
    {
        if self.ring_remove_idx == self.ring_add_idx {
            return retry_later_error();
        }
        // The oldest slot may still hold unread bytes: it is recycled only
        // once the cursor has moved past it.
        if self.ring_remove_idx == self.ring_cur_idx {
            return retry_later_error();
        }

        let strong_count = arc_strong_count(&self.ring[self.ring_remove_idx].buf);
        self.remove_iobuf_with_count(strong_count)
    }

    /// Completes a recycle attempt once the oldest slot's strong count has
    /// been observed.
    ///
    /// The decision is a function of the count: one means only the ring
    /// holds the buffer, so the slot is taken, reverts to the empty
    /// sentinel, and its buffer is returned intact; any other count means a
    /// live `IoRef` still pins the buffer, so the attempt fails with
    /// `RetryLater` and the stream is unchanged. Dropping every such `IoRef`
    /// brings the count back to one and so restores recyclability.
    pub fn remove_iobuf_with_count(&mut self, strong_count: usize) -> (r: Result<IoBuf, Error>)
        requires
            old(self).wf(),
            old(self).occupied_spec() > 0,
            old(self).ring_remove_idx != old(self).ring_cur_idx,
        ensures
            final(self).wf(),
            strong_count != 1 ==> (r matches Err(e) && e == Error::RetryLater),
            strong_count == 1 ==> r matches Ok(_),
            r matches Err(e) ==> e == Error::RetryLater && *final(self) == *old(self),
            r matches Ok(b) ==> {
                &&& b == old(self).ring@[old(self).ring_remove_idx as int]
                &&& b.valid()
                &&& final(self).ring@.len() == RING_SIZE
                &&& final(self).ring@[old(self).ring_remove_idx as int].len == 0
                &&& forall|i: int|
                    0 <= i < RING_SIZE && i != old(self).ring_remove_idx ==> final(self).ring@[i]
                        == old(self).ring@[i]
                &&& final(self).ring_remove_idx as int == ring_nxt(old(self).ring_remove_idx as int)
                &&& final(self).ring_add_idx == old(self).ring_add_idx
                &&& final(self).ring_cur_idx == old(self).ring_cur_idx
                &&& final(self).ring_cur_pos == old(self).ring_cur_pos
                &&& final(self).stream_pos == old(self).stream_pos
                &&& final(self).occupied_spec() == old(self).occupied_spec() - 1
                &&& final(self).avail() == old(self).avail()
            },
    {
        if strong_count == 1 {
            let ghost pre = *self;
            let mut iobuf = IoBuf::default();
            std::mem::swap(&mut iobuf, &mut self.ring[self.ring_remove_idx]);
            self.ring_remove_idx = (self.ring_remove_idx + 1) % RING_SIZE;
            proof {
                let cur = pre.ring_cur_idx as int;
                let n = ring_dist(cur, pre.ring_add_idx as int);
                assert forall|k: int| 0 <= k < n implies pre.ring@[ring_at(cur, k)]
                    == self.ring@[ring_at(cur, k)] by {
                    assert(ring_at(cur, k) != pre.ring_remove_idx as int);
                }
                lemma_avail_bytes_congruent(pre.ring@, self.ring@, cur, pre.ring_cur_pos as int, n);
            }
            return Ok(iobuf);
        }

        retry_later_error()
    }

    /// Drains every currently recyclable IoBuf back to the supplier, asks it
    /// for new buffers covering at least `len_bytes` bytes, and admits what
    /// it returns.
    ///
    /// The cursor and the absolute position never move, and bytes already
    /// available stay available: new content is only appended. On success at
    /// least `len_bytes` bytes were appended; a `RetryLater` failure means
    /// the appended content fell short of `len_bytes` (a saturated ring or a
    /// producer that could not yet cover the request); other errors come
    /// from the producer itself or from a malformed buffer it returned.
    fn supply_iobufs(&mut self, len_bytes: usize) -> (r: Result<(), Error>)
        requires
            old(self).wf(),
            len_bytes >= 1,
        ensures
            final(self).wf(),
            final(self).ring_cur_idx == old(self).ring_cur_idx,
            final(self).ring_cur_pos == old(self).ring_cur_pos,
            final(self).stream_pos == old(self).stream_pos,
            old(self).avail() == final(self).avail().take(old(self).avail().len() as int),
            r matches Ok(_) ==> final(self).avail().len() >= old(self).avail().len() + len_bytes,
            r matches Err(e) ==> (e == Error::RetryLater ==> final(self).avail().len() < old(
                self,
            ).avail().len() + len_bytes),
    {
        // Get all parsed iobufs into the batch; there can be none.
        let mut parsed_iobufs: Vec<IoBuf> = Vec::new();
        let mut drained = false;
        while !drained && parsed_iobufs.len() < RING_SIZE
            invariant
                self.wf(),
                self.ring_cur_idx == old(self).ring_cur_idx,
                self.ring_cur_pos == old(self).ring_cur_pos,
                self.stream_pos == old(self).stream_pos,
                self.avail() == old(self).avail(),
            decreases (if drained {
                0int
            } else {
                1int
            }), RING_SIZE - parsed_iobufs.len(),
        {
            match self.remove_iobuf() {
                Ok(iobuf) => {
                    parsed_iobufs.push(iobuf);
                },
                Err(_) => {
                    drained = true;
                },
            }
        }

        // If there is no free slot left, none of the buffers could be
        // recycled and the ring cannot take new ones.
        let occupied = (self.ring_add_idx + RING_SIZE - self.ring_remove_idx) % RING_SIZE;
        let max_new_iobufs = RING_SIZE - 1 - occupied;
        if max_new_iobufs == 0 {
            proof {
                assert(old(self).avail() =~= self.avail().take(old(self).avail().len() as int));
            }
            return retry_later_error();
        }

        // Supply parsed buffers and ask for new buffers to cover at least
        // len_bytes.
        let mut new_iobufs: Vec<IoBuf> = Vec::new();
        while new_iobufs.len() < max_new_iobufs
            invariant
                max_new_iobufs <= RING_SIZE,
                new_iobufs@.len() <= max_new_iobufs,
            decreases max_new_iobufs - new_iobufs.len(),
        {
            new_iobufs.push(IoBuf::default());
        }
        let count_new_iobufs = match self.iobuf_supplier.supply_iobufs(
            len_bytes,
            &parsed_iobufs,
            &mut new_iobufs,
        ) {
            Ok(c) => c,
            Err(e) => {
                proof {
                    assert(old(self).avail() =~= self.avail().take(
                        old(self).avail().len() as int,
                    ));
                }
                return Err(e);
            },
        };

        let ghost pre_admit = *self;
        let ghost supplied = new_iobufs@;
        let r = self.admit_supplied_iobufs(&mut new_iobufs, count_new_iobufs, len_bytes);
        proof {
            let k = first_invalid_from(supplied, 0, count_new_iobufs as int);
            lemma_first_invalid_range(supplied, 0, count_new_iobufs as int);
            assert(self.avail() == pre_admit.avail() + iobuf_contents(supplied, k));
            if k < count_new_iobufs {
                assert(r == Result::<(), Error>::Err(Error::InvalidInput));
            } else {
                assert(k == count_new_iobufs);
                if iobuf_contents(supplied, count_new_iobufs as int).len() < len_bytes {
                    assert(r == Result::<(), Error>::Err(Error::RetryLater));
                } else {
                    assert(r == Result::<(), Error>::Ok(()));
                }
            }
            assert(old(self).avail() =~= self.avail().take(old(self).avail().len() as int));
        }
        r
    }

    /// Admits the buffers a producer returned and reports whether they
    /// cover the requested byte count.
    ///
    /// The first `count` entries of `new_iobufs` are admitted in order: a
    /// malformed entry stops the admission with `InvalidInput`, leaving the
    /// entries before it admitted; when all are valid, the result is `Ok`
    /// exactly when their content reaches `len_bytes` bytes and
    /// `RetryLater` when it falls short. The cursor, the remove index and
    /// the absolute position never move; admitted content is appended to
    /// the available bytes.
    pub fn admit_supplied_iobufs(
        &mut self,
        new_iobufs: &mut Vec<IoBuf>,
        count: usize,
        len_bytes: usize,
    ) -> (r: Result<(), Error>)
        requires
            old(self).wf(),
            count <= old(new_iobufs)@.len(),
            old(self).occupied_spec() + count <= RING_SIZE - 1,
        ensures
            final(self).wf(),
            final(self).ring_cur_idx == old(self).ring_cur_idx,
            final(self).ring_cur_pos == old(self).ring_cur_pos,
            final(self).ring_remove_idx == old(self).ring_remove_idx,
            final(self).stream_pos == old(self).stream_pos,
            final(self).avail() == old(self).avail() + iobuf_contents(
                old(new_iobufs)@,
                first_invalid_from(old(new_iobufs)@, 0, count as int),
            ),
            first_invalid_from(old(new_iobufs)@, 0, count as int) < count ==> r == Result::<
                (),
                Error,
            >::Err(Error::InvalidInput),
            ({
                let full = iobuf_contents(old(new_iobufs)@, count as int);
                &&& (first_invalid_from(old(new_iobufs)@, 0, count as int) == count && full.len()
                    < len_bytes ==> r == Result::<(), Error>::Err(Error::RetryLater))
                &&& (first_invalid_from(old(new_iobufs)@, 0, count as int) == count && full.len()
                    >= len_bytes ==> r == Result::<(), Error>::Ok(()))
            }),
    {
        let ghost orig = old(new_iobufs)@;
        let mut still_needed = len_bytes;
        let mut i: usize = 0;
        while i < count
            invariant
                self.wf(),
                orig == old(new_iobufs)@,
                i <= count,
                count <= new_iobufs@.len(),
                new_iobufs@.len() == orig.len(),
                forall|k: int| i <= k < count ==> new_iobufs@[k] == orig[k],
                forall|k: int| 0 <= k < i ==> (#[trigger] orig[k]).valid(),
                self.ring_cur_idx == old(self).ring_cur_idx,
                self.ring_cur_pos == old(self).ring_cur_pos,
                self.ring_remove_idx == old(self).ring_remove_idx,
                self.stream_pos == old(self).stream_pos,
                self.occupied_spec() == old(self).occupied_spec() + i,
                old(self).occupied_spec() + count <= RING_SIZE - 1,
                self.avail() == old(self).avail() + iobuf_contents(orig, i as int),
                still_needed <= len_bytes,
                still_needed > 0 ==> still_needed + iobuf_contents(orig, i as int).len()
                    == len_bytes,
                still_needed == 0 ==> iobuf_contents(orig, i as int).len() >= len_bytes,
            decreases count - i,
        {
            let ghost pre_add = *self;
            let mut iobuf = IoBuf::default();
            std::mem::swap(&mut iobuf, &mut new_iobufs[i]);
            let iobuf_len = iobuf.len;
            proof {
                assert(iobuf == orig[i as int]);
            }
            match self.add_iobuf(iobuf) {
                Ok(()) => {},
                Err(e) => {
                    proof {
                        // A full ring is impossible here, so the admission
                        // failed on a malformed buffer and stops.
                        assert(!orig[i as int].valid());
                        lemma_first_invalid_skip(orig, i as int, count as int);
                        assert(first_invalid_from(orig, 0, count as int) == i);
                    }
                    return Err(e);
                },
            }
            proof {
                assert(iobuf_contents(orig, i as int + 1) == iobuf_contents(orig, i as int)
                    + orig[i as int].content());
                assert(self.avail() =~= old(self).avail() + iobuf_contents(orig, i as int + 1));
            }
            if iobuf_len >= still_needed {
                still_needed = 0;
            } else {
                still_needed = still_needed - iobuf_len;
            }
            i += 1;
        }

        proof {
            lemma_first_invalid_skip(orig, count as int, count as int);
            assert(first_invalid_from(orig, count as int, count as int) == count as int);
            assert(first_invalid_from(orig, 0, count as int) == count as int);
        }
        if still_needed > 0 {
            return retry_later_error();
        }

        Ok(())
    }

    /// Reads a single byte, advancing the stream position by exactly one.
    ///
    /// When unread bytes are present the read succeeds, returns the first of
    /// them, and never consults the supplier. When none are present the
    /// supplier is asked for at least one byte first; its failure is
    /// propagated with the cursor and the position unmoved.
    #[verifier::rlimit(80)]
    pub fn get_u8(&mut self) -> (r: Result<u8, Error>)
        requires
            old(self).wf(),
            old(self).stream_pos < usize::MAX,
        ensures
            final(self).wf(),
            old(self).avail().len() > 0 ==> {
                &&& r == Result::<u8, Error>::Ok(old(self).avail()[0])
                &&& final(self).avail() == old(self).avail().skip(1)
                &&& final(self).stream_pos == old(self).stream_pos + 1
                &&& final(self).ring@ == old(self).ring@
                &&& final(self).ring_add_idx == old(self).ring_add_idx
                &&& final(self).ring_remove_idx == old(self).ring_remove_idx
            },
            r matches Ok(_) ==> final(self).stream_pos == old(self).stream_pos + 1,
            r matches Err(e) ==> {
                &&& old(self).avail().len() == 0
                &&& final(self).stream_pos == old(self).stream_pos
                &&& final(self).ring_cur_idx == old(self).ring_cur_idx
                &&& final(self).ring_cur_pos == old(self).ring_cur_pos
                &&& (e == Error::RetryLater ==> final(self).avail().len() == 0)
            },
    {
        proof {
            lemma_cur_at_add_means_no_avail(*self);
        }
        if self.ring_cur_idx == self.ring_add_idx {
            // We need 1 byte.
            match self.supply_iobufs(1) {
                Ok(()) => {},
                Err(e) => {
                    return Err(e);
                },
            }
        }
        let ghost mid = *self;
        proof {
            lemma_cur_at_add_means_no_avail(*self);
        }
        let result = self.ring[self.ring_cur_idx].buf[self.ring_cur_pos];

        // Advance position.
        self.ring_cur_pos += 1;
        self.stream_pos += 1;
        if self.ring_cur_pos == self.ring[self.ring_cur_idx].len {
            self.ring_cur_idx = (self.ring_cur_idx + 1) % RING_SIZE;
            self.ring_cur_pos = 0;
        }

        proof {
            let cur = mid.ring_cur_idx as int;
            let pos = mid.ring_cur_pos as int;
            let n = ring_dist(cur, mid.ring_add_idx as int);
            let head = mid.ring@[cur].content().skip(pos);
            assert(mid.avail() == head + avail_bytes(mid.ring@, ring_nxt(cur), 0, n - 1));
            assert(result == mid.avail()[0]);
            if mid.ring_cur_pos + 1 < mid.ring@[cur].len {
                assert(self.avail() =~= mid.avail().skip(1));
            } else {
                assert(head.len() == 1);
                assert(self.avail() =~= mid.avail().skip(1));
            }
        }
        Ok(result)
    }

    /// Bytes remaining unread in the cursor's slot.
    pub open spec fn cur_rem(&self) -> int {
        self.ring@[self.ring_cur_idx as int].len - self.ring_cur_pos
    }

    /// Why a range read of `len` bytes would be refused, if it would be:
    /// a zero-length request is invalid, and a request beyond the available
    /// bytes cannot progress yet.
    pub open spec fn range_read_denial(&self, len: usize) -> Option<Error> {
        if len == 0 {
            Some(Error::InvalidInput)
        } else if self.avail().len() < len {
            Some(Error::RetryLater)
        } else {
            None
        }
    }

    /// Reads `len` bytes as one segment reference, advancing the cursor and
    /// the stream position by exactly `len`.
    ///
    /// The read is atomic: it either succeeds, consuming exactly the first
    /// `len` available bytes into `ioref`, or fails as `range_read_denial`
    /// says and leaves both the stream and `ioref` untouched. When the
    /// cursor's slot alone can serve the request, `ioref` shares that slot's
    /// buffer without copying; otherwise `ioref` owns a freshly stitched
    /// slab. No supply attempt is made here.
    #[verifier::rlimit(80)]
    pub fn get_ioref(&mut self, ioref: &mut IoRef, len: usize) -> (r: Result<(), Error>)
        requires
            old(self).wf(),
            old(self).stream_pos + len <= usize::MAX,
        ensures
            final(self).wf(),
            r matches Err(e) ==> {
                &&& old(self).range_read_denial(len) == Some(e)
                &&& *final(self) == *old(self)
                &&& *final(ioref) == *old(ioref)
            },
            r matches Ok(_) ==> {
                &&& old(self).range_read_denial(len) is None
                &&& final(ioref).valid()
                &&& final(ioref).len == len
                &&& final(ioref).bytes() == old(self).avail().take(len as int)
                &&& final(self).avail() == old(self).avail().skip(len as int)
                &&& final(self).stream_pos == old(self).stream_pos + len
                &&& final(self).ring@ == old(self).ring@
                &&& final(self).ring_add_idx == old(self).ring_add_idx
                &&& final(self).ring_remove_idx == old(self).ring_remove_idx
                &&& (old(self).cur_rem() >= len ==> final(ioref).is_shared()
                    && final(ioref).offset == old(self).ring_cur_pos
                    && final(ioref).shared_buf == Some(
                    old(self).ring@[old(self).ring_cur_idx as int].buf,
                ))
                &&& (old(self).cur_rem() < len ==> final(ioref).is_owned())
            },
    {
        if len == 0 {
            return invalid_input_error();
        }

        proof {
            lemma_cur_at_add_means_no_avail(*self);
        }
        if self.ring_cur_idx == self.ring_add_idx {
            return retry_later_error();
        }

        let ghost pre = *self;
        let ghost cur = pre.ring_cur_idx as int;
        let ghost pos = pre.ring_cur_pos as int;
        let ghost add = pre.ring_add_idx as int;
        let ghost n = ring_dist(cur, add);
        let ghost head = pre.ring@[cur].content().skip(pos);
        proof {
            assert(ring_dist(pre.ring_remove_idx as int, cur) < ring_dist(
                pre.ring_remove_idx as int,
                add,
            ));
            assert(pre.ring@[cur].valid());
            assert(pre.avail() == head + avail_bytes(pre.ring@, ring_nxt(cur), 0, n - 1));
        }

        let cur_buf_remaining = self.ring[self.ring_cur_idx].len - self.ring_cur_pos;

        if cur_buf_remaining >= len {
            // Can serve from the current IoBuf without copying - fast track.
            ioref.shared_buf = Some(self.ring[self.ring_cur_idx].buf.clone());
            ioref.buf = None;
            ioref.offset = self.ring_cur_pos;
            ioref.len = len;

            // Advance position.
            self.ring_cur_pos += len;
            self.stream_pos += len;
            if self.ring_cur_pos == self.ring[self.ring_cur_idx].len {
                self.ring_cur_idx = (self.ring_cur_idx + 1) % RING_SIZE;
                self.ring_cur_pos = 0;
            }

            proof {
                assert(ioref.bytes() =~= pre.avail().take(len as int));
                if pos + len < pre.ring@[cur].len {
                    assert(self.avail() =~= pre.avail().skip(len as int));
                } else {
                    assert(head.len() == len);
                    assert(self.avail() =~= pre.avail().skip(len as int));
                }
            }
            return Ok(());
        }

        // Check if total available data is enough.
        let mut still_needed = len - cur_buf_remaining;
        let mut idx = (self.ring_cur_idx + 1) % RING_SIZE;
        proof {
            assert(avail_bytes(pre.ring@, ring_nxt(cur), 0, n - 1).len() == pre.avail().len()
                - head.len());
        }
        while idx != self.ring_add_idx && still_needed > 0
            invariant
                self.wf(),
                *self == pre,
                0 < len,
                pre.ring_cur_idx != pre.ring_add_idx,
                idx < RING_SIZE,
                1 <= ring_dist(cur, idx as int),
                ring_dist(cur, idx as int) <= ring_dist(cur, add),
                cur == pre.ring_cur_idx as int,
                add == pre.ring_add_idx as int,
                still_needed <= len,
                still_needed > 0 ==> still_needed == len - (pre.avail().len() - avail_bytes(
                    pre.ring@,
                    idx as int,
                    0,
                    ring_dist(idx as int, add),
                ).len()),
                still_needed == 0 ==> pre.avail().len() >= len,
            decreases ring_dist(idx as int, add),
        {
            let ghost scan = idx as int;
            let ghost m = ring_dist(scan, add);
            proof {
                assert(ring_dist(pre.ring_remove_idx as int, scan) < ring_dist(
                    pre.ring_remove_idx as int,
                    add,
                ));
                assert(pre.ring@[scan].valid());
                assert(avail_bytes(pre.ring@, scan, 0, m) == pre.ring@[scan].content()
                    + avail_bytes(pre.ring@, ring_nxt(scan), 0, m - 1));
            }
            let slot_len = self.ring[idx].len;
            if slot_len >= still_needed {
                still_needed = 0;
            } else {
                still_needed = still_needed - slot_len;
            }
            idx = (idx + 1) % RING_SIZE;
        }

        if still_needed > 0 {
            proof {
                assert(idx as int == add);
                assert(avail_bytes(pre.ring@, add, 0, 0).len() == 0);
                assert(pre.avail().len() < len);
            }
            return retry_later_error();
        }

        // Allocate and copy data from multiple IoBufs.
        let mut new_buf: Vec<u8> = Vec::with_capacity(len);
        let mut copied: usize = 0;
        let mut cur_idx = self.ring_cur_idx;
        let mut cur_pos = self.ring_cur_pos;

        while copied < len
            invariant
                self.wf(),
                *self == pre,
                add == pre.ring_add_idx as int,
                copied <= len,
                len <= pre.avail().len(),
                new_buf@ == pre.avail().take(copied as int),
                cur_idx < RING_SIZE,
                ring_dist(pre.ring_remove_idx as int, cur_idx as int) <= pre.occupied_spec(),
                cur_idx == pre.ring_add_idx ==> cur_pos == 0,
                cur_idx != pre.ring_add_idx ==> cur_pos < self.ring@[cur_idx as int].len,
                avail_bytes(
                    self.ring@,
                    cur_idx as int,
                    cur_pos as int,
                    ring_dist(cur_idx as int, pre.ring_add_idx as int),
                ) == pre.avail().skip(copied as int),
            decreases len - copied,
        {
            let ghost walk_idx = cur_idx as int;
            let ghost walk_pos = cur_pos as int;
            let ghost m = ring_dist(walk_idx, add);
            let ghost remaining = pre.avail().skip(copied as int);
            proof {
                assert(remaining.len() == pre.avail().len() - copied);
                if cur_idx == pre.ring_add_idx {
                    assert(remaining.len() == 0);
                    assert(false);
                }
                assert(walk_idx != add);
                if ring_dist(pre.ring_remove_idx as int, walk_idx) == ring_dist(
                    pre.ring_remove_idx as int,
                    add,
                ) {
                    lemma_ring_dist_inj(pre.ring_remove_idx as int, walk_idx, add);
                }
                assert(ring_dist(pre.ring_remove_idx as int, walk_idx) < ring_dist(
                    pre.ring_remove_idx as int,
                    add,
                ));
                assert(self.ring@[walk_idx].valid());
                assert(m > 0);
                assert(avail_bytes(self.ring@, walk_idx, walk_pos, m) == self.ring@[
                    walk_idx
                ].content().skip(walk_pos) + avail_bytes(self.ring@, ring_nxt(walk_idx), 0, m - 1));
                assert(remaining == self.ring@[walk_idx].content().skip(walk_pos) + avail_bytes(
                    self.ring@,
                    ring_nxt(walk_idx),
                    0,
                    m - 1,
                ));
            }
            let b = self.ring[cur_idx].buf[cur_pos];
            new_buf.push(b);
            copied += 1;
            cur_pos += 1;
            if cur_pos == self.ring[cur_idx].len {
                cur_idx = (cur_idx + 1) % RING_SIZE;
                cur_pos = 0;
            }
            proof {
                assert(b == remaining[0]);
                assert(new_buf@ =~= pre.avail().take(copied as int));
                let walked = self.ring@[walk_idx].content().skip(walk_pos);
                if walk_pos + 1 < self.ring@[walk_idx].len {
                    assert(avail_bytes(
                        self.ring@,
                        cur_idx as int,
                        cur_pos as int,
                        ring_dist(cur_idx as int, add),
                    ) =~= remaining.skip(1));
                } else {
                    assert(walked.len() == 1);
                    assert(avail_bytes(
                        self.ring@,
                        cur_idx as int,
                        cur_pos as int,
                        ring_dist(cur_idx as int, add),
                    ) =~= remaining.skip(1));
                }
                assert(remaining.skip(1) =~= pre.avail().skip(copied as int));
            }
        }

        // Advance position.
        self.ring_cur_idx = cur_idx;
        self.ring_cur_pos = cur_pos;
        self.stream_pos += len;

        // Set IoRef to owned buffer.
        ioref.shared_buf = None;
        ioref.buf = Some(new_buf);
        ioref.offset = 0;
        ioref.len = len;

        proof {
            assert(final(ioref).bytes() == pre.avail().take(len as int));
            assert(self.avail() == pre.avail().skip(len as int));
        }

        Ok(())
    }
}

impl<S: IoBufSupply> IoBufRing for MediaSourceStream<S> {
    open spec fn inv(&self) -> bool {
        self.wf()
    }

    fn add_iobuf(&mut self, iobuf: IoBuf) -> (r: Result<(), Error>) {
        self.add_iobuf(iobuf)
    }

    fn remove_iobuf(&mut self) -> (r: Result<IoBuf, Error>) {
        self.remove_iobuf()
    }
}

impl<S: IoBufSupply> MediaIoBufRead for MediaSourceStream<S> {
    open spec fn inv(&self) -> bool {
        self.wf()
    }

    open spec fn pos(&self) -> int {
        self.stream_pos as int
    }

    fn get_u8(&mut self) -> (r: Result<u8, Error>) {
        self.get_u8()
    }

    fn get_ioref(&mut self, ioref: &mut IoRef, len: usize) -> (r: Result<(), Error>) {
        self.get_ioref(ioref, len)
    }
}

/// The demuxer for Matroska-style containers; so far it only pulls bytes
/// from its reader.
pub struct DemuxerMkv<S: MediaIoBufRead> {
    pub iobuf_reader: S,
}

impl<S: MediaIoBufRead> Demux for DemuxerMkv<S> {
    open spec fn inv(&self) -> bool {
        self.iobuf_reader.inv()
    }

    open spec fn pos(&self) -> int {
        self.iobuf_reader.pos()
    }

    fn read_packet(&mut self, packet: &mut Packet<'_>) -> (r: Result<(), Error>)
        ensures
            r matches Ok(_) ==> final(self).pos() == old(self).pos() + 1,
            r matches Err(_) ==> final(self).pos() == old(self).pos(),
    {
        let b = self.iobuf_reader.get_u8()?;
        Ok(())
    }
}

/// Binds a chosen demuxer to a media source stream and routes packet reads
/// to it.
pub struct FormatContext {
    pub demuxer: DemuxerMkv<MediaSourceStream<IoBufSupplierIoUring>>,
}

impl FormatContext {
    /// The context is ready to demux.
    pub open spec fn wf(&self) -> bool {
        self.demuxer.inv()
    }

    /// The absolute number of bytes consumed so far.
    pub open spec fn pos(&self) -> int {
        self.demuxer.pos()
    }

    /// Opens an input: binds a supplier for `uri` to a fresh stream and a
    /// demuxer on top of it. The bound stream starts empty.
    pub fn open_input(uri: &str) -> (r: Self)
        ensures
            r.wf(),
            r.pos() == 0,
            r.demuxer.iobuf_reader.occupied_spec() == 0,
            r.demuxer.iobuf_reader.avail() == Seq::<u8>::empty(),
            r.demuxer.iobuf_reader.ring_remove_idx == 0,
            r.demuxer.iobuf_reader.ring_add_idx == 0,
            r.demuxer.iobuf_reader.ring_cur_idx == 0,
            r.demuxer.iobuf_reader.ring_cur_pos == 0,
    {
        let mut iobuf_supplier = IoBufSupplierIoUring {};
        let _ = iobuf_supplier.open_input(uri);
        let stream = MediaSourceStream::new(iobuf_supplier);
        let demuxer = DemuxerMkv { iobuf_reader: stream };
        Self { demuxer }
    }

    /// Routes a packet read to the bound demuxer and forwards its result
    /// unchanged: a delivered packet consumed one byte of the stream, a
    /// failure consumed none.
    pub fn read_packet(&mut self, packet: &mut Packet<'_>) -> (r: Result<(), Error>)
        requires
            old(self).wf(),
            old(self).pos() < usize::MAX,
        ensures
            final(self).wf(),
            r matches Ok(_) ==> final(self).pos() == old(self).pos() + 1,
            r matches Err(_) ==> final(self).pos() == old(self).pos(),
    {
        self.demuxer.read_packet(packet)
    }
}

/// The cursor sits at the add index exactly when no bytes are available.
proof fn lemma_cur_at_add_means_no_avail<S: IoBufSupply>(s: MediaSourceStream<S>)
    requires
        s.wf(),
    ensures
        (s.ring_cur_idx == s.ring_add_idx) <==> s.avail().len() == 0,
{
    let cur = s.ring_cur_idx as int;
    let add = s.ring_add_idx as int;
    if s.ring_cur_idx != s.ring_add_idx {
        assert(ring_dist(s.ring_remove_idx as int, cur) < ring_dist(
            s.ring_remove_idx as int,
            add,
        ));
        assert(s.ring@[cur].valid());
        let n = ring_dist(cur, add);
        assert(n > 0);
        assert(s.avail() == s.ring@[cur].content().skip(s.ring_cur_pos as int) + avail_bytes(
            s.ring@,
            ring_nxt(cur),
            0,
            n - 1,
        ));
        assert(s.ring@[cur].content().skip(s.ring_cur_pos as int).len() > 0);
    }
}

/// For any well-formed stream, the number of occupied slots lies between 0
/// and `RING_SIZE - 1`: one slot always stays free to tell a full ring from
/// an empty one.
pub proof fn lemma_occupied_bounds<S: IoBufSupply>(s: &MediaSourceStream<S>)
    requires
        s.wf(),
    ensures
        0 <= s.occupied_spec() <= RING_SIZE - 1,
{
}

/// A segment returned by a range read exposes exactly the bytes that `len`
/// successive single-byte reads at the same cursor would return: element `k`
/// of the segment equals the head of the stream once `k` bytes are consumed.
pub proof fn lemma_range_read_matches_byte_reads<S: IoBufSupply>(
    s: &MediaSourceStream<S>,
    len: usize,
)
    requires
        s.wf(),
        len <= s.avail().len(),
    ensures
        forall|k: int|
            0 <= k < len ==> s.avail().take(len as int)[k] == #[trigger] s.avail().skip(k)[0],
{
}

/// When a range read is denied, the stream is left exactly as it was, and
/// the denial depends on the stream state and the requested length alone:
/// repeating the identical call on the unchanged stream is denied
/// identically.
pub proof fn lemma_failed_range_read_repeats<S: IoBufSupply>(
    pre: &MediaSourceStream<S>,
    post: &MediaSourceStream<S>,
    len: usize,
)
    requires
        pre.wf(),
        pre.range_read_denial(len) is Some,
        *post == *pre,
    ensures
        post.range_read_denial(len) == pre.range_read_denial(len),
{
}

/// The ring keeps the FIFO discipline of an unbounded byte queue, however
/// often its indices wrap: bytes already available are unaffected by a later
/// admission, and a read consumes exactly the front of the queue.
pub proof fn lemma_fifo_discipline(avail: Seq<u8>, admitted: Seq<u8>, len: int)
    requires
        0 <= len <= avail.len(),
    ensures
        (avail + admitted).take(len) == avail.take(len),
        (avail + admitted).skip(len) == avail.skip(len) + admitted,
{
    assert((avail + admitted).take(len) =~= avail.take(len));
    assert((avail + admitted).skip(len) =~= avail.skip(len) + admitted);
}

/// Relies on std's `Arc::strong_count`: the number of strong references to
/// the shared allocation. It is at least one, because `buf` itself is one.
/// Nothing more is assumed: other holders may appear or vanish at any time.
#[verifier::external_body]
fn arc_strong_count(buf: &Arc<Vec<u8>>) -> (r: usize)
    ensures
        r >= 1,
{
    Arc::strong_count(buf)
}

} // verus!
