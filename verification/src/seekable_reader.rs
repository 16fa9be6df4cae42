//! Buffering adapter that grants random-access reads over a forward-only
//! byte source. Every byte the source ever yields is retained in an
//! append-only buffer, and reads and seeks are served from that buffer; the
//! caller pulls chunks from its source and feeds them in whenever the
//! adapter asks for more.

use vstd::prelude::*;
use vstd::slice::{slice_subrange, slice_to_vec};

verus! {

/// Buffering seek adapter over a forward-only byte source.
///
/// The caller drives it with the cycle: while `read` (or a seek) `wants`
/// more bytes, pull one chunk from the source and `feed` it (an empty chunk
/// marks exhaustion); then complete the operation, which is answered from
/// the buffer alone.
pub struct SeekableReader {
    buffer: Vec<u8>,
    position: usize,
    end_reached: bool,
}

impl SeekableReader {
    /// Everything read from the source so far, in order.
    pub closed spec fn buffer_spec(&self) -> Seq<u8> {
        self.buffer@
    }

    /// The cursor into the buffer.
    pub closed spec fn position_spec(&self) -> int {
        self.position as int
    }

    /// Whether the source has signalled exhaustion.
    pub closed spec fn end_spec(&self) -> bool {
        self.end_reached
    }

    /// The cursor never passes the end of the buffer.
    pub open spec fn wf(&self) -> bool {
        0 <= self.position_spec() <= self.buffer_spec().len()
    }

    /// A new adapter with an empty buffer.
    pub fn new() -> (r: Self)
        ensures
            r.wf(),
            r.buffer_spec() =~= Seq::<u8>::empty(),
            r.position_spec() == 0,
            !r.end_spec(),
    {
        SeekableReader { buffer: Vec::new(), position: 0, end_reached: false }
    }

    /// The current position in the buffer.
    pub fn position(&self) -> (r: usize)
        ensures
            r == self.position_spec(),
    {
        self.position
    }

    /// Whether the underlying source has reached its end.
    pub fn is_end_reached(&self) -> (r: bool)
        ensures
            r == self.end_spec(),
    {
        self.end_reached
    }

    /// How many bytes have been buffered so far.
    pub fn buffer_len(&self) -> (r: usize)
        ensures
            r == self.buffer_spec().len(),
    {
        self.buffer.len()
    }

    /// Whether satisfying a read of `n` bytes at the cursor needs more data
    /// from the source.
    pub fn wants(&self, n: usize) -> (r: bool)
        requires
            self.wf(),
            self.position_spec() + n <= usize::MAX,
        ensures
            r == (self.position_spec() + n > self.buffer_spec().len() && !self.end_spec()),
    {
        self.position + n > self.buffer.len() && !self.end_reached
    }

    /// Whether seeking to absolute position `p` needs more data from the
    /// source.
    pub fn wants_until(&self, p: usize) -> (r: bool)
        requires
            self.wf(),
        ensures
            r == (p > self.buffer_spec().len() && !self.end_spec()),
    {
        p > self.buffer.len() && !self.end_reached
    }

    /// Takes one chunk pulled from the source: appends it to the buffer, or
    /// records exhaustion if it is empty (a source read that returned zero
    /// bytes).
    pub fn feed(&mut self, chunk: &[u8])
        requires
            old(self).wf(),
            old(self).buffer_spec().len() + chunk@.len() <= usize::MAX,
        ensures
            final(self).wf(),
            final(self).position_spec() == old(self).position_spec(),
            chunk@.len() == 0 ==> final(self).buffer_spec() == old(self).buffer_spec()
                && final(self).end_spec(),
            chunk@.len() > 0 ==> final(self).buffer_spec() == old(self).buffer_spec() + chunk@
                && final(self).end_spec() == old(self).end_spec(),
    {
        if chunk.len() == 0 {
            self.end_reached = true;
        } else {
            self.buffer.extend_from_slice(chunk);
        }
    }

    /// Copies up to `n` bytes at the cursor out of the buffer and advances
    /// the cursor; returns fewer than `n` bytes only when the buffer ends
    /// before `position + n`. Under the caller cycle this happens only at
    /// true end-of-source.
    pub fn read_buffered(&mut self, n: usize) -> (r: Vec<u8>)
        requires
            old(self).wf(),
            old(self).position_spec() + n <= usize::MAX,
        ensures
            final(self).wf(),
            final(self).buffer_spec() == old(self).buffer_spec(),
            final(self).end_spec() == old(self).end_spec(),
            r@ == old(self).buffer_spec().subrange(
                old(self).position_spec(),
                if old(self).position_spec() + n <= old(self).buffer_spec().len() {
                    old(self).position_spec() + n
                } else {
                    old(self).buffer_spec().len() as int
                },
            ),
            final(self).position_spec() == old(self).position_spec() + r@.len(),
    {
        let available = self.buffer.len() - self.position;
        let to_copy = if n < available {
            n
        } else {
            available
        };
        let out = slice_to_vec(
            slice_subrange(self.buffer.as_slice(), self.position, self.position + to_copy),
        );
        self.position = self.position + to_copy;
        out
    }

    /// Seeks to absolute position `p`, clamped to the buffered length; the
    /// caller must first feed chunks until `wants_until(p)` is false.
    pub fn seek_start(&mut self, p: usize) -> (r: usize)
        requires
            old(self).wf(),
            !(p > old(self).buffer_spec().len() && !old(self).end_spec()),
        ensures
            final(self).wf(),
            final(self).buffer_spec() == old(self).buffer_spec(),
            final(self).end_spec() == old(self).end_spec(),
            final(self).position_spec() == if p <= old(self).buffer_spec().len() {
                p as int
            } else {
                old(self).buffer_spec().len() as int
            },
            r == final(self).position_spec(),
    {
        let len = self.buffer.len();
        self.position = if p < len {
            p
        } else {
            len
        };
        self.position
    }

    /// Computes the absolute target of a relative seek, saturating at zero;
    /// the caller then drives `seek_start` at that target.
    pub fn relative_target(&self, offset: i64) -> (r: usize)
        requires
            self.wf(),
        ensures
            offset >= 0 ==> r == if self.position_spec() + offset <= usize::MAX {
                self.position_spec() + offset
            } else {
                usize::MAX as int
            },
            offset < 0 ==> r == if self.position_spec() + offset >= 0 {
                self.position_spec() + offset
            } else {
                0
            },
    {
        if offset >= 0 {
            if self.position as u64 <= u64::MAX - (offset as u64) {
                let t = self.position as u64 + offset as u64;
                if t <= usize::MAX as u64 {
                    t as usize
                } else {
                    usize::MAX
                }
            } else {
                usize::MAX
            }
        } else {
            let back = (-(offset as i128)) as u64;
            if (back as u64) <= self.position as u64 {
                self.position - back as usize
            } else {
                0
            }
        }
    }

    /// Seeks to the end of the buffer; the caller must first feed chunks
    /// until the source is exhausted. Returns the final length.
    pub fn seek_end(&mut self) -> (r: usize)
        requires
            old(self).wf(),
            old(self).end_spec(),
        ensures
            final(self).wf(),
            final(self).buffer_spec() == old(self).buffer_spec(),
            final(self).end_spec() == old(self).end_spec(),
            final(self).position_spec() == old(self).buffer_spec().len(),
            r == final(self).position_spec(),
    {
        self.position = self.buffer.len();
        self.position
    }
}

impl SeekableReader {
    /// Seek-adapter equivalence: once the source is drained into the
    /// adapter, reading `k` bytes after a seek to `p` yields exactly the
    /// sub-slice `[p, p + k)` of the drained source, for every in-range `p`
    /// and `k`. The body is nothing but `seek_start` followed by
    /// `read_buffered`; the conclusion follows from their contracts alone.
    pub fn read_at(&mut self, p: usize, k: usize) -> (r: Vec<u8>)
        requires
            old(self).wf(),
            old(self).end_spec(),
            p + k <= old(self).buffer_spec().len(),
        ensures
            final(self).wf(),
            final(self).buffer_spec() == old(self).buffer_spec(),
            r@ == old(self).buffer_spec().subrange(p as int, p + k),
    {
        let total = self.buffer_len();
        proof {
            assert(p + k <= total);
        }
        self.seek_start(p);
        self.read_buffered(k)
    }
}

} // verus!
