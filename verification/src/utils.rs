//! Small primitives for predictable, low-latency data pipelines: an
//! inactivity timer, a cursor that fills a fixed buffer, and a writer
//! that chains two buffers into one destination.
//!
//! Time enters as a plain millisecond count on a monotonic clock.

use vstd::prelude::*;

verus! {

/// Tracks the instant a peer was last heard from, for heartbeat and
/// inactivity timeouts over connectionless transports.
#[derive(Clone, Copy, Debug, PartialEq, Eq, Structural)]
pub struct ConnectionTimer {
    started_at_ms: u64,
}

impl ConnectionTimer {
    pub closed spec fn spec_started_at(self) -> u64 {
        self.started_at_ms
    }

    /// Creates a new timer starting at the given instant.
    pub fn new(now_ms: u64) -> (r: Self)
        ensures
            r.spec_started_at() == now_ms,
    {
        Self { started_at_ms: now_ms }
    }

    /// Resets the timer to start measuring elapsed time from `now_ms`,
    /// discarding any previously accumulated elapsed duration.
    pub fn reset(&mut self, now_ms: u64)
        ensures
            final(self).spec_started_at() == now_ms,
    {
        self.started_at_ms = now_ms;
    }

    /// Returns the time elapsed since the last reset. The clock is
    /// monotonic, so `now_ms` never lies before the last reset.
    pub fn elapsed(&self, now_ms: u64) -> (r: u64)
        requires
            now_ms >= self.spec_started_at(),
        ensures
            r == now_ms - self.spec_started_at(),
    {
        now_ms - self.started_at_ms
    }
}

/// A destination that accepts bytes and remembers, abstractly, every
/// byte it has taken, in order.
pub trait ByteWriter {
    /// The bytes this writer has accepted so far.
    spec fn taken(&self) -> Seq<u8>;

    /// Writes as much of `buf[start..]` as fits; returns how many bytes
    /// were accepted. Zero means the writer is out of room (or the
    /// input was empty).
    fn write(&mut self, buf: &Vec<u8>, start: usize) -> (n: usize)
        requires
            start <= buf@.len(),
        ensures
            n <= buf@.len() - start,
            final(self).taken() == old(self).taken() + buf@.subrange(
                start as int,
                start + n,
            ),
    ;
}

/// A cursor over a preallocated buffer whose tail is not yet
/// meaningful: the first `initialized()` bytes have been written, and
/// nothing beyond them may be read.
pub struct UninitCursor {
    storage: Vec<u8>,
    pos: usize,
}

impl UninitCursor {
    /// The cursor position: how many bytes have been initialized.
    pub closed spec fn spec_pos(self) -> usize {
        self.pos
    }

    /// The full backing buffer, initialized or not.
    pub closed spec fn storage_view(self) -> Seq<u8> {
        self.storage@
    }

    pub closed spec fn storage_vec_spec(self) -> Vec<u8> {
        self.storage
    }

    /// Well-formedness: the position lies within the buffer. Every
    /// operation of the cursor itself preserves this.
    pub open spec fn wf(self) -> bool {
        self.spec_pos() <= self.storage_view().len()
    }

    /// The number of bytes, from the start of the buffer, that have
    /// been initialized. This value never decreases.
    pub fn initialized(&self) -> (r: usize)
        ensures
            r == self.spec_pos(),
            self.wf() ==> r == self.taken().len(),
    {
        self.pos
    }

    /// Returns the underlying full buffer backing this cursor,
    /// including the bytes beyond the cursor position, whose values are
    /// meaningless.
    pub fn inner(&self) -> (r: &Vec<u8>)
        ensures
            r@ == self.storage_view(),
    {
        &self.storage
    }

    /// Returns the backing buffer mutably, for manual initialization;
    /// the cursor position is untouched, so writing past it leaves the
    /// cursor's own accounting behind.
    pub fn inner_mut(&mut self) -> (r: &mut Vec<u8>)
        ensures
            *r == old(self).storage_vec_spec(),
            final(self).storage_vec_spec() == *final(r),
            final(self).spec_pos() == old(self).spec_pos(),
    {
        &mut self.storage
    }

    /// Creates a new cursor over a byte buffer. Initially no bytes are
    /// considered initialized.
    pub fn new(storage: Vec<u8>) -> (r: Self)
        ensures
            r.wf(),
            r.taken() == Seq::<u8>::empty(),
            r.storage_view() == storage@,
    {
        proof {
            assert(storage@.take(0) =~= Seq::<u8>::empty());
        }
        Self { storage, pos: 0 }
    }
}

impl ByteWriter for UninitCursor {
    closed spec fn taken(&self) -> Seq<u8> {
        self.storage@.take(
            if self.pos <= self.storage@.len() {
                self.pos as int
            } else {
                self.storage@.len() as int
            },
        )
    }

    /// Copies bytes into the buffer at the cursor, up to the remaining
    /// capacity, and advances the cursor.
    fn write(&mut self, buf: &Vec<u8>, start: usize) -> (n: usize)
        ensures
            old(self).wf() ==> final(self).wf(),
            final(self).storage_view().len() == old(self).storage_view().len(),
    {
        if self.pos >= self.storage.len() {
            proof {
                assert(old(self).taken() + buf@.subrange(start as int, start as int)
                    =~= old(self).taken());
            }
            return 0;
        }
        let slen = self.storage.len();
        let blen = buf.len();
        let remaining = slen - self.pos;
        let offered = blen - start;
        let to_write = if offered < remaining {
            offered
        } else {
            remaining
        };
        let mut k: usize = 0;
        while k < to_write
            invariant
                k <= to_write,
                start + to_write <= blen,
                blen == buf@.len(),
                slen == self.storage@.len(),
                old(self).pos + to_write <= slen,
                self.pos == old(self).pos + k,
                self.storage@.len() == old(self).storage@.len(),
                old(self).pos <= old(self).storage@.len(),
                self.storage@.take(self.pos as int) =~= old(self).storage@.take(
                    old(self).pos as int,
                ) + buf@.subrange(start as int, start + k),
            decreases to_write - k,
        {
            let ghost st0 = self.storage@;
            let ghost p0 = self.pos;
            let ghost k0 = k;
            let b = buf[start + k];
            self.storage.set(self.pos, b);
            self.pos = self.pos + 1;
            k = k + 1;
            proof {
                assert(self.storage@ == st0.update(p0 as int, b));
                assert(self.storage@.take(self.pos as int) =~= st0.take(p0 as int).push(
                    b,
                ));
                assert(st0.take(p0 as int).push(b) =~= (old(self).storage@.take(
                    old(self).pos as int,
                ) + buf@.subrange(start as int, start + k0)).push(b));
                assert((old(self).storage@.take(old(self).pos as int) + buf@.subrange(
                    start as int,
                    start + k0,
                )).push(b) =~= old(self).storage@.take(old(self).pos as int)
                    + buf@.subrange(start as int, start + k));
            }
        }
        proof {
            assert(self.taken() =~= old(self).taken() + buf@.subrange(
                start as int,
                start + to_write,
            ));
        }
        to_write
    }
}

/// A writer that chains two writers together: the first is used until
/// it stops accepting data, after which everything goes to the second.
///
/// This treats two fixed-size buffers as a single contiguous
/// destination without copying between them.
pub struct ChainedWriter<W1, W2> {
    first: W1,
    second: W2,
    using_first: bool,
}

impl<W1: ByteWriter, W2: ByteWriter> ChainedWriter<W1, W2> {
    /// Everything this chain has accepted: what the first writer took
    /// followed by what the second took.
    pub closed spec fn taken(self) -> Seq<u8> {
        self.first.taken() + self.second.taken()
    }

    /// Well-formedness: while the first writer is in use, the second
    /// has taken nothing yet.
    pub closed spec fn wf(self) -> bool {
        self.using_first ==> self.second.taken() == Seq::<u8>::empty()
    }

    /// Creates a chained writer from two underlying writers; the second
    /// must be fresh.
    pub fn new(first: W1, second: W2) -> (r: Self)
        requires
            second.taken() == Seq::<u8>::empty(),
        ensures
            r.wf(),
            r.taken() == first.taken() + second.taken(),
            r.taken() == first.taken(),
    {
        proof {
            assert(first.taken() + second.taken() =~= first.taken());
        }
        Self { first, second, using_first: true }
    }

    /// Writes into the chain: the first writer is used until it accepts
    /// fewer bytes than offered, after which all subsequent bytes go to
    /// the second writer.
    pub fn write(&mut self, buf: &Vec<u8>, start: usize) -> (n: usize)
        requires
            old(self).wf(),
            start <= buf@.len(),
        ensures
            final(self).wf(),
            n <= buf@.len() - start,
            final(self).taken() == old(self).taken() + buf@.subrange(
                start as int,
                start + n,
            ),
    {
        let mut total: usize = 0;
        let blen = buf.len();
        if self.using_first {
            let n1 = self.first.write(buf, start);
            total = n1;
            if start + n1 < blen {
                self.using_first = false;
                let n2 = self.second.write(buf, start + n1);
                total = n1 + n2;
                proof {
                    assert((old(self).first.taken() + buf@.subrange(
                        start as int,
                        start + n1,
                    )) + (old(self).second.taken() + buf@.subrange(
                        start + n1,
                        start + n1 + n2,
                    )) =~= (old(self).first.taken() + old(self).second.taken())
                        + buf@.subrange(start as int, start + n1 + n2));
                }
            } else {
                proof {
                    assert((old(self).first.taken() + buf@.subrange(
                        start as int,
                        start + n1,
                    )) + old(self).second.taken() =~= (old(self).first.taken() + old(
                        self,
                    ).second.taken()) + buf@.subrange(start as int, start + n1));
                }
            }
        } else {
            let n2 = self.second.write(buf, start);
            total = n2;
            proof {
                assert(old(self).first.taken() + (old(self).second.taken()
                    + buf@.subrange(start as int, start + n2)) =~= (old(
                    self,
                ).first.taken() + old(self).second.taken()) + buf@.subrange(
                    start as int,
                    start + n2,
                ));
            }
        }
        total
    }
}

} // verus!
