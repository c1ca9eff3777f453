//! The ring-buffer bridge between the audio callback thread and the
//! network thread.
//!
//! The queue is the outside crate's lock-free single-producer,
//! single-consumer ring buffer; each endpoint lives on its own thread.
//! `producer_pushed` and `consumer_popped` name what each endpoint has
//! seen pass through its own side; the other thread runs concurrently,
//! so a snapshot of free or filled slots may be stale by the next call.
//!
//! Samples travel as 32-bit patterns. Each endpoint pairs the queue
//! with a sample timer: the drift between an arriving timestamp and
//! the timer decides whether input samples are dropped (the data was
//! already covered) or silence is inserted (a gap was never produced).

use vstd::prelude::*;
use rtrb::{Consumer, Producer, RingBuffer};

verus! {

#[verifier::external_type_specification]
#[verifier::external_body]
#[verifier::reject_recursive_types(T)]
pub struct ExProducer<T>(Producer<T>);

#[verifier::external_type_specification]
#[verifier::external_body]
#[verifier::reject_recursive_types(T)]
pub struct ExConsumer<T>(Consumer<T>);

/// Every sample this producer has successfully pushed, in order.
pub uninterp spec fn producer_pushed(p: Producer<u32>) -> Seq<u32>;

/// The fixed capacity of the ring buffer behind this producer.
pub uninterp spec fn producer_capacity(p: Producer<u32>) -> nat;

/// Every sample this consumer has successfully popped, in order.
pub uninterp spec fn consumer_popped(c: Consumer<u32>) -> Seq<u32>;

/// The fixed capacity of the ring buffer behind this consumer.
pub uninterp spec fn consumer_capacity(c: Consumer<u32>) -> nat;

/// Relies on `rtrb::RingBuffer::new`: creates an SPSC ring buffer of
/// the given capacity; nothing has passed through either endpoint yet.
#[verifier::external_body]
pub fn rb_new(capacity: usize) -> (r: (Producer<u32>, Consumer<u32>))
    ensures
        producer_pushed(r.0) =~= Seq::empty(),
        consumer_popped(r.1) =~= Seq::empty(),
        producer_capacity(r.0) == capacity,
        consumer_capacity(r.1) == capacity,
{
    RingBuffer::new(capacity)
}

/// Relies on `rtrb::Producer::slots`: a snapshot of the free slots,
/// never more than the capacity. The consumer may free more slots at
/// any moment.
#[verifier::external_body]
pub fn producer_slots(p: &Producer<u32>) -> (n: usize)
    ensures
        n <= producer_capacity(*p),
{
    p.slots()
}

/// Relies on `rtrb::Producer::push`: appends the sample, or returns it
/// back when the buffer is full at this moment.
#[verifier::external_body]
pub fn producer_push(p: &mut Producer<u32>, value: u32) -> (r: Result<(), u32>)
    ensures
        producer_capacity(*final(p)) == producer_capacity(*old(p)),
        match r {
            Ok(()) => producer_pushed(*final(p)) == producer_pushed(*old(p)).push(value),
            Err(v) => v == value && producer_pushed(*final(p)) == producer_pushed(
                *old(p),
            ),
        },
{
    match p.push(value) {
        Ok(()) => Ok(()),
        Err(rtrb::PushError::Full(v)) => Err(v),
    }
}

/// Relies on `rtrb::Producer::is_abandoned`: whether the consumer side
/// was dropped. The answer may be stale by the next call.
#[verifier::external_body]
pub fn producer_is_abandoned(p: &Producer<u32>) -> bool {
    p.is_abandoned()
}

/// Relies on `rtrb::Consumer::slots`: a snapshot of the filled slots,
/// never more than the capacity. The producer may fill more at any
/// moment.
#[verifier::external_body]
pub fn consumer_slots(c: &Consumer<u32>) -> (n: usize)
    ensures
        n <= consumer_capacity(*c),
{
    c.slots()
}

/// Relies on `rtrb::Consumer::pop`: removes and returns the oldest
/// queued sample, or nothing when the buffer is empty at this moment.
#[verifier::external_body]
pub fn consumer_pop(c: &mut Consumer<u32>) -> (r: Option<u32>)
    ensures
        consumer_capacity(*final(c)) == consumer_capacity(*old(c)),
        match r {
            Some(v) => consumer_popped(*final(c)) == consumer_popped(*old(c)).push(v),
            None => consumer_popped(*final(c)) == consumer_popped(*old(c)),
        },
{
    match c.pop() {
        Ok(v) => Some(v),
        Err(rtrb::PopError::Empty) => None,
    }
}

/// Relies on `rtrb::Consumer::is_abandoned`: whether the producer side
/// was dropped. The answer may be stale by the next call.
#[verifier::external_body]
pub fn consumer_is_abandoned(c: &Consumer<u32>) -> bool {
    c.is_abandoned()
}

/// The bit pattern of a silent sample.
pub const SILENCE_BITS: u32 = 0;

/// The frame index of a processing cycle relative to the anchored first
/// cycle. Some engines report non-monotonic cycle counters, so a cycle
/// that appears to lie before the anchor saturates to zero instead of
/// trusting the counter.
pub fn relative_frame_index(start_frame_idx: u64, cycle_frame_index: u64) -> (r: u64)
    ensures
        r == if cycle_frame_index >= start_frame_idx {
            cycle_frame_index - start_frame_idx
        } else {
            0
        },
{
    if cycle_frame_index >= start_frame_idx {
        cycle_frame_index - start_frame_idx
    } else {
        0
    }
}

/// Error returned when a timestamp lies absurdly far from the timer:
/// the drift does not even fit a pointer-sized count of samples.
#[derive(Clone, Copy, Debug, PartialEq, Eq, Structural)]
pub struct HugeDriftError;

/// The samples a send with the given drift tries to enqueue: with a
/// gap (positive drift), that much silence and then all the input;
/// behind the timer (negative drift), the input minus its
/// already-covered prefix.
pub open spec fn send_intent(samples: Seq<u32>, drift: int) -> Seq<u32> {
    if drift >= 0 {
        Seq::new(drift as nat, |i: int| SILENCE_BITS) + samples
    } else if -drift <= samples.len() {
        samples.skip(-drift)
    } else {
        Seq::empty()
    }
}

/// Sends audio into the ring buffer, with a sample timer that tracks
/// missed samples. Everything here counts samples, not frames.
pub struct Sender {
    tx: Producer<u32>,
    zero_timestamp: u64,
    advanced: u64,
}

impl Sender {
    /// Every sample this side has enqueued, in order.
    pub closed spec fn spec_pushed(self) -> Seq<u32> {
        producer_pushed(self.tx)
    }

    /// The timestamp the next enqueued sample accounts for.
    pub closed spec fn spec_expected(self) -> int {
        self.zero_timestamp + self.advanced
    }

    pub closed spec fn spec_capacity(self) -> nat {
        producer_capacity(self.tx)
    }

    /// Wraps a ring-buffer producer; the timer starts at timestamp 0.
    pub fn new(tx: Producer<u32>) -> (r: Self)
        ensures
            r.spec_pushed() == producer_pushed(tx),
            r.spec_capacity() == producer_capacity(tx),
            r.spec_expected() == 0,
    {
        Self { tx, zero_timestamp: 0, advanced: 0 }
    }

    /// Anchors the timer: the next sample accounts for `timestamp`.
    pub fn set_zero_timestamp(&mut self, timestamp: u64)
        ensures
            final(self).spec_pushed() == old(self).spec_pushed(),
            final(self).spec_capacity() == old(self).spec_capacity(),
            final(self).spec_expected() == timestamp,
    {
        self.zero_timestamp = timestamp;
        self.advanced = 0;
    }

    /// Whether the reading side was dropped.
    pub fn is_abandoned(&self) -> bool {
        producer_is_abandoned(&self.tx)
    }

    /// A snapshot of the free slots.
    pub fn available_samples(&self) -> (n: usize)
        ensures
            n <= self.spec_capacity(),
    {
        producer_slots(&self.tx)
    }

    /// Writes `samples` into the ring buffer. The drift between
    /// `timestamp` and the timer decides what enters: silence fills a
    /// gap, an already-covered prefix is dropped. The queue takes the
    /// intended samples in order until it runs out of room; the count
    /// taken is returned, and the timer advances by it.
    pub fn send(&mut self, timestamp: u64, samples: &Vec<u32>) -> (r: Result<
        usize,
        HugeDriftError,
    >)
        requires
            old(self).spec_expected() <= u64::MAX,
            timestamp + samples@.len() <= u64::MAX,
            old(self).spec_expected() + samples@.len() <= u64::MAX,
            samples@.len() <= isize::MAX,
        ensures
            final(self).spec_capacity() == old(self).spec_capacity(),
            ({
                let drift = timestamp - old(self).spec_expected();
                &&& (r is Err <==> (drift > isize::MAX || drift < -(isize::MAX as int)))
                &&& r matches Err(_) ==> *final(self) == *old(self)
                &&& r matches Ok(n) ==> {
                    let intent = send_intent(samples@, drift);
                    &&& n <= intent.len()
                    &&& final(self).spec_pushed() == old(self).spec_pushed()
                        + intent.take(n as int)
                    &&& final(self).spec_expected() == old(self).spec_expected() + n
                }
            }),
    {
        let expected = self.zero_timestamp + self.advanced;
        let ghost drift = timestamp - old(self).spec_expected();
        let out_pad: u64;
        let in_skip: usize;
        if timestamp >= expected {
            let ahead = timestamp - expected;
            if ahead > (isize::MAX as u64) {
                return Err(HugeDriftError);
            }
            out_pad = ahead;
            in_skip = 0;
        } else {
            let behind = expected - timestamp;
            if behind > (isize::MAX as u64) {
                return Err(HugeDriftError);
            }
            out_pad = 0;
            in_skip = if behind > samples.len() as u64 {
                samples.len()
            } else {
                behind as usize
            };
        }
        let ghost intent = send_intent(samples@, drift);
        proof {
            if drift >= 0 {
                assert(intent =~= Seq::new(out_pad as nat, |i: int| SILENCE_BITS)
                    + samples@.skip(in_skip as int));
            } else {
                assert(Seq::new(0, |i: int| SILENCE_BITS) + samples@.skip(in_skip as int)
                    =~= samples@.skip(in_skip as int));
                if -drift <= samples@.len() {
                    assert(intent =~= samples@.skip(in_skip as int));
                } else {
                    assert(samples@.skip(in_skip as int) =~= Seq::<u32>::empty());
                    assert(intent =~= samples@.skip(in_skip as int));
                }
            }
            assert(intent =~= Seq::new(out_pad as nat, |i: int| SILENCE_BITS)
                + samples@.skip(in_skip as int));
        }
        let mut count: usize = 0;
        let mut full = false;
        let mut k: u64 = 0;
        proof {
            assert(intent.take(0) =~= Seq::<u32>::empty());
            assert(old(self).spec_pushed() + Seq::<u32>::empty() =~= old(
                self,
            ).spec_pushed());
        }
        while k < out_pad && !full
            invariant
                k <= out_pad,
                count == k,
                out_pad <= isize::MAX as u64,
                intent =~= Seq::new(out_pad as nat, |i: int| SILENCE_BITS)
                    + samples@.skip(in_skip as int),
                producer_pushed(self.tx) == old(self).spec_pushed() + intent.take(
                    count as int,
                ),
                producer_capacity(self.tx) == old(self).spec_capacity(),
                self.zero_timestamp == old(self).zero_timestamp_spec(),
                self.advanced_spec() == old(self).advanced_spec(),
                full ==> k == count,
            decreases (if full { 0int } else { 1int }), out_pad - k,
        {
            proof {
                assert(intent[k as int] == SILENCE_BITS);
                assert(intent.take(k + 1) =~= intent.take(k as int).push(SILENCE_BITS));
            }
            match producer_push(&mut self.tx, SILENCE_BITS) {
                Ok(()) => {
                    count = count + 1;
                    k = k + 1;
                },
                Err(_) => {
                    full = true;
                },
            }
        }
        let n_samples = samples.len();
        let mut j: usize = in_skip;
        while j < n_samples && !full
            invariant
                in_skip <= j <= n_samples,
                n_samples == samples@.len(),
                n_samples <= isize::MAX,
                count <= out_pad + (j - in_skip),
                !full ==> count == out_pad + (j - in_skip),
                out_pad <= isize::MAX as u64,
                intent =~= Seq::new(out_pad as nat, |i: int| SILENCE_BITS)
                    + samples@.skip(in_skip as int),
                producer_pushed(self.tx) == old(self).spec_pushed() + intent.take(
                    count as int,
                ),
                producer_capacity(self.tx) == old(self).spec_capacity(),
                self.zero_timestamp == old(self).zero_timestamp_spec(),
                self.advanced_spec() == old(self).advanced_spec(),
            decreases (if full { 0int } else { 1int }), n_samples - j,
        {
            let s = samples[j];
            proof {
                assert(intent[count as int] == samples@.skip(in_skip as int)[j
                    - in_skip]);
                assert(samples@.skip(in_skip as int)[j - in_skip] == samples@[j as int]);
                assert(intent.take(count + 1) =~= intent.take(count as int).push(s));
            }
            match producer_push(&mut self.tx, s) {
                Ok(()) => {
                    count = count + 1;
                    j = j + 1;
                },
                Err(_) => {
                    full = true;
                },
            }
        }
        proof {
            assert(count <= intent.len());
        }
        self.advanced = self.advanced + (count as u64);
        Ok(count)
    }

    pub closed spec fn zero_timestamp_spec(self) -> u64 {
        self.zero_timestamp
    }

    pub closed spec fn advanced_spec(self) -> u64 {
        self.advanced
    }
}

/// Receives audio from the ring buffer, with a sample timer that pads
/// gaps with silence and discards already-covered samples.
pub struct Receiver {
    rx: Consumer<u32>,
    zero_timestamp: u64,
    advanced: u64,
}

impl Receiver {
    /// Every sample this side has dequeued, in order.
    pub closed spec fn spec_popped(self) -> Seq<u32> {
        consumer_popped(self.rx)
    }

    /// The timestamp the next dequeued sample accounts for.
    pub closed spec fn spec_expected(self) -> int {
        self.zero_timestamp + self.advanced
    }

    pub closed spec fn spec_capacity(self) -> nat {
        consumer_capacity(self.rx)
    }

    /// Wraps a ring-buffer consumer; the timer starts at timestamp 0.
    pub fn new(rx: Consumer<u32>) -> (r: Self)
        ensures
            r.spec_popped() == consumer_popped(rx),
            r.spec_capacity() == consumer_capacity(rx),
            r.spec_expected() == 0,
    {
        Self { rx, zero_timestamp: 0, advanced: 0 }
    }

    /// Anchors the timer: the next sample accounts for `timestamp`.
    pub fn set_zero_timestamp(&mut self, timestamp: u64)
        ensures
            final(self).spec_popped() == old(self).spec_popped(),
            final(self).spec_capacity() == old(self).spec_capacity(),
            final(self).spec_expected() == timestamp,
    {
        self.zero_timestamp = timestamp;
        self.advanced = 0;
    }

    /// Whether the writing side was dropped.
    pub fn is_abandoned(&self) -> bool {
        consumer_is_abandoned(&self.rx)
    }

    /// A snapshot of the filled slots.
    pub fn n_available_samples(&self) -> (n: usize)
        ensures
            n <= self.spec_capacity(),
    {
        consumer_slots(&self.rx)
    }

    /// Reads `n` samples for the cycle at `timestamp`. Positive drift
    /// means queued samples were already covered: up to that many are
    /// discarded first (the returned count says how many). Negative
    /// drift means the cycle starts before the queued data: that many
    /// leading output samples are silence. Output samples the queue
    /// cannot provide are silence. The timer advances by every sample
    /// dequeued, discarded or delivered.
    pub fn recv(&mut self, timestamp: u64, n: usize) -> (r: Result<
        (Vec<u32>, usize),
        HugeDriftError,
    >)
        requires
            old(self).spec_expected() <= u64::MAX,
            timestamp as int + n <= u64::MAX,
            old(self).spec_expected() + n <= u64::MAX,
            n <= isize::MAX,
        ensures
            final(self).spec_capacity() == old(self).spec_capacity(),
            ({
                let drift = timestamp - old(self).spec_expected();
                let in_skip = if drift >= 0 {
                    drift
                } else {
                    0
                };
                let out_skip = if drift < 0 && -drift <= n {
                    -drift
                } else if drift < 0 {
                    n as int
                } else {
                    0
                };
                &&& (r is Err <==> (drift > isize::MAX || drift < -(isize::MAX as int)))
                &&& r matches Err(_) ==> *final(self) == *old(self)
                &&& r matches Ok((out, discarded)) ==> {
                    let delta = final(self).spec_popped().skip(
                        old(self).spec_popped().len() as int,
                    );
                    let delivered = delta.len() - discarded;
                    &&& final(self).spec_popped().take(old(self).spec_popped().len() as int)
                        == old(self).spec_popped()
                    &&& discarded <= in_skip
                    &&& discarded < in_skip ==> delta.len() == discarded
                    &&& delta.len() >= discarded
                    &&& out_skip + delivered <= n
                    &&& out@.len() == n
                    &&& out@ == Seq::new(out_skip as nat, |i: int| SILENCE_BITS)
                        + delta.skip(discarded as int) + Seq::new(
                        (n - out_skip - delivered) as nat,
                        |i: int| SILENCE_BITS,
                    )
                    &&& final(self).spec_expected() == old(self).spec_expected()
                        + delta.len()
                }
            }),
    {
        let expected = self.zero_timestamp + self.advanced;
        let in_skip: u64;
        let out_skip: usize;
        if timestamp >= expected {
            let ahead = timestamp - expected;
            if ahead > (isize::MAX as u64) {
                return Err(HugeDriftError);
            }
            in_skip = ahead;
            out_skip = 0;
        } else {
            let behind = expected - timestamp;
            if behind > (isize::MAX as u64) {
                return Err(HugeDriftError);
            }
            in_skip = 0;
            out_skip = if behind > n as u64 {
                n
            } else {
                behind as usize
            };
        }
        let ghost popped0 = self.spec_popped();
        let mut discarded: usize = 0;
        let mut empty = false;
        let mut k: u64 = 0;
        while k < in_skip && !empty
            invariant
                k <= in_skip,
                discarded == k,
                in_skip <= isize::MAX as u64,
                consumer_popped(self.rx).len() == popped0.len() + discarded,
                consumer_popped(self.rx).take(popped0.len() as int) == popped0,
                consumer_capacity(self.rx) == old(self).spec_capacity(),
                self.zero_timestamp == old(self).zero_ts_spec(),
                self.advanced_spec() == old(self).advanced_spec(),
            decreases (if empty { 0int } else { 1int }), in_skip - k,
        {
            match consumer_pop(&mut self.rx) {
                Some(_) => {
                    proof {
                        assert(consumer_popped(self.rx).take(popped0.len() as int)
                            =~= popped0);
                    }
                    discarded = discarded + 1;
                    k = k + 1;
                },
                None => {
                    empty = true;
                },
            }
        }
        let mut out: Vec<u32> = Vec::new();
        let mut delivered: usize = 0;
        let mut i: usize = 0;
        while i < out_skip
            invariant
                i <= out_skip,
                out_skip <= n,
                out@ =~= Seq::new(i as nat, |q: int| SILENCE_BITS),
            decreases out_skip - i,
        {
            out.push(SILENCE_BITS);
            proof {
                assert(out@ =~= Seq::new((i + 1) as nat, |q: int| SILENCE_BITS));
            }
            i = i + 1;
        }
        proof {
            assert(consumer_popped(self.rx).skip((popped0.len() + discarded) as int)
                =~= Seq::<u32>::empty());
            assert(out@ + Seq::<u32>::empty() + Seq::new(0, |q: int| SILENCE_BITS)
                =~= out@);
        }
        while i < n
            invariant
                out_skip <= i <= n,
                n <= isize::MAX,
                out@.len() == i,
                discarded <= in_skip,
                in_skip <= isize::MAX as u64,
                delivered <= i - out_skip,
                !empty ==> delivered == i - out_skip,
                discarded < in_skip ==> empty,
                discarded < in_skip ==> delivered == 0,
                consumer_popped(self.rx).len() == popped0.len() + discarded + delivered,
                consumer_popped(self.rx).take(popped0.len() as int) == popped0,
                consumer_capacity(self.rx) == old(self).spec_capacity(),
                self.zero_timestamp == old(self).zero_ts_spec(),
                self.advanced_spec() == old(self).advanced_spec(),
                out@ =~= Seq::new(out_skip as nat, |q: int| SILENCE_BITS)
                    + consumer_popped(self.rx).skip((popped0.len() + discarded) as int)
                    + Seq::new((i - out_skip - delivered) as nat, |q: int| SILENCE_BITS),
            decreases (if empty { 0int } else { 1int }), n - i,
        {
            let ghost mid0 = consumer_popped(self.rx).skip(
                (popped0.len() + discarded) as int,
            );
            if empty {
                out.push(SILENCE_BITS);
                proof {
                    assert(out@ =~= Seq::new(out_skip as nat, |q: int| SILENCE_BITS)
                        + mid0 + Seq::new(
                        (i + 1 - out_skip - delivered) as nat,
                        |q: int| SILENCE_BITS,
                    ));
                }
            } else {
                match consumer_pop(&mut self.rx) {
                    Some(v) => {
                        out.push(v);
                        delivered = delivered + 1;
                        proof {
                            assert(consumer_popped(self.rx).take(popped0.len() as int)
                                =~= popped0);
                            assert(consumer_popped(self.rx).skip((popped0.len()
                                + discarded) as int) =~= mid0.push(v));
                            assert(out@ =~= Seq::new(out_skip as nat, |q: int| SILENCE_BITS)
                                + mid0.push(v) + Seq::new(0, |q: int| SILENCE_BITS));
                        }
                    },
                    None => {
                        empty = true;
                        out.push(SILENCE_BITS);
                        proof {
                            assert(out@ =~= Seq::new(out_skip as nat, |q: int| SILENCE_BITS)
                                + mid0 + Seq::new(
                                (i + 1 - out_skip - delivered) as nat,
                                |q: int| SILENCE_BITS,
                            ));
                        }
                    },
                }
            }
            i = i + 1;
        }
        let taken = discarded + delivered;
        self.advanced = self.advanced + (taken as u64);
        proof {
            let delta = consumer_popped(self.rx).skip(popped0.len() as int);
            assert(delta.len() == discarded + delivered);
            assert(delta.skip(discarded as int) =~= consumer_popped(self.rx).skip((
            popped0.len() + discarded) as int));
            assert(out@ =~= Seq::new(out_skip as nat, |q: int| SILENCE_BITS) + delta.skip(
                discarded as int,
            ) + Seq::new((n - out_skip - delivered) as nat, |q: int| SILENCE_BITS));
        }
        Ok((out, discarded))
    }

    pub closed spec fn zero_ts_spec(self) -> u64 {
        self.zero_timestamp
    }

    pub closed spec fn advanced_spec(self) -> u64 {
        self.advanced
    }
}

} // verus!
