//! A counter that tracks progress through fixed-size periods.
//!
//! Each time the counter advances past a multiple of its period, a boundary
//! is considered crossed. The network thread is woken once per call that
//! crosses at least one boundary; the counter itself only does the counting.

use vstd::prelude::*;

verus! {

/// Tracks a position inside a repeating period of a fixed size.
///
/// Invariant: `current < period` and `period >= 1`.
pub struct PeriodicCounter {
    period: usize,
    current: usize,
}

impl PeriodicCounter {
    /// Well-formedness: the period is positive and the position lies inside it.
    pub closed spec fn wf(self) -> bool {
        &&& self.period >= 1
        &&& self.current < self.period
    }

    pub closed spec fn spec_period(self) -> usize {
        self.period
    }

    pub closed spec fn spec_current(self) -> usize {
        self.current
    }

    /// Creates a new counter with the given `period`, starting at position 0.
    pub fn new(period: usize) -> (r: Self)
        requires
            period >= 1,
        ensures
            r.wf(),
            r.spec_period() == period,
            r.spec_current() == 0,
    {
        Self { period, current: 0 }
    }

    /// Returns the configured period (or chunk size).
    pub fn period(&self) -> (r: usize)
        ensures
            r == self.spec_period(),
    {
        self.period
    }

    /// Advances the counter by `n` steps.
    ///
    /// Returns the number of period boundaries crossed, which for every `n`
    /// equals `(current + n) / period`; the position becomes
    /// `(current + n) % period`.
    pub fn advance(&mut self, n: usize) -> (boundaries: usize)
        requires
            old(self).wf(),
            old(self).spec_current() + n <= usize::MAX,
        ensures
            final(self).wf(),
            final(self).spec_period() == old(self).spec_period(),
            boundaries == (old(self).spec_current() + n) as int / old(self).spec_period() as int,
            final(self).spec_current() == (old(self).spec_current() + n) as int % old(
                self,
            ).spec_period() as int,
    {
        let next_non_wrapped = self.current + n;
        self.current = next_non_wrapped % self.period;
        next_non_wrapped / self.period
    }
}


/// Decides when to wake the network thread: a periodic counter over
/// chunk-sized sample counts. Each advance that crosses at least one
/// boundary asks for exactly one signal; the caller delivers it by
/// unparking the bound thread. The useless variant never signals, so
/// the same code paths work when no wake-up is needed.
pub struct Waker {
    counter: PeriodicCounter,
    useless: bool,
}

impl Waker {
    pub closed spec fn spec_counter(self) -> PeriodicCounter {
        self.counter
    }

    pub closed spec fn spec_useless(self) -> bool {
        self.useless
    }

    pub open spec fn wf(self) -> bool {
        self.spec_counter().wf()
    }

    /// A waker that signals after every `chunk_size_spls` samples.
    pub fn new(chunk_size_spls: usize) -> (r: Self)
        requires
            chunk_size_spls >= 1,
        ensures
            r.wf(),
            !r.spec_useless(),
            r.spec_counter().spec_period() == chunk_size_spls,
            r.spec_counter().spec_current() == 0,
    {
        Self { counter: PeriodicCounter::new(chunk_size_spls), useless: false }
    }

    /// A waker that never signals.
    pub fn useless() -> (r: Self)
        ensures
            r.wf(),
            r.spec_useless(),
    {
        Self { counter: PeriodicCounter::new(1), useless: true }
    }

    /// Returns the chunk size, in samples.
    pub fn chunk_size_samples(&self) -> (r: usize)
        ensures
            r == self.spec_counter().spec_period(),
    {
        self.counter.period()
    }

    /// Advances the waker by `n` samples; the result says whether the
    /// bound thread must be signalled now. A useful waker asks for a
    /// signal exactly when a chunk boundary was crossed, and at most
    /// once per call however many boundaries were crossed.
    pub fn advance(&mut self, n: usize) -> (wake: bool)
        requires
            old(self).wf(),
            old(self).spec_counter().spec_current() + n <= usize::MAX,
        ensures
            final(self).wf(),
            final(self).spec_useless() == old(self).spec_useless(),
            final(self).spec_counter().spec_period() == old(
                self,
            ).spec_counter().spec_period(),
            wake == (!old(self).spec_useless() && (old(self).spec_counter().spec_current()
                + n) as int / (old(self).spec_counter().spec_period() as int) >= 1),
    {
        let boundaries = self.counter.advance(n);
        boundaries >= 1 && !self.useless
    }
}

} // verus!
