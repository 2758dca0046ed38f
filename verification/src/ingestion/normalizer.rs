//! One stream of events out of the ticks of all feeds.
use crate::events::Event;
use crate::types::Tick;
use vstd::prelude::*;

verus! {

/// After how many ticks progress is reported.
pub const REPORT_EVERY: u64 = 1000;

/// Turns raw ticks of all feeds into normalized events and counts them.
pub struct Normalizer {
    count: u64,
}

impl Normalizer {
    /// How many events were delivered.
    pub closed spec fn delivered(&self) -> u64 {
        self.count
    }

    /// A normalizer that has delivered nothing.
    pub fn new() -> (r: Normalizer)
        ensures
            r.delivered() == 0,
    {
        Normalizer { count: 0 }
    }

    /// The event for a tick.
    pub fn normalize<N>(&self, tick: Tick) -> (r: Event<N>)
        ensures
            r == Event::<N>::Tick(tick),
    {
        Event::Tick(tick)
    }

    /// Takes note that an event was delivered, and says whether it is time to report
    /// progress.
    pub fn note_delivery(&mut self) -> (r: bool)
        requires
            old(self).delivered() < u64::MAX,
        ensures
            final(self).delivered() == old(self).delivered() + 1,
            r == (final(self).delivered() % REPORT_EVERY == 0),
            r <==> final(self).delivered() % 1000 == 0,
    {
        self.count = self.count + 1;
        self.count % REPORT_EVERY == 0
    }

    /// How many events were delivered.
    pub fn count(&self) -> (r: u64)
        ensures
            r == self.delivered(),
    {
        self.count
    }
}

} // verus!
