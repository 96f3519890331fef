//! Running statistics over a sequence of echo probes: how many came back,
//! and the fastest, slowest and total round-trip times.

use vstd::prelude::*;

verus! {

/// Accumulates round-trip times of the probes that succeeded.
pub struct PingStats {
    /// Replies received so far.
    pub received: u32,
    /// Sum of all round-trip times, in microseconds.
    pub total_micros: u64,
    /// Fastest round trip; `u64::MAX` until a reply arrives.
    pub min_micros: u64,
    /// Slowest round trip; zero until a reply arrives.
    pub max_micros: u64,
}

impl PingStats {
    /// Statistics before any probe has answered.
    pub fn new() -> (r: PingStats)
        ensures
            r.received == 0,
            r.total_micros == 0,
            r.min_micros == u64::MAX,
            r.max_micros == 0,
    {
        PingStats { received: 0, total_micros: 0, min_micros: u64::MAX, max_micros: 0 }
    }

    /// Folds one successful round trip into the statistics.
    pub fn record_success(&mut self, micros: u64)
        requires
            old(self).received < u32::MAX,
            old(self).total_micros + micros <= u64::MAX,
        ensures
            final(self).received == old(self).received + 1,
            final(self).total_micros == old(self).total_micros + micros,
            final(self).min_micros == if micros < old(self).min_micros {
                micros
            } else {
                old(self).min_micros
            },
            final(self).max_micros == if micros > old(self).max_micros {
                micros
            } else {
                old(self).max_micros
            },
    {
        self.received = self.received + 1;
        self.total_micros = self.total_micros + micros;
        if micros < self.min_micros {
            self.min_micros = micros;
        }
        if micros > self.max_micros {
            self.max_micros = micros;
        }
    }

    /// Mean round-trip time of the replies received.
    pub fn avg_micros(&self) -> (r: u64)
        requires
            self.received > 0,
        ensures
            r == self.total_micros as int / self.received as int,
    {
        self.total_micros / (self.received as u64)
    }
}

} // verus!
