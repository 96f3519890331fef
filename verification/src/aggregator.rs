//! The result aggregator: collects one outcome per scanned port and, once
//! every probe has settled, exposes the report as a single sequence sorted
//! ascending by port. Recording a port is one O(log n) update of a slot
//! that runs parallel to the fixed, ascending port list, so an insert never
//! reads or rewrites its neighbours and no update can be lost.

use vstd::prelude::*;

use crate::ports::strictly_ascending;
use crate::probe::ProbeOutcome;

verus! {

/// How a `record` call ended.
#[derive(Clone, Copy, Debug, PartialEq, Eq, Structural)]
pub enum RecordStatus {
    /// The outcome was stored.
    Recorded,
    /// The port is not part of this scan; nothing changed.
    UnknownPort,
    /// The port already has an outcome, which is kept; nothing changed.
    AlreadyRecorded,
}

/// How many slots hold an outcome.
pub open spec fn count_some(s: Seq<Option<ProbeOutcome>>) -> int
    decreases s.len(),
{
    if s.len() == 0 {
        0
    } else {
        count_some(s.drop_last()) + if s.last() is Some {
            1int
        } else {
            0int
        }
    }
}

pub proof fn lemma_count_some_le_len(s: Seq<Option<ProbeOutcome>>)
    ensures
        0 <= count_some(s) <= s.len(),
    decreases s.len(),
{
    if s.len() > 0 {
        lemma_count_some_le_len(s.drop_last());
    }
}

/// A slot that is still empty keeps the count strictly below the length.
pub proof fn lemma_count_some_with_none(s: Seq<Option<ProbeOutcome>>, k: int)
    requires
        0 <= k < s.len(),
        s[k] is None,
    ensures
        count_some(s) <= s.len() - 1,
    decreases s.len(),
{
    if k == s.len() - 1 {
        lemma_count_some_le_len(s.drop_last());
    } else {
        lemma_count_some_with_none(s.drop_last(), k);
    }
}

/// A full count means every slot holds an outcome.
pub proof fn lemma_count_some_full(s: Seq<Option<ProbeOutcome>>)
    requires
        count_some(s) == s.len(),
    ensures
        forall|i: int| 0 <= i < s.len() ==> s[i] is Some,
    decreases s.len(),
{
    if s.len() > 0 {
        lemma_count_some_le_len(s.drop_last());
        lemma_count_some_full(s.drop_last());
        assert forall|i: int| 0 <= i < s.len() implies s[i] is Some by {
            if i < s.len() - 1 {
                assert(s.drop_last()[i] is Some);
            }
        }
    }
}

/// Updating a `None` slot to `Some` raises the count by one.
pub proof fn lemma_count_some_update(s: Seq<Option<ProbeOutcome>>, k: int, o: ProbeOutcome)
    requires
        0 <= k < s.len(),
        s[k] is None,
    ensures
        count_some(s.update(k, Some(o))) == count_some(s) + 1,
    decreases s.len(),
{
    let t = s.update(k, Some(o));
    if k == s.len() - 1 {
        assert(t.drop_last() =~= s.drop_last());
    } else {
        assert(t.drop_last() =~= s.drop_last().update(k, Some(o)));
        lemma_count_some_update(s.drop_last(), k, o);
    }
}

/// The index a port occupies in an ascending port list.
pub open spec fn spec_index_of(ports: Seq<u16>, p: u16) -> int {
    choose|i: int| 0 <= i < ports.len() && ports[i] == p
}

/// In an ascending list the occupied index is unique and well defined.
pub proof fn lemma_index_of(ports: Seq<u16>, p: u16)
    requires
        strictly_ascending(ports),
        ports.contains(p),
    ensures
        0 <= spec_index_of(ports, p) < ports.len(),
        ports[spec_index_of(ports, p)] == p,
        forall|i: int| 0 <= i < ports.len() && ports[i] == p ==> i == spec_index_of(ports, p),
{
    let k = spec_index_of(ports, p);
    assert(exists|i: int| 0 <= i < ports.len() && ports[i] == p);
    assert(0 <= k < ports.len() && ports[k] == p);
    assert forall|i: int| 0 <= i < ports.len() && ports[i] == p implies i == k by {
        if i < k {
            assert(ports[i] < ports[k]);
        } else if i > k {
            assert(ports[k] < ports[i]);
        }
    }
}

/// Collects per-port outcomes of one scan. The port list is fixed at
/// construction; each port owns one outcome slot.
pub struct Aggregator {
    /// The ports of the scan, ascending and duplicate-free.
    pub ports: Vec<u16>,
    /// One outcome slot per port, in the same order.
    pub slots: Vec<Option<ProbeOutcome>>,
    /// How many slots hold an outcome.
    pub recorded: usize,
}

impl Aggregator {
    /// The structural invariant every operation preserves.
    pub open spec fn wf(self) -> bool {
        &&& strictly_ascending(self.ports@)
        &&& self.slots@.len() == self.ports@.len()
        &&& self.recorded == count_some(self.slots@)
    }

    /// Whether `p` is one of the scanned ports.
    pub open spec fn has_port(self, p: u16) -> bool {
        self.ports@.contains(p)
    }

    /// The outcome recorded for a scanned port, if any yet.
    pub open spec fn outcome_of(self, p: u16) -> Option<ProbeOutcome> {
        self.slots@[spec_index_of(self.ports@, p)]
    }

    /// Every slot holds an outcome: the scan has fully settled.
    pub open spec fn complete(self) -> bool {
        forall|i: int| 0 <= i < self.slots@.len() ==> self.slots@[i] is Some
    }

    /// The final report: each port beside its outcome, ascending by port.
    pub open spec fn spec_snapshot(self) -> Seq<(u16, ProbeOutcome)> {
        Seq::new(self.ports@.len(), |i: int| (self.ports@[i], self.slots@[i]->0))
    }

    /// An empty collector over an ascending port list.
    pub fn new(ports: Vec<u16>) -> (r: Aggregator)
        requires
            strictly_ascending(ports@),
        ensures
            r.wf(),
            r.ports@ == ports@,
            r.recorded == 0,
            forall|i: int| 0 <= i < r.slots@.len() ==> r.slots@[i] is None,
    {
        let n = ports.len();
        let mut slots: Vec<Option<ProbeOutcome>> = Vec::new();
        let mut i: usize = 0;
        while i < n
            invariant
                0 <= i <= n,
                slots@.len() == i,
                count_some(slots@) == 0,
                forall|j: int| 0 <= j < i ==> slots@[j] is None,
            decreases n - i,
        {
            proof {
                assert(slots@.push(Option::<ProbeOutcome>::None).drop_last() =~= slots@);
            }
            slots.push(None);
            i = i + 1;
        }
        Aggregator { ports, slots, recorded: 0 }
    }

    /// Number of ports in the scan.
    pub fn len(&self) -> (r: usize)
        ensures
            r == self.ports@.len(),
    {
        self.ports.len()
    }

    /// Binary search for a port in the ascending list.
    pub fn find_port(&self, p: u16) -> (r: Option<usize>)
        requires
            self.wf(),
        ensures
            match r {
                Some(i) => self.has_port(p) && i < self.ports@.len() && self.ports@[i as int]
                    == p && i as int == spec_index_of(self.ports@, p),
                None => !self.has_port(p),
            },
    {
        let mut lo: usize = 0;
        let mut hi: usize = self.ports.len();
        while lo < hi
            invariant
                0 <= lo <= hi <= self.ports@.len(),
                strictly_ascending(self.ports@),
                forall|i: int| 0 <= i < lo ==> #[trigger] self.ports@[i] < p,
                forall|i: int| hi <= i < self.ports@.len() ==> p < #[trigger] self.ports@[i],
            decreases hi - lo,
        {
            let mid = lo + (hi - lo) / 2;
            if self.ports[mid] == p {
                proof {
                    assert(self.ports@[mid as int] == p);
                    assert(self.has_port(p));
                    lemma_index_of(self.ports@, p);
                }
                return Some(mid);
            } else if self.ports[mid] < p {
                proof {
                    assert forall|i: int| 0 <= i < mid + 1 implies #[trigger] self.ports@[i]
                        < p by {
                        if i < mid {
                            assert(self.ports@[i] < self.ports@[mid as int]);
                        }
                    }
                }
                lo = mid + 1;
            } else {
                proof {
                    assert forall|i: int| mid <= i < self.ports@.len() implies p
                        < #[trigger] self.ports@[i] by {
                        if i > mid {
                            assert(self.ports@[mid as int] < self.ports@[i]);
                        }
                    }
                }
                hi = mid;
            }
        }
        proof {
            if self.has_port(p) {
                let k = choose|k: int| 0 <= k < self.ports@.len() && self.ports@[k] == p;
                assert(self.ports@[k] == p);
            }
        }
        None
    }

    /// Stores the outcome of one settled probe. The operation is a single
    /// slot update: for two different ports, two calls land in two
    /// different slots, so neither can erase the other (see
    /// `lemma_record_commutes`). A port outside the scan or a port already
    /// recorded leaves the collector unchanged.
    pub fn record(&mut self, port: u16, outcome: ProbeOutcome) -> (st: RecordStatus)
        requires
            old(self).wf(),
        ensures
            final(self).wf(),
            final(self).ports@ == old(self).ports@,
            st == RecordStatus::UnknownPort <==> !old(self).has_port(port),
            st == RecordStatus::AlreadyRecorded <==> old(self).has_port(port)
                && old(self).outcome_of(port) is Some,
            st == RecordStatus::Recorded <==> old(self).has_port(port)
                && old(self).outcome_of(port) is None,
            st == RecordStatus::Recorded ==> final(self).slots@ == old(self).slots@.update(
                spec_index_of(old(self).ports@, port),
                Some(outcome),
            ) && final(self).recorded == old(self).recorded + 1,
            st != RecordStatus::Recorded ==> final(self).slots@ == old(self).slots@
                && final(self).recorded == old(self).recorded,
    {
        match self.find_port(port) {
            None => RecordStatus::UnknownPort,
            Some(i) => {
                proof {
                    assert(self.ports@[i as int] == port);
                    assert(self.has_port(port));
                    lemma_index_of(self.ports@, port);
                    assert(spec_index_of(self.ports@, port) == i as int);
                }
                if self.slots[i].is_some() {
                    RecordStatus::AlreadyRecorded
                } else {
                    proof {
                        lemma_count_some_with_none(self.slots@, i as int);
                        lemma_count_some_update(self.slots@, i as int, outcome);
                        assert(self.recorded < self.slots@.len());
                    }
                    self.slots.set(i, Some(outcome));
                    let n = self.slots.len();
                    assert(self.recorded < n);
                    self.recorded = self.recorded + 1;
                    RecordStatus::Recorded
                }
            },
        }
    }

    /// Whether the port may still be recorded.
    pub fn is_pending(&self, port: u16) -> (r: bool)
        requires
            self.wf(),
        ensures
            r == (self.has_port(port) && self.outcome_of(port) is None),
    {
        match self.find_port(port) {
            None => false,
            Some(i) => {
                proof {
                    lemma_index_of(self.ports@, port);
                }
                self.slots[i].is_none()
            },
        }
    }

    /// Whether every probe of the scan has settled.
    pub fn is_complete(&self) -> (r: bool)
        requires
            self.wf(),
        ensures
            r == self.complete(),
    {
        let r = self.recorded == self.ports.len();
        proof {
            if r {
                lemma_count_some_full(self.slots@);
            } else {
                lemma_count_some_le_len(self.slots@);
                if self.complete() {
                    lemma_count_some_all_some(self.slots@);
                }
            }
        }
        r
    }

    /// The final report, sorted ascending by port, one entry per scanned
    /// port. Callable once every probe has settled.
    pub fn snapshot(&self) -> (r: Vec<(u16, ProbeOutcome)>)
        requires
            self.wf(),
            self.complete(),
        ensures
            r@ == self.spec_snapshot(),
            r@.len() == self.ports@.len(),
            forall|i: int, j: int| 0 <= i < j < r@.len() ==> (#[trigger] r@[i]).0 < (#[trigger] r@[j]).0,
    {
        let n = self.ports.len();
        let mut r: Vec<(u16, ProbeOutcome)> = Vec::new();
        let mut i: usize = 0;
        while i < n
            invariant
                0 <= i <= n,
                n == self.ports@.len(),
                self.wf(),
                self.complete(),
                r@ =~= self.spec_snapshot().take(i as int),
            decreases n - i,
        {
            let o = match self.slots[i] {
                Some(o) => o,
                None => {
                    proof {
                        assert(false);
                    }
                    ProbeOutcome::TimedOut
                },
            };
            r.push((self.ports[i], o));
            proof {
                assert(r@ =~= self.spec_snapshot().take(i + 1));
            }
            i = i + 1;
        }
        proof {
            assert(r@ =~= self.spec_snapshot());
        }
        r
    }
}

/// If every slot holds an outcome, the count is the length.
pub proof fn lemma_count_some_all_some(s: Seq<Option<ProbeOutcome>>)
    requires
        forall|i: int| 0 <= i < s.len() ==> s[i] is Some,
    ensures
        count_some(s) == s.len(),
    decreases s.len(),
{
    if s.len() > 0 {
        assert(forall|i: int| 0 <= i < s.len() - 1 ==> s.drop_last()[i] is Some);
        lemma_count_some_all_some(s.drop_last());
    }
}

/// The report is a function of the port list and of the outcome each port
/// settled with: the order in which probes completed leaves no trace.
pub proof fn lemma_snapshot_deterministic(a1: Aggregator, a2: Aggregator)
    requires
        a1.wf(),
        a2.wf(),
        a1.complete(),
        a2.complete(),
        a1.ports@ == a2.ports@,
        forall|p: u16| a1.has_port(p) ==> a1.outcome_of(p) == a2.outcome_of(p),
    ensures
        a1.spec_snapshot() == a2.spec_snapshot(),
{
    assert forall|i: int| 0 <= i < a1.slots@.len() implies a1.slots@[i] == a2.slots@[i] by {
        let p = a1.ports@[i];
        assert(a1.ports@.contains(p));
        lemma_index_of(a1.ports@, p);
        assert(spec_index_of(a1.ports@, p) == i);
        assert(a1.outcome_of(p) == a1.slots@[i]);
        assert(a2.outcome_of(p) == a2.slots@[i]);
    }
    assert(a1.spec_snapshot() =~= a2.spec_snapshot());
}

/// No lost updates: recording two different ports in either order leaves
/// the collector in the same state, holding both outcomes.
pub proof fn lemma_record_commutes(
    s: Seq<Option<ProbeOutcome>>,
    i: int,
    j: int,
    a: ProbeOutcome,
    b: ProbeOutcome,
)
    requires
        0 <= i < s.len(),
        0 <= j < s.len(),
        i != j,
    ensures
        s.update(i, Some(a)).update(j, Some(b)) == s.update(j, Some(b)).update(i, Some(a)),
{
    assert(s.update(i, Some(a)).update(j, Some(b)) =~= s.update(j, Some(b)).update(i, Some(a)));
}

} // verus!
