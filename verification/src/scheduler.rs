//! The bounded scheduler: issues one probe per port of an ascending port
//! list, never holding more probes in flight than a fixed ceiling, and
//! feeds every settled outcome to the aggregator. Ports are issued in
//! ascending order; completions may arrive in any order; the final report
//! is sorted and complete regardless.
//!
//! The session here is the decision core alone: callers drive it with
//! `issue_next` when a probe may start and `complete` when one settles,
//! and perform the actual network work between the two.

use vstd::prelude::*;

use crate::aggregator::{
    count_some, lemma_count_some_full, lemma_count_some_with_none, lemma_index_of, spec_index_of,
    Aggregator, RecordStatus,
};
use crate::ports::strictly_ascending;
use crate::probe::ProbeOutcome;

verus! {

/// Why a scan could not start.
#[derive(Clone, Copy, Debug, PartialEq, Eq, Structural)]
pub enum ConfigError {
    /// The concurrency ceiling must be at least one.
    ZeroCeiling,
}

/// One scan invocation: the concurrency ceiling, the per-probe deadline,
/// how far issuing has advanced, how many probes are in flight, and the
/// collected outcomes.
pub struct ScanSession {
    /// Concurrency ceiling; at least one.
    pub ceiling: usize,
    /// Deadline applied to each probe.
    pub timeout_micros: u64,
    /// How many ports have been issued, always the first of the list.
    pub issued: usize,
    /// Probes issued but not yet settled.
    pub in_flight: usize,
    /// The per-port outcomes.
    pub agg: Aggregator,
}

/// A count of `Some` slots ignores a tail of empty ones.
proof fn lemma_count_some_tail_none(s: Seq<Option<ProbeOutcome>>, m: int)
    requires
        0 <= m <= s.len(),
        forall|i: int| m <= i < s.len() ==> s[i] is None,
    ensures
        count_some(s) == count_some(s.take(m)),
    decreases s.len() - m,
{
    if m == s.len() {
        assert(s.take(m) =~= s);
    } else {
        assert(s.last() is None);
        assert(s.drop_last().take(m) =~= s.take(m));
        lemma_count_some_tail_none(s.drop_last(), m);
    }
}

impl ScanSession {
    /// The ports of this scan.
    pub open spec fn ports(self) -> Seq<u16> {
        self.agg.ports@
    }

    /// The structural invariant every operation preserves. In particular
    /// the probes in flight never exceed the ceiling.
    pub open spec fn wf(self) -> bool {
        &&& self.ceiling >= 1
        &&& self.agg.wf()
        &&& self.issued <= self.ports().len()
        &&& self.in_flight <= self.ceiling
        &&& self.agg.recorded + self.in_flight == self.issued
        &&& forall|i: int|
            self.issued <= i < self.agg.slots@.len() ==> self.agg.slots@[i] is None
    }

    /// Every port issued and every probe settled.
    pub open spec fn done(self) -> bool {
        self.issued == self.ports().len() && self.in_flight == 0
    }

    /// A port that has been issued but has no outcome yet.
    pub open spec fn outstanding(self, port: u16) -> bool {
        &&& self.agg.has_port(port)
        &&& spec_index_of(self.ports(), port) < self.issued
        &&& self.agg.outcome_of(port) is None
    }

    /// Starts a session over an ascending port list. A ceiling of zero is
    /// rejected before anything is issued.
    pub fn new(ports: Vec<u16>, ceiling: usize, timeout_micros: u64) -> (r: Result<
        ScanSession,
        ConfigError,
    >)
        requires
            strictly_ascending(ports@),
        ensures
            ceiling == 0 <==> r is Err,
            r matches Err(e) ==> e == ConfigError::ZeroCeiling,
            r matches Ok(s) ==> s.wf() && s.ceiling == ceiling && s.timeout_micros
                == timeout_micros && s.ports() == ports@ && s.issued == 0 && s.in_flight == 0,
    {
        if ceiling == 0 {
            return Err(ConfigError::ZeroCeiling);
        }
        let agg = Aggregator::new(ports);
        Ok(ScanSession { ceiling, timeout_micros, issued: 0, in_flight: 0, agg })
    }

    /// Whether another probe may be issued now: ports remain and the
    /// ceiling leaves room.
    pub fn can_issue(&self) -> (r: bool)
        requires
            self.wf(),
        ensures
            r == (self.issued < self.ports().len() && self.in_flight < self.ceiling),
    {
        self.issued < self.agg.len() && self.in_flight < self.ceiling
    }

    /// Issues the next port, in ascending order, taking one unit of the
    /// admission gate. Returns the port to probe.
    pub fn issue_next(&mut self) -> (port: u16)
        requires
            old(self).wf(),
            old(self).issued < old(self).ports().len(),
            old(self).in_flight < old(self).ceiling,
        ensures
            final(self).wf(),
            port == old(self).ports()[old(self).issued as int],
            final(self).issued == old(self).issued + 1,
            final(self).in_flight == old(self).in_flight + 1,
            final(self).agg == old(self).agg,
            final(self).ceiling == old(self).ceiling,
            final(self).timeout_micros == old(self).timeout_micros,
            final(self).outstanding(port),
    {
        let n = self.agg.len();
        assert(self.issued < n);
        let port = self.agg.ports[self.issued];
        self.issued = self.issued + 1;
        self.in_flight = self.in_flight + 1;
        proof {
            assert(self.ports().contains(port)) by {
                assert(self.ports()[self.issued - 1] == port);
            }
            lemma_index_of(self.ports(), port);
        }
        port
    }

    /// Whether `port` is an issued probe that has not settled yet.
    pub fn is_outstanding(&self, port: u16) -> (r: bool)
        requires
            self.wf(),
        ensures
            r == self.outstanding(port),
    {
        match self.agg.find_port(port) {
            None => false,
            Some(i) => {
                proof {
                    lemma_index_of(self.ports(), port);
                }
                i < self.issued && self.slot_is_none(i)
            },
        }
    }

    /// Reads whether a slot is still empty.
    fn slot_is_none(&self, i: usize) -> (r: bool)
        requires
            i < self.agg.slots@.len(),
        ensures
            r == (self.agg.slots@[i as int] is None),
    {
        self.agg.slots[i].is_none()
    }

    /// Settles one outstanding probe: stores its outcome and releases its
    /// unit of the admission gate. The outcome, like every outcome, is
    /// recorded whether open, closed or timed out.
    pub fn complete(&mut self, port: u16, outcome: ProbeOutcome)
        requires
            old(self).wf(),
            old(self).outstanding(port),
        ensures
            final(self).wf(),
            final(self).issued == old(self).issued,
            final(self).in_flight == old(self).in_flight - 1,
            final(self).ceiling == old(self).ceiling,
            final(self).timeout_micros == old(self).timeout_micros,
            final(self).ports() == old(self).ports(),
            final(self).agg.slots@ == old(self).agg.slots@.update(
                spec_index_of(old(self).ports(), port),
                Some(outcome),
            ),
            final(self).agg.outcome_of(port) == Some(outcome),
    {
        proof {
            lemma_index_of(self.ports(), port);
            let idx = spec_index_of(self.ports(), port);
            lemma_count_some_tail_none(self.agg.slots@, self.issued as int);
            lemma_count_some_with_none(self.agg.slots@.take(self.issued as int), idx);
        }
        let st = self.agg.record(port, outcome);
        proof {
            assert(st == RecordStatus::Recorded);
            assert(self.in_flight >= 1);
        }
        self.in_flight = self.in_flight - 1;
        proof {
            let idx = spec_index_of(self.ports(), port);
            assert forall|i: int|
                self.issued <= i < self.agg.slots@.len() implies self.agg.slots@[i] is None by {
                assert(self.agg.slots@[i] == old(self).agg.slots@[i]);
            }
            lemma_index_of(self.ports(), port);
        }
    }

    /// Whether the whole scan has settled.
    pub fn is_done(&self) -> (r: bool)
        requires
            self.wf(),
        ensures
            r == self.done(),
    {
        self.issued == self.agg.len() && self.in_flight == 0
    }

    /// The final report once the scan is done: one entry per submitted
    /// port — exactly `issued` many — sorted ascending by port, however
    /// completions were interleaved.
    pub fn snapshot(&self) -> (r: Vec<(u16, ProbeOutcome)>)
        requires
            self.wf(),
            self.done(),
        ensures
            r@ == self.agg.spec_snapshot(),
            r@.len() == self.issued,
            r@.len() == self.ports().len(),
            forall|i: int, j: int| 0 <= i < j < r@.len() ==> (#[trigger] r@[i]).0 < (#[trigger] r@[j]).0,
    {
        proof {
            lemma_count_some_full(self.agg.slots@);
        }
        self.agg.snapshot()
    }
}

/// The admission gate is never over-subscribed: a well-formed session
/// keeps the probes in flight at or below the ceiling, whatever sequence
/// of issues and completions produced it.
pub proof fn lemma_ceiling_respected(s: ScanSession)
    requires
        s.wf(),
    ensures
        s.in_flight <= s.ceiling,
{
}

/// The report a scan of `ports` yields when the probe of `ports[i]`
/// settles with `outcomes[i]`.
pub open spec fn spec_scan_result(ports: Seq<u16>, outcomes: Seq<ProbeOutcome>) -> Seq<
    (u16, ProbeOutcome),
> {
    Seq::new(ports.len(), |i: int| (ports[i], outcomes[i]))
}

/// Runs a whole scan against a deterministic backend, one that answers
/// the probe of `ports[i]` with `outcomes[i]`: issues every port through
/// the session and settles it, then reads the report.
pub fn run_scan(
    ports: Vec<u16>,
    ceiling: usize,
    timeout_micros: u64,
    outcomes: &Vec<ProbeOutcome>,
) -> (r: Result<Vec<(u16, ProbeOutcome)>, ConfigError>)
    requires
        strictly_ascending(ports@),
        outcomes@.len() == ports@.len(),
    ensures
        ceiling == 0 <==> r is Err,
        r matches Ok(v) ==> v@ == spec_scan_result(ports@, outcomes@),
{
    let ghost ps = ports@;
    let mut session = match ScanSession::new(ports, ceiling, timeout_micros) {
        Err(e) => {
            return Err(e);
        },
        Ok(s) => s,
    };
    let n = outcomes.len();
    let mut i: usize = 0;
    while i < n
        invariant
            0 <= i <= n,
            session.wf(),
            session.ports() == ps,
            n == ps.len(),
            outcomes@.len() == ps.len(),
            session.issued == i,
            session.in_flight == 0,
            session.ceiling >= 1,
            session.agg.slots@ =~= Seq::new(
                ps.len(),
                |j: int|
                    if j < i {
                        Some(outcomes@[j])
                    } else {
                        None
                    },
            ),
        decreases n - i,
    {
        let port = session.issue_next();
        proof {
            lemma_index_of(ps, port);
            assert(spec_index_of(ps, port) == i as int);
        }
        session.complete(port, outcomes[i]);
        proof {
            assert(session.agg.slots@ =~= Seq::new(
                ps.len(),
                |j: int|
                    if j < i + 1 {
                        Some(outcomes@[j])
                    } else {
                        None
                    },
            ));
        }
        i = i + 1;
    }
    let report = session.snapshot();
    proof {
        assert(report@ =~= spec_scan_result(ps, outcomes@));
    }
    Ok(report)
}

/// The ports a report lists as open.
pub open spec fn open_ports_of(r: Seq<(u16, ProbeOutcome)>) -> Set<u16> {
    Set::new(
        |p: u16|
            exists|i: int|
                0 <= i < r.len() && (#[trigger] r[i]).0 == p && r[i].1 matches
                    ProbeOutcome::Open { .. },
    )
}

/// Scanning is idempotent against a deterministic backend: two runs over
/// the same port list whose probes settle with the same outcomes produce
/// the same report, and so the same set of open ports.
pub proof fn lemma_scan_idempotent(
    ports: Seq<u16>,
    outcomes: Seq<ProbeOutcome>,
    r1: Seq<(u16, ProbeOutcome)>,
    r2: Seq<(u16, ProbeOutcome)>,
)
    requires
        r1 == spec_scan_result(ports, outcomes),
        r2 == spec_scan_result(ports, outcomes),
    ensures
        r1 == r2,
        open_ports_of(r1) == open_ports_of(r2),
{
}

/// The open ports of a report, in report order.
pub open spec fn spec_open_list(r: Seq<(u16, ProbeOutcome)>) -> Seq<u16>
    decreases r.len(),
{
    if r.len() == 0 {
        Seq::empty()
    } else {
        spec_open_list(r.drop_last()) + if r.last().1 matches ProbeOutcome::Open { .. } {
            seq![r.last().0]
        } else {
            Seq::empty()
        }
    }
}

/// Extracts the open ports of a report, keeping the report's order.
pub fn open_ports_from(report: &Vec<(u16, ProbeOutcome)>) -> (r: Vec<u16>)
    ensures
        r@ == spec_open_list(report@),
{
    let mut r: Vec<u16> = Vec::new();
    let mut i: usize = 0;
    proof {
        assert(report@.take(0) =~= Seq::<(u16, ProbeOutcome)>::empty());
    }
    while i < report.len()
        invariant
            0 <= i <= report@.len(),
            r@ == spec_open_list(report@.take(i as int)),
        decreases report@.len() - i,
    {
        let (port, outcome) = report[i];
        proof {
            assert(report@.take(i + 1).drop_last() =~= report@.take(i as int));
            assert(report@.take(i + 1).last() == report@[i as int]);
        }
        match outcome {
            ProbeOutcome::Open { .. } => {
                r.push(port);
                proof {
                    assert(r@ =~= spec_open_list(report@.take(i + 1)));
                }
            },
            _ => {
                proof {
                    assert(r@ =~= spec_open_list(report@.take(i + 1)));
                }
            },
        }
        i = i + 1;
    }
    proof {
        assert(report@.take(report@.len() as int) =~= report@);
    }
    r
}

} // verus!
