//! Classification of a single probe: one bounded-time attempt against an
//! address and port. Every failure mode becomes a classified outcome; no
//! probe result is an error that could abort a scan.

use vstd::prelude::*;

verus! {

/// Why a probe is considered closed.
#[derive(Clone, Copy, Debug, PartialEq, Eq, Structural)]
pub enum CloseReason {
    /// The connection was actively refused.
    Refused,
    /// The host could not be reached at all.
    Unreachable,
    /// A datagram could not be sent.
    SendFailed,
    /// Any other I/O failure before the deadline.
    Other,
}

/// The classified result of one probe.
#[derive(Clone, Copy, Debug, PartialEq, Eq, Structural)]
pub enum ProbeOutcome {
    /// The endpoint accepted within the deadline.
    Open { latency_micros: u64 },
    /// The endpoint failed before the deadline, for the given reason.
    Closed { reason: CloseReason },
    /// The deadline passed first.
    TimedOut,
    /// A datagram went out and nothing came back inside the reply window.
    SentNoResponse,
    /// A datagram went out and a reply arrived after the given time.
    SentWithResponse { latency_micros: u64 },
}

/// How one TCP connection attempt ended, as reported by the transport.
#[derive(Clone, Copy, Debug, PartialEq, Eq, Structural)]
pub enum TcpIoEvent {
    Connected,
    Refused,
    Unreachable,
    OtherError,
}

/// The outcome of a TCP probe whose I/O ended with `event` after
/// `io_micros`, raced against a deadline of `timeout_micros`: the deadline
/// wins whenever the I/O takes longer, whatever the I/O would have said.
pub open spec fn spec_classify_tcp(event: TcpIoEvent, io_micros: u64, timeout_micros: u64) -> ProbeOutcome {
    if io_micros > timeout_micros {
        ProbeOutcome::TimedOut
    } else {
        match event {
            TcpIoEvent::Connected => ProbeOutcome::Open { latency_micros: io_micros },
            TcpIoEvent::Refused => ProbeOutcome::Closed { reason: CloseReason::Refused },
            TcpIoEvent::Unreachable => ProbeOutcome::Closed { reason: CloseReason::Unreachable },
            TcpIoEvent::OtherError => ProbeOutcome::Closed { reason: CloseReason::Other },
        }
    }
}

/// Classifies one TCP connection attempt.
pub fn classify_tcp_probe(event: TcpIoEvent, io_micros: u64, timeout_micros: u64) -> (r:
    ProbeOutcome)
    ensures
        r == spec_classify_tcp(event, io_micros, timeout_micros),
{
    if io_micros > timeout_micros {
        ProbeOutcome::TimedOut
    } else {
        match event {
            TcpIoEvent::Connected => ProbeOutcome::Open { latency_micros: io_micros },
            TcpIoEvent::Refused => ProbeOutcome::Closed { reason: CloseReason::Refused },
            TcpIoEvent::Unreachable => ProbeOutcome::Closed { reason: CloseReason::Unreachable },
            TcpIoEvent::OtherError => ProbeOutcome::Closed { reason: CloseReason::Other },
        }
    }
}

/// A probe that outlives its deadline times out and is never reported
/// open, even when the underlying attempt would have succeeded.
pub proof fn lemma_timeout_never_open(event: TcpIoEvent, io_micros: u64, timeout_micros: u64)
    requires
        io_micros > timeout_micros,
    ensures
        spec_classify_tcp(event, io_micros, timeout_micros) == ProbeOutcome::TimedOut,
        !(spec_classify_tcp(event, io_micros, timeout_micros) matches ProbeOutcome::Open {
            ..
        }),
{
}

/// The outcome of a UDP probe: sending is what can fail; a missing reply is
/// not a failure, only the absence of one. `reply_micros` is the time after
/// which a reply arrived inside the reply window, if any did.
pub open spec fn spec_classify_udp(
    send_ok: bool,
    send_micros: u64,
    timeout_micros: u64,
    reply_micros: Option<u64>,
) -> ProbeOutcome {
    if send_micros > timeout_micros {
        ProbeOutcome::TimedOut
    } else if !send_ok {
        ProbeOutcome::Closed { reason: CloseReason::SendFailed }
    } else {
        match reply_micros {
            Option::Some(m) => ProbeOutcome::SentWithResponse { latency_micros: m },
            Option::None => ProbeOutcome::SentNoResponse,
        }
    }
}

/// Classifies one UDP send-and-listen attempt.
pub fn classify_udp_probe(
    send_ok: bool,
    send_micros: u64,
    timeout_micros: u64,
    reply_micros: Option<u64>,
) -> (r: ProbeOutcome)
    ensures
        r == spec_classify_udp(send_ok, send_micros, timeout_micros, reply_micros),
{
    if send_micros > timeout_micros {
        ProbeOutcome::TimedOut
    } else if !send_ok {
        ProbeOutcome::Closed { reason: CloseReason::SendFailed }
    } else {
        match reply_micros {
            Some(m) => ProbeOutcome::SentWithResponse { latency_micros: m },
            None => ProbeOutcome::SentNoResponse,
        }
    }
}

} // verus!
