use netdiag::aggregator::{Aggregator, RecordStatus};
use netdiag::probe::{
    classify_tcp_probe, classify_udp_probe, CloseReason, ProbeOutcome, TcpIoEvent,
};
use netdiag::scheduler::{open_ports_from, run_scan, ConfigError, ScanSession};

#[test]
fn zero_ceiling_is_rejected() {
    let r = ScanSession::new(vec![80, 443], 0, 1000);
    assert!(matches!(r, Err(ConfigError::ZeroCeiling)));
}

#[test]
fn scheduler_respects_the_ceiling() {
    let mut s = ScanSession::new(vec![1, 2, 3, 4, 5], 2, 1000).unwrap();
    assert!(s.can_issue());
    let p1 = s.issue_next();
    assert!(s.can_issue());
    let p2 = s.issue_next();
    // Two probes in flight under a ceiling of two: nothing more may start.
    assert!(!s.can_issue());
    assert_eq!((p1, p2), (1, 2));
    s.complete(p1, ProbeOutcome::TimedOut);
    assert!(s.can_issue());
}

#[test]
fn snapshot_holds_every_submitted_port_despite_completion_order() {
    let ports = vec![22, 80, 443];
    let mut s = ScanSession::new(ports, 3, 1000).unwrap();
    let a = s.issue_next();
    let b = s.issue_next();
    let c = s.issue_next();
    // Settle in reverse of submission order.
    s.complete(c, ProbeOutcome::Open { latency_micros: 30 });
    s.complete(b, ProbeOutcome::Closed { reason: CloseReason::Refused });
    s.complete(a, ProbeOutcome::Open { latency_micros: 10 });
    assert!(s.is_done());
    let report = s.snapshot();
    assert_eq!(report.len(), 3);
    let ps: Vec<u16> = report.iter().map(|e| e.0).collect();
    assert_eq!(ps, vec![22, 80, 443]);
    assert_eq!(report[0].1, ProbeOutcome::Open { latency_micros: 10 });
    assert_eq!(report[2].1, ProbeOutcome::Open { latency_micros: 30 });
}

#[test]
fn repeated_scans_of_a_fixed_backend_are_identical() {
    // A fake backend that reports port 80 open and everything else closed.
    let ports = vec![22, 80, 443];
    let outcomes: Vec<ProbeOutcome> = ports
        .iter()
        .map(|&p| {
            if p == 80 {
                ProbeOutcome::Open { latency_micros: 1 }
            } else {
                ProbeOutcome::Closed { reason: CloseReason::Refused }
            }
        })
        .collect();
    let r1 = run_scan(ports.clone(), 2, 500, &outcomes).unwrap();
    let r2 = run_scan(ports.clone(), 2, 500, &outcomes).unwrap();
    assert_eq!(r1, r2);
    assert_eq!(open_ports_from(&r1), vec![80]);
    assert_eq!(open_ports_from(&r2), vec![80]);
}

#[test]
fn aggregator_rejects_unknown_and_duplicate_ports() {
    let mut a = Aggregator::new(vec![10, 20]);
    assert_eq!(a.record(30, ProbeOutcome::TimedOut), RecordStatus::UnknownPort);
    assert_eq!(
        a.record(10, ProbeOutcome::Open { latency_micros: 5 }),
        RecordStatus::Recorded
    );
    // The first outcome is kept.
    assert_eq!(a.record(10, ProbeOutcome::TimedOut), RecordStatus::AlreadyRecorded);
    assert!(!a.is_complete());
    assert_eq!(a.record(20, ProbeOutcome::TimedOut), RecordStatus::Recorded);
    assert!(a.is_complete());
    let snap = a.snapshot();
    assert_eq!(snap[0], (10, ProbeOutcome::Open { latency_micros: 5 }));
    assert_eq!(snap[1], (20, ProbeOutcome::TimedOut));
}

#[test]
fn slow_probe_times_out_even_if_it_would_succeed() {
    // The I/O finished after the deadline: the race is lost, whatever the
    // transport would have reported.
    let r = classify_tcp_probe(TcpIoEvent::Connected, 5001, 5000);
    assert_eq!(r, ProbeOutcome::TimedOut);
    let r = classify_tcp_probe(TcpIoEvent::Refused, 9999, 100);
    assert_eq!(r, ProbeOutcome::TimedOut);
}

#[test]
fn tcp_probe_classification() {
    assert_eq!(
        classify_tcp_probe(TcpIoEvent::Connected, 400, 5000),
        ProbeOutcome::Open { latency_micros: 400 }
    );
    assert_eq!(
        classify_tcp_probe(TcpIoEvent::Refused, 400, 5000),
        ProbeOutcome::Closed { reason: CloseReason::Refused }
    );
    assert_eq!(
        classify_tcp_probe(TcpIoEvent::Unreachable, 400, 5000),
        ProbeOutcome::Closed { reason: CloseReason::Unreachable }
    );
    assert_eq!(
        classify_tcp_probe(TcpIoEvent::OtherError, 400, 5000),
        ProbeOutcome::Closed { reason: CloseReason::Other }
    );
}

#[test]
fn udp_probe_classification() {
    assert_eq!(
        classify_udp_probe(true, 10, 5000, Some(250)),
        ProbeOutcome::SentWithResponse { latency_micros: 250 }
    );
    // No reply is not a failure for UDP.
    assert_eq!(classify_udp_probe(true, 10, 5000, None), ProbeOutcome::SentNoResponse);
    assert_eq!(
        classify_udp_probe(false, 10, 5000, None),
        ProbeOutcome::Closed { reason: CloseReason::SendFailed }
    );
    assert_eq!(classify_udp_probe(true, 6000, 5000, Some(1)), ProbeOutcome::TimedOut);
}

#[test]
fn scanning_the_common_preset_end_to_end() {
    // Scanning "common" never errors: the preset feeds straight into a
    // session and the report covers it fully.
    let ports = netdiag::ports::select_ports("common").unwrap();
    let outcomes = vec![ProbeOutcome::TimedOut; ports.len()];
    let report = run_scan(ports.clone(), 4, 100, &outcomes).unwrap();
    assert_eq!(report.len(), ports.len());
    let ps: Vec<u16> = report.iter().map(|e| e.0).collect();
    assert_eq!(ps, ports);
}
