use netdiag::dns::{parse_record_type, RecordKind};
use netdiag::formatting::{format_bytes, format_duration};
use netdiag::icmp::{calculate_checksum, create_icmp_packet};
use netdiag::ping::PingStats;
use netdiag::report::{
    connectivity_verdict, summarize_tests, ConnAttempt, ConnectivityVerdict, OverallStatus,
};
use netdiag::trace::{
    reached_destination, simulate_hop_ip, trace_hop_decision, trace_probe_payload,
    trace_probe_port, HostAddr,
};

#[test]
fn durations_render_by_magnitude() {
    assert_eq!(format_duration(0), "0\u{3bc}s");
    assert_eq!(format_duration(500), "500\u{3bc}s");
    assert_eq!(format_duration(1500), "1.50ms");
    assert_eq!(format_duration(999999), "1000.00ms");
    assert_eq!(format_duration(2345678), "2.35s");
    assert_eq!(format_duration(90000000), "1m30s");
}

#[test]
fn byte_counts_render_by_unit() {
    assert_eq!(format_bytes(0), "0 B");
    assert_eq!(format_bytes(512), "512 B");
    assert_eq!(format_bytes(1536), "1.50 KB");
    assert_eq!(format_bytes(2048), "2.00 KB");
    assert_eq!(format_bytes(5 * 1024 * 1024), "5.00 MB");
    assert_eq!(format_bytes(3 * 1024 * 1024 * 1024), "3.00 GB");
    assert_eq!(format_bytes(2 * 1024 * 1024 * 1024 * 1024), "2.00 TB");
}

#[test]
fn checksum_of_known_words() {
    assert_eq!(calculate_checksum(&[0x45, 0x00, 0x00, 0x3c]), 0xffff - 0x453c);
    // An odd trailing byte is the high byte of a last word.
    assert_eq!(calculate_checksum(&[0x01]), 0xffff - 0x0100);
    // Carries fold back in from the top.
    assert_eq!(calculate_checksum(&[0xff, 0xff, 0xff, 0xff]), 0x0000);
    assert_eq!(calculate_checksum(&[]), 0xffff);
}

#[test]
fn echo_request_packet_layout() {
    let p = create_icmp_packet(0, 0);
    assert_eq!(p, vec![8, 0, 0xff, 0xf7, 0, 0, 0, 0]);
    let p = create_icmp_packet(0x1234, 0x0102);
    assert_eq!(p.len(), 8);
    assert_eq!(p[0], 8);
    assert_eq!(p[1], 0);
    assert_eq!((p[4], p[5]), (0x34, 0x12));
    assert_eq!((p[6], p[7]), (0x02, 0x01));
}

#[test]
fn ping_statistics_accumulate() {
    let mut s = PingStats::new();
    assert_eq!(s.received, 0);
    s.record_success(300);
    s.record_success(100);
    s.record_success(200);
    assert_eq!(s.received, 3);
    assert_eq!(s.min_micros, 100);
    assert_eq!(s.max_micros, 300);
    assert_eq!(s.avg_micros(), 200);
}

#[test]
fn record_types_parse_case_insensitively() {
    assert_eq!(parse_record_type("a"), Some(RecordKind::A));
    assert_eq!(parse_record_type("AAAA"), Some(RecordKind::Aaaa));
    assert_eq!(parse_record_type("mx"), Some(RecordKind::Mx));
    assert_eq!(parse_record_type("Cname"), Some(RecordKind::Cname));
    assert_eq!(parse_record_type("soa"), Some(RecordKind::Soa));
    assert_eq!(parse_record_type("ptr"), Some(RecordKind::Ptr));
    assert_eq!(parse_record_type("ns"), Some(RecordKind::Ns));
    assert_eq!(parse_record_type("txt"), Some(RecordKind::Txt));
    assert_eq!(parse_record_type("bogus"), None);
    assert_eq!(parse_record_type(""), None);
}

#[test]
fn connectivity_verdicts() {
    assert_eq!(
        connectivity_verdict(ConnAttempt::Connected, None),
        ConnectivityVerdict::ReachablePrimary
    );
    assert_eq!(
        connectivity_verdict(ConnAttempt::Failed, Some(ConnAttempt::Connected)),
        ConnectivityVerdict::ReachableFallback
    );
    assert_eq!(
        connectivity_verdict(ConnAttempt::Failed, Some(ConnAttempt::Failed)),
        ConnectivityVerdict::Unreachable
    );
    assert_eq!(
        connectivity_verdict(ConnAttempt::Failed, None),
        ConnectivityVerdict::Unreachable
    );
    assert_eq!(
        connectivity_verdict(ConnAttempt::TimedOut, None),
        ConnectivityVerdict::TimedOut
    );
}

#[test]
fn report_summaries() {
    let s = summarize_tests(&vec![]);
    assert_eq!((s.total, s.passed, s.failed), (0, 0, 0));
    assert_eq!(s.status, OverallStatus::Excellent);

    let s = summarize_tests(&vec![true, true, true]);
    assert_eq!(s.status, OverallStatus::Excellent);

    let s = summarize_tests(&vec![true, true, false]);
    assert_eq!((s.passed, s.failed), (2, 1));
    assert_eq!(s.status, OverallStatus::Good);

    let s = summarize_tests(&vec![true, false]);
    assert_eq!(s.status, OverallStatus::Partial);

    let s = summarize_tests(&vec![false, false]);
    assert_eq!(s.status, OverallStatus::Poor);

    assert_eq!(OverallStatus::Excellent.label(), "EXCELLENT");
    assert_eq!(OverallStatus::Poor.label(), "POOR");
}

#[test]
fn simulated_hops_shift_the_last_octet() {
    let target = HostAddr::V4 { a: 93, b: 184, c: 216, d: 34 };
    assert_eq!(
        simulate_hop_ip(target, 3),
        HostAddr::V4 { a: 93, b: 184, c: 216, d: 37 }
    );
    // The shift wraps around one octet.
    let target = HostAddr::V4 { a: 10, b: 0, c: 0, d: 250 };
    assert_eq!(
        simulate_hop_ip(target, 10),
        HostAddr::V4 { a: 10, b: 0, c: 0, d: 4 }
    );
    let v6 = HostAddr::V6 { hi: 7, lo: 9 };
    assert_eq!(simulate_hop_ip(v6, 5), v6);
}

#[test]
fn hop_decisions() {
    let target = HostAddr::V4 { a: 1, b: 2, c: 3, d: 4 };
    assert_eq!(trace_hop_decision(target, 2, 30, false, true, 100), None);
    assert_eq!(trace_hop_decision(target, 2, 30, true, false, 100), None);
    // The last hop reports the target itself.
    assert_eq!(
        trace_hop_decision(target, 30, 30, true, true, 100),
        Some((target, 100))
    );
    // A probe past five seconds reports the target too.
    assert_eq!(
        trace_hop_decision(target, 2, 30, true, true, 6000000),
        Some((target, 6000000))
    );
    // An intermediate hop reports a fabricated address.
    assert_eq!(
        trace_hop_decision(target, 2, 30, true, true, 100),
        Some((HostAddr::V4 { a: 1, b: 2, c: 3, d: 6 }, 100))
    );
    assert!(reached_destination(target, target));
    assert!(!reached_destination(HostAddr::V4 { a: 1, b: 2, c: 3, d: 6 }, target));
}

#[test]
fn trace_probe_parameters() {
    assert_eq!(trace_probe_port(5), 33439);
    assert_eq!(trace_probe_payload(7), "traceroute-probe-7");
    assert_eq!(trace_probe_payload(30), "traceroute-probe-30");
}
