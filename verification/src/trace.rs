//! The simulated traceroute: hop addresses are fabricated from the target
//! rather than discovered from TTL-expiry responses, and one decision
//! function says what each hop reports.

use vstd::prelude::*;

use crate::text::{decimal_string, spec_decimal};

verus! {

/// A network address as plain values: four octets, or two 64-bit halves.
#[derive(Clone, Copy, Debug, PartialEq, Eq, Structural)]
pub enum HostAddr {
    V4 { a: u8, b: u8, c: u8, d: u8 },
    V6 { hi: u64, lo: u64 },
}

/// The fabricated address of an intermediate hop: the target with its
/// last octet shifted by the hop number; a V6 target stands unchanged.
pub open spec fn spec_simulate_hop_ip(target: HostAddr, hop_number: u32) -> HostAddr {
    match target {
        HostAddr::V4 { a, b, c, d } => HostAddr::V4 {
            a,
            b,
            c,
            d: ((d + hop_number) % 256) as u8,
        },
        HostAddr::V6 { .. } => target,
    }
}

/// Fabricates the address shown for an intermediate hop.
pub fn simulate_hop_ip(target: HostAddr, hop_number: u32) -> (r: HostAddr)
    requires
        hop_number <= u32::MAX - 255,
    ensures
        r == spec_simulate_hop_ip(target, hop_number),
{
    match target {
        HostAddr::V4 { a, b, c, d } => {
            let shifted = ((d as u32 + hop_number) % 256) as u8;
            HostAddr::V4 { a, b, c, d: shifted }
        },
        HostAddr::V6 { hi, lo } => HostAddr::V6 { hi, lo },
    }
}

/// The UDP port a hop's probe datagram is sent to.
pub fn trace_probe_port(hop_number: u32) -> (r: u16)
    requires
        hop_number <= 32101,
    ensures
        r == 33434 + hop_number,
{
    33434 + (hop_number as u16)
}

/// The payload of a hop's probe datagram.
pub fn trace_probe_payload(hop_number: u32) -> (r: String)
    ensures
        r@ == "traceroute-probe-"@ + spec_decimal(hop_number as nat),
{
    let mut s = String::new();
    s.append("traceroute-probe-");
    let num = decimal_string(hop_number as u128);
    s.append(num.as_str());
    proof {
        assert(s@ =~= "traceroute-probe-"@ + spec_decimal(hop_number as nat));
    }
    s
}

/// What one hop reports: nothing when the TTL could not be set or the
/// probe could not be sent in time; the target itself at the last hop or
/// once the probe dragged past five seconds; a fabricated intermediate
/// address otherwise.
pub open spec fn spec_trace_hop(
    target: HostAddr,
    hop_number: u32,
    max_hops: u32,
    ttl_ok: bool,
    send_ok: bool,
    elapsed_micros: u64,
) -> Option<(HostAddr, u64)> {
    if !ttl_ok || !send_ok {
        None
    } else if hop_number >= max_hops || elapsed_micros > 5000000 {
        Some((target, elapsed_micros))
    } else {
        Some((spec_simulate_hop_ip(target, hop_number), elapsed_micros))
    }
}

/// Decides what one hop reports, from how its probe went.
pub fn trace_hop_decision(
    target: HostAddr,
    hop_number: u32,
    max_hops: u32,
    ttl_ok: bool,
    send_ok: bool,
    elapsed_micros: u64,
) -> (r: Option<(HostAddr, u64)>)
    requires
        hop_number <= u32::MAX - 255,
    ensures
        r == spec_trace_hop(target, hop_number, max_hops, ttl_ok, send_ok, elapsed_micros),
{
    if !ttl_ok || !send_ok {
        None
    } else if hop_number >= max_hops || elapsed_micros > 5000000 {
        Some((target, elapsed_micros))
    } else {
        Some((simulate_hop_ip(target, hop_number), elapsed_micros))
    }
}

/// Whether a hop's reported address is the target, which ends the trace.
pub fn reached_destination(hop: HostAddr, target: HostAddr) -> (r: bool)
    ensures
        r == (hop == target),
{
    hop == target
}

} // verus!
