//! The DNS record types a lookup can ask for, read from their
//! case-insensitive textual names.

use vstd::prelude::*;

use crate::text::{chars_of, eq_ignore_ascii_case, spec_eq_ignore_case};

verus! {

/// The record types the lookup understands.
#[derive(Clone, Copy, Debug, PartialEq, Eq, Structural)]
pub enum RecordKind {
    A,
    Aaaa,
    Mx,
    Ns,
    Txt,
    Cname,
    Soa,
    Ptr,
}

/// Which record kind a name denotes, ignoring ASCII case; unknown names
/// denote none.
pub open spec fn spec_parse_record_type(s: Seq<char>) -> Option<RecordKind> {
    if spec_eq_ignore_case(s, "A"@) {
        Some(RecordKind::A)
    } else if spec_eq_ignore_case(s, "AAAA"@) {
        Some(RecordKind::Aaaa)
    } else if spec_eq_ignore_case(s, "MX"@) {
        Some(RecordKind::Mx)
    } else if spec_eq_ignore_case(s, "NS"@) {
        Some(RecordKind::Ns)
    } else if spec_eq_ignore_case(s, "TXT"@) {
        Some(RecordKind::Txt)
    } else if spec_eq_ignore_case(s, "CNAME"@) {
        Some(RecordKind::Cname)
    } else if spec_eq_ignore_case(s, "SOA"@) {
        Some(RecordKind::Soa)
    } else if spec_eq_ignore_case(s, "PTR"@) {
        Some(RecordKind::Ptr)
    } else {
        None
    }
}

/// Reads a record-type name such as `A`, `mx` or `Cname`.
pub fn parse_record_type(s: &str) -> (r: Option<RecordKind>)
    ensures
        r == spec_parse_record_type(s@),
{
    let cs = chars_of(s);
    if eq_ignore_ascii_case(&cs, &chars_of("A")) {
        Some(RecordKind::A)
    } else if eq_ignore_ascii_case(&cs, &chars_of("AAAA")) {
        Some(RecordKind::Aaaa)
    } else if eq_ignore_ascii_case(&cs, &chars_of("MX")) {
        Some(RecordKind::Mx)
    } else if eq_ignore_ascii_case(&cs, &chars_of("NS")) {
        Some(RecordKind::Ns)
    } else if eq_ignore_ascii_case(&cs, &chars_of("TXT")) {
        Some(RecordKind::Txt)
    } else if eq_ignore_ascii_case(&cs, &chars_of("CNAME")) {
        Some(RecordKind::Cname)
    } else if eq_ignore_ascii_case(&cs, &chars_of("SOA")) {
        Some(RecordKind::Soa)
    } else if eq_ignore_ascii_case(&cs, &chars_of("PTR")) {
        Some(RecordKind::Ptr)
    } else {
        None
    }
}

} // verus!
