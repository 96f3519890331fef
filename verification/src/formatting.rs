//! Human-readable rendering of durations and byte counts. All arithmetic
//! is integral: fractional parts are carried as rounded hundredths.

use vstd::prelude::*;

use crate::text::{decimal_string, pad2_string, spec_decimal, spec_pad2};

verus! {

/// The rendering of a duration given in microseconds: microseconds below
/// one millisecond, then milliseconds and seconds with two rounded decimal
/// places, then whole minutes and seconds.
pub open spec fn spec_format_duration(micros: nat) -> Seq<char> {
    if micros < 1000 {
        spec_decimal(micros) + "\u{3bc}s"@
    } else if micros < 1000000 {
        let h = (micros + 5) / 10;
        spec_decimal(h / 100) + "."@ + spec_pad2(h % 100) + "ms"@
    } else if micros < 60000000 {
        let h = (micros + 5000) / 10000;
        spec_decimal(h / 100) + "."@ + spec_pad2(h % 100) + "s"@
    } else {
        let secs = micros / 1000000;
        spec_decimal(secs / 60) + "m"@ + spec_decimal(secs % 60) + "s"@
    }
}

/// Renders a duration, given in microseconds, for display.
pub fn format_duration(micros: u128) -> (r: String)
    ensures
        r@ == spec_format_duration(micros as nat),
{
    if micros < 1000 {
        let mut s = decimal_string(micros);
        s.append("\u{3bc}s");
        s
    } else if micros < 1000000 {
        let h = (micros + 5) / 10;
        let mut s = decimal_string(h / 100);
        s.append(".");
        let frac = pad2_string(h % 100);
        s.append(frac.as_str());
        s.append("ms");
        proof {
            assert(s@ =~= spec_format_duration(micros as nat));
        }
        s
    } else if micros < 60000000 {
        let h = (micros + 5000) / 10000;
        let mut s = decimal_string(h / 100);
        s.append(".");
        let frac = pad2_string(h % 100);
        s.append(frac.as_str());
        s.append("s");
        proof {
            assert(s@ =~= spec_format_duration(micros as nat));
        }
        s
    } else {
        let secs = micros / 1000000;
        let mut s = decimal_string(secs / 60);
        s.append("m");
        let rest = decimal_string(secs % 60);
        s.append(rest.as_str());
        s.append("s");
        proof {
            assert(s@ =~= spec_format_duration(micros as nat));
        }
        s
    }
}

/// A byte count scaled by the power of 1024 of its unit, as rounded
/// hundredths.
pub open spec fn scaled_hundredths(bytes: nat, divisor: nat) -> nat
    recommends
        divisor > 0,
{
    (bytes * 200 / divisor + 1) / 2
}

/// The rendering of a byte count: plain bytes below 1 KB, otherwise the
/// count scaled to the largest unit up to TB that keeps it below 1024,
/// with two rounded decimal places.
pub open spec fn spec_format_bytes(bytes: nat) -> Seq<char> {
    if bytes < 1024 {
        spec_decimal(bytes) + " B"@
    } else {
        let (divisor, unit) = if bytes < 1048576 {
            (1024nat, " KB"@)
        } else if bytes < 1073741824 {
            (1048576nat, " MB"@)
        } else if bytes < 1099511627776 {
            (1073741824nat, " GB"@)
        } else {
            (1099511627776nat, " TB"@)
        };
        let h = scaled_hundredths(bytes, divisor);
        spec_decimal(h / 100) + "."@ + spec_pad2(h % 100) + unit
    }
}

/// Renders the scaled value `h` (in hundredths) followed by `unit`.
fn format_scaled(h: u128, unit: &str) -> (r: String)
    ensures
        r@ == spec_decimal((h / 100) as nat) + "."@ + spec_pad2((h % 100) as nat) + unit@,
{
    let mut s = decimal_string(h / 100);
    s.append(".");
    let frac = pad2_string(h % 100);
    s.append(frac.as_str());
    s.append(unit);
    proof {
        assert(s@ =~= spec_decimal((h / 100) as nat) + "."@ + spec_pad2((h % 100) as nat)
            + unit@);
    }
    s
}

/// Renders a byte count for display.
pub fn format_bytes(bytes: u64) -> (r: String)
    ensures
        r@ == spec_format_bytes(bytes as nat),
{
    if bytes < 1024 {
        let mut s = decimal_string(bytes as u128);
        s.append(" B");
        s
    } else {
        let wide = bytes as u128;
        if bytes < 1048576 {
            format_scaled((wide * 200 / 1024 + 1) / 2, " KB")
        } else if bytes < 1073741824 {
            format_scaled((wide * 200 / 1048576 + 1) / 2, " MB")
        } else if bytes < 1099511627776 {
            format_scaled((wide * 200 / 1073741824 + 1) / 2, " GB")
        } else {
            format_scaled((wide * 200 / 1099511627776 + 1) / 2, " TB")
        }
    }
}

} // verus!
