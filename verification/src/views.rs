//! Presentation helpers: the trace state a table cell shows, the columns of
//! the source table, and latency formatting to three significant figures.
use vstd::prelude::*;

use crate::strutil;
use crate::strutil::spec_dec;

verus! {

/// What a traced cell currently shows.
#[derive(Clone, Copy, Debug)]
pub enum TraceState<T> {
    /// Not traced at all
    Untraced,
    /// Awaiting the first number
    Pending,
    /// Showing a traced value
    Traced(T),
}

/// Columns of the source table.
#[derive(Clone, Copy, PartialEq, Eq, Structural, Debug)]
pub enum Column {
    Latency,
    Frequency,
    LineNumber,
    Line,
}

/// `num / den` rounded to the nearest integer, ties to even.
pub open spec fn s_round_half_even(num: nat, den: nat) -> nat
    recommends
        den > 0,
{
    let q = num / den;
    let r = num % den;
    if 2 * r > den || (2 * r == den && q % 2 == 1) {
        q + 1
    } else {
        q
    }
}

/// A fraction of `d` decimal digits, zero-padded.
pub open spec fn s_pad_frac(frac: nat, d: nat) -> Seq<char> {
    if d == 2 && frac < 10 {
        seq!['0'] + spec_dec(frac)
    } else {
        spec_dec(frac)
    }
}

/// A value below one thousand units, shown with three significant figures:
/// two decimals under ten, one under a hundred, none above.
pub open spec fn s_latency_in_unit(nanos: nat, scale: nat, label: Seq<char>) -> Seq<char>
    recommends
        scale > 0,
{
    let q = nanos / scale;
    if q < 10 {
        let v = s_round_half_even(nanos * 100, scale);
        spec_dec(v / 100) + "."@ + s_pad_frac(v % 100, 2) + label
    } else if q < 100 {
        let v = s_round_half_even(nanos * 10, scale);
        spec_dec(v / 10) + "."@ + s_pad_frac(v % 10, 1) + label
    } else {
        spec_dec(s_round_half_even(nanos, scale)) + label
    }
}

/// A latency in nanoseconds, shown under the largest unit that keeps the
/// value under one thousand, with three significant figures; whole seconds
/// above that.
pub open spec fn s_format_latency(nanos: nat) -> Seq<char> {
    if nanos == 0 {
        "0ns"@
    } else if nanos < 1000 {
        s_latency_in_unit(nanos, 1, "ns"@)
    } else if nanos < 1000000 {
        s_latency_in_unit(nanos, 1000, "us"@)
    } else if nanos < 1000000000 {
        s_latency_in_unit(nanos, 1000000, "ms"@)
    } else {
        spec_dec(s_round_half_even(nanos, 1000000000)) + "s"@
    }
}

/// `num / den` rounded to the nearest integer, ties to even.
fn round_half_even(num: u64, den: u64) -> (r: u64)
    requires
        den > 0,
    ensures
        r == s_round_half_even(num as nat, den as nat),
{
    let q = num / den;
    let r = num % den;
    let bump = if r > u64::MAX / 2 {
        true
    } else if 2 * r > den {
        true
    } else {
        2 * r == den && q % 2 == 1
    };
    if bump {
        proof {
            assert(r > 0);
            assert(den >= 2);
            assert(q <= num / 2) by (nonlinear_arith)
                requires
                    den >= 2,
                    q == num / den,
            ;
        }
        q + 1
    } else {
        q
    }
}

/// The fraction digits, zero-padded to `d` places.
fn pad_frac(frac: u64, d: u64) -> (r: String)
    requires
        d == 1 || d == 2,
        frac < 100,
    ensures
        r@ == s_pad_frac(frac as nat, d as nat),
{
    if d == 2 && frac < 10 {
        let mut out: String = "0".to_owned();
        let f = strutil::dec_u64(frac);
        out.append(f.as_str());
        proof {
            reveal_strlit("0");
            assert(out@ =~= s_pad_frac(frac as nat, d as nat));
        }
        out
    } else {
        strutil::dec_u64(frac)
    }
}

/// A value below one thousand units with three significant figures.
fn latency_in_unit(nanos: u64, scale: u64, label: &str) -> (r: String)
    requires
        scale == 1 || scale == 1000 || scale == 1000000,
        nanos < 1000 * scale,
    ensures
        r@ == s_latency_in_unit(nanos as nat, scale as nat, label@),
{
    let q = nanos / scale;
    if q < 10 {
        let v = round_half_even(nanos * 100, scale);
        proof {
            assert(nanos * 100 < 100000000000) by (nonlinear_arith)
                requires
                    nanos < 1000 * scale,
                    scale <= 1000000,
            ;
            assert(v % 100 < 100);
        }
        let mut out = strutil::dec_u64(v / 100);
        out.append(".");
        let f = pad_frac(v % 100, 2);
        out.append(f.as_str());
        out.append(label);
        out
    } else if q < 100 {
        let v = round_half_even(nanos * 10, scale);
        proof {
            assert(nanos * 10 < 10000000000) by (nonlinear_arith)
                requires
                    nanos < 1000 * scale,
                    scale <= 1000000,
            ;
            assert(v % 10 < 10);
        }
        let mut out = strutil::dec_u64(v / 10);
        out.append(".");
        let f = pad_frac(v % 10, 1);
        out.append(f.as_str());
        out.append(label);
        out
    } else {
        let v = round_half_even(nanos, scale);
        let mut out = strutil::dec_u64(v);
        out.append(label);
        out
    }
}

/// Format a latency, given in nanoseconds, with three significant figures
/// under the largest fitting unit.
pub fn format_latency(nanos: u64) -> (r: String)
    ensures
        r@ == s_format_latency(nanos as nat),
{
    if nanos == 0 {
        "0ns".to_owned()
    } else if nanos < 1000 {
        latency_in_unit(nanos, 1, "ns")
    } else if nanos < 1000000 {
        latency_in_unit(nanos, 1000, "us")
    } else if nanos < 1000000000 {
        latency_in_unit(nanos, 1000000, "ms")
    } else {
        let v = round_half_even(nanos, 1000000000);
        let mut out = strutil::dec_u64(v);
        out.append("s");
        out
    }
}

} // verus!
