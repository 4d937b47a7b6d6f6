//! Reading the analyzer's answers and naming what is recorded: the
//! completion flag, the trace length, the trace's fields on the wavelength
//! axis, and the texts of the summary and trace files.

use vstd::prelude::*;

use crate::sweep::Variant;
use crate::text::{
    ascii_bytes, ascii_of, fixed_point, parse_usize, push_bytes, push_fixed, split, split_on,
    trim, trimmed, digits_value, is_unsigned_text, unsigned_digits, views,
};

verus! {

/// The trace length assumed where the analyzer's answer cannot be read.
pub const DEFAULT_TRACE_POINTS: usize = 800;

/// The analyzer's centre wavelength and span, in nanometres.
pub const CENTER_NM: u64 = 980;

pub const SPAN_NM: u64 = 20;

/// The ends of the trace's wavelength axis, in units of 1e-4 nm.
pub const AXIS_START_E4: u64 = (CENTER_NM - SPAN_NM / 2) * 10_000;

pub const AXIS_STOP_E4: u64 = (CENTER_NM + SPAN_NM / 2) * 10_000;

/// Whether a completion answer confirms the sweep: exactly `1` once trimmed.
pub fn completion_confirmed(line: &[u8]) -> (r: bool)
    ensures
        r == (trimmed(line@) == seq![49u8]),
{
    let t = trim(line);
    let r = t.len() == 1 && t[0] == 49u8;
    assert(r ==> t@ =~= seq![49u8]);
    r
}

/// The trace length that an answer gives: its unsigned integer once trimmed,
/// or the default where there is none.
pub open spec fn trace_length_of(line: Seq<u8>) -> nat {
    let t = trimmed(line);
    if is_unsigned_text(t) && digits_value(unsigned_digits(t)) <= usize::MAX {
        digits_value(unsigned_digits(t))
    } else {
        DEFAULT_TRACE_POINTS as nat
    }
}

/// Reads the analyzer's trace-length answer.
pub fn trace_length(line: &[u8]) -> (r: usize)
    ensures
        r == trace_length_of(line@),
{
    let t = trim(line);
    match parse_usize(t.as_slice()) {
        Some(n) => n,
        None => DEFAULT_TRACE_POINTS,
    }
}

/// Point `j` of a linear axis of `n` points from `start` to `stop`, rounded
/// to the nearest unit (halves upward); a one-point axis is `start` alone.
pub open spec fn axis_value(start: nat, stop: nat, n: nat, j: nat) -> nat {
    if n <= 1 {
        start
    } else {
        (start + (2 * j * (stop - start) + (n - 1)) / (2 * (n - 1))) as nat
    }
}

/// Point `j` of the linear axis of `n` points from `start` to `stop`.
pub fn axis_point(start: u64, stop: u64, n: u64, j: u64) -> (r: u64)
    requires
        start <= stop <= u32::MAX,
        j < n,
    ensures
        r == axis_value(start as nat, stop as nat, n as nat, j as nat),
        start <= r <= stop,
{
    if n <= 1 {
        start
    } else {
        let span: u128 = (stop - start) as u128;
        let m: u128 = (n - 1) as u128;
        let jj: u128 = j as u128;
        assert(jj * span <= m * span) by (nonlinear_arith)
            requires
                jj <= m,
        ;
        assert(m * span <= 0xffff_ffff_ffff_ffffu128 * 0xffff_ffffu128) by (nonlinear_arith)
            requires
                m <= 0xffff_ffff_ffff_ffffu128,
                span <= 0xffff_ffffu128,
        ;
        let prod: u128 = jj * span;
        let num: u128 = 2 * prod + m;
        let den: u128 = 2 * m;
        let q: u128 = num / den;
        assert(q <= span) by (nonlinear_arith)
            requires
                q == num / den,
                num == 2 * prod + m,
                prod <= m * span,
                den == 2 * m,
                m > 0,
        {
            assert(num < den * (span + 1)) by (nonlinear_arith)
                requires
                    num == 2 * prod + m,
                    prod <= m * span,
                    den == 2 * m,
                    m > 0,
            ;
            vstd::arithmetic::div_mod::lemma_div_by_multiple_is_strongly_ordered(
                num as int,
                (den * (span + 1)) as int,
                (span + 1) as int,
                den as int,
            );
        };
        assert(2 * (j as int) * (span as int) == 2 * (prod as int)) by (nonlinear_arith)
            requires
                prod == jj * span,
                jj == j,
        ;
        start + q as u64
    }
}

/// One mapped value of a trace: its wavelength (1e-4 nm) and its raw field.
pub struct TracePoint {
    pub wavelength_e4: u64,
    pub field: Vec<u8>,
}

/// The raw fields of a trace answer: the trimmed line split on commas.
pub open spec fn trace_fields(line: Seq<u8>) -> Seq<Seq<u8>> {
    split_on(trimmed(line), 44u8)
}

/// Maps the fields of a trace answer onto the analyzer's wavelength axis of
/// `n` points: the first `min(fields, n)` of them, in order; the rest are
/// dropped, and a short answer leaves the axis's tail unmapped.
pub fn map_trace(line: &[u8], n: usize) -> (r: Vec<TracePoint>)
    ensures
        r@.len() == (if trace_fields(line@).len() < n {
            trace_fields(line@).len()
        } else {
            n as nat
        }),
        forall|j: int|
            0 <= j < r@.len() ==> (#[trigger] r@[j]).wavelength_e4 == axis_value(
                AXIS_START_E4 as nat,
                AXIS_STOP_E4 as nat,
                n as nat,
                j as nat,
            ) && r@[j].field@ == trace_fields(line@)[j],
{
    let t = trim(line);
    let fields = split(t.as_slice(), 44u8);
    let ghost fs = trace_fields(line@);
    assert(views(fields@) == fs);
    let count: usize = if fields.len() < n {
        fields.len()
    } else {
        n
    };
    let mut r: Vec<TracePoint> = Vec::new();
    let mut j: usize = 0;
    while j < count
        invariant
            j <= count,
            count <= n,
            count <= fields@.len(),
            views(fields@) == fs,
            r@.len() == j,
            forall|i: int|
                0 <= i < j ==> (#[trigger] r@[i]).wavelength_e4 == axis_value(
                    AXIS_START_E4 as nat,
                    AXIS_STOP_E4 as nat,
                    n as nat,
                    i as nat,
                ) && r@[i].field@ == fs[i],
        decreases count - j,
    {
        let w = axis_point(AXIS_START_E4, AXIS_STOP_E4, n as u64, j as u64);
        let mut field: Vec<u8> = Vec::new();
        push_bytes(&mut field, fields[j].as_slice());
        assert(field@ =~= fs[j as int]);
        r.push(TracePoint { wavelength_e4: w, field });
        j = j + 1;
    }
    r
}

/// A current in microamperes, in hundredths of a milliampere, rounded to
/// the nearest (halves away from zero).
pub open spec fn centi_ma(ua: int) -> int {
    if ua >= 0 {
        (ua + 5) / 10
    } else {
        -((-ua + 5) / 10)
    }
}

fn centi_ma_exec(ua: i32) -> (r: i64)
    ensures
        r == centi_ma(ua as int),
{
    if ua >= 0 {
        (ua as i64 + 5) / 10
    } else {
        -((-(ua as i64) + 5) / 10)
    }
}

/// A current in milliamperes with two decimals, as records show it.
pub open spec fn current_text(ua: int) -> Seq<u8> {
    fixed_point(centi_ma(ua), 2)
}

/// The current column of a summary row.
pub fn current_label(ua: i32) -> (r: Vec<u8>)
    ensures
        r@ == current_text(ua as int),
{
    let mut r: Vec<u8> = Vec::new();
    push_fixed(&mut r, centi_ma_exec(ua), 2);
    assert(r@ =~= current_text(ua as int));
    r
}

/// The name of the trace file of the point at `ua`.
pub open spec fn trace_file_text(ua: int) -> Seq<u8> {
    ascii_of("trace_"@) + current_text(ua) + ascii_of("mA.csv"@)
}

/// The name of the trace file of the point at `ua` (microamperes).
pub fn trace_file_name(ua: i32) -> (r: Vec<u8>)
    ensures
        r@ == trace_file_text(ua as int),
{
    proof {
        reveal_strlit("trace_");
        reveal_strlit("mA.csv");
    }
    let mut r = ascii_bytes("trace_");
    let c = current_label(ua);
    push_bytes(&mut r, c.as_slice());
    let tail = ascii_bytes("mA.csv");
    push_bytes(&mut r, tail.as_slice());
    r
}

/// The wavelength column of a trace row: four decimals of nanometres.
pub fn wavelength_label(e4: u64) -> (r: Vec<u8>)
    requires
        e4 <= i64::MAX,
    ensures
        r@ == fixed_point(e4 as int, 4),
{
    let mut r: Vec<u8> = Vec::new();
    push_fixed(&mut r, e4 as i64, 4);
    assert(r@ =~= fixed_point(e4 as int, 4));
    r
}

/// The header row of the summary file of a variant.
pub open spec fn summary_header_text(v: Variant) -> Seq<u8> {
    if v.spec_has_analyzer() {
        ascii_of("Current (mA),Peak Wavelength (nm),Peak Power (dBm)"@)
    } else {
        ascii_of("Current (mA)"@)
    }
}

/// The header row of the summary file of a variant.
pub fn summary_header(v: Variant) -> (r: Vec<u8>)
    ensures
        r@ == summary_header_text(v),
{
    proof {
        reveal_strlit("Current (mA),Peak Wavelength (nm),Peak Power (dBm)");
        reveal_strlit("Current (mA)");
    }
    if v.has_analyzer() {
        ascii_bytes("Current (mA),Peak Wavelength (nm),Peak Power (dBm)")
    } else {
        ascii_bytes("Current (mA)")
    }
}

/// The header row of a trace file.
pub fn trace_header() -> (r: Vec<u8>)
    ensures
        r@ == ascii_of("Wavelength (nm),Power (dBm)"@),
{
    proof {
        reveal_strlit("Wavelength (nm),Power (dBm)");
    }
    ascii_bytes("Wavelength (nm),Power (dBm)")
}

} // verus!
