//! The sweep engine: a plan of source currents and the exact sequence of
//! steps (commands, queries, waits, records) that one sweep performs.
//!
//! The sequence depends on the plan and the variant alone, never on what an
//! instrument answers: a caller runs it with `Sweep::step_at`, performing each
//! step in turn and handing each query's answer to the readers of `measure`.

use vstd::prelude::*;

use crate::text::{ascii_bytes, ascii_of, fixed_point, push_bytes, push_fixed};

verus! {

/// The settle delay after each change of the source output, in milliseconds.
pub const SETTLE_MS: u64 = 500;

/// A sweep of source currents in microamperes: `start_ua`, `start_ua +
/// step_ua`, ... up to `stop_ua`, holding each for `dwell_ms`.
#[derive(Clone, Copy, Debug)]
pub struct SweepPlan {
    pub start_ua: i32,
    pub stop_ua: i32,
    pub step_ua: i32,
    pub dwell_ms: u64,
}

impl SweepPlan {
    pub open spec fn wf(self) -> bool {
        self.step_ua > 0
    }

    /// `floor((stop - start) / step) + 1`, or zero where that is negative.
    pub open spec fn spec_point_count(self) -> nat {
        let q = (self.stop_ua - self.start_ua) / (self.step_ua as int) + 1;
        if q < 0 {
            0
        } else {
            q as nat
        }
    }

    /// The current of point `i`.
    pub open spec fn spec_current_at(self, i: int) -> int {
        self.start_ua + i * self.step_ua
    }

    /// A plan; `None` where the step is not positive.
    pub fn new(start_ua: i32, stop_ua: i32, step_ua: i32, dwell_ms: u64) -> (r: Option<SweepPlan>)
        ensures
            step_ua > 0 <==> r.is_some(),
            r matches Some(p) ==> p.wf() && p.start_ua == start_ua && p.stop_ua == stop_ua
                && p.step_ua == step_ua && p.dwell_ms == dwell_ms,
    {
        if step_ua > 0 {
            Some(SweepPlan { start_ua, stop_ua, step_ua, dwell_ms })
        } else {
            None
        }
    }

    /// The number of points of the sweep.
    pub fn point_count(&self) -> (r: u64)
        requires
            self.wf(),
        ensures
            r == self.spec_point_count(),
            r <= 0x1_0000_0000,
    {
        if self.stop_ua < self.start_ua {
            proof {
                lemma_negative_quotient(
                    self.stop_ua - self.start_ua,
                    self.step_ua as int,
                );
            }
            0
        } else {
            let diff: u64 = (self.stop_ua as i64 - self.start_ua as i64) as u64;
            proof {
                vstd::arithmetic::div_mod::lemma_div_is_ordered_by_denominator(
                    diff as int,
                    1,
                    self.step_ua as int,
                );
            }
            diff / (self.step_ua as u64) + 1
        }
    }

    /// The current of point `i`, which lies within the plan's range.
    pub fn current_at(&self, i: u64) -> (r: i32)
        requires
            self.wf(),
            i < self.spec_point_count(),
        ensures
            r == self.spec_current_at(i as int),
            self.start_ua <= r <= self.stop_ua,
    {
        proof {
            lemma_point_within(self.stop_ua - self.start_ua, self.step_ua as int, i as int);
        }
        (self.start_ua as i64 + (i as i64) * (self.step_ua as i64)) as i32
    }
}

proof fn lemma_negative_quotient(x: int, d: int)
    requires
        x < 0,
        d > 0,
    ensures
        x / d + 1 <= 0,
{
    vstd::arithmetic::div_mod::lemma_fundamental_div_mod(x, d);
    vstd::arithmetic::div_mod::lemma_mod_bound(x, d);
    let q = x / d;
    let r = x % d;
    assert(q < 0) by (nonlinear_arith)
        requires
            x == d * q + r,
            0 <= r < d,
            x < 0,
            d > 0,
    ;
}

proof fn lemma_point_within(x: int, d: int, i: int)
    requires
        d > 0,
        0 <= i,
        i < x / d + 1,
    ensures
        0 <= i * d <= x,
        x - d < i * d || i < x / d,
{
    vstd::arithmetic::div_mod::lemma_fundamental_div_mod(x, d);
    vstd::arithmetic::div_mod::lemma_mod_bound(x, d);
    let q = x / d;
    let r = x % d;
    assert(0 <= i * d <= x) by (nonlinear_arith)
        requires
            x == d * q + r,
            0 <= r < d,
            0 <= i <= q,
            d > 0,
    ;
    assert(x - d < i * d || i < q) by (nonlinear_arith)
        requires
            x == d * q + r,
            0 <= r < d,
            0 <= i <= q,
            d > 0,
    ;
}

/// Which instruments a sweep drives and what it captures at each point.
#[derive(Clone, Copy, Debug, PartialEq, Eq, Structural)]
pub enum Variant {
    /// The source alone.
    SourceOnly,
    /// The source, with the analyzer's peak wavelength and power per point.
    Peak,
    /// As `Peak`, with the analyzer's full trace per point as well.
    PeakTrace,
}

impl Variant {
    pub open spec fn spec_has_analyzer(self) -> bool {
        self != Variant::SourceOnly
    }

    pub fn has_analyzer(&self) -> (r: bool)
        ensures
            r == self.spec_has_analyzer(),
    {
        !matches!(self, Variant::SourceOnly)
    }
}

/// A command to one of the two instruments.
#[derive(Clone, Copy, Debug, PartialEq, Eq, Structural)]
pub enum Command {
    /// Source output on (`true`) or off.
    SourceOutput(bool),
    /// Source current, in microamperes.
    SourceCurrent(i32),
    /// Source error queue.
    SourceErrors,
    /// Analyzer instrument preset.
    Preset,
    /// Analyzer single-sweep mode.
    SingleSweep,
    /// Analyzer centre wavelength and span.
    CenterSpan,
    /// Analyzer trace length.
    TraceLength,
    /// Analyzer sweep, answered by its completion flag.
    SweepDone,
    /// Analyzer marker to the highest peak.
    PeakSearch,
    /// Analyzer marker wavelength.
    PeakWavelength,
    /// Analyzer marker amplitude.
    PeakPower,
    /// Analyzer full trace.
    Trace,
    /// Analyzer sweeping off.
    SweepOff,
    /// Analyzer error queue.
    AnalyzerErrors,
}

/// One step of a sweep.
#[derive(Clone, Copy, Debug, PartialEq, Eq, Structural)]
pub enum Step {
    /// Send the command.
    Send(Command),
    /// Send the command, then read one line of answer.
    Query(Command),
    /// Block for this many milliseconds.
    Wait(u64),
    /// Hand the point at this current (microamperes) to the recorder.
    Record(i32),
}

impl Command {
    pub open spec fn spec_to_source(self) -> bool {
        match self {
            Command::SourceOutput(_) | Command::SourceCurrent(_) | Command::SourceErrors => true,
            _ => false,
        }
    }

    /// Whether the command goes to the source (else to the analyzer).
    pub fn to_source(&self) -> (r: bool)
        ensures
            r == self.spec_to_source(),
    {
        matches!(self, Command::SourceOutput(_) | Command::SourceCurrent(_) | Command::SourceErrors)
    }
}

/// The line that carries a command, terminator included.
pub open spec fn command_text(c: Command) -> Seq<u8> {
    match c {
        Command::SourceOutput(on) => ascii_of("OUTPut:STATe "@) + (if on {
            ascii_of("1"@)
        } else {
            ascii_of("0"@)
        }) + ascii_of("\n"@),
        Command::SourceCurrent(ua) => ascii_of("SOURce:CURRent:LEVel:IMMediate:AMPLitude "@)
            + fixed_point(ua as int, 6) + ascii_of("\n"@),
        Command::SourceErrors => ascii_of("SYST:ERR?\n"@),
        Command::Preset => ascii_of("IP;\n"@),
        Command::SingleSweep => ascii_of("SNGLS;\n"@),
        Command::CenterSpan => ascii_of("CENTERWL 980NM;SPANWL 20NM;\n"@),
        Command::TraceLength => ascii_of("MDS?;\n"@),
        Command::SweepDone => ascii_of("TS;DONE?;\n"@),
        Command::PeakSearch => ascii_of("MKPK HI;\n"@),
        Command::PeakWavelength => ascii_of("MKWL?;\n"@),
        Command::PeakPower => ascii_of("MKA?;\n"@),
        Command::Trace => ascii_of("TRA?;\n"@),
        Command::SweepOff => ascii_of("SWEEP OFF;\n"@),
        Command::AnalyzerErrors => ascii_of("XERR?;\n"@),
    }
}

/// The bytes that carry a command to its instrument.
pub fn command_bytes(c: Command) -> (r: Vec<u8>)
    ensures
        r@ == command_text(c),
{
    match c {
        Command::SourceOutput(on) => {
            proof {
                reveal_strlit("OUTPut:STATe ");
                reveal_strlit("1");
                reveal_strlit("0");
                reveal_strlit("\n");
            }
            let mut r = ascii_bytes("OUTPut:STATe ");
            let v = if on {
                ascii_bytes("1")
            } else {
                ascii_bytes("0")
            };
            push_bytes(&mut r, v.as_slice());
            let nl = ascii_bytes("\n");
            push_bytes(&mut r, nl.as_slice());
            r
        },
        Command::SourceCurrent(ua) => {
            proof {
                reveal_strlit("SOURce:CURRent:LEVel:IMMediate:AMPLitude ");
                reveal_strlit("\n");
            }
            let mut r = ascii_bytes("SOURce:CURRent:LEVel:IMMediate:AMPLitude ");
            push_fixed(&mut r, ua as i64, 6);
            let nl = ascii_bytes("\n");
            push_bytes(&mut r, nl.as_slice());
            r
        },
        Command::SourceErrors => {
            proof {
                reveal_strlit("SYST:ERR?\n");
            }
            ascii_bytes("SYST:ERR?\n")
        },
        Command::Preset => {
            proof {
                reveal_strlit("IP;\n");
            }
            ascii_bytes("IP;\n")
        },
        Command::SingleSweep => {
            proof {
                reveal_strlit("SNGLS;\n");
            }
            ascii_bytes("SNGLS;\n")
        },
        Command::CenterSpan => {
            proof {
                reveal_strlit("CENTERWL 980NM;SPANWL 20NM;\n");
            }
            ascii_bytes("CENTERWL 980NM;SPANWL 20NM;\n")
        },
        Command::TraceLength => {
            proof {
                reveal_strlit("MDS?;\n");
            }
            ascii_bytes("MDS?;\n")
        },
        Command::SweepDone => {
            proof {
                reveal_strlit("TS;DONE?;\n");
            }
            ascii_bytes("TS;DONE?;\n")
        },
        Command::PeakSearch => {
            proof {
                reveal_strlit("MKPK HI;\n");
            }
            ascii_bytes("MKPK HI;\n")
        },
        Command::PeakWavelength => {
            proof {
                reveal_strlit("MKWL?;\n");
            }
            ascii_bytes("MKWL?;\n")
        },
        Command::PeakPower => {
            proof {
                reveal_strlit("MKA?;\n");
            }
            ascii_bytes("MKA?;\n")
        },
        Command::Trace => {
            proof {
                reveal_strlit("TRA?;\n");
            }
            ascii_bytes("TRA?;\n")
        },
        Command::SweepOff => {
            proof {
                reveal_strlit("SWEEP OFF;\n");
            }
            ascii_bytes("SWEEP OFF;\n")
        },
        Command::AnalyzerErrors => {
            proof {
                reveal_strlit("XERR?;\n");
            }
            ascii_bytes("XERR?;\n")
        },
    }
}

/// The instrument setup before the source is switched: analyzer preset and
/// single-sweep mode, and for traces the axis and the trace-length query.
pub open spec fn setup(v: Variant) -> Seq<Step> {
    match v {
        Variant::SourceOnly => seq![],
        Variant::Peak => seq![Step::Send(Command::Preset), Step::Send(Command::SingleSweep)],
        Variant::PeakTrace => seq![
            Step::Send(Command::Preset),
            Step::Send(Command::SingleSweep),
            Step::Send(Command::CenterSpan),
            Step::Query(Command::TraceLength),
        ],
    }
}

/// Source off, settle, source on, settle.
pub open spec fn power_up(settle_ms: u64) -> Seq<Step> {
    seq![
        Step::Send(Command::SourceOutput(false)),
        Step::Wait(settle_ms),
        Step::Send(Command::SourceOutput(true)),
        Step::Wait(settle_ms),
    ]
}

/// The steps of one point at current `c` (microamperes).
pub open spec fn point_steps(v: Variant, dwell_ms: u64, c: i32) -> Seq<Step> {
    let head = seq![Step::Send(Command::SourceCurrent(c)), Step::Wait(dwell_ms)];
    let peak = seq![
        Step::Query(Command::SweepDone),
        Step::Send(Command::PeakSearch),
        Step::Query(Command::PeakWavelength),
        Step::Query(Command::PeakPower),
    ];
    match v {
        Variant::SourceOnly => head + seq![Step::Record(c)],
        Variant::Peak => head + peak + seq![Step::Record(c)],
        Variant::PeakTrace => head + peak + seq![Step::Query(Command::Trace), Step::Record(c)],
    }
}

pub open spec fn point_len(v: Variant) -> nat {
    match v {
        Variant::SourceOnly => 3,
        Variant::Peak => 7,
        Variant::PeakTrace => 8,
    }
}

/// The final safe state and the diagnostics: source off, analyzer sweeping
/// off, then each instrument's error queue.
pub open spec fn shutdown(v: Variant) -> Seq<Step> {
    if v.spec_has_analyzer() {
        seq![
            Step::Send(Command::SourceOutput(false)),
            Step::Send(Command::SweepOff),
            Step::Query(Command::SourceErrors),
            Step::Query(Command::AnalyzerErrors),
        ]
    } else {
        seq![Step::Send(Command::SourceOutput(false)), Step::Query(Command::SourceErrors)]
    }
}

/// A plan, the variant that runs it, and the settle delay after each change
/// of the source output.
#[derive(Clone, Copy, Debug)]
pub struct Sweep {
    pub plan: SweepPlan,
    pub variant: Variant,
    pub settle_ms: u64,
}

impl Sweep {
    pub open spec fn wf(self) -> bool {
        self.plan.wf()
    }

    /// A sweep with the standard settle delay.
    pub fn new(plan: SweepPlan, variant: Variant) -> (r: Sweep)
        ensures
            r.plan == plan,
            r.variant == variant,
            r.settle_ms == SETTLE_MS,
    {
        Sweep { plan, variant, settle_ms: SETTLE_MS }
    }

    /// What comes before the first point.
    pub open spec fn before_points(self) -> Seq<Step> {
        setup(self.variant) + power_up(self.settle_ms)
    }

    /// The points' steps, one block of `point_len` steps per point, in
    /// increasing current order.
    pub open spec fn points(self) -> Seq<Step> {
        let b = point_len(self.variant);
        Seq::new(
            self.plan.spec_point_count() * b,
            |k: int|
                point_steps(
                    self.variant,
                    self.plan.dwell_ms,
                    self.plan.spec_current_at(k / (b as int)) as i32,
                )[k % (b as int)],
        )
    }

    /// Every step of the sweep, in order.
    pub open spec fn steps(self) -> Seq<Step> {
        self.before_points() + self.points() + shutdown(self.variant)
    }

    /// Step `k` of the sweep; `None` past the last one.
    pub fn step_at(&self, k: u64) -> (r: Option<Step>)
        requires
            self.wf(),
        ensures
            r == (if k < self.steps().len() {
                Some(self.steps()[k as int])
            } else {
                None::<Step>
            }),
    {
        let n = self.plan.point_count();
        let b: u64 = match self.variant {
            Variant::SourceOnly => 3,
            Variant::Peak => 7,
            Variant::PeakTrace => 8,
        };
        let lead: u64 = match self.variant {
            Variant::SourceOnly => 4,
            Variant::Peak => 6,
            Variant::PeakTrace => 8,
        };
        let tail: u64 = if self.variant.has_analyzer() {
            4
        } else {
            2
        };
        let ghost pre = self.before_points();
        let ghost mid = self.points();
        let ghost post = shutdown(self.variant);
        assert(pre.len() == lead);
        assert(mid.len() == n * b);
        assert(post.len() == tail);
        assert(self.steps().len() == lead + n * b + tail);
        if k < lead {
            assert(self.steps()[k as int] == pre[k as int]);
            Some(self.lead_step(k))
        } else if k - lead < n * b {
            let j = k - lead;
            let i = j / b;
            let o = j % b;
            proof {
                vstd::arithmetic::div_mod::lemma_div_is_ordered(j as int, (n * b) as int, b as int);
                vstd::arithmetic::div_mod::lemma_div_multiples_vanish(n as int, b as int);
            }
            let c = self.plan.current_at(i);
            assert(self.steps()[k as int] == mid[j as int]);
            Some(self.point_step(c, o))
        } else if k - lead - n * b < tail {
            let j = k - lead - n * b;
            assert(self.steps()[k as int] == post[j as int]);
            Some(self.tail_step(j))
        } else {
            None
        }
    }

    fn lead_step(&self, k: u64) -> (r: Step)
        requires
            k < self.before_points().len(),
        ensures
            r == self.before_points()[k as int],
    {
        let s: u64 = match self.variant {
            Variant::SourceOnly => 0,
            Variant::Peak => 2,
            Variant::PeakTrace => 4,
        };
        if k < s {
            if k == 0 {
                Step::Send(Command::Preset)
            } else if k == 1 {
                Step::Send(Command::SingleSweep)
            } else if k == 2 {
                Step::Send(Command::CenterSpan)
            } else {
                Step::Query(Command::TraceLength)
            }
        } else {
            let j = k - s;
            if j == 0 {
                Step::Send(Command::SourceOutput(false))
            } else if j == 2 {
                Step::Send(Command::SourceOutput(true))
            } else {
                Step::Wait(self.settle_ms)
            }
        }
    }

    fn point_step(&self, c: i32, o: u64) -> (r: Step)
        requires
            o < point_len(self.variant),
        ensures
            r == point_steps(self.variant, self.plan.dwell_ms, c)[o as int],
    {
        let b: u64 = match self.variant {
            Variant::SourceOnly => 3,
            Variant::Peak => 7,
            Variant::PeakTrace => 8,
        };
        if o == 0 {
            Step::Send(Command::SourceCurrent(c))
        } else if o == 1 {
            Step::Wait(self.plan.dwell_ms)
        } else if o == b - 1 {
            Step::Record(c)
        } else if o == 2 {
            Step::Query(Command::SweepDone)
        } else if o == 3 {
            Step::Send(Command::PeakSearch)
        } else if o == 4 {
            Step::Query(Command::PeakWavelength)
        } else if o == 5 {
            Step::Query(Command::PeakPower)
        } else {
            Step::Query(Command::Trace)
        }
    }

    fn tail_step(&self, j: u64) -> (r: Step)
        requires
            j < shutdown(self.variant).len(),
        ensures
            r == shutdown(self.variant)[j as int],
    {
        if j == 0 {
            Step::Send(Command::SourceOutput(false))
        } else if self.variant.has_analyzer() {
            if j == 1 {
                Step::Send(Command::SweepOff)
            } else if j == 2 {
                Step::Query(Command::SourceErrors)
            } else {
                Step::Query(Command::AnalyzerErrors)
            }
        } else {
            Step::Query(Command::SourceErrors)
        }
    }
}

/// Whether a step commands the source off.
pub open spec fn is_source_off(st: Step) -> bool {
    st == Step::Send(Command::SourceOutput(false))
}

/// How many steps of `s` command the source off.
pub open spec fn count_source_off(s: Seq<Step>) -> nat
    decreases s.len(),
{
    if s.len() == 0 {
        0
    } else {
        count_source_off(s.drop_last()) + if is_source_off(s.last()) {
            1nat
        } else {
            0nat
        }
    }
}

proof fn lemma_count_concat(a: Seq<Step>, b: Seq<Step>)
    ensures
        count_source_off(a + b) == count_source_off(a) + count_source_off(b),
    decreases b.len(),
{
    if b.len() > 0 {
        lemma_count_concat(a, b.drop_last());
        assert((a + b).drop_last() =~= a + b.drop_last());
    } else {
        assert(a + b =~= a);
    }
}

proof fn lemma_count_none(s: Seq<Step>)
    requires
        forall|i: int| 0 <= i < s.len() ==> !is_source_off(#[trigger] s[i]),
    ensures
        count_source_off(s) == 0,
    decreases s.len(),
{
    if s.len() > 0 {
        lemma_count_none(s.drop_last());
    }
}

proof fn lemma_count_lead(v: Variant, settle_ms: u64)
    ensures
        count_source_off(setup(v) + power_up(settle_ms)) == 1,
{
    let a = setup(v);
    let b = power_up(settle_ms);
    assert forall|i: int| 0 <= i < a.len() implies !is_source_off(#[trigger] a[i]) by {}
    lemma_count_none(a);
    reveal_with_fuel(count_source_off, 5);
    assert(count_source_off(b) == 1);
    lemma_count_concat(a, b);
}

proof fn lemma_count_shutdown(v: Variant)
    ensures
        count_source_off(shutdown(v)) == 1,
{
    reveal_with_fuel(count_source_off, 5);
}

/// The number of points is `floor((stop - start) / step) + 1` wherever that
/// is not negative; every point lies within `start..=stop`, in increasing
/// order, and the last one falls less than one step short of `stop`.
pub proof fn lemma_point_count(plan: SweepPlan)
    requires
        plan.wf(),
        plan.stop_ua - plan.start_ua >= -plan.step_ua,
    ensures
        plan.spec_point_count() == (plan.stop_ua - plan.start_ua) / (plan.step_ua as int) + 1,
        forall|i: int|
            0 <= i < plan.spec_point_count() ==> plan.start_ua <= #[trigger] plan.spec_current_at(i)
                <= plan.stop_ua,
        forall|i: int|
            0 <= i < plan.spec_point_count() - 1 ==> plan.spec_current_at(i) < #[trigger] plan.spec_current_at(
                i + 1,
            ),
        plan.spec_point_count() > 0 ==> plan.stop_ua - plan.step_ua < plan.spec_current_at(
            plan.spec_point_count() - 1,
        ),
{
    let x = plan.stop_ua - plan.start_ua;
    let d = plan.step_ua as int;
    vstd::arithmetic::div_mod::lemma_fundamental_div_mod(x, d);
    vstd::arithmetic::div_mod::lemma_mod_bound(x, d);
    let q = x / d;
    assert(q >= -1) by (nonlinear_arith)
        requires
            x == d * q + x % d,
            0 <= x % d < d,
            x >= -d,
            d > 0,
    ;
    assert forall|i: int| 0 <= i < plan.spec_point_count() implies plan.start_ua
        <= #[trigger] plan.spec_current_at(i) <= plan.stop_ua by {
        lemma_point_within(x, d, i);
    }
    assert forall|i: int| 0 <= i < plan.spec_point_count() - 1 implies plan.spec_current_at(i)
        < #[trigger] plan.spec_current_at(i + 1) by {
        assert((i + 1) * d == i * d + d) by (nonlinear_arith);
    }
    if plan.spec_point_count() > 0 {
        let last = q;
        lemma_point_within(x, d, last);
    }
}

/// The source is commanded off once before the points and once after them,
/// never in between, whatever the number of points: after the last point it
/// has been commanded off exactly once more than before the first.
pub proof fn lemma_source_off_once_more_after(s: Sweep)
    requires
        s.wf(),
    ensures
        count_source_off(s.before_points()) == 1,
        count_source_off(s.points()) == 0,
        count_source_off(shutdown(s.variant)) == 1,
        is_source_off(shutdown(s.variant)[0]),
        count_source_off(s.steps()) == count_source_off(s.before_points()) + 1,
{
    let pre = s.before_points();
    let mid = s.points();
    let post = shutdown(s.variant);
    let b = point_len(s.variant) as int;
    assert forall|i: int| 0 <= i < mid.len() implies !is_source_off(#[trigger] mid[i]) by {
        vstd::arithmetic::div_mod::lemma_mod_bound(i, b);
    }
    lemma_count_none(mid);
    lemma_count_lead(s.variant, s.settle_ms);
    lemma_count_shutdown(s.variant);
    lemma_count_concat(pre, mid);
    lemma_count_concat(pre + mid, post);
}

/// The currents of the record steps of `s`, in order.
pub open spec fn records(s: Seq<Step>) -> Seq<i32>
    decreases s.len(),
{
    if s.len() == 0 {
        seq![]
    } else {
        match s.last() {
            Step::Record(c) => records(s.drop_last()).push(c),
            _ => records(s.drop_last()),
        }
    }
}

proof fn lemma_records_concat(a: Seq<Step>, b: Seq<Step>)
    ensures
        records(a + b) == records(a) + records(b),
    decreases b.len(),
{
    if b.len() > 0 {
        lemma_records_concat(a, b.drop_last());
        assert((a + b).drop_last() =~= a + b.drop_last());
        assert((a + b).last() == b.last());
    } else {
        assert(a + b =~= a);
    }
    assert(records(a + b) =~= records(a) + records(b));
}

proof fn lemma_records_fixed(v: Variant, settle_ms: u64, dwell_ms: u64, c: i32)
    ensures
        records(setup(v) + power_up(settle_ms)) == Seq::<i32>::empty(),
        records(shutdown(v)) == Seq::<i32>::empty(),
        records(point_steps(v, dwell_ms, c)) == seq![c],
{
    reveal_with_fuel(records, 9);
    let a = setup(v) + power_up(settle_ms);
    match v {
        Variant::SourceOnly => {
            assert(a =~= seq![
                Step::Send(Command::SourceOutput(false)),
                Step::Wait(settle_ms),
                Step::Send(Command::SourceOutput(true)),
                Step::Wait(settle_ms),
            ]);
        },
        Variant::Peak => {
            assert(a =~= seq![
                Step::Send(Command::Preset),
                Step::Send(Command::SingleSweep),
                Step::Send(Command::SourceOutput(false)),
                Step::Wait(settle_ms),
                Step::Send(Command::SourceOutput(true)),
                Step::Wait(settle_ms),
            ]);
        },
        Variant::PeakTrace => {
            assert(a =~= seq![
                Step::Send(Command::Preset),
                Step::Send(Command::SingleSweep),
                Step::Send(Command::CenterSpan),
                Step::Query(Command::TraceLength),
                Step::Send(Command::SourceOutput(false)),
                Step::Wait(settle_ms),
                Step::Send(Command::SourceOutput(true)),
                Step::Wait(settle_ms),
            ]);
        },
    }
    let ps = point_steps(v, dwell_ms, c);
    assert(records(ps) =~= seq![c]);
}

/// The steps of the first `m` points.
pub open spec fn first_points(s: Sweep, m: nat) -> Seq<Step> {
    let b = point_len(s.variant);
    Seq::new(
        m * b,
        |k: int|
            point_steps(
                s.variant,
                s.plan.dwell_ms,
                s.plan.spec_current_at(k / (b as int)) as i32,
            )[k % (b as int)],
    )
}

proof fn lemma_records_points(s: Sweep, m: nat)
    ensures
        records(first_points(s, m)) == Seq::new(m, |i: int| s.plan.spec_current_at(i) as i32),
    decreases m,
{
    let b = point_len(s.variant) as int;
    if m == 0 {
        assert(first_points(s, m) =~= Seq::<Step>::empty());
        assert(records(first_points(s, m)) =~= Seq::new(m, |i: int| s.plan.spec_current_at(i) as i32));
    } else {
        let p = (m - 1) as nat;
        lemma_records_points(s, p);
        let c = s.plan.spec_current_at(p as int) as i32;
        let block = point_steps(s.variant, s.plan.dwell_ms, c);
        assert(p * b + b == m * b) by (nonlinear_arith)
            requires
                p == m - 1,
        ;
        assert forall|k: int| p * b <= k < m * b implies #[trigger] first_points(s, m)[k] == block[k
            - p * b] by {
            vstd::arithmetic::div_mod::lemma_fundamental_div_mod_converse(k, b, p as int, k - p * b);
        }
        assert forall|k: int| 0 <= k < p * b implies #[trigger] first_points(s, m)[k] == first_points(
            s,
            p,
        )[k] by {}
        assert(first_points(s, m) =~= first_points(s, p) + block);
        lemma_records_concat(first_points(s, p), block);
        lemma_records_fixed(s.variant, s.settle_ms, s.plan.dwell_ms, c);
        assert(records(first_points(s, m)) =~= Seq::new(
            m,
            |i: int| s.plan.spec_current_at(i) as i32,
        ));
    }
}

/// Every point of the plan is recorded exactly once, in increasing current
/// order, whatever the variant and whatever the instruments answer: the
/// record steps of a sweep carry exactly the plan's currents.
pub proof fn lemma_records_are_plan_currents(s: Sweep)
    requires
        s.wf(),
    ensures
        records(s.steps()).len() == s.plan.spec_point_count(),
        forall|i: int|
            0 <= i < s.plan.spec_point_count() ==> records(s.steps())[i] as int
                == #[trigger] s.plan.spec_current_at(i),
{
    let n = s.plan.spec_point_count();
    assert(s.points() =~= first_points(s, n));
    lemma_records_points(s, n);
    lemma_records_fixed(s.variant, s.settle_ms, s.plan.dwell_ms, 0);
    lemma_records_concat(s.before_points(), s.points());
    lemma_records_concat(s.before_points() + s.points(), shutdown(s.variant));
    assert(records(s.steps()) =~= Seq::new(n, |i: int| s.plan.spec_current_at(i) as i32));
    assert forall|i: int| 0 <= i < n implies records(s.steps())[i] as int
        == #[trigger] s.plan.spec_current_at(i) by {
        lemma_point_within(s.plan.stop_ua - s.plan.start_ua, s.plan.step_ua as int, i);
    }
}

} // verus!
