use current_sweep::measure::{completion_confirmed, current_label};
use current_sweep::sweep::{command_bytes, Command, Step, Sweep, SweepPlan, Variant, SETTLE_MS};

fn all_steps(s: &Sweep) -> Vec<Step> {
    let mut out = Vec::new();
    let mut k: u64 = 0;
    while let Some(st) = s.step_at(k) {
        out.push(st);
        k += 1;
    }
    out
}

fn recorded(steps: &[Step]) -> Vec<i32> {
    steps
        .iter()
        .filter_map(|s| match s {
            Step::Record(c) => Some(*c),
            _ => None,
        })
        .collect()
}

fn text(b: Vec<u8>) -> String {
    String::from_utf8(b).unwrap()
}

#[test]
fn plan_rejects_non_positive_step() {
    assert!(SweepPlan::new(0, 10, 0, 0).is_none());
    assert!(SweepPlan::new(0, 10, -1, 0).is_none());
    assert!(SweepPlan::new(0, 10, 1, 0).is_some());
}

#[test]
fn point_count_is_floor_plus_one() {
    let p = SweepPlan::new(0, 100_000, 100, 50).unwrap();
    assert_eq!(p.point_count(), 1001);
    assert_eq!(p.current_at(1000), 100_000);
    let p = SweepPlan::new(0, 10, 3, 0).unwrap();
    assert_eq!(p.point_count(), 4);
    assert_eq!(p.current_at(3), 9);
    let p = SweepPlan::new(5, 5, 7, 0).unwrap();
    assert_eq!(p.point_count(), 1);
}

#[test]
fn point_count_never_negative() {
    let p = SweepPlan::new(10, 0, 3, 0).unwrap();
    assert_eq!(p.point_count(), 0);
    let p = SweepPlan::new(10, 9, 3, 0).unwrap();
    assert_eq!(p.point_count(), 0);
}

#[test]
fn source_only_sweep_records_three_rows() {
    let plan = SweepPlan::new(0, 10_000, 5_000, 0).unwrap();
    let steps = all_steps(&Sweep::new(plan, Variant::SourceOnly));
    let rows = recorded(&steps);
    assert_eq!(rows, vec![0, 5_000, 10_000]);
    let labels: Vec<String> = rows.iter().map(|c| text(current_label(*c))).collect();
    assert_eq!(labels, vec!["0.00", "5.00", "10.00"]);
}

#[test]
fn source_only_sequence_is_exact() {
    let plan = SweepPlan::new(1_000, 2_000, 1_000, 50).unwrap();
    let steps = all_steps(&Sweep::new(plan, Variant::SourceOnly));
    let off = Step::Send(Command::SourceOutput(false));
    let on = Step::Send(Command::SourceOutput(true));
    assert_eq!(
        steps,
        vec![
            off,
            Step::Wait(SETTLE_MS),
            on,
            Step::Wait(SETTLE_MS),
            Step::Send(Command::SourceCurrent(1_000)),
            Step::Wait(50),
            Step::Record(1_000),
            Step::Send(Command::SourceCurrent(2_000)),
            Step::Wait(50),
            Step::Record(2_000),
            off,
            Step::Query(Command::SourceErrors),
        ]
    );
}

#[test]
fn trace_sequence_is_exact() {
    let plan = SweepPlan::new(0, 0, 1, 7).unwrap();
    let steps = all_steps(&Sweep::new(plan, Variant::PeakTrace));
    assert_eq!(
        steps,
        vec![
            Step::Send(Command::Preset),
            Step::Send(Command::SingleSweep),
            Step::Send(Command::CenterSpan),
            Step::Query(Command::TraceLength),
            Step::Send(Command::SourceOutput(false)),
            Step::Wait(500),
            Step::Send(Command::SourceOutput(true)),
            Step::Wait(500),
            Step::Send(Command::SourceCurrent(0)),
            Step::Wait(7),
            Step::Query(Command::SweepDone),
            Step::Send(Command::PeakSearch),
            Step::Query(Command::PeakWavelength),
            Step::Query(Command::PeakPower),
            Step::Query(Command::Trace),
            Step::Record(0),
            Step::Send(Command::SourceOutput(false)),
            Step::Send(Command::SweepOff),
            Step::Query(Command::SourceErrors),
            Step::Query(Command::AnalyzerErrors),
        ]
    );
}

#[test]
fn unconfirmed_completion_still_searches_and_records() {
    assert!(!completion_confirmed(b"0\n"));
    let plan = SweepPlan::new(0, 5_000, 5_000, 0).unwrap();
    let steps = all_steps(&Sweep::new(plan, Variant::Peak));
    let done = steps.iter().position(|s| *s == Step::Query(Command::SweepDone)).unwrap();
    assert_eq!(steps[done + 1], Step::Send(Command::PeakSearch));
    assert_eq!(steps[done + 2], Step::Query(Command::PeakWavelength));
    assert_eq!(steps[done + 3], Step::Query(Command::PeakPower));
    assert_eq!(steps[done + 4], Step::Record(0));
    assert_eq!(recorded(&steps), vec![0, 5_000]);
}

#[test]
fn source_off_once_before_and_once_after() {
    for (start, stop) in [(10, 0), (0, 0), (0, 40)] {
        for v in [Variant::SourceOnly, Variant::Peak, Variant::PeakTrace] {
            let plan = SweepPlan::new(start, stop, 10, 0).unwrap();
            let steps = all_steps(&Sweep::new(plan, v));
            let offs: Vec<usize> = steps
                .iter()
                .enumerate()
                .filter(|(_, s)| **s == Step::Send(Command::SourceOutput(false)))
                .map(|(i, _)| i)
                .collect();
            assert_eq!(offs.len(), 2);
            let first_point = steps.iter().position(|s| matches!(s, Step::Send(Command::SourceCurrent(_))));
            let last_record = steps.iter().rposition(|s| matches!(s, Step::Record(_)));
            if let (Some(f), Some(l)) = (first_point, last_record) {
                assert!(offs[0] < f);
                assert!(offs[1] > l);
            }
        }
    }
}

#[test]
fn step_past_the_end_is_none() {
    let plan = SweepPlan::new(0, 0, 1, 0).unwrap();
    let s = Sweep::new(plan, Variant::SourceOnly);
    assert_eq!(s.step_at(8), Some(Step::Query(Command::SourceErrors)));
    assert_eq!(s.step_at(9), None);
    assert_eq!(s.step_at(u64::MAX), None);
}

#[test]
fn command_lines_are_exact() {
    assert_eq!(text(command_bytes(Command::SourceOutput(false))), "OUTPut:STATe 0\n");
    assert_eq!(text(command_bytes(Command::SourceOutput(true))), "OUTPut:STATe 1\n");
    assert_eq!(
        text(command_bytes(Command::SourceCurrent(12_345))),
        "SOURce:CURRent:LEVel:IMMediate:AMPLitude 0.012345\n"
    );
    assert_eq!(
        text(command_bytes(Command::SourceCurrent(-1_500_000))),
        "SOURce:CURRent:LEVel:IMMediate:AMPLitude -1.500000\n"
    );
    assert_eq!(text(command_bytes(Command::SourceErrors)), "SYST:ERR?\n");
    assert_eq!(text(command_bytes(Command::Preset)), "IP;\n");
    assert_eq!(text(command_bytes(Command::SingleSweep)), "SNGLS;\n");
    assert_eq!(text(command_bytes(Command::CenterSpan)), "CENTERWL 980NM;SPANWL 20NM;\n");
    assert_eq!(text(command_bytes(Command::TraceLength)), "MDS?;\n");
    assert_eq!(text(command_bytes(Command::SweepDone)), "TS;DONE?;\n");
    assert_eq!(text(command_bytes(Command::PeakSearch)), "MKPK HI;\n");
    assert_eq!(text(command_bytes(Command::PeakWavelength)), "MKWL?;\n");
    assert_eq!(text(command_bytes(Command::PeakPower)), "MKA?;\n");
    assert_eq!(text(command_bytes(Command::Trace)), "TRA?;\n");
    assert_eq!(text(command_bytes(Command::SweepOff)), "SWEEP OFF;\n");
    assert_eq!(text(command_bytes(Command::AnalyzerErrors)), "XERR?;\n");
}

#[test]
fn command_targets() {
    assert!(Command::SourceCurrent(1).to_source());
    assert!(Command::SourceErrors.to_source());
    assert!(!Command::Trace.to_source());
    assert!(!Variant::SourceOnly.has_analyzer());
    assert!(Variant::PeakTrace.has_analyzer());
}
