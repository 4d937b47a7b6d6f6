use current_sweep::measure::{
    axis_point, completion_confirmed, current_label, map_trace, summary_header, trace_file_name,
    trace_header, trace_length, wavelength_label, AXIS_START_E4, AXIS_STOP_E4,
    DEFAULT_TRACE_POINTS,
};
use current_sweep::sweep::Variant;
use current_sweep::text::{parse_usize, split, trim};

fn text(b: Vec<u8>) -> String {
    String::from_utf8(b).unwrap()
}

fn field_value(f: &[u8], fallback: f64) -> f64 {
    std::str::from_utf8(f).ok().and_then(|s| s.parse::<f64>().ok()).unwrap_or(fallback)
}

#[test]
fn trace_with_bad_field_keeps_the_rest() {
    let points = map_trace(b"1.0,bad,3.0\n", DEFAULT_TRACE_POINTS);
    let values: Vec<f64> = points.iter().map(|p| field_value(&p.field, -100.0)).collect();
    assert_eq!(values, vec![1.0, -100.0, 3.0]);
}

#[test]
fn trace_maps_at_most_axis_points() {
    let points = map_trace(b"1,2,3,4,5", 3);
    assert_eq!(points.len(), 3);
    let w: Vec<u64> = points.iter().map(|p| p.wavelength_e4).collect();
    assert_eq!(w, vec![9_700_000, 9_800_000, 9_900_000]);
    assert_eq!(points[2].field, b"3".to_vec());
    let short = map_trace(b"-42.5", 3);
    assert_eq!(short.len(), 1);
    assert_eq!(short[0].wavelength_e4, 9_700_000);
    assert!(map_trace(b"1,2", 0).is_empty());
}

#[test]
fn wavelength_axis_of_three_points() {
    let axis: Vec<String> = (0..3)
        .map(|j| text(wavelength_label(axis_point(AXIS_START_E4, AXIS_STOP_E4, 3, j))))
        .collect();
    assert_eq!(axis, vec!["970.0000", "980.0000", "990.0000"]);
}

#[test]
fn wavelength_axis_rounds_to_nearest() {
    // 20 nm over 799 intervals: the second point is 970.02503... nm
    assert_eq!(axis_point(AXIS_START_E4, AXIS_STOP_E4, 800, 1), 9_700_250);
    assert_eq!(axis_point(AXIS_START_E4, AXIS_STOP_E4, 800, 799), 9_900_000);
    assert_eq!(axis_point(AXIS_START_E4, AXIS_STOP_E4, 1, 0), 9_700_000);
}

#[test]
fn completion_flag() {
    assert!(completion_confirmed(b"1"));
    assert!(completion_confirmed(b" 1\r\n"));
    assert!(!completion_confirmed(b"0"));
    assert!(!completion_confirmed(b"10"));
    assert!(!completion_confirmed(b""));
}

#[test]
fn trace_length_with_default() {
    assert_eq!(trace_length(b"1001\r\n"), 1001);
    assert_eq!(trace_length(b"  +5 "), 5);
    assert_eq!(trace_length(b"abc"), 800);
    assert_eq!(trace_length(b""), 800);
    assert_eq!(trace_length(b"-3"), 800);
    assert_eq!(trace_length(b"99999999999999999999999"), 800);
}

#[test]
fn parse_usize_bounds() {
    assert_eq!(parse_usize(b"18446744073709551615"), Some(usize::MAX));
    assert_eq!(parse_usize(b"18446744073709551616"), None);
    assert_eq!(parse_usize(b"+"), None);
    assert_eq!(parse_usize(b"0"), Some(0));
    assert_eq!(parse_usize(b"1 2"), None);
}

#[test]
fn split_and_trim_edges() {
    assert_eq!(split(b"", 44), vec![Vec::<u8>::new()]);
    assert_eq!(split(b"a,", 44), vec![b"a".to_vec(), Vec::new()]);
    assert_eq!(split(b",,b", 44), vec![Vec::new(), Vec::new(), b"b".to_vec()]);
    assert_eq!(trim(b" \t x y \r\n"), b"x y".to_vec());
    assert_eq!(trim(b"   "), Vec::<u8>::new());
}

#[test]
fn current_labels_round_to_hundredths() {
    assert_eq!(text(current_label(5_000)), "5.00");
    assert_eq!(text(current_label(1_234)), "1.23");
    assert_eq!(text(current_label(1_235)), "1.24");
    assert_eq!(text(current_label(5)), "0.01");
    assert_eq!(text(current_label(-15)), "-0.02");
    assert_eq!(text(current_label(100_000)), "100.00");
}

#[test]
fn record_texts() {
    assert_eq!(text(trace_file_name(12_340)), "trace_12.34mA.csv");
    assert_eq!(text(summary_header(Variant::SourceOnly)), "Current (mA)");
    assert_eq!(
        text(summary_header(Variant::Peak)),
        "Current (mA),Peak Wavelength (nm),Peak Power (dBm)"
    );
    assert_eq!(text(trace_header()), "Wavelength (nm),Power (dBm)");
}
