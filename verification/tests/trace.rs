use gcode_trace::line::Line;
use gcode_trace::position::{compute_csv, Row};
use gcode_trace::program::{parse_string, Program};

#[test]
fn trace_carries_axes_forward() {
    // Two lines "X1.0", "Y2.0": row 0 knows only x, row 1 knows x and y.
    let program = parse_string("X1.0\nY2.0").unwrap();
    let rows = compute_csv(program);
    assert_eq!(rows.len(), 2);
    assert_eq!(
        rows[0],
        Row { timestamp: 0, x: Some("1.0".to_string()), y: None, z: None }
    );
    assert_eq!(
        rows[1],
        Row {
            timestamp: 1,
            x: Some("1.0".to_string()),
            y: Some("2.0".to_string()),
            z: None,
        }
    );
}

#[test]
fn trace_last_axis_value_in_a_line_wins() {
    let program = parse_string("X5.0 X7.0").unwrap();
    let rows = compute_csv(program);
    assert_eq!(rows.len(), 1);
    assert_eq!(rows[0].x, Some("7.0".to_string()));
    let x: f32 = rows[0].x.as_ref().unwrap().parse().unwrap();
    assert!((x - 7.0).abs() < 1e-6);
}

#[test]
fn trace_has_one_row_per_line() {
    let program = parse_string("G1\nX1.0 Y2.0 Z3.0\nG2\nZ4.0").unwrap();
    let n = program.lines.len();
    let rows = compute_csv(program);
    assert_eq!(rows.len(), n);
    // Once an axis is known it stays known in every later row.
    for i in 0..rows.len() {
        for j in i..rows.len() {
            assert!(rows[i].x.is_none() || rows[j].x.is_some());
            assert!(rows[i].y.is_none() || rows[j].y.is_some());
            assert!(rows[i].z.is_none() || rows[j].z.is_some());
        }
    }
}

#[test]
fn trace_rows_are_snapshots() {
    let program = parse_string("X1.0\nX2.0").unwrap();
    let rows = compute_csv(program);
    assert_eq!(rows[0].x, Some("1.0".to_string()));
    assert_eq!(rows[1].x, Some("2.0".to_string()));
}

#[test]
fn trace_timestamps_are_sequential() {
    let program = parse_string("G1\nG2\nG3").unwrap();
    let rows = compute_csv(program);
    for (i, row) in rows.iter().enumerate() {
        assert_eq!(row.timestamp, i as u64);
        assert!(row.x.is_none() && row.y.is_none() && row.z.is_none());
    }
}

#[test]
fn trace_of_empty_program_is_empty() {
    let program = Program::new();
    let rows = compute_csv(program);
    assert_eq!(rows.len(), 0);
}

#[test]
fn trace_ignores_non_axis_codes() {
    let program = parse_string("G1 F100.0 I1.0 J2.0 K3.0").unwrap();
    let rows = compute_csv(program);
    assert_eq!(rows.len(), 1);
    assert!(rows[0].x.is_none() && rows[0].y.is_none() && rows[0].z.is_none());
}

#[test]
fn row_from_line_collects_axes() {
    let line = Line::from_str("G1 X5.0 Z2.5 X7.0").unwrap();
    let row = Row::from_line(&line);
    assert_eq!(row.timestamp, 0);
    assert_eq!(row.x, Some("7.0".to_string()));
    assert_eq!(row.y, None);
    assert_eq!(row.z, Some("2.5".to_string()));
}
