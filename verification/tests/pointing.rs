use boresight::pointing::{
    attitude_rows, interpolation_bracket, order_by_time, read_attitude_csv, Bracket, ColumnSpec,
    TrackError,
};

#[test]
fn column_spec_default() {
    let c = ColumnSpec::default();
    assert_eq!(
        (c.time, c.x, c.y, c.z, c.w),
        (
            "time".into(),
            "qx".into(),
            "qy".into(),
            "qz".into(),
            "qw".into(),
        )
    );
}

fn ns(s: &str) -> i128 {
    let t = chrono::DateTime::parse_from_rfc3339(s).unwrap();
    t.timestamp() as i128 * 1_000_000_000 + t.timestamp_subsec_nanos() as i128
}

#[test]
fn read_attitude_csv_default_columns() {
    let csv = "time,qx,qy,qz,qw\n\
               2026-06-10T21:21:10Z,0,0,0.70710678,0.70710678\n\
               2026-06-10T21:21:00Z,0,0,0,1\n";
    let table = read_attitude_csv(csv.as_bytes(), &ColumnSpec::default()).unwrap();
    assert!(table.stop.is_none());
    let rows = table.rows;
    assert_eq!(rows.len(), 2);
    // Rows keep the order of the data.
    assert_eq!(rows[0].t_ns, ns("2026-06-10T21:21:10Z"));
    assert_eq!(rows[1].t_ns, ns("2026-06-10T21:21:00Z"));
    assert_eq!(rows[0].z, "0.70710678");
    assert_eq!(rows[1].w, "1");
}

#[test]
fn from_reader_default_columns_and_sort() {
    // Second row is earlier in time; the samples sort by time.
    let csv = "time,qx,qy,qz,qw\n\
               2026-06-10T21:21:10Z,0,0,0.70710678,0.70710678\n\
               2026-06-10T21:21:00Z,0,0,0,1\n";
    let table = read_attitude_csv(csv.as_bytes(), &ColumnSpec::default()).unwrap();
    let rows = table.rows.clone();
    assert_eq!(rows.len(), 2);
    let order = table.finish().unwrap();
    assert_eq!(order, vec![1, 0]);
    let (first, last) = (&rows[order[0]], &rows[order[1]]);
    assert!(first.t_ns < last.t_ns);
    // First (sorted) sample is the identity quaternion.
    assert_eq!(
        (first.x.as_str(), first.y.as_str(), first.z.as_str(), first.w.as_str()),
        ("0", "0", "0", "1")
    );
}

#[test]
fn from_reader_custom_columns() {
    let csv = "t,a,b,c,d\n2026-06-10T21:21:00Z,0,0,0,1\n2026-06-10T21:21:10Z,0,0,0,1\n";
    let cols = ColumnSpec {
        time: "t".into(),
        x: "a".into(),
        y: "b".into(),
        z: "c".into(),
        w: "d".into(),
    };
    assert!(read_attitude_csv(csv.as_bytes(), &cols).unwrap().finish().is_ok());
}

#[test]
fn read_attitude_csv_custom_and_padded_columns() {
    let csv = "t, a ,b,c,d\n2026-06-10T21:21:00Z, 0.5 ,0,0,1\n2026-06-10T21:21:10Z,0,0,0,1\n";
    let cols = ColumnSpec {
        time: "t".into(),
        x: "a".into(),
        y: "b".into(),
        z: "c".into(),
        w: "d".into(),
    };
    let rows = read_attitude_csv(csv.as_bytes(), &cols).unwrap().rows;
    assert_eq!(rows[0].x, "0.5");
}

#[test]
fn read_attitude_csv_errors() {
    // Missing a quaternion column.
    let bad = "time,qx,qy,qz\n2026-06-10T21:21:00Z,0,0,0\n2026-06-10T21:21:10Z,0,0,0\n";
    match read_attitude_csv(bad.as_bytes(), &ColumnSpec::default()) {
        Err(TrackError::MissingColumn { name }) => assert_eq!(name, "qw"),
        other => panic!("unexpected {:?}", other),
    }
    // Fewer than two samples.
    let one = "time,qx,qy,qz,qw\n2026-06-10T21:21:00Z,0,0,0,1\n";
    let table = read_attitude_csv(one.as_bytes(), &ColumnSpec::default()).unwrap();
    assert_eq!(table.rows.len(), 1);
    assert!(matches!(table.finish(), Err(TrackError::TooFewSamples)));
    // Unparseable timestamp.
    let badt = "time,qx,qy,qz,qw\nnot-a-time,0,0,0,1\n2026-06-10T21:21:10Z,0,0,0,1\n";
    let table = read_attitude_csv(badt.as_bytes(), &ColumnSpec::default()).unwrap();
    assert!(table.rows.is_empty());
    match table.finish() {
        Err(TrackError::Time { text }) => assert_eq!(text, "not-a-time"),
        other => panic!("unexpected {:?}", other),
    }
    // Records of unequal length.
    let ragged = "time,qx,qy,qz,qw\n2026-06-10T21:21:00Z,0,0\n2026-06-10T21:21:10Z,0,0,0,1\n";
    let table = read_attitude_csv(ragged.as_bytes(), &ColumnSpec::default()).unwrap();
    assert!(table.rows.is_empty());
    assert!(matches!(table.finish(), Err(TrackError::Csv)));
}

#[test]
fn reading_stops_at_the_first_refused_record() {
    // The rows before a bad time or a ragged record are kept, so that their
    // quaternions are checked before the stopping error is reported.
    let late_time = "time,qx,qy,qz,qw\n2026-06-10T21:21:00Z,foo,0,0,1\nlater,0,0,0,1\n";
    let table = read_attitude_csv(late_time.as_bytes(), &ColumnSpec::default()).unwrap();
    assert_eq!(table.rows.len(), 1);
    assert_eq!(table.rows[0].x, "foo");
    assert!(matches!(&table.stop, Some(TrackError::Time { text }) if text == "later"));
    let late_ragged =
        "time,qx,qy,qz,qw\n2026-06-10T21:21:00Z,0,0,0,1\n2026-06-10T21:21:10Z,0\nbad,0,0,0,1\n";
    let table = read_attitude_csv(late_ragged.as_bytes(), &ColumnSpec::default()).unwrap();
    assert_eq!(table.rows.len(), 1);
    assert!(matches!(table.stop, Some(TrackError::Csv)));
}

#[test]
fn attitude_rows_from_a_table() {
    let h: Vec<String> = vec!["qw".into(), " time ".into(), "qx".into(), "qy".into(), "qz".into()];
    let rows = vec![vec![
        "1".to_string(),
        " 2026-06-10T21:21:00Z ".to_string(),
        "2".to_string(),
        "3".to_string(),
        "4".to_string(),
    ]];
    let out = attitude_rows(&h, &rows, true, &ColumnSpec::default()).unwrap().rows;
    assert_eq!(out.len(), 1);
    assert_eq!(out[0].t_ns, ns("2026-06-10T21:21:00Z"));
    assert_eq!((out[0].x.as_str(), out[0].w.as_str()), ("2", "1"));
    // The first missing column, in the order time, x, y, z, w, is reported.
    let h2: Vec<String> = vec!["qz".into(), "qw".into()];
    match attitude_rows(&h2, &vec![], true, &ColumnSpec::default()) {
        Err(TrackError::MissingColumn { name }) => assert_eq!(name, "time"),
        other => panic!("unexpected {:?}", other),
    }
}

#[test]
fn order_by_time_is_a_stable_sort() {
    assert_eq!(order_by_time(&vec![30, 10, 20, 10, 5]), vec![4, 1, 3, 2, 0]);
    assert_eq!(order_by_time(&vec![1, 2, 3]), vec![0, 1, 2]);
    assert_eq!(order_by_time(&vec![7, 7, 7]), vec![0, 1, 2]);
    assert_eq!(order_by_time(&vec![]), Vec::<usize>::new());
}

#[test]
fn interpolation_bracket_clamps_and_locates() {
    let times = [0, 10_000, 20_000, 30_000];
    assert_eq!(interpolation_bracket(&times, -5_000), Bracket::First);
    assert_eq!(interpolation_bracket(&times, 0), Bracket::First);
    assert_eq!(interpolation_bracket(&times, 30_000), Bracket::Last);
    assert_eq!(interpolation_bracket(&times, 50_000), Bracket::Last);
    assert_eq!(interpolation_bracket(&times, 5_000), Bracket::Between(0));
    assert_eq!(interpolation_bracket(&times, 10_000), Bracket::Between(0));
    assert_eq!(interpolation_bracket(&times, 10_001), Bracket::Between(1));
    assert_eq!(interpolation_bracket(&times, 29_999), Bracket::Between(2));
}

#[test]
fn samples_a_fraction_of_a_millisecond_apart_sort_by_time() {
    let csv = "time,qx,qy,qz,qw\n\
               2026-06-10T21:21:00.0004Z,0,0,0,1\n\
               2026-06-10T21:21:00.0001Z,0,0,1,0\n";
    let rows = read_attitude_csv(csv.as_bytes(), &ColumnSpec::default()).unwrap().rows;
    assert_eq!(rows[0].t_ns - rows[1].t_ns, 300_000);
    let order = order_by_time(&rows.iter().map(|r| r.t_ns).collect());
    assert_eq!(order, vec![1, 0]);
}
