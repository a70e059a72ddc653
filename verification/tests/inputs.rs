use boresight::inputs::{
    marker_with_time, parse_columns, parse_markers, parse_tle_lines, pick, resolve_columns,
    split_marker, split_windows, target_source, tle_source, InputError, TargetSource, TleSource,
};

#[test]
fn pick_prefers_explicit_then_config_then_default() {
    // Explicit CLI argument wins, even over a config value.
    assert_eq!(pick(true, 40.0, Some(60.0)), 40.0);
    // No explicit CLI: the config value is used.
    assert_eq!(pick(false, 1.0, Some(60.0)), 60.0);
    // No explicit CLI and no config: the CLI default is used.
    assert_eq!(pick(false, 1.0, None), 1.0);
}

#[test]
fn parse_columns_ok_and_err() {
    let c = parse_columns("a,b,c,d", "t").unwrap();
    assert_eq!((c.time, c.x, c.w), ("t".into(), "a".into(), "d".into()));
    assert!(parse_columns("a,b,c", "t").is_err());
}

#[test]
fn parse_columns_trims_names() {
    let c = parse_columns(" ukf_X x , ukf_X y,ukf_X z,  ukf_X k ", "time").unwrap();
    assert_eq!(c.x, "ukf_X x");
    assert_eq!(c.y, "ukf_X y");
    assert_eq!(c.z, "ukf_X z");
    assert_eq!(c.w, "ukf_X k");
    match parse_columns("a,b,c,d,e", "t") {
        Err(InputError::QuatColumns { given }) => assert_eq!(given, "a,b,c,d,e"),
        other => panic!("unexpected {:?}", other),
    }
}

#[test]
fn parse_tle_lines_2le_3le_and_bad() {
    let (a, b) = parse_tle_lines("1 AAA\n2 BBB\n").unwrap();
    assert_eq!((a.as_str(), b.as_str()), ("1 AAA", "2 BBB"));
    let (_, b3) = parse_tle_lines("OBJECT\n1 AAA\n2 BBB\n").unwrap();
    assert_eq!(b3, "2 BBB");
    assert!(parse_tle_lines("just one line").is_err());
}

#[test]
fn parse_tle_lines_trims_skips_blanks_and_falls_back() {
    // CRLF endings, indentation and blank lines.
    let (a, b) = parse_tle_lines("\r\n  ISS  \r\n\r\n 1 L1 \r\n2 L2\r\n\n").unwrap();
    assert_eq!((a.as_str(), b.as_str()), ("1 L1", "2 L2"));
    // Element lines out of order are still picked by their prefix.
    let (a, b) = parse_tle_lines("2 second\nname\n1 first\n").unwrap();
    assert_eq!((a.as_str(), b.as_str()), ("1 first", "2 second"));
    // Without the prefixes, the last two non-empty lines.
    let (a, b) = parse_tle_lines("x\ny\nz\n\n").unwrap();
    assert_eq!((a.as_str(), b.as_str()), ("y", "z"));
    // "1" without the space is no element-line prefix.
    let (a, b) = parse_tle_lines("1X\n2 B\nC").unwrap();
    assert_eq!((a.as_str(), b.as_str()), ("2 B", "C"));
    assert!(matches!(parse_tle_lines(""), Err(InputError::NoElementLines)));
    assert!(matches!(parse_tle_lines("\n \n\t\n"), Err(InputError::NoElementLines)));
}

#[test]
fn parse_markers_ok_and_err() {
    let m = parse_markers(&["aos=2026-06-10T21:21:23Z".to_string()]).unwrap();
    assert_eq!(m[0].0, "aos");
    assert!(parse_markers(&["nope".to_string()]).is_err());
}

#[test]
fn parse_markers_values_and_errors() {
    let m = parse_markers(&[
        " app-start = 2026-06-10T21:21:23Z ".to_string(),
        "epoch=1970-01-01T00:00:01.5Z".to_string(),
    ])
    .unwrap();
    assert_eq!(m.len(), 2);
    assert_eq!(m[0].0, "app-start");
    let expected = chrono::DateTime::parse_from_rfc3339("2026-06-10T21:21:23Z")
        .unwrap()
        .timestamp() as i128
        * 1_000_000_000;
    assert_eq!(m[0].1, expected);
    assert_eq!(m[1].1, 1_500_000_000);
    // Only the first '=' splits.
    let m = parse_markers(&["a=b=2026-06-10T21:21:23Z".to_string()]);
    match m {
        Err(InputError::MarkerTime { time }) => assert_eq!(time, "b=2026-06-10T21:21:23Z"),
        other => panic!("unexpected {:?}", other),
    }
    match parse_markers(&["ok=2026-06-10T21:21:23Z".to_string(), "bad".to_string()]) {
        Err(InputError::MarkerSyntax { spec }) => assert_eq!(spec, "bad"),
        other => panic!("unexpected {:?}", other),
    }
    assert!(parse_markers(&[]).unwrap().is_empty());
}

#[test]
fn split_marker_and_marker_with_time() {
    let (l, t) = split_marker(" lbl = x ").unwrap();
    assert_eq!((l.as_str(), t.as_str()), ("lbl", "x"));
    assert!(matches!(split_marker("no equals"), Err(InputError::MarkerSyntax { .. })));
    let (l, ms) = marker_with_time("a".to_string(), "t".to_string(), Some(42)).unwrap();
    assert_eq!((l.as_str(), ms), ("a", 42));
    match marker_with_time("a".to_string(), "t".to_string(), None) {
        Err(InputError::MarkerTime { time }) => assert_eq!(time, "t"),
        other => panic!("unexpected {:?}", other),
    }
}

#[test]
fn parse_windows_ok_and_err() {
    let w: Vec<(f64, f64)> = split_windows("0:5, 10:15")
        .unwrap()
        .iter()
        .map(|(a, b)| (a.parse().unwrap(), b.parse().unwrap()))
        .collect();
    assert_eq!(w.len(), 2);
    assert_eq!((w[0].0, w[0].1), (0.0, 5.0));
    assert!(split_windows("0-5").is_err());
}

#[test]
fn split_windows_ok_and_err() {
    let w = split_windows("0:5, 10:15").unwrap();
    assert_eq!(w.len(), 2);
    assert_eq!((w[0].0.as_str(), w[0].1.as_str()), ("0", "5"));
    assert_eq!((w[1].0.as_str(), w[1].1.as_str()), ("10", "15"));
    assert!(split_windows("0-5").is_err());
    match split_windows("1:2,3-4,x") {
        Err(InputError::WindowSyntax { token }) => assert_eq!(token, "3-4"),
        other => panic!("unexpected {:?}", other),
    }
    let w = split_windows(" 9.9 : 29.9 ").unwrap();
    assert_eq!((w[0].0.as_str(), w[0].1.as_str()), ("9.9", "29.9"));
}

#[test]
fn resolve_columns_precedence() {
    let cfg = Some(vec!["a".to_string(), "b".to_string(), "c".to_string(), "d".to_string()]);
    // Explicit flag wins over the config.
    let c = resolve_columns(true, "p,q,r,s", cfg.clone(), "t".to_string()).unwrap();
    assert_eq!((c.x.as_str(), c.w.as_str()), ("p", "s"));
    // Otherwise the config's names.
    let c = resolve_columns(false, "p,q,r,s", cfg, "t".to_string()).unwrap();
    assert_eq!((c.time.as_str(), c.x.as_str(), c.w.as_str()), ("t", "a", "d"));
    // A config list of the wrong length is refused.
    let bad = Some(vec!["a".to_string()]);
    assert!(matches!(
        resolve_columns(false, "p,q,r,s", bad, "t".to_string()),
        Err(InputError::ConfigQuatColumns)
    ));
    // No config: the command line's list.
    let c = resolve_columns(false, "qx,qy,qz,qw", None, "time".to_string()).unwrap();
    assert_eq!(c.y, "qy");
}

#[test]
fn tle_source_precedence() {
    let s = |x: &str| Some(x.to_string());
    match tle_source(s("f.tle"), s("1 a"), s("2 b"), None, None).unwrap() {
        TleSource::File { path, in_config } => assert_eq!((path.as_str(), in_config), ("f.tle", false)),
        other => panic!("unexpected {:?}", other),
    }
    match tle_source(None, s("1 a"), s("2 b"), Some(vec!["x".into(), "y".into()]), None).unwrap() {
        TleSource::Lines { line1, line2 } => assert_eq!((line1.as_str(), line2.as_str()), ("1 a", "2 b")),
        other => panic!("unexpected {:?}", other),
    }
    // Only one inline line: fall through to the config.
    match tle_source(None, s("1 a"), None, Some(vec!["x".into(), "y".into(), "z".into()]), s("g")).unwrap() {
        TleSource::Lines { line1, line2 } => assert_eq!((line1.as_str(), line2.as_str()), ("x", "y")),
        other => panic!("unexpected {:?}", other),
    }
    assert!(matches!(
        tle_source(None, None, None, Some(vec!["x".into()]), s("g")),
        Err(InputError::ConfigTleLines)
    ));
    match tle_source(None, None, None, None, s("g.tle")).unwrap() {
        TleSource::File { path, in_config } => assert_eq!((path.as_str(), in_config), ("g.tle", true)),
        other => panic!("unexpected {:?}", other),
    }
    assert!(matches!(tle_source(None, None, None, None, None), Err(InputError::NoTle)));
}

#[test]
fn target_source_precedence() {
    assert_eq!(target_source(true, true, Some(3), true).unwrap(), TargetSource::CliEcef);
    assert_eq!(target_source(false, true, Some(3), true).unwrap(), TargetSource::CliLatLon);
    assert_eq!(target_source(false, false, Some(3), true).unwrap(), TargetSource::ConfigEcef);
    assert!(matches!(target_source(false, false, Some(2), true), Err(InputError::ConfigTargetEcef)));
    assert_eq!(target_source(false, false, None, true).unwrap(), TargetSource::ConfigLatLon);
    assert!(matches!(target_source(false, false, None, false), Err(InputError::NoTarget)));
}
