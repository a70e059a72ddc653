use boresight::orbit::{OrbitError, Propagator};

const TLE1: &str = "1 58023U 23155H   26161.48719104  .00004557  00000+0  19207-3 0  9996";
const TLE2: &str = "2 58023  97.5689 243.0215 0003014  75.7594 284.3977 15.23841600147334";

/// TLE2 with a mean motion of zero, and its checksum digit recomputed.
const TLE2_STILL: &str = "2 58023  97.5689 243.0215 0003014  75.7594 284.3977  0.00000000147334";

fn utc(ns: i128) -> chrono::DateTime<chrono::Utc> {
    let secs = ns.div_euclid(1_000_000_000) as i64;
    let nanos = ns.rem_euclid(1_000_000_000) as u32;
    chrono::DateTime::from_timestamp(secs, nanos).unwrap()
}

#[test]
fn epoch_parsed() {
    let p = Propagator::from_tle(TLE1, TLE2).unwrap();
    assert_eq!(utc(p.epoch()).format("%Y-%m-%dT%H:%M").to_string(), "2026-06-10T11:41");
}

#[test]
fn epoch_keeps_the_fraction_of_a_millisecond() {
    let p = Propagator::from_tle(TLE1, TLE2).unwrap();
    let whole = chrono::DateTime::parse_from_rfc3339("2026-06-10T11:41:33Z").unwrap();
    let base = whole.timestamp() as i128 * 1_000_000_000;
    let past = p.epoch() - base;
    assert!((305_855_000..=305_857_000).contains(&past), "{past}");
}

#[test]
fn bad_tle_errors() {
    assert!(Propagator::from_tle("not", "a tle").is_err());
}

#[test]
fn bad_tle_is_a_tle_error() {
    assert!(matches!(Propagator::from_tle("not", "a tle"), Err(OrbitError::Tle)));
    assert!(matches!(Propagator::from_tle(TLE2, TLE1), Err(OrbitError::Tle)));
}

#[test]
fn checksum_byte_below_zero_is_a_tle_error() {
    let line1 = format!("{} ", &TLE1[..68]);
    assert!(matches!(Propagator::from_tle(&line1, TLE2), Err(OrbitError::Tle)));
    let line2 = format!("{}!", &TLE2[..68]);
    assert!(matches!(Propagator::from_tle(TLE1, &line2), Err(OrbitError::Tle)));
}

#[test]
fn zero_mean_motion_is_an_elements_error() {
    assert!(matches!(Propagator::from_tle(TLE1, TLE2_STILL), Err(OrbitError::Elements)));
}
