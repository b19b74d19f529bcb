use airmode_tagger::coord::COORD_SCALE;
use airmode_tagger::flight_geodata::{FlightGeodata, GeoPosition};
use airmode_tagger::result::GTError;

fn sample(timestamp: i64, latitude: i64, longitude: i64, altitude: i64) -> GeoPosition {
    GeoPosition { timestamp, latitude, longitude, altitude }
}

fn two_sample_track(t0: i64) -> FlightGeodata {
    // (t0, lat 10.0, lon 20.0, alt 100) and (t0 + 10 s, lat 10.0, lon 20.2, alt 200).
    let positions = vec![
        sample(t0, 10 * COORD_SCALE, 20 * COORD_SCALE, 100),
        sample(t0 + 10, 10 * COORD_SCALE, 202 * COORD_SCALE / 10, 200),
    ];
    FlightGeodata::new(String::from("AM0001"), positions)
}

#[test]
fn exact_hit_returns_sample_unmodified() {
    let t0: i64 = 1_700_000_000;
    let track = two_sample_track(t0);
    let hit = track.get_position_from_datetime(t0).unwrap();
    assert_eq!(hit, sample(t0, 10 * COORD_SCALE, 20 * COORD_SCALE, 100));
    let hit = track.get_position_from_datetime(t0 + 10).unwrap();
    assert_eq!(hit, sample(t0 + 10, 10 * COORD_SCALE, 202 * COORD_SCALE / 10, 200));
}

#[test]
fn midpoint_lookup_interpolates() {
    let t0: i64 = 1_700_000_000;
    let track = two_sample_track(t0);
    let mid = track.get_position_from_datetime(t0 + 5).unwrap();
    assert_eq!(mid.timestamp, t0 + 5);
    assert_eq!(mid.latitude, 10 * COORD_SCALE);
    // lon 20.1 degrees.
    assert_eq!(mid.longitude, 201 * COORD_SCALE / 10);
    assert_eq!(mid.altitude, 150);
}

#[test]
fn interpolation_matches_linear_formula() {
    // Two adjacent samples, a query three tenths of the way through.
    let positions = vec![sample(1000, 100, 7000, -5), sample(1010, 200, 6000, 4)];
    let track = FlightGeodata::new(String::from("AM0002"), positions);
    let p = track.get_position_from_datetime(1003).unwrap();
    // lat0 + f * (lat1 - lat0) with f = 3/10, exactly.
    assert_eq!(p.latitude, 130);
    assert_eq!(p.longitude, 6700);
    // alt0 + f * (alt1 - alt0) = -5 + 0.3 * 9 = -2.3, truncated toward zero.
    assert_eq!(p.altitude, -2);
}

#[test]
fn lookup_before_first_sample_is_too_old() {
    let t0: i64 = 1_700_000_000;
    let track = two_sample_track(t0);
    assert_eq!(
        track.get_position_from_datetime(t0 - 1),
        Err(GTError::TooOld(t0))
    );
}

#[test]
fn lookup_after_last_sample_is_too_new() {
    let t0: i64 = 1_700_000_000;
    let track = two_sample_track(t0);
    assert_eq!(
        track.get_position_from_datetime(t0 + 11),
        Err(GTError::TooNew(t0 + 10))
    );
}

#[test]
fn construction_sorts_samples_by_timestamp() {
    let positions = vec![
        sample(30, 3, 3, 3),
        sample(10, 1, 1, 1),
        sample(20, 2, 2, 2),
    ];
    let track = FlightGeodata::new(String::from("AM0003"), positions);
    assert_eq!(track.get_position_from_datetime(10).unwrap(), sample(10, 1, 1, 1));
    assert_eq!(track.get_position_from_datetime(20).unwrap(), sample(20, 2, 2, 2));
    assert_eq!(track.get_position_from_datetime(30).unwrap(), sample(30, 3, 3, 3));
    // Interpolation brackets follow the sorted order.
    assert_eq!(track.get_position_from_datetime(15).unwrap(), sample(15, 1, 1, 1));
    assert_eq!(track.get_position_from_datetime(25).unwrap(), sample(25, 2, 2, 2));
}

#[test]
fn duplicate_timestamps_resolve_to_a_matching_sample() {
    let positions = vec![
        sample(10, 1, 1, 1),
        sample(20, 2, 2, 2),
        sample(20, 2, 2, 2),
        sample(30, 3, 3, 3),
    ];
    let track = FlightGeodata::new(String::from("AM0004"), positions);
    assert_eq!(track.get_position_from_datetime(20).unwrap(), sample(20, 2, 2, 2));
}

#[test]
fn single_sample_track_covers_one_instant() {
    let track = FlightGeodata::new(String::from("AM0005"), vec![sample(50, 5, 6, 7)]);
    assert_eq!(track.get_position_from_datetime(50).unwrap(), sample(50, 5, 6, 7));
    assert_eq!(track.get_position_from_datetime(49), Err(GTError::TooOld(50)));
    assert_eq!(track.get_position_from_datetime(51), Err(GTError::TooNew(50)));
}

#[test]
fn flight_code_is_kept() {
    let track = FlightGeodata::new(String::from("BA123"), vec![sample(0, 0, 0, 0)]);
    assert_eq!(track.flight_code, "BA123");
}
