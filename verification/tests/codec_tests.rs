use airmode_tagger::coord::{Converter, COORD_SCALE};
use airmode_tagger::result::GTError;

#[test]
fn dms_of_positive_coordinate() {
    // 40.6892 degrees, in fixed-point units.
    let coord: i64 = 406_892_000;
    let (degrees, minutes, seconds) = Converter::try_coord_to_dms(coord).unwrap();
    assert_eq!(degrees, 40);
    assert_eq!(minutes, 41);
    // 21.12 seconds, as an exact rational in lowest terms.
    assert_eq!(seconds, (528, 25));
}

#[test]
fn dms_reconstructs_decimal_value() {
    let coord: i64 = 406_892_000;
    let (degrees, minutes, (sec_n, sec_d)) = Converter::try_coord_to_dms(coord).unwrap();
    let rebuilt =
        degrees as f64 + minutes as f64 / 60.0 + (sec_n as f64 / sec_d as f64) / 3600.0;
    assert!((rebuilt - 40.6892).abs() < 1e-4);
}

#[test]
fn dms_of_negative_coordinate_saturates_degrees() {
    // The floor-based decomposition of a negative coordinate: the degree
    // component floors to -41 and then collapses to zero in the unsigned
    // encoding, while minutes and seconds come from the positive remainder.
    let coord: i64 = -406_892_000;
    let (degrees, minutes, seconds) = Converter::try_coord_to_dms(coord).unwrap();
    assert_eq!(degrees, 0);
    assert_eq!(minutes, 18);
    // 38.88 seconds in lowest terms.
    assert_eq!(seconds, (972, 25));
}

#[test]
fn dms_of_whole_degrees() {
    let coord: i64 = 20 * COORD_SCALE;
    let (degrees, minutes, seconds) = Converter::try_coord_to_dms(coord).unwrap();
    assert_eq!(degrees, 20);
    assert_eq!(minutes, 0);
    assert_eq!(seconds, (0, 1));
}

#[test]
fn dms_of_zero() {
    let (degrees, minutes, seconds) = Converter::try_coord_to_dms(0).unwrap();
    assert_eq!((degrees, minutes, seconds), (0, 0, (0, 1)));
}

#[test]
fn encode_altitude_at_or_above_sea_level() {
    assert_eq!(Converter::encode_altitude(0).unwrap(), (0, 0));
    assert_eq!(Converter::encode_altitude(10_000).unwrap(), (0, 10_000));
}

#[test]
fn encode_altitude_below_sea_level() {
    assert_eq!(Converter::encode_altitude(-420).unwrap(), (1, 420));
}

#[test]
fn encode_altitude_overflow_is_conversion_error() {
    let too_high = u32::MAX as i64 + 1;
    assert!(matches!(
        Converter::encode_altitude(too_high),
        Err(GTError::Conversion(_))
    ));
    assert!(matches!(
        Converter::encode_altitude(i64::MIN),
        Err(GTError::Conversion(_))
    ));
    assert_eq!(
        Converter::encode_altitude(u32::MAX as i64).unwrap(),
        (0, u32::MAX)
    );
    assert_eq!(
        Converter::encode_altitude(-(u32::MAX as i64)).unwrap(),
        (1, u32::MAX)
    );
}

#[test]
fn hemisphere_letters() {
    assert_eq!(Converter::latitude_ref(1), b'N');
    assert_eq!(Converter::latitude_ref(0), b'N');
    assert_eq!(Converter::latitude_ref(-1), b'S');
    assert_eq!(Converter::longitude_ref(1), b'E');
    assert_eq!(Converter::longitude_ref(0), b'E');
    assert_eq!(Converter::longitude_ref(-1), b'W');
}

#[test]
fn error_descriptions() {
    assert_eq!(
        GTError::TooOld(7).description(),
        "timestamp is older than the flight position data"
    );
    assert_eq!(
        GTError::TooNew(7).description(),
        "timestamp is newer than the flight position data"
    );
    assert_eq!(
        GTError::Conversion(String::new()).description(),
        "data conversion error"
    );
    assert_eq!(
        GTError::MissingField(String::new()).description(),
        "missing data error"
    );
    assert_eq!(
        GTError::MalformedTrack(String::new()).description(),
        "malformed track data"
    );
}
