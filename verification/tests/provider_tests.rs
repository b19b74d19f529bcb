use airmode_tagger::cli::FlightDataSrc;
use airmode_tagger::providers::{
    FlightDataFileProvider, FlightRadar24ApiProvider, SECONDS_PER_DAY,
};

#[test]
fn file_provider_keeps_path() {
    let provider = FlightDataFileProvider::new(String::from("flight.json"));
    assert_eq!(provider.src_path, "flight.json");
}

#[test]
fn api_provider_normalizes_departure_to_midnight() {
    let provider =
        FlightRadar24ApiProvider::new(String::from("AM0001"), 3 * SECONDS_PER_DAY + 5000);
    assert_eq!(provider.flight_code, "AM0001");
    assert_eq!(provider.dod, 3 * SECONDS_PER_DAY);
}

#[test]
fn api_provider_keeps_exact_midnight() {
    let provider = FlightRadar24ApiProvider::new(String::from("AM0002"), 7 * SECONDS_PER_DAY);
    assert_eq!(provider.dod, 7 * SECONDS_PER_DAY);
}

#[test]
fn api_provider_floors_instants_before_the_epoch() {
    let provider = FlightRadar24ApiProvider::new(String::from("AM0003"), -1);
    assert_eq!(provider.dod, -SECONDS_PER_DAY);
    let provider = FlightRadar24ApiProvider::new(String::from("AM0004"), -SECONDS_PER_DAY);
    assert_eq!(provider.dod, -SECONDS_PER_DAY);
}

#[test]
fn source_labels() {
    assert_eq!(FlightDataSrc::Json.label(), "json");
    assert_eq!(FlightDataSrc::Api.label(), "api");
    assert_eq!(FlightDataSrc::Json, FlightDataSrc::Json);
    assert_ne!(FlightDataSrc::Json, FlightDataSrc::Api);
}
