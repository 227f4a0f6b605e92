use beving_backend::induced::{
    induced_bevingen, induced_bevingen_geojson, induced_bevingen_geojson_query, QueryParams,
};
use beving_backend::knmidata::{normalize_batch, get_year, InducedBeving, RawEventRecord};
use beving_backend::numeric::{parse_decimal_nano, parse_raw_number, RawNumber};
use beving_backend::refresh::{CacheStore, FetchOutcome};
use beving_backend::rijksdriehoekstelsel::WGS84Coordinate;
use beving_backend::timestamp::{parse_date_string, Timestamp, TimestampOutcome};

fn raw(date: &str, time: &str, depth: &str, lat: &str, lon: &str, mag: &str) -> RawEventRecord {
    RawEventRecord {
        date: date.to_string(),
        depth: RawNumber::Text(depth.to_string()),
        evaluation_mode: "manual".to_string(),
        lat: RawNumber::Text(lat.to_string()),
        lon: RawNumber::Text(lon.to_string()),
        mag: RawNumber::Text(mag.to_string()),
        place: "Loppersum".to_string(),
        time: time.to_string(),
        type_: "induced".to_string(),
    }
}

fn ts(year: i32, month: u8, day: u8, hour: u8, minute: u8, second: u8) -> Timestamp {
    Timestamp { year, month, day, hour, minute, second }
}

#[test]
fn test_wgs84_to_rd() {
    // 52.37214383811702 and 4.905597604352241 degrees, in nano-degrees.
    let wgs84 = WGS84Coordinate { lat: 52_372_143_838, lon: 4_905_597_604 };
    let rd = wgs84.to_rdnew();

    let wgs84_twee = WGS84Coordinate::new(53_310_000_000, 6_560_000_000);
    let rd_twee = wgs84_twee.to_rdnew();
    assert_eq!(122202, rd.x);
    assert_eq!(487250, rd.y);
    assert_eq!(233171, rd_twee.x);
    assert_eq!(592141, rd_twee.y)
}

#[test]
fn test_wgs84_to_rd_deterministic() {
    let a = WGS84Coordinate::new(53_310_000_000, 6_560_000_000).to_rdnew();
    let b = WGS84Coordinate::new(53_310_000_000, 6_560_000_000).to_rdnew();
    assert_eq!(a, b);
}

#[test]
fn test_parse_date_string() {
    let datestring: &str = "2023-05-03 07:31:24".as_ref();
    let dt = ts(2023, 5, 3, 7, 31, 24);
    let parsed_datestring = parse_date_string(datestring);

    assert_eq!(parsed_datestring, TimestampOutcome::Parsed(dt))
}

#[test]
fn test_parse_date_string_malformed() {
    let parsed = parse_date_string("not a date");
    assert_eq!(parsed, TimestampOutcome::Invalid("not a date".to_string()));
    assert_eq!(parsed.key(), Timestamp::min_value());
}

#[test]
fn test_parse_date_string_calendar() {
    // No 30th of February, leap years decide the 29th.
    assert_eq!(
        parse_date_string("2023-02-30 00:00:00"),
        TimestampOutcome::Invalid("2023-02-30 00:00:00".to_string())
    );
    assert_eq!(
        parse_date_string("2023-02-29 00:00:00"),
        TimestampOutcome::Invalid("2023-02-29 00:00:00".to_string())
    );
    assert_eq!(
        parse_date_string("2024-02-29 00:00:00"),
        TimestampOutcome::Parsed(ts(2024, 2, 29, 0, 0, 0))
    );
    assert_eq!(
        parse_date_string("2000-02-29 12:00:00"),
        TimestampOutcome::Parsed(ts(2000, 2, 29, 12, 0, 0))
    );
    assert_eq!(
        parse_date_string("1900-02-29 00:00:00"),
        TimestampOutcome::Invalid("1900-02-29 00:00:00".to_string())
    );
}

#[test]
fn test_numeric_number_and_string_agree() {
    let as_number = parse_raw_number(&RawNumber::Number("5.3".to_string()));
    let as_text = parse_raw_number(&RawNumber::Text("5.3".to_string()));
    assert_eq!(as_number, Some(5_300_000_000));
    assert_eq!(as_number, as_text);
}

#[test]
fn test_numeric_forms() {
    assert_eq!(parse_decimal_nano("3"), Some(3_000_000_000));
    assert_eq!(parse_decimal_nano("007"), Some(7_000_000_000));
    assert_eq!(parse_decimal_nano("-1.5"), Some(-1_500_000_000));
    assert_eq!(parse_decimal_nano("+2.25"), Some(2_250_000_000));
    assert_eq!(parse_decimal_nano("0.123456789"), Some(123_456_789));
    // The tenth fraction digit rounds, ties upward in magnitude.
    assert_eq!(parse_decimal_nano("1.0000000005"), Some(1_000_000_001));
    assert_eq!(parse_decimal_nano("1.00000000049"), Some(1_000_000_000));
    assert_eq!(parse_decimal_nano(""), None);
    assert_eq!(parse_decimal_nano(".5"), None);
    assert_eq!(parse_decimal_nano("5."), None);
    assert_eq!(parse_decimal_nano("1.2.3"), None);
    assert_eq!(parse_decimal_nano("abc"), None);
    assert_eq!(parse_decimal_nano("-"), None);
    assert_eq!(parse_decimal_nano("99999999999999999999"), None);
}

#[test]
fn test_get_year() {
    assert_eq!(get_year("2023-05-03"), 2023);
    assert_eq!(get_year("1986"), 1986);
}

#[test]
fn test_timestamp_order() {
    assert!(ts(2022, 12, 31, 23, 59, 59).le(ts(2023, 1, 1, 0, 0, 0)));
    assert!(!ts(2023, 1, 1, 0, 0, 1).le(ts(2023, 1, 1, 0, 0, 0)));
    assert!(ts(2023, 5, 3, 7, 31, 24).le(ts(2023, 5, 3, 7, 31, 24)));
    assert!(Timestamp::min_value().le(ts(0, 1, 1, 0, 0, 0)));
}

#[test]
fn test_normalize_drops_unparseable_record() {
    let batch = vec![
        raw("2023-05-03", "07:31:24", "3", "53.310", "6.560", "1.2"),
        raw("2023-06-01", "01:02:03", "3", "53.310", "6.560", "abc"),
    ];
    let (events, features) = normalize_batch(&batch);
    assert_eq!(events.events.len(), 1);
    assert_eq!(features.features.len(), 1);
    assert_eq!(events.events[0].date, "2023-05-03");
}

#[test]
fn test_normalize_keeps_bad_date_with_sentinel() {
    let batch = vec![raw("never", "whenever", "3", "53.310", "6.560", "1.2")];
    let (events, features) = normalize_batch(&batch);
    assert_eq!(events.events.len(), 1);
    assert_eq!(
        features.features[0].datetime,
        TimestampOutcome::Invalid("never whenever".to_string())
    );
    assert_eq!(features.features[0].properties.year, 0);
}

#[test]
fn test_snapshot_views_aligned() {
    let mut store = CacheStore::new();
    store.refresh(FetchOutcome::Fetched(vec![
        raw("2020-01-01", "00:00:00", "3", "53.310", "6.560", "1.2"),
        raw("2023-05-03", "07:31:24", "3", "52.372143838", "4.905597604", "2.5"),
    ]));
    let snapshot = store.read();
    assert_eq!(snapshot.events.events.len(), snapshot.features.features.len());
    for (event, feature) in snapshot.events.events.iter().zip(snapshot.features.features.iter()) {
        assert_eq!(event.date, feature.properties.date);
        assert_eq!(event.place, feature.properties.place);
        assert_eq!(event.depth, feature.properties.depth);
        assert_eq!(event.mag, feature.properties.mag);
    }
    assert_eq!(snapshot.features.type_, "FeatureCollection");
}

#[test]
fn test_refresh_empty_keeps_cache() {
    let mut store = CacheStore::new();
    store.refresh(FetchOutcome::Fetched(vec![raw(
        "2023-05-03",
        "07:31:24",
        "3",
        "53.310",
        "6.560",
        "1.2",
    )]));
    assert_eq!(store.read().events.events.len(), 1);

    store.refresh(FetchOutcome::Fetched(vec![]));
    assert_eq!(store.read().events.events.len(), 1);
    assert_eq!(store.read().events.events[0].date, "2023-05-03");

    store.refresh(FetchOutcome::FetchFailed);
    assert_eq!(store.read().events.events.len(), 1);

    // A batch whose only record is dropped also keeps the cache.
    store.refresh(FetchOutcome::Fetched(vec![raw(
        "2024-01-01",
        "00:00:00",
        "x",
        "53.310",
        "6.560",
        "1.2",
    )]));
    assert_eq!(store.read().events.events.len(), 1);
    assert_eq!(store.read().events.events[0].date, "2023-05-03");
}

#[test]
fn test_refresh_replaces_cache_whole() {
    let mut store = CacheStore::new();
    store.refresh(FetchOutcome::Fetched(vec![raw(
        "2020-01-01",
        "00:00:00",
        "3",
        "53.310",
        "6.560",
        "1.2",
    )]));
    store.refresh(FetchOutcome::Fetched(vec![
        raw("2022-02-02", "02:02:02", "3", "53.310", "6.560", "1.2"),
        raw("2023-03-03", "03:03:03", "3", "53.310", "6.560", "1.2"),
    ]));
    let snapshot = store.read();
    assert_eq!(snapshot.events.events.len(), 2);
    assert_eq!(snapshot.events.events[0].date, "2022-02-02");
    assert_eq!(snapshot.events.events[1].date, "2023-03-03");
}

#[test]
fn test_features_in_range() {
    let mut store = CacheStore::new();
    store.refresh(FetchOutcome::Fetched(vec![
        raw("2020-06-15", "12:00:00", "3", "53.310", "6.560", "1.2"),
        raw("2023-01-01", "00:00:00", "3", "53.310", "6.560", "1.2"),
        raw("2023-12-31", "23:59:59", "3", "53.310", "6.560", "1.2"),
        raw("2024-01-01", "00:00:00", "3", "53.310", "6.560", "1.2"),
    ]));
    let one_year = induced_bevingen_geojson_query(
        &store,
        &QueryParams { start_year: 2023, end_year: 2023 },
    );
    assert_eq!(one_year.features.len(), 2);
    assert_eq!(one_year.features[0].properties.date, "2023-01-01");
    assert_eq!(one_year.features[1].properties.date, "2023-12-31");

    let wide = induced_bevingen_geojson_query(
        &store,
        &QueryParams { start_year: 2020, end_year: 2024 },
    );
    assert_eq!(wide.features.len(), 4);

    let reversed = induced_bevingen_geojson_query(
        &store,
        &QueryParams { start_year: 2025, end_year: 2020 },
    );
    assert_eq!(reversed.features.len(), 0);
    assert_eq!(reversed.type_, "FeatureCollection");
}

#[test]
fn test_end_to_end_feed() {
    // One raw feed record, exactly as the upstream document carries it.
    let feed = vec![raw("2023-05-03", "07:31:24", "3", "53.310", "6.560", "1.2")];
    let mut store = CacheStore::new();
    store.refresh(FetchOutcome::Fetched(feed));

    let events = induced_bevingen(&store);
    assert_eq!(events.events.len(), 1);
    assert_eq!(events.events[0].lat, 53_310_000_000);
    assert_eq!(events.events[0].mag, 1_200_000_000);

    let features = induced_bevingen_geojson(&store);
    assert_eq!(features.features[0].geometry.coordinates, (233171, 592141));
    assert_eq!(features.features[0].geometry.type_, "Point");
    assert_eq!(features.features[0].type_, "Feature");
    assert_eq!(features.features[0].properties.year, 2023);
    assert_eq!(
        features.features[0].datetime,
        TimestampOutcome::Parsed(ts(2023, 5, 3, 7, 31, 24))
    );

    let hit = induced_bevingen_geojson_query(
        &store,
        &QueryParams { start_year: 2023, end_year: 2023 },
    );
    assert_eq!(hit.features.len(), 1);
    let miss = induced_bevingen_geojson_query(
        &store,
        &QueryParams { start_year: 2024, end_year: 2025 },
    );
    assert_eq!(miss.features.len(), 0);
}

#[test]
fn test_record_outside_domain_dropped() {
    // A latitude beyond the poles cannot be projected; the record is dropped.
    let batch = vec![raw("2023-05-03", "07:31:24", "3", "95.0", "6.560", "1.2")];
    let (events, features) = normalize_batch(&batch);
    assert_eq!(events.events.len(), 0);
    assert_eq!(features.features.len(), 0);
}

#[test]
fn test_domain_event_fields_kept() {
    let record = raw("2023-05-03", "07:31:24", "3.25", "53.310", "6.560", "1.2");
    let event = InducedBeving::from_raw(&record).unwrap();
    assert_eq!(event.date, "2023-05-03");
    assert_eq!(event.time, "07:31:24");
    assert_eq!(event.depth, 3_250_000_000);
    assert_eq!(event.evaluation_mode, "manual");
    assert_eq!(event.place, "Loppersum");
    assert_eq!(event.type_, "induced");
}
