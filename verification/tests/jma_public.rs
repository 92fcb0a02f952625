use jma_station_master::input::code_table_xlsx::CodeTableRow;
use jma_station_master::input::jma_public::{build, joins_fit, parse_affiliation, RawStation};
use jma_station_master::input::{RawCoordinate, Snapshot};
use jma_station_master::model::{Provider, Scope};
use jma_station_master::time::parse_timestamp;

fn row(point_code: &str, point_name: &str) -> CodeTableRow {
    CodeTableRow {
        region_code: "900".to_owned(),
        region_name: "甲野地方北部".to_owned(),
        region_kana: Some("コウノチホウホクブ".to_owned()),
        city_code: "0999100".to_owned(),
        city_name: "甲野市".to_owned(),
        city_kana: Some("コウノシ".to_owned()),
        point_code: point_code.to_owned(),
        point_name: point_name.to_owned(),
        point_kana: Some("コウノシヤマカワ".to_owned()),
    }
}

fn published(lat: &str, lon: &str, name: &str, affi: &str) -> RawStation {
    RawStation {
        name: name.to_owned(),
        lat: Some(RawCoordinate::Text(lat.to_owned())),
        lon: Some(RawCoordinate::Text(lon.to_owned())),
        affi: Some(affi.to_owned()),
    }
}

fn attempt(feed: Vec<RawStation>, table: Vec<CodeTableRow>) -> Result<Snapshot, String> {
    assert!(joins_fit(&feed, &table));
    build(
        &feed,
        &table,
        "20260723".to_owned(),
        parse_timestamp("2026-07-23T12:00:00+09:00", "test").unwrap(),
    )
}

#[test]
fn joins_on_exact_name_and_declares_the_scope_complete() {
    let table = vec![row("0999100", "甲野市山川")];
    let feed = vec![published("35.12", "135.68", "甲野市山川", "0")];
    let snapshot = attempt(feed, table).unwrap();

    assert_eq!(snapshot.complete_scopes, vec![Scope::PointSeismicIntensity]);
    assert_eq!(snapshot.stations[0].scopes, vec![Scope::PointSeismicIntensity]);
    assert_eq!(snapshot.stations[0].active, Some(true));

    let location = snapshot.stations[0].metadata.location.clone().unwrap();
    assert_eq!(location.latitude.to_text(), "35.12");
    assert_eq!(location.resolution_deg.to_text(), "0.01");
    assert_eq!(snapshot.stations[0].metadata.provider, Provider::Jma);
    assert!(snapshot.warnings.is_empty());
}

#[test]
fn a_failed_join_keeps_the_station_without_a_location() {
    let table = vec![row("0999100", "甲野市山川")];
    let feed = vec![published("35.12", "135.68", "甲野市山川西", "0")];
    let snapshot = attempt(feed, table).unwrap();

    assert_eq!(snapshot.stations.len(), 1);
    assert!(snapshot.stations[0].metadata.location.is_none());
    // Without a match there is no evidence about the operator either.
    assert_eq!(snapshot.stations[0].metadata.provider, Provider::Unknown);

    let codes: Vec<&str> = snapshot.warnings.iter().map(|w| w.code).collect();
    assert_eq!(codes, ["W001", "W002"]);
    assert_eq!(
        snapshot.warnings[0].to_text(),
        "W001: 0999100: coordinate join failed for \"甲野市山川\""
    );
}

#[test]
fn published_entries_without_a_code_are_dropped_with_a_warning() {
    let table = vec![row("0999100", "甲野市山川")];
    let feed = vec![
        published("35.12", "135.68", "甲野市山川", "0"),
        published("35.28", "135.42", "無名観測点", "1"),
    ];
    let snapshot = attempt(feed, table).unwrap();

    assert_eq!(snapshot.stations.len(), 1);
    let warning = snapshot.warnings.iter().find(|w| w.code == "W002").unwrap();
    assert!(warning.message.contains('1'), "{}", warning.message);
    assert_eq!(
        warning.to_text(),
        "W002: 1 published station(s) have no code table entry and were dropped \
         (no station code, so no index can be assigned)"
    );
}

#[test]
fn affiliation_maps_to_provider() {
    assert_eq!(parse_affiliation(Some("0")), Provider::Jma);
    assert_eq!(parse_affiliation(Some("1")), Provider::LocalGovernment);
    assert_eq!(parse_affiliation(Some("2")), Provider::Nied);
    assert_eq!(parse_affiliation(Some("9")), Provider::Unknown);
    assert_eq!(parse_affiliation(None), Provider::Unknown);
}

#[test]
fn duplicate_published_names_are_rejected() {
    let table = vec![row("0999100", "甲野市山川")];
    let feed = vec![
        published("35.12", "135.68", "甲野市山川", "0"),
        published("35.18", "135.33", "甲野市山川", "1"),
    ];
    let err = attempt(feed, table).unwrap_err();
    assert!(err.contains("duplicate station name"), "{err}");
    assert_eq!(
        err,
        "stations.json: duplicate station name \"甲野市山川\"; names are the join key"
    );
}

#[test]
fn malformed_published_coordinates_are_rejected() {
    let table = vec![row("0999100", "甲野市山川")];
    let feed = vec![published("35.xx", "135.68", "甲野市山川", "0")];
    let err = attempt(feed, table).unwrap_err();
    assert!(err.contains("malformed lat"), "{err}");
    assert_eq!(err, "published station \"甲野市山川\": malformed latitude \"35.xx\"");
}

#[test]
fn identity_comes_from_the_code_table() {
    let table = vec![row("0999100", "甲野市山川"), row("0999101", "甲野市服部")];
    let feed = vec![published("35.12", "135.68", "甲野市服部", "2")];
    let snapshot = attempt(feed, table).unwrap();
    assert_eq!(snapshot.stations.len(), 2);
    let second = &snapshot.stations[1];
    assert_eq!(second.code, "0999101");
    assert_eq!(second.metadata.name, "甲野市服部");
    assert_eq!(second.metadata.provider, Provider::Nied);
    assert!(second.metadata.provider_detail.is_none());
    assert_eq!(second.metadata.region.as_ref().unwrap().code, "900");
    assert_eq!(second.metadata.city.as_ref().unwrap().kana.as_deref(), Some("コウノシ"));
    assert_eq!(snapshot.release_id, "20260723");
    // Only the first row failed to join; nothing was dropped.
    assert_eq!(snapshot.warnings.len(), 1);
    assert_eq!(snapshot.warnings[0].subject.as_deref(), Some("0999100"));
}
