use jma_station_master::decimal::Decimal;
use jma_station_master::input::station_json::{
    parse, parse_owner, parse_read, parse_status, Overrides, RawArea, RawFile, RawItem,
};
use jma_station_master::input::RawCoordinate;
use jma_station_master::model::Provider;
use jma_station_master::time::parse_timestamp;

fn text(value: &str) -> Option<RawCoordinate> {
    Some(RawCoordinate::Text(value.to_owned()))
}

/// The one-station file the adapter is exercised on.
fn minimal() -> RawFile {
    RawFile {
        change_time: Some("2026-07-23T12:00:00+09:00".to_owned()),
        version: Some("20260723".to_owned()),
        items: vec![RawItem {
            region: Some(RawArea {
                code: "900".to_owned(),
                name: "甲野地方北部".to_owned(),
                kana: Some("コウノチホウホクブ".to_owned()),
            }),
            city: Some(RawArea {
                code: "0999100".to_owned(),
                name: "甲野市".to_owned(),
                kana: Some("コウノシ".to_owned()),
            }),
            code: "0999100".to_owned(),
            name: "甲野市山川".to_owned(),
            kana: Some("コウノシヤマカワ".to_owned()),
            status: "現".to_owned(),
            owner: Some("気象庁".to_owned()),
            latitude: text("35.1234"),
            longitude: text("135.6789"),
        }],
    }
}

fn decimal_value(d: &Decimal) -> f64 {
    d.to_text().parse().unwrap()
}

#[test]
fn takes_release_and_effective_from_from_the_file() {
    let snapshot = parse(minimal(), &Overrides::none()).unwrap();
    assert_eq!(snapshot.release_id, "20260723");
    assert_eq!(snapshot.effective_from.rfc3339, "2026-07-23T12:00:00+09:00");
    assert!(snapshot.complete_scopes.is_empty());
}

#[test]
fn cli_overrides_win() {
    let overrides = Overrides {
        release_id: Some("override".to_owned()),
        effective_from: Some(parse_timestamp("2020-01-01T00:00:00+09:00", "test").unwrap()),
    };
    let snapshot = parse(minimal(), &overrides).unwrap();
    assert_eq!(snapshot.release_id, "override");
    assert_eq!(snapshot.effective_from.rfc3339, "2020-01-01T00:00:00+09:00");
}

#[test]
fn derives_resolution_from_written_precision() {
    let snapshot = parse(minimal(), &Overrides::none()).unwrap();
    let location = snapshot.stations[0].metadata.location.clone().unwrap();
    assert!((decimal_value(&location.resolution_deg) - 0.0001).abs() < 1e-12);
}

#[test]
fn status_maps_to_lifecycle_state() {
    assert_eq!(parse_status("現"), Some(true));
    assert_eq!(parse_status("新規"), Some(true));
    assert_eq!(parse_status("変更"), Some(true));
    assert_eq!(parse_status("廃止"), Some(false));
    assert_eq!(parse_status("謎"), None);
}

#[test]
fn unknown_status_is_rejected() {
    let mut file = minimal();
    file.items[0].status = "謎".to_owned();
    let err = parse(file, &Overrides::none()).unwrap_err();
    assert!(err.contains("unknown status"), "{err}");
    assert_eq!(err, "station 0999100: unknown status \"謎\"");
}

#[test]
fn owner_maps_to_provider_and_keeps_the_original_wording() {
    assert_eq!(parse_owner(Some("気象庁")).0, Provider::Jma);
    assert_eq!(parse_owner(Some("防災科研")).0, Provider::Nied);
    assert_eq!(parse_owner(Some("都道府県")).0, Provider::LocalGovernment);
    assert_eq!(parse_owner(Some("市町村")).0, Provider::LocalGovernment);
    assert_eq!(parse_owner(Some("その他")).0, Provider::Other);
    assert_eq!(parse_owner(Some("謎の組織")).0, Provider::Unknown);
    assert_eq!(parse_owner(None).0, Provider::Unknown);
    assert_eq!(parse_owner(Some("都道府県")).1.as_deref(), Some("都道府県"));
}

#[test]
fn blank_coordinates_are_unresolved() {
    let mut file = minimal();
    file.items[0].latitude = text("");
    let snapshot = parse(file, &Overrides::none()).unwrap();
    assert!(snapshot.stations[0].metadata.location.is_none());
}

#[test]
fn malformed_coordinates_are_rejected() {
    let mut file = minimal();
    file.items[0].latitude = text("35.xxxx");
    let err = parse(file, &Overrides::none()).unwrap_err();
    assert!(err.contains("malformed latitude"), "{err}");
}

#[test]
fn a_blank_latitude_does_not_excuse_a_malformed_longitude() {
    let mut file = minimal();
    file.items[0].latitude = text("");
    file.items[0].longitude = text("135.xxxx");
    let err = parse(file, &Overrides::none()).unwrap_err();
    assert!(err.contains("malformed longitude"), "{err}");
    assert_eq!(err, "station 0999100: malformed longitude \"135.xxxx\"");
}

#[test]
fn a_missing_version_needs_a_release_id() {
    let mut file = minimal();
    file.version = None;
    let err = parse(file, &Overrides::none()).unwrap_err();
    assert_eq!(err, "station.json has no `version`; pass --release-id");
}

#[test]
fn a_missing_change_time_needs_an_effective_time() {
    let mut file = minimal();
    file.change_time = None;
    let err = parse(file, &Overrides::none()).unwrap_err();
    assert_eq!(err, "station.json has no `changeTime`; pass --effective-from");
}

#[test]
fn an_unreadable_change_time_is_named() {
    let mut file = minimal();
    file.change_time = Some("yesterday".to_owned());
    let err = parse(file, &Overrides::none()).unwrap_err();
    assert_eq!(err, "parsing changeTime \"yesterday\"");
}

#[test]
fn every_item_is_read_in_file_order() {
    let mut file = minimal();
    let mut second = minimal().items.remove(0);
    second.code = "0999101".to_owned();
    second.status = "廃止".to_owned();
    second.owner = None;
    second.region = None;
    file.items.push(second);
    let snapshot = parse(file, &Overrides::none()).unwrap();
    assert_eq!(snapshot.stations.len(), 2);
    assert_eq!(snapshot.stations[0].code, "0999100");
    assert_eq!(snapshot.stations[0].active, Some(true));
    assert!(snapshot.stations[0].scopes.is_empty());
    assert_eq!(snapshot.stations[0].metadata.provider, Provider::Jma);
    assert_eq!(snapshot.stations[0].metadata.provider_detail.as_deref(), Some("気象庁"));
    assert_eq!(snapshot.stations[0].metadata.region.as_ref().unwrap().code, "900");
    assert_eq!(snapshot.stations[1].code, "0999101");
    assert_eq!(snapshot.stations[1].active, Some(false));
    assert_eq!(snapshot.stations[1].metadata.provider, Provider::Unknown);
    assert!(snapshot.stations[1].metadata.provider_detail.is_none());
    assert!(snapshot.stations[1].metadata.region.is_none());
    assert!(snapshot.warnings.is_empty());
}

#[test]
fn the_snapshot_takes_the_change_time_as_it_was_read() {
    // The reading of `changeTime` is handed in; the file's text only names it.
    let given = parse_timestamp("2026-01-01T00:00:00Z", "test").unwrap();
    let snapshot = parse_read(minimal(), &Overrides::none(), Some(given)).unwrap();
    assert_eq!(snapshot.effective_from.rfc3339, "2026-01-01T00:00:00+00:00");

    let error = parse_read(minimal(), &Overrides::none(), None).unwrap_err();
    assert_eq!(error, "parsing changeTime \"2026-07-23T12:00:00+09:00\"");
}

#[test]
fn coordinates_written_as_the_float_reader_allows_are_read() {
    let mut file = minimal();
    file.items[0].latitude = text("3.51234E1");
    file.items[0].longitude = text("inf");
    let snapshot = parse(file, &Overrides::none()).unwrap();
    let location = snapshot.stations[0].metadata.location.clone().unwrap();
    assert_eq!(location.latitude.to_text(), "35.1234");
    assert_eq!(location.longitude.to_text(), "inf");
}
