//! The structural guarantees a published master must hold.

use jma_station_master::append::append;
use jma_station_master::decimal::Decimal;
use jma_station_master::input::{Snapshot, SnapshotStation, StationMetadata};
use jma_station_master::model::{
    Area, LifecycleEvent, Location, Master, Provider, Scope, ScopeEvent, SourceKind,
};
use jma_station_master::time::{parse_timestamp, Timestamp};
use jma_station_master::validate::{validate, ValidationErrors};

fn at(text: &str) -> Timestamp {
    parse_timestamp(text, "test").unwrap()
}

fn listed(code: &str, name: &str, lat: &str) -> SnapshotStation {
    SnapshotStation {
        code: code.to_owned(),
        active: Some(true),
        scopes: Vec::new(),
        metadata: StationMetadata {
            name: name.to_owned(),
            kana: None,
            region: Some(Area { code: "900".to_owned(), name: "甲野地方北部".to_owned(), kana: None }),
            city: Some(Area { code: "0999100".to_owned(), name: "甲野市".to_owned(), kana: None }),
            location: Some(Location {
                latitude: Decimal::parse(lat).unwrap(),
                longitude: Decimal::parse("135.68").unwrap(),
                resolution_deg: Decimal::parse("0.01").unwrap(),
            }),
            provider: Provider::Jma,
            provider_detail: Some("気象庁".to_owned()),
        },
    }
}

fn snapshot(release_id: &str, effective_from: &str, stations: Vec<SnapshotStation>) -> Snapshot {
    Snapshot {
        source_kind: SourceKind::StationJson,
        release_id: release_id.to_owned(),
        effective_from: at(effective_from),
        stations,
        complete_scopes: Vec::new(),
        warnings: Vec::new(),
    }
}

fn first_snapshot() -> Snapshot {
    snapshot(
        "20260312",
        "2026-03-12T12:00:00+09:00",
        vec![
            listed("0999100", "甲野市山川", "35.12"),
            listed("0999010", "丙川区北二条", "35.06"),
            listed("0999101", "甲野市服部", "35.13"),
        ],
    )
}

fn master() -> Master {
    append(None, &first_snapshot(), at("2026-08-28T03:00:00+09:00")).unwrap().0
}

fn message(errors: &ValidationErrors) -> String {
    errors.to_text()
}

#[test]
fn a_freshly_built_master_validates() {
    assert!(validate(&master(), None).is_ok());
}

#[test]
fn removing_a_station_is_rejected() {
    let before = master();
    let mut after = before.clone();
    after.stations.remove(1);

    let text = message(&validate(&after, Some(&before)).unwrap_err());
    assert!(text.contains("station table shrank"), "{text}");
    assert!(text.contains("assigned indices are permanent"), "{text}");
}

#[test]
fn reordering_stations_is_rejected() {
    let before = master();
    let mut after = before.clone();
    after.stations.swap(0, 1);
    let text = message(&validate(&after, Some(&before)).unwrap_err());
    assert!(text.contains("assigned indices are permanent"), "{text}");
}

#[test]
fn inserting_a_station_before_the_end_is_rejected() {
    let before = master();
    let mut after = before.clone();
    let newcomer = after.stations[0].clone();
    after.stations.insert(0, newcomer);
    assert!(after.stations.len() > before.stations.len());
    let text = message(&validate(&after, Some(&before)).unwrap_err());
    assert!(text.contains("assigned indices are permanent"), "{text}");
}

#[test]
fn validation_duplicate_codes_are_rejected() {
    let mut master = master();
    let duplicate = master.stations[0].clone();
    master.stations.push(duplicate);
    let text = message(&validate(&master, None).unwrap_err());
    assert!(text.contains("appears at index"), "{text}");
}

#[test]
fn a_malformed_station_code_is_rejected() {
    let mut master = master();
    master.stations[0].code = "999100".to_owned();
    let text = message(&validate(&master, None).unwrap_err());
    assert!(text.contains("not 7 ASCII digits"), "{text}");
    assert!(text.contains("leading zero"), "{text}");
}

#[test]
fn a_malformed_city_code_in_a_revision_is_rejected() {
    let mut master = master();
    master.stations[0].metadata[0].city.as_mut().unwrap().code = "999100".to_owned();
    let text = message(&validate(&master, None).unwrap_err());
    assert!(text.contains("city code"), "{text}");
    assert!(text.contains("revision effective"), "{text}");
}

#[test]
fn appending_a_station_is_accepted() {
    let before = master();
    let next = snapshot(
        "20260723",
        "2026-07-23T12:00:00+09:00",
        vec![listed("0999100", "甲野市山川", "35.12"), listed("0999199", "甲野市東", "35.14")],
    );
    let (after, _) = append(Some(&before), &next, at("2026-08-28T03:00:00+09:00")).unwrap();
    assert!(validate(&after, Some(&before)).is_ok());
}

#[test]
fn releases_must_be_strictly_increasing() {
    let mut master = master();
    let mut duplicate = master.releases[0].clone();
    duplicate.id = "20260313".to_owned();
    master.releases.push(duplicate);
    let text = message(&validate(&master, None).unwrap_err());
    assert!(text.contains("does not come after release"), "{text}");
}

#[test]
fn the_index_space_may_not_shrink() {
    let mut master = master();
    let mut later = master.releases[0].clone();
    later.id = "20260723".to_owned();
    later.effective_from = at("2026-07-23T12:00:00+09:00");
    later.index_count = 2;
    master.releases.push(later);
    let text = message(&validate(&master, None).unwrap_err());
    assert!(text.contains("the index space never shrinks"), "{text}");
}

#[test]
fn index_count_may_not_exceed_the_table() {
    let mut master = master();
    master.releases[0].index_count = 99;
    let text = message(&validate(&master, None).unwrap_err());
    assert!(text.contains("but the station table holds"), "{text}");
}

#[test]
fn duplicated_revision_timestamps_are_rejected() {
    let mut master = master();
    let duplicate = master.stations[0].metadata[0].clone();
    master.stations[0].metadata.push(duplicate);
    let text = message(&validate(&master, None).unwrap_err());
    assert!(text.contains("out of order or duplicated"), "{text}");
}

#[test]
fn duplicated_lifecycle_timestamps_are_rejected() {
    let mut master = master();
    let duplicate = master.stations[0].lifecycle[0].clone();
    master.stations[0].lifecycle.push(duplicate);
    let text = message(&validate(&master, None).unwrap_err());
    assert!(text.contains("out of order or duplicated"), "{text}");
}

#[test]
fn a_scope_event_that_marks_no_change_is_rejected() {
    let mut master = master();
    let scope = Scope::PointSeismicIntensity;
    master.stations[0].scope_events = vec![
        ScopeEvent { effective_from: at("2026-03-12T12:00:00+09:00"), scope, enabled: true },
        ScopeEvent { effective_from: at("2026-07-23T12:00:00+09:00"), scope, enabled: true },
    ];
    let text = message(&validate(&master, None).unwrap_err());
    assert!(text.contains("twice in a row"), "{text}");
}

#[test]
fn out_of_range_coordinates_are_rejected() {
    let mut master = master();
    master.stations[0].metadata[0].location = Some(Location {
        latitude: Decimal::parse("91").unwrap(),
        longitude: Decimal::parse("181").unwrap(),
        resolution_deg: Decimal::parse("0").unwrap(),
    });
    let text = message(&validate(&master, None).unwrap_err());
    assert!(text.contains("outside -90..=90"), "{text}");
    assert!(text.contains("outside -180..=180"), "{text}");
    assert!(text.contains("finite and positive"), "{text}");
}

#[test]
fn every_violation_is_reported_at_once() {
    let mut master = master();
    master.schema_version = 99;
    master.releases[0].index_count = 99;
    let errors = validate(&master, None).unwrap_err();
    assert!(errors.0.len() >= 2, "{}", message(&errors));
    assert!(message(&errors).starts_with(&format!("{} validation error(s):\n", errors.0.len())));
}

#[test]
fn messages_name_the_release_and_the_station() {
    let mut master = master();
    master.releases[0].index_count = 99;
    master.stations[1].code = "999010".to_owned();
    let errors = validate(&master, None).unwrap_err();
    let texts: Vec<&str> = errors.0.iter().map(|e| e.message.as_str()).collect();
    assert_eq!(
        texts,
        [
            "index 1: station code \"999010\" is not 7 ASCII digits; a leading zero was probably lost",
            "release \"20260312\" has index_count 99 but the station table holds 3 entries",
        ]
    );
}

#[test]
fn non_finite_coordinates_are_rejected() {
    let mut master = master();
    master.stations[0].metadata[0].location = Some(Location {
        latitude: Decimal::parse("NaN").unwrap(),
        longitude: Decimal::parse("-inf").unwrap(),
        resolution_deg: Decimal::parse("inf").unwrap(),
    });
    let text = message(&validate(&master, None).unwrap_err());
    assert!(text.contains("has latitude NaN outside -90..=90"), "{text}");
    assert!(text.contains("has longitude -inf outside -180..=180"), "{text}");
    assert!(text.contains("has resolution_deg inf, which must be finite and positive"), "{text}");
}

#[test]
fn coordinates_on_the_limits_are_accepted() {
    let mut master = master();
    master.stations[0].metadata[0].location = Some(Location {
        latitude: Decimal::parse("-9e1").unwrap(),
        longitude: Decimal::parse("180.000").unwrap(),
        resolution_deg: Decimal::parse("1e-300").unwrap(),
    });
    assert!(validate(&master, None).is_ok());
}

#[test]
fn a_master_with_records_between_releases_stays_valid() {
    // A valid master may hold an event dated after its latest release; a
    // later release still yields a valid master.
    let mut before = master();
    before.stations[0].lifecycle.push(LifecycleEvent {
        effective_from: at("2026-05-01T00:00:00+09:00"),
        active: false,
    });
    assert!(validate(&before, None).is_ok());
    let next = snapshot(
        "20260723",
        "2026-07-23T12:00:00+09:00",
        vec![listed("0999010", "丙川区北二条", "35.06"), listed("0999199", "甲野市東", "35.14")],
    );
    let (after, _) = append(Some(&before), &next, at("2026-08-28T03:00:00+09:00")).unwrap();
    assert!(validate(&after, Some(&before)).is_ok());
}
