//! End-to-end behaviour of a master built from station.json.

use std::collections::HashMap;

use jma_station_master::append::{append, AppendReport};
use jma_station_master::input::station_json::{parse, Overrides, RawArea, RawFile, RawItem};
use jma_station_master::input::{RawCoordinate, Snapshot};
use jma_station_master::model::{Master, Provider, SourceKind, Station};
use jma_station_master::report::to_text;
use jma_station_master::time::{parse_timestamp, Timestamp};
use jma_station_master::validate::validate;

const R2: &str = "2026-03-12T12:00:00+09:00";
const R3: &str = "2026-07-23T12:00:00+09:00";
const GENERATED_AT: &str = "2026-08-28T03:00:00+09:00";

fn at(text: &str) -> Timestamp {
    parse_timestamp(text, "test").unwrap()
}

fn area(code: &str, name: &str, kana: &str) -> Option<RawArea> {
    Some(RawArea { code: code.to_owned(), name: name.to_owned(), kana: Some(kana.to_owned()) })
}

fn item(code: &str, name: &str, status: &str, owner: &str, lat: &str, lon: &str) -> RawItem {
    RawItem {
        region: area("900", "甲野地方北部", "コウノチホウホクブ"),
        city: area("0999100", "甲野市", "コウノシ"),
        code: code.to_owned(),
        name: name.to_owned(),
        kana: None,
        status: status.to_owned(),
        owner: Some(owner.to_owned()),
        latitude: Some(RawCoordinate::Text(lat.to_owned())),
        longitude: Some(RawCoordinate::Text(lon.to_owned())),
    }
}

fn file(version: &str, change_time: &str, items: Vec<RawItem>) -> RawFile {
    RawFile { change_time: Some(change_time.to_owned()), version: Some(version.to_owned()), items }
}

/// Five stations, listed out of code order.
fn station_min() -> Snapshot {
    parse(
        file(
            "20260312",
            R2,
            vec![
                item("0999100", "甲野市山川", "現", "気象庁", "35.1234", "135.6789"),
                item("0999320", "乙原町白樺", "現", "防災科研", "35.22", "135.41"),
                item("0999010", "丙川区北二条", "現", "市町村", "35.06", "135.33"),
                item("0999120", "甲野市月見", "現", "気象庁", "35.15", "135.50"),
                item("0999101", "甲野市服部", "現", "都道府県", "35.13", "135.67"),
            ],
        ),
        &Overrides::none(),
    )
    .unwrap()
}

/// The next release: one rename, one move, one retirement, two new codes
/// listed out of code order.
fn station_min_v2() -> Snapshot {
    parse(
        file(
            "20260723",
            R3,
            vec![
                item("0999100", "甲野市山川", "現", "気象庁", "35.1234", "135.6789"),
                item("0999900", "甲野市新町", "新規", "気象庁", "35.30", "135.70"),
                item("0999101", "甲野市服部西", "現", "都道府県", "35.13", "135.67"),
                item("0999120", "甲野市月見", "廃止", "気象庁", "35.15", "135.50"),
                item("0999320", "乙原町白樺", "変更", "防災科研", "35.29", "135.41"),
                item("0999010", "丙川区北二条", "現", "市町村", "35.06", "135.33"),
                item("0999199", "甲野市東", "新規", "その他", "35.14", "135.69"),
            ],
        ),
        &Overrides::none(),
    )
    .unwrap()
}

fn apply(previous: Option<&Master>, snapshot: &Snapshot) -> (Master, AppendReport) {
    let (master, report) = append(previous, snapshot, at(GENERATED_AT)).expect("the release appends");
    assert!(validate(&master, previous).is_ok(), "result validates");
    (master, report)
}

fn station<'a>(master: &'a Master, code: &str) -> &'a Station {
    master.stations.iter().find(|s| s.code == code).unwrap()
}

fn index_of(master: &Master) -> HashMap<String, usize> {
    master.stations.iter().enumerate().map(|(i, s)| (s.code.clone(), i)).collect()
}

fn codes(master: &Master) -> Vec<&str> {
    master.stations.iter().map(|s| s.code.as_str()).collect()
}

fn refusal(previous: Option<&Master>, snapshot: &Snapshot) -> String {
    append(previous, snapshot, at(GENERATED_AT)).unwrap_err().message()
}

#[test]
fn init_records_the_release_and_every_station() {
    let (master, report) = apply(None, &station_min());

    assert_eq!(master.schema_version, 1);
    assert_eq!(master.source_kind, SourceKind::StationJson);
    assert_eq!(master.stations.len(), 5);
    assert_eq!(master.releases.len(), 1);
    assert_eq!(master.releases[0].id, "20260312");
    assert_eq!(master.releases[0].effective_from.rfc3339, R2);
    assert_eq!(master.releases[0].index_count, 5);

    let yamakawa = station(&master, "0999100");
    assert_eq!(yamakawa.metadata.len(), 1);
    assert_eq!(yamakawa.metadata[0].name, "甲野市山川");
    assert_eq!(yamakawa.metadata[0].provider, Provider::Jma);
    assert_eq!(yamakawa.metadata[0].provider_detail.as_deref(), Some("気象庁"));
    assert_eq!(yamakawa.lifecycle.len(), 1);
    assert_eq!(yamakawa.lifecycle[0].effective_from.rfc3339, R2);
    assert!(yamakawa.lifecycle[0].active);
    // station.json cannot attest to the PointSeismicIntensity code table.
    assert!(yamakawa.scope_events.is_empty());

    // Indices are handed out in code order, not in the order the feed listed them.
    assert_eq!(codes(&master), ["0999010", "0999100", "0999101", "0999120", "0999320"]);

    assert_eq!(report.stations_appended, 5);
    assert_eq!(report.stations_total, 5);
    assert_eq!(report.unresolved_active, 0);
    assert_eq!(report.unresolved_in_scope, None);
}

#[test]
fn new_codes_are_appended_and_existing_indices_never_move() {
    let (first, _) = apply(None, &station_min());
    let before = index_of(&first);

    let (second, report) = apply(Some(&first), &station_min_v2());
    let after = index_of(&second);

    for (code, index) in &before {
        assert_eq!(after.get(code), Some(index), "index of {code} moved");
    }
    assert_eq!(second.stations.len(), 7);
    assert_eq!(report.stations_appended, 2);
    assert_eq!(report.stations_existing, 5);
}

#[test]
fn appended_codes_are_ordered_by_code_not_by_feed_order() {
    let (first, _) = apply(None, &station_min());
    let (second, _) = apply(Some(&first), &station_min_v2());

    // The feed lists 0999900 before 0999199.
    assert_eq!(second.stations[5].code, "0999199");
    assert_eq!(second.stations[6].code, "0999900");
}

#[test]
fn a_changed_name_appends_a_revision_and_an_unchanged_one_does_not() {
    let (first, _) = apply(None, &station_min());
    let (second, report) = apply(Some(&first), &station_min_v2());

    let renamed = station(&second, "0999101");
    assert_eq!(renamed.metadata.len(), 2);
    assert_eq!(renamed.metadata[0].name, "甲野市服部");
    assert_eq!(renamed.metadata[0].effective_from.rfc3339, R2);
    assert_eq!(renamed.metadata[1].name, "甲野市服部西");
    assert_eq!(renamed.metadata[1].effective_from.rfc3339, R3);

    let untouched = station(&second, "0999100");
    assert_eq!(untouched.metadata.len(), 1, "nothing changed, nothing added");

    // 0999100, 0999120 and 0999010 are unchanged; 0999101 was renamed, 0999320
    // moved, and the two new codes each get a first revision.
    assert_eq!(report.metadata_unchanged, 3);
    assert_eq!(report.metadata_revised, 4);
}

#[test]
fn a_real_relocation_appends_a_revision() {
    let (first, _) = apply(None, &station_min());
    let (second, _) = apply(Some(&first), &station_min_v2());

    let moved = station(&second, "0999320");
    assert_eq!(moved.metadata.len(), 2);
    assert_eq!(moved.metadata[0].location.clone().unwrap().latitude.to_text(), "35.22");
    assert_eq!(moved.metadata[1].location.clone().unwrap().latitude.to_text(), "35.29");
}

#[test]
fn retirement_is_a_lifecycle_event_not_a_deletion() {
    let (first, _) = apply(None, &station_min());
    let (second, report) = apply(Some(&first), &station_min_v2());

    let retired = station(&second, "0999120");
    assert_eq!(retired.lifecycle.len(), 2);
    assert!(retired.lifecycle[0].active);
    assert!(!retired.lifecycle[1].active);
    assert_eq!(retired.lifecycle[1].effective_from.rfc3339, R3);
    // Still present, still holding its index.
    assert_eq!(second.stations[3].code, "0999120");

    assert_eq!(report.lifecycle_deactivated, 1);
    assert_eq!(report.lifecycle_activated, 2, "only the two new codes");
}

#[test]
fn an_unchanged_lifecycle_state_adds_no_event() {
    let (first, _) = apply(None, &station_min());
    let (second, _) = apply(Some(&first), &station_min_v2());
    assert_eq!(station(&second, "0999100").lifecycle.len(), 1);
}

#[test]
fn building_twice_from_the_same_inputs_is_byte_identical() {
    let (once, _) = apply(None, &station_min());
    let (twice, _) = apply(None, &station_min());
    assert_eq!(format!("{once:?}"), format!("{twice:?}"));
}

#[test]
fn a_duplicate_station_code_is_rejected() {
    let snapshot = parse(
        file(
            "20260312",
            R2,
            vec![
                item("0999100", "甲野市山川", "現", "気象庁", "35.1234", "135.6789"),
                item("0999100", "甲野市山川", "現", "気象庁", "35.1234", "135.6789"),
            ],
        ),
        &Overrides::none(),
    )
    .unwrap();

    let error = refusal(None, &snapshot);
    assert!(error.contains("duplicate station code"), "{error}");
    assert!(error.contains("0999100"), "{error}");
    assert!(error.contains("entries 1 and 2"), "{error}");
}

#[test]
fn station_json_master_resupplying_a_recorded_release_is_an_error() {
    let (first, _) = apply(None, &station_min());
    let error = refusal(Some(&first), &station_min());
    assert!(error.contains("is already recorded"), "{error}");
    assert!(error.contains("never revisited"), "{error}");
}

#[test]
fn a_release_id_cannot_be_reused_for_a_different_release() {
    let (first, _) = apply(None, &station_min());
    let mut relabelled = station_min_v2();
    relabelled.release_id = "20260312".to_owned();
    let error = refusal(Some(&first), &relabelled);
    assert!(error.contains("is already recorded"), "{error}");
}

#[test]
fn releases_must_arrive_oldest_first() {
    let (later, _) = apply(None, &station_min());
    let mut earlier = station_min();
    earlier.release_id = "20260101".to_owned();
    earlier.effective_from = at("2026-01-01T12:00:00+09:00");

    let error = refusal(Some(&later), &earlier);
    assert!(error.contains("out-of-order release"), "{error}");
    assert!(error.contains("re-date every state"), "{error}");
}

#[test]
fn the_same_instant_in_another_offset_is_not_newer() {
    let (first, _) = apply(None, &station_min());
    let mut same = station_min_v2();
    // 2026-03-12T12:00:00+09:00 written in UTC.
    same.effective_from = at("2026-03-12T03:00:00Z");
    let error = refusal(Some(&first), &same);
    assert!(error.contains("out-of-order release"), "{error}");
}

#[test]
fn index_count_tracks_the_table_and_never_shrinks() {
    let (first, _) = apply(None, &station_min());
    let (second, _) = apply(Some(&first), &station_min_v2());

    assert_eq!(second.releases[0].index_count, 5);
    assert_eq!(second.releases[1].index_count, 7);
    assert_eq!(second.releases[1].index_count, second.stations.len());
    for window in second.releases.windows(2) {
        assert!(window[1].index_count >= window[0].index_count);
    }
}

#[test]
fn a_master_cannot_change_source_kind() {
    let (from_station_json, _) = apply(None, &station_min());
    let mut public = station_min_v2();
    public.source_kind = SourceKind::JmaPublic;
    let error = refusal(Some(&from_station_json), &public);
    assert!(error.contains("source kind mismatch"), "{error}");
}

#[test]
fn the_metadata_in_force_follows_the_revisions() {
    let (first, _) = apply(None, &station_min());
    let (second, _) = apply(Some(&first), &station_min_v2());
    let renamed = station(&second, "0999101");
    assert_eq!(renamed.metadata_at(&at(R2)).unwrap().name, "甲野市服部");
    assert_eq!(renamed.metadata_at(&at("2026-05-01T00:00:00+09:00")).unwrap().name, "甲野市服部");
    assert_eq!(renamed.metadata_at(&at(R3)).unwrap().name, "甲野市服部西");
    assert!(renamed.metadata_at(&at("2026-01-01T00:00:00+09:00")).is_none());
    let retired = station(&second, "0999120");
    assert_eq!(retired.is_active_at(&at(R2)), Some(true));
    assert_eq!(retired.is_active_at(&at(R3)), Some(false));
    assert_eq!(retired.is_active_at(&at("2026-01-01T00:00:00+09:00")), None);
}

#[test]
fn nothing_already_written_is_revisited() {
    let (first, _) = apply(None, &station_min());
    let (second, _) = apply(Some(&first), &station_min_v2());
    for (before, after) in first.stations.iter().zip(second.stations.iter()) {
        assert_eq!(before.code, after.code);
        assert!(after.metadata.len() >= before.metadata.len());
        assert!(after.lifecycle.len() >= before.lifecycle.len());
        assert!(after.scope_events.len() >= before.scope_events.len());
        for (a, b) in before.metadata.iter().zip(after.metadata.iter()) {
            assert_eq!(format!("{a:?}"), format!("{b:?}"));
        }
        for (a, b) in before.lifecycle.iter().zip(after.lifecycle.iter()) {
            assert_eq!(format!("{a:?}"), format!("{b:?}"));
        }
    }
    assert_eq!(format!("{:?}", first.releases[0]), format!("{:?}", second.releases[0]));
    assert_eq!(second.releases.len(), first.releases.len() + 1);
}

#[test]
fn every_code_holds_one_index() {
    let (first, _) = apply(None, &station_min());
    let (second, _) = apply(Some(&first), &station_min_v2());
    let mut seen = std::collections::HashSet::new();
    for s in &second.stations {
        assert!(seen.insert(s.code.clone()), "{} appears twice", s.code);
    }
}

#[test]
fn resupplying_a_recorded_release_is_refused() {
    let (first, _) = apply(None, &station_min());
    let result = append(Some(&first), &station_min(), at(GENERATED_AT));
    assert!(result.is_err(), "nothing is produced on failure");
    let error = result.unwrap_err().message();
    assert!(error.contains("is already recorded"), "{error}");
}

#[test]
fn update_extends_a_master_and_is_reproducible() {
    let (first, _) = apply(None, &station_min());

    let (second, report) = apply(Some(&first), &station_min_v2());
    let summary = to_text(&report);
    assert!(summary.contains("appended:"), "{summary}");

    // Same inputs, same pinned stamp, identical result.
    let (third, _) = apply(Some(&first), &station_min_v2());
    assert_eq!(format!("{second:?}"), format!("{third:?}"));
}
