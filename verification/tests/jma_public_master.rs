//! End-to-end behaviour of a master built from the published feed plus the code
//! table, where identity and scope come from different places.

use jma_station_master::append::{append, AppendReport, ScopeSummary};
use jma_station_master::input::code_table_xlsx::{parse_range, SheetCell, SheetRange};
use jma_station_master::input::jma_public::{build, joins_fit, RawStation};
use jma_station_master::input::station_json::{parse, Overrides, RawFile, RawItem};
use jma_station_master::input::{RawCoordinate, Snapshot};
use jma_station_master::model::{Master, Provider, Scope, SourceKind, Station};
use jma_station_master::report::to_text;
use jma_station_master::time::{parse_timestamp, Timestamp};
use jma_station_master::validate::validate;

const R1: &str = "2026-03-12T12:00:00+09:00";
const R2: &str = "2026-07-23T12:00:00+09:00";
const GENERATED_AT: &str = "2026-08-28T03:00:00+09:00";

fn at(text: &str) -> Timestamp {
    parse_timestamp(text, "test").unwrap()
}

#[derive(Clone, Copy, PartialEq)]
enum Table {
    Min,
    Shrunk,
    Renamed,
}

fn text(value: &str) -> SheetCell {
    if value.is_empty() {
        SheetCell::Empty
    } else {
        SheetCell::Text(value.to_owned())
    }
}

/// The code table as the workbook holds it: region codes as numbers, every
/// other code as text, a spacer row after the third station.
fn code_table(kind: Table) -> SheetRange {
    let stations = [
        (900, "甲野地方北部", "こうのちほうほくぶ", "0999100", "甲野市", "こうのし", "0999100", "甲野市山川", "こうのしやまかわ"),
        (900, "甲野地方北部", "こうのちほうほくぶ", "0999100", "甲野市", "こうのし", "0999101", "甲野市服部", "こうのしはっとり"),
        (900, "甲野地方北部", "こうのちほうほくぶ", "0999100", "甲野市", "こうのし", "0999120", "甲野市月見", "こうのしつきみ"),
        (900, "甲野地方北部", "こうのちほうほくぶ", "0999300", "乙原町", "おつはらちょう", "0999320", "乙原町白樺", "おつはらちょうしらかば"),
        (901, "甲野地方南部", "こうのちほうなんぶ", "0999010", "丙川区", "へいかわく", "0999010", "丙川区北二条", "へいかわくきたにじょう"),
    ];
    let mut rows = vec![
        vec![text("コード表")],
        vec![text("AreaForecastLocalE"), text(""), text(""), text("AreaInformationCity"), text(""), text(""), text("震度観測点")],
        vec![text("Code"), text("Name"), text("ふりがな"), text("Code"), text("Name"), text("ふりがな"), text("Code"), text("Name"), text("ふりがな")],
    ];
    for (position, s) in stations.iter().enumerate() {
        if kind == Table::Shrunk && s.6 == "0999120" {
            continue;
        }
        let (name, kana) = if kind == Table::Renamed && s.6 == "0999120" {
            ("甲野市月見東", "こうのしつきみひがし")
        } else {
            (s.7, s.8)
        };
        rows.push(vec![
            SheetCell::Float(s.0.to_string()),
            text(s.1),
            text(s.2),
            text(s.3),
            text(s.4),
            text(s.5),
            text(s.6),
            text(name),
            text(kana),
        ]);
        if kind == Table::Min && position == 2 {
            rows.push(Vec::new());
        }
    }
    SheetRange { rows }
}

fn entry(lat: &str, lon: &str, name: &str, affi: &str) -> RawStation {
    RawStation {
        name: name.to_owned(),
        lat: Some(RawCoordinate::Text(lat.to_owned())),
        lon: Some(RawCoordinate::Text(lon.to_owned())),
        affi: Some(affi.to_owned()),
    }
}

/// The published feed; the later one no longer lists 甲野市月見.
fn stations_json(later: bool) -> Vec<RawStation> {
    let mut feed = vec![
        entry("35.12", "135.68", "甲野市山川", "0"),
        entry("35.13", "135.67", "甲野市服部", "1"),
        entry("35.15", "135.50", "甲野市月見", "0"),
        entry("35.22", "135.41", "乙原町白樺", "2"),
        entry("35.28", "135.42", "無名観測点", "1"),
    ];
    if later {
        feed.remove(2);
    }
    feed
}

fn public_snapshot(later: bool, table: Table, release_id: &str, effective_from: &str) -> Snapshot {
    let rows = parse_range(&code_table(table)).expect("the code table reads");
    let feed = stations_json(later);
    assert!(joins_fit(&feed, &rows));
    build(&feed, &rows, release_id.to_owned(), at(effective_from)).expect("the feed joins")
}

fn apply(previous: Option<&Master>, snapshot: &Snapshot) -> (Master, AppendReport) {
    let (master, report) = append(previous, snapshot, at(GENERATED_AT)).expect("the release appends");
    assert!(validate(&master, previous).is_ok(), "result validates");
    (master, report)
}

fn initial() -> Master {
    apply(None, &public_snapshot(false, Table::Min, "20260312", R1)).0
}

fn station<'a>(master: &'a Master, code: &str) -> &'a Station {
    master.stations.iter().find(|s| s.code == code).unwrap()
}

fn point_summary(report: &AppendReport) -> &ScopeSummary {
    report.scope(Scope::PointSeismicIntensity).expect("the scope is reported")
}

#[test]
fn the_code_table_supplies_identity_and_the_feed_supplies_coordinates() {
    let (master, report) = apply(None, &public_snapshot(false, Table::Min, "20260312", R1));

    assert_eq!(master.source_kind, SourceKind::JmaPublic);
    assert_eq!(master.stations.len(), 5);

    let yamakawa = station(&master, "0999100");
    let revision = &yamakawa.metadata[0];
    assert_eq!(revision.name, "甲野市山川");
    // Sheet 24 spells readings in hiragana; the master stores katakana throughout.
    assert_eq!(revision.kana.as_deref(), Some("コウノシヤマカワ"));
    assert_eq!(revision.region.as_ref().unwrap().code, "900");
    assert_eq!(revision.city.as_ref().unwrap().code, "0999100");
    assert_eq!(revision.provider, Provider::Jma);
    assert!(revision.provider_detail.is_none());

    let location = revision.location.clone().unwrap();
    assert_eq!(location.latitude.to_text(), "35.12");
    assert_eq!(location.resolution_deg.to_text(), "0.01");

    assert_eq!(yamakawa.scope_events.len(), 1, "listing in the code table enables the scope");
    assert!(yamakawa.scope_events[0].enabled);
    assert_eq!(yamakawa.scope_events[0].scope, Scope::PointSeismicIntensity);

    let summary = point_summary(&report);
    assert_eq!(summary.enabled, 5);
    assert_eq!(summary.disabled, 0);
}

#[test]
fn a_station_the_feed_does_not_name_keeps_its_index_without_a_location() {
    let master = initial();
    let unresolved = station(&master, "0999010");
    assert_eq!(unresolved.metadata.len(), 1);
    assert!(unresolved.metadata[0].location.is_none());
    assert_eq!(unresolved.metadata[0].provider, Provider::Unknown);
    assert_eq!(unresolved.is_active_at(&at(R1)), Some(true));
}

#[test]
fn the_report_separates_unresolved_from_out_of_scope() {
    let (_, report) = apply(None, &public_snapshot(false, Table::Min, "20260312", R1));
    assert_eq!(report.unresolved_active, 1);
    assert_eq!(report.unresolved_in_scope, Some(1));
    let codes: Vec<&str> = report.warnings.iter().map(|w| w.code).collect();
    assert_eq!(codes, ["W001", "W002"]);
}

#[test]
fn a_failed_join_alone_does_not_erase_a_known_location() {
    let first = initial();
    let before = station(&first, "0999120").metadata[0].location.clone().unwrap();
    let (second, _) = apply(Some(&first), &public_snapshot(true, Table::Min, "20260723", R2));

    let tsukimi = station(&second, "0999120");
    assert_eq!(tsukimi.metadata.len(), 1, "nothing changed, nothing recorded");
    assert_eq!(tsukimi.metadata[0].location.clone().unwrap().latitude.to_text(), before.latitude.to_text());
}

#[test]
fn a_renamed_station_with_no_join_becomes_unresolved() {
    let first = initial();
    let (second, _) = apply(Some(&first), &public_snapshot(true, Table::Renamed, "20260723", R2));

    let renamed = station(&second, "0999120");
    assert_eq!(renamed.metadata.len(), 2);
    assert_eq!(renamed.metadata[1].name, "甲野市月見東");
    assert!(renamed.metadata[1].location.is_none(), "an inherited coordinate would be a guess");
}

#[test]
fn leaving_the_code_table_retires_the_scope_and_nothing_else() {
    let first = initial();
    let (second, report) = apply(Some(&first), &public_snapshot(true, Table::Shrunk, "20260723", R2));

    let departed = station(&second, "0999120");
    assert_eq!(departed.scope_events.len(), 2);
    assert!(departed.scope_events[0].enabled);
    assert!(!departed.scope_events[1].enabled);
    assert_eq!(departed.scope_events[1].effective_from.rfc3339, R2);

    // Dropping out of the code table is not the same as being dismantled.
    assert_eq!(departed.lifecycle.len(), 1);
    assert!(departed.lifecycle[0].active);
    assert_eq!(departed.is_active_at(&at(R2)), Some(true));
    assert_eq!(departed.scope_enabled_at(Scope::PointSeismicIntensity, &at(R2)), Some(false));
    assert_eq!(departed.scope_enabled_at(Scope::PointSeismicIntensity, &at(R1)), Some(true));

    assert_eq!(second.stations.len(), 5);
    assert_eq!(second.releases[1].index_count, 5);
    assert_eq!(report.unresolved_in_scope, Some(1));
}

#[test]
fn departures_are_named_in_the_report() {
    let first = initial();
    let (_, report) = apply(Some(&first), &public_snapshot(true, Table::Shrunk, "20260723", R2));
    let summary = point_summary(&report);
    assert_eq!(summary.enabled, 0);
    assert_eq!(summary.disabled, 1);
    assert_eq!(summary.departed, ["0999120"]);
}

#[test]
fn a_quiet_release_still_reports_the_scope() {
    let first = initial();
    let (_, report) = apply(Some(&first), &public_snapshot(true, Table::Min, "20260723", R2));
    let summary = point_summary(&report);
    assert_eq!(summary.enabled, 0);
    assert_eq!(summary.disabled, 0);
    assert!(summary.departed.is_empty());
}

#[test]
fn jma_public_master_resupplying_a_recorded_release_is_an_error() {
    let first = initial();
    let snapshot = public_snapshot(false, Table::Min, "20260312", R1);
    let error = append(Some(&first), &snapshot, at(GENERATED_AT)).unwrap_err().message();
    assert!(error.contains("is already recorded"), "{error}");
}

#[test]
fn init_writes_a_master_and_prints_a_summary() {
    let (master, report) = apply(None, &public_snapshot(false, Table::Min, "20260312", R1));

    assert!(report.scopes_ordered());
    let summary = to_text(&report);
    assert!(summary.contains("Release: 20260312"), "{summary}");
    assert!(summary.contains("Source: jma_public"), "{summary}");
    assert!(summary.contains("W001"), "{summary}");

    assert_eq!(master.schema_version, 1);
    assert_eq!(master.source_kind.as_str(), "jma_public");
    assert_eq!(master.stations.len(), 5);

    assert_eq!(report.stations_total, 5);
    assert_eq!(report.unresolved_active, 1);
    assert_eq!(report.unresolved_in_scope, Some(1));
    assert_eq!(report.scopes[0].0.as_str(), "point_seismic_intensity");
    assert_eq!(report.scopes[0].1.enabled, 5);
    assert_eq!(report.scopes[0].1.disabled, 0);
    // The audit trail is present even when it is empty.
    assert!(report.scopes[0].1.departed.is_empty());
}

#[test]
fn departures_are_reported_in_full() {
    let first = initial();
    // The next code table has lost a station; the feed still lists it.
    let (_, report) = apply(Some(&first), &public_snapshot(false, Table::Shrunk, "20260723", R2));

    // The signed movement is what an operator scans for.
    let summary = to_text(&report);
    assert!(summary.contains("disabled:"), "{summary}");
    assert!(summary.contains("-1"), "{summary}");
    assert!(summary.contains("0999120"), "{summary}");

    assert_eq!(report.scopes[0].1.disabled, 1);
    assert_eq!(report.scopes[0].1.departed, ["0999120"]);
}

#[test]
fn a_master_may_not_be_updated_from_a_different_source() {
    let item = RawItem {
        region: None,
        city: None,
        code: "0999100".to_owned(),
        name: "甲野市山川".to_owned(),
        kana: None,
        status: "現".to_owned(),
        owner: Some("気象庁".to_owned()),
        latitude: Some(RawCoordinate::Text("35.1234".to_owned())),
        longitude: Some(RawCoordinate::Text("135.6789".to_owned())),
    };
    let file = RawFile { change_time: Some(R1.to_owned()), version: Some("20260312".to_owned()), items: vec![item] };
    let from_station_json = parse(file, &Overrides::none()).expect("the file parses");
    let (master, _) = apply(None, &from_station_json);

    let result = append(Some(&master), &public_snapshot(false, Table::Min, "20260723", R2), at(GENERATED_AT));
    assert!(result.is_err(), "nothing is produced on failure");
    let error = result.unwrap_err().message();
    assert!(error.contains("source kind mismatch"), "{error}");
}
