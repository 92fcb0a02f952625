use jma_station_master::append::{AppendReport, ScopeSummary};
use jma_station_master::input::Warning;
use jma_station_master::model::{Scope, SourceKind};
use jma_station_master::report::to_text;
use jma_station_master::time::parse_timestamp;

fn row(label: &str, value: &str) -> String {
    format!("  {:<24}{:>6}\n", format!("{label}:"), value)
}

fn report(departed: usize, warnings: Vec<Warning>) -> AppendReport {
    AppendReport {
        release_id: "20260723".to_owned(),
        effective_from: parse_timestamp("2026-07-23T12:00:00+09:00", "test").unwrap(),
        source_kind: SourceKind::JmaPublic,
        stations_existing: 5,
        stations_appended: 2,
        stations_total: 7,
        metadata_unchanged: 3,
        metadata_revised: 4,
        unresolved_active: 1,
        unresolved_in_scope: Some(1),
        lifecycle_activated: 2,
        lifecycle_deactivated: 1,
        scopes: vec![(
            Scope::PointSeismicIntensity,
            ScopeSummary {
                enabled: 2,
                disabled: departed,
                departed: (0..departed).map(|i| format!("{:07}", 999_000 + i)).collect(),
            },
        )],
        warnings,
    }
}

#[test]
fn the_summary_lines_up_every_figure() {
    let text = to_text(&report(1, vec![]));
    let mut expected = String::new();
    expected.push_str("Release: 20260723\n");
    expected.push_str("Effective: 2026-07-23T12:00:00+09:00\n");
    expected.push_str("Source: jma_public\n");
    expected.push_str("\nStations:\n");
    expected.push_str(&row("existing", "5"));
    expected.push_str(&row("appended", "2"));
    expected.push_str(&row("total", "7"));
    expected.push_str("\nMetadata:\n");
    expected.push_str(&row("unchanged", "3"));
    expected.push_str(&row("revised", "4"));
    expected.push_str(&row("unresolved (active)", "1"));
    expected.push_str(&row("unresolved (in scope)", "1"));
    expected.push_str("\nLifecycle:\n");
    expected.push_str(&row("activated", "2"));
    expected.push_str(&row("deactivated", "1"));
    expected.push_str("\nScope (point_seismic_intensity):\n");
    expected.push_str(&row("enabled", "+2"));
    expected.push_str(&row("disabled", "-1"));
    expected.push_str("    0999000\n");
    assert_eq!(text, expected);
}

#[test]
fn a_quiet_scope_reads_as_bare_zeros() {
    let mut quiet = report(0, vec![]);
    quiet.scopes[0].1.enabled = 0;
    let text = to_text(&quiet);
    assert!(text.contains(&row("enabled", "0")), "{text}");
    assert!(text.contains(&row("disabled", "0")), "{text}");
}

#[test]
fn departures_beyond_ten_are_counted_not_listed() {
    let text = to_text(&report(13, vec![]));
    assert!(text.contains("    0999009\n"), "{text}");
    assert!(!text.contains("0999010"), "{text}");
    assert!(text.contains("    ... and 3 more\n"), "{text}");
}

#[test]
fn warnings_close_the_summary() {
    let warnings = vec![
        Warning::new("W001", Some("0999010".to_owned()), "coordinate join failed for \"丙川区北二条\"".to_owned()),
        Warning::new("W002", None, "1 published station(s) have no code table entry".to_owned()),
    ];
    let text = to_text(&report(0, warnings));
    assert!(text.ends_with(
        "\nWarnings:\n  W001: 0999010: coordinate join failed for \"丙川区北二条\"\n  W002: 1 published station(s) have no code table entry\n"
    ), "{text}");
}

#[test]
fn a_master_without_scopes_has_no_in_scope_figure() {
    let mut plain = report(0, vec![]);
    plain.unresolved_in_scope = None;
    plain.scopes.clear();
    let text = to_text(&plain);
    assert!(!text.contains("in scope"), "{text}");
    assert!(!text.contains("Scope ("), "{text}");
    assert!(text.ends_with(&row("deactivated", "1")), "{text}");
}

#[test]
fn scopes_are_listed_in_scope_order_each_once() {
    let summary = || ScopeSummary { enabled: 0, disabled: 0, departed: Vec::new() };
    let mut both = report(0, vec![]);
    both.scopes.push((Scope::LongPeriodSeismicIntensity, summary()));
    assert!(both.scopes_ordered());
    let text = to_text(&both);
    let point = text.find("Scope (point_seismic_intensity):").unwrap();
    let long = text.find("Scope (long_period_seismic_intensity):").unwrap();
    assert!(point < long, "{text}");

    let mut swapped = report(0, vec![]);
    swapped.scopes.insert(0, (Scope::LongPeriodSeismicIntensity, summary()));
    assert!(!swapped.scopes_ordered());
    let mut twice = report(0, vec![]);
    twice.scopes.push((Scope::PointSeismicIntensity, summary()));
    assert!(!twice.scopes_ordered());
    assert!(report(0, vec![]).scopes_ordered());
}
