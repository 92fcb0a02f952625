use jma_station_master::cli::{check_outputs, plan_read, plan_source, SourcePlan};
use jma_station_master::time::parse_timestamp;

#[test]
fn station_json_takes_the_command_line_as_overrides() {
    match plan_source(true, false, Some("override".to_owned()), Some("2020-01-01T00:00:00+09:00")) {
        Ok(SourcePlan::StationJson(o)) => {
            assert_eq!(o.release_id.as_deref(), Some("override"));
            assert_eq!(o.effective_from.unwrap().rfc3339, "2020-01-01T00:00:00+09:00");
        }
        other => panic!("unexpected {other:?}"),
    }
    match plan_source(true, true, None, None) {
        Ok(SourcePlan::StationJson(o)) => {
            assert!(o.release_id.is_none());
            assert!(o.effective_from.is_none());
        }
        other => panic!("unexpected {other:?}"),
    }
}

#[test]
fn the_published_feed_requires_an_explicit_release() {
    let text = plan_source(false, true, None, None).unwrap_err();
    assert!(text.contains("--release-id is required"), "{text}");
}

#[test]
fn the_published_feed_requires_an_effective_time() {
    let text = plan_source(false, true, Some("20260312".to_owned()), None).unwrap_err();
    assert!(text.starts_with("--effective-from is required with --stations-json"), "{text}");
}

#[test]
fn the_published_feed_requires_the_code_table() {
    let text = plan_source(false, false, Some("20260312".to_owned()), Some("2026-03-12T12:00:00+09:00"))
        .unwrap_err();
    assert!(text.contains("--code-table-xls"), "{text}");
}

#[test]
fn an_unreadable_effective_time_is_refused_first() {
    let text = plan_source(true, false, None, Some("tomorrow")).unwrap_err();
    assert_eq!(text, "parsing --effective-from \"tomorrow\"");
}

#[test]
fn the_published_feed_takes_both_stamps() {
    match plan_source(false, true, Some("20260312".to_owned()), Some("2026-03-12T12:00:00+09:00")) {
        Ok(SourcePlan::JmaPublic { release_id, effective_from }) => {
            assert_eq!(release_id, "20260312");
            assert_eq!(effective_from.rfc3339, "2026-03-12T12:00:00+09:00");
            assert_eq!(effective_from.offset_seconds, 9 * 3600);
            assert_eq!(effective_from.seconds, 1773284400);
        }
        other => panic!("unexpected {other:?}"),
    }
}

#[test]
fn the_plan_takes_the_effective_time_as_it_was_read() {
    let given = parse_timestamp("2026-03-12T12:00:00+09:00", "test").unwrap();
    match plan_read(false, true, Some("20260312".to_owned()), Some("whatever"), Some(given)) {
        Ok(SourcePlan::JmaPublic { effective_from, .. }) => {
            assert_eq!(effective_from.rfc3339, "2026-03-12T12:00:00+09:00")
        }
        other => panic!("{other:?}"),
    }
    let text = plan_read(true, false, None, Some("tomorrow"), None).unwrap_err();
    assert_eq!(text, "parsing --effective-from \"tomorrow\"");
}

#[test]
fn an_existing_output_is_never_overwritten() {
    // There is no flag that would let this through: a master is produced at a
    // new path and promoted by hand once its report has been checked.
    let text = check_outputs("master.json", true, None, false, false).unwrap_err();
    assert!(text.contains("already exists"), "{text}");
    assert!(text.starts_with("master.json already exists\n  "), "{text}");
    assert!(check_outputs("master.json", false, None, false, false).is_ok());
}

#[test]
fn an_existing_report_is_never_overwritten() {
    // A report path aimed at a master would destroy it as thoroughly as an
    // output path would, so it is refused on the same terms.
    let text = check_outputs("next.json", false, Some("master.json"), true, false).unwrap_err();
    assert!(text.contains("already exists"), "{text}");
    assert!(text.starts_with("master.json already exists\n  give the report"), "{text}");
    assert!(check_outputs("next.json", false, Some("report.json"), false, false).is_ok());
}

#[test]
fn a_report_may_not_share_the_output_path() {
    let text = check_outputs("master.json", false, Some("master.json"), false, true).unwrap_err();
    assert!(text.contains("same path"), "{text}");
    assert_eq!(
        text,
        "--report and --output are the same path (master.json)\n  the report would be written over the master"
    );
}
