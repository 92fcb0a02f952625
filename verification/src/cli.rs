//! What the command line asks for, once its options have been read.

use vstd::prelude::*;

use crate::input::station_json::{Overrides, OverridesV};
use crate::model::opt_text;
use crate::time::{
    parse_failure_message, read_rfc3339, read_timestamp, reads_as, rfc3339_reading, TimeV, Timestamp,
};

verus! {

/// Which input a run reads, with what the command line adds to it.
#[derive(Debug, Clone)]
pub enum SourcePlan {
    /// A `station.json`, with the overrides given on the command line.
    StationJson(Overrides),
    /// The published feed with the code table; both stamps are the
    /// operator's, since the feed carries neither.
    JmaPublic { release_id: String, effective_from: Timestamp },
}

pub open spec fn neither_source_message() -> Seq<char> {
    "either --station-json or --stations-json with --code-table-xls is required"@
}

pub open spec fn release_required_message() -> Seq<char> {
    "--release-id is required with --stations-json; the published feed does not carry one"@
}

pub open spec fn effective_required_message() -> Seq<char> {
    "--effective-from is required with --stations-json; the published feed does not carry one, and the download time is not when the parameters took effect"@
}

/// The view of an optional timestamp.
pub open spec fn opt_time(t: Option<Timestamp>) -> Option<TimeV> {
    match t {
        Some(x) => Some(x@),
        None => None,
    }
}

/// Decide the source from what the command line gave: a `station.json` wins
/// and takes the release id and effective time as overrides; otherwise the
/// published feed needs both files, a release id and an effective time.
pub fn choose_source(
    station_json: bool,
    published_pair: bool,
    release_id: Option<String>,
    effective_from: Option<Timestamp>,
) -> (r: Result<SourcePlan, String>)
    ensures
        station_json ==> (r matches Ok(SourcePlan::StationJson(o)) && o@ == (OverridesV {
            release_id: opt_text(release_id),
            effective_from: opt_time(effective_from),
        })),
        !station_json && !published_pair ==> (r matches Err(e) && e@ == neither_source_message()),
        !station_json && published_pair && release_id is None ==> (r matches Err(e) && e@
            == release_required_message()),
        !station_json && published_pair && release_id is Some && effective_from is None ==> (
        r matches Err(e) && e@ == effective_required_message()),
        !station_json && published_pair && release_id is Some && effective_from is Some ==> (
        r matches Ok(SourcePlan::JmaPublic { release_id: id, effective_from: t }) && Some(id@)
            == opt_text(release_id) && Some(t@) == opt_time(effective_from)),
{
    if station_json {
        return Ok(SourcePlan::StationJson(Overrides { release_id, effective_from }));
    }
    if !published_pair {
        return Err(
            String::from_str(
                "either --station-json or --stations-json with --code-table-xls is required",
            ),
        );
    }
    // The published feed carries no release stamp of its own, so the operator
    // has to supply one rather than have the tool invent a plausible date.
    let release_id = match release_id {
        Some(id) => id,
        None => {
            return Err(
                String::from_str(
                    "--release-id is required with --stations-json; the published feed does not carry one",
                ),
            );
        },
    };
    let effective_from = match effective_from {
        Some(t) => t,
        None => {
            return Err(
                String::from_str(
                    "--effective-from is required with --stations-json; the published feed does not carry one, and the download time is not when the parameters took effect",
                ),
            );
        },
    };
    Ok(SourcePlan::JmaPublic { release_id, effective_from })
}

/// The text of an option that was given.
pub open spec fn given(o: Option<&str>) -> Seq<char> {
    match o {
        Some(t) => t@,
        None => Seq::empty(),
    }
}

/// Whether an option that was given fails to read as RFC 3339.
pub open spec fn unreadable_time(o: Option<&str>) -> bool {
    o is Some && rfc3339_reading(given(o)) is None
}

/// Whether `--effective-from` was given but did not read (`parsed` is what
/// it reads as).
pub open spec fn unread(effective_from: Option<&str>, parsed: Option<Timestamp>) -> bool {
    effective_from is Some && parsed is None
}

/// Decide the source as [`plan_source`] does, given what `--effective-from`
/// reads as: `parsed` is the parsed time, `None` when the text does not
/// read; it is not looked at when no `--effective-from` was given.
pub fn plan_read(
    station_json: bool,
    published_pair: bool,
    release_id: Option<String>,
    effective_from: Option<&str>,
    parsed: Option<Timestamp>,
) -> (r: Result<SourcePlan, String>)
    ensures
        unread(effective_from, parsed) ==> (r matches Err(e) && e@ == parse_failure_message(
            "--effective-from"@,
            given(effective_from),
        )),
        !unread(effective_from, parsed) && station_json ==> (r matches Ok(SourcePlan::StationJson(o))
            && o@ == (OverridesV {
            release_id: opt_text(release_id),
            effective_from: if effective_from is Some {
                opt_time(parsed)
            } else {
                None
            },
        })),
        !unread(effective_from, parsed) && !station_json && !published_pair ==> (r matches Err(e)
            && e@ == neither_source_message()),
        !unread(effective_from, parsed) && !station_json && published_pair && release_id is None
            ==> (r matches Err(e) && e@ == release_required_message()),
        !station_json && published_pair && release_id is Some && effective_from is None ==> (
        r matches Err(e) && e@ == effective_required_message()),
        !unread(effective_from, parsed) && effective_from is Some && !station_json && published_pair
            && release_id is Some ==> (r matches Ok(
            SourcePlan::JmaPublic { release_id: id, effective_from: t },
        ) && Some(id@) == opt_text(release_id) && Some(t@) == opt_time(parsed)),
{
    let time = match effective_from {
        Some(text) => match read_timestamp(parsed, text, "--effective-from") {
            Ok(t) => Some(t),
            Err(e) => {
                proof {
                    reveal_strlit("--effective-from");
                }
                return Err(e);
            },
        },
        None => None,
    };
    choose_source(station_json, published_pair, release_id, time)
}

/// Read `--effective-from` and decide the source, as [`choose_source`] does
/// with the parsed time; a time that does not parse is refused first.
pub fn plan_source(
    station_json: bool,
    published_pair: bool,
    release_id: Option<String>,
    effective_from: Option<&str>,
) -> (r: Result<SourcePlan, String>)
    ensures
        unreadable_time(effective_from) ==> (r matches Err(e) && e@ == parse_failure_message(
            "--effective-from"@,
            given(effective_from),
        )),
        !unreadable_time(effective_from) && station_json ==> (r matches Ok(
            SourcePlan::StationJson(o),
        ) && o@.release_id == opt_text(release_id) && (o@.effective_from is Some
            <==> effective_from is Some) && (o@.effective_from matches Some(t) ==> reads_as(
            rfc3339_reading(given(effective_from)),
            t,
        ))),
        !unreadable_time(effective_from) && !station_json && !published_pair ==> (r matches Err(e)
            && e@ == neither_source_message()),
        !unreadable_time(effective_from) && !station_json && published_pair && release_id is None
            ==> (r matches Err(e) && e@ == release_required_message()),
        !station_json && published_pair && release_id is Some && effective_from is None ==> (
        r matches Err(e) && e@ == effective_required_message()),
        !unreadable_time(effective_from) && effective_from is Some && !station_json
            && published_pair && release_id is Some ==> (r matches Ok(
            SourcePlan::JmaPublic { release_id: id, effective_from: t },
        ) && Some(id@) == opt_text(release_id) && reads_as(
            rfc3339_reading(given(effective_from)),
            t@,
        )),
{
    let parsed = match effective_from {
        Some(text) => read_rfc3339(text),
        None => None,
    };
    plan_read(station_json, published_pair, release_id, effective_from, parsed)
}


/// Why the output paths cannot be used, if they cannot, in the order they
/// are checked: the master's path exists, the report's path exists, or the
/// two name the same file. The tool never writes over a file it was not
/// asked to create, and the report, written after the master, would land on
/// top of it.
pub open spec fn output_fault(
    output: Seq<char>,
    output_exists: bool,
    report: Option<Seq<char>>,
    report_exists: bool,
    same_path: bool,
) -> Option<Seq<char>> {
    if output_exists {
        Some(output + " already exists\n  "@
            + "write the master to a new path and promote it once you have checked the report"@)
    } else if report is Some && report_exists {
        Some(report->Some_0 + " already exists\n  "@
            + "give the report a path of its own; written over a master it would destroy it"@)
    } else if report is Some && same_path {
        Some("--report and --output are the same path ("@ + output + ")\n  "@
            + "the report would be written over the master"@)
    } else {
        None
    }
}

/// Decide whether the output paths may be written: `output_exists` and
/// `report_exists` say whether the files are there already, `same_path`
/// whether the two paths resolve to one file. See [`output_fault`].
pub fn check_outputs(
    output: &str,
    output_exists: bool,
    report: Option<&str>,
    report_exists: bool,
    same_path: bool,
) -> (r: Result<(), String>)
    ensures
        r is Ok <==> output_fault(output@, output_exists, given_text(report), report_exists, same_path) is None,
        r matches Err(e) ==> output_fault(output@, output_exists, given_text(report), report_exists, same_path)
            == Some(e@),
{
    if output_exists {
        let mut e = String::from_str(output);
        e.append(" already exists\n  ");
        e.append("write the master to a new path and promote it once you have checked the report");
        return Err(e);
    }
    match report {
        Some(path) => {
            if report_exists {
                let mut e = String::from_str(path);
                e.append(" already exists\n  ");
                e.append("give the report a path of its own; written over a master it would destroy it");
                return Err(e);
            }
            if same_path {
                let mut e = String::from_str("--report and --output are the same path (");
                e.append(output);
                e.append(")\n  ");
                e.append("the report would be written over the master");
                return Err(e);
            }
            Ok(())
        },
        None => Ok(()),
    }
}

/// The text of an optional path.
pub open spec fn given_text(o: Option<&str>) -> Option<Seq<char>> {
    match o {
        Some(t) => Some(t@),
        None => None,
    }
}

} // verus!
