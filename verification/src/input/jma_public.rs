//! Adapter for the published `stations.json` combined with the code table.
//!
//! The code table supplies identity (station code, region, city, reading); the
//! public feed supplies coordinates and the operating body. They are joined on the
//! station name and nothing else: an exact match or no match at all. A near match
//! would silently attach one station's coordinates to another, which is far worse
//! than an unresolved location.

use vstd::prelude::*;

use crate::input::code_table_xlsx::{repeats, CodeTableRow, CodeTableRowV};
use crate::input::{
    coordinate_fault, location_read, parse_coordinate_pair, RawCoordinate, Snapshot,
    SnapshotStation, SnapshotStationV, SnapshotV, StationMetadata, Warning, WarningV,
};
use crate::input::station_json::written_owned;
use crate::model::{
    copy_opt_location, copy_opt_string, opt_location, opt_text, Area, AreaV, Location, Provider, Scope,
    SourceKind,
};
use crate::text::{debug_quoted, nat_text, quoted, text_equals, usize_text};
use crate::time::{TimeV, Timestamp};

verus! {

/// One entry of the published feed.
#[derive(Debug, Clone)]
pub struct RawStation {
    pub name: String,
    pub lat: Option<RawCoordinate>,
    pub lon: Option<RawCoordinate>,
    /// The operating body, as a numeric code in text.
    pub affi: Option<String>,
}

pub struct RawStationV {
    pub name: Seq<char>,
    pub lat: Seq<char>,
    pub lon: Seq<char>,
    pub affi: Option<Seq<char>>,
}

impl View for RawStation {
    type V = RawStationV;

    open spec fn view(&self) -> RawStationV {
        RawStationV {
            name: self.name@,
            lat: written_owned(self.lat),
            lon: written_owned(self.lon),
            affi: opt_text(self.affi),
        }
    }
}

/// The operator an affiliation code names.
pub open spec fn affiliation_provider(affi: Option<Seq<char>>) -> Provider {
    match affi {
        Some(a) => if a == "0"@ {
            Provider::Jma
        } else if a == "1"@ {
            Provider::LocalGovernment
        } else if a == "2"@ {
            Provider::Nied
        } else {
            Provider::Unknown
        },
        None => Provider::Unknown,
    }
}

/// `0` is JMA, `1` a local government, `2` NIED; anything else, or nothing,
/// is unknown.
pub fn parse_affiliation(affi: Option<&str>) -> (r: Provider)
    ensures
        r == affiliation_provider(
            match affi {
                Some(a) => Some(a@),
                None => None,
            },
        ),
{
    proof {
        reveal_strlit("0");
        reveal_strlit("1");
        reveal_strlit("2");
    }
    match affi {
        Some(a) => if text_equals(a, "0") {
            Provider::Jma
        } else if text_equals(a, "1") {
            Provider::LocalGovernment
        } else if text_equals(a, "2") {
            Provider::Nied
        } else {
            Provider::Unknown
        },
        None => Provider::Unknown,
    }
}

/// The names of the published entries, in feed order.
pub open spec fn published_names(raw: Seq<RawStationV>) -> Seq<Seq<char>> {
    raw.map_values(|e: RawStationV| e.name)
}

/// The subject a published entry's complaints name.
pub open spec fn published_subject(name: Seq<char>) -> Seq<char> {
    "published station "@ + debug_quoted(name)
}

pub open spec fn duplicate_name_message(name: Seq<char>) -> Seq<char> {
    "stations.json: duplicate station name "@ + debug_quoted(name) + "; names are the join key"@
}

/// What is wrong with published entry `j`, if anything: a malformed
/// coordinate, or a name an earlier entry already has.
pub open spec fn entry_fault(raw: Seq<RawStationV>, j: int) -> Option<Seq<char>> {
    match coordinate_fault(published_subject(raw[j].name), raw[j].lat, raw[j].lon) {
        Some(e) => Some(e),
        None => if repeats(published_names(raw), j) {
            Some(duplicate_name_message(raw[j].name))
        } else {
            None
        },
    }
}

/// The first fault among the entries before `upto`.
pub open spec fn first_entry_fault(raw: Seq<RawStationV>, upto: int) -> Option<Seq<char>>
    decreases upto,
{
    if upto <= 0 {
        None
    } else {
        match first_entry_fault(raw, upto - 1) {
            Some(e) => Some(e),
            None => entry_fault(raw, upto - 1),
        }
    }
}

/// The published entry carrying `name`, if there is one.
pub open spec fn match_index(raw: Seq<RawStationV>, name: Seq<char>) -> Option<int> {
    if exists|i: int| 0 <= i < raw.len() && raw[i].name == name {
        Some(choose|i: int| 0 <= i < raw.len() && raw[i].name == name)
    } else {
        None
    }
}

/// Whether a code table row finds its published entry.
pub open spec fn joins(raw: Seq<RawStationV>) -> spec_fn(CodeTableRowV) -> bool {
    |row: CodeTableRowV| published_names(raw).contains(row.point_name)
}

/// How many code table rows find their published entry.
pub open spec fn joined_count(raw: Seq<RawStationV>, table: Seq<CodeTableRowV>) -> nat {
    table.filter(joins(raw)).len()
}

/// The warning for a row that found no published entry.
pub open spec fn join_failure(row: CodeTableRowV) -> WarningV {
    WarningV {
        code: "W001"@,
        subject: Some(row.point_code),
        message: "coordinate join failed for "@ + debug_quoted(row.point_name),
    }
}

/// The warnings for the rows before `upto` that found no published entry, in
/// table order.
pub open spec fn join_failures(raw: Seq<RawStationV>, table: Seq<CodeTableRowV>, upto: int) -> Seq<
    WarningV,
>
    decreases upto,
{
    if upto <= 0 {
        Seq::empty()
    } else {
        let before = join_failures(raw, table, upto - 1);
        if published_names(raw).contains(table[upto - 1].point_name) {
            before
        } else {
            before.push(join_failure(table[upto - 1]))
        }
    }
}

/// The warning for published entries that no row names.
pub open spec fn dropped_warning(count: nat) -> WarningV {
    WarningV {
        code: "W002"@,
        subject: None,
        message: nat_text(count)
            + " published station(s) have no code table entry and were dropped (no station code, so no index can be assigned)"@,
    }
}

/// Whether `st` is the snapshot entry for code table row `row`.
pub open spec fn row_joined(raw: Seq<RawStationV>, row: CodeTableRowV, st: SnapshotStationV) -> bool {
    let m = match_index(raw, row.point_name);
    &&& st.code == row.point_code
    &&& st.active == Some(true)
    &&& st.scopes == seq![Scope::PointSeismicIntensity]
    &&& st.metadata.name == row.point_name
    &&& st.metadata.kana == row.point_kana
    &&& st.metadata.region == Some(
        AreaV { code: row.region_code, name: row.region_name, kana: row.region_kana },
    )
    &&& st.metadata.city == Some(
        AreaV { code: row.city_code, name: row.city_name, kana: row.city_kana },
    )
    &&& match m {
        Some(i) => location_read(st.metadata.location, raw[i].lat, raw[i].lon)
            && st.metadata.provider == affiliation_provider(raw[i].affi),
        None => st.metadata.location is None && st.metadata.provider == Provider::Unknown,
    }
    &&& st.metadata.provider_detail is None
}

/// Whether `snap` is the snapshot the feed and the code table make together.
pub open spec fn feed_joined(
    raw: Seq<RawStationV>,
    table: Seq<CodeTableRowV>,
    release_id: Seq<char>,
    effective_from: TimeV,
    snap: SnapshotV,
) -> bool {
    let dropped = raw.len() - joined_count(raw, table);
    &&& snap.source_kind == SourceKind::JmaPublic
    &&& snap.release_id == release_id
    &&& snap.effective_from == effective_from
    &&& snap.stations.len() == table.len()
    &&& forall|i: int| 0 <= i < table.len() ==> row_joined(raw, table[i], #[trigger] snap.stations[i])
    // The code table enumerates the PointSeismicIntensity scope exhaustively,
    // so a station's absence from it is evidence that it left the scope.
    &&& snap.complete_scopes == seq![Scope::PointSeismicIntensity]
    &&& snap.warnings == if dropped > 0 {
        join_failures(raw, table, table.len() as int).push(dropped_warning(dropped as nat))
    } else {
        join_failures(raw, table, table.len() as int)
    }
}

/// A published entry after its coordinates have been read.
struct PublicEntry {
    name: String,
    location: Option<Location>,
    provider: Provider,
}

proof fn lemma_entry_fault_stays(raw: Seq<RawStationV>, j: int, n: int)
    requires
        0 <= j <= n,
        first_entry_fault(raw, j) is Some,
    ensures
        first_entry_fault(raw, n) == first_entry_fault(raw, j),
    decreases n - j,
{
    if j < n {
        lemma_entry_fault_stays(raw, j, n - 1);
    }
}

/// Read the published entries, refusing the first malformed coordinate or
/// repeated name.
fn read_published(published: &Vec<RawStation>) -> (r: Result<Vec<PublicEntry>, String>)
    ensures
        r is Err <==> first_entry_fault(
            published@.map_values(|e: RawStation| e@),
            published@.len() as int,
        ) is Some,
        r matches Err(e) ==> first_entry_fault(
            published@.map_values(|e: RawStation| e@),
            published@.len() as int,
        ) == Some(e@),
        r matches Ok(v) ==> v@.len() == published@.len() && forall|i: int|
            0 <= i < v@.len() ==> {
                let e = published@[i]@;
                &&& (#[trigger] v@[i]).name@ == e.name
                &&& location_read(opt_location(v@[i].location), e.lat, e.lon)
                &&& v@[i].provider == affiliation_provider(e.affi)
            },
{
    let ghost raw = published@.map_values(|e: RawStation| e@);
    let n = published.len();
    let mut entries: Vec<PublicEntry> = Vec::new();
    let mut j: usize = 0;
    while j < n
        invariant
            n == published@.len(),
            raw == published@.map_values(|e: RawStation| e@),
            j <= n,
            entries@.len() == j,
            first_entry_fault(raw, j as int) is None,
            forall|i: int|
                0 <= i < j ==> {
                    let e = published@[i]@;
                    &&& (#[trigger] entries@[i]).name@ == e.name
                    &&& location_read(opt_location(entries@[i].location), e.lat, e.lon)
                    &&& entries@[i].provider == affiliation_provider(e.affi)
                },
        decreases n - j,
    {
        let entry = &published[j];
        proof {
            assert(raw[j as int] == entry@);
        }
        let mut subject = String::from_str("published station ");
        subject.append(quoted(entry.name.as_str()).as_str());
        assert(subject@ == published_subject(raw[j as int].name));
        let location = match parse_coordinate_pair(entry.lat.as_ref(), entry.lon.as_ref(), subject.as_str()) {
            Ok(l) => l,
            Err(e) => {
                proof {
                    lemma_entry_fault_stays(raw, j + 1, n as int);
                }
                return Err(e);
            },
        };
        let mut i: usize = 0;
        while i < j
            invariant
                j < n,
                n == published@.len(),
                raw == published@.map_values(|e: RawStation| e@),
                entries@.len() == j,
                raw[j as int] == entry@,
                first_entry_fault(raw, j as int) is None,
                coordinate_fault(
                    published_subject(raw[j as int].name),
                    raw[j as int].lat,
                    raw[j as int].lon,
                ) is None,
                i <= j,
                forall|k: int| 0 <= k < j ==> (#[trigger] entries@[k]).name@ == raw[k].name,
                forall|k: int| 0 <= k < i ==> raw[k].name != raw[j as int].name,
            decreases j - i,
        {
            if entries[i].name == entry.name {
                let mut e = String::from_str("stations.json: duplicate station name ");
                e.append(quoted(entry.name.as_str()).as_str());
                e.append("; names are the join key");
                proof {
                    assert(entries@[i as int].name@ == raw[i as int].name);
                    assert(published_names(raw)[i as int] == published_names(raw)[j as int]);
                    assert(repeats(published_names(raw), j as int));
                    assert(e@ == duplicate_name_message(raw[j as int].name));
                    assert(first_entry_fault(raw, j + 1) == Some(e@));
                    lemma_entry_fault_stays(raw, j + 1, n as int);
                }
                return Err(e);
            }
            i = i + 1;
        }
        proof {
            assert(!repeats(published_names(raw), j as int)) by {
                if repeats(published_names(raw), j as int) {
                    let k = choose|k: int|
                        0 <= k < j && published_names(raw)[k] == published_names(raw)[j as int];
                    assert(raw[k].name != raw[j as int].name);
                }
            }
        }
        let provider = match &entry.affi {
            Some(a) => parse_affiliation(Some(a.as_str())),
            None => parse_affiliation(None),
        };
        entries.push(PublicEntry { name: entry.name.clone(), location, provider });
        j = j + 1;
    }
    Ok(entries)
}

/// Join the published feed to the code table.
///
/// Every code table row becomes a station, in table order, with the coordinates
/// and the operator of the published entry of the same name, or with neither
/// and a `W001` warning when no entry has that name. Published entries that no
/// row names cannot be given an index, because a canonical index is a mapping
/// from a station code and they have none; their number is reported in a
/// `W002` warning.
pub fn build(
    published: &Vec<RawStation>,
    code_table: &Vec<CodeTableRow>,
    release_id: String,
    effective_from: Timestamp,
) -> (r: Result<Snapshot, String>)
    requires
        first_entry_fault(published@.map_values(|e: RawStation| e@), published@.len() as int)
            is None ==> joined_count(
            published@.map_values(|e: RawStation| e@),
            code_table@.map_values(|row: CodeTableRow| row@),
        ) <= published@.len(),
    ensures
        r is Err <==> first_entry_fault(
            published@.map_values(|e: RawStation| e@),
            published@.len() as int,
        ) is Some,
        r matches Err(e) ==> first_entry_fault(
            published@.map_values(|e: RawStation| e@),
            published@.len() as int,
        ) == Some(e@),
        r matches Ok(snap) ==> feed_joined(
            published@.map_values(|e: RawStation| e@),
            code_table@.map_values(|row: CodeTableRow| row@),
            release_id@,
            effective_from@,
            snap@,
        ),
{
    let ghost raw = published@.map_values(|e: RawStation| e@);
    let ghost table = code_table@.map_values(|row: CodeTableRow| row@);
    let entries = read_published(published)?;
    let mut warnings: Vec<Warning> = Vec::new();
    let mut stations: Vec<SnapshotStation> = Vec::new();
    let mut joined: usize = 0;
    let n = code_table.len();
    let mut k: usize = 0;
    while k < n
        invariant
            n == code_table@.len(),
            raw == published@.map_values(|e: RawStation| e@),
            table == code_table@.map_values(|row: CodeTableRow| row@),
            entries@.len() == raw.len(),
            forall|i: int|
                0 <= i < entries@.len() ==> {
                    &&& (#[trigger] entries@[i]).name@ == raw[i].name
                    &&& location_read(opt_location(entries@[i].location), raw[i].lat, raw[i].lon)
                    &&& entries@[i].provider == affiliation_provider(raw[i].affi)
                },
            first_entry_fault(raw, raw.len() as int) is None,
            k <= n,
            stations@.len() == k,
            forall|i: int| 0 <= i < k ==> row_joined(raw, table[i], #[trigger] stations@[i]@),
            warnings@.map_values(|w: Warning| w@) == join_failures(raw, table, k as int),
            joined == table.take(k as int).filter(joins(raw)).len(),
            joined <= k,
        decreases n - k,
    {
        let row = &code_table[k];
        proof {
            assert(table[k as int] == row@);
        }
        let mut found: Option<usize> = None;
        let mut i: usize = 0;
        while i < entries.len()
            invariant
                i <= entries@.len(),
                entries@.len() == raw.len(),
                forall|j: int| 0 <= j < entries@.len() ==> (#[trigger] entries@[j]).name@ == raw[j].name,
                found is None ==> forall|j: int| 0 <= j < i ==> raw[j].name != row@.point_name,
                found matches Some(x) ==> x < raw.len() && raw[x as int].name == row@.point_name,
            decreases entries@.len() - i,
        {
            if found.is_none() && entries[i].name == row.point_name {
                found = Some(i);
            }
            i = i + 1;
        }
        proof {
            lemma_match_index(raw, row@.point_name, found);
            assert(table.take(k + 1) =~= table.take(k as int).push(table[k as int]));
            table.take(k as int).lemma_filter_push(table[k as int], joins(raw));
            assert(table.take(k + 1).drop_last() =~= table.take(k as int));
            assert(table.take(k + 1).last() == table[k as int]);
        }
        let (location, provider) = match found {
            Some(x) => {
                joined = joined + 1;
                (copy_opt_location(&entries[x].location), entries[x].provider)
            },
            None => {
                let mut message = String::from_str("coordinate join failed for ");
                message.append(quoted(row.point_name.as_str()).as_str());
                let w = Warning::new("W001", Some(row.point_code.clone()), message);
                warnings.push(w);
                proof {
                    assert(warnings@.map_values(|w: Warning| w@) =~= join_failures(
                        raw,
                        table,
                        k as int,
                    ).push(join_failure(table[k as int])));
                }
                (None, Provider::Unknown)
            },
        };
        let station = SnapshotStation {
            code: row.point_code.clone(),
            active: Some(true),
            scopes: vec![Scope::PointSeismicIntensity],
            metadata: StationMetadata {
                name: row.point_name.clone(),
                kana: copy_opt_string(&row.point_kana),
                region: Some(
                    Area {
                        code: row.region_code.clone(),
                        name: row.region_name.clone(),
                        kana: copy_opt_string(&row.region_kana),
                    },
                ),
                city: Some(
                    Area {
                        code: row.city_code.clone(),
                        name: row.city_name.clone(),
                        kana: copy_opt_string(&row.city_kana),
                    },
                ),
                location,
                provider,
                provider_detail: None,
            },
        };
        proof {
            assert(station@.scopes =~= seq![Scope::PointSeismicIntensity]);
        }
        stations.push(station);
        k = k + 1;
    }
    proof {
        assert(table.take(n as int) =~= table);
    }
    let ghost failures = warnings@.map_values(|w: Warning| w@);
    let dropped = entries.len() - joined;
    if dropped > 0 {
        let mut message = usize_text(dropped);
        message.append(
            " published station(s) have no code table entry and were dropped (no station code, so no index can be assigned)",
        );
        let w = Warning::new("W002", None, message);
        assert(w@ == dropped_warning(dropped as nat));
        warnings.push(w);
        assert(warnings@.map_values(|w: Warning| w@) =~= failures.push(dropped_warning(dropped as nat)));
    }
    let snap = Snapshot {
        source_kind: SourceKind::JmaPublic,
        release_id,
        effective_from,
        stations,
        complete_scopes: vec![Scope::PointSeismicIntensity],
        warnings,
    };
    proof {
        assert(snap@.complete_scopes =~= seq![Scope::PointSeismicIntensity]);
        assert forall|i: int| 0 <= i < table.len() implies row_joined(
            raw,
            table[i],
            #[trigger] snap@.stations[i],
        ) by {
            assert(snap@.stations[i] == snap.stations@[i]@);
        }
    }
    Ok(snap)
}

proof fn lemma_match_index(raw: Seq<RawStationV>, name: Seq<char>, found: Option<usize>)
    requires
        first_entry_fault(raw, raw.len() as int) is None,
        found is None ==> forall|j: int| 0 <= j < raw.len() ==> raw[j].name != name,
        found matches Some(x) ==> x < raw.len() && raw[x as int].name == name,
    ensures
        match found {
            Some(x) => match_index(raw, name) == Some(x as int),
            None => match_index(raw, name) is None,
        },
        published_names(raw).contains(name) == (found is Some),
{
    if let Some(x) = found {
        assert(published_names(raw)[x as int] == name);
        let c = choose|i: int| 0 <= i < raw.len() && raw[i].name == name;
        if c != x as int {
            lemma_names_distinct(raw, c, x as int);
        }
    } else {
        if published_names(raw).contains(name) {
            let j = choose|j: int| 0 <= j < published_names(raw).len() && published_names(raw)[j] == name;
            assert(raw[j].name == name);
        }
    }
}

/// Without a fault, no two published entries share a name.
proof fn lemma_names_distinct(raw: Seq<RawStationV>, a: int, b: int)
    requires
        first_entry_fault(raw, raw.len() as int) is None,
        0 <= a < raw.len(),
        0 <= b < raw.len(),
        a != b,
    ensures
        raw[a].name != raw[b].name,
{
    let (lo, hi) = if a < b {
        (a, b)
    } else {
        (b, a)
    };
    lemma_no_fault_before(raw, hi + 1, raw.len() as int);
    assert(first_entry_fault(raw, hi + 1) == match first_entry_fault(raw, hi) {
        Some(e) => Some(e),
        None => entry_fault(raw, hi),
    });
    if raw[lo].name == raw[hi].name {
        assert(published_names(raw)[lo] == published_names(raw)[hi]);
        assert(repeats(published_names(raw), hi));
    }
}

proof fn lemma_no_fault_before(raw: Seq<RawStationV>, j: int, n: int)
    requires
        0 <= j <= n,
        first_entry_fault(raw, n) is None,
    ensures
        first_entry_fault(raw, j) is None,
    decreases n - j,
{
    if j < n {
        lemma_no_fault_before(raw, j + 1, n);
    }
}


/// Whether no more code table rows find a published entry than there are
/// published entries, which holds whenever the table's names are unique.
pub fn joins_fit(published: &Vec<RawStation>, code_table: &Vec<CodeTableRow>) -> (b: bool)
    ensures
        b == (joined_count(
            published@.map_values(|e: RawStation| e@),
            code_table@.map_values(|row: CodeTableRow| row@),
        ) <= published@.len()),
{
    let ghost raw = published@.map_values(|e: RawStation| e@);
    let ghost table = code_table@.map_values(|row: CodeTableRow| row@);
    let n = code_table.len();
    let mut joined: usize = 0;
    let mut k: usize = 0;
    while k < n
        invariant
            n == code_table@.len(),
            raw == published@.map_values(|e: RawStation| e@),
            table == code_table@.map_values(|row: CodeTableRow| row@),
            k <= n,
            joined == table.take(k as int).filter(joins(raw)).len(),
            joined <= k,
        decreases n - k,
    {
        let row = &code_table[k];
        let mut found = false;
        let mut i: usize = 0;
        while i < published.len()
            invariant
                i <= published@.len(),
                raw == published@.map_values(|e: RawStation| e@),
                k < n,
                n == code_table@.len(),
                table == code_table@.map_values(|row: CodeTableRow| row@),
                table[k as int] == row@,
                found == exists|j: int| 0 <= j < i && raw[j].name == row@.point_name,
            decreases published@.len() - i,
        {
            proof {
                assert(raw[i as int] == published@[i as int]@);
            }
            if published[i].name == row.point_name {
                found = true;
            }
            proof {
                if !found {
                    assert forall|j: int| 0 <= j < i + 1 implies raw[j].name != row@.point_name by {
                        if j < i {
                            assert(!(0 <= j < i && raw[j].name == row@.point_name));
                        }
                    }
                } else {
                    if published@[i as int]@.name == row@.point_name {
                        assert(raw[i as int].name == row@.point_name);
                    }
                }
            }
            i = i + 1;
        }
        proof {
            if found {
                let j = choose|j: int| 0 <= j < i && raw[j].name == row@.point_name;
                assert(published_names(raw)[j] == row@.point_name);
            } else if published_names(raw).contains(row@.point_name) {
                let j = choose|j: int|
                    0 <= j < published_names(raw).len() && published_names(raw)[j] == row@.point_name;
                assert(raw[j].name == row@.point_name);
            }
            assert(table.take(k + 1) =~= table.take(k as int).push(table[k as int]));
            table.take(k as int).lemma_filter_push(table[k as int], joins(raw));
        }
        if found {
            joined = joined + 1;
        }
        k = k + 1;
    }
    proof {
        assert(table.take(n as int) =~= table);
    }
    joined <= published.len()
}

/// Every row of the code table becomes, at its own place, an active station
/// vouched for in the PointSeismicIntensity scope that carries the row's
/// point code, name and kana, and the row's region and city with their
/// codes, names and kana; it takes no provider detail from the feed.
pub proof fn law_rows_give_each_station_its_identity(
    raw: Seq<RawStationV>,
    table: Seq<CodeTableRowV>,
    release_id: Seq<char>,
    effective_from: TimeV,
    snap: SnapshotV,
    i: int,
)
    requires
        feed_joined(raw, table, release_id, effective_from, snap),
        0 <= i < table.len(),
    ensures
        i < snap.stations.len(),
        snap.stations[i].code == table[i].point_code,
        snap.stations[i].active == Some(true),
        snap.stations[i].scopes.contains(Scope::PointSeismicIntensity),
        snap.stations[i].metadata.name == table[i].point_name,
        snap.stations[i].metadata.kana == table[i].point_kana,
        snap.stations[i].metadata.region matches Some(a) && a.code == table[i].region_code && a.name
            == table[i].region_name && a.kana == table[i].region_kana,
        snap.stations[i].metadata.city matches Some(a) && a.code == table[i].city_code && a.name
            == table[i].city_name && a.kana == table[i].city_kana,
        snap.stations[i].metadata.provider_detail is None,
{
    assert(row_joined(raw, table[i], snap.stations[i]));
    assert(seq![Scope::PointSeismicIntensity][0] == Scope::PointSeismicIntensity);
}

/// Each station takes its coordinates and operator from the published entry
/// of its name, when the feed names its entries once: the coordinates as
/// that entry writes them, and the operator its affiliation gives (`0` JMA,
/// `1` a local government, `2` NIED, anything else unknown). A station no
/// entry names has no coordinates and an unknown operator.
pub proof fn law_the_feed_gives_coordinates_and_operator(
    raw: Seq<RawStationV>,
    table: Seq<CodeTableRowV>,
    release_id: Seq<char>,
    effective_from: TimeV,
    snap: SnapshotV,
    i: int,
)
    requires
        feed_joined(raw, table, release_id, effective_from, snap),
        0 <= i < table.len(),
        forall|a: int, b: int| 0 <= a < b < raw.len() ==> raw[a].name != raw[b].name,
    ensures
        forall|k: int|
            0 <= k < raw.len() && raw[k].name == table[i].point_name ==> {
                &&& location_read(snap.stations[i].metadata.location, raw[k].lat, raw[k].lon)
                &&& raw[k].affi == Some("0"@) ==> snap.stations[i].metadata.provider == Provider::Jma
                &&& raw[k].affi == Some("1"@) ==> snap.stations[i].metadata.provider
                    == Provider::LocalGovernment
                &&& raw[k].affi == Some("2"@) ==> snap.stations[i].metadata.provider == Provider::Nied
                &&& raw[k].affi is None ==> snap.stations[i].metadata.provider == Provider::Unknown
            },
        (forall|k: int| 0 <= k < raw.len() ==> raw[k].name != table[i].point_name) ==> {
            &&& snap.stations[i].metadata.location is None
            &&& snap.stations[i].metadata.provider == Provider::Unknown
        },
{
    reveal_strlit("0");
    reveal_strlit("1");
    reveal_strlit("2");
    assert(row_joined(raw, table[i], snap.stations[i]));
    assert forall|k: int|
        0 <= k < raw.len() && raw[k].name == table[i].point_name implies {
            &&& location_read(snap.stations[i].metadata.location, raw[k].lat, raw[k].lon)
            &&& raw[k].affi == Some("0"@) ==> snap.stations[i].metadata.provider == Provider::Jma
            &&& raw[k].affi == Some("1"@) ==> snap.stations[i].metadata.provider
                == Provider::LocalGovernment
            &&& raw[k].affi == Some("2"@) ==> snap.stations[i].metadata.provider == Provider::Nied
            &&& raw[k].affi is None ==> snap.stations[i].metadata.provider == Provider::Unknown
        } by {
        let m = match_index(raw, table[i].point_name);
        assert(m is Some);
        let c = m->Some_0;
        if c != k {
            if c < k {
                assert(raw[c].name != raw[k].name);
            } else {
                assert(raw[k].name != raw[c].name);
            }
        }
        assert("0"@[0] != "1"@[0]);
        assert("0"@[0] != "2"@[0]);
        assert("1"@[0] != "2"@[0]);
    }
}

} // verus!
