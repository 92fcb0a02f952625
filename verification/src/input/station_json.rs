//! Adapter for the high-quality `station.json` master.
//!
//! The file is decoded into [`RawFile`] as it stands; [`parse`] then turns it
//! into a [`Snapshot`].

use vstd::prelude::*;

use crate::input::{
    coordinate_fault, location_read, parse_coordinate_pair, written, RawCoordinate, Snapshot,
    SnapshotStation, SnapshotStationV, SnapshotV, StationMetadata,
};
use crate::model::{opt_text, Area, AreaV, Provider, SourceKind};
use crate::text::{debug_quoted, join2, quoted, text_equals};
use crate::time::{
    parse_failure_message, read_rfc3339, read_timestamp, reads_as, rfc3339_reading, TimeV, Timestamp,
};

verus! {

#[derive(Debug, Clone)]
pub struct RawArea {
    pub code: String,
    pub name: String,
    pub kana: Option<String>,
}

impl View for RawArea {
    type V = AreaV;

    open spec fn view(&self) -> AreaV {
        AreaV { code: self.code@, name: self.name@, kana: opt_text(self.kana) }
    }
}

/// One entry of `items`.
#[derive(Debug, Clone)]
pub struct RawItem {
    pub region: Option<RawArea>,
    pub city: Option<RawArea>,
    pub code: String,
    pub name: String,
    pub kana: Option<String>,
    pub status: String,
    pub owner: Option<String>,
    pub latitude: Option<RawCoordinate>,
    pub longitude: Option<RawCoordinate>,
}

/// What an entry says, with its coordinates as written.
pub struct RawItemV {
    pub region: Option<AreaV>,
    pub city: Option<AreaV>,
    pub code: Seq<char>,
    pub name: Seq<char>,
    pub kana: Option<Seq<char>>,
    pub status: Seq<char>,
    pub owner: Option<Seq<char>>,
    pub latitude: Seq<char>,
    pub longitude: Seq<char>,
}

/// The view of an optional raw area.
pub open spec fn opt_raw_area(a: Option<RawArea>) -> Option<AreaV> {
    match a {
        Some(x) => Some(x@),
        None => None,
    }
}

/// The written text of an optional coordinate held by value.
pub open spec fn written_owned(c: Option<RawCoordinate>) -> Seq<char> {
    match c {
        Some(x) => x.spec_as_written(),
        None => Seq::empty(),
    }
}

impl View for RawItem {
    type V = RawItemV;

    open spec fn view(&self) -> RawItemV {
        RawItemV {
            region: opt_raw_area(self.region),
            city: opt_raw_area(self.city),
            code: self.code@,
            name: self.name@,
            kana: opt_text(self.kana),
            status: self.status@,
            owner: opt_text(self.owner),
            latitude: written_owned(self.latitude),
            longitude: written_owned(self.longitude),
        }
    }
}

/// The whole file.
#[derive(Debug, Clone)]
pub struct RawFile {
    /// `changeTime`: when the file's values took effect.
    pub change_time: Option<String>,
    pub version: Option<String>,
    pub items: Vec<RawItem>,
}

pub struct RawFileV {
    pub change_time: Option<Seq<char>>,
    pub version: Option<Seq<char>>,
    pub items: Seq<RawItemV>,
}

impl View for RawFile {
    type V = RawFileV;

    open spec fn view(&self) -> RawFileV {
        RawFileV {
            change_time: opt_text(self.change_time),
            version: opt_text(self.version),
            items: self.items@.map_values(|i: RawItem| i@),
        }
    }
}

/// Overrides for values the file normally supplies itself.
#[derive(Debug, Clone)]
pub struct Overrides {
    pub release_id: Option<String>,
    pub effective_from: Option<Timestamp>,
}

pub struct OverridesV {
    pub release_id: Option<Seq<char>>,
    pub effective_from: Option<TimeV>,
}

impl View for Overrides {
    type V = OverridesV;

    open spec fn view(&self) -> OverridesV {
        OverridesV {
            release_id: opt_text(self.release_id),
            effective_from: match self.effective_from {
                Some(t) => Some(t@),
                None => None,
            },
        }
    }
}

impl Overrides {
    /// No overrides.
    pub fn none() -> (o: Overrides)
        ensures
            o@.release_id is None,
            o@.effective_from is None,
    {
        Overrides { release_id: None, effective_from: None }
    }
}

/// The lifecycle state a status word states.
pub open spec fn status_state(status: Seq<char>) -> Option<bool> {
    if status == "現"@ || status == "新規"@ || status == "変更"@ {
        Some(true)
    } else if status == "廃止"@ {
        Some(false)
    } else {
        None
    }
}

/// Whether the station exists, by its status word: `現`, `新規` and `変更`
/// say it does, `廃止` that it was retired; any other word is unknown.
pub fn parse_status(status: &str) -> (r: Option<bool>)
    ensures
        r == status_state(status@),
{
    proof {
        reveal_strlit("現");
        reveal_strlit("新規");
        reveal_strlit("変更");
        reveal_strlit("廃止");
    }
    if text_equals(status, "現") || text_equals(status, "新規") || text_equals(status, "変更") {
        Some(true)
    } else if text_equals(status, "廃止") {
        Some(false)
    } else {
        None
    }
}

/// The operator an owner word names.
pub open spec fn owner_provider(owner: Seq<char>) -> Provider {
    if owner == "気象庁"@ {
        Provider::Jma
    } else if owner == "防災科研"@ {
        Provider::Nied
    } else if owner == "都道府県"@ || owner == "市町村"@ {
        Provider::LocalGovernment
    } else if owner == "その他"@ {
        Provider::Other
    } else {
        Provider::Unknown
    }
}

/// The operator and the owner's own wording: no owner is an unknown operator with
/// no wording; any owner keeps its wording, and names a known operator only
/// when it is one of the recognized words.
pub fn parse_owner(owner: Option<&str>) -> (r: (Provider, Option<String>))
    ensures
        owner is None ==> r.0 == Provider::Unknown && r.1 is None,
        owner matches Some(o) ==> r.0 == owner_provider(o@) && opt_text(r.1) == Some(o@),
{
    match owner {
        None => (Provider::Unknown, None),
        Some(o) => {
            proof {
                reveal_strlit("気象庁");
                reveal_strlit("防災科研");
                reveal_strlit("都道府県");
                reveal_strlit("市町村");
                reveal_strlit("その他");
            }
            let provider = if text_equals(o, "気象庁") {
                Provider::Jma
            } else if text_equals(o, "防災科研") {
                Provider::Nied
            } else if text_equals(o, "都道府県") || text_equals(o, "市町村") {
                Provider::LocalGovernment
            } else if text_equals(o, "その他") {
                Provider::Other
            } else {
                Provider::Unknown
            };
            (provider, Some(String::from_str(o)))
        },
    }
}

fn convert_area(area: RawArea) -> (r: Area)
    ensures
        r@ == area@,
{
    Area { code: area.code, name: area.name, kana: area.kana }
}

fn convert_opt_area(area: Option<RawArea>) -> (r: Option<Area>)
    ensures
        crate::model::opt_area(r) == opt_raw_area(area),
{
    match area {
        Some(a) => Some(convert_area(a)),
        None => None,
    }
}

/// The subject an entry's complaints name.
pub open spec fn item_subject(item: RawItemV) -> Seq<char> {
    "station "@ + item.code
}

/// What is wrong with an entry, if anything: an unknown status first, then a
/// malformed coordinate.
pub open spec fn item_fault(item: RawItemV) -> Option<Seq<char>> {
    if status_state(item.status) is None {
        Some(item_subject(item) + ": unknown status "@ + debug_quoted(item.status))
    } else {
        coordinate_fault(item_subject(item), item.latitude, item.longitude)
    }
}

/// The first fault among the entries, in file order.
pub open spec fn first_fault(items: Seq<RawItemV>) -> Option<Seq<char>>
    decreases items.len(),
{
    if items.len() == 0 {
        None
    } else {
        match first_fault(items.drop_last()) {
            Some(e) => Some(e),
            None => item_fault(items.last()),
        }
    }
}

/// Whether `st` is the snapshot entry for `item`.
pub open spec fn item_read(item: RawItemV, st: SnapshotStationV) -> bool {
    &&& st.code == item.code
    &&& st.active == status_state(item.status)
    &&& st.scopes.len() == 0
    &&& st.metadata.name == item.name
    &&& st.metadata.kana == item.kana
    &&& st.metadata.region == item.region
    &&& st.metadata.city == item.city
    &&& location_read(st.metadata.location, item.latitude, item.longitude)
    &&& st.metadata.provider == match item.owner {
        Some(o) => owner_provider(o),
        None => Provider::Unknown,
    }
    &&& st.metadata.provider_detail == item.owner
}

/// The complaint when no release id is known.
pub open spec fn no_version_message() -> Seq<char> {
    "station.json has no `version`; pass --release-id"@
}

/// The complaint when no effective time is known.
pub open spec fn no_change_time_message() -> Seq<char> {
    "station.json has no `changeTime`; pass --effective-from"@
}

/// The release id: the override, else the file's `version`.
pub open spec fn chosen_release_id(raw: RawFileV, o: OverridesV) -> Option<Seq<char>> {
    match o.release_id {
        Some(id) => Some(id),
        None => raw.version,
    }
}

/// Why the effective time cannot be settled, if it cannot: no override and
/// either no `changeTime` or one that does not parse.
pub open spec fn effective_fault(raw: RawFileV, o: OverridesV) -> Option<Seq<char>> {
    match o.effective_from {
        Some(_) => None,
        None => match raw.change_time {
            None => Some(no_change_time_message()),
            Some(ct) => if rfc3339_reading(ct) is None {
                Some(parse_failure_message("changeTime"@, ct))
            } else {
                None
            },
        },
    }
}

/// Whether `t` is the effective time: the override, else what `changeTime`
/// reads as.
pub open spec fn effective_read(raw: RawFileV, o: OverridesV, t: TimeV) -> bool {
    match o.effective_from {
        Some(x) => t == x,
        None => match raw.change_time {
            Some(ct) => reads_as(rfc3339_reading(ct), t),
            None => false,
        },
    }
}

/// The first reason the file is refused, in the order the file is read:
/// release id, effective time, then the entries.
pub open spec fn file_fault(raw: RawFileV, o: OverridesV) -> Option<Seq<char>> {
    if chosen_release_id(raw, o) is None {
        Some(no_version_message())
    } else if effective_fault(raw, o) is Some {
        effective_fault(raw, o)
    } else {
        first_fault(raw.items)
    }
}

/// Whether `snap` is the snapshot the file describes.
pub open spec fn file_read(raw: RawFileV, o: OverridesV, snap: SnapshotV) -> bool {
    &&& snap.source_kind == SourceKind::StationJson
    &&& Some(snap.release_id) == chosen_release_id(raw, o)
    &&& effective_read(raw, o, snap.effective_from)
    &&& snap.stations.len() == raw.items.len()
    &&& forall|i: int| 0 <= i < raw.items.len() ==> item_read(raw.items[i], #[trigger] snap.stations[i])
    // station.json lists retired stations too but is not the code table, so it
    // cannot say which stations a PointSeismicIntensity report may name.
    &&& snap.complete_scopes.len() == 0
    &&& snap.warnings.len() == 0
}

/// Why the effective time cannot be settled, given what the file's
/// `changeTime` reads as (`reading`, `None` when it does not read).
pub open spec fn effective_fault_given(raw: RawFileV, o: OverridesV, reading: Option<TimeV>) -> Option<
    Seq<char>,
> {
    match o.effective_from {
        Some(_) => None,
        None => match raw.change_time {
            None => Some(no_change_time_message()),
            Some(ct) => if reading is None {
                Some(parse_failure_message("changeTime"@, ct))
            } else {
                None
            },
        },
    }
}

/// Whether `t` is the effective time, given what `changeTime` reads as.
pub open spec fn effective_given(raw: RawFileV, o: OverridesV, reading: Option<TimeV>, t: TimeV) -> bool {
    match o.effective_from {
        Some(x) => t == x,
        None => raw.change_time is Some && reading == Some(t),
    }
}

/// The first reason the file is refused, given what `changeTime` reads as.
pub open spec fn file_fault_given(raw: RawFileV, o: OverridesV, reading: Option<TimeV>) -> Option<
    Seq<char>,
> {
    if chosen_release_id(raw, o) is None {
        Some(no_version_message())
    } else if effective_fault_given(raw, o, reading) is Some {
        effective_fault_given(raw, o, reading)
    } else {
        first_fault(raw.items)
    }
}

/// Whether `snap` is the snapshot the file describes, given what
/// `changeTime` reads as.
pub open spec fn file_given(raw: RawFileV, o: OverridesV, reading: Option<TimeV>, snap: SnapshotV) -> bool {
    &&& snap.source_kind == SourceKind::StationJson
    &&& Some(snap.release_id) == chosen_release_id(raw, o)
    &&& effective_given(raw, o, reading, snap.effective_from)
    &&& snap.stations.len() == raw.items.len()
    &&& forall|i: int| 0 <= i < raw.items.len() ==> item_read(raw.items[i], #[trigger] snap.stations[i])
    &&& snap.complete_scopes.len() == 0
    &&& snap.warnings.len() == 0
}

/// The view of an optional timestamp.
pub open spec fn opt_time_v(t: Option<Timestamp>) -> Option<TimeV> {
    match t {
        Some(x) => Some(x@),
        None => None,
    }
}

fn read_item(item: RawItem) -> (r: Result<SnapshotStation, String>)
    ensures
        r is Err <==> item_fault(item@) is Some,
        r matches Err(e) ==> item_fault(item@) == Some(e@),
        r matches Ok(st) ==> item_read(item@, st@),
{
    let ghost view = item@;
    let subject = join2("station ", item.code.as_str());
    proof {
        reveal_strlit("station ");
    }
    let active = match parse_status(item.status.as_str()) {
        Some(a) => a,
        None => {
            let mut e = subject;
            e.append(": unknown status ");
            e.append(quoted(item.status.as_str()).as_str());
            proof {
                reveal_strlit(": unknown status ");
                assert(e@ =~= item_subject(view) + ": unknown status "@ + debug_quoted(view.status));
            }
            return Err(e);
        },
    };
    let location = match parse_coordinate_pair(
        item.latitude.as_ref(),
        item.longitude.as_ref(),
        subject.as_str(),
    ) {
        Ok(l) => l,
        Err(e) => {
            return Err(e);
        },
    };
    let (provider, provider_detail) = match &item.owner {
        Some(o) => parse_owner(Some(o.as_str())),
        None => parse_owner(None),
    };
    Ok(
        SnapshotStation {
            code: item.code,
            active: Some(active),
            scopes: Vec::new(),
            metadata: StationMetadata {
                name: item.name,
                kana: item.kana,
                region: convert_opt_area(item.region),
                city: convert_opt_area(item.city),
                location,
                provider,
                provider_detail,
            },
        },
    )
}

/// Turn a decoded `station.json` into a snapshot, given what its
/// `changeTime` reads as: `change_time` is the parsed time, `None` when the
/// text does not read (it is not looked at when an override is given or the
/// file has no `changeTime`). See [`parse`].
pub fn parse_read(raw: RawFile, overrides: &Overrides, change_time: Option<Timestamp>) -> (r: Result<
    Snapshot,
    String,
>)
    ensures
        r is Err <==> file_fault_given(raw@, overrides@, opt_time_v(change_time)) is Some,
        r matches Err(e) ==> file_fault_given(raw@, overrides@, opt_time_v(change_time)) == Some(e@),
        r matches Ok(snap) ==> file_given(raw@, overrides@, opt_time_v(change_time), snap@),
{
    let ghost view = raw@;
    let ghost given = opt_time_v(change_time);
    let release_id = match &overrides.release_id {
        Some(id) => id.clone(),
        None => match raw.version {
            Some(version) => version,
            None => {
                return Err(String::from_str("station.json has no `version`; pass --release-id"));
            },
        },
    };
    let effective_from = match &overrides.effective_from {
        Some(t) => t.duplicate(),
        None => match &raw.change_time {
            Some(text) => match read_timestamp(change_time, text.as_str(), "changeTime") {
                Ok(t) => t,
                Err(e) => {
                    proof {
                        reveal_strlit("changeTime");
                    }
                    return Err(e);
                },
            },
            None => {
                return Err(
                    String::from_str("station.json has no `changeTime`; pass --effective-from"),
                );
            },
        },
    };
    let mut items = raw.items;
    let n = items.len();
    let mut stations: Vec<SnapshotStation> = Vec::new();
    let mut rest: Vec<RawItem> = Vec::new();
    // Take the entries in file order.
    while items.len() > 0
        invariant
            rest@.len() + items@.len() == n,
            forall|k: int| 0 <= k < rest@.len() ==> #[trigger] rest@[k]@ == view.items[n - 1 - k],
            forall|k: int| 0 <= k < items@.len() ==> #[trigger] items@[k]@ == view.items[k],
            n == view.items.len(),
        decreases items@.len(),
    {
        let item = items.pop().unwrap();
        rest.push(item);
    }
    let mut i: usize = 0;
    while rest.len() > 0
        invariant
            n == view.items.len(),
            view == raw@,
            given == opt_time_v(change_time),
            file_fault_given(view, overrides@, given) == first_fault(view.items),
            Some(release_id@) == chosen_release_id(view, overrides@),
            effective_given(view, overrides@, given, effective_from@),
            i == n - rest@.len(),
            i == stations@.len(),
            forall|k: int| 0 <= k < rest@.len() ==> #[trigger] rest@[k]@ == view.items[n - 1 - k],
            first_fault(view.items.take(i as int)) is None,
            forall|k: int| 0 <= k < i ==> item_read(view.items[k], #[trigger] stations@[k]@),
        decreases rest@.len(),
    {
        let item = rest.pop().unwrap();
        proof {
            assert(view.items.take(i + 1).drop_last() =~= view.items.take(i as int));
            assert(view.items.take(i + 1).last() == view.items[i as int]);
        }
        match read_item(item) {
            Ok(st) => stations.push(st),
            Err(e) => {
                proof {
                    lemma_first_fault_extends(view.items, i + 1);
                }
                return Err(e);
            },
        }
        i = i + 1;
    }
    proof {
        assert(view.items.take(n as int) =~= view.items);
    }
    let snap = Snapshot {
        source_kind: SourceKind::StationJson,
        release_id,
        effective_from,
        stations,
        complete_scopes: Vec::new(),
        warnings: Vec::new(),
    };
    assert(snap@.stations.len() == n);
    Ok(snap)
}

proof fn lemma_first_fault_extends(items: Seq<RawItemV>, j: int)
    requires
        0 < j <= items.len(),
        first_fault(items.take(j)) is Some,
    ensures
        first_fault(items) == first_fault(items.take(j)),
    decreases items.len() - j,
{
    if j < items.len() {
        assert(items.take(j + 1).drop_last() =~= items.take(j));
        lemma_first_fault_extends(items, j + 1);
    } else {
        assert(items.take(j) =~= items);
    }
}


/// Turn a decoded `station.json` into a snapshot.
///
/// The release id and the effective time come from the overrides when they are
/// given and from the file's `version` and `changeTime` otherwise; every entry
/// becomes a station, in file order, whose lifecycle state is its status. The
/// file is refused with the first fault met in that order.
pub fn parse(raw: RawFile, overrides: &Overrides) -> (r: Result<Snapshot, String>)
    ensures
        r is Err <==> file_fault(raw@, overrides@) is Some,
        r matches Err(e) ==> file_fault(raw@, overrides@) == Some(e@),
        r matches Ok(snap) ==> file_read(raw@, overrides@, snap@),
{
    let ghost view = raw@;
    let change_time = match (&overrides.effective_from, &raw.change_time) {
        (None, Some(text)) => read_rfc3339(text.as_str()),
        _ => None,
    };
    proof {
        let given = opt_time_v(change_time);
        assert(effective_fault_given(view, overrides@, given) == effective_fault(view, overrides@));
        assert(file_fault_given(view, overrides@, given) == file_fault(view, overrides@));
        assert forall|t: TimeV| effective_given(view, overrides@, given, t) implies effective_read(
            view,
            overrides@,
            t,
        ) by {}
    }
    parse_read(raw, overrides, change_time)
}

/// Every entry of `station.json` becomes, at its own place, a station that
/// carries the entry's code, name, kana, region and city unchanged, keeps
/// the owner's wording as its provider detail, is vouched for in no scope,
/// and is active or retired as its status says: `廃止` retired; `現`, `新規`
/// and `変更` active.
pub proof fn law_entries_are_read_as_written(
    raw: RawFileV,
    o: OverridesV,
    reading: Option<TimeV>,
    snap: SnapshotV,
    i: int,
)
    requires
        file_read(raw, o, snap) || file_given(raw, o, reading, snap),
        0 <= i < raw.items.len(),
    ensures
        i < snap.stations.len(),
        snap.stations[i].code == raw.items[i].code,
        snap.stations[i].metadata.name == raw.items[i].name,
        snap.stations[i].metadata.kana == raw.items[i].kana,
        snap.stations[i].metadata.region == raw.items[i].region,
        snap.stations[i].metadata.city == raw.items[i].city,
        snap.stations[i].metadata.provider_detail == raw.items[i].owner,
        snap.stations[i].scopes.len() == 0,
        raw.items[i].status == "廃止"@ ==> snap.stations[i].active == Some(false),
        raw.items[i].status == "現"@ || raw.items[i].status == "新規"@ || raw.items[i].status
            == "変更"@ ==> snap.stations[i].active == Some(true),
        raw.items[i].owner is None ==> snap.stations[i].metadata.provider == Provider::Unknown,
        raw.items[i].owner == Some("気象庁"@) ==> snap.stations[i].metadata.provider == Provider::Jma,
        raw.items[i].owner == Some("防災科研"@) ==> snap.stations[i].metadata.provider == Provider::Nied,
        raw.items[i].owner == Some("都道府県"@) || raw.items[i].owner == Some("市町村"@)
            ==> snap.stations[i].metadata.provider == Provider::LocalGovernment,
{
    reveal_strlit("廃止");
    reveal_strlit("現");
    reveal_strlit("新規");
    reveal_strlit("変更");
    assert("廃止"@.len() == 2);
    assert("現"@.len() == 1);
    assert("廃止"@ != "現"@);
    assert("廃止"@[0] != "新規"@[0]);
    assert("廃止"@[0] != "変更"@[0]);
    reveal_strlit("気象庁");
    reveal_strlit("防災科研");
    reveal_strlit("都道府県");
    reveal_strlit("市町村");
    assert("気象庁"@.len() == 3 && "防災科研"@.len() == 4 && "都道府県"@.len() == 4 && "市町村"@.len() == 3);
    assert("防災科研"@ != "気象庁"@);
    assert("都道府県"@ != "気象庁"@);
    assert("都道府県"@[0] != "防災科研"@[0]);
    assert("市町村"@[0] != "気象庁"@[0]);
    assert("市町村"@ != "防災科研"@);
    assert(item_read(raw.items[i], snap.stations[i]));
}

} // verus!
