//! Appending one release to a master.
//!
//! This is the whole write path, and it only ever grows things:
//!
//! * a station's position in the station table is a permanent contract with
//!   the encoder, so the existing prefix is never reordered, removed from, or
//!   reassigned; new codes go on the end, in code order;
//! * a release must be newer than every release already recorded, and nothing
//!   already written is ever revisited.
//!
//! A revision is written only when something actually changed, so a state that
//! persists across releases is represented by its absence. Both rules assume
//! the snapshot names each station code only once, so that is checked first.

use vstd::prelude::*;

use crate::input::{
    copy_warnings, Snapshot, SnapshotStation, SnapshotStationV, SnapshotV, StationMetadata,
    StationMetadataV, Warning, WarningV,
};
use crate::model::{
    active_at, copy_lifecycle, copy_opt_area, copy_opt_string, copy_revisions, copy_scope_events,
    copy_opt_location, opt_area_code, revision_index_at, same_opt_area,
    same_opt_string, scope_state_at, scope_state_in, LifecycleEvent, LifecycleV, Master, MasterV,
    MetadataRevision, Provider, Release, ReleaseV, RevisionV, Scope, ScopeEvent, ScopeEventV,
    SourceKind, Station, StationV,
};
use crate::order::{sort_strings, texts, texts_sorted};
use crate::text::{debug_quoted, nat_text, quoted, usize_text};
use crate::location::{same_place, spec_same_place};
use crate::time::{TimeV, Timestamp};

verus! {

// ---------------------------------------------------------------------------
// What one release does to one station.
// ---------------------------------------------------------------------------

/// Whether no two entries of `codes` are equal.
pub open spec fn distinct(codes: Seq<Seq<char>>) -> bool {
    forall|i: int, j: int| 0 <= i < j < codes.len() ==> codes[i] != codes[j]
}

/// The position of the snapshot entry for `code`.
pub open spec fn entry_index(snap: SnapshotV, code: Seq<char>) -> int {
    choose|i: int| 0 <= i < snap.stations.len() && snap.stations[i].code == code
}

/// The snapshot entry for `code`.
pub open spec fn entry_for(snap: SnapshotV, code: Seq<char>) -> SnapshotStationV {
    snap.stations[entry_index(snap, code)]
}

/// The last revision of a history, if there is one.
pub open spec fn last_revision(history: Seq<RevisionV>) -> Option<RevisionV> {
    if history.len() == 0 {
        None
    } else {
        Some(history.last())
    }
}

/// Whether `incoming` is recognisably the station `base` described: same name,
/// same municipality.
pub open spec fn same_station(base: Option<RevisionV>, incoming: StationMetadataV) -> bool {
    match base {
        Some(b) => b.name == incoming.name && opt_area_code(b.city) == opt_area_code(
            incoming.city,
        ),
        None => false,
    }
}

/// Whether `incoming` says anything about who operates the station.
pub open spec fn knows_provider(incoming: StationMetadataV) -> bool {
    incoming.provider != Provider::Unknown || incoming.provider_detail is Some
}

/// The revision a release would record: what the snapshot says, with the
/// location and the provider carried over from `base` while the station is
/// recognisably itself and the snapshot is silent about them.
pub open spec fn build_revision(
    base: Option<RevisionV>,
    incoming: StationMetadataV,
    t: TimeV,
) -> RevisionV {
    let keep = same_station(base, incoming);
    let location = match incoming.location {
        Some(fresh) => Some(fresh),
        None => if keep {
            base->Some_0.location
        } else {
            None
        },
    };
    let inherit_provider = keep && !knows_provider(incoming);
    RevisionV {
        effective_from: t,
        name: incoming.name,
        kana: incoming.kana,
        region: incoming.region,
        city: incoming.city,
        location,
        provider: if inherit_provider {
            base->Some_0.provider
        } else {
            incoming.provider
        },
        provider_detail: if inherit_provider {
            base->Some_0.provider_detail
        } else {
            incoming.provider_detail
        },
    }
}

/// Whether a revision would tell a reader nothing the previous one did not.
///
/// A coordinate is compared as the place it denotes: a finer or coarser
/// reading of a site already on record is not a change, so the coordinate
/// first recorded for a site stays until the site really moves.
pub open spec fn same_metadata(a: RevisionV, b: RevisionV) -> bool {
    &&& a.name == b.name
    &&& a.kana == b.kana
    &&& a.region == b.region
    &&& a.city == b.city
    &&& a.provider == b.provider
    &&& a.provider_detail == b.provider_detail
    &&& spec_same_place(a.location, b.location)
}

/// Whether a release revises a metadata history.
pub open spec fn metadata_changes(history: Seq<RevisionV>, incoming: StationMetadataV, t: TimeV) -> bool {
    match last_revision(history) {
        None => true,
        Some(base) => !same_metadata(base, build_revision(Some(base), incoming, t)),
    }
}

/// The metadata history after a release.
pub open spec fn next_metadata(history: Seq<RevisionV>, incoming: StationMetadataV, t: TimeV) -> Seq<
    RevisionV,
> {
    if metadata_changes(history, incoming, t) {
        history.push(build_revision(last_revision(history), incoming, t))
    } else {
        history
    }
}

/// Whether a release records a lifecycle event: it says whether the station
/// is active, and that differs from the last recorded state.
pub open spec fn lifecycle_changes(events: Seq<LifecycleV>, active: Option<bool>) -> bool {
    match active {
        None => false,
        Some(a) => !(events.len() > 0 && events.last().active == a),
    }
}

/// The lifecycle after a release.
pub open spec fn next_lifecycle(events: Seq<LifecycleV>, active: Option<bool>, t: TimeV) -> Seq<
    LifecycleV,
> {
    if lifecycle_changes(events, active) {
        events.push(LifecycleV { effective_from: t, active: active->Some_0 })
    } else {
        events
    }
}

pub open spec fn scope_event(t: TimeV, scope: Scope, enabled: bool) -> ScopeEventV {
    ScopeEventV { effective_from: t, scope, enabled }
}

/// Whether a station the snapshot vouches for enters `scope`.
pub open spec fn enters(events: Seq<ScopeEventV>, scopes: Seq<Scope>, scope: Scope, t: TimeV) -> bool {
    scopes.contains(scope) && scope_state_at(events, scope, t) != Some(true)
}

/// `events` with `scope` entered, when it is.
pub open spec fn enter_one(events: Seq<ScopeEventV>, scopes: Seq<Scope>, scope: Scope, t: TimeV) -> Seq<
    ScopeEventV,
> {
    if enters(events, scopes, scope, t) {
        events.push(scope_event(t, scope, true))
    } else {
        events
    }
}

/// The scope events of a station the snapshot lists, after the release:
/// every scope it vouches for and that is not already enabled is enabled, in
/// scope order.
pub open spec fn after_entering(events: Seq<ScopeEventV>, scopes: Seq<Scope>, t: TimeV) -> Seq<
    ScopeEventV,
> {
    enter_one(
        enter_one(events, scopes, Scope::PointSeismicIntensity, t),
        scopes,
        Scope::LongPeriodSeismicIntensity,
        t,
    )
}

/// Whether a station the snapshot does not list leaves `scope`: the snapshot
/// enumerates that scope exhaustively and the station is in it.
pub open spec fn leaves(events: Seq<ScopeEventV>, complete: Seq<Scope>, scope: Scope, t: TimeV) -> bool {
    complete.contains(scope) && scope_state_at(events, scope, t) == Some(true)
}

pub open spec fn leave_one(events: Seq<ScopeEventV>, complete: Seq<Scope>, scope: Scope, t: TimeV) -> Seq<
    ScopeEventV,
> {
    if leaves(events, complete, scope, t) {
        events.push(scope_event(t, scope, false))
    } else {
        events
    }
}

/// The scope events of a station the snapshot does not list, after the
/// release.
pub open spec fn after_leaving(events: Seq<ScopeEventV>, complete: Seq<Scope>, t: TimeV) -> Seq<
    ScopeEventV,
> {
    leave_one(
        leave_one(events, complete, Scope::PointSeismicIntensity, t),
        complete,
        Scope::LongPeriodSeismicIntensity,
        t,
    )
}

/// Whether the snapshot lists the station.
pub open spec fn listed(st: StationV, snap: SnapshotV) -> bool {
    snap.codes().contains(st.code)
}

/// A station after the release: a listed station takes the snapshot's
/// metadata, lifecycle and scopes; an unlisted one can only leave scopes.
pub open spec fn next_station(st: StationV, snap: SnapshotV) -> StationV {
    let t = snap.effective_from;
    if listed(st, snap) {
        let entry = entry_for(snap, st.code);
        StationV {
            code: st.code,
            lifecycle: next_lifecycle(st.lifecycle, entry.active, t),
            scope_events: after_entering(st.scope_events, entry.scopes, t),
            metadata: next_metadata(st.metadata, entry.metadata, t),
        }
    } else {
        StationV {
            code: st.code,
            lifecycle: st.lifecycle,
            scope_events: after_leaving(st.scope_events, snap.complete_scopes, t),
            metadata: st.metadata,
        }
    }
}

/// A station that has just been given an index.
pub open spec fn fresh_station(code: Seq<char>) -> StationV {
    StationV {
        code,
        lifecycle: Seq::empty(),
        scope_events: Seq::empty(),
        metadata: Seq::empty(),
    }
}

// ---------------------------------------------------------------------------
// Executable steps for one station.
// ---------------------------------------------------------------------------

/// The position of the entry for `code`, if the snapshot has one.
fn find_entry(stations: &Vec<SnapshotStation>, code: &String) -> (r: Option<usize>)
    ensures
        match r {
            Some(j) => j < stations@.len() && stations@[j as int]@.code == code@,
            None => forall|j: int| 0 <= j < stations@.len() ==> #[trigger] stations@[j]@.code != code@,
        },
{
    let mut j: usize = 0;
    while j < stations.len()
        invariant
            j <= stations@.len(),
            forall|k: int| 0 <= k < j ==> #[trigger] stations@[k]@.code != code@,
        decreases stations@.len() - j,
    {
        if stations[j].code == *code {
            return Some(j);
        }
        j = j + 1;
    }
    None
}

proof fn lemma_entry_index(snap: SnapshotV, j: int)
    requires
        distinct(snap.codes()),
        0 <= j < snap.stations.len(),
    ensures
        entry_index(snap, snap.stations[j].code) == j,
        listed(fresh_station(snap.stations[j].code), snap),
{
    let code = snap.stations[j].code;
    assert(snap.codes()[j] == code);
    let i = entry_index(snap, code);
    assert(0 <= i < snap.stations.len() && snap.stations[i].code == code);
    if i != j {
        assert(snap.codes()[i] == snap.codes()[j]);
    }
}

proof fn lemma_not_listed(snap: SnapshotV, code: Seq<char>)
    requires
        forall|j: int| 0 <= j < snap.stations.len() ==> #[trigger] snap.stations[j].code != code,
    ensures
        !snap.codes().contains(code),
{
    if snap.codes().contains(code) {
        let k = choose|k: int| 0 <= k < snap.codes().len() && snap.codes()[k] == code;
        assert(snap.stations[k].code == code);
    }
}

/// The revision a release would record for `incoming`, on top of `base`.
fn build_revision_exec(
    base: Option<&MetadataRevision>,
    incoming: &StationMetadata,
    t: &Timestamp,
) -> (r: MetadataRevision)
    ensures
        r@ == build_revision(
            match base {
                Some(b) => Some(b@),
                None => None,
            },
            incoming@,
            t@,
        ),
{
    let keep = match base {
        Some(b) => b.name == incoming.name && match (&b.city, &incoming.city) {
            (Some(x), Some(y)) => x.code == y.code,
            (None, None) => true,
            _ => false,
        },
        None => false,
    };
    let location = match &incoming.location {
        Some(fresh) => Some(fresh.duplicate()),
        None => match base {
            Some(b) => if keep {
                copy_opt_location(&b.location)
            } else {
                None
            },
            None => None,
        },
    };
    let knows = !(incoming.provider == Provider::Unknown) || incoming.provider_detail.is_some();
    let (provider, provider_detail) = match base {
        Some(b) => if keep && !knows {
            (b.provider, copy_opt_string(&b.provider_detail))
        } else {
            (incoming.provider, copy_opt_string(&incoming.provider_detail))
        },
        None => (incoming.provider, copy_opt_string(&incoming.provider_detail)),
    };
    MetadataRevision {
        effective_from: t.duplicate(),
        name: incoming.name.clone(),
        kana: copy_opt_string(&incoming.kana),
        region: copy_opt_area(&incoming.region),
        city: copy_opt_area(&incoming.city),
        location,
        provider,
        provider_detail,
    }
}

/// Whether two revisions say the same thing, whenever they took effect.
fn same_metadata_exec(a: &MetadataRevision, b: &MetadataRevision) -> (r: bool)
    ensures
        r == same_metadata(a@, b@),
{
    a.name == b.name && same_opt_string(&a.kana, &b.kana) && same_opt_area(&a.region, &b.region)
        && same_opt_area(&a.city, &b.city) && a.provider == b.provider && same_opt_string(
        &a.provider_detail,
        &b.provider_detail,
    ) && same_place(a.location.as_ref(), b.location.as_ref())
}

/// Record this release's metadata, but only if it says something new.
/// Returns the history and whether it was revised.
fn apply_metadata(history: &Vec<MetadataRevision>, incoming: &StationMetadata, t: &Timestamp) -> (r: (
    Vec<MetadataRevision>,
    bool,
))
    ensures
        r.0@.map_values(|x: MetadataRevision| x@) == next_metadata(
            history@.map_values(|x: MetadataRevision| x@),
            incoming@,
            t@,
        ),
        r.1 == metadata_changes(history@.map_values(|x: MetadataRevision| x@), incoming@, t@),
{
    let ghost h = history@.map_values(|x: MetadataRevision| x@);
    let mut out = copy_revisions(history);
    let n = history.len();
    if n == 0 {
        let candidate = build_revision_exec(None, incoming, t);
        out.push(candidate);
        assert(out@.map_values(|x: MetadataRevision| x@) =~= h.push(candidate@));
        (out, true)
    } else {
        let base = &history[n - 1];
        assert(h.last() == base@);
        let candidate = build_revision_exec(Some(base), incoming, t);
        if same_metadata_exec(base, &candidate) {
            (out, false)
        } else {
            out.push(candidate);
            assert(out@.map_values(|x: MetadataRevision| x@) =~= h.push(candidate@));
            (out, true)
        }
    }
}

/// Record a change of lifecycle state, if the snapshot reports one.
fn apply_lifecycle(events: &Vec<LifecycleEvent>, active: Option<bool>, t: &Timestamp) -> (r: (
    Vec<LifecycleEvent>,
    bool,
))
    ensures
        r.0@.map_values(|x: LifecycleEvent| x@) == next_lifecycle(
            events@.map_values(|x: LifecycleEvent| x@),
            active,
            t@,
        ),
        r.1 == lifecycle_changes(events@.map_values(|x: LifecycleEvent| x@), active),
{
    let ghost h = events@.map_values(|x: LifecycleEvent| x@);
    let mut out = copy_lifecycle(events);
    match active {
        None => (out, false),
        Some(a) => {
            let n = events.len();
            if n > 0 && events[n - 1].active == a {
                (out, false)
            } else {
                let e = LifecycleEvent { effective_from: t.duplicate(), active: a };
                out.push(e);
                assert(out@.map_values(|x: LifecycleEvent| x@) =~= h.push(e@));
                (out, true)
            }
        },
    }
}

fn contains_scope(scopes: &Vec<Scope>, scope: Scope) -> (r: bool)
    ensures
        r == scopes@.contains(scope),
{
    let mut i: usize = 0;
    while i < scopes.len()
        invariant
            i <= scopes@.len(),
            forall|k: int| 0 <= k < i ==> scopes@[k] != scope,
        decreases scopes@.len() - i,
    {
        if scopes[i] == scope {
            return true;
        }
        i = i + 1;
    }
    false
}

/// Enable `scope` when the snapshot vouches for it and it is not already
/// enabled. Returns whether it was.
fn enter_scope(events: &mut Vec<ScopeEvent>, scopes: &Vec<Scope>, scope: Scope, t: &Timestamp) -> (r: bool)
    ensures
        final(events)@.map_values(|x: ScopeEvent| x@) == enter_one(
            old(events)@.map_values(|x: ScopeEvent| x@),
            scopes@,
            scope,
            t@,
        ),
        r == enters(old(events)@.map_values(|x: ScopeEvent| x@), scopes@, scope, t@),
{
    let ghost h = events@.map_values(|x: ScopeEvent| x@);
    if contains_scope(scopes, scope) && scope_state_in(events, scope, t) != Some(true) {
        let e = ScopeEvent { effective_from: t.duplicate(), scope, enabled: true };
        events.push(e);
        assert(events@.map_values(|x: ScopeEvent| x@) =~= h.push(e@));
        true
    } else {
        false
    }
}

/// Retire `scope` when the snapshot enumerates it and the station is in it.
/// Returns whether it was.
fn leave_scope(events: &mut Vec<ScopeEvent>, complete: &Vec<Scope>, scope: Scope, t: &Timestamp) -> (r: bool)
    ensures
        final(events)@.map_values(|x: ScopeEvent| x@) == leave_one(
            old(events)@.map_values(|x: ScopeEvent| x@),
            complete@,
            scope,
            t@,
        ),
        r == leaves(old(events)@.map_values(|x: ScopeEvent| x@), complete@, scope, t@),
{
    let ghost h = events@.map_values(|x: ScopeEvent| x@);
    if contains_scope(complete, scope) && scope_state_in(events, scope, t) == Some(true) {
        let e = ScopeEvent { effective_from: t.duplicate(), scope, enabled: false };
        events.push(e);
        assert(events@.map_values(|x: ScopeEvent| x@) =~= h.push(e@));
        true
    } else {
        false
    }
}


// ---------------------------------------------------------------------------
// What a release did, station by station.
// ---------------------------------------------------------------------------

/// Whether a listed station's metadata is revised.
pub open spec fn revises(st: StationV, snap: SnapshotV) -> bool {
    listed(st, snap) && metadata_changes(
        st.metadata,
        entry_for(snap, st.code).metadata,
        snap.effective_from,
    )
}

/// Whether a listed station's metadata is left as it was.
pub open spec fn keeps_metadata(st: StationV, snap: SnapshotV) -> bool {
    listed(st, snap) && !metadata_changes(
        st.metadata,
        entry_for(snap, st.code).metadata,
        snap.effective_from,
    )
}

/// Whether a listed station records the lifecycle state `active`.
pub open spec fn turns(st: StationV, snap: SnapshotV, active: bool) -> bool {
    listed(st, snap) && lifecycle_changes(st.lifecycle, entry_for(snap, st.code).active)
        && entry_for(snap, st.code).active == Some(active)
}

/// Whether a listed station enters `scope`.
pub open spec fn enables(st: StationV, snap: SnapshotV, scope: Scope) -> bool {
    let t = snap.effective_from;
    let scopes = entry_for(snap, st.code).scopes;
    listed(st, snap) && match scope {
        Scope::PointSeismicIntensity => enters(st.scope_events, scopes, scope, t),
        Scope::LongPeriodSeismicIntensity => enters(
            enter_one(st.scope_events, scopes, Scope::PointSeismicIntensity, t),
            scopes,
            scope,
            t,
        ),
    }
}

/// Whether an unlisted station leaves `scope`.
pub open spec fn disables(st: StationV, snap: SnapshotV, scope: Scope) -> bool {
    let t = snap.effective_from;
    let complete = snap.complete_scopes;
    !listed(st, snap) && match scope {
        Scope::PointSeismicIntensity => leaves(st.scope_events, complete, scope, t),
        Scope::LongPeriodSeismicIntensity => leaves(
            leave_one(st.scope_events, complete, Scope::PointSeismicIntensity, t),
            complete,
            scope,
            t,
        ),
    }
}

/// What one station did in a release.
struct StationStep {
    revised: bool,
    unchanged: bool,
    activated: bool,
    deactivated: bool,
    point_enabled: bool,
    point_disabled: bool,
    long_enabled: bool,
    long_disabled: bool,
}

impl StationStep {
    spec fn describes(self, st: StationV, snap: SnapshotV) -> bool {
        &&& self.revised == revises(st, snap)
        &&& self.unchanged == keeps_metadata(st, snap)
        &&& self.activated == turns(st, snap, true)
        &&& self.deactivated == turns(st, snap, false)
        &&& self.point_enabled == enables(st, snap, Scope::PointSeismicIntensity)
        &&& self.long_enabled == enables(st, snap, Scope::LongPeriodSeismicIntensity)
        &&& self.point_disabled == disables(st, snap, Scope::PointSeismicIntensity)
        &&& self.long_disabled == disables(st, snap, Scope::LongPeriodSeismicIntensity)
    }
}

/// One station after the release, and what the release did to it.
fn step_station(st: &Station, snapshot: &Snapshot) -> (r: (Station, StationStep))
    requires
        distinct(snapshot@.codes()),
    ensures
        r.0@ == next_station(st@, snapshot@),
        r.1.describes(st@, snapshot@),
{
    let t = &snapshot.effective_from;
    match find_entry(&snapshot.stations, &st.code) {
        Some(j) => {
            let entry = &snapshot.stations[j];
            proof {
                assert(snapshot@.stations[j as int] == entry@);
                lemma_entry_index(snapshot@, j as int);
                assert(snapshot@.codes()[j as int] == st@.code);
                assert(listed(st@, snapshot@));
            }
            let (metadata, revised) = apply_metadata(&st.metadata, &entry.metadata, t);
            let (lifecycle, changed) = apply_lifecycle(&st.lifecycle, entry.active, t);
            let mut events = copy_scope_events(&st.scope_events);
            let point_enabled = enter_scope(
                &mut events,
                &entry.scopes,
                Scope::PointSeismicIntensity,
                t,
            );
            let long_enabled = enter_scope(
                &mut events,
                &entry.scopes,
                Scope::LongPeriodSeismicIntensity,
                t,
            );
            let step = StationStep {
                revised,
                unchanged: !revised,
                activated: changed && entry.active == Some(true),
                deactivated: changed && entry.active == Some(false),
                point_enabled,
                point_disabled: false,
                long_enabled,
                long_disabled: false,
            };
            (
                Station { code: st.code.clone(), lifecycle, scope_events: events, metadata },
                step,
            )
        },
        None => {
            proof {
                lemma_not_listed(snapshot@, st@.code);
            }
            let mut events = copy_scope_events(&st.scope_events);
            let point_disabled = leave_scope(
                &mut events,
                &snapshot.complete_scopes,
                Scope::PointSeismicIntensity,
                t,
            );
            let long_disabled = leave_scope(
                &mut events,
                &snapshot.complete_scopes,
                Scope::LongPeriodSeismicIntensity,
                t,
            );
            let step = StationStep {
                revised: false,
                unchanged: false,
                activated: false,
                deactivated: false,
                point_enabled: false,
                point_disabled,
                long_enabled: false,
                long_disabled,
            };
            (
                Station {
                    code: st.code.clone(),
                    lifecycle: copy_lifecycle(&st.lifecycle),
                    scope_events: events,
                    metadata: copy_revisions(&st.metadata),
                },
                step,
            )
        },
    }
}


/// Stations the release revises.
pub open spec fn revises_pred(snap: SnapshotV) -> spec_fn(StationV) -> bool {
    |st: StationV| revises(st, snap)
}

/// Stations whose metadata the release leaves alone.
pub open spec fn keeps_pred(snap: SnapshotV) -> spec_fn(StationV) -> bool {
    |st: StationV| keeps_metadata(st, snap)
}

/// Stations the release marks active (or retired, for `false`).
pub open spec fn turns_pred(snap: SnapshotV, active: bool) -> spec_fn(StationV) -> bool {
    |st: StationV| turns(st, snap, active)
}

/// Stations that enter `scope`.
pub open spec fn enables_pred(snap: SnapshotV, scope: Scope) -> spec_fn(StationV) -> bool {
    |st: StationV| enables(st, snap, scope)
}

/// Stations that leave `scope`.
pub open spec fn disables_pred(snap: SnapshotV, scope: Scope) -> spec_fn(StationV) -> bool {
    |st: StationV| disables(st, snap, scope)
}

/// The code of a station.
pub open spec fn code_of(st: StationV) -> Seq<char> {
    st.code
}

/// The station table as the release finds it: the previous table, then a
/// fresh station for each code that receives an index.
pub open spec fn stations_before(previous: Seq<StationV>, new_codes: Seq<Seq<char>>) -> Seq<StationV> {
    previous + new_codes.map_values(|c: Seq<char>| fresh_station(c))
}

/// Running totals of what a release did.
struct Tally {
    unchanged: usize,
    revised: usize,
    activated: usize,
    deactivated: usize,
    point_enabled: usize,
    point_disabled: usize,
    point_departed: Vec<String>,
    long_enabled: usize,
    long_disabled: usize,
    long_departed: Vec<String>,
}

impl Tally {
    spec fn counts(self, stations: Seq<StationV>, snap: SnapshotV) -> bool {
        &&& self.unchanged == stations.filter(keeps_pred(snap)).len()
        &&& self.revised == stations.filter(revises_pred(snap)).len()
        &&& self.activated == stations.filter(turns_pred(snap, true)).len()
        &&& self.deactivated == stations.filter(turns_pred(snap, false)).len()
        &&& self.point_enabled == stations.filter(
            enables_pred(snap, Scope::PointSeismicIntensity),
        ).len()
        &&& self.long_enabled == stations.filter(
            enables_pred(snap, Scope::LongPeriodSeismicIntensity),
        ).len()
        &&& self.point_disabled == stations.filter(
            disables_pred(snap, Scope::PointSeismicIntensity),
        ).len()
        &&& self.long_disabled == stations.filter(
            disables_pred(snap, Scope::LongPeriodSeismicIntensity),
        ).len()
        &&& texts(self.point_departed@) == stations.filter(
            disables_pred(snap, Scope::PointSeismicIntensity),
        ).map_values(|st: StationV| code_of(st))
        &&& texts(self.long_departed@) == stations.filter(
            disables_pred(snap, Scope::LongPeriodSeismicIntensity),
        ).map_values(|st: StationV| code_of(st))
    }
}

proof fn lemma_filter_step(s: Seq<StationV>, i: int, p: spec_fn(StationV) -> bool)
    requires
        0 <= i < s.len(),
    ensures
        s.take(i + 1).filter(p) == if p(s[i]) {
            s.take(i).filter(p).push(s[i])
        } else {
            s.take(i).filter(p)
        },
        s.take(i).filter(p).len() <= i,
{
    assert(s.take(i + 1) =~= s.take(i).push(s[i]));
    s.take(i).lemma_filter_push(s[i], p);
    s.take(i).lemma_filter_len_push(p, s[i]);
    lemma_filter_len_le(s.take(i), p);
}

proof fn lemma_filter_len_le<A>(s: Seq<A>, p: spec_fn(A) -> bool)
    ensures
        s.filter(p).len() <= s.len(),
    decreases s.len(),
{
    if s.len() > 0 {
        lemma_filter_len_le(s.drop_last(), p);
        assert(s =~= s.drop_last().push(s.last()));
        s.drop_last().lemma_filter_push(s.last(), p);
    } else {
        assert(s.filter(p) =~= Seq::<A>::empty()) by {
            reveal(Seq::filter);
        }
    }
}

fn bump(n: usize, yes: bool, bound: Ghost<int>) -> (r: usize)
    requires
        n < bound@,
        bound@ <= usize::MAX,
    ensures
        r == n + if yes { 1int } else { 0int },
{
    if yes { n + 1 } else { n }
}

proof fn lemma_filter_empty(p: spec_fn(StationV) -> bool)
    ensures
        Seq::<StationV>::empty().filter(p) == Seq::<StationV>::empty(),
{
    reveal(Seq::filter);
    assert(Seq::<StationV>::empty().filter(p) =~= Seq::<StationV>::empty());
}

/// Adds one stepped station to the output and its step to the totals.
fn record(
    tally: &mut Tally,
    out: &mut Vec<Station>,
    st: Station,
    step: StationStep,
    before: Ghost<Seq<StationV>>,
    i: Ghost<int>,
    snap: Ghost<SnapshotV>,
)
    requires
        0 <= i@ < before@.len(),
        old(out)@.len() == i@,
        old(tally).counts(before@.take(i@), snap@),
        step.describes(before@[i@], snap@),
        st@.code == before@[i@].code,
    ensures
        final(out)@ == old(out)@.push(st),
        final(tally).counts(before@.take(i@ + 1), snap@),
{
    let ghost x = before@[i@];
    let ghost code = x.code;
    let ghost b = before@;
    let ghost sn = snap@;
    proof {
        lemma_filter_step(b, i@, keeps_pred(sn));
        lemma_filter_step(b, i@, revises_pred(sn));
        lemma_filter_step(b, i@, turns_pred(sn, true));
        lemma_filter_step(b, i@, turns_pred(sn, false));
        lemma_filter_step(b, i@, enables_pred(sn, Scope::PointSeismicIntensity));
        lemma_filter_step(b, i@, enables_pred(sn, Scope::LongPeriodSeismicIntensity));
        lemma_filter_step(b, i@, disables_pred(sn, Scope::PointSeismicIntensity));
        lemma_filter_step(b, i@, disables_pred(sn, Scope::LongPeriodSeismicIntensity));
        let f = |st: StationV| code_of(st);
        b.take(i@).filter(disables_pred(sn, Scope::PointSeismicIntensity)).lemma_push_map_commute(f, x);
        b.take(i@).filter(disables_pred(sn, Scope::LongPeriodSeismicIntensity)).lemma_push_map_commute(f, x);
    }
    if step.point_disabled {
        let ghost d = texts(tally.point_departed@);
        tally.point_departed.push(st.code.clone());
        assert(texts(tally.point_departed@) =~= d.push(code));
    }
    if step.long_disabled {
        let ghost d = texts(tally.long_departed@);
        tally.long_departed.push(st.code.clone());
        assert(texts(tally.long_departed@) =~= d.push(code));
    }
    out.push(st);
    let len = out.len();
    let ghost bound: int = len as int;
    tally.unchanged = bump(tally.unchanged, step.unchanged, Ghost(bound));
    tally.revised = bump(tally.revised, step.revised, Ghost(bound));
    tally.activated = bump(tally.activated, step.activated, Ghost(bound));
    tally.deactivated = bump(tally.deactivated, step.deactivated, Ghost(bound));
    tally.point_enabled = bump(tally.point_enabled, step.point_enabled, Ghost(bound));
    tally.long_enabled = bump(tally.long_enabled, step.long_enabled, Ghost(bound));
    tally.point_disabled = bump(tally.point_disabled, step.point_disabled, Ghost(bound));
    tally.long_disabled = bump(tally.long_disabled, step.long_disabled, Ghost(bound));
}

/// Every station after the release, with what the release did.
fn step_all(previous: &Vec<Station>, new_codes: &Vec<String>, snapshot: &Snapshot) -> (r: (
    Vec<Station>,
    Tally,
))
    requires
        distinct(snapshot@.codes()),
    ensures
        ({
            let before = stations_before(
                previous@.map_values(|s: Station| s@),
                texts(new_codes@),
            );
            &&& r.0@.len() == before.len()
            &&& forall|i: int| 0 <= i < before.len() ==> #[trigger] r.0@[i]@ == next_station(before[i], snapshot@)
            &&& r.1.counts(before, snapshot@)
        }),
{
    let ghost snap = snapshot@;
    let ghost before = stations_before(previous@.map_values(|s: Station| s@), texts(new_codes@));
    let n = previous.len();
    let m = new_codes.len();
    let mut out: Vec<Station> = Vec::new();
    let mut tally = Tally {
        unchanged: 0,
        revised: 0,
        activated: 0,
        deactivated: 0,
        point_enabled: 0,
        point_disabled: 0,
        point_departed: Vec::new(),
        long_enabled: 0,
        long_disabled: 0,
        long_departed: Vec::new(),
    };
    proof {
        assert(before.take(0) =~= Seq::<StationV>::empty());
        lemma_filter_empty(keeps_pred(snap));
        lemma_filter_empty(revises_pred(snap));
        lemma_filter_empty(turns_pred(snap, true));
        lemma_filter_empty(turns_pred(snap, false));
        lemma_filter_empty(enables_pred(snap, Scope::PointSeismicIntensity));
        lemma_filter_empty(enables_pred(snap, Scope::LongPeriodSeismicIntensity));
        lemma_filter_empty(disables_pred(snap, Scope::PointSeismicIntensity));
        lemma_filter_empty(disables_pred(snap, Scope::LongPeriodSeismicIntensity));
        assert(texts(tally.point_departed@) =~= Seq::<Seq<char>>::empty());
        assert(texts(tally.long_departed@) =~= Seq::<Seq<char>>::empty());
        let f = |st: StationV| code_of(st);
        assert(Seq::<StationV>::empty().map_values(f) =~= Seq::<Seq<char>>::empty());
        assert(tally.counts(before.take(0), snap));
    }
    let mut i: usize = 0;
    while i < n
        invariant
            n == previous@.len(),
            m == new_codes@.len(),
            snap == snapshot@,
            distinct(snap.codes()),
            before == stations_before(previous@.map_values(|s: Station| s@), texts(new_codes@)),
            before.len() == n + m,
            i <= n,
            out@.len() == i,
            forall|k: int| 0 <= k < i ==> #[trigger] out@[k]@ == next_station(before[k], snap),
            tally.counts(before.take(i as int), snap),
        decreases n - i,
    {
        assert(before[i as int] == previous@[i as int]@);
        let (st, step) = step_station(&previous[i], snapshot);
        record(&mut tally, &mut out, st, step, Ghost(before), Ghost(i as int), Ghost(snap));
        i = i + 1;
    }
    let mut j: usize = 0;
    while j < m
        invariant
            n == previous@.len(),
            m == new_codes@.len(),
            snap == snapshot@,
            distinct(snap.codes()),
            before == stations_before(previous@.map_values(|s: Station| s@), texts(new_codes@)),
            before.len() == n + m,
            j <= m,
            out@.len() == n + j,
            forall|k: int| 0 <= k < n + j ==> #[trigger] out@[k]@ == next_station(before[k], snap),
            tally.counts(before.take(n + j), snap),
        decreases m - j,
    {
        let fresh = Station::new(new_codes[j].clone());
        proof {
            let k = n + j;
            assert(before[k] == fresh_station(texts(new_codes@)[j as int]));
            assert(fresh@.lifecycle =~= Seq::<LifecycleV>::empty());
            assert(fresh@.scope_events =~= Seq::<ScopeEventV>::empty());
            assert(fresh@.metadata =~= Seq::<RevisionV>::empty());
            assert(fresh@ == before[k]);
        }
        let (st, step) = step_station(&fresh, snapshot);
        record(&mut tally, &mut out, st, step, Ghost(before), Ghost(n + j), Ghost(snap));
        j = j + 1;
    }
    assert(before.take((n + m) as int) =~= before);
    (out, tally)
}

// ---------------------------------------------------------------------------
// Which codes receive an index.
// ---------------------------------------------------------------------------

/// The codes of a station table, in index order.
pub open spec fn codes_of(stations: Seq<StationV>) -> Seq<Seq<char>> {
    stations.map_values(|st: StationV| st.code)
}

/// Codes that are not already in `known`.
pub open spec fn unseen_pred(known: Seq<Seq<char>>) -> spec_fn(Seq<char>) -> bool {
    |c: Seq<char>| !known.contains(c)
}

/// The codes of a snapshot that the table does not have yet, in snapshot
/// order.
pub open spec fn unseen_codes(known: Seq<Seq<char>>, snap: SnapshotV) -> Seq<Seq<char>> {
    snap.codes().filter(unseen_pred(known))
}

/// Whether the table holds a station with this code.
fn has_code(stations: &Vec<Station>, code: &String) -> (r: bool)
    ensures
        r == codes_of(stations@.map_values(|s: Station| s@)).contains(code@),
{
    let ghost known = codes_of(stations@.map_values(|s: Station| s@));
    let mut i: usize = 0;
    while i < stations.len()
        invariant
            i <= stations@.len(),
            known == codes_of(stations@.map_values(|s: Station| s@)),
            forall|k: int| 0 <= k < i ==> known[k] != code@,
        decreases stations@.len() - i,
    {
        if stations[i].code == *code {
            assert(known[i as int] == code@);
            return true;
        }
        i = i + 1;
    }
    proof {
        if known.contains(code@) {
            let k = choose|k: int| 0 <= k < known.len() && known[k] == code@;
            assert(known[k] != code@);
        }
    }
    false
}

/// The codes that receive an index in this release, in code order.
///
/// New codes are appended in code order rather than in the order the
/// adapter emitted them, so the index a station receives does not depend on
/// how a spreadsheet was sorted.
fn unknown_codes(stations: &Vec<Station>, snapshot: &Snapshot) -> (r: Vec<String>)
    ensures
        texts_sorted(texts(r@)),
        texts(r@).to_multiset() == unseen_codes(
            codes_of(stations@.map_values(|s: Station| s@)),
            snapshot@,
        ).to_multiset(),
{
    let ghost known = codes_of(stations@.map_values(|s: Station| s@));
    let ghost codes = snapshot@.codes();
    let ghost p = unseen_pred(known);
    let mut found: Vec<String> = Vec::new();
    proof {
        reveal(Seq::filter);
        assert(codes.take(0) =~= Seq::<Seq<char>>::empty());
        assert(Seq::<Seq<char>>::empty().filter(p) =~= Seq::<Seq<char>>::empty());
        assert(texts(found@) =~= Seq::<Seq<char>>::empty());
    }
    let mut j: usize = 0;
    while j < snapshot.stations.len()
        invariant
            j <= snapshot.stations@.len(),
            known == codes_of(stations@.map_values(|s: Station| s@)),
            codes == snapshot@.codes(),
            p == unseen_pred(known),
            texts(found@) == codes.take(j as int).filter(p),
        decreases snapshot.stations@.len() - j,
    {
        let code = &snapshot.stations[j].code;
        proof {
            assert(codes[j as int] == code@);
            assert(codes.take(j + 1) =~= codes.take(j as int).push(code@));
            codes.take(j as int).lemma_filter_push(code@, p);
        }
        if !has_code(stations, code) {
            let ghost before = texts(found@);
            found.push(code.clone());
            assert(texts(found@) =~= before.push(code@));
        }
        j = j + 1;
    }
    assert(codes.take(j as int) =~= codes);
    sort_strings(found)
}

// ---------------------------------------------------------------------------
// What may be appended.
// ---------------------------------------------------------------------------

/// Whether `(i, j)` is the first repeated pair of `codes`: `j` is the first
/// entry that repeats an earlier one and `i` the first entry it repeats.
pub open spec fn first_repeat(codes: Seq<Seq<char>>, i: int, j: int) -> bool {
    &&& 0 <= i < j < codes.len()
    &&& codes[i] == codes[j]
    &&& forall|k: int| 0 <= k < i ==> codes[k] != codes[j]
    &&& distinct(codes.take(j))
}

/// The first repeated pair of codes, if any.
fn find_repeat(stations: &Vec<SnapshotStation>) -> (r: Option<(usize, usize)>)
    ensures
        ({
            let codes = stations@.map_values(|s: SnapshotStation| s@.code);
            match r {
                None => distinct(codes),
                Some((i, j)) => first_repeat(codes, i as int, j as int),
            }
        }),
{
    let ghost codes = stations@.map_values(|s: SnapshotStation| s@.code);
    let mut j: usize = 0;
    while j < stations.len()
        invariant
            j <= stations@.len(),
            codes == stations@.map_values(|s: SnapshotStation| s@.code),
            distinct(codes.take(j as int)),
        decreases stations@.len() - j,
    {
        let mut i: usize = 0;
        while i < j
            invariant
                i <= j < stations@.len(),
                codes == stations@.map_values(|s: SnapshotStation| s@.code),
                distinct(codes.take(j as int)),
                forall|k: int| 0 <= k < i ==> codes[k] != codes[j as int],
            decreases j - i,
        {
            if stations[i].code == stations[j].code {
                assert(codes[i as int] == codes[j as int]);
                return Some((i, j));
            }
            i = i + 1;
        }
        proof {
            let next = codes.take(j + 1);
            assert forall|a: int, b: int| 0 <= a < b < next.len() implies next[a] != next[b] by {
                if b < j {
                    assert(codes.take(j as int)[a] == next[a]);
                    assert(codes.take(j as int)[b] == next[b]);
                }
            }
        }
        j = j + 1;
    }
    assert(codes.take(j as int) =~= codes);
    None
}

/// Whether a master records a different source kind than the snapshot.
pub open spec fn kind_conflict(previous: Option<MasterV>, snap: SnapshotV) -> bool {
    previous matches Some(p) && p.source_kind != snap.source_kind
}

/// Whether a master already records a release under the snapshot's id.
pub open spec fn id_recorded(previous: Option<MasterV>, snap: SnapshotV) -> bool {
    previous matches Some(p) && exists|k: int|
        0 <= k < p.releases.len() && #[trigger] p.releases[k].id == snap.release_id
}

/// Whether the snapshot is not strictly newer than the latest release.
pub open spec fn not_newer(previous: Option<MasterV>, snap: SnapshotV) -> bool {
    previous matches Some(p) && p.releases.len() > 0 && snap.effective_from.not_after(
        p.releases.last().effective_from,
    )
}

/// Whether the release may be appended.
pub open spec fn appendable(previous: Option<MasterV>, snap: SnapshotV) -> bool {
    &&& distinct(snap.codes())
    &&& !kind_conflict(previous, snap)
    &&& !id_recorded(previous, snap)
    &&& !not_newer(previous, snap)
}

/// Why a release was refused.
#[derive(Debug, Clone)]
pub enum AppendError {
    /// The snapshot names a station code twice, at the given entries
    /// (counted from one).
    DuplicateStationCode { release_id: String, code: String, first: usize, second: usize },
    /// The master was created from another source kind.
    SourceKindMismatch { recorded: SourceKind, supplied: SourceKind },
    /// A release with this id is already recorded.
    ReleaseAlreadyRecorded { id: String, effective_from: Timestamp },
    /// The release is not newer than the latest recorded one.
    OutOfOrderRelease {
        release_id: String,
        effective_from: Timestamp,
        latest_id: String,
        latest_effective_from: Timestamp,
    },
}

impl AppendError {
    pub open spec fn spec_message(&self) -> Seq<char> {
        match self {
            AppendError::DuplicateStationCode { release_id, code, first, second } => "release "@
                + release_id@ + ": duplicate station code "@ + debug_quoted(code@) + " (entries "@
                + nat_text(*first as nat) + " and "@ + nat_text(*second as nat) + ")\n  "@
                + "a snapshot describes each station once; two entries for one code cannot both be recorded at the same instant"@,
            AppendError::SourceKindMismatch { recorded, supplied } => "source kind mismatch\n  "@
                + "the master was created from `"@ + recorded.spec_str()
                + "` but this run supplies `"@ + supplied.spec_str() + "`\n  "@
                + "a master may only be updated from the source kind it was created with, because the two feeds differ in coordinate precision and in what they can attest about a station"@,
            AppendError::ReleaseAlreadyRecorded { id, effective_from } => "release "@ + id@
                + " is already recorded (effective "@ + effective_from.rfc3339@ + ")\n  "@
                + "a release is written once and never revisited; if this snapshot is a correction, discard the master you were about to produce and rebuild it from the corrected inputs"@,
            AppendError::OutOfOrderRelease {
                release_id,
                effective_from,
                latest_id,
                latest_effective_from,
            } => "out-of-order release\n  release "@ + release_id@ + " is effective "@
                + effective_from.rfc3339@
                + ", which is not after the latest recorded release ("@ + latest_id@
                + ", effective "@ + latest_effective_from.rfc3339@ + ")\n  "@
                + "releases must be applied oldest first; an unchanged state is stored as the absence of a revision, so inserting an older release would re-date every state that follows it"@,
        }
    }

    /// The refusal as the operator reads it.
    pub fn message(&self) -> (m: String)
        ensures
            m@ == self.spec_message(),
    {
        let mut m = String::new();
        match self {
            AppendError::DuplicateStationCode { release_id, code, first, second } => {
                m.append("release ");
                m.append(release_id.as_str());
                m.append(": duplicate station code ");
                m.append(quoted(code.as_str()).as_str());
                m.append(" (entries ");
                m.append(usize_text(*first).as_str());
                m.append(" and ");
                m.append(usize_text(*second).as_str());
                m.append(")\n  ");
                m.append(
                    "a snapshot describes each station once; two entries for one code cannot both be recorded at the same instant",
                );
            },
            AppendError::SourceKindMismatch { recorded, supplied } => {
                m.append("source kind mismatch\n  ");
                m.append("the master was created from `");
                m.append(recorded.as_str());
                m.append("` but this run supplies `");
                m.append(supplied.as_str());
                m.append("`\n  ");
                m.append(
                    "a master may only be updated from the source kind it was created with, because the two feeds differ in coordinate precision and in what they can attest about a station",
                );
            },
            AppendError::ReleaseAlreadyRecorded { id, effective_from } => {
                m.append("release ");
                m.append(id.as_str());
                m.append(" is already recorded (effective ");
                m.append(effective_from.rfc3339.as_str());
                m.append(")\n  ");
                m.append(
                    "a release is written once and never revisited; if this snapshot is a correction, discard the master you were about to produce and rebuild it from the corrected inputs",
                );
            },
            AppendError::OutOfOrderRelease {
                release_id,
                effective_from,
                latest_id,
                latest_effective_from,
            } => {
                m.append("out-of-order release\n  release ");
                m.append(release_id.as_str());
                m.append(" is effective ");
                m.append(effective_from.rfc3339.as_str());
                m.append(", which is not after the latest recorded release (");
                m.append(latest_id.as_str());
                m.append(", effective ");
                m.append(latest_effective_from.rfc3339.as_str());
                m.append(")\n  ");
                m.append(
                    "releases must be applied oldest first; an unchanged state is stored as the absence of a revision, so inserting an older release would re-date every state that follows it",
                );
            },
        }
        assert(m@ =~= self.spec_message());
        m
    }
}

/// Whether `err` is the refusal `append` owes for this input.
pub open spec fn refusal_fits(err: AppendError, previous: Option<MasterV>, snap: SnapshotV) -> bool {
    match err {
        AppendError::DuplicateStationCode { release_id, code, first, second } => {
            &&& !distinct(snap.codes())
            &&& release_id@ == snap.release_id
            &&& first_repeat(snap.codes(), first - 1, second - 1)
            &&& code@ == snap.codes()[second - 1]
        },
        AppendError::SourceKindMismatch { recorded, supplied } => {
            &&& distinct(snap.codes())
            &&& kind_conflict(previous, snap)
            &&& recorded == previous->Some_0.source_kind
            &&& supplied == snap.source_kind
        },
        AppendError::ReleaseAlreadyRecorded { id, effective_from } => {
            let releases = previous->Some_0.releases;
            &&& distinct(snap.codes())
            &&& !kind_conflict(previous, snap)
            &&& id_recorded(previous, snap)
            &&& exists|k: int|
                {
                    &&& 0 <= k < releases.len()
                    &&& releases[k].id == snap.release_id
                    &&& forall|l: int| 0 <= l < k ==> releases[l].id != snap.release_id
                    &&& id@ == releases[k].id
                    &&& effective_from@ == releases[k].effective_from
                }
        },
        AppendError::OutOfOrderRelease {
            release_id,
            effective_from,
            latest_id,
            latest_effective_from,
        } => {
            let latest = previous->Some_0.releases.last();
            &&& distinct(snap.codes())
            &&& !kind_conflict(previous, snap)
            &&& !id_recorded(previous, snap)
            &&& not_newer(previous, snap)
            &&& release_id@ == snap.release_id
            &&& effective_from@ == snap.effective_from
            &&& latest_id@ == latest.id
            &&& latest_effective_from@ == latest.effective_from
        },
    }
}

/// Refuses a snapshot that names a station code twice.
fn check_snapshot(snapshot: &Snapshot) -> (r: Result<(), AppendError>)
    ensures
        r is Ok <==> distinct(snapshot@.codes()),
        r matches Err(e) ==> refusal_fits(e, None, snapshot@),
{
    assert(snapshot@.codes() =~= snapshot.stations@.map_values(|s: SnapshotStation| s@.code));
    match find_repeat(&snapshot.stations) {
        None => Ok(()),
        Some((i, j)) => {
            let n = snapshot.stations.len();
            assert(j < n);
            proof {
                assert(!distinct(snapshot@.codes())) by {
                    assert(snapshot@.codes()[i as int] == snapshot@.codes()[j as int]);
                }
            }
            Err(
                AppendError::DuplicateStationCode {
                    release_id: snapshot.release_id.clone(),
                    code: snapshot.stations[j].code.clone(),
                    first: i + 1,
                    second: j + 1,
                },
            )
        },
    }
}

/// Refuses a release the master cannot take: another source kind, an id
/// already recorded, or an effective time that is not after the latest.
fn check_can_append(previous: &Master, snapshot: &Snapshot) -> (r: Result<(), AppendError>)
    requires
        distinct(snapshot@.codes()),
    ensures
        r is Ok <==> appendable(Some(previous@), snapshot@),
        r matches Err(e) ==> refusal_fits(e, Some(previous@), snapshot@),
{
    let ghost p = Some(previous@);
    let ghost snap = snapshot@;
    if previous.source_kind != snapshot.source_kind {
        return Err(
            AppendError::SourceKindMismatch {
                recorded: previous.source_kind,
                supplied: snapshot.source_kind,
            },
        );
    }
    let ghost releases = previous@.releases;
    let mut k: usize = 0;
    while k < previous.releases.len()
        invariant
            k <= previous.releases@.len(),
            releases == previous@.releases,
            snap == snapshot@,
            p == Some(previous@),
            distinct(snap.codes()),
            !kind_conflict(p, snap),
            forall|l: int| 0 <= l < k ==> releases[l].id != snap.release_id,
        decreases previous.releases@.len() - k,
    {
        assert(releases[k as int] == previous.releases@[k as int]@);
        if previous.releases[k].id == snapshot.release_id {
            let existing = &previous.releases[k];
            assert(releases[k as int] == existing@);
            assert(previous@.releases[k as int].id == snap.release_id);
            assert(id_recorded(p, snap));
            let id = existing.id.clone();
            let effective_from = existing.effective_from.duplicate();
            proof {
                let kk = k as int;
                assert(0 <= kk < releases.len() && releases[kk].id == snap.release_id && (forall|
                    l: int,
                | 0 <= l < kk ==> releases[l].id != snap.release_id) && id@ == releases[kk].id
                    && effective_from@ == releases[kk].effective_from);
            }
            return Err(AppendError::ReleaseAlreadyRecorded { id, effective_from });
        }
        k = k + 1;
    }
    assert(!id_recorded(p, snap));
    let n = previous.releases.len();
    if n > 0 {
        let latest = &previous.releases[n - 1];
        assert(releases.last() == latest@);
        if snapshot.effective_from.not_after(&latest.effective_from) {
            return Err(
                AppendError::OutOfOrderRelease {
                    release_id: snapshot.release_id.clone(),
                    effective_from: snapshot.effective_from.duplicate(),
                    latest_id: latest.id.clone(),
                    latest_effective_from: latest.effective_from.duplicate(),
                },
            );
        }
    }
    Ok(())
}

// ---------------------------------------------------------------------------
// The report.
// ---------------------------------------------------------------------------

/// Movement in and out of one scope during a release.
///
/// Nothing stops a truncated code table from retiring thousands of stations
/// at once, so this is the audit trail: the departed codes are recorded in
/// full, in code order.
#[derive(Debug, Clone)]
pub struct ScopeSummary {
    pub enabled: usize,
    pub disabled: usize,
    /// Codes that left the scope, in code order.
    pub departed: Vec<String>,
}

/// What one release did to a master.
#[derive(Debug, Clone)]
pub struct AppendReport {
    pub release_id: String,
    pub effective_from: Timestamp,
    pub source_kind: SourceKind,
    pub stations_existing: usize,
    pub stations_appended: usize,
    pub stations_total: usize,
    pub metadata_unchanged: usize,
    pub metadata_revised: usize,
    /// Active stations with no known location at this release.
    pub unresolved_active: usize,
    /// Active *and* in PointSeismicIntensity scope; `None` when the master
    /// tracks no scopes at all, where the figure would be meaningless.
    pub unresolved_in_scope: Option<usize>,
    pub lifecycle_activated: usize,
    pub lifecycle_deactivated: usize,
    /// One entry per scope that moved or that the snapshot enumerates, in
    /// scope order.
    pub scopes: Vec<(Scope, ScopeSummary)>,
    pub warnings: Vec<Warning>,
}

impl AppendReport {
    /// Whether the scopes come in scope order, each at most once, as every
    /// report [`append`] makes has them.
    pub fn scopes_ordered(&self) -> (b: bool)
        ensures
            b == scopes_in_order(self.scopes@),
    {
        let n = self.scopes.len();
        if n <= 1 {
            true
        } else if n == 2 {
            let a = self.scopes[0].0;
            let b = self.scopes[1].0;
            a == Scope::PointSeismicIntensity && b == Scope::LongPeriodSeismicIntensity
        } else {
            proof {
                let s = self.scopes@;
                if scopes_in_order(s) {
                    assert(s[0].0.rank() < s[1].0.rank());
                    assert(s[1].0.rank() < s[2].0.rank());
                }
            }
            false
        }
    }

    /// The summary for `scope`, if the report has one: that of its first
    /// entry for the scope.
    pub fn scope(&self, scope: Scope) -> (r: Option<&ScopeSummary>)
        ensures
            match r {
                Some(s) => exists|k: int|
                    0 <= k < self.scopes@.len() && self.scopes@[k].0 == scope && #[trigger] self.scopes@[k].1
                        == *s && forall|l: int| 0 <= l < k ==> self.scopes@[l].0 != scope,
                None => forall|k: int| 0 <= k < self.scopes@.len() ==> #[trigger] self.scopes@[k].0 != scope,
            },
    {
        let mut k: usize = 0;
        while k < self.scopes.len()
            invariant
                k <= self.scopes@.len(),
                forall|l: int| 0 <= l < k ==> #[trigger] self.scopes@[l].0 != scope,
            decreases self.scopes@.len() - k,
        {
            if self.scopes[k].0 == scope {
                return Some(&self.scopes[k].1);
            }
            k = k + 1;
        }
        None
    }
}

/// Whether an active station has no known location at `t`. A station with
/// no lifecycle evidence at all is not yet claimed to exist.
pub open spec fn unresolved(st: StationV, t: TimeV) -> bool {
    &&& active_at(st.lifecycle, t) == Some(true)
    &&& match revision_index_at(st.metadata, t) {
        Some(k) => st.metadata[k].location is None,
        None => false,
    }
}

pub open spec fn unresolved_pred(t: TimeV) -> spec_fn(StationV) -> bool {
    |st: StationV| unresolved(st, t)
}

/// Unresolved and in the PointSeismicIntensity scope.
pub open spec fn unresolved_in_scope_pred(t: TimeV) -> spec_fn(StationV) -> bool {
    |st: StationV|
        unresolved(st, t) && scope_state_at(st.scope_events, Scope::PointSeismicIntensity, t)
            == Some(true)
}

/// Whether any station of the table has a scope event.
pub open spec fn tracks_scopes(stations: Seq<StationV>) -> bool {
    exists|i: int| 0 <= i < stations.len() && #[trigger] stations[i].scope_events.len() > 0
}

/// Counts the unresolved stations at `t`, and says whether any station has a
/// scope event.
fn count_unresolved(stations: &Vec<Station>, t: &Timestamp) -> (r: (usize, usize, bool))
    ensures
        ({
            let s = stations@.map_values(|x: Station| x@);
            &&& r.0 == s.filter(unresolved_pred(t@)).len()
            &&& r.1 == s.filter(unresolved_in_scope_pred(t@)).len()
            &&& r.2 == tracks_scopes(s)
        }),
{
    let ghost s = stations@.map_values(|x: Station| x@);
    let mut active: usize = 0;
    let mut in_scope: usize = 0;
    let mut tracks = false;
    proof {
        assert(s.take(0) =~= Seq::<StationV>::empty());
        lemma_filter_empty(unresolved_pred(t@));
        lemma_filter_empty(unresolved_in_scope_pred(t@));
    }
    let mut i: usize = 0;
    while i < stations.len()
        invariant
            i <= stations@.len(),
            s == stations@.map_values(|x: Station| x@),
            active == s.take(i as int).filter(unresolved_pred(t@)).len(),
            in_scope == s.take(i as int).filter(unresolved_in_scope_pred(t@)).len(),
            tracks == exists|k: int| 0 <= k < i && #[trigger] s[k].scope_events.len() > 0,
        decreases stations@.len() - i,
    {
        let st = &stations[i];
        assert(s[i as int] == st@);
        proof {
            lemma_filter_step(s, i as int, unresolved_pred(t@));
            lemma_filter_step(s, i as int, unresolved_in_scope_pred(t@));
        }
        let is_unresolved = st.is_active_at(t) == Some(true) && match st.metadata_at(t) {
            Some(rev) => rev.location.is_none(),
            None => false,
        };
        if is_unresolved {
            active = active + 1;
            if st.scope_enabled_at(Scope::PointSeismicIntensity, t) == Some(true) {
                in_scope = in_scope + 1;
            }
        }
        if st.scope_events.len() > 0 {
            tracks = true;
        }
        i = i + 1;
    }
    assert(s.take(i as int) =~= s);
    (active, in_scope, tracks)
}

/// Whether a summary states what the release did to `scope`.
pub open spec fn summary_fits(
    summary: ScopeSummary,
    before: Seq<StationV>,
    snap: SnapshotV,
    scope: Scope,
) -> bool {
    let gone = before.filter(disables_pred(snap, scope));
    &&& summary.enabled == before.filter(enables_pred(snap, scope)).len()
    &&& summary.disabled == gone.len()
    &&& texts_sorted(texts(summary.departed@))
    &&& texts(summary.departed@).to_multiset() == gone.map_values(|st: StationV| code_of(st)).to_multiset()
}

/// Whether the report shows `scope`: the snapshot enumerates it, or a
/// station entered or left it.
pub open spec fn shows(before: Seq<StationV>, snap: SnapshotV, scope: Scope) -> bool {
    snap.complete_scopes.contains(scope) || before.filter(enables_pred(snap, scope)).len() > 0
        || before.filter(disables_pred(snap, scope)).len() > 0
}

/// Whether a report's scopes come in scope order, each at most once.
pub open spec fn scopes_in_order(scopes: Seq<(Scope, ScopeSummary)>) -> bool {
    forall|i: int, j: int|
        0 <= i < j < scopes.len() ==> (#[trigger] scopes[i]).0.rank() < (#[trigger] scopes[j]).0.rank()
}

/// Whether `scopes` holds exactly the shown scopes, in scope order, each
/// with its summary.
pub open spec fn scopes_fit(
    scopes: Seq<(Scope, ScopeSummary)>,
    before: Seq<StationV>,
    snap: SnapshotV,
) -> bool {
    let p = Scope::PointSeismicIntensity;
    let l = Scope::LongPeriodSeismicIntensity;
    &&& scopes.len() == (if shows(before, snap, p) { 1int } else { 0 }) + (if shows(
        before,
        snap,
        l,
    ) {
        1int
    } else {
        0
    })
    &&& shows(before, snap, p) ==> scopes[0].0 == p && summary_fits(scopes[0].1, before, snap, p)
    &&& shows(before, snap, l) ==> scopes[scopes.len() - 1].0 == l && summary_fits(
        scopes[scopes.len() - 1].1,
        before,
        snap,
        l,
    )
}

fn summarize(
    enabled: usize,
    disabled: usize,
    departed: Vec<String>,
    before: Ghost<Seq<StationV>>,
    snap: Ghost<SnapshotV>,
    scope: Ghost<Scope>,
) -> (r: ScopeSummary)
    requires
        enabled == before@.filter(enables_pred(snap@, scope@)).len(),
        disabled == before@.filter(disables_pred(snap@, scope@)).len(),
        texts(departed@) == before@.filter(disables_pred(snap@, scope@)).map_values(
            |st: StationV| code_of(st),
        ),
    ensures
        summary_fits(r, before@, snap@, scope@),
{
    ScopeSummary { enabled, disabled, departed: sort_strings(departed) }
}

// ---------------------------------------------------------------------------
// Appending.
// ---------------------------------------------------------------------------

/// The view of an optional master.
pub open spec fn opt_master(m: Option<&Master>) -> Option<MasterV> {
    match m {
        Some(x) => Some(x@),
        None => None,
    }
}

/// The stations of an optional master.
pub open spec fn stations_of(previous: Option<MasterV>) -> Seq<StationV> {
    match previous {
        Some(p) => p.stations,
        None => Seq::empty(),
    }
}

/// The releases of an optional master.
pub open spec fn releases_of(previous: Option<MasterV>) -> Seq<ReleaseV> {
    match previous {
        Some(p) => p.releases,
        None => Seq::empty(),
    }
}

/// The codes that received an index in the release that produced `m`.
pub open spec fn added_codes(previous: Option<MasterV>, m: MasterV) -> Seq<Seq<char>> {
    codes_of(m.stations.skip(stations_of(previous).len() as int))
}

/// The station table as the release found it.
pub open spec fn table_before(previous: Option<MasterV>, m: MasterV) -> Seq<StationV> {
    stations_before(stations_of(previous), added_codes(previous, m))
}

/// Whether `m` is the master the release produces.
pub open spec fn appended(previous: Option<MasterV>, snap: SnapshotV, generated_at: TimeV, m: MasterV) -> bool {
    let old = stations_of(previous);
    let n = old.len();
    &&& m.schema_version == match previous {
        Some(p) => p.schema_version,
        None => crate::model::SCHEMA_VERSION as nat,
    }
    &&& m.source_kind == snap.source_kind
    &&& m.generated_at == generated_at
    &&& m.releases == releases_of(previous).push(
        ReleaseV {
            id: snap.release_id,
            effective_from: snap.effective_from,
            index_count: m.stations.len(),
        },
    )
    &&& n <= m.stations.len()
    &&& forall|i: int| 0 <= i < n ==> #[trigger] m.stations[i] == next_station(old[i], snap)
    &&& forall|i: int|
        n <= i < m.stations.len() ==> #[trigger] m.stations[i] == next_station(
            fresh_station(m.stations[i].code),
            snap,
        )
    &&& texts_sorted(added_codes(previous, m))
    &&& added_codes(previous, m).to_multiset() == unseen_codes(codes_of(old), snap).to_multiset()
}

/// Whether `report` states what the release that produced `m` did.
pub open spec fn reported(previous: Option<MasterV>, snap: SnapshotV, m: MasterV, report: AppendReport) -> bool {
    let before = table_before(previous, m);
    let t = snap.effective_from;
    let appended = m.stations.len() - stations_of(previous).len();
    &&& report.release_id@ == snap.release_id
    &&& report.effective_from@ == t
    &&& report.source_kind == snap.source_kind
    &&& report.stations_appended == appended
    &&& report.stations_existing == snap.stations.len() - appended
    &&& report.stations_total == m.stations.len()
    &&& report.metadata_unchanged == before.filter(keeps_pred(snap)).len()
    &&& report.metadata_revised == before.filter(revises_pred(snap)).len()
    &&& report.lifecycle_activated == before.filter(turns_pred(snap, true)).len()
    &&& report.lifecycle_deactivated == before.filter(turns_pred(snap, false)).len()
    &&& report.unresolved_active == m.stations.filter(unresolved_pred(t)).len()
    &&& (report.unresolved_in_scope is Some <==> tracks_scopes(m.stations))
    &&& (report.unresolved_in_scope matches Some(n) ==> n == m.stations.filter(
        unresolved_in_scope_pred(t),
    ).len())
    &&& scopes_fit(report.scopes@, before, snap)
    &&& scopes_in_order(report.scopes@)
    &&& report.warnings@.map_values(|w: Warning| w@) == snap.warnings
}

/// What [`append`] gives: success exactly when the release can be
/// appended; otherwise the refusal that fits; on success, the master the
/// release describes and a report of what it did.
pub open spec fn append_outcome(
    previous: Option<MasterV>,
    snap: SnapshotV,
    generated_at: TimeV,
    r: Result<(Master, AppendReport), AppendError>,
) -> bool {
    &&& (r is Ok <==> appendable(previous, snap))
    &&& (r matches Err(e) ==> refusal_fits(e, previous, snap))
    &&& (r matches Ok((m, report)) ==> appended(previous, snap, generated_at, m@) && reported(
        previous,
        snap,
        m@,
        report,
    ))
}

/// Whether two reports say the same, field by field.
pub open spec fn same_report(a: AppendReport, b: AppendReport) -> bool {
    &&& a.release_id@ == b.release_id@
    &&& a.effective_from@ == b.effective_from@
    &&& a.source_kind == b.source_kind
    &&& a.stations_existing == b.stations_existing
    &&& a.stations_appended == b.stations_appended
    &&& a.stations_total == b.stations_total
    &&& a.metadata_unchanged == b.metadata_unchanged
    &&& a.metadata_revised == b.metadata_revised
    &&& a.unresolved_active == b.unresolved_active
    &&& a.unresolved_in_scope == b.unresolved_in_scope
    &&& a.lifecycle_activated == b.lifecycle_activated
    &&& a.lifecycle_deactivated == b.lifecycle_deactivated
    &&& a.scopes@.len() == b.scopes@.len()
    &&& forall|i: int|
        0 <= i < a.scopes@.len() ==> {
            &&& (#[trigger] a.scopes@[i]).0 == b.scopes@[i].0
            &&& a.scopes@[i].1.enabled == b.scopes@[i].1.enabled
            &&& a.scopes@[i].1.disabled == b.scopes@[i].1.disabled
            &&& texts(a.scopes@[i].1.departed@) == texts(b.scopes@[i].1.departed@)
        }
    &&& a.warnings@.map_values(|w: Warning| w@) == b.warnings@.map_values(|w: Warning| w@)
}

/// Whether two refusals say the same, field by field.
pub open spec fn same_error(a: AppendError, b: AppendError) -> bool {
    match (a, b) {
        (
            AppendError::DuplicateStationCode { release_id: r1, code: c1, first: f1, second: s1 },
            AppendError::DuplicateStationCode { release_id: r2, code: c2, first: f2, second: s2 },
        ) => r1@ == r2@ && c1@ == c2@ && f1 == f2 && s1 == s2,
        (
            AppendError::SourceKindMismatch { recorded: k1, supplied: l1 },
            AppendError::SourceKindMismatch { recorded: k2, supplied: l2 },
        ) => k1 == k2 && l1 == l2,
        (
            AppendError::ReleaseAlreadyRecorded { id: i1, effective_from: t1 },
            AppendError::ReleaseAlreadyRecorded { id: i2, effective_from: t2 },
        ) => i1@ == i2@ && t1@ == t2@,
        (
            AppendError::OutOfOrderRelease {
                release_id: r1,
                effective_from: t1,
                latest_id: l1,
                latest_effective_from: u1,
            },
            AppendError::OutOfOrderRelease {
                release_id: r2,
                effective_from: t2,
                latest_id: l2,
                latest_effective_from: u2,
            },
        ) => r1@ == r2@ && t1@ == t2@ && l1@ == l2@ && u1@ == u2@,
        _ => false,
    }
}

fn copy_releases(v: &Vec<Release>) -> (r: Vec<Release>)
    ensures
        r@.map_values(|x: Release| x@) == v@.map_values(|x: Release| x@),
{
    let mut r: Vec<Release> = Vec::new();
    for i in 0..v.len()
        invariant
            r@.len() == i,
            forall|j: int| 0 <= j < i ==> #[trigger] r@[j]@ == v@[j]@,
    {
        r.push(v[i].duplicate());
    }
    assert(r@.map_values(|x: Release| x@) =~= v@.map_values(|x: Release| x@));
    r
}

/// Fold a snapshot into `previous`, or build a fresh master when there is
/// none.
///
/// The release is refused, and nothing is produced, when the snapshot names
/// a code twice, when the master was built from another source kind, when a
/// release with the same id is already recorded, or when the release is not
/// strictly newer than the latest one.
pub fn append(previous: Option<&Master>, snapshot: &Snapshot, generated_at: Timestamp) -> (r: Result<
    (Master, AppendReport),
    AppendError,
>)
    ensures
        append_outcome(opt_master(previous), snapshot@, generated_at@, r),
{
    let ghost prev = opt_master(previous);
    let ghost snap = snapshot@;
    match check_snapshot(snapshot) {
        Ok(()) => {},
        Err(e) => return Err(e),
    }
    match previous {
        Some(p) => match check_can_append(p, snapshot) {
            Ok(()) => {},
            Err(e) => return Err(e),
        },
        None => {},
    }
    let empty: Vec<Station> = Vec::new();
    let (schema_version, old_stations, mut releases) = match previous {
        Some(p) => (p.schema_version, &p.stations, copy_releases(&p.releases)),
        None => (crate::model::SCHEMA_VERSION, &empty, Vec::new()),
    };
    let ghost old = old_stations@.map_values(|s: Station| s@);
    assert(old =~= stations_of(prev));
    let new_codes = unknown_codes(old_stations, snapshot);
    let (stations, tally) = step_all(old_stations, &new_codes, snapshot);
    let n = old_stations.len();
    let total = stations.len();
    let appended = new_codes.len();
    let ghost before = stations_before(old, texts(new_codes@));
    let t = &snapshot.effective_from;
    releases.push(
        Release { id: snapshot.release_id.clone(), effective_from: t.duplicate(), index_count: total },
    );
    let (unresolved_active, unresolved_point, tracks) = count_unresolved(&stations, t);
    let ghost after = stations@.map_values(|s: Station| s@);
    proof {
        assert(after.len() == before.len());
        assert forall|i: int| 0 <= i < after.len() implies #[trigger] after[i] == next_station(before[i], snap) by {
            assert(after[i] == stations@[i]@);
        }
        // The codes of the appended stations are the new codes.
        assert(codes_of(after.skip(n as int)) =~= texts(new_codes@)) by {
            assert forall|k: int| 0 <= k < new_codes@.len() implies #[trigger] codes_of(after.skip(n as int))[k] == texts(new_codes@)[k] by {
                assert(after.skip(n as int)[k] == after[n + k]);
                assert(before[n + k] == fresh_station(texts(new_codes@)[k]));
            }
        }
        // There are no more new codes than snapshot entries.
        unseen_codes(codes_of(old), snap).to_multiset_ensures();
        texts(new_codes@).to_multiset_ensures();
        lemma_filter_len_le(snap.codes(), unseen_pred(codes_of(old)));
        assert(appended <= snapshot.stations@.len());
    }
    let point = Scope::PointSeismicIntensity;
    let long = Scope::LongPeriodSeismicIntensity;
    let mut scopes: Vec<(Scope, ScopeSummary)> = Vec::new();
    let show_point = contains_scope(&snapshot.complete_scopes, point) || tally.point_enabled > 0
        || tally.point_disabled > 0;
    let show_long = contains_scope(&snapshot.complete_scopes, long) || tally.long_enabled > 0
        || tally.long_disabled > 0;
    if show_point {
        scopes.push(
            (
                point,
                summarize(
                    tally.point_enabled,
                    tally.point_disabled,
                    tally.point_departed,
                    Ghost(before),
                    Ghost(snap),
                    Ghost(point),
                ),
            ),
        );
    }
    if show_long {
        scopes.push(
            (
                long,
                summarize(
                    tally.long_enabled,
                    tally.long_disabled,
                    tally.long_departed,
                    Ghost(before),
                    Ghost(snap),
                    Ghost(long),
                ),
            ),
        );
    }
    let report = AppendReport {
        release_id: snapshot.release_id.clone(),
        effective_from: t.duplicate(),
        source_kind: snapshot.source_kind,
        stations_existing: snapshot.stations.len() - appended,
        stations_appended: appended,
        stations_total: total,
        metadata_unchanged: tally.unchanged,
        metadata_revised: tally.revised,
        unresolved_active,
        unresolved_in_scope: if tracks {
            Some(unresolved_point)
        } else {
            None
        },
        lifecycle_activated: tally.activated,
        lifecycle_deactivated: tally.deactivated,
        scopes,
        warnings: copy_warnings(&snapshot.warnings),
    };
    let master = Master {
        schema_version,
        source_kind: snapshot.source_kind,
        generated_at,
        releases,
        stations,
    };
    proof {
        let mv = master@;
        assert(mv.stations == after);
        assert(mv.releases =~= releases_of(prev).push(
            ReleaseV { id: snap.release_id, effective_from: snap.effective_from, index_count: mv.stations.len() },
        ));
        assert(table_before(prev, mv) == before);
        assert forall|i: int| n <= i < mv.stations.len() implies #[trigger] mv.stations[i] == next_station(
            fresh_station(mv.stations[i].code),
            snap,
        ) by {
            assert(before[i] == fresh_station(texts(new_codes@)[i - n]));
            assert(codes_of(after.skip(n as int))[i - n] == after[i].code);
        }
    }
    Ok((master, report))
}
} // verus!
