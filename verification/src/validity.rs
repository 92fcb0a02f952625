//! A release keeps a valid master valid.
//!
//! [`crate::validate::validate`] is run on every master a release produces.
//! This module proves that, for snapshots whose codes and coordinates have the
//! shapes a master requires, it can never object to what
//! [`crate::append::append`] wrote on top of a valid master.

use vstd::prelude::*;

use crate::append::{
    after_entering, after_leaving, appendable, appended, build_revision, codes_of, enter_one,
    enters, entry_for, entry_index, fresh_station, last_revision, leave_one, leaves, listed,
    metadata_changes, next_lifecycle, next_metadata, next_station, scope_event, stations_of,
    unseen_codes, unseen_pred,
};
use crate::code::CodeShape;
use crate::input::{SnapshotStationV, SnapshotV};
use crate::laws::{law_codes_stay_unique, law_indices_are_permanent, law_release_log_stays_ordered};
use crate::model::{scope_state_at, LifecycleV, MasterV, RevisionV, Scope, ScopeEventV, StationV};
use crate::time::TimeV;
use crate::validate::{
    events_for, history_ok, lemma_timeline_push, lifecycle_ordered, location_in_range,
    locations_ok, master_valid, revision_shaped, revisions_ordered, scope_events_ordered,
    scope_events_sorted, scope_is, station_shaped, timeline_ok, timeline_step_ok,
};

verus! {

/// Whether every event a station records is at or before `t`.
pub open spec fn station_dated(st: StationV, t: TimeV) -> bool {
    &&& forall|k: int|
        0 <= k < st.lifecycle.len() ==> (#[trigger] st.lifecycle[k]).effective_from.not_after(t)
    &&& forall|k: int|
        0 <= k < st.scope_events.len() ==> (#[trigger] st.scope_events[k]).effective_from.not_after(
            t,
        )
    &&& forall|k: int|
        0 <= k < st.metadata.len() ==> (#[trigger] st.metadata[k]).effective_from.not_after(t)
}

/// Whether everything a station records takes effect strictly before `t`.
pub open spec fn station_before(st: StationV, t: TimeV) -> bool {
    &&& forall|k: int|
        0 <= k < st.lifecycle.len() ==> (#[trigger] st.lifecycle[k]).effective_from.before(t)
    &&& forall|k: int|
        0 <= k < st.scope_events.len() ==> (#[trigger] st.scope_events[k]).effective_from.before(t)
    &&& forall|k: int|
        0 <= k < st.metadata.len() ==> (#[trigger] st.metadata[k]).effective_from.before(t)
}

/// Whether everything a master records takes effect strictly before `t`.
pub open spec fn recorded_before(m: MasterV, t: TimeV) -> bool {
    forall|i: int| 0 <= i < m.stations.len() ==> station_before(#[trigger] m.stations[i], t)
}

/// Whether nothing a master records is dated after its latest release, as is
/// true of every master that releases built.
pub open spec fn dated_within(m: MasterV) -> bool {
    forall|i: int|
        0 <= i < m.stations.len() ==> m.releases.len() > 0 && station_dated(
            #[trigger] m.stations[i],
            m.releases.last().effective_from,
        )
}

/// Whether a snapshot entry has the shapes a master requires: a station
/// code, region and city codes of their widths, a coordinate in range.
pub open spec fn entry_shaped(e: SnapshotStationV) -> bool {
    &&& CodeShape::Point.spec_accepts(e.code)
    &&& (e.metadata.region matches Some(a) ==> CodeShape::Region.spec_accepts(a.code))
    &&& (e.metadata.city matches Some(a) ==> CodeShape::City.spec_accepts(a.code))
    &&& (e.metadata.location matches Some(l) ==> location_in_range(l))
}

/// Whether every entry of a snapshot has the shapes a master requires.
pub open spec fn snapshot_shaped(snap: SnapshotV) -> bool {
    forall|i: int| 0 <= i < snap.stations.len() ==> entry_shaped(#[trigger] snap.stations[i])
}

/// Scope events in order of effective time, then scope.
pub open spec fn events_sorted(events: Seq<ScopeEventV>) -> bool {
    forall|k: int|
        0 <= k < events.len() - 1 ==> scope_events_ordered(#[trigger] events[k], events[k + 1])
}

/// Histories well formed, except that the metadata may still be empty.
pub open spec fn histories_ordered(st: StationV) -> bool {
    &&& revisions_ordered(st)
    &&& locations_ok(st)
    &&& lifecycle_ordered(st)
    &&& scope_events_sorted(st)
    &&& timeline_ok(events_for(st.scope_events, Scope::PointSeismicIntensity))
    &&& timeline_ok(events_for(st.scope_events, Scope::LongPeriodSeismicIntensity))
}

proof fn lemma_history_parts(st: StationV)
    ensures
        history_ok(st) <==> st.metadata.len() > 0 && histories_ordered(st),
{
    reveal(history_ok);
}

proof fn lemma_filter_push(events: Seq<ScopeEventV>, e: ScopeEventV, scope: Scope)
    ensures
        events_for(events.push(e), scope) == if e.scope == scope {
            events_for(events, scope).push(e)
        } else {
            events_for(events, scope)
        },
{
    events.lemma_filter_push(e, scope_is(scope));
}

/// When nothing is dated after `t`, the state of a scope at `t` is that of
/// the last event of its timeline.
proof fn lemma_state_is_last(events: Seq<ScopeEventV>, scope: Scope, t: TimeV)
    requires
        forall|k: int| 0 <= k < events.len() ==> (#[trigger] events[k]).effective_from.not_after(t),
    ensures
        scope_state_at(events, scope, t) == if events_for(events, scope).len() == 0 {
            None
        } else {
            Some(events_for(events, scope).last().enabled)
        },
    decreases events.len(),
{
    if events.len() > 0 {
        let rest = events.drop_last();
        assert(events == rest.push(events.last()));
        lemma_filter_push(rest, events.last(), scope);
        assert(events.last().effective_from.not_after(t));
        if events.last().scope != scope {
            lemma_state_is_last(rest, scope, t);
        }
    } else {
        assert(events_for(events, scope) =~= Seq::<ScopeEventV>::empty()) by {
            reveal(Seq::filter);
        }
    }
}

/// Every event of a scope's timeline is an event of the station.
proof fn lemma_timeline_members(events: Seq<ScopeEventV>, scope: Scope, k: int)
    requires
        0 <= k < events_for(events, scope).len(),
    ensures
        events.contains(events_for(events, scope)[k]),
        events_for(events, scope)[k].scope == scope,
{
    broadcast use vstd::seq_lib::group_filter_ensures;

    let f = events_for(events, scope);
    assert(f.contains(f[k]));
    events.lemma_filter_contains_rev(scope_is(scope), f[k]);
}

/// Pushing an event keeps the scope events sorted and both timelines well
/// formed, when it comes after the last event and changes its own timeline.
proof fn lemma_scope_push(events: Seq<ScopeEventV>, e: ScopeEventV)
    requires
        events_sorted(events),
        timeline_ok(events_for(events, Scope::PointSeismicIntensity)),
        timeline_ok(events_for(events, Scope::LongPeriodSeismicIntensity)),
        events.len() > 0 ==> scope_events_ordered(events.last(), e),
        events_for(events, e.scope).len() > 0 ==> timeline_step_ok(
            events_for(events, e.scope).last(),
            e,
        ),
    ensures
        events_sorted(events.push(e)),
        timeline_ok(events_for(events.push(e), Scope::PointSeismicIntensity)),
        timeline_ok(events_for(events.push(e), Scope::LongPeriodSeismicIntensity)),
{
    let g = events.push(e);
    assert forall|k: int| 0 <= k < g.len() - 1 implies scope_events_ordered(
        #[trigger] g[k],
        g[k + 1],
    ) by {
        if k + 1 < events.len() {
            assert(g[k] == events[k] && g[k + 1] == events[k + 1]);
        } else {
            assert(g[k] == events.last());
        }
    }
    lemma_filter_push(events, e, Scope::PointSeismicIntensity);
    lemma_filter_push(events, e, Scope::LongPeriodSeismicIntensity);
    lemma_timeline_push(events_for(events, Scope::PointSeismicIntensity), e);
    lemma_timeline_push(events_for(events, Scope::LongPeriodSeismicIntensity), e);
}

/// Entering or leaving one scope at `t` keeps the scope events well formed.
proof fn lemma_scope_step(events: Seq<ScopeEventV>, scope: Scope, enabled: bool, t: TimeV)
    requires
        events_sorted(events),
        timeline_ok(events_for(events, Scope::PointSeismicIntensity)),
        timeline_ok(events_for(events, Scope::LongPeriodSeismicIntensity)),
        forall|k: int| 0 <= k < events.len() ==> (#[trigger] events[k]).effective_from.not_after(t),
        forall|k: int|
            0 <= k < events.len() && (#[trigger] events[k]).scope == scope
                ==> events[k].effective_from.before(t),
        forall|k: int|
            0 <= k < events.len() && (#[trigger] events[k]).effective_from.same_instant(t)
                ==> events[k].scope.rank() < scope.rank(),
        scope_state_at(events, scope, t) != Some(enabled),
    ensures
        events_sorted(events.push(scope_event(t, scope, enabled))),
        timeline_ok(
            events_for(events.push(scope_event(t, scope, enabled)), Scope::PointSeismicIntensity),
        ),
        timeline_ok(
            events_for(
                events.push(scope_event(t, scope, enabled)),
                Scope::LongPeriodSeismicIntensity,
            ),
        ),
{
    let e = scope_event(t, scope, enabled);
    lemma_state_is_last(events, scope, t);
    let f = events_for(events, scope);
    if f.len() > 0 {
        lemma_timeline_members(events, scope, f.len() - 1);
        let k = choose|k: int| 0 <= k < events.len() && events[k] == f.last();
        assert(events[k].scope == scope);
        assert(f.last().effective_from.before(t));
    }
    if events.len() > 0 {
        assert(events[events.len() - 1] == events.last());
        assert(events.last().effective_from.not_after(t));
    }
    lemma_scope_push(events, e);
}


/// The scope events after a release keep their order and timelines, and are
/// all dated at or before `t`.
proof fn lemma_scope_events_step(
    events: Seq<ScopeEventV>,
    listed_here: bool,
    scopes: Seq<Scope>,
    complete: Seq<Scope>,
    t: TimeV,
)
    requires
        events_sorted(events),
        timeline_ok(events_for(events, Scope::PointSeismicIntensity)),
        timeline_ok(events_for(events, Scope::LongPeriodSeismicIntensity)),
        forall|k: int| 0 <= k < events.len() ==> (#[trigger] events[k]).effective_from.before(t),
    ensures
        ({
            let next = if listed_here {
                after_entering(events, scopes, t)
            } else {
                after_leaving(events, complete, t)
            };
            &&& events_sorted(next)
            &&& timeline_ok(events_for(next, Scope::PointSeismicIntensity))
            &&& timeline_ok(events_for(next, Scope::LongPeriodSeismicIntensity))
            &&& forall|k: int| 0 <= k < next.len() ==> (#[trigger] next[k]).effective_from.not_after(t)
        }),
{
    let p = Scope::PointSeismicIntensity;
    let l = Scope::LongPeriodSeismicIntensity;
    let once = if listed_here {
        enter_one(events, scopes, p, t)
    } else {
        leave_one(events, complete, p, t)
    };
    let first_moves = if listed_here {
        enters(events, scopes, p, t)
    } else {
        leaves(events, complete, p, t)
    };
    if first_moves {
        lemma_scope_step(events, p, listed_here, t);
        assert(once == events.push(scope_event(t, p, listed_here)));
    } else {
        assert(once == events);
    }
    assert forall|k: int| 0 <= k < once.len() implies (#[trigger] once[k]).effective_from.not_after(t)
        && (once[k].scope == l ==> once[k].effective_from.before(t)) && (
    once[k].effective_from.same_instant(t) ==> once[k].scope.rank() < l.rank()) by {
        if k < events.len() {
            assert(once[k] == events[k]);
        }
    }
    let second_moves = if listed_here {
        enters(once, scopes, l, t)
    } else {
        leaves(once, complete, l, t)
    };
    let next = if listed_here {
        after_entering(events, scopes, t)
    } else {
        after_leaving(events, complete, t)
    };
    if second_moves {
        lemma_scope_step(once, l, listed_here, t);
        assert(next == once.push(scope_event(t, l, listed_here)));
        assert forall|k: int| 0 <= k < next.len() implies (#[trigger] next[k]).effective_from.not_after(
            t,
        ) by {
            if k < once.len() {
                assert(next[k] == once[k]);
            }
        }
    } else {
        assert(next == once);
    }
}

/// Revisions in strictly increasing order of effective time.
pub open spec fn revisions_in_order(h: Seq<RevisionV>) -> bool {
    forall|k: int| 0 <= k < h.len() - 1 ==> #[trigger] revision_step(h, k)
}

/// Revision `k` is strictly earlier than the next one.
pub open spec fn revision_step(h: Seq<RevisionV>, k: int) -> bool {
    h[k].effective_from.before(h[k + 1].effective_from)
}

/// A revision's coordinate, if any, is in range and its codes are shaped.
#[verifier::opaque]
pub open spec fn revision_sound(r: RevisionV) -> bool {
    (r.location matches Some(l) ==> location_in_range(l)) && revision_shaped(r)
}

/// Every revision is sound.
pub open spec fn revisions_sound(h: Seq<RevisionV>) -> bool {
    forall|k: int| 0 <= k < h.len() ==> revision_sound(#[trigger] h[k])
}

#[verifier::rlimit(100)]
proof fn lemma_sound_parts(st: StationV)
    ensures
        revisions_sound(st.metadata) <==> locations_ok(st) && forall|k: int|
            0 <= k < st.metadata.len() ==> revision_shaped(#[trigger] st.metadata[k]),
{
    reveal(revision_sound);
    if revisions_sound(st.metadata) {
        assert forall|k: int| 0 <= k < st.metadata.len() implies revision_shaped(
            #[trigger] st.metadata[k],
        ) by {
            assert(revision_sound(st.metadata[k]));
        }
        assert forall|k: int| 0 <= k < st.metadata.len() implies ((
        #[trigger] st.metadata[k]).location matches Some(l) ==> location_in_range(l)) by {
            assert(revision_sound(st.metadata[k]));
        }
    }
    if locations_ok(st) && forall|k: int|
        0 <= k < st.metadata.len() ==> revision_shaped(#[trigger] st.metadata[k]) {
        assert forall|k: int| 0 <= k < st.metadata.len() implies revision_sound(
            #[trigger] st.metadata[k],
        ) by {
            assert(revision_shaped(st.metadata[k]));
        }
    }
}

/// Whether what a snapshot says of a station has the shapes a master
/// requires.
pub open spec fn metadata_shaped(m: crate::input::StationMetadataV) -> bool {
    &&& (m.region matches Some(a) ==> CodeShape::Region.spec_accepts(a.code))
    &&& (m.city matches Some(a) ==> CodeShape::City.spec_accepts(a.code))
    &&& (m.location matches Some(l) ==> location_in_range(l))
}

proof fn lemma_revision_sound(base: Option<RevisionV>, incoming: crate::input::StationMetadataV, t: TimeV)
    requires
        base matches Some(b) ==> revision_sound(b),
        metadata_shaped(incoming),
    ensures
        build_revision(base, incoming, t).effective_from == t,
        revision_sound(build_revision(base, incoming, t)),
{
    reveal(revision_sound);
}

#[verifier::rlimit(80)]
proof fn lemma_push_revision(h: Seq<RevisionV>, r: RevisionV, t: TimeV)
    requires
        revisions_in_order(h),
        revisions_sound(h),
        forall|k: int| 0 <= k < h.len() ==> (#[trigger] h[k]).effective_from.before(t),
        r.effective_from == t,
        revision_sound(r),
    ensures
        revisions_in_order(h.push(r)),
        revisions_sound(h.push(r)),
        forall|k: int| 0 <= k < h.push(r).len() ==> (#[trigger] h.push(r)[k]).effective_from.not_after(t),
{
    let next = h.push(r);
    assert forall|k: int| 0 <= k < next.len() - 1 implies #[trigger] revision_step(next, k) by {
        assert(next[k] == h[k]);
        if k + 1 < h.len() {
            assert(next[k + 1] == h[k + 1]);
            assert(revision_step(h, k));
        }
    }
    assert forall|k: int| 0 <= k < next.len() implies revision_sound(#[trigger] next[k])
        && next[k].effective_from.not_after(t) by {
        if k < h.len() {
            assert(next[k] == h[k]);
        }
    }
}

#[verifier::rlimit(80)]
proof fn lemma_metadata_step(h: Seq<RevisionV>, incoming: crate::input::StationMetadataV, t: TimeV)
    requires
        revisions_in_order(h),
        revisions_sound(h),
        forall|k: int| 0 <= k < h.len() ==> (#[trigger] h[k]).effective_from.before(t),
        metadata_shaped(incoming),
    ensures
        revisions_in_order(next_metadata(h, incoming, t)),
        revisions_sound(next_metadata(h, incoming, t)),
        next_metadata(h, incoming, t).len() > 0,
        forall|k: int|
            0 <= k < next_metadata(h, incoming, t).len() ==> (#[trigger] next_metadata(
                h,
                incoming,
                t,
            )[k]).effective_from.not_after(t),
{
    let changed = metadata_changes(h, incoming, t);
    let base = last_revision(h);
    let r = build_revision(base, incoming, t);
    assert(next_metadata(h, incoming, t) == if changed {
        h.push(r)
    } else {
        h
    });
    if h.len() > 0 {
        assert(h[h.len() - 1] == h.last());
    } else {
        assert(changed);
    }
    lemma_revision_sound(base, incoming, t);
    if changed {
        lemma_push_revision(h, r, t);
    }
}

proof fn lemma_lifecycle_step(events: Seq<LifecycleV>, active: Option<bool>, t: TimeV)
    requires
        forall|k: int|
            0 <= k < events.len() - 1 ==> (#[trigger] events[k]).effective_from.before(
                events[k + 1].effective_from,
            ),
        forall|k: int| 0 <= k < events.len() ==> (#[trigger] events[k]).effective_from.before(t),
    ensures
        forall|k: int|
            0 <= k < next_lifecycle(events, active, t).len() - 1 ==> (#[trigger] next_lifecycle(
                events,
                active,
                t,
            )[k]).effective_from.before(next_lifecycle(events, active, t)[k + 1].effective_from),
        forall|k: int|
            0 <= k < next_lifecycle(events, active, t).len() ==> (#[trigger] next_lifecycle(
                events,
                active,
                t,
            )[k]).effective_from.not_after(t),
{
    let next = next_lifecycle(events, active, t);
    if crate::append::lifecycle_changes(events, active) {
        assert forall|k: int| 0 <= k < next.len() - 1 implies (#[trigger] next[k]).effective_from.before(
            next[k + 1].effective_from,
        ) by {
            assert(next[k] == events[k]);
            if k + 1 < events.len() {
                assert(next[k + 1] == events[k + 1]);
            }
        }
        assert forall|k: int| 0 <= k < next.len() implies (#[trigger] next[k]).effective_from.not_after(
            t,
        ) by {
            if k < events.len() {
                assert(next[k] == events[k]);
            }
        }
    }
}

/// One station after a release, with its definition kept out of sight until
/// it is needed.
#[verifier::opaque]
pub open spec fn stepped(st: StationV, snap: SnapshotV) -> StationV {
    next_station(st, snap)
}

/// What the metadata history needs before a release at `snap`.
#[verifier::opaque]
pub open spec fn metadata_ready(st: StationV, snap: SnapshotV) -> bool {
    &&& revisions_ordered(st)
    &&& locations_ok(st)
    &&& forall|k: int| 0 <= k < st.metadata.len() ==> revision_shaped(#[trigger] st.metadata[k])
    &&& forall|k: int|
        0 <= k < st.metadata.len() ==> (#[trigger] st.metadata[k]).effective_from.before(
            snap.effective_from,
        )
    &&& (st.metadata.len() > 0 || listed(st, snap))
    &&& (listed(st, snap) ==> metadata_shaped(entry_for(snap, st.code).metadata))
}

/// What the metadata history is after a release at `t`.
#[verifier::opaque]
pub open spec fn metadata_good(st: StationV, t: TimeV) -> bool {
    &&& revisions_ordered(st)
    &&& locations_ok(st)
    &&& forall|k: int| 0 <= k < st.metadata.len() ==> revision_shaped(#[trigger] st.metadata[k])
    &&& forall|k: int|
        0 <= k < st.metadata.len() ==> (#[trigger] st.metadata[k]).effective_from.not_after(t)
    &&& st.metadata.len() > 0
}

/// What the lifecycle needs before a release at `t`.
#[verifier::opaque]
pub open spec fn lifecycle_ready(st: StationV, t: TimeV) -> bool {
    &&& lifecycle_ordered(st)
    &&& forall|k: int|
        0 <= k < st.lifecycle.len() ==> (#[trigger] st.lifecycle[k]).effective_from.before(t)
}

/// What the lifecycle is after a release at `t`.
#[verifier::opaque]
pub open spec fn lifecycle_good(st: StationV, t: TimeV) -> bool {
    &&& lifecycle_ordered(st)
    &&& forall|k: int|
        0 <= k < st.lifecycle.len() ==> (#[trigger] st.lifecycle[k]).effective_from.not_after(t)
}

/// What the scope events need before a release at `t`.
#[verifier::opaque]
pub open spec fn scopes_ready(st: StationV, t: TimeV) -> bool {
    &&& scope_events_sorted(st)
    &&& timeline_ok(events_for(st.scope_events, Scope::PointSeismicIntensity))
    &&& timeline_ok(events_for(st.scope_events, Scope::LongPeriodSeismicIntensity))
    &&& forall|k: int|
        0 <= k < st.scope_events.len() ==> (#[trigger] st.scope_events[k]).effective_from.before(t)
}

/// What the scope events are after a release at `t`.
#[verifier::opaque]
pub open spec fn scopes_good(st: StationV, t: TimeV) -> bool {
    &&& scope_events_sorted(st)
    &&& timeline_ok(events_for(st.scope_events, Scope::PointSeismicIntensity))
    &&& timeline_ok(events_for(st.scope_events, Scope::LongPeriodSeismicIntensity))
    &&& forall|k: int|
        0 <= k < st.scope_events.len() ==> (#[trigger] st.scope_events[k]).effective_from.not_after(
            t,
        )
}

#[verifier::rlimit(100)]
proof fn lemma_in_order(st: StationV)
    ensures
        revisions_ordered(st) <==> revisions_in_order(st.metadata),
{
    if revisions_ordered(st) {
        assert forall|k: int| 0 <= k < st.metadata.len() - 1 implies #[trigger] revision_step(
            st.metadata,
            k,
        ) by {
            assert(st.metadata[k].effective_from.before(st.metadata[k + 1].effective_from));
        }
    }
    if revisions_in_order(st.metadata) {
        assert forall|k: int| 0 <= k < st.metadata.len() - 1 implies (
        #[trigger] st.metadata[k]).effective_from.before(st.metadata[k + 1].effective_from) by {
            assert(revision_step(st.metadata, k));
        }
    }
}

#[verifier::rlimit(100)]
proof fn lemma_metadata_ready_parts(st: StationV, snap: SnapshotV)
    requires
        metadata_ready(st, snap),
    ensures
        revisions_in_order(st.metadata),
        revisions_sound(st.metadata),
        forall|k: int|
            0 <= k < st.metadata.len() ==> (#[trigger] st.metadata[k]).effective_from.before(
                snap.effective_from,
            ),
        st.metadata.len() > 0 || listed(st, snap),
        listed(st, snap) ==> metadata_shaped(entry_for(snap, st.code).metadata),
{
    reveal(metadata_ready);
    lemma_sound_parts(st);
    lemma_in_order(st);
}

#[verifier::rlimit(100)]
proof fn lemma_metadata_good_from(st: StationV, t: TimeV)
    requires
        revisions_in_order(st.metadata),
        revisions_sound(st.metadata),
        forall|k: int|
            0 <= k < st.metadata.len() ==> (#[trigger] st.metadata[k]).effective_from.not_after(t),
        st.metadata.len() > 0,
    ensures
        metadata_good(st, t),
{
    reveal(metadata_good);
    lemma_sound_parts(st);
    lemma_in_order(st);
}

proof fn lemma_next_metadata_ok(st: StationV, snap: SnapshotV)
    requires
        metadata_ready(st, snap),
    ensures
        metadata_good(stepped(st, snap), snap.effective_from),
{
    reveal(stepped);
    let t = snap.effective_from;
    let next = stepped(st, snap);
    lemma_metadata_ready_parts(st, snap);
    if listed(st, snap) {
        let entry = entry_for(snap, st.code);
        assert(next.metadata == next_metadata(st.metadata, entry.metadata, t));
        lemma_metadata_step(st.metadata, entry.metadata, t);
    } else {
        assert(next.metadata == st.metadata);
    }
    lemma_metadata_good_from(next, t);
}

proof fn lemma_next_lifecycle_ok(st: StationV, snap: SnapshotV)
    requires
        lifecycle_ready(st, snap.effective_from),
    ensures
        lifecycle_good(stepped(st, snap), snap.effective_from),
{
    reveal(stepped);
    reveal(lifecycle_ready);
    reveal(lifecycle_good);
    let t = snap.effective_from;
    let next = stepped(st, snap);
    if listed(st, snap) {
        let entry = entry_for(snap, st.code);
        assert(next.lifecycle == next_lifecycle(st.lifecycle, entry.active, t));
        lemma_lifecycle_step(st.lifecycle, entry.active, t);
    } else {
        assert(next.lifecycle == st.lifecycle);
    }
}

proof fn lemma_next_scopes_ok(st: StationV, snap: SnapshotV)
    requires
        scopes_ready(st, snap.effective_from),
    ensures
        scopes_good(stepped(st, snap), snap.effective_from),
{
    reveal(stepped);
    reveal(scopes_ready);
    reveal(scopes_good);
    let here = listed(st, snap);
    let entry = entry_for(snap, st.code);
    assert(events_sorted(st.scope_events));
    lemma_scope_events_step(
        st.scope_events,
        here,
        entry.scopes,
        snap.complete_scopes,
        snap.effective_from,
    );
}

/// Good histories are well formed and dated.
#[verifier::rlimit(100)]
proof fn lemma_goods(st: StationV, t: TimeV)
    requires
        metadata_good(st, t),
        lifecycle_good(st, t),
        scopes_good(st, t),
    ensures
        history_ok(st),
        forall|k: int| 0 <= k < st.metadata.len() ==> revision_shaped(#[trigger] st.metadata[k]),
        station_dated(st, t),
{
    reveal(metadata_good);
    reveal(lifecycle_good);
    reveal(scopes_good);
    lemma_history_parts(st);
}

/// A release keeps one station's histories well formed, its codes shaped,
/// and everything it records dated at or before the release.
proof fn lemma_next_station_ok(st: StationV, snap: SnapshotV)
    requires
        metadata_ready(st, snap),
        lifecycle_ready(st, snap.effective_from),
        scopes_ready(st, snap.effective_from),
    ensures
        history_ok(stepped(st, snap)),
        forall|k: int|
            0 <= k < stepped(st, snap).metadata.len() ==> revision_shaped(
                #[trigger] stepped(st, snap).metadata[k],
            ),
        station_dated(stepped(st, snap), snap.effective_from),
{
    lemma_next_metadata_ok(st, snap);
    lemma_next_lifecycle_ok(st, snap);
    lemma_next_scopes_ok(st, snap);
    lemma_goods(stepped(st, snap), snap.effective_from);
}


/// The entry a snapshot has for a code it lists is that code's, and shaped.
proof fn lemma_listed_entry(snap: SnapshotV, code: Seq<char>)
    requires
        snapshot_shaped(snap),
        snap.codes().contains(code),
    ensures
        entry_for(snap, code).code == code,
        entry_shaped(entry_for(snap, code)),
{
    let k = choose|k: int| 0 <= k < snap.codes().len() && snap.codes()[k] == code;
    assert(snap.stations[k].code == code);
    let i = entry_index(snap, code);
    assert(0 <= i < snap.stations.len() && snap.stations[i].code == code);
}

/// A station of a valid master is ready for a release after everything it
/// records.
#[verifier::rlimit(100)]
proof fn lemma_ready(st: StationV, snap: SnapshotV)
    requires
        history_ok(st),
        station_shaped(st),
        station_before(st, snap.effective_from),
        listed(st, snap) ==> entry_shaped(entry_for(snap, st.code)),
    ensures
        metadata_ready(st, snap),
        lifecycle_ready(st, snap.effective_from),
        scopes_ready(st, snap.effective_from),
{
    reveal(metadata_ready);
    reveal(lifecycle_ready);
    reveal(scopes_ready);
    lemma_history_parts(st);
}

/// A station that has just been given an index is ready for the release
/// that lists it.
proof fn lemma_fresh_ready(code: Seq<char>, snap: SnapshotV)
    requires
        listed(fresh_station(code), snap),
        entry_shaped(entry_for(snap, code)),
    ensures
        metadata_ready(fresh_station(code), snap),
        lifecycle_ready(fresh_station(code), snap.effective_from),
        scopes_ready(fresh_station(code), snap.effective_from),
{
    reveal(metadata_ready);
    reveal(lifecycle_ready);
    reveal(scopes_ready);
    let st = fresh_station(code);
    assert(events_for(st.scope_events, Scope::PointSeismicIntensity).len() == 0) by {
        reveal(Seq::filter);
    }
    assert(events_for(st.scope_events, Scope::LongPeriodSeismicIntensity).len() == 0) by {
        reveal(Seq::filter);
    }
}

/// A release keeps a valid master valid: when the previous master is valid
/// and everything it records takes effect before the new release, and every
/// entry of the snapshot has a well-shaped station code, region and city
/// codes and an in-range coordinate, the master a release produces passes
/// every check of validation against the previous one, and records nothing
/// after its latest release.
pub proof fn law_append_keeps_the_master_valid(
    previous: Option<MasterV>,
    snap: SnapshotV,
    generated_at: TimeV,
    m: MasterV,
)
    requires
        previous matches Some(p) ==> master_valid(p, None) && recorded_before(p, snap.effective_from),
        snapshot_shaped(snap),
        appendable(previous, snap),
        appended(previous, snap, generated_at, m),
    ensures
        master_valid(m, previous),
        dated_within(m),
{
    let old = stations_of(previous);
    let n = old.len();
    let t = snap.effective_from;
    law_indices_are_permanent(previous, snap, generated_at, m);
    law_codes_stay_unique(previous, snap, generated_at, m);
    law_release_log_stays_ordered(previous, snap, generated_at, m);
    reveal(stepped);
    assert(m.releases.last().effective_from == t);
    assert forall|i: int| 0 <= i < m.stations.len() implies station_shaped(#[trigger] m.stations[i])
        && history_ok(m.stations[i]) && station_dated(m.stations[i], t) by {
        if i < n {
            let p = previous->Some_0;
            let st = old[i];
            assert(m.stations[i] == next_station(st, snap));
            assert(station_shaped(p.stations[i]) && history_ok(p.stations[i]));
            assert(station_before(p.stations[i], t));
            if listed(st, snap) {
                lemma_listed_entry(snap, st.code);
            }
            lemma_ready(st, snap);
            lemma_next_station_ok(st, snap);
        } else {
            let code = m.stations[i].code;
            let st = fresh_station(code);
            assert(m.stations[i] == next_station(st, snap));
            let added = codes_of(m.stations.skip(n as int));
            assert(added[i - n] == code);
            assert(added.contains(code));
            broadcast use vstd::seq_lib::group_to_multiset_ensures;
            assert(added.to_multiset().count(code) > 0);
            let unseen = unseen_codes(codes_of(old), snap);
            assert(unseen.contains(code));
            snap.codes().lemma_filter_contains_rev(unseen_pred(codes_of(old)), code);
            lemma_listed_entry(snap, code);
            lemma_fresh_ready(code, snap);
            lemma_next_station_ok(st, snap);
        }
    }
}

} // verus!
