//! What every release keeps true of a master.
//!
//! Each law is stated over the description of a release that
//! [`crate::append::append`] guarantees for the master it returns
//! ([`appended`]), so it holds of every master that function produces.

use vstd::prelude::*;

use crate::append::{
    after_entering, after_leaving, enter_one, entry_for, entry_index, leave_one,
    unresolved_in_scope_pred, unresolved_pred,
    append_outcome, appendable, appended, codes_of, distinct, first_repeat, fresh_station,
    next_station, refusal_fits, releases_of, reported, same_error, same_report, scopes_fit,
    stations_of, summary_fits, table_before, unseen_codes, unseen_pred, AppendError, AppendReport,
};
use crate::model::{
    active_at, revision_index_at, scope_state_at, LocationV, Master, Provider, Scope, ScopeEventV,
};
use crate::decimal::{lin3, zero_value, Kind};
use crate::location::law_same_point_reflexive;
use crate::order::texts;
use crate::input::SnapshotV;
use crate::model::{MasterV, StationV};
use crate::order::{lemma_text_lt_asymmetric, lemma_text_lt_total, text_le, texts_sorted};
use crate::time::TimeV;
use crate::validate::{mapping_kept, release_ids, releases_ok};

verus! {

/// Whether `after` is `before` with, at most, entries added to the end of
/// each of its histories.
pub open spec fn grown_from(before: StationV, after: StationV) -> bool {
    &&& after.code == before.code
    &&& before.lifecycle.is_prefix_of(after.lifecycle)
    &&& before.scope_events.is_prefix_of(after.scope_events)
    &&& before.metadata.is_prefix_of(after.metadata)
}

proof fn lemma_push_extends<A>(s: Seq<A>, x: A)
    ensures
        s.is_prefix_of(s.push(x)),
{
    assert(s =~= s.push(x).subrange(0, s.len() as int));
}

proof fn lemma_prefix_trans<A>(a: Seq<A>, b: Seq<A>, c: Seq<A>)
    requires
        a.is_prefix_of(b),
        b.is_prefix_of(c),
    ensures
        a.is_prefix_of(c),
{
    assert forall|k: int| 0 <= k < a.len() implies a[k] == c.subrange(0, a.len() as int)[k] by {
        assert(a[k] == b.subrange(0, a.len() as int)[k]);
        assert(b[k] == c.subrange(0, b.len() as int)[k]);
    }
    assert(a =~= c.subrange(0, a.len() as int));
}

/// A release only adds to the histories of a station.
proof fn lemma_next_station_grows(st: StationV, snap: SnapshotV)
    ensures
        grown_from(st, next_station(st, snap)),
{
    let t = snap.effective_from;
    let next = next_station(st, snap);
    assert(st.lifecycle.is_prefix_of(st.lifecycle)) by {
        assert(st.lifecycle =~= st.lifecycle.subrange(0, st.lifecycle.len() as int));
    }
    assert(st.metadata.is_prefix_of(st.metadata)) by {
        assert(st.metadata =~= st.metadata.subrange(0, st.metadata.len() as int));
    }
    assert(st.scope_events.is_prefix_of(st.scope_events)) by {
        assert(st.scope_events =~= st.scope_events.subrange(0, st.scope_events.len() as int));
    }
    if crate::append::listed(st, snap) {
        let entry = crate::append::entry_for(snap, st.code);
        if crate::append::lifecycle_changes(st.lifecycle, entry.active) {
            lemma_push_extends(
                st.lifecycle,
                crate::model::LifecycleV { effective_from: t, active: entry.active->Some_0 },
            );
        }
        if crate::append::metadata_changes(st.metadata, entry.metadata, t) {
            lemma_push_extends(
                st.metadata,
                crate::append::build_revision(
                    crate::append::last_revision(st.metadata),
                    entry.metadata,
                    t,
                ),
            );
        }
        let once = crate::append::enter_one(
            st.scope_events,
            entry.scopes,
            crate::model::Scope::PointSeismicIntensity,
            t,
        );
        if crate::append::enters(
            st.scope_events,
            entry.scopes,
            crate::model::Scope::PointSeismicIntensity,
            t,
        ) {
            lemma_push_extends(
                st.scope_events,
                crate::append::scope_event(t, crate::model::Scope::PointSeismicIntensity, true),
            );
        }
        assert(once.is_prefix_of(once)) by {
            assert(once =~= once.subrange(0, once.len() as int));
        }
        if crate::append::enters(
            once,
            entry.scopes,
            crate::model::Scope::LongPeriodSeismicIntensity,
            t,
        ) {
            lemma_push_extends(
                once,
                crate::append::scope_event(t, crate::model::Scope::LongPeriodSeismicIntensity, true),
            );
        }
        lemma_prefix_trans(st.scope_events, once, next.scope_events);
    } else {
        let once = crate::append::leave_one(
            st.scope_events,
            snap.complete_scopes,
            crate::model::Scope::PointSeismicIntensity,
            t,
        );
        if crate::append::leaves(
            st.scope_events,
            snap.complete_scopes,
            crate::model::Scope::PointSeismicIntensity,
            t,
        ) {
            lemma_push_extends(
                st.scope_events,
                crate::append::scope_event(t, crate::model::Scope::PointSeismicIntensity, false),
            );
        }
        assert(once.is_prefix_of(once)) by {
            assert(once =~= once.subrange(0, once.len() as int));
        }
        if crate::append::leaves(
            once,
            snap.complete_scopes,
            crate::model::Scope::LongPeriodSeismicIntensity,
            t,
        ) {
            lemma_push_extends(
                once,
                crate::append::scope_event(t, crate::model::Scope::LongPeriodSeismicIntensity, false),
            );
        }
        lemma_prefix_trans(st.scope_events, once, next.scope_events);
    }
}

/// An index, once assigned, keeps its station for good: a release keeps the
/// master's source kind, never shrinks the station table, and leaves the
/// code at every existing index where it was.
pub proof fn law_indices_are_permanent(
    previous: Option<MasterV>,
    snap: SnapshotV,
    generated_at: TimeV,
    m: MasterV,
)
    requires
        appendable(previous, snap),
        appended(previous, snap, generated_at, m),
    ensures
        mapping_kept(m, previous),
{
    if let Some(p) = previous {
        assert forall|i: int| 0 <= i < p.stations.len() implies (#[trigger] m.stations[i]).code
            == p.stations[i].code by {
            assert(m.stations[i] == next_station(stations_of(previous)[i], snap));
        }
    }
}

/// Nothing already written is revisited: every station of the previous table
/// keeps its code and each of its histories as a prefix of the new one, and
/// the release log gains exactly one entry at its end.
pub proof fn law_nothing_written_is_revisited(
    previous: Option<MasterV>,
    snap: SnapshotV,
    generated_at: TimeV,
    m: MasterV,
)
    requires
        appended(previous, snap, generated_at, m),
    ensures
        stations_of(previous).len() <= m.stations.len(),
        forall|i: int|
            0 <= i < stations_of(previous).len() ==> grown_from(
                stations_of(previous)[i],
                #[trigger] m.stations[i],
            ),
        releases_of(previous).is_prefix_of(m.releases),
        m.releases.len() == releases_of(previous).len() + 1,
{
    let old = stations_of(previous);
    assert forall|i: int| 0 <= i < old.len() implies grown_from(
        old[i],
        #[trigger] m.stations[i],
    ) by {
        lemma_next_station_grows(old[i], snap);
    }
    lemma_push_extends(releases_of(previous), m.releases.last());
    assert(m.releases =~= releases_of(previous).push(m.releases.last()));
}

/// A station that receives an index starts with exactly what the release
/// says of it: the histories of a fresh station after the release.
pub proof fn law_new_stations_start_fresh(
    previous: Option<MasterV>,
    snap: SnapshotV,
    generated_at: TimeV,
    m: MasterV,
)
    requires
        appended(previous, snap, generated_at, m),
    ensures
        forall|i: int|
            stations_of(previous).len() <= i < m.stations.len() ==> grown_from(
                fresh_station(m.stations[i].code),
                #[trigger] m.stations[i],
            ),
{
    assert forall|i: int| stations_of(previous).len() <= i < m.stations.len() implies grown_from(
        fresh_station(m.stations[i].code),
        #[trigger] m.stations[i],
    ) by {
        lemma_next_station_grows(fresh_station(m.stations[i].code), snap);
    }
}

/// The release log stays in order: when the previous log was in order, the
/// log after a release still has distinct ids, strictly increasing effective
/// times, and index counts that never shrink and never exceed the table.
pub proof fn law_release_log_stays_ordered(
    previous: Option<MasterV>,
    snap: SnapshotV,
    generated_at: TimeV,
    m: MasterV,
)
    requires
        previous matches Some(p) ==> releases_ok(p),
        appendable(previous, snap),
        appended(previous, snap, generated_at, m),
    ensures
        releases_ok(m),
{
    let old = releases_of(previous);
    let n = old.len();
    assert(m.releases.len() == n + 1);
    assert forall|k: int| 0 <= k < n implies #[trigger] m.releases[k] == old[k] by {
        assert(m.releases == old.push(m.releases[n as int]));
    }
    let ids = release_ids(m);
    assert forall|i: int, j: int| 0 <= i < j < ids.len() implies ids[i] != ids[j] by {
        if j == n {
            assert(!crate::append::id_recorded(previous, snap));
            assert(ids[j] == snap.release_id);
            assert(m.releases[i] == old[i]);
            if let Some(p) = previous {
                assert(p.releases[i].id != snap.release_id);
            }
        } else {
            if let Some(p) = previous {
                assert(release_ids(p)[i] != release_ids(p)[j]);
            }
        }
    }
    assert forall|k: int| 0 <= k < m.releases.len() implies (#[trigger] m.releases[k]).index_count
        <= m.stations.len() by {
        if k < n {
            if let Some(p) = previous {
                assert(p.releases[k].index_count <= p.stations.len());
            }
        }
    }
    assert forall|k: int| 0 <= k < m.releases.len() - 1 implies (#[trigger] m.releases[k]).effective_from.before(
        m.releases[k + 1].effective_from,
    ) by {
        if k + 1 == n {
            assert(!crate::append::not_newer(previous, snap));
            if let Some(p) = previous {
                assert(p.releases.last() == m.releases[k]);
            }
        }
    }
    assert forall|k: int| 0 <= k < m.releases.len() - 1 implies (#[trigger] m.releases[k]).index_count
        <= m.releases[k + 1].index_count by {
        if k + 1 == n {
            if let Some(p) = previous {
                assert(p.releases[k].index_count <= p.stations.len());
            }
        }
    }
}

proof fn lemma_filter_keeps_distinct(s: Seq<Seq<char>>, pred: spec_fn(Seq<char>) -> bool)
    requires
        distinct(s),
    ensures
        distinct(s.filter(pred)),
    decreases s.len(),
{
    broadcast use vstd::seq_lib::group_filter_ensures;

    if s.len() > 0 {
        let rest = s.drop_last();
        assert(distinct(rest));
        lemma_filter_keeps_distinct(rest, pred);
        assert(s.filter(pred) == if pred(s.last()) {
            rest.filter(pred).push(s.last())
        } else {
            rest.filter(pred)
        }) by {
            reveal(Seq::filter);
        }
        if pred(s.last()) {
            let f = rest.filter(pred);
            assert forall|i: int| 0 <= i < f.len() implies f[i] != s.last() by {
                assert(f.contains(f[i]));
                rest.lemma_filter_contains_rev(pred, f[i]);
                let k = choose|k: int| 0 <= k < rest.len() && rest[k] == f[i];
                assert(s[k] == rest[k]);
            }
        }
    }
}

/// Codes stay unique: when the previous table held each code once, so does
/// the table after a release, because only codes it did not hold are added,
/// each once.
pub proof fn law_codes_stay_unique(
    previous: Option<MasterV>,
    snap: SnapshotV,
    generated_at: TimeV,
    m: MasterV,
)
    requires
        distinct(codes_of(stations_of(previous))),
        appendable(previous, snap),
        appended(previous, snap, generated_at, m),
    ensures
        distinct(codes_of(m.stations)),
{
    broadcast use vstd::seq_lib::group_to_multiset_ensures;

    let old = stations_of(previous);
    let n = old.len() as int;
    let known = codes_of(old);
    let added = codes_of(m.stations.skip(n));
    let unseen = unseen_codes(known, snap);
    lemma_filter_keeps_distinct(snap.codes(), unseen_pred(known));
    unseen.lemma_multiset_has_no_duplicates();
    assert forall|x: Seq<char>| added.to_multiset().contains(x) implies added.to_multiset().count(
        x,
    ) == 1 by {}
    added.lemma_multiset_has_no_duplicates_conv();
    let all = codes_of(m.stations);
    assert forall|i: int, j: int| 0 <= i < j < all.len() implies all[i] != all[j] by {
        if j < n {
            assert(m.stations[i] == next_station(old[i], snap));
            assert(m.stations[j] == next_station(old[j], snap));
            assert(known[i] != known[j]);
        } else if i >= n {
            assert(added[i - n] == all[i]);
            assert(added[j - n] == all[j]);
        } else {
            assert(m.stations[i] == next_station(old[i], snap));
            assert(all[i] == known[i]);
            assert(added[j - n] == all[j]);
            assert(added.contains(all[j]));
            assert(added.to_multiset().count(all[j]) > 0);
            assert(unseen.contains(all[j]));
            snap.codes().lemma_filter_contains_rev(unseen_pred(known), all[j]);
            assert(!known.contains(all[j]));
        }
    }
}


/// Two sorted lists of texts holding the same texts are the same list.
proof fn lemma_sorted_unique(a: Seq<Seq<char>>, b: Seq<Seq<char>>)
    requires
        texts_sorted(a),
        texts_sorted(b),
        a.to_multiset() == b.to_multiset(),
    ensures
        a == b,
    decreases a.len(),
{
    broadcast use vstd::seq_lib::group_to_multiset_ensures;
    broadcast use vstd::multiset::group_multiset_axioms;

    assert(a.to_multiset().len() == a.len());
    assert(b.to_multiset().len() == b.len());
    if a.len() > 0 {
        let x = a.last();
        let y = b.last();
        assert(a.to_multiset().count(x) > 0);
        assert(b.contains(x));
        let i = choose|i: int| 0 <= i < b.len() && b[i] == x;
        assert(b.contains(y) && a.to_multiset().count(y) > 0);
        assert(a.contains(y));
        let j = choose|j: int| 0 <= j < a.len() && a[j] == y;
        if i < b.len() - 1 {
            assert(text_le(b[i], b[b.len() - 1]));
        }
        if j < a.len() - 1 {
            assert(text_le(a[j], a[a.len() - 1]));
        }
        lemma_text_lt_total(x, y);
        lemma_text_lt_asymmetric(x, y);
        assert(x == y);
        let a0 = a.drop_last();
        let b0 = b.drop_last();
        assert(a == a0.push(x));
        assert(b == b0.push(y));
        assert(a0.to_multiset() =~= a.to_multiset().remove(x));
        assert(b0.to_multiset() =~= b.to_multiset().remove(y));
        lemma_sorted_unique(a0, b0);
    }
}

/// Two masters that both fit the description of one release are the same.
proof fn lemma_appended_unique(
    previous: Option<MasterV>,
    snap: SnapshotV,
    generated_at: TimeV,
    m1: MasterV,
    m2: MasterV,
)
    requires
        appended(previous, snap, generated_at, m1),
        appended(previous, snap, generated_at, m2),
    ensures
        m1 == m2,
{
    let old = stations_of(previous);
    let n = old.len() as int;
    let a1 = codes_of(m1.stations.skip(n));
    let a2 = codes_of(m2.stations.skip(n));
    lemma_sorted_unique(a1, a2);
    assert(a1.len() == m1.stations.len() - n);
    assert(a2.len() == m2.stations.len() - n);
    assert(m1.stations.len() == m2.stations.len());
    assert forall|i: int| 0 <= i < m1.stations.len() implies m1.stations[i] == m2.stations[i] by {
        if i >= n {
            assert(a1[i - n] == m1.stations[i].code);
            assert(a2[i - n] == m2.stations[i].code);
        }
    }
    assert(m1.stations =~= m2.stations);
    assert(m1.releases =~= m2.releases);
}


/// The first repeated pair in a list of codes is one pair.
proof fn lemma_first_repeat_unique(c: Seq<Seq<char>>, i1: int, j1: int, i2: int, j2: int)
    requires
        first_repeat(c, i1, j1),
        first_repeat(c, i2, j2),
    ensures
        i1 == i2,
        j1 == j2,
{
    if j1 < j2 {
        assert(c.take(j2)[i1] == c.take(j2)[j1]);
    } else if j2 < j1 {
        assert(c.take(j1)[i2] == c.take(j1)[j2]);
    }
    if i1 < i2 {
        assert(c[i1] != c[j2]);
    } else if i2 < i1 {
        assert(c[i2] != c[j1]);
    }
}

/// Two reports that both state what one release did are the same report.
proof fn lemma_reported_unique(previous: Option<MasterV>, snap: SnapshotV, m: MasterV, a: AppendReport, b: AppendReport)
    requires
        reported(previous, snap, m, a),
        reported(previous, snap, m, b),
    ensures
        same_report(a, b),
{
    let before = table_before(previous, m);
    let sa = a.scopes@;
    let sb = b.scopes@;
    assert(sa.len() == sb.len());
    assert forall|i: int| 0 <= i < sa.len() implies {
        &&& (#[trigger] sa[i]).0 == sb[i].0
        &&& sa[i].1.enabled == sb[i].1.enabled
        &&& sa[i].1.disabled == sb[i].1.disabled
        &&& texts(sa[i].1.departed@) == texts(sb[i].1.departed@)
    } by {
        let p = crate::model::Scope::PointSeismicIntensity;
        let l = crate::model::Scope::LongPeriodSeismicIntensity;
        let scope = if i == 0 && crate::append::shows(before, snap, p) {
            p
        } else {
            l
        };
        assert(sa[i].0 == scope && sb[i].0 == scope);
        assert(summary_fits(sa[i].1, before, snap, scope));
        assert(summary_fits(sb[i].1, before, snap, scope));
        lemma_sorted_unique(texts(sa[i].1.departed@), texts(sb[i].1.departed@));
    }
}

/// A release is a function of its inputs: the same previous master,
/// snapshot and stamp give the same outcome, a master and a report that say
/// the same, or the same refusal.
pub proof fn law_append_is_deterministic(
    previous: Option<MasterV>,
    snap: SnapshotV,
    generated_at: TimeV,
    r1: Result<(Master, AppendReport), AppendError>,
    r2: Result<(Master, AppendReport), AppendError>,
)
    requires
        append_outcome(previous, snap, generated_at, r1),
        append_outcome(previous, snap, generated_at, r2),
    ensures
        match (r1, r2) {
            (Ok((m1, p1)), Ok((m2, p2))) => m1@ == m2@ && same_report(p1, p2),
            (Err(e1), Err(e2)) => same_error(e1, e2),
            _ => false,
        },
{
    match (r1, r2) {
        (Ok((m1, p1)), Ok((m2, p2))) => {
            lemma_appended_unique(previous, snap, generated_at, m1@, m2@);
            lemma_reported_unique(previous, snap, m1@, p1, p2);
        },
        (Err(e1), Err(e2)) => {
            assert(refusal_fits(e1, previous, snap));
            assert(refusal_fits(e2, previous, snap));
            match (e1, e2) {
                (
                    AppendError::DuplicateStationCode { first: f1, second: s1, .. },
                    AppendError::DuplicateStationCode { first: f2, second: s2, .. },
                ) => {
                    lemma_first_repeat_unique(snap.codes(), f1 - 1, s1 - 1, f2 - 1, s2 - 1);
                },
                (
                    AppendError::ReleaseAlreadyRecorded { id: i1, effective_from: t1 },
                    AppendError::ReleaseAlreadyRecorded { id: i2, effective_from: t2 },
                ) => {
                    let releases = previous->Some_0.releases;
                    let k1 = choose|k: int|
                        {
                            &&& 0 <= k < releases.len()
                            &&& releases[k].id == snap.release_id
                            &&& forall|l: int| 0 <= l < k ==> releases[l].id != snap.release_id
                            &&& i1@ == releases[k].id
                            &&& t1@ == releases[k].effective_from
                        };
                    let k2 = choose|k: int|
                        {
                            &&& 0 <= k < releases.len()
                            &&& releases[k].id == snap.release_id
                            &&& forall|l: int| 0 <= l < k ==> releases[l].id != snap.release_id
                            &&& i2@ == releases[k].id
                            &&& t2@ == releases[k].effective_from
                        };
                    assert(k1 == k2) by {
                        if k1 < k2 {
                            assert(releases[k1].id == snap.release_id);
                        } else if k2 < k1 {
                            assert(releases[k2].id == snap.release_id);
                        }
                    }
                },
                _ => {},
            }
        },
        _ => {},
    }
}

/// In a snapshot that names each code once, the entry `entry_for` finds for
/// a listed code is the one that carries it.
proof fn lemma_entry_at(snap: SnapshotV, j: int)
    requires
        distinct(snap.codes()),
        0 <= j < snap.stations.len(),
    ensures
        entry_for(snap, snap.stations[j].code) == snap.stations[j],
        snap.codes().contains(snap.stations[j].code),
{
    let code = snap.stations[j].code;
    assert(snap.codes()[j] == code);
    let i = entry_index(snap, code);
    assert(0 <= i < snap.stations.len() && snap.stations[i].code == code);
    if i != j {
        assert(snap.codes()[i] == snap.codes()[j]);
    }
}

/// Each station of the new master is a station the release started from
/// (one on record, or a fresh one for a new code), taken through the release.
proof fn lemma_station_source(
    previous: Option<MasterV>,
    snap: SnapshotV,
    generated_at: TimeV,
    m: MasterV,
    i: int,
) -> (st: StationV)
    requires
        appended(previous, snap, generated_at, m),
        0 <= i < m.stations.len(),
    ensures
        m.stations[i] == next_station(st, snap),
        st.code == m.stations[i].code,
        i < stations_of(previous).len() ==> st == stations_of(previous)[i],
{
    if i < stations_of(previous).len() {
        let st = stations_of(previous)[i];
        assert(m.stations[i] == next_station(st, snap));
        st
    } else {
        let st = fresh_station(m.stations[i].code);
        assert(m.stations[i] == next_station(st, snap));
        st
    }
}

/// A change of operator is recorded: when the snapshot names a known
/// operator for a station on record other than the one its latest revision
/// records, the release appends exactly one revision, taking effect at the
/// release and recording the new operator, and keeps the earlier ones.
pub proof fn law_a_new_operator_is_recorded(
    previous: Option<MasterV>,
    snap: SnapshotV,
    generated_at: TimeV,
    m: MasterV,
    i: int,
    j: int,
)
    requires
        appendable(previous, snap),
        appended(previous, snap, generated_at, m),
        0 <= i < stations_of(previous).len(),
        0 <= j < snap.stations.len(),
        snap.stations[j].code == stations_of(previous)[i].code,
        stations_of(previous)[i].metadata.len() > 0,
        snap.stations[j].metadata.provider != Provider::Unknown,
        snap.stations[j].metadata.provider != stations_of(previous)[i].metadata.last().provider,
    ensures
        m.stations[i].metadata.len() == stations_of(previous)[i].metadata.len() + 1,
        m.stations[i].metadata.drop_last() == stations_of(previous)[i].metadata,
        m.stations[i].metadata.last().provider == snap.stations[j].metadata.provider,
        m.stations[i].metadata.last().effective_from == snap.effective_from,
{
    let st = stations_of(previous)[i];
    lemma_entry_at(snap, j);
    assert(m.stations[i] == next_station(st, snap));
    assert(m.stations[i].metadata.drop_last() =~= st.metadata);
}

/// Entering a scope the entry vouches for leaves the station in it at the
/// release, whatever it was before.
proof fn lemma_enter_enables(events: Seq<ScopeEventV>, scopes: Seq<Scope>, scope: Scope, t: TimeV)
    requires
        scopes.contains(scope),
    ensures
        scope_state_at(enter_one(events, scopes, scope, t), scope, t) == Some(true),
{
    let after = enter_one(events, scopes, scope, t);
    if after != events {
        assert(after.last().scope == scope && after.last().enabled);
    }
}

/// Entering another scope leaves a scope's state as it was.
proof fn lemma_enter_other_keeps(
    events: Seq<ScopeEventV>,
    scopes: Seq<Scope>,
    scope: Scope,
    other: Scope,
    t: TimeV,
)
    requires
        scope != other,
    ensures
        scope_state_at(enter_one(events, scopes, other, t), scope, t) == scope_state_at(events, scope, t),
{
    let after = enter_one(events, scopes, other, t);
    if after != events {
        assert(after.drop_last() =~= events);
    }
}

/// A station the snapshot vouches for in a scope is in that scope at the
/// release: one never in it enters, one in it stays, and one that had left
/// it comes back.
pub proof fn law_vouched_scopes_are_enabled(
    previous: Option<MasterV>,
    snap: SnapshotV,
    generated_at: TimeV,
    m: MasterV,
    i: int,
    j: int,
    scope: Scope,
)
    requires
        appendable(previous, snap),
        appended(previous, snap, generated_at, m),
        0 <= i < m.stations.len(),
        0 <= j < snap.stations.len(),
        snap.stations[j].code == m.stations[i].code,
        snap.stations[j].scopes.contains(scope),
    ensures
        scope_state_at(m.stations[i].scope_events, scope, snap.effective_from) == Some(true),
{
    let t = snap.effective_from;
    let st = lemma_station_source(previous, snap, generated_at, m, i);
    lemma_entry_at(snap, j);
    let scopes = snap.stations[j].scopes;
    assert(m.stations[i].scope_events == after_entering(st.scope_events, scopes, t));
    let p = Scope::PointSeismicIntensity;
    let l = Scope::LongPeriodSeismicIntensity;
    let first = enter_one(st.scope_events, scopes, p, t);
    if scope == p {
        lemma_enter_enables(st.scope_events, scopes, p, t);
        lemma_enter_other_keeps(first, scopes, p, l, t);
    } else {
        lemma_enter_enables(first, scopes, l, t);
    }
}

/// The report's count of unresolved stations is the number of stations of
/// the new master that are active at the release and whose metadata in
/// force then records no location; a station that is not active then, or
/// that has a location, is never counted. The in-scope figure, when given,
/// counts those of them that are in the PointSeismicIntensity scope then.
pub proof fn law_unresolved_are_active_stations_without_a_location(
    previous: Option<MasterV>,
    snap: SnapshotV,
    m: MasterV,
    report: AppendReport,
)
    requires
        reported(previous, snap, m, report),
    ensures
        report.unresolved_active == m.stations.filter(
            |st: StationV|
                active_at(st.lifecycle, snap.effective_from) == Some(true) && match revision_index_at(
                    st.metadata,
                    snap.effective_from,
                ) {
                    Some(k) => st.metadata[k].location is None,
                    None => false,
                },
        ).len(),
        report.unresolved_in_scope matches Some(n) ==> n == m.stations.filter(
            |st: StationV|
                active_at(st.lifecycle, snap.effective_from) == Some(true) && match revision_index_at(
                    st.metadata,
                    snap.effective_from,
                ) {
                    Some(k) => st.metadata[k].location is None,
                    None => false,
                } && scope_state_at(st.scope_events, Scope::PointSeismicIntensity, snap.effective_from)
                    == Some(true),
        ).len(),
{
    let t = snap.effective_from;
    let f = |st: StationV|
        active_at(st.lifecycle, t) == Some(true) && match revision_index_at(st.metadata, t) {
            Some(k) => st.metadata[k].location is None,
            None => false,
        };
    let g = |st: StationV|
        active_at(st.lifecycle, t) == Some(true) && match revision_index_at(st.metadata, t) {
            Some(k) => st.metadata[k].location is None,
            None => false,
        } && scope_state_at(st.scope_events, Scope::PointSeismicIntensity, t) == Some(true);
    assert(unresolved_pred(t) =~= f);
    assert(unresolved_in_scope_pred(t) =~= g);
}

/// A station the snapshot lists takes the lifecycle state the entry gives,
/// at the release (for a station on record whose lifecycle does not reach
/// past the release); an entry that says nothing leaves the lifecycle as it
/// was.
pub proof fn law_listed_stations_take_the_stated_lifecycle(
    previous: Option<MasterV>,
    snap: SnapshotV,
    generated_at: TimeV,
    m: MasterV,
    i: int,
    j: int,
)
    requires
        appendable(previous, snap),
        appended(previous, snap, generated_at, m),
        0 <= i < m.stations.len(),
        0 <= j < snap.stations.len(),
        snap.stations[j].code == m.stations[i].code,
        i < stations_of(previous).len() && stations_of(previous)[i].lifecycle.len() > 0
            ==> stations_of(previous)[i].lifecycle.last().effective_from.not_after(snap.effective_from),
    ensures
        snap.stations[j].active matches Some(a) ==> active_at(
            m.stations[i].lifecycle,
            snap.effective_from,
        ) == Some(a),
        snap.stations[j].active is None && i < stations_of(previous).len() ==> m.stations[i].lifecycle
            == stations_of(previous)[i].lifecycle,
{
    let st = lemma_station_source(previous, snap, generated_at, m, i);
    lemma_entry_at(snap, j);
    let after = m.stations[i].lifecycle;
    if after != st.lifecycle {
        assert(after.last().effective_from == snap.effective_from);
    } else if st.lifecycle.len() > 0 {
        assert(st.lifecycle.last().effective_from.not_after(snap.effective_from));
    }
}

/// Leaving a scope the snapshot enumerates leaves the station out of it at
/// the release.
proof fn lemma_leave_disables(events: Seq<ScopeEventV>, complete: Seq<Scope>, scope: Scope, t: TimeV)
    ensures
        complete.contains(scope) ==> scope_state_at(leave_one(events, complete, scope, t), scope, t)
            != Some(true),
{
    let after = leave_one(events, complete, scope, t);
    if after != events {
        assert(after.last().scope == scope && !after.last().enabled);
    }
}

/// Leaving another scope leaves a scope's state as it was.
proof fn lemma_leave_other_keeps(
    events: Seq<ScopeEventV>,
    complete: Seq<Scope>,
    scope: Scope,
    other: Scope,
    t: TimeV,
)
    requires
        scope != other,
    ensures
        scope_state_at(leave_one(events, complete, other, t), scope, t) == scope_state_at(
            events,
            scope,
            t,
        ),
{
    let after = leave_one(events, complete, other, t);
    if after != events {
        assert(after.drop_last() =~= events);
    }
}

/// A station the snapshot does not list is out of every scope the snapshot
/// enumerates, at the release; its lifecycle and metadata are as they were.
pub proof fn law_unlisted_stations_leave_enumerated_scopes(
    previous: Option<MasterV>,
    snap: SnapshotV,
    generated_at: TimeV,
    m: MasterV,
    i: int,
    scope: Scope,
)
    requires
        appended(previous, snap, generated_at, m),
        0 <= i < stations_of(previous).len(),
        !snap.codes().contains(stations_of(previous)[i].code),
    ensures
        snap.complete_scopes.contains(scope) ==> scope_state_at(
            m.stations[i].scope_events,
            scope,
            snap.effective_from,
        ) != Some(true),
        m.stations[i].lifecycle == stations_of(previous)[i].lifecycle,
        m.stations[i].metadata == stations_of(previous)[i].metadata,
{
    let t = snap.effective_from;
    let st = stations_of(previous)[i];
    assert(m.stations[i] == next_station(st, snap));
    let c = snap.complete_scopes;
    let p = Scope::PointSeismicIntensity;
    let l = Scope::LongPeriodSeismicIntensity;
    let first = leave_one(st.scope_events, c, p, t);
    assert(m.stations[i].scope_events == leave_one(first, c, l, t));
    if scope == p {
        lemma_leave_disables(st.scope_events, c, p, t);
        lemma_leave_other_keeps(first, c, p, l, t);
    } else {
        lemma_leave_disables(first, c, l, t);
    }
}

/// A release that changes what is known of a station on record, its name,
/// kana, region, city, or (when the snapshot names one) its operator or the
/// operator's wording, appends exactly one revision, taking effect at the
/// release, that records the entry's name, kana, region and city, and keeps
/// the earlier revisions.
pub proof fn law_changed_metadata_is_recorded(
    previous: Option<MasterV>,
    snap: SnapshotV,
    generated_at: TimeV,
    m: MasterV,
    i: int,
    j: int,
)
    requires
        appendable(previous, snap),
        appended(previous, snap, generated_at, m),
        0 <= i < stations_of(previous).len(),
        0 <= j < snap.stations.len(),
        snap.stations[j].code == stations_of(previous)[i].code,
        stations_of(previous)[i].metadata.len() > 0,
        ({
            let base = stations_of(previous)[i].metadata.last();
            let e = snap.stations[j].metadata;
            ||| e.name != base.name
            ||| e.kana != base.kana
            ||| e.region != base.region
            ||| e.city != base.city
            ||| (e.provider != Provider::Unknown && e.provider != base.provider)
            ||| (e.provider_detail is Some && e.provider_detail != base.provider_detail)
        }),
    ensures
        m.stations[i].metadata.len() == stations_of(previous)[i].metadata.len() + 1,
        m.stations[i].metadata.drop_last() == stations_of(previous)[i].metadata,
        m.stations[i].metadata.last().effective_from == snap.effective_from,
        m.stations[i].metadata.last().name == snap.stations[j].metadata.name,
        m.stations[i].metadata.last().kana == snap.stations[j].metadata.kana,
        m.stations[i].metadata.last().region == snap.stations[j].metadata.region,
        m.stations[i].metadata.last().city == snap.stations[j].metadata.city,
{
    let st = stations_of(previous)[i];
    lemma_entry_at(snap, j);
    assert(m.stations[i] == next_station(st, snap));
    assert(m.stations[i].metadata.drop_last() =~= st.metadata);
}

/// A release that says of a station on record exactly what its latest
/// revision says (the same name, kana, region, city, operator and wording,
/// and the same well-formed coordinate or none) writes no revision.
pub proof fn law_unchanged_metadata_is_not_revised(
    previous: Option<MasterV>,
    snap: SnapshotV,
    generated_at: TimeV,
    m: MasterV,
    i: int,
    j: int,
)
    requires
        appendable(previous, snap),
        appended(previous, snap, generated_at, m),
        0 <= i < stations_of(previous).len(),
        0 <= j < snap.stations.len(),
        snap.stations[j].code == stations_of(previous)[i].code,
        stations_of(previous)[i].metadata.len() > 0,
        ({
            let base = stations_of(previous)[i].metadata.last();
            let e = snap.stations[j].metadata;
            &&& e.name == base.name
            &&& e.kana == base.kana
            &&& e.region == base.region
            &&& e.city == base.city
            &&& e.provider == base.provider
            &&& e.provider_detail == base.provider_detail
            &&& e.location == base.location
            &&& (e.location matches Some(l) ==> {
                &&& l.latitude.kind == Kind::Finite
                &&& l.longitude.kind == Kind::Finite
                &&& l.resolution_deg.kind == Kind::Finite
                &&& lin3(1, l.resolution_deg, 0, zero_value(), 0, zero_value()) > 0
            })
        }),
    ensures
        m.stations[i].metadata == stations_of(previous)[i].metadata,
{
    let st = stations_of(previous)[i];
    lemma_entry_at(snap, j);
    assert(m.stations[i] == next_station(st, snap));
    match snap.stations[j].metadata.location {
        Some(l) => law_same_point_reflexive(l),
        None => {},
    }
}
/// The report's table figures add up: the stations on record plus those
/// appended make the new table, the appended ones and those the snapshot
/// listed that were on record make the snapshot, and the report names the
/// release, its time and its source.
pub proof fn law_report_figures_add_up(
    previous: Option<MasterV>,
    snap: SnapshotV,
    generated_at: TimeV,
    m: MasterV,
    report: AppendReport,
)
    requires
        appended(previous, snap, generated_at, m),
        reported(previous, snap, m, report),
    ensures
        report.stations_total == m.stations.len(),
        stations_of(previous).len() + report.stations_appended == m.stations.len(),
        report.stations_existing + report.stations_appended == snap.stations.len(),
        report.release_id@ == snap.release_id,
        report.effective_from@ == snap.effective_from,
        report.source_kind == snap.source_kind,
{
}

} // verus!
