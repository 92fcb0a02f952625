//! Structural checks on a master.
//!
//! These are errors, never warnings. A master that violates any of them is
//! not a weaker master, it is one whose indices can no longer be trusted, and
//! every consumer downstream has already been told those indices are
//! permanent.

use vstd::prelude::*;

use crate::append::{codes_of, distinct};
use crate::code::CodeShape;
use crate::decimal::{decimal_text, finite_positive, ninety_value, one_eighty_value, within, Decimal};
use crate::model::{
    Location, LocationV, Master, MasterV, MetadataRevision, RevisionV, Scope, ScopeEvent, ScopeEventV,
    Station, StationV, SCHEMA_VERSION,
};
use crate::text::{debug_quoted, nat_text, quoted, usize_text};

verus! {

#[derive(Debug, Clone)]
pub struct ValidationError {
    pub message: String,
}

/// All violations found, so one run surfaces every problem rather than the
/// first.
#[derive(Debug, Clone)]
pub struct ValidationErrors(pub Vec<ValidationError>);

impl ValidationErrors {
    /// `N validation error(s):` on a line of its own, then each error on an
    /// indented line.
    pub open spec fn spec_text(&self) -> Seq<char> {
        crate::text::nat_text(self.0@.len()) + " validation error(s):\n"@ + errors_text(self.0@)
    }

    /// The errors as the operator reads them.
    pub fn to_text(&self) -> (s: String)
        ensures
            s@ == self.spec_text(),
    {
        let mut s = usize_text(self.0.len());
        s.append(" validation error(s):\n");
        let ghost head = s@;
        let mut i: usize = 0;
        while i < self.0.len()
            invariant
                i <= self.0@.len(),
                s@ == head + errors_text(self.0@.take(i as int)),
            decreases self.0@.len() - i,
        {
            assert(self.0@.take(i + 1).drop_last() =~= self.0@.take(i as int));
            s.append("  ");
            s.append(self.0[i].message.as_str());
            s.append("\n");
            assert(s@ =~= head + errors_text(self.0@.take(i + 1)));
            i = i + 1;
        }
        assert(self.0@.take(i as int) =~= self.0@);
        s
    }
}

/// Each error's message on its own line, indented by two spaces.
pub open spec fn errors_text(errors: Seq<ValidationError>) -> Seq<char>
    decreases errors.len(),
{
    if errors.len() == 0 {
        Seq::empty()
    } else {
        errors_text(errors.drop_last()) + "  "@ + errors.last().message@ + "\n"@
    }
}

// ---------------------------------------------------------------------------
// What a valid master is.
// ---------------------------------------------------------------------------

/// The region and city codes of a revision have their shapes.
pub open spec fn revision_shaped(r: RevisionV) -> bool {
    &&& (r.region matches Some(a) ==> CodeShape::Region.spec_accepts(a.code))
    &&& (r.city matches Some(a) ==> CodeShape::City.spec_accepts(a.code))
}

/// A station's code, and the codes in every revision, have their shapes.
pub open spec fn station_shaped(st: StationV) -> bool {
    &&& CodeShape::Point.spec_accepts(st.code)
    &&& forall|k: int| 0 <= k < st.metadata.len() ==> revision_shaped(#[trigger] st.metadata[k])
}

/// Latitude in -90..=90, longitude in -180..=180, a positive resolution.
pub open spec fn location_in_range(l: LocationV) -> bool {
    &&& within(l.latitude, ninety_value())
    &&& within(l.longitude, one_eighty_value())
    &&& finite_positive(l.resolution_deg)
}

/// `b` does not sort before `a` by effective time, then scope.
pub open spec fn scope_events_ordered(a: ScopeEventV, b: ScopeEventV) -> bool {
    !(b.effective_from.before(a.effective_from) || (b.effective_from.same_instant(a.effective_from)
        && b.scope.rank() < a.scope.rank()))
}

/// The events for one scope.
pub open spec fn events_for(events: Seq<ScopeEventV>, scope: Scope) -> Seq<ScopeEventV> {
    events.filter(scope_is(scope))
}

/// Events of `scope`.
pub open spec fn scope_is(scope: Scope) -> spec_fn(ScopeEventV) -> bool {
    |e: ScopeEventV| e.scope == scope
}

/// Consecutive events of one scope's timeline are at different instants and
/// each marks a change.
pub open spec fn timeline_ok(timeline: Seq<ScopeEventV>) -> bool {
    forall|k: int|
        0 <= k < timeline.len() - 1 ==> timeline_step_ok(#[trigger] timeline[k], timeline[k + 1])
}

/// Revisions in strictly increasing order of effective time.
pub open spec fn revisions_ordered(st: StationV) -> bool {
    forall|k: int|
        0 <= k < st.metadata.len() - 1 ==> (#[trigger] st.metadata[k]).effective_from.before(
            st.metadata[k + 1].effective_from,
        )
}

/// Every recorded location is within range.
pub open spec fn locations_ok(st: StationV) -> bool {
    forall|k: int|
        0 <= k < st.metadata.len() ==> ((#[trigger] st.metadata[k]).location matches Some(l)
            ==> location_in_range(l))
}

/// Lifecycle events in strictly increasing order of effective time.
pub open spec fn lifecycle_ordered(st: StationV) -> bool {
    forall|k: int|
        0 <= k < st.lifecycle.len() - 1 ==> (#[trigger] st.lifecycle[k]).effective_from.before(
            st.lifecycle[k + 1].effective_from,
        )
}

/// Scope events in order of effective time, then scope.
pub open spec fn scope_events_sorted(st: StationV) -> bool {
    forall|k: int|
        0 <= k < st.scope_events.len() - 1 ==> scope_events_ordered(
            #[trigger] st.scope_events[k],
            st.scope_events[k + 1],
        )
}

/// A station's histories are well formed.
#[verifier::opaque]
pub open spec fn history_ok(st: StationV) -> bool {
    &&& st.metadata.len() > 0
    &&& revisions_ordered(st)
    &&& locations_ok(st)
    &&& lifecycle_ordered(st)
    &&& scope_events_sorted(st)
    &&& timeline_ok(events_for(st.scope_events, Scope::PointSeismicIntensity))
    &&& timeline_ok(events_for(st.scope_events, Scope::LongPeriodSeismicIntensity))
}

/// The ids of the releases, in order.
pub open spec fn release_ids(m: MasterV) -> Seq<Seq<char>> {
    m.releases.map_values(|r: crate::model::ReleaseV| r.id)
}

/// Releases have distinct ids, index counts within the table, strictly
/// increasing effective times and index counts that never shrink.
pub open spec fn releases_ok(m: MasterV) -> bool {
    &&& distinct(release_ids(m))
    &&& forall|k: int|
        0 <= k < m.releases.len() ==> (#[trigger] m.releases[k]).index_count <= m.stations.len()
    &&& forall|k: int|
        0 <= k < m.releases.len() - 1 ==> (#[trigger] m.releases[k]).effective_from.before(
            m.releases[k + 1].effective_from,
        )
    &&& forall|k: int|
        0 <= k < m.releases.len() - 1 ==> (#[trigger] m.releases[k]).index_count
            <= m.releases[k + 1].index_count
}

/// An existing index still means the same station: same source kind, the
/// table did not shrink, and every earlier index holds the same code.
pub open spec fn mapping_kept(m: MasterV, previous: Option<MasterV>) -> bool {
    match previous {
        None => true,
        Some(p) => {
            &&& p.source_kind == m.source_kind
            &&& p.stations.len() <= m.stations.len()
            &&& forall|i: int|
                0 <= i < p.stations.len() ==> (#[trigger] m.stations[i]).code == p.stations[i].code
        },
    }
}

/// Every structural guarantee a published master holds.
pub open spec fn master_valid(m: MasterV, previous: Option<MasterV>) -> bool {
    &&& m.schema_version == SCHEMA_VERSION
    &&& distinct(codes_of(m.stations))
    &&& forall|i: int| 0 <= i < m.stations.len() ==> station_shaped(#[trigger] m.stations[i])
    &&& mapping_kept(m, previous)
    &&& releases_ok(m)
    &&& forall|i: int| 0 <= i < m.stations.len() ==> history_ok(#[trigger] m.stations[i])
}

// ---------------------------------------------------------------------------
// What validation reports.
// ---------------------------------------------------------------------------

/// The messages of a list of errors.
pub open spec fn messages(errors: Seq<ValidationError>) -> Seq<Seq<char>> {
    errors.map_values(|e: ValidationError| e.message@)
}

/// A message about the station with `code` at `index`.
pub open spec fn at_text(code: Seq<char>, index: int, what: Seq<char>) -> Seq<char> {
    "station "@ + debug_quoted(code) + " (index "@ + nat_text(index as nat) + ") "@ + what
}

/// One message when `bad`, none otherwise.
pub open spec fn when(bad: bool, message: Seq<char>) -> Seq<Seq<char>> {
    if bad {
        seq![message]
    } else {
        Seq::empty()
    }
}

/// How many adjacent pairs a list of `n` entries has.
pub open spec fn pairs(n: int) -> int {
    if n > 0 {
        n - 1
    } else {
        0
    }
}

pub open spec fn schema_messages(m: MasterV) -> Seq<Seq<char>> {
    when(
        m.schema_version != SCHEMA_VERSION,
        "schema_version is "@ + nat_text(m.schema_version) + " but this tool writes 1"@,
    )
}

/// The latest position before `i` that holds what position `j` holds.
pub open spec fn latest_before(s: Seq<Seq<char>>, j: int, i: int) -> Option<int>
    decreases i,
{
    if i <= 0 {
        None
    } else if s[i - 1] == s[j] {
        Some(i - 1)
    } else {
        latest_before(s, j, i - 1)
    }
}

/// For each of the first `upto` codes that an earlier one repeats, the
/// message naming it and the latest earlier index.
pub open spec fn code_repeat_messages(codes: Seq<Seq<char>>, upto: int) -> Seq<Seq<char>>
    decreases upto,
{
    if upto <= 0 {
        Seq::empty()
    } else {
        code_repeat_messages(codes, upto - 1) + match latest_before(codes, upto - 1, upto - 1) {
            Some(first) => seq![
                "station code "@ + debug_quoted(codes[upto - 1]) + " appears at index "@ + nat_text(
                    first as nat,
                ) + " and index "@ + nat_text((upto - 1) as nat),
            ],
            None => Seq::empty(),
        }
    }
}

/// The message for a revision's code of the wrong shape.
pub open spec fn revision_code_message(code: Seq<char>, index: int, r: RevisionV, shape: CodeShape, value: Seq<char>) -> Seq<char> {
    at_text(
        code,
        index,
        "has, in the revision effective "@ + r.effective_from.rfc3339 + ", "@ + shape.spec_violation(
            value,
        ),
    )
}

pub open spec fn revision_shape_messages(code: Seq<char>, index: int, r: RevisionV) -> Seq<Seq<char>> {
    (match r.region {
        Some(a) => when(
            !CodeShape::Region.spec_accepts(a.code),
            revision_code_message(code, index, r, CodeShape::Region, a.code),
        ),
        None => Seq::empty(),
    }) + (match r.city {
        Some(a) => when(
            !CodeShape::City.spec_accepts(a.code),
            revision_code_message(code, index, r, CodeShape::City, a.code),
        ),
        None => Seq::empty(),
    })
}

pub open spec fn revisions_shape_messages(code: Seq<char>, index: int, revisions: Seq<RevisionV>, upto: int) -> Seq<Seq<char>>
    decreases upto,
{
    if upto <= 0 {
        Seq::empty()
    } else {
        revisions_shape_messages(code, index, revisions, upto - 1) + revision_shape_messages(
            code,
            index,
            revisions[upto - 1],
        )
    }
}

pub open spec fn station_shape_messages(st: StationV, index: int) -> Seq<Seq<char>> {
    when(
        !CodeShape::Point.spec_accepts(st.code),
        "index "@ + nat_text(index as nat) + ": "@ + CodeShape::Point.spec_violation(st.code),
    ) + revisions_shape_messages(st.code, index, st.metadata, st.metadata.len() as int)
}

pub open spec fn shape_messages(stations: Seq<StationV>, upto: int) -> Seq<Seq<char>>
    decreases upto,
{
    if upto <= 0 {
        Seq::empty()
    } else {
        shape_messages(stations, upto - 1) + station_shape_messages(stations[upto - 1], upto - 1)
    }
}

/// For each of the first `upto` indices of `p`: a message when `m` holds
/// another code there, or holds nothing.
pub open spec fn index_messages(m: MasterV, p: MasterV, upto: int) -> Seq<Seq<char>>
    decreases upto,
{
    if upto <= 0 {
        Seq::empty()
    } else {
        let l = upto - 1;
        index_messages(m, p, l) + if l < m.stations.len() {
            when(
                m.stations[l].code != p.stations[l].code,
                "index "@ + nat_text(l as nat) + " changed from "@ + debug_quoted(p.stations[l].code)
                    + " to "@ + debug_quoted(m.stations[l].code) + "; assigned indices are permanent"@,
            )
        } else {
            seq![
                "index "@ + nat_text(l as nat) + " ("@ + debug_quoted(p.stations[l].code)
                    + ") is missing; stations are never removed"@,
            ]
        }
    }
}

pub open spec fn mapping_messages(m: MasterV, previous: Option<MasterV>) -> Seq<Seq<char>> {
    match previous {
        None => Seq::empty(),
        Some(p) => when(
            m.source_kind != p.source_kind,
            "source_kind changed from "@ + p.source_kind.spec_str() + " to "@
                + m.source_kind.spec_str(),
        ) + when(
            m.stations.len() < p.stations.len(),
            "station table shrank from "@ + nat_text(p.stations.len()) + " to "@ + nat_text(
                m.stations.len(),
            ) + " entries; stations are never removed"@,
        ) + index_messages(m, p, p.stations.len() as int),
    }
}

/// For each of the first `upto` releases: a message when an earlier release
/// has its id, then one when its index count exceeds the table.
pub open spec fn release_entry_messages(m: MasterV, upto: int) -> Seq<Seq<char>>
    decreases upto,
{
    if upto <= 0 {
        Seq::empty()
    } else {
        let j = upto - 1;
        let r = m.releases[j];
        release_entry_messages(m, j) + match latest_before(release_ids(m), j, j) {
            Some(first) => seq![
                "release id "@ + debug_quoted(r.id) + " appears at positions "@ + nat_text(
                    first as nat,
                ) + " and "@ + nat_text(j as nat),
            ],
            None => Seq::empty(),
        } + when(
            r.index_count > m.stations.len(),
            "release "@ + debug_quoted(r.id) + " has index_count "@ + nat_text(r.index_count)
                + " but the station table holds "@ + nat_text(m.stations.len()) + " entries"@,
        )
    }
}

/// For each of the first `upto` adjacent pairs of releases: a message when
/// the later is not strictly later, then one when its index count shrank.
pub open spec fn release_pair_messages(m: MasterV, upto: int) -> Seq<Seq<char>>
    decreases upto,
{
    if upto <= 0 {
        Seq::empty()
    } else {
        let k = upto - 1;
        let before = m.releases[k];
        let after = m.releases[k + 1];
        release_pair_messages(m, k) + when(
            !before.effective_from.before(after.effective_from),
            "release "@ + debug_quoted(after.id) + " ("@ + after.effective_from.rfc3339
                + ") does not come after release "@ + debug_quoted(before.id) + " ("@
                + before.effective_from.rfc3339 + ")"@,
        ) + when(
            after.index_count < before.index_count,
            "release "@ + debug_quoted(after.id) + " has index_count "@ + nat_text(
                after.index_count,
            ) + ", below release "@ + debug_quoted(before.id) + "'s "@ + nat_text(
                before.index_count,
            ) + "; the index space never shrinks"@,
        )
    }
}

pub open spec fn release_messages(m: MasterV) -> Seq<Seq<char>> {
    release_entry_messages(m, m.releases.len() as int) + release_pair_messages(
        m,
        pairs(m.releases.len() as int),
    )
}

/// For each of the first `upto` adjacent pairs of revisions: a message when
/// the later does not take effect strictly later.
pub open spec fn revision_order_messages(st: StationV, index: int, upto: int) -> Seq<Seq<char>>
    decreases upto,
{
    if upto <= 0 {
        Seq::empty()
    } else {
        let k = upto - 1;
        revision_order_messages(st, index, k) + when(
            !st.metadata[k].effective_from.before(st.metadata[k + 1].effective_from),
            at_text(
                st.code,
                index,
                "has metadata revisions out of order or duplicated at "@
                    + st.metadata[k + 1].effective_from.rfc3339,
            ),
        )
    }
}

/// The messages for a coordinate out of range.
pub open spec fn location_messages(code: Seq<char>, index: int, l: LocationV) -> Seq<Seq<char>> {
    when(
        !within(l.latitude, ninety_value()),
        at_text(code, index, "has latitude "@ + decimal_text(l.latitude) + " outside -90..=90"@),
    ) + when(
        !within(l.longitude, one_eighty_value()),
        at_text(code, index, "has longitude "@ + decimal_text(l.longitude) + " outside -180..=180"@),
    ) + when(
        !finite_positive(l.resolution_deg),
        at_text(
            code,
            index,
            "has resolution_deg "@ + decimal_text(l.resolution_deg)
                + ", which must be finite and positive"@,
        ),
    )
}

pub open spec fn locations_messages(st: StationV, index: int, upto: int) -> Seq<Seq<char>>
    decreases upto,
{
    if upto <= 0 {
        Seq::empty()
    } else {
        locations_messages(st, index, upto - 1) + match st.metadata[upto - 1].location {
            Some(l) => location_messages(st.code, index, l),
            None => Seq::empty(),
        }
    }
}

pub open spec fn lifecycle_order_messages(st: StationV, index: int, upto: int) -> Seq<Seq<char>>
    decreases upto,
{
    if upto <= 0 {
        Seq::empty()
    } else {
        let k = upto - 1;
        lifecycle_order_messages(st, index, k) + when(
            !st.lifecycle[k].effective_from.before(st.lifecycle[k + 1].effective_from),
            at_text(
                st.code,
                index,
                "has lifecycle events out of order or duplicated at "@
                    + st.lifecycle[k + 1].effective_from.rfc3339,
            ),
        )
    }
}

pub open spec fn scope_order_messages(st: StationV, index: int, upto: int) -> Seq<Seq<char>>
    decreases upto,
{
    if upto <= 0 {
        Seq::empty()
    } else {
        let k = upto - 1;
        scope_order_messages(st, index, k) + when(
            !scope_events_ordered(st.scope_events[k], st.scope_events[k + 1]),
            at_text(
                st.code,
                index,
                "has scope events out of order at "@ + st.scope_events[k + 1].effective_from.rfc3339,
            ),
        )
    }
}

/// The messages for two consecutive events of one scope's timeline: at one
/// instant, or not marking a change.
pub open spec fn timeline_pair_messages(code: Seq<char>, index: int, scope: Scope, a: ScopeEventV, b: ScopeEventV) -> Seq<Seq<char>> {
    when(
        b.effective_from.same_instant(a.effective_from),
        at_text(
            code,
            index,
            "has two `"@ + scope.spec_str() + "` scope events at "@ + b.effective_from.rfc3339,
        ),
    ) + when(
        b.enabled == a.enabled,
        at_text(
            code,
            index,
            "records `"@ + scope.spec_str() + "` as "@ + (if b.enabled {
                "true"@
            } else {
                "false"@
            }) + " twice in a row at "@ + b.effective_from.rfc3339 + "; an event must mark a change"@,
        ),
    )
}

pub open spec fn timeline_messages(code: Seq<char>, index: int, scope: Scope, f: Seq<ScopeEventV>) -> Seq<Seq<char>>
    decreases f.len(),
{
    if f.len() < 2 {
        Seq::empty()
    } else {
        timeline_messages(code, index, scope, f.drop_last()) + timeline_pair_messages(
            code,
            index,
            scope,
            f[f.len() - 2],
            f.last(),
        )
    }
}

pub open spec fn station_history_messages(st: StationV, index: int) -> Seq<Seq<char>> {
    when(st.metadata.len() == 0, at_text(st.code, index, "has no metadata revision"@))
        + revision_order_messages(st, index, pairs(st.metadata.len() as int)) + locations_messages(
        st,
        index,
        st.metadata.len() as int,
    ) + lifecycle_order_messages(st, index, pairs(st.lifecycle.len() as int))
        + scope_order_messages(st, index, pairs(st.scope_events.len() as int)) + timeline_messages(
        st.code,
        index,
        Scope::PointSeismicIntensity,
        events_for(st.scope_events, Scope::PointSeismicIntensity),
    ) + timeline_messages(
        st.code,
        index,
        Scope::LongPeriodSeismicIntensity,
        events_for(st.scope_events, Scope::LongPeriodSeismicIntensity),
    )
}

pub open spec fn history_messages(stations: Seq<StationV>, upto: int) -> Seq<Seq<char>>
    decreases upto,
{
    if upto <= 0 {
        Seq::empty()
    } else {
        history_messages(stations, upto - 1) + station_history_messages(
            stations[upto - 1],
            upto - 1,
        )
    }
}

/// Every message validation reports, in the order it checks: the schema,
/// repeated codes, code shapes, the index mapping, the release log, then
/// each station's histories.
pub open spec fn validation_messages(m: MasterV, previous: Option<MasterV>) -> Seq<Seq<char>> {
    schema_messages(m) + code_repeat_messages(codes_of(m.stations), m.stations.len() as int)
        + shape_messages(m.stations, m.stations.len() as int) + mapping_messages(m, previous)
        + release_messages(m) + history_messages(m.stations, m.stations.len() as int)
}

// ---------------------------------------------------------------------------
// Checking.
// ---------------------------------------------------------------------------

/// Whether `now` extends `before`, with as many more entries as it has.
pub open spec fn extends(now: Seq<ValidationError>, before: Seq<ValidationError>) -> bool {
    &&& now.len() >= before.len()
    &&& forall|k: int| 0 <= k < before.len() ==> now[k] == before[k]
}

proof fn lemma_extends_trans(a: Seq<ValidationError>, b: Seq<ValidationError>, c: Seq<ValidationError>)
    requires
        extends(a, b),
        extends(b, c),
    ensures
        extends(a, c),
        (a.len() == c.len()) == (a.len() == b.len() && b.len() == c.len()),
{
}

fn report(errors: &mut Vec<ValidationError>, message: String)
    ensures
        final(errors)@ == old(errors)@.push(ValidationError { message }),
        messages(final(errors)@) == messages(old(errors)@).push(message@),
{
    let ghost m = message@;
    errors.push(ValidationError { message });
    assert(messages(errors@) =~= messages(old(errors)@).push(m));
}

/// `station "<code>" (index <index>) <what>`.
fn at(code: &String, index: usize, what: &str) -> (s: String)
    ensures
        s@ == at_text(code@, index as int, what@),
{
    let mut s = String::from_str("station ");
    s.append(quoted(code.as_str()).as_str());
    s.append(" (index ");
    s.append(usize_text(index).as_str());
    s.append(") ");
    s.append(what);
    s
}

fn check_schema(master: &Master, errors: &mut Vec<ValidationError>)
    ensures
        extends(final(errors)@, old(errors)@),
        (final(errors)@.len() == old(errors)@.len()) == (master@.schema_version == SCHEMA_VERSION),
        messages(final(errors)@) == messages(old(errors)@) + schema_messages(master@),
{
    if master.schema_version != SCHEMA_VERSION {
        let mut m = String::from_str("schema_version is ");
        m.append(crate::text::u64_text(master.schema_version as u64).as_str());
        m.append(" but this tool writes 1");
        report(errors, m);
    }
    assert(messages(errors@) =~= messages(old(errors)@) + schema_messages(master@));
}

proof fn lemma_latest_before(s: Seq<Seq<char>>, j: int, i: int)
    requires
        0 <= i <= j < s.len(),
    ensures
        match latest_before(s, j, i) {
            Some(x) => 0 <= x < i && s[x] == s[j] && forall|k: int| x < k < i ==> s[k] != s[j],
            None => forall|k: int| 0 <= k < i ==> s[k] != s[j],
        },
    decreases i,
{
    if i > 0 {
        lemma_latest_before(s, j, i - 1);
    }
}

/// The latest index before `j` whose entry equals entry `j`.
fn latest_repeat(codes: Ghost<Seq<Seq<char>>>, texts: &Vec<&String>, j: usize) -> (r: Option<usize>)
    requires
        j < texts@.len(),
        texts@.len() == codes@.len(),
        forall|k: int| 0 <= k < texts@.len() ==> (#[trigger] texts@[k])@ == codes@[k],
    ensures
        match r {
            Some(i) => i < j && codes@[i as int] == codes@[j as int] && forall|k: int|
                i < k < j ==> codes@[k] != codes@[j as int],
            None => forall|k: int| 0 <= k < j ==> codes@[k] != codes@[j as int],
        },
        r matches Some(i) ==> latest_before(codes@, j as int, j as int) == Some(i as int),
        r is None ==> latest_before(codes@, j as int, j as int) is None,
{
    proof {
        lemma_latest_before(codes@, j as int, j as int);
    }
    let mut i: usize = j;
    while i > 0
        invariant
            i <= j < texts@.len(),
            texts@.len() == codes@.len(),
            forall|k: int| 0 <= k < texts@.len() ==> (#[trigger] texts@[k])@ == codes@[k],
            forall|k: int| i <= k < j ==> codes@[k] != codes@[j as int],
        decreases i,
    {
        if *texts[i - 1] == *texts[j] {
            assert(texts@[i - 1]@ == codes@[i - 1]);
            assert(texts@[j as int]@ == codes@[j as int]);
            proof {
                lemma_latest_before(codes@, j as int, j as int);
                let x = latest_before(codes@, j as int, j as int)->Some_0;
                if x > i - 1 {
                    assert(codes@[x] != codes@[j as int]);
                }
                if x < i - 1 {
                    assert(codes@[i - 1] != codes@[j as int]);
                }
            }
            return Some(i - 1);
        }
        assert(texts@[i - 1]@ == codes@[i - 1]);
        assert(texts@[j as int]@ == codes@[j as int]);
        i = i - 1;
    }
    None
}

/// Extending a sequence by one entry keeps it distinct exactly when the new
/// entry differs from every earlier one.
proof fn lemma_distinct_step(codes: Seq<Seq<char>>, j: int)
    requires
        0 <= j < codes.len(),
    ensures
        distinct(codes.take(j + 1)) == (distinct(codes.take(j)) && forall|k: int|
            0 <= k < j ==> codes[k] != codes[j]),
{
    let prev = codes.take(j);
    let next = codes.take(j + 1);
    if distinct(next) {
        assert forall|a: int, b: int| 0 <= a < b < prev.len() implies prev[a] != prev[b] by {
            assert(next[a] == prev[a] && next[b] == prev[b]);
        }
        assert forall|k: int| 0 <= k < j implies codes[k] != codes[j] by {
            assert(next[k] == codes[k] && next[j] == codes[j]);
        }
    }
    if distinct(prev) && forall|k: int| 0 <= k < j ==> codes[k] != codes[j] {
        assert forall|a: int, b: int| 0 <= a < b < next.len() implies next[a] != next[b] by {
            if b < j {
                assert(next[a] == prev[a] && next[b] == prev[b]);
            }
        }
    }
}

fn station_codes(master: &Master) -> (r: Vec<&String>)
    ensures
        r@.len() == master@.stations.len(),
        forall|k: int| 0 <= k < r@.len() ==> (#[trigger] r@[k])@ == codes_of(master@.stations)[k],
{
    let mut r: Vec<&String> = Vec::new();
    let mut i: usize = 0;
    while i < master.stations.len()
        invariant
            i <= master.stations@.len(),
            r@.len() == i,
            forall|k: int| 0 <= k < i ==> (#[trigger] r@[k])@ == codes_of(master@.stations)[k],
        decreases master.stations@.len() - i,
    {
        r.push(&master.stations[i].code);
        i = i + 1;
    }
    r
}

fn check_codes_unique(master: &Master, errors: &mut Vec<ValidationError>)
    ensures
        extends(final(errors)@, old(errors)@),
        (final(errors)@.len() == old(errors)@.len()) == distinct(codes_of(master@.stations)),
        messages(final(errors)@) == messages(old(errors)@) + code_repeat_messages(
            codes_of(master@.stations),
            master@.stations.len() as int,
        ),
{
    let ghost orig = errors@;
    let ghost codes = codes_of(master@.stations);
    let texts = station_codes(master);
    let n = texts.len();
    assert(codes.take(0) =~= Seq::<Seq<char>>::empty());
    let mut j: usize = 0;
    while j < n
        invariant
            n == texts@.len(),
            texts@.len() == codes.len(),
            codes == codes_of(master@.stations),
            forall|k: int| 0 <= k < texts@.len() ==> (#[trigger] texts@[k])@ == codes[k],
            j <= n,
            extends(errors@, orig),
            (errors@.len() == orig.len()) == distinct(codes.take(j as int)),
            messages(errors@) == messages(orig) + code_repeat_messages(codes, j as int),
        decreases n - j,
    {
        proof {
            lemma_distinct_step(codes, j as int);
        }
        let ghost before = messages(errors@);
        match latest_repeat(Ghost(codes), &texts, j) {
            Some(first) => {
                let mut m = String::from_str("station code ");
                m.append(quoted(texts[j].as_str()).as_str());
                m.append(" appears at index ");
                m.append(usize_text(first).as_str());
                m.append(" and index ");
                m.append(usize_text(j).as_str());
                report(errors, m);
            },
            None => {},
        }
        assert(messages(errors@) =~= messages(orig) + code_repeat_messages(codes, j + 1));
        j = j + 1;
    }
    assert(codes.take(n as int) =~= codes);
}


fn check_revision_shapes(
    code: &String,
    index: usize,
    revision: &MetadataRevision,
    errors: &mut Vec<ValidationError>,
)
    ensures
        extends(final(errors)@, old(errors)@),
        (final(errors)@.len() == old(errors)@.len()) == revision_shaped(revision@),
        messages(final(errors)@) == messages(old(errors)@) + revision_shape_messages(
            code@,
            index as int,
            revision@,
        ),
{
    let ghost orig = errors@;
    let ghost r = revision@;
    match &revision.region {
        Some(region) => {
            if !CodeShape::Region.accepts(region.code.as_str()) {
                let mut m = at(code, index, "has, in the revision effective ");
                m.append(revision.effective_from.rfc3339.as_str());
                m.append(", ");
                m.append(CodeShape::Region.describe_violation(region.code.as_str()).as_str());
                assert(m@ =~= revision_code_message(code@, index as int, r, CodeShape::Region, region.code@));
                report(errors, m);
            }
        },
        None => {},
    }
    let ghost mid = errors@;
    let ghost region_part = match r.region {
        Some(a) => when(
            !CodeShape::Region.spec_accepts(a.code),
            revision_code_message(code@, index as int, r, CodeShape::Region, a.code),
        ),
        None => Seq::<Seq<char>>::empty(),
    };
    assert(messages(mid) =~= messages(orig) + region_part);
    match &revision.city {
        Some(city) => {
            if !CodeShape::City.accepts(city.code.as_str()) {
                let mut m = at(code, index, "has, in the revision effective ");
                m.append(revision.effective_from.rfc3339.as_str());
                m.append(", ");
                m.append(CodeShape::City.describe_violation(city.code.as_str()).as_str());
                assert(m@ =~= revision_code_message(code@, index as int, r, CodeShape::City, city.code@));
                report(errors, m);
            }
        },
        None => {},
    }
    assert(messages(errors@) =~= messages(orig) + revision_shape_messages(code@, index as int, r));
}

fn check_station_shapes(st: &Station, index: usize, errors: &mut Vec<ValidationError>)
    ensures
        extends(final(errors)@, old(errors)@),
        (final(errors)@.len() == old(errors)@.len()) == station_shaped(st@),
        messages(final(errors)@) == messages(old(errors)@) + station_shape_messages(
            st@,
            index as int,
        ),
{
    let ghost orig = errors@;
    if !CodeShape::Point.accepts(st.code.as_str()) {
        let mut m = String::from_str("index ");
        m.append(usize_text(index).as_str());
        m.append(": ");
        m.append(CodeShape::Point.describe_violation(st.code.as_str()).as_str());
        report(errors, m);
    }
    let ghost after_code = errors@;
    let ghost head = when(
        !CodeShape::Point.spec_accepts(st@.code),
        "index "@ + nat_text(index as nat) + ": "@ + CodeShape::Point.spec_violation(st@.code),
    );
    assert(messages(after_code) =~= messages(orig) + head);
    let mut k: usize = 0;
    while k < st.metadata.len()
        invariant
            k <= st.metadata@.len(),
            extends(errors@, after_code),
            extends(after_code, orig),
            (after_code.len() == orig.len()) == CodeShape::Point.spec_accepts(st@.code),
            (errors@.len() == after_code.len()) == forall|l: int|
                0 <= l < k ==> revision_shaped(#[trigger] st@.metadata[l]),
            messages(errors@) == messages(orig) + head + revisions_shape_messages(
                st@.code,
                index as int,
                st@.metadata,
                k as int,
            ),
        decreases st.metadata@.len() - k,
    {
        assert(st@.metadata[k as int] == st.metadata@[k as int]@);
        check_revision_shapes(&st.code, index, &st.metadata[k], errors);
        assert(messages(errors@) =~= messages(orig) + head + revisions_shape_messages(
            st@.code,
            index as int,
            st@.metadata,
            k + 1,
        ));
        k = k + 1;
    }
}

fn check_code_shapes(master: &Master, errors: &mut Vec<ValidationError>)
    ensures
        extends(final(errors)@, old(errors)@),
        (final(errors)@.len() == old(errors)@.len()) == forall|i: int|
            0 <= i < master@.stations.len() ==> station_shaped(#[trigger] master@.stations[i]),
        messages(final(errors)@) == messages(old(errors)@) + shape_messages(
            master@.stations,
            master@.stations.len() as int,
        ),
{
    let ghost orig = errors@;
    let mut i: usize = 0;
    while i < master.stations.len()
        invariant
            i <= master.stations@.len(),
            extends(errors@, orig),
            (errors@.len() == orig.len()) == forall|l: int|
                0 <= l < i ==> station_shaped(#[trigger] master@.stations[l]),
            messages(errors@) == messages(orig) + shape_messages(master@.stations, i as int),
        decreases master.stations@.len() - i,
    {
        assert(master@.stations[i as int] == master.stations@[i as int]@);
        check_station_shapes(&master.stations[i], i, errors);
        assert(messages(errors@) =~= messages(orig) + shape_messages(master@.stations, i + 1));
        i = i + 1;
    }
}

fn check_index_mapping_preserved(
    master: &Master,
    previous: Option<&Master>,
    errors: &mut Vec<ValidationError>,
)
    ensures
        extends(final(errors)@, old(errors)@),
        (final(errors)@.len() == old(errors)@.len()) == mapping_kept(
            master@,
            crate::append::opt_master(previous),
        ),
        messages(final(errors)@) == messages(old(errors)@) + mapping_messages(
            master@,
            crate::append::opt_master(previous),
        ),
{
    let ghost orig = errors@;
    let previous = match previous {
        Some(p) => p,
        None => {
            assert(messages(errors@) =~= messages(orig) + Seq::<Seq<char>>::empty());
            return;
        },
    };
    if master.source_kind != previous.source_kind {
        let mut m = String::from_str("source_kind changed from ");
        m.append(previous.source_kind.as_str());
        m.append(" to ");
        m.append(master.source_kind.as_str());
        report(errors, m);
    }
    let n = previous.stations.len();
    let len = master.stations.len();
    if len < n {
        let mut m = String::from_str("station table shrank from ");
        m.append(usize_text(n).as_str());
        m.append(" to ");
        m.append(usize_text(len).as_str());
        m.append(" entries; stations are never removed");
        report(errors, m);
    }
    let ghost head = errors@;
    let ghost head_messages = when(
        master@.source_kind != previous@.source_kind,
        "source_kind changed from "@ + previous@.source_kind.spec_str() + " to "@
            + master@.source_kind.spec_str(),
    ) + when(
        master@.stations.len() < previous@.stations.len(),
        "station table shrank from "@ + nat_text(previous@.stations.len()) + " to "@ + nat_text(
            master@.stations.len(),
        ) + " entries; stations are never removed"@,
    );
    assert(messages(head) =~= messages(orig) + head_messages);
    let mut i: usize = 0;
    while i < n
        invariant
            n == previous.stations@.len(),
            len == master.stations@.len(),
            i <= n,
            extends(errors@, head),
            extends(head, orig),
            (head.len() == orig.len()) == (master.source_kind == previous.source_kind && n <= len),
            (errors@.len() == head.len()) == forall|l: int|
                0 <= l < i ==> #[trigger] kept_at(master@, previous@, l),
            messages(errors@) == messages(orig) + head_messages + index_messages(
                master@,
                previous@,
                i as int,
            ),
        decreases n - i,
    {
        let ghost was = errors@.len() == head.len();
        let before = &previous.stations[i];
        assert(previous@.stations[i as int] == before@);
        if i < len {
            let after = &master.stations[i];
            assert(master@.stations[i as int] == after@);
            if !(after.code == before.code) {
                let mut m = String::from_str("index ");
                m.append(usize_text(i).as_str());
                m.append(" changed from ");
                m.append(quoted(before.code.as_str()).as_str());
                m.append(" to ");
                m.append(quoted(after.code.as_str()).as_str());
                m.append("; assigned indices are permanent");
                report(errors, m);
            }
        } else {
            let mut m = String::from_str("index ");
            m.append(usize_text(i).as_str());
            m.append(" (");
            m.append(quoted(before.code.as_str()).as_str());
            m.append(") is missing; stations are never removed");
            report(errors, m);
        }
        proof {
            if !was {
                let l0 = choose|l: int| 0 <= l < i && !kept_at(master@, previous@, l);
                assert(!kept_at(master@, previous@, l0));
            }
            if i < len && master@.stations[i as int].code == previous@.stations[i as int].code {
                assert(kept_at(master@, previous@, i as int));
            } else {
                assert(!kept_at(master@, previous@, i as int));
            }
            assert(messages(errors@) =~= messages(orig) + head_messages + index_messages(
                master@,
                previous@,
                i + 1,
            ));
        }
        i = i + 1;
    }
    proof {
        let pm = Some(previous@);
        if errors@.len() == orig.len() {
            assert forall|l: int| 0 <= l < previous@.stations.len() implies (
            #[trigger] master@.stations[l]).code == previous@.stations[l].code by {
                assert(kept_at(master@, previous@, l));
            }
        }
        if mapping_kept(master@, pm) && errors@.len() != orig.len() {
            if errors@.len() != head.len() {
                let l0 = choose|l: int| 0 <= l < n && !kept_at(master@, previous@, l);
                assert(master@.stations[l0].code == previous@.stations[l0].code);
            }
        }
    }
}

/// Index `l` of `previous` is still held by the same code in `m`.
pub open spec fn kept_at(m: MasterV, previous: MasterV, l: int) -> bool {
    l < m.stations.len() && m.stations[l].code == previous.stations[l].code
}

fn release_id_refs(master: &Master) -> (r: Vec<&String>)
    ensures
        r@.len() == master@.releases.len(),
        forall|k: int| 0 <= k < r@.len() ==> (#[trigger] r@[k])@ == release_ids(master@)[k],
{
    let mut r: Vec<&String> = Vec::new();
    let mut i: usize = 0;
    while i < master.releases.len()
        invariant
            i <= master.releases@.len(),
            r@.len() == i,
            forall|k: int| 0 <= k < i ==> (#[trigger] r@[k])@ == release_ids(master@)[k],
        decreases master.releases@.len() - i,
    {
        r.push(&master.releases[i].id);
        i = i + 1;
    }
    r
}

fn check_releases(master: &Master, errors: &mut Vec<ValidationError>)
    ensures
        extends(final(errors)@, old(errors)@),
        (final(errors)@.len() == old(errors)@.len()) == releases_ok(master@),
        messages(final(errors)@) == messages(old(errors)@) + release_messages(master@),
{
    let ghost orig = errors@;
    let ghost ids = release_ids(master@);
    let ghost m = master@;
    let texts = release_id_refs(master);
    let n = texts.len();
    let len = master.stations.len();
    assert(ids.take(0) =~= Seq::<Seq<char>>::empty());
    let mut j: usize = 0;
    while j < n
        invariant
            n == texts@.len(),
            texts@.len() == ids.len(),
            ids == release_ids(master@),
            m == master@,
            len == m.stations.len(),
            forall|k: int| 0 <= k < texts@.len() ==> (#[trigger] texts@[k])@ == ids[k],
            j <= n,
            extends(errors@, orig),
            (errors@.len() == orig.len()) == (distinct(ids.take(j as int)) && forall|k: int|
                0 <= k < j ==> (#[trigger] m.releases[k]).index_count <= len),
            messages(errors@) == messages(orig) + release_entry_messages(m, j as int),
        decreases n - j,
    {
        proof {
            lemma_distinct_step(ids, j as int);
        }
        let release = &master.releases[j];
        assert(m.releases[j as int] == release@);
        match latest_repeat(Ghost(ids), &texts, j) {
            Some(first) => {
                let mut msg = String::from_str("release id ");
                msg.append(quoted(release.id.as_str()).as_str());
                msg.append(" appears at positions ");
                msg.append(usize_text(first).as_str());
                msg.append(" and ");
                msg.append(usize_text(j).as_str());
                report(errors, msg);
            },
            None => {},
        }
        if release.index_count > len {
            let mut msg = String::from_str("release ");
            msg.append(quoted(release.id.as_str()).as_str());
            msg.append(" has index_count ");
            msg.append(usize_text(release.index_count).as_str());
            msg.append(" but the station table holds ");
            msg.append(usize_text(len).as_str());
            msg.append(" entries");
            report(errors, msg);
        }
        assert(messages(errors@) =~= messages(orig) + release_entry_messages(m, j + 1));
        j = j + 1;
    }
    assert(ids.take(n as int) =~= ids);
    let ghost head = errors@;
    assert(messages(head) =~= messages(orig) + release_entry_messages(m, n as int)
        + release_pair_messages(m, 0));
    let mut k: usize = 0;
    while k + 1 < n
        invariant
            n == master.releases@.len(),
            m == master@,
            k + 1 <= n || n == 0,
            k <= n,
            extends(errors@, head),
            extends(head, orig),
            (head.len() == orig.len()) == (distinct(ids) && forall|l: int|
                0 <= l < n ==> (#[trigger] m.releases[l]).index_count <= len),
            ids == release_ids(master@),
            len == m.stations.len(),
            (errors@.len() == head.len()) == forall|l: int|
                0 <= l < k ==> (#[trigger] m.releases[l]).effective_from.before(
                    m.releases[l + 1].effective_from,
                ) && m.releases[l].index_count <= m.releases[l + 1].index_count,
            messages(errors@) == messages(orig) + release_entry_messages(m, n as int)
                + release_pair_messages(m, k as int),
        decreases n - k,
    {
        let before = &master.releases[k];
        let after = &master.releases[k + 1];
        assert(m.releases[k as int] == before@);
        assert(m.releases[k + 1] == after@);
        if !before.effective_from.before(&after.effective_from) {
            let mut msg = String::from_str("release ");
            msg.append(quoted(after.id.as_str()).as_str());
            msg.append(" (");
            msg.append(after.effective_from.rfc3339.as_str());
            msg.append(") does not come after release ");
            msg.append(quoted(before.id.as_str()).as_str());
            msg.append(" (");
            msg.append(before.effective_from.rfc3339.as_str());
            msg.append(")");
            report(errors, msg);
        }
        if after.index_count < before.index_count {
            let mut msg = String::from_str("release ");
            msg.append(quoted(after.id.as_str()).as_str());
            msg.append(" has index_count ");
            msg.append(usize_text(after.index_count).as_str());
            msg.append(", below release ");
            msg.append(quoted(before.id.as_str()).as_str());
            msg.append("'s ");
            msg.append(usize_text(before.index_count).as_str());
            msg.append("; the index space never shrinks");
            report(errors, msg);
        }
        assert(messages(errors@) =~= messages(orig) + release_entry_messages(m, n as int)
            + release_pair_messages(m, k + 1));
        k = k + 1;
    }
    assert(k as int == pairs(n as int));
}

/// Two consecutive events of one scope's timeline are at different instants
/// and mark a change.
pub open spec fn timeline_step_ok(a: ScopeEventV, b: ScopeEventV) -> bool {
    !b.effective_from.same_instant(a.effective_from) && b.enabled != a.enabled
}

pub proof fn lemma_timeline_push(f: Seq<ScopeEventV>, e: ScopeEventV)
    ensures
        timeline_ok(f.push(e)) == (timeline_ok(f) && (f.len() > 0 ==> timeline_step_ok(
            f.last(),
            e,
        ))),
{
    let g = f.push(e);
    if timeline_ok(g) {
        assert forall|k: int| 0 <= k < f.len() - 1 implies timeline_step_ok(#[trigger] f[k], f[k + 1]) by {
            assert(g[k + 1] == f[k + 1] && g[k] == f[k]);
        }
        if f.len() > 0 {
            assert(g[f.len() as int] == e);
            assert(g[f.len() - 1] == f.last());
            assert(timeline_step_ok(g[f.len() - 1], g[f.len() as int]));
        }
    }
    if timeline_ok(f) && (f.len() > 0 ==> timeline_step_ok(f.last(), e)) {
        assert forall|k: int| 0 <= k < g.len() - 1 implies timeline_step_ok(#[trigger] g[k], g[k + 1]) by {
            if k + 1 < f.len() {
                assert(g[k + 1] == f[k + 1] && g[k] == f[k]);
            } else {
                assert(g[k + 1] == e);
                assert(g[k] == f.last());
            }
        }
    }
}

fn check_timeline(
    code: &String,
    index: usize,
    events: &Vec<ScopeEvent>,
    scope: Scope,
    errors: &mut Vec<ValidationError>,
)
    ensures
        extends(final(errors)@, old(errors)@),
        (final(errors)@.len() == old(errors)@.len()) == timeline_ok(
            events_for(events@.map_values(|e: ScopeEvent| e@), scope),
        ),
        messages(final(errors)@) == messages(old(errors)@) + timeline_messages(
            code@,
            index as int,
            scope,
            events_for(events@.map_values(|e: ScopeEvent| e@), scope),
        ),
{
    let ghost orig = errors@;
    let ghost v = events@.map_values(|e: ScopeEvent| e@);
    let mut last: Option<usize> = None;
    proof {
        reveal(Seq::filter);
        assert(v.take(0) =~= Seq::<ScopeEventV>::empty());
        assert(events_for(v.take(0), scope) =~= Seq::<ScopeEventV>::empty());
    }
    let mut i: usize = 0;
    while i < events.len()
        invariant
            i <= events@.len(),
            v == events@.map_values(|e: ScopeEvent| e@),
            extends(errors@, orig),
            (errors@.len() == orig.len()) == timeline_ok(events_for(v.take(i as int), scope)),
            (events_for(v.take(i as int), scope).len() > 0) == last is Some,
            last matches Some(li) ==> li < i && v[li as int] == events_for(
                v.take(i as int),
                scope,
            ).last(),
            messages(errors@) == messages(orig) + timeline_messages(
                code@,
                index as int,
                scope,
                events_for(v.take(i as int), scope),
            ),
        decreases events@.len() - i,
    {
        let ghost f = events_for(v.take(i as int), scope);
        let e = &events[i];
        assert(v[i as int] == e@);
        proof {
            assert(v.take(i + 1) =~= v.take(i as int).push(e@));
            v.take(i as int).lemma_filter_push(e@, scope_is(scope));
        }
        if e.scope == scope {
            proof {
                lemma_timeline_push(f, e@);
            }
            match last {
                Some(li) => {
                    let before = &events[li];
                    assert(v[li as int] == before@);
                    if before.effective_from.same_instant(&e.effective_from) {
                        let mut what = String::from_str("has two `");
                        what.append(scope.as_str());
                        what.append("` scope events at ");
                        what.append(e.effective_from.rfc3339.as_str());
                        let m = at(code, index, what.as_str());
                        report(errors, m);
                    }
                    if before.enabled == e.enabled {
                        let mut what = String::from_str("records `");
                        what.append(scope.as_str());
                        what.append("` as ");
                        what.append(if e.enabled { "true" } else { "false" });
                        what.append(" twice in a row at ");
                        what.append(e.effective_from.rfc3339.as_str());
                        what.append("; an event must mark a change");
                        let m = at(code, index, what.as_str());
                        report(errors, m);
                    }
                },
                None => {},
            }
            proof {
                let g = f.push(e@);
                assert(g.drop_last() =~= f);
                if f.len() > 0 {
                    assert(g[g.len() - 2] == f.last());
                }
                assert(messages(errors@) =~= messages(orig) + timeline_messages(
                    code@,
                    index as int,
                    scope,
                    g,
                ));
            }
            last = Some(i);
        }
        i = i + 1;
    }
    assert(v.take(i as int) =~= v);
}

/// `at`, followed by the RFC 3339 text of a timestamp.
fn at_time(code: &String, index: usize, what: &str, when: &String) -> (s: String)
    ensures
        s@ == at_text(code@, index as int, what@ + when@),
{
    let mut s = at(code, index, what);
    s.append(when.as_str());
    assert(s@ =~= at_text(code@, index as int, what@ + when@));
    s
}

fn check_location(code: &String, index: usize, location: &Location, errors: &mut Vec<ValidationError>)
    ensures
        extends(final(errors)@, old(errors)@),
        (final(errors)@.len() == old(errors)@.len()) == location_in_range(location@),
        messages(final(errors)@) == messages(old(errors)@) + location_messages(
            code@,
            index as int,
            location@,
        ),
{
    let ninety = Decimal::ninety();
    let one_eighty = Decimal::one_eighty();
    if !location.latitude.within(&ninety) {
        let mut what = String::from_str("has latitude ");
        what.append(location.latitude.to_text().as_str());
        what.append(" outside -90..=90");
        report(errors, at(code, index, what.as_str()));
    }
    if !location.longitude.within(&one_eighty) {
        let mut what = String::from_str("has longitude ");
        what.append(location.longitude.to_text().as_str());
        what.append(" outside -180..=180");
        report(errors, at(code, index, what.as_str()));
    }
    if !location.resolution_deg.is_finite_positive() {
        let mut what = String::from_str("has resolution_deg ");
        what.append(location.resolution_deg.to_text().as_str());
        what.append(", which must be finite and positive");
        report(errors, at(code, index, what.as_str()));
    }
    assert(messages(errors@) =~= messages(old(errors)@) + location_messages(
        code@,
        index as int,
        location@,
    ));
}

/// Whether revision `l` takes effect strictly before revision `l + 1`.
spec fn revision_step_ok(v: Seq<MetadataRevision>, l: int) -> bool {
    v[l].effective_from@.before(v[l + 1].effective_from@)
}

#[verifier::rlimit(100)]
fn check_revision_order(st: &Station, index: usize, errors: &mut Vec<ValidationError>)
    ensures
        extends(final(errors)@, old(errors)@),
        (final(errors)@.len() == old(errors)@.len()) == revisions_ordered(st@),
        messages(final(errors)@) == messages(old(errors)@) + revision_order_messages(
            st@,
            index as int,
            pairs(st@.metadata.len() as int),
        ),
{
    let ghost orig = errors@;
    let n = st.metadata.len();
    let mut k: usize = 0;
    while n - k > 1
        invariant
            n == st.metadata@.len(),
            k <= n,
            extends(errors@, orig),
            (errors@.len() == orig.len()) == forall|l: int|
                0 <= l < k && l < n - 1 ==> #[trigger] revision_step_ok(st.metadata@, l),
            k < n || n == 0,
            messages(errors@) == messages(orig) + revision_order_messages(st@, index as int, k as int),
        decreases n - k,
    {
        let a = &st.metadata[k];
        let b = &st.metadata[k + 1];
        if !a.effective_from.before(&b.effective_from) {
            report(
                errors,
                at_time(
                    &st.code,
                    index,
                    "has metadata revisions out of order or duplicated at ",
                    &b.effective_from.rfc3339,
                ),
            );
        }
        proof {
            assert(revision_step_ok(st.metadata@, k as int) == a.effective_from@.before(
                b.effective_from@,
            ));
            assert(st@.metadata[k as int] == a@ && st@.metadata[k + 1] == b@);
            assert(messages(errors@) =~= messages(orig) + revision_order_messages(
                st@,
                index as int,
                k + 1,
            ));
        }
        k = k + 1;
    }
    assert(k as int == pairs(n as int));
    proof {
        let sv = st@;
        assert forall|l: int| 0 <= l < st.metadata@.len() - 1 implies (#[trigger] sv.metadata[l]).effective_from
            == st.metadata@[l].effective_from@ && sv.metadata[l + 1].effective_from
            == st.metadata@[l + 1].effective_from@ by {}
        if errors@.len() == orig.len() {
            assert forall|l: int| 0 <= l < sv.metadata.len() - 1 implies (
            #[trigger] sv.metadata[l]).effective_from.before(sv.metadata[l + 1].effective_from) by {
                assert(revision_step_ok(st.metadata@, l));
            }
        } else {
            let l0 = choose|l: int| 0 <= l < k && l < n - 1 && !#[trigger] revision_step_ok(st.metadata@, l);
            assert(sv.metadata[l0].effective_from == st.metadata@[l0].effective_from@);
            assert(sv.metadata[l0 + 1].effective_from == st.metadata@[l0 + 1].effective_from@);
        }
    }
}

fn check_locations(st: &Station, index: usize, errors: &mut Vec<ValidationError>)
    ensures
        extends(final(errors)@, old(errors)@),
        (final(errors)@.len() == old(errors)@.len()) == locations_ok(st@),
        messages(final(errors)@) == messages(old(errors)@) + locations_messages(
            st@,
            index as int,
            st@.metadata.len() as int,
        ),
{
    let ghost orig = errors@;
    let ghost sv = st@;
    let n = st.metadata.len();
    let mut k: usize = 0;
    while k < n
        invariant
            n == st.metadata@.len(),
            sv == st@,
            k <= n,
            extends(errors@, orig),
            (errors@.len() == orig.len()) == forall|l: int|
                0 <= l < k ==> ((#[trigger] sv.metadata[l]).location matches Some(x)
                    ==> location_in_range(x)),
            messages(errors@) == messages(orig) + locations_messages(sv, index as int, k as int),
        decreases n - k,
    {
        let r = &st.metadata[k];
        assert(sv.metadata[k as int] == r@);
        match &r.location {
            Some(x) => check_location(&st.code, index, x, errors),
            None => {},
        }
        assert(messages(errors@) =~= messages(orig) + locations_messages(sv, index as int, k + 1));
        k = k + 1;
    }
}

fn check_lifecycle_order(st: &Station, index: usize, errors: &mut Vec<ValidationError>)
    ensures
        extends(final(errors)@, old(errors)@),
        (final(errors)@.len() == old(errors)@.len()) == lifecycle_ordered(st@),
        messages(final(errors)@) == messages(old(errors)@) + lifecycle_order_messages(
            st@,
            index as int,
            pairs(st@.lifecycle.len() as int),
        ),
{
    let ghost orig = errors@;
    let ghost sv = st@;
    let n = st.lifecycle.len();
    let mut k: usize = 0;
    while n - k > 1
        invariant
            n == st.lifecycle@.len(),
            sv == st@,
            k <= n,
            extends(errors@, orig),
            (errors@.len() == orig.len()) == forall|l: int|
                0 <= l < k && l < n - 1 ==> (#[trigger] sv.lifecycle[l]).effective_from.before(
                    sv.lifecycle[l + 1].effective_from,
                ),
            k < n || n == 0,
            messages(errors@) == messages(orig) + lifecycle_order_messages(sv, index as int, k as int),
        decreases n - k,
    {
        let a = &st.lifecycle[k];
        let b = &st.lifecycle[k + 1];
        assert(sv.lifecycle[k as int] == a@ && sv.lifecycle[k + 1] == b@);
        if !a.effective_from.before(&b.effective_from) {
            report(
                errors,
                at_time(
                    &st.code,
                    index,
                    "has lifecycle events out of order or duplicated at ",
                    &b.effective_from.rfc3339,
                ),
            );
        }
        assert(messages(errors@) =~= messages(orig) + lifecycle_order_messages(
            sv,
            index as int,
            k + 1,
        ));
        k = k + 1;
    }
    assert(k as int == pairs(n as int));
}

fn check_scope_order(st: &Station, index: usize, errors: &mut Vec<ValidationError>)
    ensures
        extends(final(errors)@, old(errors)@),
        (final(errors)@.len() == old(errors)@.len()) == scope_events_sorted(st@),
        messages(final(errors)@) == messages(old(errors)@) + scope_order_messages(
            st@,
            index as int,
            pairs(st@.scope_events.len() as int),
        ),
{
    let ghost orig = errors@;
    let ghost sv = st@;
    let n = st.scope_events.len();
    let mut k: usize = 0;
    while n - k > 1
        invariant
            n == st.scope_events@.len(),
            sv == st@,
            k <= n,
            extends(errors@, orig),
            (errors@.len() == orig.len()) == forall|l: int|
                0 <= l < k && l < n - 1 ==> scope_events_ordered(
                    #[trigger] sv.scope_events[l],
                    sv.scope_events[l + 1],
                ),
            k < n || n == 0,
            messages(errors@) == messages(orig) + scope_order_messages(sv, index as int, k as int),
        decreases n - k,
    {
        let a = &st.scope_events[k];
        let b = &st.scope_events[k + 1];
        assert(sv.scope_events[k as int] == a@ && sv.scope_events[k + 1] == b@);
        let out_of_order = b.effective_from.before(&a.effective_from) || (
        b.effective_from.same_instant(&a.effective_from) && rank(b.scope) < rank(a.scope));
        if out_of_order {
            report(
                errors,
                at_time(&st.code, index, "has scope events out of order at ", &b.effective_from.rfc3339),
            );
        }
        assert(messages(errors@) =~= messages(orig) + scope_order_messages(sv, index as int, k + 1));
        k = k + 1;
    }
    assert(k as int == pairs(n as int));
}

#[verifier::rlimit(100)]
fn check_history(st: &Station, index: usize, errors: &mut Vec<ValidationError>)
    ensures
        extends(final(errors)@, old(errors)@),
        (final(errors)@.len() == old(errors)@.len()) == history_ok(st@),
        messages(final(errors)@) == messages(old(errors)@) + station_history_messages(
            st@,
            index as int,
        ),
{
    let ghost e0 = errors@;
    if st.metadata.len() == 0 {
        report(errors, at(&st.code, index, "has no metadata revision"));
    }
    let ghost e1 = errors@;
    check_revision_order(st, index, errors);
    let ghost e2 = errors@;
    check_locations(st, index, errors);
    let ghost e3 = errors@;
    check_lifecycle_order(st, index, errors);
    let ghost e4 = errors@;
    check_scope_order(st, index, errors);
    let ghost e5 = errors@;
    check_timeline(&st.code, index, &st.scope_events, Scope::PointSeismicIntensity, errors);
    let ghost e6 = errors@;
    check_timeline(&st.code, index, &st.scope_events, Scope::LongPeriodSeismicIntensity, errors);
    let ghost e7 = errors@;
    proof {
        lemma_extends_trans(e2, e1, e0);
        lemma_extends_trans(e3, e2, e0);
        lemma_extends_trans(e4, e3, e0);
        lemma_extends_trans(e5, e4, e0);
        lemma_extends_trans(e6, e5, e0);
        lemma_extends_trans(e7, e6, e0);
        let sv = st@;
        assert(sv.scope_events =~= st.scope_events@.map_values(|e: ScopeEvent| e@));
        assert(sv.metadata.len() == st.metadata@.len());
        let a = sv.metadata.len() > 0;
        let b = revisions_ordered(sv);
        let c = locations_ok(sv);
        let d = lifecycle_ordered(sv);
        let e = scope_events_sorted(sv);
        let f = timeline_ok(events_for(sv.scope_events, Scope::PointSeismicIntensity));
        let g = timeline_ok(events_for(sv.scope_events, Scope::LongPeriodSeismicIntensity));
        assert((e7.len() == e0.len()) == (a && b && c && d && e && f && g));
        reveal(history_ok);
        assert(messages(e1) =~= messages(e0) + when(
            sv.metadata.len() == 0,
            at_text(sv.code, index as int, "has no metadata revision"@),
        ));
        assert(messages(e7) =~= messages(e0) + station_history_messages(sv, index as int));
    }
}

fn rank(scope: Scope) -> (r: u8)
    ensures
        r == scope.rank(),
{
    match scope {
        Scope::PointSeismicIntensity => 0,
        Scope::LongPeriodSeismicIntensity => 1,
    }
}

fn check_station_histories(master: &Master, errors: &mut Vec<ValidationError>)
    ensures
        extends(final(errors)@, old(errors)@),
        (final(errors)@.len() == old(errors)@.len()) == forall|i: int|
            0 <= i < master@.stations.len() ==> history_ok(#[trigger] master@.stations[i]),
        messages(final(errors)@) == messages(old(errors)@) + history_messages(
            master@.stations,
            master@.stations.len() as int,
        ),
{
    let ghost orig = errors@;
    let mut i: usize = 0;
    while i < master.stations.len()
        invariant
            i <= master.stations@.len(),
            extends(errors@, orig),
            (errors@.len() == orig.len()) == forall|l: int|
                0 <= l < i ==> history_ok(#[trigger] master@.stations[l]),
            messages(errors@) == messages(orig) + history_messages(master@.stations, i as int),
        decreases master.stations@.len() - i,
    {
        assert(master@.stations[i as int] == master.stations@[i as int]@);
        check_history(&master.stations[i], i, errors);
        assert(messages(errors@) =~= messages(orig) + history_messages(master@.stations, i + 1));
        i = i + 1;
    }
}

/// Checks every structural guarantee of `master`, and, given the master it
/// was built from, that every index it had still means the same station.
/// All violations are reported at once.
pub fn validate(master: &Master, previous: Option<&Master>) -> (r: Result<(), ValidationErrors>)
    ensures
        r is Ok <==> master_valid(master@, crate::append::opt_master(previous)),
        r matches Err(e) ==> e.0@.len() > 0 && messages(e.0@) == validation_messages(
            master@,
            crate::append::opt_master(previous),
        ),
        r is Ok ==> validation_messages(master@, crate::append::opt_master(previous)).len() == 0,
{
    let mut errors: Vec<ValidationError> = Vec::new();
    let ghost e0 = errors@;
    check_schema(master, &mut errors);
    let ghost e1 = errors@;
    check_codes_unique(master, &mut errors);
    let ghost e2 = errors@;
    check_code_shapes(master, &mut errors);
    let ghost e3 = errors@;
    check_index_mapping_preserved(master, previous, &mut errors);
    let ghost e4 = errors@;
    check_releases(master, &mut errors);
    let ghost e5 = errors@;
    check_station_histories(master, &mut errors);
    assert(messages(errors@) =~= validation_messages(master@, crate::append::opt_master(previous)));
    if errors.len() == 0 {
        Ok(())
    } else {
        Err(ValidationErrors(errors))
    }
}
} // verus!
