//! The canonical master.
//!
//! The array offset of an entry in [`Master::stations`] *is* its canonical
//! index. There is deliberately no `index` field: storing it would allow the
//! stored value and the array offset to disagree.

use vstd::prelude::*;

use crate::decimal::{Decimal, DecimalV};
use crate::time::{TimeV, Timestamp};

verus! {

pub const SCHEMA_VERSION: u32 = 1;

/// Which input format a master was created from.
///
/// A master is pinned to one source kind for its whole life.
#[derive(Debug, Clone, Copy, PartialEq, Eq, Structural)]
pub enum SourceKind {
    StationJson,
    JmaPublic,
}

impl SourceKind {
    pub open spec fn spec_str(self) -> Seq<char> {
        match self {
            SourceKind::StationJson => "station_json"@,
            SourceKind::JmaPublic => "jma_public"@,
        }
    }

    pub fn as_str(self) -> (s: &'static str)
        ensures
            s@ == self.spec_str(),
    {
        match self {
            SourceKind::StationJson => "station_json",
            SourceKind::JmaPublic => "jma_public",
        }
    }
}

/// A capability a station can hold, tracked independently of its identity.
#[derive(Debug, Clone, Copy, PartialEq, Eq, Structural, Hash)]
pub enum Scope {
    PointSeismicIntensity,
    LongPeriodSeismicIntensity,
}

impl Scope {
    pub open spec fn spec_str(self) -> Seq<char> {
        match self {
            Scope::PointSeismicIntensity => "point_seismic_intensity"@,
            Scope::LongPeriodSeismicIntensity => "long_period_seismic_intensity"@,
        }
    }

    /// Position in the declaration order, which is the order scopes sort in.
    pub open spec fn rank(self) -> nat {
        match self {
            Scope::PointSeismicIntensity => 0,
            Scope::LongPeriodSeismicIntensity => 1,
        }
    }

    pub fn as_str(self) -> (s: &'static str)
        ensures
            s@ == self.spec_str(),
    {
        match self {
            Scope::PointSeismicIntensity => "point_seismic_intensity",
            Scope::LongPeriodSeismicIntensity => "long_period_seismic_intensity",
        }
    }
}

#[derive(Debug, Clone, Copy, PartialEq, Eq, Structural)]
pub enum Provider {
    Jma,
    Nied,
    LocalGovernment,
    Other,
    Unknown,
}

/// The text of an optional string.
pub open spec fn opt_text(o: Option<String>) -> Option<Seq<char>> {
    match o {
        Some(s) => Some(s@),
        None => None,
    }
}

/// A copy of an optional string.
pub fn copy_opt_string(o: &Option<String>) -> (r: Option<String>)
    ensures
        opt_text(r) == opt_text(*o),
{
    match o {
        Some(s) => Some(s.clone()),
        None => None,
    }
}

/// Whether two optional strings hold the same text.
pub fn same_opt_string(a: &Option<String>, b: &Option<String>) -> (r: bool)
    ensures
        r == (opt_text(*a) == opt_text(*b)),
{
    match (a, b) {
        (Some(x), Some(y)) => *x == *y,
        (None, None) => true,
        _ => false,
    }
}

#[derive(Debug, Clone)]
pub struct Area {
    pub code: String,
    pub name: String,
    pub kana: Option<String>,
}

pub struct AreaV {
    pub code: Seq<char>,
    pub name: Seq<char>,
    pub kana: Option<Seq<char>>,
}

impl View for Area {
    type V = AreaV;

    open spec fn view(&self) -> AreaV {
        AreaV { code: self.code@, name: self.name@, kana: opt_text(self.kana) }
    }
}

/// The view of an optional area.
pub open spec fn opt_area(o: Option<Area>) -> Option<AreaV> {
    match o {
        Some(a) => Some(a@),
        None => None,
    }
}

impl Area {
    pub fn duplicate(&self) -> (r: Area)
        ensures
            r@ == self@,
    {
        Area { code: self.code.clone(), name: self.name.clone(), kana: copy_opt_string(&self.kana) }
    }
}

/// A copy of an optional area.
pub fn copy_opt_area(o: &Option<Area>) -> (r: Option<Area>)
    ensures
        opt_area(r) == opt_area(*o),
{
    match o {
        Some(a) => Some(a.duplicate()),
        None => None,
    }
}

/// Whether two optional areas say the same thing.
pub fn same_opt_area(a: &Option<Area>, b: &Option<Area>) -> (r: bool)
    ensures
        r == (opt_area(*a) == opt_area(*b)),
{
    match (a, b) {
        (Some(x), Some(y)) => x.code == y.code && x.name == y.name && same_opt_string(
            &x.kana,
            &y.kana,
        ),
        (None, None) => true,
        _ => false,
    }
}

/// The code of an optional area.
pub open spec fn opt_area_code(o: Option<AreaV>) -> Option<Seq<char>> {
    match o {
        Some(a) => Some(a.code),
        None => None,
    }
}

/// A coordinate, with the size of the quantization cell it was reported in.
///
/// `35.12` from a two-decimal source means "somewhere in [35.115, 35.125)",
/// not "exactly 35.12"; see [`crate::location`].
#[derive(Debug, Clone)]
pub struct Location {
    pub latitude: Decimal,
    pub longitude: Decimal,
    pub resolution_deg: Decimal,
}

/// The values of a [`Location`].
pub struct LocationV {
    pub latitude: DecimalV,
    pub longitude: DecimalV,
    pub resolution_deg: DecimalV,
}

impl View for Location {
    type V = LocationV;

    open spec fn view(&self) -> LocationV {
        LocationV {
            latitude: self.latitude@,
            longitude: self.longitude@,
            resolution_deg: self.resolution_deg@,
        }
    }
}

/// The values of an optional location.
pub open spec fn opt_location(o: Option<Location>) -> Option<LocationV> {
    match o {
        Some(l) => Some(l@),
        None => None,
    }
}

impl Location {
    pub fn duplicate(&self) -> (r: Location)
        ensures
            r@ == self@,
    {
        Location {
            latitude: self.latitude.duplicate(),
            longitude: self.longitude.duplicate(),
            resolution_deg: self.resolution_deg.duplicate(),
        }
    }
}

/// A copy of an optional location.
pub fn copy_opt_location(o: &Option<Location>) -> (r: Option<Location>)
    ensures
        opt_location(r) == opt_location(*o),
{
    match o {
        Some(l) => Some(l.duplicate()),
        None => None,
    }
}

#[derive(Debug, Clone)]
pub struct MetadataRevision {
    pub effective_from: Timestamp,
    pub name: String,
    pub kana: Option<String>,
    pub region: Option<Area>,
    pub city: Option<Area>,
    /// `None` means "we do not know where this station is", which is always
    /// preferable to inheriting a coordinate that may belong to a different
    /// site.
    pub location: Option<Location>,
    pub provider: Provider,
    pub provider_detail: Option<String>,
}

pub struct RevisionV {
    pub effective_from: TimeV,
    pub name: Seq<char>,
    pub kana: Option<Seq<char>>,
    pub region: Option<AreaV>,
    pub city: Option<AreaV>,
    pub location: Option<LocationV>,
    pub provider: Provider,
    pub provider_detail: Option<Seq<char>>,
}

impl View for MetadataRevision {
    type V = RevisionV;

    open spec fn view(&self) -> RevisionV {
        RevisionV {
            effective_from: self.effective_from@,
            name: self.name@,
            kana: opt_text(self.kana),
            region: opt_area(self.region),
            city: opt_area(self.city),
            location: opt_location(self.location),
            provider: self.provider,
            provider_detail: opt_text(self.provider_detail),
        }
    }
}

impl MetadataRevision {
    pub fn duplicate(&self) -> (r: MetadataRevision)
        ensures
            r@ == self@,
    {
        MetadataRevision {
            effective_from: self.effective_from.duplicate(),
            name: self.name.clone(),
            kana: copy_opt_string(&self.kana),
            region: copy_opt_area(&self.region),
            city: copy_opt_area(&self.city),
            location: copy_opt_location(&self.location),
            provider: self.provider,
            provider_detail: copy_opt_string(&self.provider_detail),
        }
    }
}

#[derive(Debug, Clone)]
pub struct LifecycleEvent {
    pub effective_from: Timestamp,
    pub active: bool,
}

pub struct LifecycleV {
    pub effective_from: TimeV,
    pub active: bool,
}

impl View for LifecycleEvent {
    type V = LifecycleV;

    open spec fn view(&self) -> LifecycleV {
        LifecycleV { effective_from: self.effective_from@, active: self.active }
    }
}

impl LifecycleEvent {
    pub fn duplicate(&self) -> (r: LifecycleEvent)
        ensures
            r@ == self@,
    {
        LifecycleEvent { effective_from: self.effective_from.duplicate(), active: self.active }
    }
}

#[derive(Debug, Clone)]
pub struct ScopeEvent {
    pub effective_from: Timestamp,
    pub scope: Scope,
    pub enabled: bool,
}

pub struct ScopeEventV {
    pub effective_from: TimeV,
    pub scope: Scope,
    pub enabled: bool,
}

impl View for ScopeEvent {
    type V = ScopeEventV;

    open spec fn view(&self) -> ScopeEventV {
        ScopeEventV { effective_from: self.effective_from@, scope: self.scope, enabled: self.enabled }
    }
}

impl ScopeEvent {
    pub fn duplicate(&self) -> (r: ScopeEvent)
        ensures
            r@ == self@,
    {
        ScopeEvent {
            effective_from: self.effective_from.duplicate(),
            scope: self.scope,
            enabled: self.enabled,
        }
    }
}

/// The index of the latest revision in force at `at`: the last one whose
/// `effective_from` is not after `at`.
pub open spec fn revision_index_at(revisions: Seq<RevisionV>, at: TimeV) -> Option<int>
    decreases revisions.len(),
{
    if revisions.len() == 0 {
        None
    } else if revisions.last().effective_from.not_after(at) {
        Some(revisions.len() - 1)
    } else {
        revision_index_at(revisions.drop_last(), at)
    }
}

/// Whether the station exists at `at`, by the last lifecycle event not after
/// it; `None` when there is no such event.
pub open spec fn active_at(events: Seq<LifecycleV>, at: TimeV) -> Option<bool>
    decreases events.len(),
{
    if events.len() == 0 {
        None
    } else if events.last().effective_from.not_after(at) {
        Some(events.last().active)
    } else {
        active_at(events.drop_last(), at)
    }
}

/// Whether `scope` is enabled at `at`, by the last event for that scope not
/// after it; `None` when there is no such event.
pub open spec fn scope_state_at(events: Seq<ScopeEventV>, scope: Scope, at: TimeV) -> Option<
    bool,
>
    decreases events.len(),
{
    if events.len() == 0 {
        None
    } else if events.last().scope == scope && events.last().effective_from.not_after(at) {
        Some(events.last().enabled)
    } else {
        scope_state_at(events.drop_last(), scope, at)
    }
}

#[derive(Debug, Clone)]
pub struct Station {
    pub code: String,
    pub lifecycle: Vec<LifecycleEvent>,
    pub scope_events: Vec<ScopeEvent>,
    pub metadata: Vec<MetadataRevision>,
}

pub struct StationV {
    pub code: Seq<char>,
    pub lifecycle: Seq<LifecycleV>,
    pub scope_events: Seq<ScopeEventV>,
    pub metadata: Seq<RevisionV>,
}

impl View for Station {
    type V = StationV;

    open spec fn view(&self) -> StationV {
        StationV {
            code: self.code@,
            lifecycle: self.lifecycle@.map_values(|e: LifecycleEvent| e@),
            scope_events: self.scope_events@.map_values(|e: ScopeEvent| e@),
            metadata: self.metadata@.map_values(|r: MetadataRevision| r@),
        }
    }
}

impl Station {
    pub fn new(code: String) -> (s: Station)
        ensures
            s@.code == code@,
            s@.lifecycle.len() == 0,
            s@.scope_events.len() == 0,
            s@.metadata.len() == 0,
    {
        Station { code, lifecycle: Vec::new(), scope_events: Vec::new(), metadata: Vec::new() }
    }

    /// The metadata revision in force at `at`, i.e. the latest one whose
    /// `effective_from <= at`.
    pub fn metadata_at(&self, at: &Timestamp) -> (r: Option<&MetadataRevision>)
        ensures
            match revision_index_at(self@.metadata, at@) {
                Some(k) => r matches Some(rev) && rev@ == self@.metadata[k],
                None => r is None,
            },
    {
        let mut i = self.metadata.len();
        assert(self@.metadata.take(i as int) =~= self@.metadata);
        while i > 0
            invariant
                i <= self.metadata@.len(),
                revision_index_at(self@.metadata, at@) == revision_index_at(
                    self@.metadata.take(i as int),
                    at@,
                ),
            decreases i,
        {
            let ghost prefix = self@.metadata.take(i as int);
            assert(prefix.drop_last() =~= self@.metadata.take(i - 1));
            if self.metadata[i - 1].effective_from.not_after(at) {
                return Some(&self.metadata[i - 1]);
            }
            i = i - 1;
        }
        assert(self@.metadata.take(0) =~= Seq::<RevisionV>::empty());
        None
    }

    pub fn is_active_at(&self, at: &Timestamp) -> (r: Option<bool>)
        ensures
            r == active_at(self@.lifecycle, at@),
    {
        let mut i = self.lifecycle.len();
        assert(self@.lifecycle.take(i as int) =~= self@.lifecycle);
        while i > 0
            invariant
                i <= self.lifecycle@.len(),
                active_at(self@.lifecycle, at@) == active_at(self@.lifecycle.take(i as int), at@),
            decreases i,
        {
            let ghost prefix = self@.lifecycle.take(i as int);
            assert(prefix.drop_last() =~= self@.lifecycle.take(i - 1));
            if self.lifecycle[i - 1].effective_from.not_after(at) {
                return Some(self.lifecycle[i - 1].active);
            }
            i = i - 1;
        }
        assert(self@.lifecycle.take(0) =~= Seq::<LifecycleV>::empty());
        None
    }

    pub fn scope_enabled_at(&self, scope: Scope, at: &Timestamp) -> (r: Option<bool>)
        ensures
            r == scope_state_at(self@.scope_events, scope, at@),
    {
        scope_state_in(&self.scope_events, scope, at)
    }

    pub fn duplicate(&self) -> (r: Station)
        ensures
            r@ == self@,
    {
        Station {
            code: self.code.clone(),
            lifecycle: copy_lifecycle(&self.lifecycle),
            scope_events: copy_scope_events(&self.scope_events),
            metadata: copy_revisions(&self.metadata),
        }
    }
}

/// The state of `scope` at `at` in a list of scope events.
pub fn scope_state_in(events: &Vec<ScopeEvent>, scope: Scope, at: &Timestamp) -> (r: Option<bool>)
    ensures
        r == scope_state_at(events@.map_values(|e: ScopeEvent| e@), scope, at@),
{
    let ghost all = events@.map_values(|e: ScopeEvent| e@);
    let mut i = events.len();
    assert(all.take(i as int) =~= all);
    while i > 0
        invariant
            i <= events@.len(),
            all == events@.map_values(|e: ScopeEvent| e@),
            scope_state_at(all, scope, at@) == scope_state_at(all.take(i as int), scope, at@),
        decreases i,
    {
        let ghost prefix = all.take(i as int);
        assert(prefix.drop_last() =~= all.take(i - 1));
        if events[i - 1].scope == scope && events[i - 1].effective_from.not_after(at) {
            return Some(events[i - 1].enabled);
        }
        i = i - 1;
    }
    assert(all.take(0) =~= Seq::<ScopeEventV>::empty());
    None
}

pub fn copy_lifecycle(v: &Vec<LifecycleEvent>) -> (r: Vec<LifecycleEvent>)
    ensures
        r@.map_values(|e: LifecycleEvent| e@) == v@.map_values(|e: LifecycleEvent| e@),
{
    let mut r: Vec<LifecycleEvent> = Vec::new();
    for i in 0..v.len()
        invariant
            r@.len() == i,
            forall|j: int| 0 <= j < i ==> #[trigger] r@[j]@ == v@[j]@,
    {
        r.push(v[i].duplicate());
    }
    assert(r@.map_values(|e: LifecycleEvent| e@) =~= v@.map_values(|e: LifecycleEvent| e@));
    r
}

pub fn copy_scope_events(v: &Vec<ScopeEvent>) -> (r: Vec<ScopeEvent>)
    ensures
        r@.map_values(|e: ScopeEvent| e@) == v@.map_values(|e: ScopeEvent| e@),
{
    let mut r: Vec<ScopeEvent> = Vec::new();
    for i in 0..v.len()
        invariant
            r@.len() == i,
            forall|j: int| 0 <= j < i ==> #[trigger] r@[j]@ == v@[j]@,
    {
        r.push(v[i].duplicate());
    }
    assert(r@.map_values(|e: ScopeEvent| e@) =~= v@.map_values(|e: ScopeEvent| e@));
    r
}

pub fn copy_revisions(v: &Vec<MetadataRevision>) -> (r: Vec<MetadataRevision>)
    ensures
        r@.map_values(|e: MetadataRevision| e@) == v@.map_values(|e: MetadataRevision| e@),
{
    let mut r: Vec<MetadataRevision> = Vec::new();
    for i in 0..v.len()
        invariant
            r@.len() == i,
            forall|j: int| 0 <= j < i ==> #[trigger] r@[j]@ == v@[j]@,
    {
        r.push(v[i].duplicate());
    }
    assert(r@.map_values(|e: MetadataRevision| e@) =~= v@.map_values(|e: MetadataRevision| e@));
    r
}

#[derive(Debug, Clone)]
pub struct Release {
    pub id: String,
    pub effective_from: Timestamp,
    /// Length of the canonical station table as of this release: the number
    /// of index slots an encoder must be prepared to address. It never
    /// decreases.
    pub index_count: usize,
}

pub struct ReleaseV {
    pub id: Seq<char>,
    pub effective_from: TimeV,
    pub index_count: nat,
}

impl View for Release {
    type V = ReleaseV;

    open spec fn view(&self) -> ReleaseV {
        ReleaseV { id: self.id@, effective_from: self.effective_from@, index_count: self.index_count as nat }
    }
}

impl Release {
    pub fn duplicate(&self) -> (r: Release)
        ensures
            r@ == self@,
    {
        Release {
            id: self.id.clone(),
            effective_from: self.effective_from.duplicate(),
            index_count: self.index_count,
        }
    }
}

#[derive(Debug, Clone)]
pub struct Master {
    pub schema_version: u32,
    pub source_kind: SourceKind,
    pub generated_at: Timestamp,
    pub releases: Vec<Release>,
    pub stations: Vec<Station>,
}

pub struct MasterV {
    pub schema_version: nat,
    pub source_kind: SourceKind,
    pub generated_at: TimeV,
    pub releases: Seq<ReleaseV>,
    pub stations: Seq<StationV>,
}

impl View for Master {
    type V = MasterV;

    open spec fn view(&self) -> MasterV {
        MasterV {
            schema_version: self.schema_version as nat,
            source_kind: self.source_kind,
            generated_at: self.generated_at@,
            releases: self.releases@.map_values(|r: Release| r@),
            stations: self.stations@.map_values(|s: Station| s@),
        }
    }
}

impl Master {
    pub fn empty(source_kind: SourceKind, generated_at: Timestamp) -> (m: Master)
        ensures
            m@.schema_version == SCHEMA_VERSION,
            m@.source_kind == source_kind,
            m@.generated_at == generated_at@,
            m@.releases.len() == 0,
            m@.stations.len() == 0,
    {
        Master {
            schema_version: SCHEMA_VERSION,
            source_kind,
            generated_at,
            releases: Vec::new(),
            stations: Vec::new(),
        }
    }
}

} // verus!
