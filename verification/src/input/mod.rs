//! Input adapters.
//!
//! Every input format is normalized into a [`Snapshot`] before it reaches
//! [`crate::append`], so the append rules never learn what a spreadsheet or a
//! JSON feed looks like.

use vstd::prelude::*;


use crate::decimal::{
    decimal_places, lemma_tenth_power_order, resolution_from_decimals, tenth_power, text_value, Decimal,
    DecimalV,
};
pub mod code_table_xlsx;
pub mod jma_public;
pub mod station_json;

use crate::model::{
    copy_opt_string, opt_area, opt_location, opt_text, Area, AreaV, Location, LocationV, Provider, Scope,
    SourceKind,
};
use crate::text::{debug_quoted, join2, quoted, trim, trimmed};
use crate::time::{TimeV, Timestamp};

verus! {

/// Something worth telling the operator about that is not fatal.
#[derive(Debug, Clone)]
pub struct Warning {
    pub code: &'static str,
    pub subject: Option<String>,
    pub message: String,
}

pub struct WarningV {
    pub code: Seq<char>,
    pub subject: Option<Seq<char>>,
    pub message: Seq<char>,
}

impl View for Warning {
    type V = WarningV;

    open spec fn view(&self) -> WarningV {
        WarningV { code: self.code@, subject: opt_text(self.subject), message: self.message@ }
    }
}

impl WarningV {
    /// `code: subject: message`, or `code: message` without a subject.
    pub open spec fn text(self) -> Seq<char> {
        match self.subject {
            Some(subject) => self.code + ": "@ + subject + ": "@ + self.message,
            None => self.code + ": "@ + self.message,
        }
    }
}

impl Warning {
    pub fn new(code: &'static str, subject: Option<String>, message: String) -> (w: Warning)
        ensures
            w@ == (WarningV { code: code@, subject: opt_text(subject), message: message@ }),
    {
        Warning { code, subject, message }
    }

    pub fn duplicate(&self) -> (w: Warning)
        ensures
            w@ == self@,
    {
        Warning {
            code: self.code,
            subject: copy_opt_string(&self.subject),
            message: self.message.clone(),
        }
    }

    /// The warning as one line of text.
    pub fn to_text(&self) -> (s: String)
        ensures
            s@ == self@.text(),
    {
        let mut s = String::from_str(self.code);
        s.append(": ");
        match &self.subject {
            Some(subject) => {
                s.append(subject.as_str());
                s.append(": ");
            },
            None => {},
        }
        s.append(self.message.as_str());
        assert(s@ =~= self@.text());
        s
    }
}

/// The identity-independent facts a snapshot reports about one station.
#[derive(Debug, Clone)]
pub struct StationMetadata {
    pub name: String,
    pub kana: Option<String>,
    pub region: Option<Area>,
    pub city: Option<Area>,
    pub location: Option<Location>,
    pub provider: Provider,
    pub provider_detail: Option<String>,
}

pub struct StationMetadataV {
    pub name: Seq<char>,
    pub kana: Option<Seq<char>>,
    pub region: Option<AreaV>,
    pub city: Option<AreaV>,
    pub location: Option<LocationV>,
    pub provider: Provider,
    pub provider_detail: Option<Seq<char>>,
}

impl View for StationMetadata {
    type V = StationMetadataV;

    open spec fn view(&self) -> StationMetadataV {
        StationMetadataV {
            name: self.name@,
            kana: opt_text(self.kana),
            region: opt_area(self.region),
            city: opt_area(self.city),
            location: opt_location(self.location),
            provider: self.provider,
            provider_detail: opt_text(self.provider_detail),
        }
    }
}

#[derive(Debug, Clone)]
pub struct SnapshotStation {
    pub code: String,
    /// `None` when the source carries no evidence either way. Absence from a
    /// feed is never evidence of retirement.
    pub active: Option<bool>,
    /// Scopes this snapshot positively vouches for.
    pub scopes: Vec<Scope>,
    pub metadata: StationMetadata,
}

pub struct SnapshotStationV {
    pub code: Seq<char>,
    pub active: Option<bool>,
    pub scopes: Seq<Scope>,
    pub metadata: StationMetadataV,
}

impl View for SnapshotStation {
    type V = SnapshotStationV;

    open spec fn view(&self) -> SnapshotStationV {
        SnapshotStationV {
            code: self.code@,
            active: self.active,
            scopes: self.scopes@,
            metadata: self.metadata@,
        }
    }
}

/// One release as seen through one input format.
#[derive(Debug, Clone)]
pub struct Snapshot {
    pub source_kind: SourceKind,
    pub release_id: String,
    pub effective_from: Timestamp,
    pub stations: Vec<SnapshotStation>,
    /// Scopes this snapshot enumerates exhaustively: only for these may
    /// absence from the snapshot be read as having left the scope.
    pub complete_scopes: Vec<Scope>,
    pub warnings: Vec<Warning>,
}

pub struct SnapshotV {
    pub source_kind: SourceKind,
    pub release_id: Seq<char>,
    pub effective_from: TimeV,
    pub stations: Seq<SnapshotStationV>,
    pub complete_scopes: Seq<Scope>,
    pub warnings: Seq<WarningV>,
}

impl View for Snapshot {
    type V = SnapshotV;

    open spec fn view(&self) -> SnapshotV {
        SnapshotV {
            source_kind: self.source_kind,
            release_id: self.release_id@,
            effective_from: self.effective_from@,
            stations: self.stations@.map_values(|s: SnapshotStation| s@),
            complete_scopes: self.complete_scopes@,
            warnings: self.warnings@.map_values(|w: Warning| w@),
        }
    }
}

impl SnapshotV {
    /// The station codes, in snapshot order.
    pub open spec fn codes(self) -> Seq<Seq<char>> {
        self.stations.map_values(|s: SnapshotStationV| s.code)
    }
}

/// A copy of a list of warnings.
pub fn copy_warnings(v: &Vec<Warning>) -> (r: Vec<Warning>)
    ensures
        r@.map_values(|w: Warning| w@) == v@.map_values(|w: Warning| w@),
{
    let mut r: Vec<Warning> = Vec::new();
    for i in 0..v.len()
        invariant
            r@.len() == i,
            forall|j: int| 0 <= j < i ==> #[trigger] r@[j]@ == v@[j]@,
    {
        r.push(v[i].duplicate());
    }
    assert(r@.map_values(|w: Warning| w@) =~= v@.map_values(|w: Warning| w@));
    r
}


// ---------------------------------------------------------------------------
// Coordinates.
// ---------------------------------------------------------------------------

/// A coordinate as the feed wrote it.
///
/// The published feed quotes most coordinates but emits a minority of them as
/// bare JSON numbers, so both spellings have to be accepted. The written form is
/// kept rather than only the parsed value, because the number of decimals is
/// itself information: it says how precisely the publisher pinned the location
/// down.
#[derive(Debug, Clone)]
pub enum RawCoordinate {
    /// A quoted coordinate.
    Text(String),
    /// A bare JSON number, in the text `serde_json` writes back for it.
    Number(String),
}

impl RawCoordinate {
    /// The coordinate as written: quoted text without surrounding white
    /// space, or the number's text.
    pub open spec fn spec_as_written(&self) -> Seq<char> {
        match self {
            RawCoordinate::Text(text) => trimmed(text@),
            RawCoordinate::Number(number) => number@,
        }
    }

    pub fn as_written(&self) -> (r: String)
        ensures
            r@ == self.spec_as_written(),
    {
        match self {
            RawCoordinate::Text(text) => trim(text.as_str()),
            RawCoordinate::Number(number) => number.clone(),
        }
    }
}

/// The written text of an optional coordinate; empty when it is absent.
pub open spec fn written(c: Option<&RawCoordinate>) -> Seq<char> {
    match c {
        Some(x) => x.spec_as_written(),
        None => Seq::empty(),
    }
}

/// Whether `d` is the value that the text `s` reads as.
pub open spec fn decimal_reads(d: DecimalV, s: Seq<char>) -> bool {
    text_value(s) == Some(d)
}

/// Whether a coordinate was written but is not a number as Rust's `f64`
/// reader understands one.
pub open spec fn malformed(text: Seq<char>) -> bool {
    text.len() > 0 && text_value(text) is None
}

/// The complaint about a malformed axis.
pub open spec fn malformed_message(subject: Seq<char>, axis: Seq<char>, text: Seq<char>) -> Seq<
    char,
> {
    subject + ": malformed "@ + axis + " "@ + debug_quoted(text)
}

/// The smaller of two numbers.
pub open spec fn min_nat(a: nat, b: nat) -> nat {
    if a <= b {
        a
    } else {
        b
    }
}

/// Whether `loc` is what a pair of written coordinates reads as: nothing
/// when either is blank, otherwise both values, at the resolution of the
/// axis with fewer places.
pub open spec fn location_read(loc: Option<LocationV>, lat: Seq<char>, lon: Seq<char>) -> bool {
    match loc {
        None => lat.len() == 0 || lon.len() == 0,
        Some(l) => {
            &&& lat.len() > 0
            &&& lon.len() > 0
            &&& decimal_reads(l.latitude, lat)
            &&& decimal_reads(l.longitude, lon)
            &&& l.resolution_deg == tenth_power(min_nat(decimal_places(lat), decimal_places(lon)))
        },
    }
}

/// The outcome of reading a coordinate pair, when neither axis is malformed.
pub open spec fn coordinate_fault(subject: Seq<char>, lat: Seq<char>, lon: Seq<char>) -> Option<
    Seq<char>,
> {
    if malformed(lat) {
        Some(malformed_message(subject, "latitude"@, lat))
    } else if malformed(lon) {
        Some(malformed_message(subject, "longitude"@, lon))
    } else {
        None
    }
}

/// Parse a coordinate pair, recovering the precision from how it was written.
///
/// The pair is only as well determined as its coarser axis, so its resolution
/// is ten to the minus the smaller of the two decimal counts. That also keeps a
/// bare number such as `141.70499999999998` from claiming a precision its
/// companion latitude `"42.42"` plainly does not have.
///
/// A missing coordinate is unresolved (`None`); a present but unreadable one is
/// a corrupt feed and an error, whether or not the other axis is present, so a
/// broken export cannot erase the coordinate set one release at a time. A
/// coordinate is read as any number Rust's `f64` reader accepts, and held
/// exactly (see [`crate::decimal`]).
pub fn parse_coordinate_pair(
    latitude: Option<&RawCoordinate>,
    longitude: Option<&RawCoordinate>,
    subject: &str,
) -> (r: Result<Option<Location>, String>)
    ensures
        r is Err <==> coordinate_fault(subject@, written(latitude), written(longitude)) is Some,
        r matches Err(e) ==> coordinate_fault(subject@, written(latitude), written(longitude))
            == Some(e@),
        r matches Ok(o) ==> location_read(opt_location(o), written(latitude), written(longitude)),
{
    let lat_text = match latitude {
        Some(c) => c.as_written(),
        None => String::new(),
    };
    let lon_text = match longitude {
        Some(c) => c.as_written(),
        None => String::new(),
    };
    let lat = if lat_text.as_str().is_empty() {
        None
    } else {
        match Decimal::parse(lat_text.as_str()) {
            Some(d) => Some(d),
            None => {
                let mut e = join2(subject, ": malformed latitude ");
                e.append(quoted(lat_text.as_str()).as_str());
                proof {
                    reveal_strlit(": malformed latitude ");
                    reveal_strlit(": malformed ");
                    reveal_strlit("latitude");
                    reveal_strlit(" ");
                    assert(e@ =~= malformed_message(subject@, "latitude"@, lat_text@));
                }
                return Err(e);
            },
        }
    };
    let lon = if lon_text.as_str().is_empty() {
        None
    } else {
        match Decimal::parse(lon_text.as_str()) {
            Some(d) => Some(d),
            None => {
                let mut e = join2(subject, ": malformed longitude ");
                e.append(quoted(lon_text.as_str()).as_str());
                proof {
                    reveal_strlit(": malformed longitude ");
                    reveal_strlit(": malformed ");
                    reveal_strlit("longitude");
                    reveal_strlit(" ");
                    assert(e@ =~= malformed_message(subject@, "longitude"@, lon_text@));
                }
                return Err(e);
            },
        }
    };
    match (lat, lon) {
        (Some(a), Some(b)) => {
            let lat_res = resolution_from_decimals(lat_text.as_str());
            let lon_res = resolution_from_decimals(lon_text.as_str());
            // The coarser axis decides: the larger cell, from the fewer places.
            let resolution = if lat_res.at_least(&lon_res) {
                lat_res
            } else {
                lon_res
            };
            proof {
                lemma_tenth_power_order(decimal_places(lat_text@), decimal_places(lon_text@));
            }
            Ok(Some(Location { latitude: a, longitude: b, resolution_deg: resolution }))
        },
        _ => Ok(None),
    }
}

} // verus!
