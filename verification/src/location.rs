//! Comparing coordinates that were reported at different precisions.
//!
//! A coordinate is not a point but a quantization cell: `35.12` from a
//! two-decimal source means the true latitude lies in `[35.115, 35.125)`. Treating
//! it as a point makes every precision change look like a relocation, which would
//! spray bogus metadata revisions across the history.
//!
//! Coordinates are exact decimals here, so the half-open cell is tested
//! exactly, doubled so that half a resolution needs no division.

use vstd::prelude::*;

use crate::decimal::{
    at_least, digits_value, lemma_pow10_positive, lin3, lowest, pow10, scaled, sign3, zero_value, Decimal,
    DecimalV, Kind,
};
use crate::model::{Location, LocationV};

verus! {

/// Whether `value` lies in the half-open cell `[center - resolution / 2,
/// center + resolution / 2)`, as binary floats would find it: never with a
/// NaN or an infinite center, always (but for an infinite value) in an
/// infinitely wide cell, and exactly otherwise.
pub open spec fn in_cell(center: DecimalV, resolution: DecimalV, value: DecimalV) -> bool {
    if center.kind == Kind::NotANumber || resolution.kind == Kind::NotANumber || value.kind
        == Kind::NotANumber {
        false
    } else if center.kind == Kind::Infinite {
        false
    } else if resolution.kind == Kind::Infinite {
        !resolution.negative && !(value.kind == Kind::Infinite && !value.negative)
    } else if value.kind == Kind::Infinite {
        false
    } else {
        &&& lin3(2, value, -2, center, 1, resolution) >= 0
        &&& lin3(2, center, 1, resolution, -2, value) > 0
    }
}

/// Whether `fine` falls inside the quantization cell `coarse` denotes, on
/// both axes.
pub open spec fn cell_holds(coarse: LocationV, fine: LocationV) -> bool {
    &&& in_cell(coarse.latitude, coarse.resolution_deg, fine.latitude)
    &&& in_cell(coarse.longitude, coarse.resolution_deg, fine.longitude)
}

/// Whether two coordinates can denote the same site: the one with the larger
/// cell (the first, when the cells are equal) holds the other.
pub open spec fn spec_same_point(a: LocationV, b: LocationV) -> bool {
    if at_least(a.resolution_deg, b.resolution_deg) {
        cell_holds(a, b)
    } else {
        cell_holds(b, a)
    }
}

/// Whether two possibly-absent readings describe the same place.
pub open spec fn spec_same_place(a: Option<LocationV>, b: Option<LocationV>) -> bool {
    match (a, b) {
        (None, None) => true,
        (Some(x), Some(y)) => spec_same_point(x, y),
        _ => false,
    }
}

fn axis_contains(center: &Decimal, resolution: &Decimal, value: &Decimal) -> (r: bool)
    ensures
        r == in_cell(center@, resolution@, value@),
{
    if center.kind() == Kind::NotANumber || resolution.kind() == Kind::NotANumber || value.kind()
        == Kind::NotANumber {
        false
    } else if center.kind() == Kind::Infinite {
        false
    } else if resolution.kind() == Kind::Infinite {
        !resolution.is_negative() && !(value.kind() == Kind::Infinite && !value.is_negative())
    } else if value.kind() == Kind::Infinite {
        false
    } else {
        sign3(2, value, -2, center, 1, resolution) >= 0 && sign3(2, center, 1, resolution, -2, value)
            > 0
    }
}

fn cell_contains(coarse: &Location, fine: &Location) -> (r: bool)
    ensures
        r == cell_holds(coarse@, fine@),
{
    axis_contains(&coarse.latitude, &coarse.resolution_deg, &fine.latitude) && axis_contains(
        &coarse.longitude,
        &coarse.resolution_deg,
        &fine.longitude,
    )
}

/// Whether two coordinates can denote the same physical site.
///
/// The coarser reading is treated as the cell and the finer one as the point, so
/// `35.1234 / 0.0001` and `35.12 / 0.01` are the same place, while a genuine move
/// out of the cell is not.
pub fn same_point(a: &Location, b: &Location) -> (r: bool)
    ensures
        r == spec_same_point(a@, b@),
{
    if a.resolution_deg.at_least(&b.resolution_deg) {
        cell_contains(a, b)
    } else {
        cell_contains(b, a)
    }
}

/// The values of a borrowed optional location.
pub open spec fn opt_location_ref(o: Option<&Location>) -> Option<LocationV> {
    match o {
        Some(x) => Some(x@),
        None => None,
    }
}

/// Whether two possibly-absent readings describe the same place.
///
/// A finer reading of a site already on record is not a change: the station has
/// not moved, only the publisher's precision has.
pub fn same_place(a: Option<&Location>, b: Option<&Location>) -> (r: bool)
    ensures
        r == spec_same_place(opt_location_ref(a), opt_location_ref(b)),
{
    match (a, b) {
        (None, None) => true,
        (Some(x), Some(y)) => same_point(x, y),
        _ => false,
    }
}

/// A positive number in its own units: its digits' value, times a power of
/// ten, is positive whatever the scale.
proof fn lemma_positive_scaled(d: DecimalV, e: int, f: int)
    requires
        e <= d.exp,
        f <= d.exp,
        scaled(d, e) > 0,
    ensures
        scaled(d, f) > 0,
{
    lemma_pow10_positive((d.exp - e) as nat);
    lemma_pow10_positive((d.exp - f) as nat);
    let v = digits_value(d.digits) as int;
    assert(v * pow10((d.exp - e) as nat) > 0 ==> v > 0) by (nonlinear_arith)
        requires pow10((d.exp - e) as nat) >= 1, v >= 0;
    assert(v > 0 ==> v * pow10((d.exp - f) as nat) > 0) by (nonlinear_arith)
        requires pow10((d.exp - f) as nat) >= 1;
}

/// Every finite reading with a finite positive resolution denotes the same
/// site as itself.
pub proof fn law_same_point_reflexive(a: LocationV)
    requires
        a.latitude.kind == Kind::Finite,
        a.longitude.kind == Kind::Finite,
        a.resolution_deg.kind == Kind::Finite,
        lin3(1, a.resolution_deg, 0, zero_value(), 0, zero_value()) > 0,
    ensures
        spec_same_point(a, a),
{
    let r = a.resolution_deg;
    let z = zero_value();
    let e0 = lowest(r.exp, z.exp, z.exp);
    assert(digits_value(z.digits) == 0);
    assert(scaled(z, e0) == 0) by {
        let q = pow10((z.exp - e0) as nat);
        assert(0int * q == 0) by (nonlinear_arith);
    }
    assert(scaled(r, e0) > 0);
    lemma_positive_scaled(r, e0, lowest(a.latitude.exp, a.latitude.exp, r.exp));
    lemma_positive_scaled(r, e0, lowest(a.longitude.exp, a.longitude.exp, r.exp));
    lemma_positive_scaled(r, e0, lowest(a.latitude.exp, r.exp, a.latitude.exp));
    lemma_positive_scaled(r, e0, lowest(a.longitude.exp, r.exp, a.longitude.exp));
    assert(lowest(a.latitude.exp, a.latitude.exp, r.exp) == lowest(a.latitude.exp, r.exp, a.latitude.exp));
    assert(lowest(a.longitude.exp, a.longitude.exp, r.exp) == lowest(a.longitude.exp, r.exp, a.longitude.exp));
    assert(r.exp >= 0 || r.exp < 0);
    assert(at_least(r, r)) by {
        let e = lowest(r.exp, r.exp, z.exp);
        assert(lin3(1, r, -1, r, 0, z) == 0);
    }
}

/// Readings whose finite resolutions differ are compared the same way
/// whichever is named first: the coarser one is always the cell.
pub proof fn law_same_point_symmetric_across_precisions(a: LocationV, b: LocationV)
    requires
        a.resolution_deg.kind == Kind::Finite,
        b.resolution_deg.kind == Kind::Finite,
        lin3(1, a.resolution_deg, -1, b.resolution_deg, 0, zero_value()) != 0,
    ensures
        spec_same_point(a, b) == spec_same_point(b, a),
{
    let ra = a.resolution_deg;
    let rb = b.resolution_deg;
    let z = zero_value();
    assert(lowest(ra.exp, rb.exp, z.exp) == lowest(rb.exp, ra.exp, z.exp));
    assert(lin3(1, rb, -1, ra, 0, z) == -lin3(1, ra, -1, rb, 0, z));
}

/// A reading taken inside a strictly coarser reading's cell is the same
/// place, and any reading is a different place from a missing one.
pub proof fn law_finer_reading_inside_the_cell_is_the_same_place(coarse: LocationV, fine: LocationV)
    requires
        at_least(coarse.resolution_deg, fine.resolution_deg),
        !at_least(fine.resolution_deg, coarse.resolution_deg),
        cell_holds(coarse, fine),
    ensures
        spec_same_place(Some(coarse), Some(fine)),
        spec_same_place(Some(fine), Some(coarse)),
        !spec_same_place(Some(fine), None),
        !spec_same_place(None, Some(fine)),
        spec_same_place(None, None),
{
}

} // verus!
