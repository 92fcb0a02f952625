use jma_station_master::decimal::Decimal;
use jma_station_master::location::{same_place, same_point};
use jma_station_master::model::Location;

fn dec(text: &str) -> Decimal {
    Decimal::parse(text).expect("a number")
}

fn loc(latitude: &str, longitude: &str, resolution_deg: &str) -> Location {
    Location { latitude: dec(latitude), longitude: dec(longitude), resolution_deg: dec(resolution_deg) }
}

#[test]
fn coarse_cell_contains_fine_coordinate() {
    let coarse = loc("35.12", "135.68", "0.01");
    let fine = loc("35.1234", "135.6789", "0.0001");
    assert!(same_point(&coarse, &fine));
    assert!(same_point(&fine, &coarse));
}

#[test]
fn cell_is_half_open() {
    let coarse = loc("35.12", "135.68", "0.01");
    // Lower bound is inside the cell.
    assert!(same_point(&coarse, &loc("35.115", "135.68", "0.0001")));
    // Upper bound belongs to the next cell.
    assert!(!same_point(&coarse, &loc("35.125", "135.68", "0.0001")));
}

#[test]
fn longitude_is_checked_too() {
    let coarse = loc("35.12", "135.68", "0.01");
    assert!(!same_point(&coarse, &loc("35.1234", "135.6889", "0.0001")));
}

#[test]
fn a_real_move_leaves_the_cell() {
    let before = loc("35.1234", "135.6789", "0.0001");
    let after = loc("35.2300", "135.4100", "0.0001");
    assert!(!same_point(&before, &after));
}

#[test]
fn identical_fine_coordinates_are_the_same_point() {
    let a = loc("35.1234", "135.6789", "0.0001");
    assert!(same_point(&a, &a));
}

#[test]
fn adjacent_fine_coordinates_are_different_points() {
    let a = loc("35.1234", "135.6789", "0.0001");
    let b = loc("35.1235", "135.6789", "0.0001");
    assert!(!same_point(&a, &b));
}

#[test]
fn a_finer_reading_of_the_same_site_is_the_same_place() {
    // Only the publisher's precision changed, so there is nothing to record.
    let fine = loc("35.1234", "135.6789", "0.0001");
    let coarse = loc("35.12", "135.68", "0.01");
    assert!(same_place(Some(&fine), Some(&coarse)));
    assert!(same_place(Some(&coarse), Some(&fine)));
}

#[test]
fn a_missing_reading_is_not_the_same_as_a_known_one() {
    let fine = loc("35.1234", "135.6789", "0.0001");
    assert!(same_place(None, None));
    assert!(!same_place(Some(&fine), None));
    assert!(!same_place(None, Some(&fine)));
}

#[test]
fn a_move_is_not_the_same_place() {
    let before = loc("35.1234", "135.6789", "0.0001");
    let after = loc("35.2300", "135.4100", "0.0001");
    assert!(!same_place(Some(&before), Some(&after)));
}

#[test]
fn negative_coordinates_use_the_same_cell() {
    let coarse = loc("-35.12", "-135.68", "0.01");
    assert!(same_point(&coarse, &loc("-35.125", "-135.68", "0.0001")));
    assert!(!same_point(&coarse, &loc("-35.115", "-135.68", "0.0001")));
}

#[test]
fn readings_with_an_exponent_are_compared_exactly() {
    let coarse = loc("3.512e1", "1.3568e2", "1e-2");
    let fine = loc("35.1234", "135.6789", "0.0001");
    assert!(same_point(&coarse, &fine));
    assert!(!same_point(&coarse, &loc("3.5125E1", "135.68", "0.0001")));
}

#[test]
fn a_nan_coordinate_is_never_the_same_place() {
    let a = loc("nan", "135.68", "0.01");
    assert!(!same_point(&a, &a));
}

#[test]
fn an_infinitely_wide_cell_holds_every_finite_reading() {
    let wide = loc("35", "135", "inf");
    assert!(same_point(&wide, &loc("-80", "10", "0.01")));
    assert!(!same_point(&wide, &loc("inf", "10", "0.01")));
}
