use jma_station_master::code::CodeShape;

#[test]
fn well_formed_codes_are_accepted() {
    assert!(CodeShape::Point.accepts("0999100"));
    assert!(CodeShape::City.accepts("0999100"));
    assert!(CodeShape::Region.accepts("900"));
    assert!(CodeShape::Point.accepts("0000000"));
}

#[test]
fn a_seven_digit_code_is_not_a_region_code() {
    assert!(!CodeShape::Region.accepts("0999100"));
    assert!(!CodeShape::Point.accepts("900"));
}

#[test]
fn wrong_width_or_non_digits_are_rejected() {
    // The case the shapes exist for: a lost leading zero.
    assert!(!CodeShape::Point.accepts("999100"));
    assert!(!CodeShape::Point.accepts("09991000"));
    assert!(!CodeShape::Point.accepts("099910x"));
    assert!(!CodeShape::Point.accepts(""));
    assert!(!CodeShape::Region.accepts("90"));
    // Full-width digits are not ASCII digits.
    assert!(!CodeShape::Point.accepts("０９９９１００"));
}

#[test]
fn a_short_numeric_code_is_reported_as_a_lost_zero() {
    let message = CodeShape::Point.describe_violation("999100");
    assert!(message.contains("station code"), "{message}");
    assert!(message.contains("7 ASCII digits"), "{message}");
    assert!(message.contains("leading zero"), "{message}");

    // Nothing to blame on a leading zero when the value is not a number, or
    // when it is too long rather than too short.
    assert!(!CodeShape::Point.describe_violation("099910x").contains("leading zero"));
    assert!(!CodeShape::Point.describe_violation("09991000").contains("leading zero"));
    assert!(!CodeShape::Region.describe_violation("90").contains("leading zero"));
}

#[test]
fn violation_messages_are_worded_exactly() {
    assert_eq!(
        CodeShape::Point.describe_violation("999100"),
        "station code \"999100\" is not 7 ASCII digits; a leading zero was probably lost"
    );
    assert_eq!(
        CodeShape::Region.describe_violation("90"),
        "region code \"90\" is not 3 ASCII digits"
    );
    assert_eq!(CodeShape::City.width(), 7);
    assert_eq!(CodeShape::Region.width(), 3);
    assert_eq!(CodeShape::City.label(), "city code");
}
