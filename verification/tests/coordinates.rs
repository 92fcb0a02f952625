use jma_station_master::decimal::{resolution_from_decimals, Decimal};
use jma_station_master::input::{parse_coordinate_pair, RawCoordinate};

fn text(value: &str) -> RawCoordinate {
    RawCoordinate::Text(value.to_owned())
}

fn number(value: f64) -> RawCoordinate {
    // A bare JSON number reaches the library as the text serde_json writes for it.
    RawCoordinate::Number(serde_json::Number::from_f64(value).unwrap().to_string())
}

fn value(d: &Decimal) -> f64 {
    d.to_text().parse().unwrap()
}

#[test]
fn resolution_follows_written_precision() {
    assert!((value(&resolution_from_decimals("43.1714")) - 0.0001).abs() < 1e-12);
    assert!((value(&resolution_from_decimals("43.17")) - 0.01).abs() < 1e-12);
    assert!((value(&resolution_from_decimals("43")) - 1.0).abs() < 1e-12);
    assert!((value(&resolution_from_decimals("-141.3156")) - 0.0001).abs() < 1e-12);
}

#[test]
fn resolution_is_exact_down_to_the_float_range() {
    let nineteen = resolution_from_decimals("0.1234567890123456789");
    assert_eq!(nineteen.to_text(), "0.0000000000000000001");
    let places = format!("0.{}1", "0".repeat(323));
    assert_eq!(resolution_from_decimals(&places).to_text(), format!("0.{}1", "0".repeat(323)));
    // Beyond, a binary float reads the resolution as zero.
    let places = format!("0.{}1", "0".repeat(324));
    assert_eq!(resolution_from_decimals(&places).to_text(), "0");
    // Digits of an exponent after the point count too.
    assert_eq!(resolution_from_decimals("1.5e3").to_text(), "0.01");
    assert_eq!(resolution_from_decimals("1e3").to_text(), "1");
}

#[test]
fn a_pair_is_only_as_precise_as_its_coarser_axis() {
    let location = parse_coordinate_pair(Some(&text("43.1714")), Some(&text("141.32")), "s")
        .unwrap()
        .unwrap();
    assert!((value(&location.resolution_deg) - 0.01).abs() < 1e-12);
}

#[test]
fn bare_numbers_are_accepted_without_inflating_precision() {
    // The published feed quotes most coordinates but not all; a stray number
    // must not make the pair look far more precise than the latitude allows.
    let location = parse_coordinate_pair(
        Some(&text("44.36")),
        Some(&number(141.704_999_999_999_98)),
        "羽幌町南町",
    )
    .unwrap()
    .unwrap();
    assert!((value(&location.longitude) - 141.705).abs() < 1e-9);
    assert!((value(&location.resolution_deg) - 0.01).abs() < 1e-12);
}

#[test]
fn a_missing_coordinate_is_unresolved() {
    assert!(parse_coordinate_pair(Some(&text("")), Some(&text("141.32")), "s").unwrap().is_none());
    assert!(parse_coordinate_pair(None, None, "s").unwrap().is_none());
}

#[test]
fn a_malformed_coordinate_is_an_error() {
    let error = parse_coordinate_pair(Some(&text("43.xxxx")), Some(&text("141.32")), "s").unwrap_err();
    assert!(error.contains("malformed latitude"), "{error}");
    assert_eq!(error, "s: malformed latitude \"43.xxxx\"");
}

#[test]
fn a_malformed_coordinate_is_an_error_even_beside_a_blank_one() {
    let error = parse_coordinate_pair(None, Some(&text("141.xx")), "s").unwrap_err();
    assert_eq!(error, "s: malformed longitude \"141.xx\"");
}

#[test]
fn quoted_coordinates_are_trimmed_and_read_exactly() {
    let location = parse_coordinate_pair(Some(&text("  35.06 ")), Some(&text("-135.3\t")), "s")
        .unwrap()
        .unwrap();
    assert_eq!(location.latitude.to_text(), "35.06");
    assert_eq!(location.longitude.to_text(), "-135.3");
    assert_eq!(location.resolution_deg.to_text(), "0.1");
}

#[test]
fn decimal_text_is_read_as_written() {
    let d = Decimal::parse("+0.50").unwrap();
    assert_eq!(d.to_text(), "0.5");
    assert_eq!(Decimal::parse("-12.").unwrap().to_text(), "-12");
    assert_eq!(Decimal::parse(".25").unwrap().to_text(), "0.25");
    assert!(Decimal::parse(".").is_none());
    assert!(Decimal::parse("").is_none());
    assert!(Decimal::parse("1.2.3").is_none());
    assert!(Decimal::parse("1e").is_none());
    assert!(Decimal::parse("e5").is_none());
    assert!(Decimal::parse("1e+").is_none());
    assert!(Decimal::parse(" 1").is_none());
    assert!(Decimal::parse("infinit").is_none());
    assert_eq!(Decimal::parse("99999999999999999999").unwrap().to_text(), "99999999999999999999");
    assert_eq!(
        Decimal::parse("35.123456789012345678901234567890").unwrap().to_text(),
        "35.12345678901234567890123456789"
    );
}

#[test]
fn every_spelling_the_float_reader_accepts_is_read() {
    // What Rust's own reader accepts, the library reads.
    for text in [
        "1e1", "1E1", "1e+1", "1e-1", "-2.5e2", "1.e5", ".5e1", "+inf", "-inf", "inf", "Infinity",
        "INFINITY", "nan", "NaN", "-nan", "35.1234", "0", "-0", "007",
    ] {
        assert!(text.parse::<f64>().is_ok(), "{text}");
        assert!(Decimal::parse(text).is_some(), "{text}");
    }
    for text in ["", ".", "e1", "1e", "1e+", "--1", "1.2.3", "0x10", "in", "nana", " 1"] {
        assert!(text.parse::<f64>().is_err(), "{text}");
        assert!(Decimal::parse(text).is_none(), "{text}");
    }
}

#[test]
fn exponents_are_held_exactly() {
    assert_eq!(Decimal::parse("1e1").unwrap().to_text(), "10");
    assert_eq!(Decimal::parse("1.5E-3").unwrap().to_text(), "0.0015");
    assert_eq!(Decimal::parse("-2.5e2").unwrap().to_text(), "-250");
    assert_eq!(Decimal::parse("3512e-2").unwrap().to_text(), "35.12");
    assert_eq!(Decimal::parse("0.000e9").unwrap().to_text(), "0");
}

#[test]
fn values_past_the_float_range_read_as_the_float_does() {
    assert_eq!(Decimal::parse("9.9e308").unwrap().to_text(), format!("99{}", "0".repeat(307)));
    assert_eq!(Decimal::parse("1e309").unwrap().to_text(), "inf");
    assert_eq!(Decimal::parse("-1e99999999999999999999999999999999").unwrap().to_text(), "-inf");
    assert_eq!(Decimal::parse("1e-324").unwrap().to_text(), format!("0.{}1", "0".repeat(323)));
    assert_eq!(Decimal::parse("1e-325").unwrap().to_text(), "0");
    assert_eq!(Decimal::parse("-1e-99999999999999999999999999999999").unwrap().to_text(), "-0");
}

#[test]
fn non_finite_spellings_are_read() {
    assert_eq!(Decimal::parse("inf").unwrap().to_text(), "inf");
    assert_eq!(Decimal::parse("-Infinity").unwrap().to_text(), "-inf");
    assert_eq!(Decimal::parse("NaN").unwrap().to_text(), "NaN");
    assert_eq!(Decimal::parse("-nan").unwrap().to_text(), "NaN");
}

#[test]
fn a_coordinate_written_with_an_exponent_is_read() {
    let location = parse_coordinate_pair(Some(&text("1e1")), Some(&text("1.35e2")), "s")
        .unwrap()
        .unwrap();
    assert_eq!(location.latitude.to_text(), "10");
    assert_eq!(location.longitude.to_text(), "135");
    // Two digits follow the longitude's point (one of them the exponent's),
    // none the latitude's: the coarser axis decides.
    assert_eq!(location.resolution_deg.to_text(), "1");
    let location = parse_coordinate_pair(Some(&text("nan")), Some(&text("inf")), "s")
        .unwrap()
        .unwrap();
    assert_eq!(location.latitude.to_text(), "NaN");
    assert_eq!(location.longitude.to_text(), "inf");
}
