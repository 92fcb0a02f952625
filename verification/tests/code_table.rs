use jma_station_master::input::code_table_xlsx::{parse_range, SheetCell, SheetRange, COLUMNS};

fn text(cells: [&str; COLUMNS]) -> Vec<SheetCell> {
    cells
        .iter()
        .map(|c| if c.is_empty() { SheetCell::Empty } else { SheetCell::Text((*c).to_owned()) })
        .collect()
}

fn header() -> Vec<Vec<SheetCell>> {
    vec![
        text(["title", "", "", "", "", "", "", "", ""]),
        text(["AreaForecastLocalE", "", "", "AreaInformationCity", "", "", "震度観測点", "", ""]),
        text(["Code", "Name", "ふりがな", "Code", "Name", "ふりがな", "Code", "Name", "ふりがな"]),
    ]
}

fn data_row(point_code: &str, point_name: &str) -> Vec<SheetCell> {
    text([
        "900",
        "甲野地方北部",
        "こうのちほうほくぶ",
        "0999100",
        "甲野市",
        "こうのし",
        point_code,
        point_name,
        "こうのしやまかわ",
    ])
}

fn range(rows: Vec<Vec<SheetCell>>) -> SheetRange {
    SheetRange { rows }
}

#[test]
fn skips_headers_and_normalizes_kana() {
    let mut rows = header();
    rows.push(data_row("0999100", "甲野市山川"));
    let parsed = parse_range(&range(rows)).unwrap();

    assert_eq!(parsed.len(), 1);
    assert_eq!(parsed[0].point_code, "0999100");
    assert_eq!(parsed[0].point_name, "甲野市山川");
    assert_eq!(parsed[0].point_kana.as_deref(), Some("コウノシヤマカワ"));
    assert_eq!(parsed[0].region_kana.as_deref(), Some("コウノチホウホクブ"));
    assert_eq!(parsed[0].city_kana.as_deref(), Some("コウノシ"));
}

#[test]
fn numeric_region_codes_become_integer_strings() {
    let mut rows = header();
    let mut row = data_row("0999100", "甲野市山川");
    // The published workbook stores this column as a number; 900.0 reads as "900".
    row[0] = SheetCell::Float("900".to_owned());
    rows.push(row);

    let parsed = parse_range(&range(rows)).unwrap();
    assert_eq!(parsed[0].region_code, "900");
    // Text codes keep their leading zeros.
    assert_eq!(parsed[0].city_code, "0999100");
}

#[test]
fn a_blank_row_does_not_truncate_the_sheet() {
    let mut rows = header();
    rows.push(data_row("0999100", "甲野市山川"));
    rows.push(text([""; COLUMNS]));
    rows.push(data_row("0999101", "甲野市服部"));

    let parsed = parse_range(&range(rows)).unwrap();
    assert_eq!(parsed.len(), 2);
    assert_eq!(parsed[1].point_code, "0999101");
}

#[test]
fn a_row_missing_only_the_point_code_is_rejected() {
    let mut rows = header();
    rows.push(data_row("", "甲野市山川"));
    let err = parse_range(&range(rows)).unwrap_err();
    assert!(err.contains("code is empty"), "{err}");
    assert_eq!(
        err,
        "sheet 24 row 4: PointSeismicIntensity code is empty but the row carries other values \
         ([\"900\", \"甲野地方北部\", \"こうのちほうほくぶ\", \"0999100\", \"甲野市\", \"こうのし\", \"\", \
         \"甲野市山川\", \"こうのしやまかわ\"]); refusing to guess"
    );
}

/// A workbook re-saved with the code column as a number turns "0999100" into
/// 999100, which would read as a station code that has never existed.
#[test]
fn a_numeric_point_code_is_rejected() {
    let mut rows = header();
    let mut row = data_row("0999100", "甲野市山川");
    row[6] = SheetCell::Float("999100".to_owned());
    rows.push(row);

    let err = parse_range(&range(rows)).unwrap_err();
    assert!(err.contains("station code is stored as a number"), "{err}");
    assert!(err.contains("read as a different station"), "{err}");
    assert!(err.starts_with("sheet 24 row 4 column 7: "), "{err}");
}

#[test]
fn a_numeric_city_code_is_rejected() {
    let mut rows = header();
    let mut row = data_row("0999100", "甲野市山川");
    row[3] = SheetCell::Int(999_100);
    rows.push(row);

    let err = parse_range(&range(rows)).unwrap_err();
    assert!(err.contains("city code is stored as a number"), "{err}");
}

/// Even as text, a code of the wrong width is a different code.
#[test]
fn a_short_point_code_is_rejected() {
    let mut rows = header();
    rows.push(data_row("999100", "甲野市山川"));

    let err = parse_range(&range(rows)).unwrap_err();
    assert!(err.contains("not 7 ASCII digits"), "{err}");
    assert!(err.contains("leading zero"), "{err}");
}

#[test]
fn a_non_numeric_point_code_is_rejected() {
    let mut rows = header();
    rows.push(data_row("09991-0", "甲野市山川"));

    let err = parse_range(&range(rows)).unwrap_err();
    assert!(err.contains("not 7 ASCII digits"), "{err}");
}

#[test]
fn a_region_code_of_the_wrong_width_is_rejected() {
    let mut rows = header();
    let mut row = data_row("0999100", "甲野市山川");
    row[0] = SheetCell::Float("90".to_owned());
    rows.push(row);

    let err = parse_range(&range(rows)).unwrap_err();
    assert!(err.contains("region code"), "{err}");
    assert!(err.contains("not 3 ASCII digits"), "{err}");
}

#[test]
fn code_table_xlsx_duplicate_codes_are_rejected() {
    let mut rows = header();
    rows.push(data_row("0999100", "甲野市山川"));
    rows.push(data_row("0999100", "甲野市服部"));
    let err = parse_range(&range(rows)).unwrap_err();
    assert!(err.contains("duplicate PointSeismicIntensity code"), "{err}");
    assert_eq!(
        err,
        "sheet 24: duplicate PointSeismicIntensity code \"0999100\" (entries 1 and 2)"
    );
}

#[test]
fn duplicate_names_are_rejected() {
    let mut rows = header();
    rows.push(data_row("0999100", "甲野市山川"));
    rows.push(data_row("0999101", "甲野市山川"));
    let err = parse_range(&range(rows)).unwrap_err();
    assert!(err.contains("duplicate PointSeismicIntensity name"), "{err}");
}

#[test]
fn an_empty_sheet_is_an_error() {
    let err = parse_range(&range(Vec::new())).unwrap_err();
    assert_eq!(err, "sheet 24 is empty");
}

#[test]
fn a_missing_name_is_reported_by_what_is_missing() {
    let mut rows = header();
    rows.push(data_row("0999100", ""));
    let err = parse_range(&range(rows)).unwrap_err();
    assert_eq!(err, "sheet 24 row 4: PointSeismicIntensity name is empty");
}

#[test]
fn an_unexpected_cell_kind_is_an_error() {
    let mut rows = header();
    let mut row = data_row("0999100", "甲野市山川");
    row[4] = SheetCell::Other("Error(Div0)".to_owned());
    rows.push(row);
    let err = parse_range(&range(rows)).unwrap_err();
    assert_eq!(err, "sheet 24 row 4 column 5: unexpected cell Error(Div0)");
}

#[test]
fn cells_past_the_end_of_a_short_row_read_as_empty() {
    let mut rows = header();
    rows.push(data_row("0999100", "甲野市山川"));
    let mut short = data_row("0999101", "甲野市服部");
    short.truncate(8);
    rows.push(short);
    let parsed = parse_range(&range(rows)).unwrap();
    assert_eq!(parsed.len(), 2);
    assert!(parsed[1].point_kana.is_none());
}

/// The published sheet's layout, as the workbook holds it: region codes as
/// numbers, every other code as text.
#[derive(Clone, Copy, PartialEq)]
enum Fixture {
    /// Every station, with a spacer row after the third.
    Min,
    /// 甲野市月見 removed.
    Shrunk,
    /// Areas filled in but no station code after the first entry.
    BadRow,
}

fn fixture(kind: Fixture) -> SheetRange {
    let stations = [
        ("900", "甲野地方北部", "こうのちほうほくぶ", "0999100", "甲野市", "こうのし", "0999100", "甲野市山川", "こうのしやまかわ"),
        ("900", "甲野地方北部", "こうのちほうほくぶ", "0999100", "甲野市", "こうのし", "0999101", "甲野市服部", "こうのしはっとり"),
        ("900", "甲野地方北部", "こうのちほうほくぶ", "0999100", "甲野市", "こうのし", "0999120", "甲野市月見", "こうのしつきみ"),
        ("900", "甲野地方北部", "こうのちほうほくぶ", "0999300", "乙原町", "おつはらちょう", "0999320", "乙原町白樺", "おつはらちょうしらかば"),
        ("901", "甲野地方南部", "こうのちほうなんぶ", "0999010", "丙川区", "へいかわく", "0999010", "丙川区北二条", "へいかわくきたにじょう"),
    ];
    let mut rows = header();
    for (position, s) in stations.iter().enumerate() {
        if kind == Fixture::Shrunk && s.6 == "0999120" {
            continue;
        }
        if kind == Fixture::BadRow && position > 0 {
            break;
        }
        let mut row = text([s.0, s.1, s.2, s.3, s.4, s.5, s.6, s.7, s.8]);
        row[0] = SheetCell::Float(s.0.to_owned());
        rows.push(row);
        if kind == Fixture::Min && position == 2 {
            rows.push(Vec::new());
        }
    }
    if kind == Fixture::BadRow {
        let mut row = text(["900", "甲野地方北部", "", "0999100", "甲野市", "", "", "", ""]);
        row[0] = SheetCell::Float("900".to_owned());
        rows.push(row);
    }
    range(rows)
}

#[test]
fn reads_every_data_row_and_skips_the_headings() {
    let rows = parse_range(&fixture(Fixture::Min)).unwrap();
    assert_eq!(rows.len(), 5);
    assert_eq!(rows[0].point_code, "0999100");
    assert_eq!(rows[0].point_name, "甲野市山川");
    assert_eq!(rows[0].city_name, "甲野市");
    assert_eq!(rows[0].region_name, "甲野地方北部");
}

#[test]
fn numeric_region_codes_come_back_as_integers() {
    let rows = parse_range(&fixture(Fixture::Min)).unwrap();
    assert_eq!(rows[0].region_code, "900");
    assert_eq!(rows[4].region_code, "901");
    assert_eq!(rows[0].city_code, "0999100");
    assert_eq!(rows[4].point_code, "0999010");
}

#[test]
fn readings_are_normalized_to_katakana() {
    let rows = parse_range(&fixture(Fixture::Min)).unwrap();
    assert_eq!(rows[0].point_kana.as_deref(), Some("コウノシヤマカワ"));
    assert_eq!(rows[0].region_kana.as_deref(), Some("コウノチホウホクブ"));
    assert_eq!(rows[0].city_kana.as_deref(), Some("コウノシ"));
    assert_eq!(rows[4].point_kana.as_deref(), Some("ヘイカワクキタニジョウ"));
}

#[test]
fn a_spacer_row_does_not_truncate_the_sheet() {
    let rows = parse_range(&fixture(Fixture::Min)).unwrap();
    let codes: Vec<&str> = rows.iter().map(|r| r.point_code.as_str()).collect();
    assert_eq!(codes, ["0999100", "0999101", "0999120", "0999320", "0999010"]);
}

#[test]
fn a_row_with_areas_but_no_station_code_is_an_error() {
    let error = parse_range(&fixture(Fixture::BadRow)).unwrap_err();
    assert!(error.contains("code is empty"), "{error}");
    assert!(error.contains("refusing to guess"), "{error}");
}

#[test]
fn a_shrunk_table_is_read_as_a_shorter_table_not_a_truncated_one() {
    let rows = parse_range(&fixture(Fixture::Shrunk)).unwrap();
    let codes: Vec<&str> = rows.iter().map(|r| r.point_code.as_str()).collect();
    assert_eq!(codes, ["0999100", "0999101", "0999320", "0999010"]);
}
