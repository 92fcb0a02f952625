//! Reader for sheet "24" of 地震火山関連コード表.xlsx.
//!
//! Sheet layout, as measured on the published workbook:
//!
//! ```text
//! row 0  title spanning the sheet
//! row 1  group headings: AreaForecastLocalE | AreaInformationCity | 震度観測点
//! row 2  column headings: Code Name ふりがな   Code Name ふりがな   Code Name ふりがな
//! row 3+ data
//! ```
//!
//! The workbook is opened elsewhere and handed over as a [`SheetRange`]: the
//! cells of the sheet, row by row, as the workbook holds them.

use vstd::prelude::*;

use crate::code::CodeShape;
use crate::kana::{is_katakana_of, to_katakana};
use crate::model::opt_text;
use crate::text::{debug_quoted, i64_text, int_text, nat_text, quoted, trim, trimmed, usize_text};

verus! {

/// The sheet the code table lives on.
pub const SHEET_NAME: &'static str = "24";

/// Column offsets of the three code systems that sheet 24 holds side by side.
pub const COL_REGION_CODE: usize = 0;
pub const COL_REGION_NAME: usize = 1;
pub const COL_REGION_KANA: usize = 2;
pub const COL_CITY_CODE: usize = 3;
pub const COL_CITY_NAME: usize = 4;
pub const COL_CITY_KANA: usize = 5;
pub const COL_POINT_CODE: usize = 6;
pub const COL_POINT_NAME: usize = 7;
pub const COL_POINT_KANA: usize = 8;
pub const COLUMNS: usize = 9;

/// Rows 0..=2 are titles and headings.
pub const FIRST_DATA_ROW: usize = 3;

/// One cell, as the workbook holds it.
#[derive(Debug, Clone)]
pub enum SheetCell {
    Empty,
    Text(String),
    Int(i64),
    /// A floating-point cell, in the text it stands for: the integer it holds
    /// when it has no fraction, otherwise its shortest decimal rendering.
    Float(String),
    Bool(bool),
    /// A cell of another kind (an error value or a date), as `{:?}` shows it.
    Other(String),
}

impl SheetCell {
    /// The text the code table means by this cell and whether the workbook
    /// held it as a number; `None` for a kind of cell the table never holds.
    pub open spec fn reading(&self) -> Option<(Seq<char>, bool)> {
        match self {
            SheetCell::Empty => Some((Seq::empty(), false)),
            SheetCell::Text(s) => Some((trimmed(s@), false)),
            SheetCell::Int(i) => Some((int_text(*i as int), true)),
            SheetCell::Float(t) => Some((t@, true)),
            SheetCell::Bool(b) => Some((
                if *b {
                    "true"@
                } else {
                    "false"@
                },
                false,
            )),
            SheetCell::Other(_) => None,
        }
    }

    /// How a cell of another kind shows.
    pub open spec fn shown(&self) -> Seq<char> {
        match self {
            SheetCell::Other(d) => d@,
            _ => Seq::empty(),
        }
    }
}

/// The used part of a sheet, row by row from row 0; a cell past the end of
/// its row is empty.
#[derive(Debug, Clone)]
pub struct SheetRange {
    pub rows: Vec<Vec<SheetCell>>,
}

/// The cell at a position, if the range holds one.
pub open spec fn cell_at(rows: Seq<Vec<SheetCell>>, r: int, c: int) -> Option<SheetCell> {
    if 0 <= r < rows.len() && 0 <= c < rows[r]@.len() {
        Some(rows[r]@[c])
    } else {
        None
    }
}

/// The reading of a position; an absent cell reads as empty text.
pub open spec fn reading_at(rows: Seq<Vec<SheetCell>>, r: int, c: int) -> Option<(Seq<char>, bool)> {
    match cell_at(rows, r, c) {
        Some(cell) => cell.reading(),
        None => Some((Seq::empty(), false)),
    }
}

/// The text at a readable position.
pub open spec fn text_at(rows: Seq<Vec<SheetCell>>, r: int, c: int) -> Seq<char> {
    reading_at(rows, r, c)->Some_0.0
}

/// The first column, from `c` on, whose cell the table cannot hold.
pub open spec fn unreadable_from(rows: Seq<Vec<SheetCell>>, r: int, c: int) -> Option<int>
    decreases 9 - c,
{
    if c >= 9 {
        None
    } else if reading_at(rows, r, c) is None {
        Some(c)
    } else {
        unreadable_from(rows, r, c + 1)
    }
}

/// The texts of a readable row, column by column.
pub open spec fn row_texts(rows: Seq<Vec<SheetCell>>, r: int) -> Seq<Seq<char>> {
    Seq::new(9, |c: int| text_at(rows, r, c))
}

/// The station entry a data row holds, before its readings are normalized.
pub struct RowSource {
    pub region_code: Seq<char>,
    pub region_name: Seq<char>,
    pub region_kana: Seq<char>,
    pub city_code: Seq<char>,
    pub city_name: Seq<char>,
    pub city_kana: Seq<char>,
    pub point_code: Seq<char>,
    pub point_name: Seq<char>,
    pub point_kana: Seq<char>,
}

/// What one data row amounts to.
pub enum RowOutcome {
    /// Every cell is empty: a spacer, skipped.
    Blank,
    /// The row is refused, with this complaint.
    Fault(Seq<char>),
    /// The row holds this entry.
    Entry(RowSource),
}

/// `sheet 24 row <r + 1>`.
pub open spec fn row_label(r: int) -> Seq<char> {
    "sheet 24 row "@ + nat_text((r + 1) as nat)
}

/// `sheet 24 row <r + 1> column <c + 1>`.
pub open spec fn cell_label(r: int, c: int) -> Seq<char> {
    row_label(r) + " column "@ + nat_text((c + 1) as nat)
}

pub open spec fn unexpected_message(r: int, c: int, shown: Seq<char>) -> Seq<char> {
    cell_label(r, c) + ": unexpected cell "@ + shown
}

/// `{:?}` of a list of strings, without its brackets.
pub open spec fn quoted_items(items: Seq<Seq<char>>) -> Seq<char>
    decreases items.len(),
{
    if items.len() == 0 {
        Seq::empty()
    } else if items.len() == 1 {
        debug_quoted(items[0])
    } else {
        quoted_items(items.drop_last()) + ", "@ + debug_quoted(items.last())
    }
}

pub open spec fn missing_code_message(r: int, texts: Seq<Seq<char>>) -> Seq<char> {
    row_label(r) + ": PointSeismicIntensity code is empty but the row carries other values (["@
        + quoted_items(texts) + "]); refusing to guess"@
}

pub open spec fn numeric_code_message(r: int, c: int, shape: CodeShape, text: Seq<char>) -> Seq<
    char,
> {
    cell_label(r, c) + ": "@ + shape.spec_label() + " is stored as a number ("@ + debug_quoted(text)
        + "); this column must be text, because a leading zero lost to a numeric cell cannot be recovered and the value would read as a different station"@
}

pub open spec fn require_message(r: int, what: Seq<char>) -> Seq<char> {
    row_label(r) + ": "@ + what + " is empty"@
}

/// What is wrong with a code cell, if anything. An empty cell is left to the
/// check for required values, which words it better; a number in a column
/// whose codes carry a leading zero is refused before its text is believed.
pub open spec fn code_fault(r: int, c: int, shape: CodeShape, text: Seq<char>, numeric: bool) -> Option<
    Seq<char>,
> {
    if text.len() == 0 {
        None
    } else if numeric && (shape == CodeShape::City || shape == CodeShape::Point) {
        Some(numeric_code_message(r, c, shape, text))
    } else if !shape.spec_accepts(text) {
        Some(row_label(r) + ": "@ + shape.spec_violation(text))
    } else {
        None
    }
}

/// What data row `r` amounts to.
pub open spec fn row_outcome(rows: Seq<Vec<SheetCell>>, r: int) -> RowOutcome {
    match unreadable_from(rows, r, 0) {
        Some(c) => RowOutcome::Fault(
            unexpected_message(r, c, cell_at(rows, r, c)->Some_0.shown()),
        ),
        None => {
            let t = row_texts(rows, r);
            let numeric = |c: int| reading_at(rows, r, c)->Some_0.1;
            if forall|c: int| 0 <= c < 9 ==> (#[trigger] t[c]).len() == 0 {
                RowOutcome::Blank
            } else if t[6].len() == 0 {
                RowOutcome::Fault(missing_code_message(r, t))
            } else if code_fault(r, 0, CodeShape::Region, t[0], numeric(0)) is Some {
                RowOutcome::Fault(code_fault(r, 0, CodeShape::Region, t[0], numeric(0))->Some_0)
            } else if code_fault(r, 3, CodeShape::City, t[3], numeric(3)) is Some {
                RowOutcome::Fault(code_fault(r, 3, CodeShape::City, t[3], numeric(3))->Some_0)
            } else if code_fault(r, 6, CodeShape::Point, t[6], numeric(6)) is Some {
                RowOutcome::Fault(code_fault(r, 6, CodeShape::Point, t[6], numeric(6))->Some_0)
            } else if t[0].len() == 0 {
                RowOutcome::Fault(require_message(r, "region code"@))
            } else if t[1].len() == 0 {
                RowOutcome::Fault(require_message(r, "region name"@))
            } else if t[3].len() == 0 {
                RowOutcome::Fault(require_message(r, "city code"@))
            } else if t[4].len() == 0 {
                RowOutcome::Fault(require_message(r, "city name"@))
            } else if t[7].len() == 0 {
                RowOutcome::Fault(require_message(r, "PointSeismicIntensity name"@))
            } else {
                RowOutcome::Entry(
                    RowSource {
                        region_code: t[0],
                        region_name: t[1],
                        region_kana: t[2],
                        city_code: t[3],
                        city_name: t[4],
                        city_kana: t[5],
                        point_code: t[6],
                        point_name: t[7],
                        point_kana: t[8],
                    },
                )
            }
        },
    }
}

/// The entries of the data rows before `upto`, or the first complaint.
pub open spec fn scan_rows(rows: Seq<Vec<SheetCell>>, upto: int) -> Result<Seq<RowSource>, Seq<char>>
    decreases upto,
{
    if upto <= 3 {
        Ok(Seq::empty())
    } else {
        match scan_rows(rows, upto - 1) {
            Err(e) => Err(e),
            Ok(acc) => match row_outcome(rows, upto - 1) {
                RowOutcome::Blank => Ok(acc),
                RowOutcome::Fault(e) => Err(e),
                RowOutcome::Entry(s) => Ok(acc.push(s)),
            },
        }
    }
}

pub open spec fn duplicate_code_message(code: Seq<char>, first: int, second: int) -> Seq<char> {
    "sheet 24: duplicate PointSeismicIntensity code "@ + debug_quoted(code) + " (entries "@
        + nat_text((first + 1) as nat) + " and "@ + nat_text((second + 1) as nat) + ")"@
}

pub open spec fn duplicate_name_message(name: Seq<char>, first: int, second: int) -> Seq<char> {
    "sheet 24: duplicate PointSeismicIntensity name "@ + debug_quoted(name) + " (entries "@
        + nat_text((first + 1) as nat) + " and "@ + nat_text((second + 1) as nat)
        + "); names are the join key for the public feed"@
}

/// The first position before `j` that holds `s[j]`.
pub open spec fn earlier(s: Seq<Seq<char>>, j: int) -> int {
    choose|i: int| 0 <= i < j && s[i] == s[j] && forall|k: int| 0 <= k < i ==> s[k] != s[j]
}

/// Whether some position before `j` holds `s[j]`.
pub open spec fn repeats(s: Seq<Seq<char>>, j: int) -> bool {
    exists|i: int| 0 <= i < j && s[i] == s[j]
}

/// The first repeated code or name, entry by entry, the code before the
/// name.
pub open spec fn duplicate_fault(codes: Seq<Seq<char>>, names: Seq<Seq<char>>) -> Option<Seq<char>>
    decreases codes.len(),
{
    if codes.len() == 0 {
        None
    } else {
        let j = codes.len() - 1;
        match duplicate_fault(codes.drop_last(), names.take(j)) {
            Some(e) => Some(e),
            None => if repeats(codes, j) {
                Some(duplicate_code_message(codes[j], earlier(codes, j), j))
            } else if repeats(names, j) {
                Some(duplicate_name_message(names[j], earlier(names, j), j))
            } else {
                None
            },
        }
    }
}

/// The station codes of a list of entries.
pub open spec fn source_codes(s: Seq<RowSource>) -> Seq<Seq<char>> {
    s.map_values(|x: RowSource| x.point_code)
}

/// The station names of a list of entries.
pub open spec fn source_names(s: Seq<RowSource>) -> Seq<Seq<char>> {
    s.map_values(|x: RowSource| x.point_name)
}

pub open spec fn empty_sheet_message() -> Seq<char> {
    "sheet 24 is empty"@
}

/// What the sheet holds: its entries, or the first complaint.
pub open spec fn table_outcome(rows: Seq<Vec<SheetCell>>) -> Result<Seq<RowSource>, Seq<char>> {
    if rows.len() == 0 {
        Err(empty_sheet_message())
    } else {
        match scan_rows(rows, rows.len() as int) {
            Err(e) => Err(e),
            Ok(s) => match duplicate_fault(source_codes(s), source_names(s)) {
                Some(e) => Err(e),
                None => Ok(s),
            },
        }
    }
}

/// One PointSeismicIntensity entry together with the areas it belongs to.
#[derive(Debug, Clone)]
pub struct CodeTableRow {
    pub region_code: String,
    pub region_name: String,
    pub region_kana: Option<String>,
    pub city_code: String,
    pub city_name: String,
    pub city_kana: Option<String>,
    pub point_code: String,
    pub point_name: String,
    pub point_kana: Option<String>,
}

pub struct CodeTableRowV {
    pub region_code: Seq<char>,
    pub region_name: Seq<char>,
    pub region_kana: Option<Seq<char>>,
    pub city_code: Seq<char>,
    pub city_name: Seq<char>,
    pub city_kana: Option<Seq<char>>,
    pub point_code: Seq<char>,
    pub point_name: Seq<char>,
    pub point_kana: Option<Seq<char>>,
}

impl View for CodeTableRow {
    type V = CodeTableRowV;

    open spec fn view(&self) -> CodeTableRowV {
        CodeTableRowV {
            region_code: self.region_code@,
            region_name: self.region_name@,
            region_kana: opt_text(self.region_kana),
            city_code: self.city_code@,
            city_name: self.city_name@,
            city_kana: opt_text(self.city_kana),
            point_code: self.point_code@,
            point_name: self.point_name@,
            point_kana: opt_text(self.point_kana),
        }
    }
}

/// Whether `k` is the reading `text` normalizes to: none for an empty cell,
/// otherwise the text in katakana.
pub open spec fn kana_read(k: Option<Seq<char>>, text: Seq<char>) -> bool {
    if text.len() == 0 {
        k is None
    } else {
        k matches Some(x) && is_katakana_of(x, text)
    }
}

/// Whether `row` is the entry `s`, with its readings normalized to katakana.
pub open spec fn row_matches(row: CodeTableRowV, s: RowSource) -> bool {
    &&& row.region_code == s.region_code
    &&& row.region_name == s.region_name
    &&& kana_read(row.region_kana, s.region_kana)
    &&& row.city_code == s.city_code
    &&& row.city_name == s.city_name
    &&& kana_read(row.city_kana, s.city_kana)
    &&& row.point_code == s.point_code
    &&& row.point_name == s.point_name
    &&& kana_read(row.point_kana, s.point_kana)
}

/// One cell as the code table means it, with whether the workbook held it as
/// a number: `"0999100"` read out of a numeric cell is already `"999100"`, and
/// only the cell's kind can still tell.
struct Cell {
    text: String,
    numeric: bool,
}

fn row_prefix(row: usize) -> (s: String)
    requires
        row < usize::MAX,
    ensures
        s@ == row_label(row as int),
{
    let mut s = String::from_str("sheet 24 row ");
    s.append(usize_text(row + 1).as_str());
    s
}

fn cell_prefix(row: usize, column: usize) -> (s: String)
    requires
        row < usize::MAX,
        column < usize::MAX,
    ensures
        s@ == cell_label(row as int, column as int),
{
    let mut s = row_prefix(row);
    s.append(" column ");
    s.append(usize_text(column + 1).as_str());
    s
}

/// Render a cell as the string the code table means.
///
/// Region codes are stored as numbers, so `900` has to come back as `"900"`.
/// City and point codes are stored as text and keep their leading zeros; the
/// same rendering is applied to them only so that [`check_code`] has a value to
/// name in its complaint, and it rejects them on `numeric` first.
fn read_cell(cell: Option<&SheetCell>, row: usize, column: usize) -> (r: Result<Cell, String>)
    requires
        row < usize::MAX,
        column < usize::MAX,
    ensures
        match cell {
            None => r matches Ok(x) && x.text@.len() == 0 && !x.numeric,
            Some(c) => match c.reading() {
                None => r matches Err(e) && e@ == unexpected_message(
                    row as int,
                    column as int,
                    c.shown(),
                ),
                Some((t, n)) => r matches Ok(x) && x.text@ == t && x.numeric == n,
            },
        },
{
    match cell {
        None => Ok(Cell { text: String::new(), numeric: false }),
        Some(SheetCell::Empty) => Ok(Cell { text: String::new(), numeric: false }),
        Some(SheetCell::Text(s)) => Ok(Cell { text: trim(s.as_str()), numeric: false }),
        Some(SheetCell::Int(i)) => Ok(Cell { text: i64_text(*i), numeric: true }),
        Some(SheetCell::Float(t)) => Ok(Cell { text: t.clone(), numeric: true }),
        Some(SheetCell::Bool(b)) => Ok(
            Cell {
                text: String::from_str(
                    if *b {
                        "true"
                    } else {
                        "false"
                    },
                ),
                numeric: false,
            },
        ),
        Some(SheetCell::Other(d)) => {
            let mut e = cell_prefix(row, column);
            e.append(": unexpected cell ");
            e.append(d.as_str());
            Err(e)
        },
    }
}

/// Reads a required cell: its text, or a complaint that it is empty.
fn require(cells: &Vec<Cell>, column: usize, row: usize, what: &str) -> (r: Result<String, String>)
    requires
        column < cells@.len(),
        row < usize::MAX,
    ensures
        cells@[column as int].text@.len() == 0 ==> (r matches Err(e) && e@ == require_message(
            row as int,
            what@,
        )),
        cells@[column as int].text@.len() > 0 ==> (r matches Ok(v) && v@ == cells@[column as int].text@),
{
    let value = &cells[column].text;
    if value.as_str().is_empty() {
        let mut e = row_prefix(row);
        e.append(": ");
        e.append(what);
        e.append(" is empty");
        return Err(e);
    }
    Ok(value.clone())
}

/// Hold one code column to its fixed shape.
///
/// The numeric test comes first because it names the cause rather than the
/// symptom. City and PointSeismicIntensity codes are seven digits with a
/// leading zero, so a cell that arrives as a number has already lost that
/// zero: `"0123500"` has become `"123500"`, which is indistinguishable from a
/// genuine code this tool has never seen. Appending it would spend a permanent
/// index on a station that does not exist, so the workbook has to be repaired
/// rather than the value guessed at.
fn check_code(cells: &Vec<Cell>, column: usize, row: usize, shape: CodeShape) -> (r: Result<(), String>)
    requires
        column < cells@.len(),
        row < usize::MAX,
        column < usize::MAX,
    ensures
        r is Err <==> code_fault(
            row as int,
            column as int,
            shape,
            cells@[column as int].text@,
            cells@[column as int].numeric,
        ) is Some,
        r matches Err(e) ==> code_fault(
            row as int,
            column as int,
            shape,
            cells@[column as int].text@,
            cells@[column as int].numeric,
        ) == Some(e@),
{
    let cell = &cells[column];
    if cell.text.as_str().is_empty() {
        return Ok(());
    }
    let long_code = match shape {
        CodeShape::City | CodeShape::Point => true,
        CodeShape::Region => false,
    };
    if cell.numeric && long_code {
        let mut e = cell_prefix(row, column);
        e.append(": ");
        e.append(shape.label());
        e.append(" is stored as a number (");
        e.append(quoted(cell.text.as_str()).as_str());
        e.append(
            "); this column must be text, because a leading zero lost to a numeric cell cannot be recovered and the value would read as a different station",
        );
        return Err(e);
    }
    if !shape.accepts(cell.text.as_str()) {
        let mut e = row_prefix(row);
        e.append(": ");
        e.append(shape.describe_violation(cell.text.as_str()).as_str());
        return Err(e);
    }
    Ok(())
}

/// The reading in katakana, or none for an empty cell.
pub fn optional_kana(value: &str) -> (r: Option<String>)
    ensures
        kana_read(opt_text(r), value@),
{
    if value.is_empty() {
        None
    } else {
        Some(to_katakana(value))
    }
}


/// The cell at a position, if the range holds one.
fn cell_ref(range: &SheetRange, row: usize, column: usize) -> (r: Option<&SheetCell>)
    ensures
        match r {
            Some(c) => cell_at(range.rows@, row as int, column as int) == Some(*c),
            None => cell_at(range.rows@, row as int, column as int) is None,
        },
{
    if row < range.rows.len() && column < range.rows[row].len() {
        Some(&range.rows[row][column])
    } else {
        None
    }
}

/// Reads data row `row`: nothing for a spacer, the entry it holds, or the
/// complaint that refuses it.
fn read_row(range: &SheetRange, row: usize) -> (r: Result<Option<CodeTableRow>, String>)
    requires
        row < range.rows@.len(),
        row < usize::MAX,
    ensures
        match row_outcome(range.rows@, row as int) {
            RowOutcome::Blank => r matches Ok(None),
            RowOutcome::Fault(e) => r matches Err(x) && x@ == e,
            RowOutcome::Entry(s) => r matches Ok(Some(x)) && row_matches(x@, s),
        },
{
    let ghost rows = range.rows@;
    let mut cells: Vec<Cell> = Vec::new();
    let mut c: usize = 0;
    while c < COLUMNS
        invariant
            rows == range.rows@,
            row < rows.len(),
            row < usize::MAX,
            c <= 9,
            cells@.len() == c,
            forall|k: int| 0 <= k < c ==> (#[trigger] reading_at(rows, row as int, k)) is Some,
            forall|k: int|
                0 <= k < c ==> (#[trigger] cells@[k]).text@ == reading_at(rows, row as int, k)->Some_0.0
                    && cells@[k].numeric == reading_at(rows, row as int, k)->Some_0.1,
            unreadable_from(rows, row as int, 0) == unreadable_from(rows, row as int, c as int),
        decreases 9 - c,
    {
        let cell = cell_ref(range, row, c);
        match read_cell(cell, row, c) {
            Ok(x) => {
                cells.push(x);
                assert(reading_at(rows, row as int, c as int) is Some);
            },
            Err(e) => {
                return Err(e);
            },
        }
        c = c + 1;
    }
    let ghost t = row_texts(rows, row as int);
    assert forall|k: int| 0 <= k < 9 implies #[trigger] t[k] == cells@[k].text@ && reading_at(
        rows,
        row as int,
        k,
    )->Some_0.1 == cells@[k].numeric by {}
    let mut blank = true;
    let mut k: usize = 0;
    while k < COLUMNS
        invariant
            k <= 9,
            cells@.len() == 9,
            blank == forall|j: int| 0 <= j < k ==> (#[trigger] cells@[j]).text@.len() == 0,
        decreases 9 - k,
    {
        if !cells[k].text.as_str().is_empty() {
            blank = false;
        }
        k = k + 1;
    }
    if blank {
        return Ok(None);
    }
    if cells[COL_POINT_CODE].text.as_str().is_empty() {
        let mut e = row_prefix(row);
        e.append(": PointSeismicIntensity code is empty but the row carries other values ([");
        let mut i: usize = 0;
        while i < COLUMNS
            invariant
                i <= 9,
                cells@.len() == 9,
                forall|j: int| 0 <= j < 9 ==> #[trigger] t[j] == cells@[j].text@,
                t.len() == 9,
                e@ == row_label(row as int)
                    + ": PointSeismicIntensity code is empty but the row carries other values (["@
                    + quoted_items(t.take(i as int)),
            decreases 9 - i,
        {
            if i > 0 {
                e.append(", ");
            }
            e.append(quoted(cells[i].text.as_str()).as_str());
            proof {
                assert(t.take(i + 1).drop_last() =~= t.take(i as int));
                assert(t.take(i + 1).last() == t[i as int]);
                if i == 0 {
                    assert(quoted_items(t.take(0)) =~= Seq::<char>::empty());
                    assert(t.take(1)[0] == t[0]);
                }
            }
            i = i + 1;
        }
        e.append("]); refusing to guess");
        proof {
            assert(t.take(9) =~= t);
        }
        return Err(e);
    }
    check_code(&cells, COL_REGION_CODE, row, CodeShape::Region)?;
    check_code(&cells, COL_CITY_CODE, row, CodeShape::City)?;
    check_code(&cells, COL_POINT_CODE, row, CodeShape::Point)?;
    let region_code = require(&cells, COL_REGION_CODE, row, "region code")?;
    let region_name = require(&cells, COL_REGION_NAME, row, "region name")?;
    let region_kana = optional_kana(cells[COL_REGION_KANA].text.as_str());
    let city_code = require(&cells, COL_CITY_CODE, row, "city code")?;
    let city_name = require(&cells, COL_CITY_NAME, row, "city name")?;
    let city_kana = optional_kana(cells[COL_CITY_KANA].text.as_str());
    let point_code = cells[COL_POINT_CODE].text.clone();
    let point_name = require(&cells, COL_POINT_NAME, row, "PointSeismicIntensity name")?;
    let point_kana = optional_kana(cells[COL_POINT_KANA].text.as_str());
    Ok(
        Some(
            CodeTableRow {
                region_code,
                region_name,
                region_kana,
                city_code,
                city_name,
                city_kana,
                point_code,
                point_name,
                point_kana,
            },
        ),
    )
}

proof fn lemma_scan_rows_failure_stays(rows: Seq<Vec<SheetCell>>, j: int, n: int)
    requires
        3 <= j <= n,
        scan_rows(rows, j) is Err,
    ensures
        scan_rows(rows, n) == scan_rows(rows, j),
    decreases n - j,
{
    if j < n {
        lemma_scan_rows_failure_stays(rows, j, n - 1);
    }
}

fn duplicate_code_text(code: &String, first: usize, second: usize) -> (e: String)
    requires
        first < second < usize::MAX,
    ensures
        e@ == duplicate_code_message(code@, first as int, second as int),
{
    let mut e = String::from_str("sheet 24: duplicate PointSeismicIntensity code ");
    e.append(quoted(code.as_str()).as_str());
    e.append(" (entries ");
    e.append(usize_text(first + 1).as_str());
    e.append(" and ");
    e.append(usize_text(second + 1).as_str());
    e.append(")");
    e
}

fn duplicate_name_text(name: &String, first: usize, second: usize) -> (e: String)
    requires
        first < second < usize::MAX,
    ensures
        e@ == duplicate_name_message(name@, first as int, second as int),
{
    let mut e = String::from_str("sheet 24: duplicate PointSeismicIntensity name ");
    e.append(quoted(name.as_str()).as_str());
    e.append(" (entries ");
    e.append(usize_text(first + 1).as_str());
    e.append(" and ");
    e.append(usize_text(second + 1).as_str());
    e.append("); names are the join key for the public feed");
    e
}

proof fn lemma_earlier_is_first(s: Seq<Seq<char>>, i: int, j: int)
    requires
        0 <= i < j < s.len(),
        s[i] == s[j],
        forall|k: int| 0 <= k < i ==> s[k] != s[j],
    ensures
        repeats(s, j),
        earlier(s, j) == i,
{
    let e = earlier(s, j);
    assert(0 <= e < j && s[e] == s[j] && forall|k: int| 0 <= k < e ==> s[k] != s[j]);
    if e < i {
        assert(s[e] != s[j]);
    }
    if i < e {
        assert(s[i] != s[j]);
    }
}

proof fn lemma_duplicate_fault_stays(codes: Seq<Seq<char>>, names: Seq<Seq<char>>, j: int)
    requires
        0 < j <= codes.len(),
        codes.len() == names.len(),
        duplicate_fault(codes.take(j), names.take(j)) is Some,
    ensures
        duplicate_fault(codes, names) == duplicate_fault(codes.take(j), names.take(j)),
    decreases codes.len() - j,
{
    if j < codes.len() {
        assert(codes.take(j + 1).drop_last() =~= codes.take(j));
        assert(names.take(j + 1).take(j) =~= names.take(j));
        lemma_duplicate_fault_stays(codes, names, j + 1);
    } else {
        assert(codes.take(j) =~= codes);
        assert(names.take(j) =~= names);
    }
}

/// Both the code and the name have to be unique: the code is the station
/// identity and the name is the only join key the public feed offers.
fn check_unique(rows: &Vec<CodeTableRow>) -> (r: Result<(), String>)
    ensures
        r is Err <==> duplicate_fault(
            rows@.map_values(|x: CodeTableRow| x@.point_code),
            rows@.map_values(|x: CodeTableRow| x@.point_name),
        ) is Some,
        r matches Err(e) ==> duplicate_fault(
            rows@.map_values(|x: CodeTableRow| x@.point_code),
            rows@.map_values(|x: CodeTableRow| x@.point_name),
        ) == Some(e@),
{
    let ghost codes = rows@.map_values(|x: CodeTableRow| x@.point_code);
    let ghost names = rows@.map_values(|x: CodeTableRow| x@.point_name);
    let n = rows.len();
    let mut j: usize = 0;
    while j < n
        invariant
            n == rows@.len(),
            codes == rows@.map_values(|x: CodeTableRow| x@.point_code),
            names == rows@.map_values(|x: CodeTableRow| x@.point_name),
            j <= n,
            duplicate_fault(codes.take(j as int), names.take(j as int)) is None,
        decreases n - j,
    {
        let ghost cs = codes.take(j + 1);
        let ghost ns = names.take(j + 1);
        proof {
            assert(cs.drop_last() =~= codes.take(j as int));
            assert(ns.take(j as int) =~= names.take(j as int));
        }
        let mut i: usize = 0;
        while i < j
            invariant
                j < n,
                n == rows@.len(),
                codes == rows@.map_values(|x: CodeTableRow| x@.point_code),
                names == rows@.map_values(|x: CodeTableRow| x@.point_name),
                cs == codes.take(j + 1),
                ns == names.take(j + 1),
                cs.drop_last() == codes.take(j as int),
                ns.take(j as int) == names.take(j as int),
                duplicate_fault(codes.take(j as int), names.take(j as int)) is None,
                i <= j,
                forall|k: int| 0 <= k < i ==> cs[k] != cs[j as int],
            decreases j - i,
        {
            proof {
                assert(cs[i as int] == rows@[i as int]@.point_code);
                assert(cs[j as int] == rows@[j as int]@.point_code);
            }
            if rows[i].point_code == rows[j].point_code {
                let e = duplicate_code_text(&rows[j].point_code, i, j);
                proof {
                    lemma_earlier_is_first(cs, i as int, j as int);
                    lemma_duplicate_fault_stays(codes, names, j + 1);
                }
                return Err(e);
            }
            i = i + 1;
        }
        proof {
            assert(!repeats(cs, j as int));
        }
        let mut i: usize = 0;
        while i < j
            invariant
                j < n,
                n == rows@.len(),
                codes == rows@.map_values(|x: CodeTableRow| x@.point_code),
                names == rows@.map_values(|x: CodeTableRow| x@.point_name),
                cs == codes.take(j + 1),
                ns == names.take(j + 1),
                cs.drop_last() == codes.take(j as int),
                ns.take(j as int) == names.take(j as int),
                duplicate_fault(codes.take(j as int), names.take(j as int)) is None,
                !repeats(cs, j as int),
                i <= j,
                forall|k: int| 0 <= k < i ==> ns[k] != ns[j as int],
            decreases j - i,
        {
            proof {
                assert(ns[i as int] == rows@[i as int]@.point_name);
                assert(ns[j as int] == rows@[j as int]@.point_name);
            }
            if rows[i].point_name == rows[j].point_name {
                let e = duplicate_name_text(&rows[j].point_name, i, j);
                proof {
                    lemma_earlier_is_first(ns, i as int, j as int);
                    lemma_duplicate_fault_stays(codes, names, j + 1);
                }
                return Err(e);
            }
            i = i + 1;
        }
        proof {
            assert(!repeats(cs, j as int));
            assert(!repeats(ns, j as int));
        }
        j = j + 1;
    }
    proof {
        assert(codes.take(n as int) =~= codes);
        assert(names.take(n as int) =~= names);
    }
    Ok(())
}

/// Read every PointSeismicIntensity entry of the sheet.
///
/// Every data row to the very end of the range is read: stopping at the first
/// row without a point code would silently discard everything past a stray
/// note or spacer row. Blank rows are skipped; any other row must hold a whole
/// entry with well-shaped codes, and codes and names must be unique.
pub fn parse_range(range: &SheetRange) -> (r: Result<Vec<CodeTableRow>, String>)
    ensures
        r is Err <==> table_outcome(range.rows@) is Err,
        r matches Err(e) ==> table_outcome(range.rows@) == Err::<Seq<RowSource>, Seq<char>>(e@),
        r matches Ok(v) ==> (table_outcome(range.rows@) matches Ok(s) && v@.len() == s.len() && (
        forall|k: int| 0 <= k < s.len() ==> row_matches(#[trigger] v@[k]@, s[k]))),
{
    let ghost rows = range.rows@;
    let n = range.rows.len();
    if n == 0 {
        return Err(String::from_str("sheet 24 is empty"));
    }
    let mut out: Vec<CodeTableRow> = Vec::new();
    let mut row: usize = FIRST_DATA_ROW;
    while row < n
        invariant
            rows == range.rows@,
            n == rows.len(),
            3 <= row,
            row <= n || n <= 3,
            n <= 3 ==> row == 3,
            scan_rows(rows, row as int) matches Ok(s) && out@.len() == s.len() && (forall|k: int|
                0 <= k < s.len() ==> row_matches(#[trigger] out@[k]@, s[k])),
        decreases n - row,
    {
        match read_row(range, row) {
            Ok(Some(x)) => {
                out.push(x);
            },
            Ok(None) => {},
            Err(e) => {
                proof {
                    lemma_scan_rows_failure_stays(rows, row + 1, n as int);
                }
                return Err(e);
            },
        }
        row = row + 1;
    }
    let ghost s = scan_rows(rows, n as int)->Ok_0;
    proof {
        if n > 3 {
            assert(row == n);
        } else {
            assert(scan_rows(rows, n as int) == scan_rows(rows, 3));
        }
        assert(scan_rows(rows, n as int) == scan_rows(rows, row as int));
        assert(out@.map_values(|x: CodeTableRow| x@.point_code) =~= source_codes(s));
        assert(out@.map_values(|x: CodeTableRow| x@.point_name) =~= source_names(s));
    }
    check_unique(&out)?;
    Ok(out)
}

} // verus!
