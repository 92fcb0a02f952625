# jma_station_master

Builds and extends a canonical master of JMA seismic intensity observation
points. The offset of a station in the master's station table is its permanent
index; metadata, lifecycle and scope membership are kept as histories, so a
past event can be redrawn with the values in force when it happened.

## Layout

- `src/` — the library, verified with Verus.
  - `append.rs`: folding one release into a master, with the refusals.
  - `validate.rs`: the structural checks a published master must pass.
  - `laws.rs`, `validity.rs`: what every release keeps true (permanent
    indices, append-only histories, an ordered release log, unique codes,
    the same outcome from the same inputs, and that a valid master whose
    records all precede the new release, given a well-shaped snapshot,
    stays valid).
  - `input/`: the snapshot model and the three inputs (`station.json`, the
    published `stations.json`, sheet 24 of the code table).
  - `model.rs`, `time.rs`, `decimal.rs`, `location.rs`, `code.rs`, `kana.rs`,
    `order.rs`, `text.rs`, `report.rs`, `cli.rs`: the data model and the
    pieces the rules are built from.
- `app/` — the command line: argument parsing, reading and writing files,
  JSON and workbook decoding.
- `tests/` — tests of the library.

Coordinates are read in every spelling Rust's `f64` reader accepts (exponents,
`inf`, `nan` included) and held as exact decimals, as the feeds write them, so
comparing them and telling their precision is exact arithmetic.
