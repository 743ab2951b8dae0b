# kalid

Calendar-based, K-sortable unique IDs with UUID v7 interoperability,
verified with Verus.

A kalid is a Unix millisecond timestamp written as 16 ASCII bytes,
`{ms_hex:012}{month}{week:02}{day}`: the timestamp in lowercase hex, the
UTC month letter (`a`..`l`), the ISO 8601 week and the ISO weekday letter
(`m`..`s`). An optional prefix and separator come from `KalidBuilder`.

Layout:

- `src/calendar.rs` — the proleptic Gregorian calendar stated directly
  (`day_number`, `civil_date`, `iso_week`, `iso_weekday`) and Howard
  Hinnant's O(1) conversions proved against it.
- `src/format.rs` — the 16-byte format (`kalid_bytes`), `encode_kalid`, and
  the K-sortability theorem for timestamps in `0..2^48`.
- `src/parse.rs` — `parse_kalid_bytes`, the field-by-field parse, and the
  round-trip theorem.
- `src/kalid.rs` — the `Kalid` type, the clock, `generate_kalid`.
- `src/builder.rs` — prefixes and separators.
- `src/uuid_v7.rs` — conversion to and from UUID v7 bytes (through the
  `uuid`, `chrono` and `rand` crates).
- `app/lib.rs` — async generation on tokio, `uuid::Uuid` conversion, and a
  `thiserror` error type.
