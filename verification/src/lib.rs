//! Kalid: calendar-based, K-sortable unique identifiers.
//!
//! A kalid encodes a Unix millisecond timestamp into 16 ASCII bytes,
//! `{ms_hex:012}{month}{week:02}{day}`: the timestamp in lowercase hex, the
//! UTC month letter (`a` = January .. `l` = December), the ISO 8601 week
//! number and the ISO weekday letter (`m` = Monday .. `s` = Sunday).
pub mod builder;
pub mod calendar;
pub mod format;
pub mod kalid;
pub mod parse;
pub mod uuid_v7;

pub use builder::KalidBuilder;
pub use format::{DAY_CHARS, MONTH_CHARS};
pub use kalid::{generate_kalid, Kalid};
pub use parse::KalidParseError;
pub use uuid_v7::Uuid;
