//! UUID version 7 interoperability. A kalid and a UUIDv7 share the same
//! millisecond timestamp; the ISO week and weekday travel in `rand_a`.
use chrono::{Datelike, TimeZone};
use vstd::prelude::*;
use crate::calendar::{iso_week, iso_weekday, lemma_iso_week_range, unix_day_of};
use crate::format::kalid_bytes;
use crate::kalid::Kalid;

verus! {

/// A UUID, held as its 16 bytes in RFC 9562 (big-endian) order.
#[derive(Debug, Clone, Copy, PartialEq, Eq)]
pub struct Uuid {
    bytes: [u8; 16],
}

impl View for Uuid {
    type V = Seq<u8>;

    closed spec fn view(&self) -> Seq<u8> {
        self.bytes@
    }
}

impl Uuid {
    /// The UUID with these 16 bytes.
    pub fn from_bytes(bytes: [u8; 16]) -> (u: Uuid)
        ensures
            u@ == bytes@,
    {
        Uuid { bytes }
    }

    /// The UUID's 16 bytes.
    pub fn as_bytes(&self) -> (b: &[u8; 16])
        ensures
            b@ == self@,
    {
        &self.bytes
    }
}

/// The 48-bit big-endian millisecond timestamp in a UUIDv7's first six bytes.
pub open spec fn uuid_millis(b: Seq<u8>) -> int {
    b[0] * 0x100_0000_0000 + b[1] * 0x1_0000_0000 + b[2] * 0x100_0000 + b[3] * 0x1_0000 + b[4] * 0x100 + b[5]
}

/// The ISO week a kalid-made UUIDv7 carries: the 6 high bits of the 12-bit `rand_a`.
pub open spec fn uuid_week(b: Seq<u8>) -> int {
    (b[6] % 16) * 4 + (b[7] / 64) as int
}

/// The ISO weekday a kalid-made UUIDv7 carries: the 3 bits of `rand_a` below the week.
pub open spec fn uuid_weekday(b: Seq<u8>) -> int {
    ((b[7] / 8) % 8) as int
}

/// Version 7 (high nibble of byte 6) and the RFC 4122 variant (`10` in the
/// top bits of byte 8).
pub open spec fn is_uuid_v7(b: Seq<u8>) -> bool {
    b[6] / 16 == 7 && b[8] / 64 == 2
}

/// The bytes of uuid's `Builder::from_unix_timestamp_millis(millis, r)`:
/// the low 48 bits of `millis` big-endian, version 7 over `r[0]`'s low
/// nibble, `r[1]`, the variant over `r[2]`'s low 6 bits, then `r[3..10]`.
pub open spec fn uuid_v7_layout(millis: int, r: Seq<u8>) -> Seq<u8> {
    seq![
        ((millis / 0x100_0000_0000) % 256) as u8,
        ((millis / 0x1_0000_0000) % 256) as u8,
        ((millis / 0x100_0000) % 256) as u8,
        ((millis / 0x1_0000) % 256) as u8,
        ((millis / 0x100) % 256) as u8,
        (millis % 256) as u8,
        (0x70 + r[0] % 16) as u8,
        r[1],
        (0x80 + r[2] % 64) as u8,
        r[3],
        r[4],
        r[5],
        r[6],
        r[7],
        r[8],
        r[9],
    ]
}

/// chrono's `Utc.timestamp_opt(secs, nsecs)` is `Single` exactly for the
/// seconds from -262143-01-01 to +262142-12-31 and a nanosecond below one
/// second (or below two on a leap second, `secs % 60 == 59`).
pub open spec fn chrono_accepts(secs: int, nsecs: int) -> bool {
    &&& -8_334_601_228_800 <= secs <= 8_210_266_876_799
    &&& (nsecs < 1_000_000_000 || (nsecs < 2_000_000_000 && secs % 60 == 59))
}

/// Timestamps that `to_uuid_v7` converts: those chrono can date, from
/// -262143-01-01 to +262142-12-31.
pub open spec fn uuid_v7_convertible(epoch_ms: i64) -> bool {
    -8_334_601_228_800_000 <= epoch_ms <= 8_210_266_876_799_999
}

/// The ten counter/random bytes `r` with the ISO week `w` and weekday `d`
/// written into `rand_a`: `w >> 2` into the low nibble of `r[0]`, then the
/// low two bits of `w` and the three bits of `d` into the top of `r[1]`.
pub open spec fn with_week_and_day(r: Seq<u8>, w: int, d: int) -> Seq<u8> {
    r.update(0, ((r[0] / 16) * 16 + (w / 4) % 16) as u8).update(1, ((w % 4) * 64 + (d % 8) * 8 + r[1] % 8) as u8)
}

/// `rand::fill` on a 10-byte buffer: bytes from the thread-local random
/// generator. Nothing is stated of them.
#[verifier::external_body]
fn random_bytes() -> (b: [u8; 10]) {
    let mut b = [0u8; 10];
    rand::fill(&mut b[..]);
    b
}

/// chrono: `Utc.timestamp_opt(secs, nsecs).unwrap().iso_week().week()`, the
/// ISO 8601 week (1..=53) of the UTC day holding second `secs`.
#[verifier::external_body]
fn chrono_iso_week(secs: i64, nsecs: u32) -> (w: u32)
    requires
        chrono_accepts(secs as int, nsecs as int),
    ensures
        w == iso_week(secs as int / 86400),
{
    chrono::Utc.timestamp_opt(secs, nsecs).unwrap().iso_week().week()
}

/// chrono: `Utc.timestamp_opt(secs, nsecs).unwrap().weekday().num_days_from_monday()`,
/// the weekday (0 = Monday .. 6 = Sunday) of the UTC day holding second `secs`.
#[verifier::external_body]
fn chrono_weekday(secs: i64, nsecs: u32) -> (d: u32)
    requires
        chrono_accepts(secs as int, nsecs as int),
    ensures
        d == iso_weekday(secs as int / 86400),
{
    chrono::Utc.timestamp_opt(secs, nsecs).unwrap().weekday().num_days_from_monday()
}

/// uuid: `Builder::from_unix_timestamp_millis(millis, counter_random).into_uuid()`,
/// as bytes; its layout is `uuid_v7_layout`.
#[verifier::external_body]
fn uuid_v7_from_millis(millis: u64, counter_random: &[u8; 10]) -> (b: [u8; 16])
    ensures
        b@ == uuid_v7_layout(millis as int, counter_random@),
{
    uuid::Builder::from_unix_timestamp_millis(millis, counter_random).into_uuid().into_bytes()
}

proof fn lemma_big_endian_48(m: u64)
    ensures
        ((m / 0x100_0000_0000) % 256) * 0x100_0000_0000 + ((m / 0x1_0000_0000) % 256) * 0x1_0000_0000 + ((m
            / 0x100_0000) % 256) * 0x100_0000 + ((m / 0x1_0000) % 256) * 0x1_0000 + ((m / 0x100) % 256)
            * 0x100 + m % 256 == m % 0x1_0000_0000_0000,
{
    assert(((m / 0x100_0000_0000) % 256) * 0x100_0000_0000 + ((m / 0x1_0000_0000) % 256) * 0x1_0000_0000
        + ((m / 0x100_0000) % 256) * 0x100_0000 + ((m / 0x1_0000) % 256) * 0x1_0000 + ((m / 0x100) % 256)
        * 0x100 + m % 256 == m % 0x1_0000_0000_0000) by (bit_vector);
}

/// The seconds and nanoseconds `to_uuid_v7` hands chrono are in chrono's
/// range, and name the kalid's UTC day.
proof fn lemma_chrono_arguments(epoch_ms: i64, secs: int, nsecs: int)
    requires
        uuid_v7_convertible(epoch_ms),
        secs == epoch_ms / 1000,
        nsecs == (epoch_ms % 1000) * 1_000_000,
    ensures
        chrono_accepts(secs, nsecs),
        secs / 86400 == unix_day_of(epoch_ms as int),
        1 <= iso_week(secs / 86400) <= 53,
        0 <= iso_weekday(secs / 86400) < 7,
{
    lemma_iso_week_range(secs / 86400);
}

/// The bit fields that `to_uuid_v7_with` writes into `rand_a`.
proof fn lemma_rand_a(r0: u8, r1: u8, week: u32, day: u32)
    requires
        1 <= week <= 53,
        day < 7,
    ensures
        (r0 & 0xF0) | ((week >> 2) as u8 & 0x0F) == (r0 / 16) * 16 + (week / 4) % 16,
        (r1 & 0x07) | (((week as u8 & 0x03) << 6) | ((day as u8 & 0x07) << 3)) == (week % 4) * 64 + (day
            % 8) * 8 + r1 % 8,
{
    assert((r0 & 0xF0) | ((week >> 2) as u8 & 0x0F) == (r0 / 16) * 16 + (week / 4) % 16) by (bit_vector);
    assert((r1 & 0x07) | (((week as u8 & 0x03) << 6) | ((day as u8 & 0x07) << 3)) == (week % 4) * 64 + (
    day % 8) * 8 + r1 % 8) by (bit_vector);
}

/// The timestamp, version, variant, week and weekday fields of the layout.
proof fn lemma_layout_fields(ms: u64, r: Seq<u8>, w: int, d: int)
    requires
        r.len() == 10,
        1 <= w <= 53,
        0 <= d < 7,
    ensures
        ({
            let u = uuid_v7_layout(ms as int, with_week_and_day(r, w, d));
            &&& u.len() == 16
            &&& is_uuid_v7(u)
            &&& uuid_millis(u) == ms as int % 0x1_0000_0000_0000
            &&& uuid_week(u) == w
            &&& uuid_weekday(u) == d
        }),
{
    lemma_big_endian_48(ms);
}

impl Kalid {
    /// Convert to a UUID v7 whose counter/random bits are `counter_random`,
    /// with the ISO week and weekday of the kalid's UTC day in `rand_a`.
    pub fn to_uuid_v7_with(&self, counter_random: [u8; 10]) -> (u: Uuid)
        requires
            uuid_v7_convertible(self@),
        ensures
            u@ == uuid_v7_layout(
                (self@ as u64) as int,
                with_week_and_day(
                    counter_random@,
                    iso_week(unix_day_of(self@ as int)),
                    iso_weekday(unix_day_of(self@ as int)),
                ),
            ),
            u@.len() == 16,
            is_uuid_v7(u@),
            uuid_millis(u@) == (self@ as u64) as int % 0x1_0000_0000_0000,
            uuid_week(u@) == iso_week(unix_day_of(self@ as int)),
            uuid_weekday(u@) == iso_weekday(unix_day_of(self@ as int)),
    {
        let mut bytes = counter_random;
        let epoch_ms = self.epoch_ms();
        // epoch_ms.div_euclid(1000) and epoch_ms.rem_euclid(1000)
        let q = epoch_ms / 1000;
        let r = epoch_ms % 1000;
        let (secs, sub_ms) = if r < 0 { (q - 1, r + 1000) } else { (q, r) };
        let nsecs = (sub_ms * 1_000_000) as u32;
        proof {
            lemma_chrono_arguments(epoch_ms, secs as int, nsecs as int);
        }
        let week = chrono_iso_week(secs, nsecs);
        let day = chrono_weekday(secs, nsecs);
        let r0 = bytes[0];
        let r1 = bytes[1];
        bytes[0] = (r0 & 0xF0) | ((week >> 2) as u8 & 0x0F);
        bytes[1] = (r1 & 0x07) | (((week as u8 & 0x03) << 6) | ((day as u8 & 0x07) << 3));
        proof {
            lemma_rand_a(r0, r1, week, day);
            assert(bytes@ =~= with_week_and_day(counter_random@, week as int, day as int));
            lemma_layout_fields(epoch_ms as u64, counter_random@, week as int, day as int);
        }
        Uuid { bytes: uuid_v7_from_millis(epoch_ms as u64, &bytes) }
    }

    /// Convert to a UUID v7 with the ISO week and weekday in `rand_a`; the
    /// other counter/random bits are freshly drawn. Every timestamp chrono
    /// can date converts, negative ones within a second included: they are
    /// split into seconds and nanoseconds by floor division.
    pub fn to_uuid_v7(&self) -> (u: Uuid)
        requires
            uuid_v7_convertible(self@),
        ensures
            exists|r: Seq<u8>|
                r.len() == 10 && u@ == #[trigger] uuid_v7_layout(
                    (self@ as u64) as int,
                    with_week_and_day(r, iso_week(unix_day_of(self@ as int)), iso_weekday(unix_day_of(self@ as int))),
                ),
            u@.len() == 16,
            is_uuid_v7(u@),
            uuid_millis(u@) == (self@ as u64) as int % 0x1_0000_0000_0000,
            uuid_week(u@) == iso_week(unix_day_of(self@ as int)),
            uuid_weekday(u@) == iso_weekday(unix_day_of(self@ as int)),
    {
        let r = random_bytes();
        self.to_uuid_v7_with(r)
    }

    /// Create a `Kalid` from a UUID v7: its 48-bit millisecond timestamp.
    pub fn from_uuid_v7(uuid: &Uuid) -> (k: Kalid)
        ensures
            k@ == uuid_millis(uuid@),
    {
        let b = uuid.as_bytes();
        let ms = (b[0] as u64) * 0x100_0000_0000 + (b[1] as u64) * 0x1_0000_0000 + (b[2] as u64) * 0x100_0000
            + (b[3] as u64) * 0x1_0000 + (b[4] as u64) * 0x100 + b[5] as u64;
        Kalid::from_epoch_ms(ms as i64)
    }
}

/// A kalid sent through a UUIDv7 comes back unchanged: for timestamps in
/// `0..2^48`, the UUID's timestamp is the kalid's, and so is its string.
pub proof fn lemma_uuid_v7_roundtrip(epoch_ms: i64, u: Seq<u8>)
    requires
        0 <= epoch_ms < 0x1_0000_0000_0000,
        u.len() == 16,
        uuid_millis(u) == (epoch_ms as u64) as int % 0x1_0000_0000_0000,
    ensures
        uuid_millis(u) == epoch_ms,
        kalid_bytes(uuid_millis(u) as i64) == kalid_bytes(epoch_ms),
{
}

} // verus!
