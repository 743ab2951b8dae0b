//! The `Kalid` identifier: a Unix timestamp in milliseconds, shown as a
//! 16-character string.
use vstd::prelude::*;
use vstd::string::StringSliceAdditionalSpecFns;
use vstd::utf8::{
    decode_utf8, encode_utf8, encode_utf8_decode_utf8, encode_utf8_valid_utf8, is_ascii_chars,
    is_ascii_chars_encode_utf8, is_char_boundary_iff_not_is_continuation_byte, valid_utf8,
};
use crate::builder::{default_config, KalidBuilder};
use crate::format::{encode_kalid, is_lower_hex_byte, kalid_bytes, lemma_kalid_bytes_shape};
use crate::parse::{
    lemma_parse_roundtrip, parse_kalid_bytes, parse_slices_on_boundaries, parse_timestamp_field,
    KalidParseError,
};

verus! {

/// The characters of the kalid of `epoch_ms` (all ASCII).
pub open spec fn kalid_chars(epoch_ms: i64) -> Seq<char> {
    kalid_bytes(epoch_ms).map_values(|b: u8| b as char)
}

/// `ms / 1000` rounded toward zero, as Rust's `/` on `i64` rounds.
pub open spec fn seconds_of(ms: int) -> int {
    if ms >= 0 {
        ms / 1000
    } else {
        -((-ms) / 1000)
    }
}

/// A kalid's bytes are ASCII, so they decode to the matching characters.
pub proof fn lemma_kalid_chars_utf8(epoch_ms: i64)
    ensures
        kalid_chars(epoch_ms).len() == 16,
        valid_utf8(kalid_bytes(epoch_ms)),
        decode_utf8(kalid_bytes(epoch_ms)) == kalid_chars(epoch_ms),
        encode_utf8(kalid_chars(epoch_ms)) == kalid_bytes(epoch_ms),
{
    let b = kalid_bytes(epoch_ms);
    let c = kalid_chars(epoch_ms);
    lemma_kalid_bytes_shape(epoch_ms);
    assert forall|i: int| 0 <= i < b.len() implies #[trigger] b[i] < 128 by {
        if i < 12 {
            assert(is_lower_hex_byte(b[i]));
        }
    }
    assert forall|i: int| 0 <= i < c.len() implies '\0' <= #[trigger] c[i] <= '\u{7f}' by {
        assert(c[i] == b[i] as char);
        assert(b[i] < 128);
    }
    assert(is_ascii_chars(c));
    is_ascii_chars_encode_utf8(c);
    assert forall|i: int| 0 <= i < c.len() implies #[trigger] encode_utf8(c)[i] == b[i] by {
        assert(c[i] as u8 == encode_utf8(c)[i]);
        assert(c[i] == b[i] as char);
        assert(b[i] < 128);
    }
    assert(encode_utf8(c) =~= b);
    encode_utf8_valid_utf8(c);
    encode_utf8_decode_utf8(c);
}

/// Whole seconds survive the trip through milliseconds:
/// `Kalid::from_epoch(s).epoch_secs() == s`.
pub proof fn lemma_epoch_secs_of_whole_seconds(secs: int)
    ensures
        seconds_of(secs * 1000) == secs,
{
}

/// Parsing the string of a kalid with a timestamp in `0..2^48` is panic-free
/// and gives the kalid back; its bytes are those of `as_str_buf`.
pub proof fn lemma_parse_kalid_string(epoch_ms: i64)
    requires
        0 <= epoch_ms < 0x1_0000_0000_0000,
    ensures
        encode_utf8(kalid_chars(epoch_ms)) == kalid_bytes(epoch_ms),
        parse_slices_on_boundaries(encode_utf8(kalid_chars(epoch_ms))),
        parse_kalid_bytes(encode_utf8(kalid_chars(epoch_ms))) == Ok::<i64, KalidParseError>(epoch_ms),
{
    lemma_kalid_chars_utf8(epoch_ms);
    lemma_parse_roundtrip(epoch_ms);
    let b = kalid_bytes(epoch_ms);
    lemma_kalid_bytes_shape(epoch_ms);
    is_char_boundary_iff_not_is_continuation_byte(b, 12);
    is_char_boundary_iff_not_is_continuation_byte(b, 13);
    is_char_boundary_iff_not_is_continuation_byte(b, 15);
}

/// `String::from_utf8` on bytes that are valid UTF-8, which gives the text
/// they encode.
#[verifier::external_body]
fn string_from_utf8(bytes: &[u8]) -> (s: String)
    requires
        valid_utf8(bytes@),
    ensures
        s@ == decode_utf8(bytes@),
{
    String::from_utf8(bytes.to_vec()).unwrap()
}

/// std's `SystemTime`, carried as an opaque value.
#[verifier::external_type_specification]
#[verifier::external_body]
pub struct ExSystemTime(std::time::SystemTime);

/// `SystemTime::now()`: the system clock's reading. Nothing is stated of it.
#[verifier::external_body]
fn system_time_now() -> (t: std::time::SystemTime) {
    std::time::SystemTime::now()
}

/// `t.duration_since(UNIX_EPOCH)` in whole milliseconds: `Ok` with the
/// distance when `t` is at or after the Unix epoch, `Err` with the distance
/// when it is before. `SystemTime` is opaque here, so nothing is stated of
/// the value.
#[verifier::external_body]
fn millis_since_unix_epoch(t: &std::time::SystemTime) -> (ms: Result<u128, u128>) {
    match t.duration_since(std::time::UNIX_EPOCH) {
        Ok(d) => Ok(d.as_millis()),
        Err(e) => Err(e.duration().as_millis()),
    }
}

/// Read the system clock: milliseconds after (`Ok`) or before (`Err`) the
/// Unix epoch. Nothing is stated of the reading: it is the time of the call.
pub fn read_clock() -> (reading: Result<u128, u128>) {
    let t = system_time_now();
    millis_since_unix_epoch(&t)
}

/// The Unix time in milliseconds of a clock reading: `after` ms past the
/// epoch truncated to 64 bits as `as i64` does; a clock set before 1970
/// reads as the negative time `-before` (`i64::MIN` beyond that range).
pub fn now_ms(reading: Result<u128, u128>) -> (ms: i64)
    ensures
        match reading {
            Ok(after) => ms == after as i64 && (after <= i64::MAX ==> ms == after),
            Err(before) => ms == (if before <= i64::MAX { -(before as int) } else { i64::MIN as int }),
        },
{
    match reading {
        Ok(after) => after as i64,
        Err(before) => {
            if before <= 0x7fff_ffff_ffff_ffff {
                -(before as i64)
            } else {
                i64::MIN
            }
        },
    }
}

/// `a == b` on byte slices.
fn same_bytes(a: &[u8], b: &[u8]) -> (eq: bool)
    ensures
        eq == (a@ == b@),
{
    if a.len() != b.len() {
        return false;
    }
    let mut i: usize = 0;
    while i < a.len()
        invariant
            i <= a@.len(),
            a@.len() == b@.len(),
            forall|j: int| 0 <= j < i ==> a@[j] == b@[j],
        decreases a@.len() - i,
    {
        if a[i] != b[i] {
            assert(a@[i as int] != b@[i as int]);
            return false;
        }
        i = i + 1;
    }
    assert(a@ =~= b@);
    true
}

/// A calendar-based unique ID: a Unix timestamp in milliseconds.
#[derive(Debug, Clone, PartialEq, Eq, Structural)]
pub struct Kalid {
    epoch_ms: i64,
}

impl View for Kalid {
    type V = i64;

    /// The timestamp, in milliseconds since the Unix epoch.
    closed spec fn view(&self) -> i64 {
        self.epoch_ms
    }
}

impl Kalid {
    /// Create a new `Kalid` from the current system time. A clock set
    /// before 1970 gives a negative timestamp (see [`now_ms`]).
    pub fn new() -> (k: Self) {
        Kalid { epoch_ms: now_ms(read_clock()) }
    }

    /// Create a `Kalid` from a Unix epoch in seconds (fraction set to zero).
    pub fn from_epoch(epoch_secs: i64) -> (k: Self)
        requires
            i64::MIN <= epoch_secs * 1000 <= i64::MAX,
        ensures
            k@ == epoch_secs * 1000,
    {
        Kalid { epoch_ms: epoch_secs * 1000 }
    }

    /// Create a `Kalid` from a Unix epoch in milliseconds.
    pub fn from_epoch_ms(epoch_ms: i64) -> (k: Self)
        ensures
            k@ == epoch_ms,
    {
        Kalid { epoch_ms }
    }

    /// Parse a 16-character kalid string.
    ///
    /// Validates each field in the format `{ms_hex:012}{month}{week:02}{day}`
    /// and checks that the components are consistent with the timestamp.
    /// The timestamp field must be exactly 12 hex digits: a `+` or `-` sign
    /// there gives `InvalidTimestamp`.
    pub fn parse(s: &str) -> (r: Result<Self, KalidParseError>)
        requires
            parse_slices_on_boundaries(s.spec_bytes()),
        ensures
            match r {
                Ok(k) => parse_kalid_bytes(s.spec_bytes()) == Ok::<i64, KalidParseError>(k@),
                Err(e) => parse_kalid_bytes(s.spec_bytes()) == Err::<i64, KalidParseError>(e),
            },
    {
        let b = s.as_bytes();
        if b.len() != 16 {
            return Err(KalidParseError::InvalidLength);
        }
        let epoch_ms = match parse_timestamp_field(b) {
            Some(v) => v,
            None => return Err(KalidParseError::InvalidTimestamp),
        };
        let month_char = b[12];
        if !(month_char >= 'a' as u8 && month_char <= 'l' as u8) {
            return Err(KalidParseError::InvalidMonth);
        }
        if !(b[13] >= '0' as u8 && b[13] <= '9' as u8 && b[14] >= '0' as u8 && b[14] <= '9' as u8) {
            return Err(KalidParseError::InvalidWeek);
        }
        let day_char = b[15];
        if !(day_char >= 'm' as u8 && day_char <= 's' as u8) {
            return Err(KalidParseError::InvalidDay);
        }
        let kalid = Kalid { epoch_ms };
        // Verify that the calendar fields in `s` actually match epoch_ms.
        if !same_bytes(b, &kalid.as_str_buf()) {
            return Err(KalidParseError::Mismatch);
        }
        Ok(kalid)
    }

    /// Return the kalid as a 16-byte buffer, without touching the heap.
    /// All bytes are ASCII.
    pub fn as_str_buf(&self) -> (buf: [u8; 16])
        ensures
            buf@ == kalid_bytes(self@),
    {
        encode_kalid(self.epoch_ms)
    }

    /// Return the kalid as a 16-character [`String`].
    ///
    /// Format: `{ms_hex:012}{month}{week:02}{day}`.
    pub fn as_string(&self) -> (s: String)
        ensures
            s@ == kalid_chars(self@),
            encode_utf8(s@) == kalid_bytes(self@),
    {
        let buf = self.as_str_buf();
        proof {
            lemma_kalid_chars_utf8(self@);
        }
        string_from_utf8(&buf)
    }

    /// Return the Unix epoch in seconds (sub-second part dropped toward zero).
    pub fn epoch_secs(&self) -> (secs: i64)
        ensures
            secs == seconds_of(self@ as int),
    {
        self.epoch_ms / 1000
    }

    /// Return the Unix epoch in milliseconds.
    pub fn epoch_ms(&self) -> (ms: i64)
        ensures
            ms == self@,
    {
        self.epoch_ms
    }

    /// Create a [`KalidBuilder`] for configuring prefix and separator.
    pub fn builder() -> (b: KalidBuilder)
        ensures
            b@ == default_config(),
    {
        KalidBuilder::new()
    }
}

impl Default for Kalid {
    /// Same as [`Kalid::new`].
    fn default() -> (k: Self) {
        Self::new()
    }
}

/// Generate a kalid string directly (equivalent to `Kalid::new().as_string()`).
pub fn generate_kalid() -> (s: String)
    ensures
        exists|ms: i64| s@ == kalid_chars(ms),
{
    let k = Kalid::new();
    k.as_string()
}

} // verus!
