//! Reading a kalid back from its 16 bytes.
use vstd::prelude::*;
use vstd::utf8::is_char_boundary;
use crate::format::{
    hex_digit, hex_digits, is_digit_byte, is_lower_hex_byte, kalid_bytes, lemma_hex_digits_len,
    lemma_hex_digits_lower, lemma_kalid_bytes_shape, lemma_pow16_12, pow16,
};

verus! {

/// Errors that can occur when parsing a kalid string.
#[derive(Debug, Clone, PartialEq, Eq, Structural)]
pub enum KalidParseError {
    /// The string is not exactly 16 bytes long.
    InvalidLength,
    /// The first 12 bytes are not all hexadecimal digits (a sign is not one).
    InvalidTimestamp,
    /// Byte 12 is not a month letter `a..=l`.
    InvalidMonth,
    /// Bytes 13 and 14 are not decimal digits.
    InvalidWeek,
    /// Byte 15 is not a day letter `m..=s`.
    InvalidDay,
    /// The fields are well formed but are not those of the timestamp.
    Mismatch,
}

/// The message of each parse error.
pub open spec fn error_message(e: KalidParseError) -> Seq<char> {
    match e {
        KalidParseError::InvalidLength => "kalid must be exactly 16 characters"@,
        KalidParseError::InvalidTimestamp => "timestamp must be 12 hex digits"@,
        KalidParseError::InvalidMonth => "month must be a..l"@,
        KalidParseError::InvalidWeek => "week must be a 2-digit number"@,
        KalidParseError::InvalidDay => "day must be m..s"@,
        KalidParseError::Mismatch => "kalid components don't match timestamp"@,
    }
}

impl KalidParseError {
    /// The error's message.
    pub fn message(&self) -> (m: &'static str)
        ensures
            m@ == error_message(*self),
    {
        match self {
            KalidParseError::InvalidLength => "kalid must be exactly 16 characters",
            KalidParseError::InvalidTimestamp => "timestamp must be 12 hex digits",
            KalidParseError::InvalidMonth => "month must be a..l",
            KalidParseError::InvalidWeek => "week must be a 2-digit number",
            KalidParseError::InvalidDay => "day must be m..s",
            KalidParseError::Mismatch => "kalid components don't match timestamp",
        }
    }
}

/// `c` is an ASCII hexadecimal digit of either case.
pub open spec fn is_hex_byte(c: u8) -> bool {
    (48 <= c <= 57) || (97 <= c <= 102) || (65 <= c <= 70)
}

/// Value of the hexadecimal digit `c`.
pub open spec fn hex_digit_value(c: u8) -> int {
    if c <= 57 {
        c - 48
    } else if c >= 97 {
        c - 87
    } else {
        c - 55
    }
}

/// Value of a string of hexadecimal digits, most significant first.
pub open spec fn hex_value(s: Seq<u8>) -> int
    decreases s.len(),
{
    if s.len() == 0 {
        0
    } else {
        16 * hex_value(s.drop_last()) + hex_digit_value(s.last())
    }
}

/// The value of a string of hexadecimal digits, or `None` if a byte is not one.
pub open spec fn hex_digits_value(s: Seq<u8>) -> Option<int> {
    if forall|i: int| 0 <= i < s.len() ==> is_hex_byte(#[trigger] s[i]) {
        Some(hex_value(s))
    } else {
        None
    }
}

/// The result of parsing the bytes `b` of a kalid string: each field is
/// checked in turn (the timestamp must be exactly 12 hexadecimal digits),
/// then the whole string against the kalid of the parsed timestamp.
pub open spec fn parse_kalid_bytes(b: Seq<u8>) -> Result<i64, KalidParseError> {
    if b.len() != 16 {
        Err(KalidParseError::InvalidLength)
    } else {
        match hex_digits_value(b.subrange(0, 12)) {
            None => Err(KalidParseError::InvalidTimestamp),
            Some(v) => {
                if !(97 <= b[12] <= 108) {
                    Err(KalidParseError::InvalidMonth)
                } else if !(is_digit_byte(b[13]) && is_digit_byte(b[14])) {
                    Err(KalidParseError::InvalidWeek)
                } else if !(109 <= b[15] <= 115) {
                    Err(KalidParseError::InvalidDay)
                } else if b != kalid_bytes(v as i64) {
                    Err(KalidParseError::Mismatch)
                } else {
                    Ok(v as i64)
                }
            },
        }
    }
}

/// The string slices that parsing takes (`[..12]`, and `[13..15]` once the
/// timestamp and month are read) fall on UTF-8 character boundaries.
pub open spec fn parse_slices_on_boundaries(b: Seq<u8>) -> bool {
    b.len() == 16 ==> {
        &&& is_char_boundary(b, 12)
        &&& (hex_digits_value(b.subrange(0, 12)) is Some && 97 <= b[12] <= 108) ==> (is_char_boundary(
            b,
            13,
        ) && is_char_boundary(b, 15))
    }
}

/// Reading back `n` lowercase hex digits of `v` gives `v` modulo `16^n`.
proof fn lemma_hex_value_of_digits(v: nat, n: nat)
    ensures
        hex_value(hex_digits(v, n)) == v % pow16(n),
    decreases n,
{
    if n > 0 {
        let m = (n - 1) as nat;
        lemma_hex_value_of_digits(v / 16, m);
        lemma_hex_digits_len(v / 16, m);
        let h = hex_digits(v, n);
        assert(h.drop_last() =~= hex_digits(v / 16, m));
        assert(h.last() == hex_digit((v % 16) as int));
        assert(hex_digit_value(hex_digit((v % 16) as int)) == v % 16);
        lemma_pow16_positive(m);
        lemma_mod_split(v, pow16(m));
    }
}

proof fn lemma_pow16_positive(n: nat)
    ensures
        pow16(n) > 0,
    decreases n,
{
    if n > 0 {
        lemma_pow16_positive((n - 1) as nat);
    }
}

proof fn lemma_mod_split(v: nat, p: nat)
    requires
        p > 0,
    ensures
        16 * ((v / 16) % p) + v % 16 == v % (16 * p),
{
    let q = v / 16;
    let r = v % 16;
    assert(v == 16 * q + r);
    let a = q / p;
    let b = q % p;
    assert(q == p * a + b) by (nonlinear_arith)
        requires
            p > 0,
            a == q / p,
            b == q % p,
    ;
    assert(v == (16 * p) * a + (16 * b + r)) by (nonlinear_arith)
        requires
            v == 16 * q + r,
            q == p * a + b,
    ;
    assert(0 <= 16 * b + r < 16 * p) by (nonlinear_arith)
        requires
            0 <= b < p,
            0 <= r < 16,
    ;
    vstd::arithmetic::div_mod::lemma_fundamental_div_mod_converse_mod(v as int, (16 * p) as int, a as int, (16 * b + r) as int);
}

/// Parsing the kalid of a timestamp in `0..2^48` gives the timestamp back.
pub proof fn lemma_parse_roundtrip(epoch_ms: i64)
    requires
        0 <= epoch_ms < 0x1_0000_0000_0000,
    ensures
        parse_kalid_bytes(kalid_bytes(epoch_ms)) == Ok::<i64, KalidParseError>(epoch_ms),
{
    let b = kalid_bytes(epoch_ms);
    let h = hex_digits(epoch_ms as nat, 12);
    assert((epoch_ms as u64) as nat == epoch_ms as nat);
    lemma_kalid_bytes_shape(epoch_ms);
    lemma_hex_digits_len(epoch_ms as nat, 12);
    lemma_hex_digits_lower(epoch_ms as nat, 12);
    assert(b.subrange(0, 12) =~= h);
    assert forall|i: int| 0 <= i < h.len() implies is_hex_byte(#[trigger] h[i]) by {
        assert(is_lower_hex_byte(h[i]));
    }
    lemma_hex_value_of_digits(epoch_ms as nat, 12);
    lemma_pow16_12();
    assert(hex_digits_value(h) == Some(epoch_ms as int));
}

proof fn lemma_hex_value_bound(s: Seq<u8>)
    requires
        forall|i: int| 0 <= i < s.len() ==> is_hex_byte(#[trigger] s[i]),
    ensures
        0 <= hex_value(s) < pow16(s.len()),
    decreases s.len(),
{
    if s.len() > 0 {
        assert(is_hex_byte(s[s.len() - 1]));
        assert forall|i: int| 0 <= i < s.drop_last().len() implies is_hex_byte(#[trigger] s.drop_last()[i]) by {
            assert(s.drop_last()[i] == s[i]);
        }
        lemma_hex_value_bound(s.drop_last());
    }
}

/// Parsing accepts exactly the kalids of the timestamps in `0..2^48`, and
/// gives each its timestamp: no sign, no case change, no calendar field
/// that disagrees with the timestamp.
pub proof fn lemma_parse_exactly_canonical(b: Seq<u8>, epoch_ms: i64)
    ensures
        parse_kalid_bytes(b) == Ok::<i64, KalidParseError>(epoch_ms) <==> (0 <= epoch_ms
            < 0x1_0000_0000_0000 && b == kalid_bytes(epoch_ms)),
{
    if parse_kalid_bytes(b) == Ok::<i64, KalidParseError>(epoch_ms) {
        let field = b.subrange(0, 12);
        lemma_hex_value_bound(field);
        lemma_pow16_12();
    }
    if 0 <= epoch_ms < 0x1_0000_0000_0000 && b == kalid_bytes(epoch_ms) {
        lemma_parse_roundtrip(epoch_ms);
    }
}

/// Which error parsing gives is decided by the first field that is wrong,
/// in the order of the format: the length (16 bytes), the timestamp (12
/// ASCII hex digits, either case), the month letter `a..=l`, the two week
/// digits `0..=9`, the day letter `m..=s`; a string well formed in every
/// field is either accepted or refused as `Mismatch`.
pub proof fn lemma_parse_error_order(b: Seq<u8>)
    ensures
        parse_kalid_bytes(b) == Err::<i64, KalidParseError>(KalidParseError::InvalidLength) <==> b.len()
            != 16,
        b.len() == 16 ==> (parse_kalid_bytes(b) == Err::<i64, KalidParseError>(
            KalidParseError::InvalidTimestamp,
        ) <==> exists|i: int|
            0 <= i < 12 && !(48 <= #[trigger] b[i] <= 57 || 97 <= b[i] <= 102 || 65 <= b[i] <= 70)),
        (b.len() == 16 && forall|i: int|
            0 <= i < 12 ==> (48 <= #[trigger] b[i] <= 57 || 97 <= b[i] <= 102 || 65 <= b[i] <= 70)) ==> {
            &&& (parse_kalid_bytes(b) == Err::<i64, KalidParseError>(KalidParseError::InvalidMonth) <==> !(97
                <= b[12] <= 108))
            &&& (97 <= b[12] <= 108 ==> (parse_kalid_bytes(b) == Err::<i64, KalidParseError>(
                KalidParseError::InvalidWeek,
            ) <==> !(48 <= b[13] <= 57 && 48 <= b[14] <= 57)))
            &&& (97 <= b[12] <= 108 && 48 <= b[13] <= 57 && 48 <= b[14] <= 57 ==> (parse_kalid_bytes(b)
                == Err::<i64, KalidParseError>(KalidParseError::InvalidDay) <==> !(109 <= b[15] <= 115)))
            &&& (97 <= b[12] <= 108 && 48 <= b[13] <= 57 && 48 <= b[14] <= 57 && 109 <= b[15] <= 115 ==> (
            parse_kalid_bytes(b) is Ok || parse_kalid_bytes(b) == Err::<i64, KalidParseError>(
                KalidParseError::Mismatch,
            )))
        },
{
    if b.len() == 16 {
        let field = b.subrange(0, 12);
        if exists|i: int|
            0 <= i < 12 && !(48 <= #[trigger] b[i] <= 57 || 97 <= b[i] <= 102 || 65 <= b[i] <= 70) {
            let i = choose|i: int|
                0 <= i < 12 && !(48 <= #[trigger] b[i] <= 57 || 97 <= b[i] <= 102 || 65 <= b[i] <= 70);
            assert(!is_hex_byte(field[i]));
        } else {
            assert forall|i: int| 0 <= i < field.len() implies is_hex_byte(#[trigger] field[i]) by {
                assert(field[i] == b[i]);
            }
        }
    }
}

/// ASCII hexadecimal digit value of `c`, or `None`.
fn hex_digit_of(c: u8) -> (d: Option<i64>)
    ensures
        d == (if is_hex_byte(c) { Some(hex_digit_value(c) as i64) } else { None::<i64> }),
{
    if c >= '0' as u8 && c <= '9' as u8 {
        Some((c - '0' as u8) as i64)
    } else if c >= 'a' as u8 && c <= 'f' as u8 {
        Some((c - 'a' as u8 + 10) as i64)
    } else if c >= 'A' as u8 && c <= 'F' as u8 {
        Some((c - 'A' as u8 + 10) as i64)
    } else {
        None
    }
}

/// Read the timestamp field `b[..12]`: exactly 12 hexadecimal digits.
pub fn parse_timestamp_field(b: &[u8]) -> (r: Option<i64>)
    requires
        b@.len() >= 12,
    ensures
        r == (match hex_digits_value(b@.subrange(0, 12)) {
            Some(v) => Some(v as i64),
            None => None::<i64>,
        }),
        r matches Some(v) ==> hex_digits_value(b@.subrange(0, 12)) == Some(v as int) && 0 <= v
            < 0x1_0000_0000_0000,
{
    let ghost field = b@.subrange(0, 12);
    proof {
        lemma_pow16_12();
        reveal_with_fuel(pow16, 13);
    }
    let mut value: i64 = 0;
    let mut i: usize = 0;
    while i < 12
        invariant
            i <= 12,
            b@.len() >= 12,
            field == b@.subrange(0, 12),
            forall|j: int| 0 <= j < i ==> is_hex_byte(#[trigger] b@[j]),
            value == hex_value(b@.subrange(0, i as int)),
            0 <= value < pow16(i as nat),
            pow16(12) == 0x1_0000_0000_0000,
            forall|n: nat| n < 12 ==> #[trigger] pow16(n + 1) == 16 * pow16(n),
        decreases 12 - i,
    {
        match hex_digit_of(b[i]) {
            Some(d) => {
                proof {
                    let s = b@.subrange(0, i + 1);
                    assert(s.drop_last() =~= b@.subrange(0, i as int));
                    assert(pow16((i + 1) as nat) == 16 * pow16(i as nat));
                    assert(pow16((i + 1) as nat) <= pow16(12)) by {
                        lemma_pow16_monotone((i + 1) as nat, 12);
                    }
                }
                value = value * 16 + d;
                i = i + 1;
            },
            None => {
                proof {
                    assert(!is_hex_byte(field[i as int]));
                    assert(hex_digits_value(field) is None);
                }
                return None;
            },
        }
    }
    proof {
        assert(b@.subrange(0, 12) =~= field);
        assert forall|j: int| 0 <= j < field.len() implies is_hex_byte(#[trigger] field[j]) by {
            assert(field[j] == b@[j]);
        }
    }
    Some(value)
}

proof fn lemma_pow16_monotone(a: nat, b: nat)
    requires
        a <= b,
    ensures
        pow16(a) <= pow16(b),
    decreases b,
{
    if a < b {
        lemma_pow16_monotone(a, (b - 1) as nat);
    }
}

} // verus!
