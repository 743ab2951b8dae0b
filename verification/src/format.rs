//! The 16-byte kalid format `{ms_hex:012}{month}{week:02}{day}` and its
//! ordering.
use vstd::prelude::*;
use crate::calendar::{
    calendar_fields, civil_date, day_number, is_valid_date, iso_week, iso_weekday, lemma_civil_date,
    lemma_civil_date_of_day_number, lemma_iso_week_range, unix_day_of,
};

verus! {

/// Month encoding: `a` = January .. `l` = December.
pub const MONTH_CHARS: [char; 12] = ['a', 'b', 'c', 'd', 'e', 'f', 'g', 'h', 'i', 'j', 'k', 'l'];

/// Day-of-week encoding: `m` = Monday .. `s` = Sunday.
pub const DAY_CHARS: [char; 7] = ['m', 'n', 'o', 'p', 'q', 'r', 's'];

/// The public letter tables hold the letters the format writes.
pub proof fn lemma_letter_tables()
    ensures
        forall|m: int| 0 <= m < 12 ==> MONTH_CHARS@[m] == #[trigger] month_byte(m) as char,
        forall|d: int| 0 <= d < 7 ==> DAY_CHARS@[d] == #[trigger] day_byte(d) as char,
{
    assert(MONTH_CHARS@ =~= seq!['a', 'b', 'c', 'd', 'e', 'f', 'g', 'h', 'i', 'j', 'k', 'l']);
}

/// `16^n`.
pub open spec fn pow16(n: nat) -> nat
    decreases n,
{
    if n == 0 {
        1
    } else {
        16 * pow16((n - 1) as nat)
    }
}

pub proof fn lemma_pow16_12()
    ensures
        pow16(12) == 0x1_0000_0000_0000,
{
    reveal_with_fuel(pow16, 13);
}

/// Lowercase ASCII hexadecimal digit for `d` in `0..16`.
pub open spec fn hex_digit(d: int) -> u8 {
    if d < 10 {
        (48 + d) as u8
    } else {
        (87 + d) as u8
    }
}

/// The lowest `n` hexadecimal digits of `v`, most significant first.
pub open spec fn hex_digits(v: nat, n: nat) -> Seq<u8>
    decreases n,
{
    if n == 0 {
        Seq::empty()
    } else {
        hex_digits(v / 16, (n - 1) as nat).push(hex_digit((v % 16) as int))
    }
}

/// Month letter for a month counted from 0 = January: `a` ..= `l`.
pub open spec fn month_byte(month0: int) -> u8 {
    (97 + month0) as u8
}

/// Weekday letter for 0 = Monday .. 6 = Sunday: `m` ..= `s`.
pub open spec fn day_byte(weekday: int) -> u8 {
    (109 + weekday) as u8
}

/// ASCII decimal digit of `d` in `0..10`.
pub open spec fn decimal_digit(d: int) -> u8 {
    (48 + d) as u8
}

/// The kalid of timestamp `epoch_ms`: the lowest 12 hex digits of the
/// timestamp's 64-bit two's complement, then the UTC month letter, the
/// two-digit ISO week and the ISO weekday letter of its day.
pub open spec fn kalid_bytes(epoch_ms: i64) -> Seq<u8> {
    let day = unix_day_of(epoch_ms as int);
    let week = iso_week(day);
    hex_digits((epoch_ms as u64) as nat, 12) + seq![
        month_byte(civil_date(day).1 - 1),
        decimal_digit(week / 10),
        decimal_digit(week % 10),
        day_byte(iso_weekday(day)),
    ]
}

/// `b` is a lowercase ASCII hexadecimal digit.
pub open spec fn is_lower_hex_byte(b: u8) -> bool {
    (48 <= b <= 57) || (97 <= b <= 102)
}

/// `b` is an ASCII decimal digit.
pub open spec fn is_digit_byte(b: u8) -> bool {
    48 <= b <= 57
}

/// Byte-wise lexicographic order, as `str` and `[u8]` compare.
pub open spec fn lex_lt(a: Seq<u8>, b: Seq<u8>) -> bool {
    ||| exists|i: int|
        0 <= i < a.len() && i < b.len() && #[trigger] a[i] < b[i] && a.subrange(0, i) == b.subrange(0, i)
    ||| (a.len() < b.len() && a == b.subrange(0, a.len() as int))
}

pub proof fn lemma_hex_digits_len(v: nat, n: nat)
    ensures
        hex_digits(v, n).len() == n,
    decreases n,
{
    if n > 0 {
        lemma_hex_digits_len(v / 16, (n - 1) as nat);
    }
}

/// Every byte of `hex_digits` is a lowercase hex digit.
pub proof fn lemma_hex_digits_lower(v: nat, n: nat)
    ensures
        forall|i: int| 0 <= i < n ==> is_lower_hex_byte(#[trigger] hex_digits(v, n)[i]),
    decreases n,
{
    lemma_hex_digits_len(v, n);
    if n > 0 {
        lemma_hex_digits_lower(v / 16, (n - 1) as nat);
        lemma_hex_digits_len(v / 16, (n - 1) as nat);
        assert forall|i: int| 0 <= i < n implies is_lower_hex_byte(#[trigger] hex_digits(v, n)[i]) by {
            if i < n - 1 {
                assert(hex_digits(v, n)[i] == hex_digits(v / 16, (n - 1) as nat)[i]);
            }
        }
    }
}

/// The shape of every kalid: 12 lowercase hex digits, a month letter
/// `a..=l`, two decimal digits of a week in `1..=53`, a day letter `m..=s`.
pub proof fn lemma_kalid_bytes_shape(epoch_ms: i64)
    ensures
        kalid_bytes(epoch_ms).len() == 16,
        forall|i: int| 0 <= i < 12 ==> is_lower_hex_byte(#[trigger] kalid_bytes(epoch_ms)[i]),
        97 <= kalid_bytes(epoch_ms)[12] <= 108,
        is_digit_byte(kalid_bytes(epoch_ms)[13]),
        is_digit_byte(kalid_bytes(epoch_ms)[14]),
        109 <= kalid_bytes(epoch_ms)[15] <= 115,
{
    let day = unix_day_of(epoch_ms as int);
    let h = hex_digits((epoch_ms as u64) as nat, 12);
    lemma_hex_digits_len((epoch_ms as u64) as nat, 12);
    lemma_hex_digits_lower((epoch_ms as u64) as nat, 12);
    lemma_civil_date(day);
    lemma_iso_week_range(day);
    assert forall|i: int| 0 <= i < 12 implies is_lower_hex_byte(#[trigger] kalid_bytes(epoch_ms)[i]) by {
        assert(kalid_bytes(epoch_ms)[i] == h[i]);
    }
}

/// The calendar letters and digits depend only on the UTC day: two
/// timestamps of the same day share bytes 12..16.
pub proof fn lemma_same_day_same_calendar_fields(a: i64, b: i64)
    requires
        unix_day_of(a as int) == unix_day_of(b as int),
    ensures
        kalid_bytes(a).subrange(12, 16) == kalid_bytes(b).subrange(12, 16),
{
    lemma_hex_digits_len((a as u64) as nat, 12);
    lemma_hex_digits_len((b as u64) as nat, 12);
    assert(kalid_bytes(a).subrange(12, 16) =~= kalid_bytes(b).subrange(12, 16));
}

/// The calendar part of a kalid names the UTC date of its timestamp: for
/// every valid date `(y, m, d)` and every timestamp `t` on that day, byte 12
/// is the letter of month `m` (`a` = January), bytes 13..15 are the two
/// decimal digits of the day's ISO week, and byte 15 is the letter of its
/// weekday (`m` = Monday, counting from 1970-01-01, a Thursday).
pub proof fn lemma_kalid_names_the_date(t: i64, y: int, m: int, d: int)
    requires
        is_valid_date(y, m, d),
        unix_day_of(t as int) == day_number(y, m, d),
    ensures
        kalid_bytes(t)[12] == 96 + m,
        kalid_bytes(t)[13] == 48 + iso_week(day_number(y, m, d)) / 10,
        kalid_bytes(t)[14] == 48 + iso_week(day_number(y, m, d)) % 10,
        kalid_bytes(t)[15] == 109 + (day_number(y, m, d) + 3) % 7,
{
    lemma_civil_date_of_day_number(y, m, d);
    lemma_iso_week_range(day_number(y, m, d));
    lemma_hex_digits_len((t as u64) as nat, 12);
}

// ---------------------------------------------------------------------------
// Encoding
// ---------------------------------------------------------------------------

/// Encode `epoch_ms` into its 16-byte kalid.
///
/// - Bytes `[0..12]`: lowercase hex of the timestamp's lowest 48 bits.
/// - Byte `[12]`: month character `a`-`l`.
/// - Bytes `[13..15]`: zero-padded decimal ISO week number.
/// - Byte `[15]`: weekday character `m`-`s`.
///
/// All bytes are ASCII.
pub fn encode_kalid(epoch_ms: i64) -> (buf: [u8; 16])
    ensures
        buf@ == kalid_bytes(epoch_ms),
{
    let mut buf = [0u8; 16];
    let mut v = epoch_ms as u64;
    let ghost all = hex_digits(v as nat, 12);
    let mut i: usize = 12;
    // Write right-to-left so the most significant digit ends up at index 0.
    while i > 0
        invariant
            i <= 12,
            buf@.len() == 16,
            all == hex_digits((epoch_ms as u64) as nat, 12),
            all == hex_digits(v as nat, i as nat) + buf@.subrange(i as int, 12),
        decreases i,
    {
        let ghost prev = buf@;
        let ghost prev_v = v;
        i = i - 1;
        let d = (v % 16) as u8;
        buf[i] = if d < 10 { ('0' as u8) + d } else { ('a' as u8) + (d - 10) };
        v = v / 16;
        assert(buf@.subrange(i as int, 12) =~= seq![buf@[i as int]] + prev.subrange(i + 1, 12));
        assert(hex_digits(prev_v as nat, (i + 1) as nat) == hex_digits(v as nat, i as nat).push(
            hex_digit((prev_v % 16) as int),
        ));
        assert(all =~= hex_digits(v as nat, i as nat) + buf@.subrange(i as int, 12));
    }
    let (month0, week, weekday) = calendar_fields(epoch_ms);
    buf[12] = ('a' as u8) + month0;
    // Zero-padded two-digit decimal week (week in 1..=53).
    buf[13] = ('0' as u8) + week / 10;
    buf[14] = ('0' as u8) + week % 10;
    buf[15] = ('m' as u8) + weekday;
    proof {
        lemma_hex_digits_len((epoch_ms as u64) as nat, 12);
        assert(buf@ =~= kalid_bytes(epoch_ms));
    }
    buf
}

// ---------------------------------------------------------------------------
// K-sortability
// ---------------------------------------------------------------------------

/// Smaller numbers below `16^n` have lexicographically smaller `n`-digit
/// hex strings.
proof fn lemma_hex_digits_ordered(x: nat, y: nat, n: nat)
    requires
        x < y < pow16(n),
    ensures
        exists|i: int|
            0 <= i < n && #[trigger] hex_digits(x, n)[i] < hex_digits(y, n)[i] && hex_digits(x, n).subrange(0, i)
                == hex_digits(y, n).subrange(0, i),
    decreases n,
{
    lemma_hex_digits_len(x, n);
    lemma_hex_digits_len(y, n);
    if n == 0 {
    } else {
        let m = (n - 1) as nat;
        let px = hex_digits(x / 16, m);
        let py = hex_digits(y / 16, m);
        lemma_hex_digits_len(x / 16, m);
        lemma_hex_digits_len(y / 16, m);
        assert(hex_digits(x, n) == px.push(hex_digit((x % 16) as int)));
        assert(hex_digits(y, n) == py.push(hex_digit((y % 16) as int)));
        if x / 16 < y / 16 {
            lemma_hex_digits_ordered(x / 16, y / 16, m);
            let i = choose|i: int| 0 <= i < m && #[trigger] px[i] < py[i] && px.subrange(0, i) == py.subrange(0, i);
            assert(hex_digits(x, n).subrange(0, i) =~= px.subrange(0, i));
            assert(hex_digits(y, n).subrange(0, i) =~= py.subrange(0, i));
            assert(hex_digits(x, n)[i] == px[i]);
            assert(hex_digits(y, n)[i] == py[i]);
        } else {
            assert(x / 16 == y / 16);
            assert(x % 16 < y % 16);
            let i = m as int;
            assert(hex_digits(x, n).subrange(0, i) =~= px);
            assert(hex_digits(y, n).subrange(0, i) =~= py);
            assert(hex_digits(x, n)[i] < hex_digits(y, n)[i]);
        }
    }
}

/// K-sortability: for timestamps in `0..2^48` (every kalid-representable
/// instant from 1970 to the year 10889), a later millisecond gives a
/// lexicographically greater kalid, across every day, month and year
/// boundary.
pub proof fn lemma_k_sortable(a: i64, b: i64)
    requires
        0 <= a < b < 0x1_0000_0000_0000,
    ensures
        lex_lt(kalid_bytes(a), kalid_bytes(b)),
{
    lemma_pow16_12();
    lemma_hex_digits_ordered(a as nat, b as nat, 12);
    let ha = hex_digits(a as nat, 12);
    let hb = hex_digits(b as nat, 12);
    lemma_hex_digits_len(a as nat, 12);
    lemma_hex_digits_len(b as nat, 12);
    let i = choose|i: int| 0 <= i < 12 && #[trigger] ha[i] < hb[i] && ha.subrange(0, i) == hb.subrange(0, i);
    let ka = kalid_bytes(a);
    let kb = kalid_bytes(b);
    assert((a as u64) as nat == a as nat);
    assert((b as u64) as nat == b as nat);
    assert(ka.subrange(0, i) =~= ha.subrange(0, i));
    assert(kb.subrange(0, i) =~= hb.subrange(0, i));
    assert(ka[i] == ha[i]);
    assert(kb[i] == hb[i]);
    assert(ka[i] < kb[i]);
}

} // verus!
