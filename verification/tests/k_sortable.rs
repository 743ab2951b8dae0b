use chrono::{TimeZone, Utc};
use kalid::Kalid;

// -- K-sortability --------------------------------------------------

#[test]
fn k_sortable_across_all_boundaries() {
    // Generate kalids for every day in July 2025 + cross year
    let start_ms = Utc.with_ymd_and_hms(2025, 7, 1, 0, 0, 0).unwrap().timestamp() * 1000;
    let mut prev = String::new();

    // 31 days in July
    for day_offset in 0..31 {
        let ms = start_ms + day_offset * 86_400_000;
        let kalid = Kalid::from_epoch_ms(ms);
        let s = kalid.as_string();

        if !prev.is_empty() {
            assert!(prev < s, "inversion: {prev} >= {s} at offset {day_offset}");
        }
        prev = s;
    }

    // Cross year: Dec 31 → Jan 1
    let dec31 = Utc.with_ymd_and_hms(2025, 12, 31, 23, 59, 59).unwrap().timestamp() * 1000 + 999;
    let jan1 = Utc.with_ymd_and_hms(2026, 1, 1, 0, 0, 0).unwrap().timestamp() * 1000;
    let d31 = Kalid::from_epoch_ms(dec31).as_string();
    let j1 = Kalid::from_epoch_ms(jan1).as_string();
    assert!(d31 < j1, "year boundary inversion: {d31} >= {j1}");
}

#[test]
fn k_sortable_adjacent_milliseconds_and_range_ends() {
    let pairs = [
        (0i64, 1i64),
        (15, 16),
        (0xfff_ffff_ffff, 0x1000_0000_0000),
        (1_784_073_754_341, 1_784_073_754_342),
        (0xffff_ffff_fffe, 0xffff_ffff_ffff),
    ];
    for (a, b) in pairs {
        let sa = Kalid::from_epoch_ms(a).as_string();
        let sb = Kalid::from_epoch_ms(b).as_string();
        assert!(sa < sb, "{a} -> {sa} not below {b} -> {sb}");
    }
}

#[test]
fn k_sortable_fails_outside_48_bits() {
    // Before 1970 the hex field wraps: -1 ms sorts after 0 ms.
    let neg = Kalid::from_epoch_ms(-1).as_string();
    let zero = Kalid::from_epoch_ms(0).as_string();
    assert!(neg > zero);
}
