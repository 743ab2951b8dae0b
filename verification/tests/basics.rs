use kalid::Kalid;

// -- Basics ---------------------------------------------------------

#[test]
fn format_is_16_chars() {
    let id = kalid::generate_kalid();
    assert_eq!(id.len(), 16);
}

#[test]
fn as_string_format() {
    let kalid = Kalid::from_epoch_ms(0);
    let s = kalid.as_string();

    assert!(
        s[..12]
            .bytes()
            .all(|b| b.is_ascii_digit() || (b'a'..=b'f').contains(&b)),
        "timestamp not lowercase hex"
    );

    // month [12]
    let m = s.as_bytes()[12];
    assert!((b'a'..=b'l').contains(&m), "month out of range");

    // week [13..15]
    assert!(s[13..15].bytes().all(|b| b.is_ascii_digit()), "week not numeric");

    // day [15]
    let d = s.as_bytes()[15];
    assert!((b'm'..=b's').contains(&d), "day out of range");

    assert_eq!(s.len(), 16);
}

#[test]
fn known_epoch_produces_expected_kalid() {
    // epoch 0 ms = Thursday, Jan 1, 1970 → month a, week 01, day p
    let kalid = Kalid::from_epoch_ms(0);
    assert_eq!(kalid.as_string(), "000000000000a01p");

    // epoch 0 seconds → same
    let kalid = Kalid::from_epoch(0);
    assert_eq!(kalid.as_string(), "000000000000a01p");
}

#[test]
fn month_mapping() {
    assert_eq!(kalid::MONTH_CHARS[0], 'a'); // January
    assert_eq!(kalid::MONTH_CHARS[11], 'l'); // December
}

#[test]
fn day_mapping() {
    assert_eq!(kalid::DAY_CHARS[0], 'm'); // Monday
    assert_eq!(kalid::DAY_CHARS[6], 's'); // Sunday
}

#[test]
fn month_and_day_letters_match_the_tables() {
    // 2026-01-05 is a Monday; each month's 15th, then each weekday.
    for (i, ms) in [
        1_768_478_400_000i64, 1_771_156_800_000, 1_773_576_000_000, 1_776_254_400_000,
        1_778_846_400_000, 1_781_524_800_000, 1_784_116_800_000, 1_786_795_200_000,
        1_789_473_600_000, 1_792_065_600_000, 1_794_744_000_000, 1_797_336_000_000,
    ]
    .iter()
    .enumerate()
    {
        let s = Kalid::from_epoch_ms(*ms).as_string();
        assert_eq!(s.as_bytes()[12] as char, kalid::MONTH_CHARS[i], "month {i}");
    }
    for d in 0..7i64 {
        let ms = 1_767_614_400_000 + d * 86_400_000;
        let s = Kalid::from_epoch_ms(ms).as_string();
        assert_eq!(s.as_bytes()[15] as char, kalid::DAY_CHARS[d as usize], "day {d}");
    }
}
