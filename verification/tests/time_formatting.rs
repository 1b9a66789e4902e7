use cites_ui::calendar::{
    days_to_ymd, floor_div, floor_mod, fmt_duration, fmt_hms, format_elapsed, format_unix_ms, gnw_tst_to_unix_ms,
    ITS_EPOCH_MS, TST_WRAP_MS,
};

#[test]
fn days_to_ymd_epoch_start() {
    assert_eq!(days_to_ymd(0), (1970, 1, 1));
}

#[test]
fn days_to_ymd_day_before_epoch() {
    assert_eq!(days_to_ymd(-1), (1969, 12, 31));
}

#[test]
fn days_to_ymd_leap_day_2000() {
    assert_eq!(days_to_ymd(11_016), (2000, 2, 29));
    assert_eq!(days_to_ymd(11_017), (2000, 3, 1));
}

#[test]
fn days_to_ymd_new_year_2024() {
    assert_eq!(days_to_ymd(19_723), (2024, 1, 1));
}

#[test]
fn days_to_ymd_far_past() {
    // 1600-03-01 is 135 080 days before the epoch.
    assert_eq!(days_to_ymd(-135_080), (1600, 3, 1));
}

#[test]
fn floor_division_rounds_down() {
    assert_eq!(floor_div(-1, 1000), -1);
    assert_eq!(floor_div(1999, 1000), 1);
    assert_eq!(floor_mod(-1, 1000), 999);
    assert_eq!(floor_mod(-86_400, 86_400), 0);
}

#[test]
fn format_unix_ms_as_unix_integer() {
    assert_eq!(format_unix_ms(1_746_000_000_000, true), "1746000000000");
    assert_eq!(format_unix_ms(-5, true), "-5");
}

#[test]
fn format_unix_ms_civil_epoch() {
    assert_eq!(format_unix_ms(0, false), "00:00:00 01.01.1970");
}

#[test]
fn format_unix_ms_civil_before_epoch() {
    assert_eq!(format_unix_ms(-1, false), "23:59:59 31.12.1969");
}

#[test]
fn format_unix_ms_civil_example() {
    // 2025-04-30 08:00:00.000 UTC
    assert_eq!(format_unix_ms(1_746_000_000_000, false), "08:00:00 30.04.2025");
}

#[test]
fn fmt_hms_renders_utc_time_of_day() {
    assert_eq!(fmt_hms(0), "00:00:00");
    assert_eq!(fmt_hms(3_723_000), "01:02:03");
    assert_eq!(fmt_hms(-1000), "23:59:59");
    assert_eq!(fmt_hms(-1), "23:59:59");
}

#[test]
fn civil_timestamp_starts_with_axis_time() {
    for ms in [0_i64, 1_746_000_123_456, -987_654_321, 86_399_999] {
        let civil = format_unix_ms(ms, false);
        assert_eq!(&civil[..8], fmt_hms(ms));
    }
}

#[test]
fn fmt_duration_units() {
    assert_eq!(fmt_duration(0, 59_999), "59s");
    assert_eq!(fmt_duration(0, 60_000), "1m 00s");
    assert_eq!(fmt_duration(1_000, 3_662_000), "1h 01m");
    assert_eq!(fmt_duration(0, 3_600_000), "1h 00m");
}

#[test]
fn fmt_duration_never_negative() {
    assert_eq!(fmt_duration(5_000, 1_000), "0s");
    assert_eq!(fmt_duration(1_000, 500), "0s");
}

#[test]
fn format_elapsed_minutes_and_seconds() {
    assert_eq!(format_elapsed(0), "00:00");
    assert_eq!(format_elapsed(61_999), "01:01");
    assert_eq!(format_elapsed(6_000_000), "100:00");
}

#[test]
fn gnw_timestamp_unwraps_to_capture_period() {
    let unix: i64 = 1_700_000_000_123;
    let tst: u32 = ((unix - ITS_EPOCH_MS).rem_euclid(TST_WRAP_MS)) as u32;
    assert_eq!(gnw_tst_to_unix_ms(tst, unix + 500), unix);
    assert_eq!(gnw_tst_to_unix_ms(tst, unix - 2_000_000_000), unix);
    assert_eq!(gnw_tst_to_unix_ms(tst, unix + 2_000_000_000), unix);
}

#[test]
fn gnw_timestamp_picks_closer_period() {
    // anchor right at the epoch: tst 0 maps to the epoch itself
    assert_eq!(gnw_tst_to_unix_ms(0, ITS_EPOCH_MS), ITS_EPOCH_MS);
    // a tst just below the wrap lies in the previous period
    assert_eq!(gnw_tst_to_unix_ms(u32::MAX, ITS_EPOCH_MS), ITS_EPOCH_MS - 1);
}
