use mpxrust::dec::{
    civil_from_days, days_from_civil, duration_units, get_date, get_timestamp, get_timestamp_date,
    iso_date,
    percentage, TimeUnit, MS_EPOCH_DAYS,
};

fn ts(time: u16, days: u16) -> Vec<u8> {
    let mut v = time.to_le_bytes().to_vec();
    v.extend(days.to_le_bytes());
    v
}

#[test]
fn epoch_math_matches_known_dates() {
    assert_eq!(iso_date(1), "1984-01-01");
    assert_eq!(iso_date(15486), "2026-05-25");
}

#[test]
fn epoch_day_zero_is_1983_12_31() {
    assert_eq!(iso_date(0), "1983-12-31");
    assert_eq!(days_from_civil(1983, 12, 31), MS_EPOCH_DAYS);
    assert_eq!(civil_from_days(MS_EPOCH_DAYS), (1983, 12, 31));
}

#[test]
fn civil_days_round_trip_on_known_dates() {
    for z in [-719468i64, -1, 0, 59, 60, 5112, 20603, 2_932_896] {
        let (y, m, d) = civil_from_days(z);
        assert_eq!(days_from_civil(y, m as i64, d as i64), z);
    }
    assert_eq!(civil_from_days(0), (1970, 1, 1));
    assert_eq!(civil_from_days(-719468), (0, 3, 1));
    assert_eq!(days_from_civil(2000, 2, 29), 11016);
    assert_eq!(iso_date(5904), "2000-02-29");
}

#[test]
fn timestamp_decodes_time_component() {
    let d = ts(4800, 15486);
    assert_eq!(get_timestamp(&d, 0).as_deref(), Some("2026-05-25T08:00:00"));
}

#[test]
fn timestamp_na_values() {
    assert_eq!(get_timestamp(&ts(0, 0), 0), None);
    assert_eq!(get_timestamp(&ts(0, 65535), 0), None);
    assert_eq!(
        get_timestamp(&ts(65535, 200), 0).as_deref(),
        Some("1984-07-18T00:00:00")
    );
}

#[test]
fn timestamp_seconds_and_short_data() {
    assert_eq!(get_timestamp(&ts(1, 200), 0).as_deref(), Some("1984-07-18T00:00:06"));
    assert_eq!(get_timestamp(&ts(1, 50), 0), None);
    assert_eq!(get_timestamp(&ts(10, 50), 0).as_deref(), Some("1984-02-19T00:01:00"));
    assert_eq!(get_timestamp(&ts(4800, 1), 0), None);
}

#[test]
fn timestamp_time_beyond_a_day_moves_the_date() {
    assert_eq!(get_timestamp(&ts(20000, 200), 0).as_deref(), Some("1984-07-19T09:20:00"));
    assert_eq!(get_timestamp(&ts(14400, 200), 0).as_deref(), Some("1984-07-19T00:00:00"));
    assert_eq!(get_timestamp(&ts(14399, 200), 0).as_deref(), Some("1984-07-18T23:59:54"));
    assert_eq!(get_timestamp_date(&ts(20000, 200), 0).as_deref(), Some("1984-07-19"));
    assert_eq!(get_timestamp_date(&ts(0, 0), 0), None);
    assert_eq!(get_timestamp(&[1, 2, 3], 0), None);
    assert_eq!(get_timestamp(&ts(4800, 15486), 1), None);
}

#[test]
fn date_decodes_days_since_epoch() {
    assert_eq!(get_date(&15486u16.to_le_bytes(), 0).as_deref(), Some("2026-05-25"));
    assert_eq!(get_date(&65535u16.to_le_bytes(), 0), None);
    assert_eq!(get_date(&[7], 0), None);
}

#[test]
fn duration_units_decode() {
    assert_eq!(duration_units(7), TimeUnit::Days);
    assert_eq!(duration_units(5), TimeUnit::Hours);
    assert_eq!(duration_units(0x27), TimeUnit::Days);
}

#[test]
fn duration_units_cover_every_code() {
    assert_eq!(duration_units(3), TimeUnit::Minutes);
    assert_eq!(duration_units(4), TimeUnit::Minutes);
    assert_eq!(duration_units(6), TimeUnit::Hours);
    assert_eq!(duration_units(8), TimeUnit::ElapsedDays);
    assert_eq!(duration_units(9), TimeUnit::Weeks);
    assert_eq!(duration_units(10), TimeUnit::Weeks);
    assert_eq!(duration_units(11), TimeUnit::Months);
    assert_eq!(duration_units(12), TimeUnit::Months);
    assert_eq!(duration_units(0), TimeUnit::Days);
    assert_eq!(duration_units(0x28), TimeUnit::ElapsedDays);
}

#[test]
fn percentage_accepts_0_to_100() {
    assert_eq!(percentage(&100u16.to_le_bytes(), 0), Some(100));
    assert_eq!(percentage(&0u16.to_le_bytes(), 0), Some(0));
    assert_eq!(percentage(&101u16.to_le_bytes(), 0), None);
    assert_eq!(percentage(&[50], 0), None);
}

#[test]
fn valid_dates_round_trip_through_day_numbers() {
    for (y, m, d) in [(2000i64, 2u32, 29u32), (1900, 2, 28), (1900, 3, 1), (2024, 12, 31), (1970, 1, 1), (-1, 3, 1)] {
        let z = days_from_civil(y, m as i64, d as i64);
        assert_eq!(civil_from_days(z), (y, m, d));
    }
    assert_eq!(days_from_civil(1970, 1, 1), 0);
}

#[test]
fn day_numbers_follow_machine_arithmetic_for_any_month() {
    fn reference(y: i64, m: i64, d: i64) -> i64 {
        let y = if m <= 2 { y - 1 } else { y };
        let era = if y >= 0 { y } else { y - 399 } / 400;
        let yoe = y - era * 400;
        let mp = (m + 9) % 12;
        let doy = (153 * mp + 2) / 5 + d - 1;
        let doe = yoe * 365 + yoe / 4 - yoe / 100 + doy;
        era * 146097 + doe - 719468
    }
    for m in [-40i64, -21, -10, -9, 0, 1, 2, 3, 12, 13, 30] {
        for (y, d) in [(2024i64, 1i64), (-5, 17), (1970, 31)] {
            assert_eq!(days_from_civil(y, m, d), reference(y, m, d));
        }
    }
}
