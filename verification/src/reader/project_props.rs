//! Project properties from the project `Props` stream.

use vstd::prelude::*;

use crate::blocks::Props;
use crate::dec::{get_timestamp_date, spec_timestamp_date, timestamp_date_has_ten_chars};
use crate::model::{opt_str, ProjectProperties};
use crate::text::spec_unicode_string;
use crate::util::{i32_of_bits, le_u16, le_u32, spec_get_i32, spec_get_u16};

verus! {

pub const PROJECT_START_DATE: i32 = 37748738;

pub const PROJECT_FINISH_DATE: i32 = 37748739;

pub const TITLE: i32 = 37748744;

pub const MINUTES_PER_DAY: i32 = 37748765;

pub const MINUTES_PER_WEEK: i32 = 37748766;

pub const DAYS_PER_MONTH: i32 = 37753743;

/// Non-empty string stored under `key`.
pub open spec fn prop_text(p: Map<i32, Seq<u8>>, key: i32) -> Option<Seq<char>> {
    if p.contains_key(key) {
        match spec_unicode_string(p[key], 0) {
            Some(s) => if s.len() > 0 {
                Some(s)
            } else {
                None
            },
            None => None,
        }
    } else {
        None
    }
}

/// Date (`YYYY-MM-DD`) of the timestamp stored under `key`.
pub open spec fn prop_date(p: Map<i32, Seq<u8>>, key: i32) -> Option<Seq<char>> {
    if p.contains_key(key) {
        spec_timestamp_date(p[key], 0)
    } else {
        None
    }
}

/// Positive `i32` stored under `key`.
pub open spec fn prop_positive_i32(p: Map<i32, Seq<u8>>, key: i32) -> Option<u32> {
    if p.contains_key(key) {
        match spec_get_i32(p[key], 0) {
            Some(v) => if v > 0 {
                Some(v as u32)
            } else {
                None
            },
            None => None,
        }
    } else {
        None
    }
}

/// Positive `u16` stored under `key`.
pub open spec fn prop_positive_u16(p: Map<i32, Seq<u8>>, key: i32) -> Option<u32> {
    if p.contains_key(key) {
        match spec_get_u16(p[key], 0) {
            Some(v) => if v > 0 {
                Some(v as u32)
            } else {
                None
            },
            None => None,
        }
    } else {
        None
    }
}

/// The properties are those stored in the dictionary `p`.
pub open spec fn properties_of(r: ProjectProperties, p: Map<i32, Seq<u8>>) -> bool {
    &&& opt_str(r.title) == prop_text(p, TITLE)
    &&& opt_str(r.start_date) == prop_date(p, PROJECT_START_DATE)
    &&& opt_str(r.finish_date) == prop_date(p, PROJECT_FINISH_DATE)
    &&& r.minutes_per_day == prop_positive_i32(p, MINUTES_PER_DAY)
    &&& r.minutes_per_week == prop_positive_i32(p, MINUTES_PER_WEEK)
    &&& r.days_per_month == prop_positive_u16(p, DAYS_PER_MONTH)
}

fn date_of(props: &Props, key: i32) -> (r: Option<String>)
    ensures
        opt_str(r) == prop_date(props@, key),
{
    match props.byte_array(key) {
        Some(b) => get_timestamp_date(b, 0),
        None => None,
    }
}

fn positive_i32(props: &Props, key: i32) -> (r: Option<u32>)
    ensures
        r == prop_positive_i32(props@, key),
{
    match props.get_i32(key) {
        Some(v) => if v > 0 {
            Some(v as u32)
        } else {
            None
        },
        None => None,
    }
}

/// Reads the project properties.
pub fn read(props: &Props) -> (r: ProjectProperties)
    ensures
        properties_of(r, props@),
{
    let title = match props.get_unicode_string(TITLE) {
        Some(s) => if !s.as_str().is_empty() {
            Some(s)
        } else {
            None
        },
        None => None,
    };
    let days_per_month = match props.get_u16(DAYS_PER_MONTH) {
        Some(v) => if v > 0 {
            Some(v as u32)
        } else {
            None
        },
        None => None,
    };
    ProjectProperties {
        title,
        start_date: date_of(props, PROJECT_START_DATE),
        finish_date: date_of(props, PROJECT_FINISH_DATE),
        minutes_per_day: positive_i32(props, MINUTES_PER_DAY),
        minutes_per_week: positive_i32(props, MINUTES_PER_WEEK),
        days_per_month,
    }
}

/// Effective minutes per working day: the project's, or 480 (8 hours).
pub fn minutes_per_day(p: &ProjectProperties) -> (r: u32)
    ensures
        r == (match p.minutes_per_day {
            Some(v) => v,
            None => 480,
        }),
{
    match p.minutes_per_day {
        Some(v) => v,
        None => 480,
    }
}


/// A positive `i32` at the start of the entry `key` of `p`, or `None`.
pub open spec fn positive_entry(p: Map<i32, Seq<u8>>, key: i32) -> Option<u32> {
    if p.contains_key(key) && p[key].len() >= 4 && i32_of_bits(le_u32(p[key], 0)) > 0 {
        Some(i32_of_bits(le_u32(p[key], 0)) as u32)
    } else {
        None
    }
}

/// Each property comes from its own Props key, and from no other: the
/// title from 37748744 (a non-empty UTF-16 string), the start and finish
/// dates from 37748738 and 37748739 (dates of the stored timestamps),
/// minutes per day from 37748765, minutes per week from 37748766 (positive
/// `i32` values) and days per month from 37753743 (a positive `u16`).
/// Changing the entry of one key changes only its own property.
pub proof fn properties_come_from_their_keys(
    r: ProjectProperties,
    p: Map<i32, Seq<u8>>,
    r2: ProjectProperties,
    p2: Map<i32, Seq<u8>>,
)
    requires
        properties_of(r, p),
        properties_of(r2, p2),
    ensures
        r.minutes_per_day == positive_entry(p, 37748765),
        r.minutes_per_week == positive_entry(p, 37748766),
        r.days_per_month == (if p.contains_key(37753743) && p[37753743].len() >= 2 && le_u16(
            p[37753743],
            0,
        ) > 0 {
            Some(le_u16(p[37753743], 0) as u32)
        } else {
            None
        }),
        opt_str(r.title) == (if p.contains_key(37748744) {
            match spec_unicode_string(p[37748744], 0) {
                Some(t) => if t.len() == 0 {
                    None
                } else {
                    Some(t)
                },
                None => None,
            }
        } else {
            None
        }),
        opt_str(r.start_date) == (if p.contains_key(37748738) {
            spec_timestamp_date(p[37748738], 0)
        } else {
            None
        }),
        opt_str(r.finish_date) == (if p.contains_key(37748739) {
            spec_timestamp_date(p[37748739], 0)
        } else {
            None
        }),
        p.contains_key(37748766) == p2.contains_key(37748766) && (p.contains_key(37748766)
            ==> p[37748766] == p2[37748766]) ==> r.minutes_per_week == r2.minutes_per_week,
        p.contains_key(37748765) == p2.contains_key(37748765) && (p.contains_key(37748765)
            ==> p[37748765] == p2[37748765]) ==> r.minutes_per_day == r2.minutes_per_day,
{
}

/// The start and finish dates of a project are `YYYY-MM-DD` dates of ten
/// characters.
pub proof fn project_dates_are_dates(r: ProjectProperties, p: Map<i32, Seq<u8>>)
    requires
        properties_of(r, p),
    ensures
        r.start_date matches Some(s) ==> s@.len() == 10,
        r.finish_date matches Some(s) ==> s@.len() == 10,
{
    if p.contains_key(PROJECT_START_DATE) {
        timestamp_date_has_ten_chars(p[PROJECT_START_DATE], 0);
    }
    if p.contains_key(PROJECT_FINISH_DATE) {
        timestamp_date_has_ten_chars(p[PROJECT_FINISH_DATE], 0);
    }
}

} // verus!
