//! Day-of-week and hour-of-day arithmetic on timestamps in minutes since
//! the epoch, and the weekday filter of the sweep.

use vstd::prelude::*;

verus! {

/// Which days of the week the sweep may start a trip on.
#[derive(Debug, Clone, Copy, PartialEq, Eq, Structural)]
pub struct Weekdays {
    pub mon: bool,
    pub tue: bool,
    pub wed: bool,
    pub thu: bool,
    pub fri: bool,
    pub sat: bool,
    pub sun: bool,
}

impl Default for Weekdays {
    /// Every day is allowed.
    fn default() -> (r: Weekdays)
        ensures
            r.mon && r.tue && r.wed && r.thu && r.fri && r.sat && r.sun,
    {
        Weekdays { mon: true, tue: true, wed: true, thu: true, fri: true, sat: true, sun: true }
    }
}

/// The weekday of a timestamp in minutes since the epoch, as a number from
/// zero for Monday to six for Sunday.  The epoch fell on a Thursday.
pub open spec fn weekday_index(t_min: int) -> int {
    (t_min / 1440 + 3) % 7
}

/// Whether the filter allows the given weekday number.
pub open spec fn day_enabled(w: Weekdays, d: int) -> bool {
    if d == 0 {
        w.mon
    } else if d == 1 {
        w.tue
    } else if d == 2 {
        w.wed
    } else if d == 3 {
        w.thu
    } else if d == 4 {
        w.fri
    } else if d == 5 {
        w.sat
    } else {
        w.sun
    }
}

/// The hour of the day of a timestamp in minutes since the epoch.
pub open spec fn hour_of(t_min: int) -> int {
    (t_min / 60) % 24
}

/// Midnight of the day a timestamp falls on, in minutes since the epoch.
pub open spec fn day_start(t_min: int) -> int {
    (t_min / 1440) * 1440
}

/// The weekday number of a timestamp in minutes since the epoch.
pub fn weekday_of_minutes(t_min: i64) -> (r: u8)
    requires
        0 <= t_min,
    ensures
        r == weekday_index(t_min as int),
        r < 7,
{
    ((t_min / 1440 + 3) % 7) as u8
}

/// Whether the filter allows the weekday of the given timestamp.
pub fn start_day_allowed(w: &Weekdays, t_min: i64) -> (r: bool)
    requires
        0 <= t_min,
    ensures
        r == day_enabled(*w, weekday_index(t_min as int)),
{
    let d = weekday_of_minutes(t_min);
    if d == 0 {
        w.mon
    } else if d == 1 {
        w.tue
    } else if d == 2 {
        w.wed
    } else if d == 3 {
        w.thu
    } else if d == 4 {
        w.fri
    } else if d == 5 {
        w.sat
    } else {
        w.sun
    }
}

/// The hour of the day of a timestamp in minutes since the epoch.
pub fn hour_of_minutes(t_min: i64) -> (r: u8)
    requires
        0 <= t_min,
    ensures
        r == hour_of(t_min as int),
        r < 24,
{
    ((t_min / 60) % 24) as u8
}

/// Midnight of the day a timestamp falls on.
pub fn day_start_minutes(t_min: i64) -> (r: i64)
    requires
        0 <= t_min,
    ensures
        r == day_start(t_min as int),
        0 <= r <= t_min,
{
    proof {
        vstd::arithmetic::div_mod::lemma_remainder_lower(t_min as int, 1440);
    }
    (t_min / 1440) * 1440
}

} // verus!
