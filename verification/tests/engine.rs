use kayaknav::calendar::Weekdays;
use kayaknav::geo::GeoPos;
use kayaknav::leg::calculate_step;
use kayaknav::nearest::NearestNeighborCalculator;
use kayaknav::series::CurrentPrediction;
use kayaknav::series::CurrentRow;
use kayaknav::station::Station;
use kayaknav::station::StationType;
use kayaknav::trip::Trip;
use kayaknav::waypoint::Waypoint;
use kayaknav::waypoint::WaypointType;

// Minutes since the epoch of a Monday at midnight.
const MONDAY_MIN: i64 = 19723 * 1440;

// Three knots, in millimetres per hour.
const THREE_KNOTS: i64 = 5_556_000;

// One knot, in millimetres per hour.
const ONE_KNOT: i64 = 1_852_000;

// One nautical mile, in sixtieths of a millimetre.
const ONE_NM_UNITS: i64 = 111_120_000;

fn station_at(id: &str, lat: i64, lon: i64) -> Station {
    Station {
        id: String::from(id),
        name: String::from(id),
        loc: GeoPos { lat, lon },
        type_: StationType::Harmonic,
    }
}

fn move_to(lat: i64, lon: i64) -> Waypoint {
    Waypoint { point: GeoPos { lat, lon }, type_: WaypointType::Move }
}

fn pause_at(lat: i64, lon: i64) -> Waypoint {
    Waypoint { point: GeoPos { lat, lon }, type_: WaypointType::Pause }
}

/// A fine-resolution table holding the same row over the whole horizon.
fn constant_fine(st: Station, speed: i64, direction: i64, rows: usize) -> CurrentPrediction<5> {
    CurrentPrediction {
        station: st,
        start_min: MONDAY_MIN,
        rows: vec![CurrentRow { speed, direction }; rows],
    }
}

/// A coarse table holding the same row over the whole horizon.
fn constant_coarse(st: Station, speed: i64, direction: i64, rows: usize) -> CurrentPrediction<30> {
    CurrentPrediction {
        station: st,
        start_min: MONDAY_MIN,
        rows: vec![CurrentRow { speed, direction }; rows],
    }
}

#[test]
fn one_mile_east_with_following_current_takes_fifteen_minutes() {
    // Two waypoints a nautical mile apart due east, base speed three knots,
    // one station between them with a steady one-knot current due east: the
    // paddler makes four knots and covers the mile in a quarter hour.
    let start = move_to(0, 0);
    let end = move_to(0, 16_654);
    let st = station_at("mid", 0, 8_327);
    let fine = vec![constant_fine(st.duplicate(), ONE_KNOT, 90_000, 100)];
    let stations = vec![st];
    let mut nn = NearestNeighborCalculator::new(&stations);
    let r = calculate_step(&start, &end, THREE_KNOTS, &fine, 0, &mut nn).unwrap();
    assert_eq!(r.time, 15);
    assert_eq!(r.time_steps, 3);
    assert_eq!(r.distance, ONE_NM_UNITS);
    assert_eq!(r.speed(), 4 * ONE_KNOT);
}

#[test]
fn pause_costs_thirty_minutes_whatever_the_data() {
    let start = move_to(0, 0);
    let end = pause_at(0, 16_654);
    let st = station_at("mid", 0, 8_327);
    let stations = vec![st.duplicate()];
    // an empty table and an absurd start index: the pause does not care
    let fine = vec![CurrentPrediction::<5> { station: st, start_min: 0, rows: Vec::new() }];
    let mut nn = NearestNeighborCalculator::new(&stations);
    let r = calculate_step(&start, &end, THREE_KNOTS, &fine, 999_999, &mut nn).unwrap();
    assert_eq!(r.distance, 0);
    assert_eq!(r.time, 30);
    assert_eq!(r.time_steps, 6);
}

#[test]
fn leg_past_the_forecast_yields_nothing() {
    let start = move_to(0, 0);
    let end = move_to(0, 16_654);
    let st = station_at("mid", 0, 8_327);
    let fine = vec![constant_fine(st.duplicate(), ONE_KNOT, 90_000, 2)];
    let stations = vec![st];
    let mut nn = NearestNeighborCalculator::new(&stations);
    // only two rows of forecast, but the leg needs three increments
    let r = calculate_step(&start, &end, THREE_KNOTS, &fine, 0, &mut nn);
    assert!(r.is_none());
    // starting beyond the table fails at once
    let r2 = calculate_step(&start, &end, THREE_KNOTS, &fine, 10, &mut nn);
    assert!(r2.is_none());
}

#[test]
fn zero_current_duration_is_distance_over_base_speed() {
    // With no current anywhere, a mile at three knots takes twenty minutes,
    // within one five-minute increment of the exact quotient.
    let start = move_to(0, 0);
    let end = move_to(0, 16_654);
    let st = station_at("mid", 0, 8_327);
    let fine = vec![constant_fine(st.duplicate(), 0, 0, 100)];
    let stations = vec![st];
    let mut nn = NearestNeighborCalculator::new(&stations);
    let r = calculate_step(&start, &end, THREE_KNOTS, &fine, 0, &mut nn).unwrap();
    assert_eq!(r.time, 20);
    assert_eq!(r.time_steps, 4);
    // the distance made good is duration times base speed
    assert_eq!(r.distance, 4 * 5 * THREE_KNOTS);
}

#[test]
fn opposing_current_slows_the_leg() {
    let start = move_to(0, 0);
    let end = move_to(0, 16_654);
    let st = station_at("mid", 0, 8_327);
    // one knot due west, against a three-knot paddler heading east
    let fine = vec![constant_fine(st.duplicate(), ONE_KNOT, 270_000, 100)];
    let stations = vec![st];
    let mut nn = NearestNeighborCalculator::new(&stations);
    let r = calculate_step(&start, &end, THREE_KNOTS, &fine, 0, &mut nn).unwrap();
    // two knots made good: about half an hour for the mile
    assert_eq!(r.time, 30);
    assert_eq!(r.time_steps, 6);
}

fn two_point_trip() -> Trip {
    let st = station_at("mid", 0, 8_327);
    let coarse = vec![constant_coarse(st, ONE_KNOT, 90_000, 20)];
    let mut t = Trip::new(THREE_KNOTS, coarse).unwrap();
    t.add_waypoint(move_to(0, 0));
    t.add_waypoint(move_to(0, 16_654));
    t
}

#[test]
fn trip_calculate_prepends_the_zero_leg() {
    let mut t = two_point_trip();
    let r = t.calculate(0).unwrap();
    assert_eq!(r.steps.len(), 2);
    assert_eq!(r.steps[0].distance, 0);
    assert_eq!(r.steps[0].time, 0);
    assert_eq!(r.steps[0].time_steps, 0);
    assert_eq!(r.steps[1].time, 15);
    assert_eq!(r.distance(), ONE_NM_UNITS);
    assert_eq!(r.time(), 15);
}

#[test]
fn repeated_calculate_returns_identical_results() {
    let mut t = two_point_trip();
    let first = t.calculate(0).unwrap();
    let second = t.calculate(0).unwrap();
    assert_eq!(first.steps.len(), second.steps.len());
    for i in 0..first.steps.len() {
        assert_eq!(first.steps[i], second.steps[i]);
    }
}

#[test]
fn waypoint_mutation_invalidates_cached_results() {
    let mut t = two_point_trip();
    let before = t.calculate(0).unwrap();
    assert_eq!(before.steps.len(), 2);
    // a pause appended after the first evaluation must show up in the next
    t.add_waypoint(pause_at(0, 16_654));
    let after = t.calculate(0).unwrap();
    assert_eq!(after.steps.len(), 3);
    assert_eq!(after.steps[2].time, 30);
    assert_eq!(after.time(), before.time() + 30);
}

#[test]
fn calculate_failure_reflects_new_data_after_mutation() {
    let mut t = two_point_trip();
    // the fine horizon holds 115 rows; a start at 113 leaves too few
    assert!(t.calculate(113).is_none());
    assert!(t.calculate(0).is_some());
    t.clear_waypoints();
    // with no waypoints there are no legs to fail
    let r = t.calculate(113).unwrap();
    assert_eq!(r.steps.len(), 1);
}

fn weekend_only() -> Weekdays {
    Weekdays { mon: false, tue: false, wed: false, thu: false, fri: false, sat: true, sun: true }
}

#[test]
fn sweep_with_weekend_filter_returns_weekend_starts_only() {
    let st = station_at("mid", 0, 8_327);
    // eight days of coarse horizon at half-hour steps
    let coarse = vec![constant_coarse(st, ONE_KNOT, 90_000, 8 * 48)];
    let mut t = Trip::new(THREE_KNOTS, coarse).unwrap();
    t.add_waypoint(move_to(0, 0));
    t.add_waypoint(move_to(0, 16_654));
    t.set_weekdays(weekend_only());
    let sr = t.sweep();
    assert!(sr.idx.len() > 0);
    assert_eq!(sr.idx.len(), sr.duration.len());
    for k in 0..sr.idx.len() {
        let minutes = MONDAY_MIN + (sr.idx[k] as i64) * 30;
        let weekday = (minutes / 1440 + 3) % 7;
        assert!(weekday == 5 || weekday == 6);
        assert_eq!(sr.duration[k], 15);
    }
}

#[test]
fn sweep_keeps_the_fastest_quintile() {
    let st = station_at("mid", 0, 8_327);
    // current strength rises over the horizon, so later departures are faster
    let mut rows: Vec<CurrentRow> = Vec::new();
    for i in 0..48 {
        rows.push(CurrentRow { speed: (i as i64) * 30_000, direction: 90_000 });
    }
    let coarse =
        vec![CurrentPrediction::<30> { station: st, start_min: MONDAY_MIN, rows }];
    let mut t = Trip::new(THREE_KNOTS, coarse).unwrap();
    t.add_waypoint(move_to(0, 0));
    t.add_waypoint(move_to(0, 16_654));
    let all_days = Weekdays { mon: true, tue: true, wed: true, thu: true, fri: true, sat: true, sun: true };
    t.set_weekdays(all_days);
    let sr = t.sweep();

    // recompute every candidate duration the slow way
    let mut durations: Vec<i64> = Vec::new();
    let mut candidates = 0usize;
    for i in 0..48usize {
        if let Some(r) = t.calculate(6 * i) {
            durations.push(r.time());
            candidates += 1;
        }
    }
    assert!(sr.idx.len() <= candidates);
    assert!(sr.idx.len() > 0);
    let mut sorted = durations.clone();
    sorted.sort();
    let rank = (2 * (sorted.len() - 1) + 5) / 10;
    let cut = sorted[rank];
    for k in 0..sr.duration.len() {
        assert!(sr.duration[k] <= cut);
    }
    // the sweep is memoized until a mutation
    let again = t.sweep();
    assert_eq!(again.idx, sr.idx);
    assert_eq!(again.duration, sr.duration);
}

#[test]
fn daytime_filter_restricts_start_hours() {
    let st = station_at("mid", 0, 8_327);
    let coarse = vec![constant_coarse(st, ONE_KNOT, 90_000, 2 * 48)];
    let mut t = Trip::new(THREE_KNOTS, coarse).unwrap();
    t.add_waypoint(move_to(0, 0));
    t.add_waypoint(move_to(0, 16_654));
    let all_days = Weekdays { mon: true, tue: true, wed: true, thu: true, fri: true, sat: true, sun: true };
    t.set_weekdays(all_days);
    t.set_daytime(true);
    let sr = t.sweep();
    assert!(sr.idx.len() > 0);
    for k in 0..sr.idx.len() {
        let minutes = MONDAY_MIN + (sr.idx[k] as i64) * 30;
        let hour = (minutes / 60) % 24;
        assert!(hour >= 8);
        // the trip completes before nine in the evening of its start day
        let day_start = (minutes / 1440) * 1440;
        assert!(minutes + sr.duration[k] < day_start + 21 * 60);
    }
}

#[test]
fn empty_coarse_table_refuses_construction() {
    let st = station_at("mid", 0, 8_327);
    let coarse = vec![CurrentPrediction::<30> { station: st, start_min: 0, rows: Vec::new() }];
    assert!(Trip::new(THREE_KNOTS, coarse).is_err());
}

#[test]
fn stations_are_ordered_north_first_then_west() {
    let a = station_at("south", 44_000_000, -122_000_000);
    let b = station_at("north", 46_000_000, -122_000_000);
    let c = station_at("mid_east", 45_000_000, -121_000_000);
    let d = station_at("mid_west", 45_000_000, -123_000_000);
    let coarse = vec![
        constant_coarse(a, 0, 0, 3),
        constant_coarse(b, 0, 0, 3),
        constant_coarse(c, 0, 0, 3),
        constant_coarse(d, 0, 0, 3),
    ];
    let t = Trip::new(THREE_KNOTS, coarse).unwrap();
    let ids: Vec<&str> = t.stations.iter().map(|s| s.id.as_str()).collect();
    assert_eq!(ids, vec!["north", "mid_west", "mid_east", "south"]);
    assert_eq!(t.current_predictions_30m.len(), 4);
    assert_eq!(t.current_predictions_5m.len(), 4);
    assert_eq!(t.current_predictions_5m[0].rows.len(), 13);
}
