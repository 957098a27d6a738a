use kayaknav::calendar::day_start_minutes;
use kayaknav::calendar::hour_of_minutes;
use kayaknav::calendar::start_day_allowed;
use kayaknav::calendar::weekday_of_minutes;
use kayaknav::calendar::Weekdays;
use kayaknav::order::percentile20_exec;
use kayaknav::order::sort_i64;
use kayaknav::proxy::ApiProxy;
use kayaknav::saturating::Saturating;

// Minutes since the epoch of a Monday at midnight.
const MONDAY_MIN: i64 = 19723 * 1440;

#[test]
fn weekday_numbers_run_monday_to_sunday() {
    assert_eq!(weekday_of_minutes(MONDAY_MIN), 0);
    assert_eq!(weekday_of_minutes(MONDAY_MIN + 1439), 0);
    assert_eq!(weekday_of_minutes(MONDAY_MIN + 1440), 1);
    assert_eq!(weekday_of_minutes(MONDAY_MIN + 5 * 1440), 5);
    assert_eq!(weekday_of_minutes(MONDAY_MIN + 6 * 1440), 6);
    assert_eq!(weekday_of_minutes(MONDAY_MIN + 7 * 1440), 0);
}

#[test]
fn hour_and_day_start_of_a_timestamp() {
    let t = MONDAY_MIN + 9 * 60 + 30;
    assert_eq!(hour_of_minutes(t), 9);
    assert_eq!(day_start_minutes(t), MONDAY_MIN);
}

#[test]
fn weekday_filter_reads_the_right_flag() {
    let weekend = Weekdays {
        mon: false,
        tue: false,
        wed: false,
        thu: false,
        fri: false,
        sat: true,
        sun: true,
    };
    assert!(!start_day_allowed(&weekend, MONDAY_MIN));
    assert!(start_day_allowed(&weekend, MONDAY_MIN + 5 * 1440));
    assert!(start_day_allowed(&weekend, MONDAY_MIN + 6 * 1440));
    let everything = Weekdays::default();
    assert!(start_day_allowed(&everything, MONDAY_MIN));
}

#[test]
fn sorting_orders_ascending() {
    let v = vec![5i64, -3, 9, 0, 9, 1];
    let s = sort_i64(v);
    assert_eq!(s, vec![-3, 0, 1, 5, 9, 9]);
}

#[test]
fn percentile_picks_the_nearest_rank() {
    // ten values: rank round(0.2 * 9) = 2, the third smallest
    let v: Vec<i64> = vec![100, 10, 90, 20, 80, 30, 70, 40, 60, 50];
    assert_eq!(percentile20_exec(&v), 30);
    // a single value is its own percentile
    assert_eq!(percentile20_exec(&vec![42]), 42);
    // six values: rank round(0.2 * 5) = 1, the second smallest
    assert_eq!(percentile20_exec(&vec![6, 5, 4, 3, 2, 1]), 2);
}

#[test]
fn saturating_counter_clamps_and_steps() {
    let mut s = Saturating::new(10, 2, 5);
    assert_eq!(s.val(), 5);
    assert_eq!(s.lower_bound(), 2);
    assert_eq!(s.upper_bound(), 5);
    assert!(!s.inc());
    assert_eq!(s.val(), 5);
    assert!(s.dec());
    assert_eq!(s.val(), 4);
    assert!(s.set(0));
    assert_eq!(s.val(), 2);
    assert!(!s.dec());
    assert!(!s.set(1));
    assert_eq!(s.val(), 2);
    assert!(s.inc());
    assert_eq!(s.val(), 3);
}

#[test]
fn saturating_closure_update_clamps_the_replacement() {
    let mut s = Saturating::new(3, 0, 10);
    let doubled = s.with_val_mut(|v| (v * 2, v));
    assert_eq!(doubled, 3);
    assert_eq!(s.val(), 6);
    let too_far = s.with_val_mut(|v| (v + 100, v + 1));
    assert_eq!(too_far, 7);
    assert_eq!(s.val(), 10);
}

#[test]
fn proxied_url_percent_encodes_the_target() {
    let p = ApiProxy { url: String::from("https://proxy.example/fetch") };
    let r = p.proxied_url("https://api.example/data?a=1&b=2 c");
    assert_eq!(
        r,
        "https://proxy.example/fetch?apiurl=https%3A%2F%2Fapi.example%2Fdata%3Fa%3D1%26b%3D2%20c"
    );
    let empty = p.proxied_url("");
    assert_eq!(empty, "https://proxy.example/fetch?apiurl=");
}
