use kayaknav::geo::GeoPos;
use kayaknav::series::pick_direction;
use kayaknav::series::CurrentPrediction;
use kayaknav::series::CurrentRow;
use kayaknav::station::Station;
use kayaknav::station::StationType;

fn station(id: &str) -> Station {
    Station {
        id: String::from(id),
        name: String::from(id),
        loc: GeoPos { lat: 45_000_000, lon: -122_500_000 },
        type_: StationType::Subordinate,
    }
}

fn coarse(rows: Vec<CurrentRow>) -> CurrentPrediction<30> {
    CurrentPrediction { station: station("s1"), start_min: 0, rows }
}

#[test]
fn flood_keeps_flood_direction() {
    let r = pick_direction(1_852_000, 90_000, 270_000);
    assert_eq!(r.speed, 1_852_000);
    assert_eq!(r.direction, 90_000);
}

#[test]
fn zero_speed_counts_as_flood() {
    let r = pick_direction(0, 45_000, 225_000);
    assert_eq!(r.speed, 0);
    assert_eq!(r.direction, 45_000);
}

#[test]
fn ebb_flips_to_ebb_direction_and_magnitude() {
    let r = pick_direction(-926_000, 90_000, 270_000);
    assert_eq!(r.speed, 926_000);
    assert_eq!(r.direction, 270_000);
}

#[test]
fn resample_to_same_interval_is_identity() {
    let t = coarse(vec![
        CurrentRow { speed: 100, direction: 90_000 },
        CurrentRow { speed: 700, direction: 120_000 },
        CurrentRow { speed: 400, direction: 60_000 },
    ]);
    let r: CurrentPrediction<30> = t.resampled::<30>().unwrap();
    assert_eq!(r.start_min, t.start_min);
    assert_eq!(r.rows.len(), t.rows.len());
    for i in 0..t.rows.len() {
        assert_eq!(r.rows[i], t.rows[i]);
    }
}

#[test]
fn resample_interpolates_between_rows() {
    let t = coarse(vec![
        CurrentRow { speed: 0, direction: 90_000 },
        CurrentRow { speed: 600, direction: 60_000 },
    ]);
    let r: CurrentPrediction<5> = t.resampled::<5>().unwrap();
    assert_eq!(r.rows.len(), 7);
    let speeds: Vec<i64> = r.rows.iter().map(|row| row.speed).collect();
    assert_eq!(speeds, vec![0, 100, 200, 300, 400, 500, 600]);
    let dirs: Vec<i64> = r.rows.iter().map(|row| row.direction).collect();
    assert_eq!(dirs, vec![90_000, 85_000, 80_000, 75_000, 70_000, 65_000, 60_000]);
}

#[test]
fn resample_grid_covers_the_extent() {
    let t = coarse(vec![
        CurrentRow { speed: 0, direction: 0 },
        CurrentRow { speed: 30, direction: 0 },
        CurrentRow { speed: 60, direction: 0 },
    ]);
    let r: CurrentPrediction<5> = t.resampled::<5>().unwrap();
    // two coarse intervals of thirty minutes at five-minute steps
    assert_eq!(r.rows.len(), 13);
    assert_eq!(r.rows[0].speed, 0);
    assert_eq!(r.rows[6].speed, 30);
    assert_eq!(r.rows[12].speed, 60);
}

#[test]
fn resampling_an_empty_table_fails() {
    let t = coarse(Vec::new());
    let r = t.resampled::<5>();
    assert!(r.is_err());
}

#[test]
fn resolution_minutes_reports_the_interval() {
    assert_eq!(CurrentPrediction::<30>::resolution_minutes(), 30);
    assert_eq!(CurrentPrediction::<5>::resolution_minutes(), 5);
}
