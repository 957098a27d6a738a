use kayaknav::angles::cos_mdeg;
use kayaknav::angles::sin_mdeg;
use kayaknav::geo::cos_lat_mil;
use kayaknav::geo::displacement;
use kayaknav::geo::distance_between;
use kayaknav::geo::isqrt;
use kayaknav::geo::project;
use kayaknav::geo::GeoPos;
use kayaknav::nearest::dist2_exec;
use kayaknav::nearest::NearestNeighborCalculator;
use kayaknav::station::Station;
use kayaknav::station::StationType;

fn station(id: &str, lat: i64, lon: i64) -> Station {
    Station {
        id: String::from(id),
        name: String::from(id),
        loc: GeoPos { lat, lon },
        type_: StationType::Harmonic,
    }
}

#[test]
fn sine_is_exact_at_cardinal_angles() {
    assert_eq!(sin_mdeg(0), 0);
    assert_eq!(sin_mdeg(90_000), 1000);
    assert_eq!(sin_mdeg(180_000), 0);
    assert_eq!(sin_mdeg(270_000), -1000);
    assert_eq!(sin_mdeg(360_000), 0);
    assert_eq!(sin_mdeg(30_000), 500);
    assert_eq!(sin_mdeg(150_000), 500);
}

#[test]
fn cosine_is_exact_at_cardinal_angles() {
    assert_eq!(cos_mdeg(0), 1000);
    assert_eq!(cos_mdeg(90_000), 0);
    assert_eq!(cos_mdeg(180_000), -1000);
    assert_eq!(cos_mdeg(270_000), 0);
    assert_eq!(cos_mdeg(60_000), 500);
}

#[test]
fn cosine_of_latitude_shrinks_towards_poles() {
    assert_eq!(cos_lat_mil(0), 1000);
    assert_eq!(cos_lat_mil(90_000_000), 0);
    assert_eq!(cos_lat_mil(-90_000_000), 0);
    let mid = cos_lat_mil(60_000_000);
    assert!(mid > 490 && mid < 510);
}

#[test]
fn integer_square_root_brackets() {
    assert_eq!(isqrt(0), 0);
    assert_eq!(isqrt(1), 1);
    assert_eq!(isqrt(3), 1);
    assert_eq!(isqrt(4), 2);
    assert_eq!(isqrt(999_999), 999);
    assert_eq!(isqrt(1_000_000), 1000);
    assert_eq!(isqrt(u64::MAX as u128), 4_294_967_295);
}

#[test]
fn displacement_north_is_scaled_latitude() {
    let a = GeoPos { lat: 0, lon: 0 };
    let b = GeoPos { lat: 1000, lon: 0 };
    let (n, e) = displacement(a, b);
    assert_eq!(n, 6_672_000);
    assert_eq!(e, 0);
    assert_eq!(distance_between(a, b), 6_672_000);
}

#[test]
fn displacement_east_uses_parallel_of_origin() {
    let a = GeoPos { lat: 0, lon: 0 };
    let b = GeoPos { lat: 0, lon: 1000 };
    let (n, e) = displacement(a, b);
    assert_eq!(n, 0);
    assert_eq!(e, 6_672_000);
    // at the pole the parallel has no extent
    let p = GeoPos { lat: 90_000_000, lon: 0 };
    let q = GeoPos { lat: 90_000_000, lon: 1000 };
    let (pn, pe) = displacement(p, q);
    assert_eq!(pn, 0);
    assert_eq!(pe, 0);
}

#[test]
fn projecting_north_moves_latitude() {
    let o = GeoPos { lat: 0, lon: 0 };
    // one unit of course due north, 6_672_000 units of step: 1000 microdegrees
    let r = project(o, 1000, 0, 6_672_000);
    assert_eq!(r.lat, 1000);
    assert_eq!(r.lon, 0);
}

#[test]
fn projecting_clamps_at_the_pole() {
    let o = GeoPos { lat: 89_999_999, lon: 0 };
    let r = project(o, 1000, 0, 2_000_000_000_000);
    assert_eq!(r.lat, 90_000_000);
}

#[test]
fn nearest_neighbor_matches_brute_force() {
    let stations = vec![
        station("a", 45_000_000, -122_500_000),
        station("b", 45_010_000, -122_480_000),
        station("c", 44_990_000, -122_520_000),
        station("d", 45_020_000, -122_470_000),
    ];
    let mut calc = NearestNeighborCalculator::new(&stations);
    let queries = vec![
        GeoPos { lat: 45_000_001, lon: -122_500_001 },
        GeoPos { lat: 45_009_000, lon: -122_481_000 },
        GeoPos { lat: 44_980_000, lon: -122_530_000 },
        GeoPos { lat: 45_030_000, lon: -122_460_000 },
        GeoPos { lat: 45_005_000, lon: -122_490_000 },
    ];
    for q in &queries {
        let got = calc.nearest_neighbor(*q);
        let mut best = 0usize;
        for j in 1..stations.len() {
            if dist2_exec(*q, stations[j].loc) < dist2_exec(*q, stations[best].loc) {
                best = j;
            }
        }
        assert_eq!(got, best);
    }
}

#[test]
fn warm_cache_answers_like_cold_cache() {
    let stations = vec![
        station("a", 45_000_000, -122_500_000),
        station("b", 45_010_000, -122_480_000),
    ];
    let mut warm = NearestNeighborCalculator::new(&stations);
    let q = GeoPos { lat: 45_008_000, lon: -122_481_000 };
    let first = warm.nearest_neighbor(q);
    let second = warm.nearest_neighbor(q);
    let mut cold = NearestNeighborCalculator::new(&stations);
    assert_eq!(first, second);
    assert_eq!(first, cold.nearest_neighbor(q));
}
