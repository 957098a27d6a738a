//! The trip engine: owns the waypoint list, the station tables at two
//! resolutions and the spatial cache, memoizes whole-trip evaluations per
//! start time, and sweeps a horizon of candidate departure times.

use std::collections::HashMap;

use vstd::prelude::*;

use vstd::relations::sorted_by;

use crate::calendar::Weekdays;
use crate::geo::iabs;
use crate::geo::GeoPos;
use crate::leg::calculate_step;
use crate::leg::max_height;
use crate::leg::step_spec;
use crate::leg::tables_of;
use crate::leg::StepResult;
use crate::nearest::NearestNeighborCalculator;
use crate::order::sort_predictions;
use crate::order::station_order;
use crate::series::CurrentPrediction;
use crate::series::CurrentRow;
use crate::series::InsufficientDataError;
use crate::station::station_eq;
use crate::station::Station;
use crate::waypoint::Waypoint;

verus! {

/// Largest number of waypoints a trip may hold.
pub const MAX_WAYPOINTS: usize = 1_000_000;

/// Largest number of stations a trip may hold.
pub const MAX_STATIONS: usize = 100_000;

/// Largest number of rows a coarse table handed to the engine may hold, so
/// that its fine resampling stays within bounds.
pub const MAX_COARSE_ROWS: usize = 1_000_000;

/// Largest start-time index `calculate` accepts.
pub const MAX_START_IDX: usize = 0x1000_0000;

/// A step result abstracted to its three numbers: distance, time,
/// increments.
pub open spec fn step_abs(s: StepResult) -> (int, int, int) {
    (s.distance as int, s.time as int, s.time_steps as int)
}

/// A sequence of step results abstracted element-wise.
pub open spec fn steps_abs(s: Seq<StepResult>) -> Seq<(int, int, int)> {
    s.map_values(|x: StepResult| step_abs(x))
}

/// Total increments over a sequence of step results.
pub open spec fn steps_count(s: Seq<StepResult>) -> int
    decreases s.len(),
{
    if s.len() == 0 {
        0
    } else {
        steps_count(s.drop_last()) + s.last().time_steps
    }
}

/// Total distance over a sequence of step results.
pub open spec fn steps_distance(s: Seq<StepResult>) -> int
    decreases s.len(),
{
    if s.len() == 0 {
        0
    } else {
        steps_distance(s.drop_last()) + s.last().distance
    }
}

/// Total time over a sequence of step results.
pub open spec fn steps_time(s: Seq<StepResult>) -> int
    decreases s.len(),
{
    if s.len() == 0 {
        0
    } else {
        steps_time(s.drop_last()) + s.last().time
    }
}

/// One evaluated trip: a step result per waypoint transition, led by a
/// synthetic zero leg for the first waypoint.
#[derive(Debug)]
pub struct TripResult {
    /// The per-leg results, in travel order.
    pub steps: Vec<StepResult>,
}

impl TripResult {
    /// The steps carry the leg accounting the simulator guarantees, and the
    /// total number of increments is bounded, so the sums fit.
    pub open spec fn wf(self) -> bool {
        &&& self.steps@.len() <= MAX_WAYPOINTS + 1
        &&& forall|i: int|
            0 <= i < self.steps@.len() ==> (#[trigger] self.steps@[i]).time == self.steps@[
            i].time_steps * 5
        &&& forall|i: int|
            0 <= i < self.steps@.len() ==> iabs((#[trigger] self.steps@[i]).distance as int)
                <= self.steps@[i].time_steps * 2_800_000_000
        &&& steps_count(self.steps@) <= 0x4000_0000
    }

    /// An exact copy.
    pub fn duplicate(&self) -> (r: TripResult)
        ensures
            r.steps@ == self.steps@,
    {
        let mut steps: Vec<StepResult> = Vec::new();
        let mut i: usize = 0;
        while i < self.steps.len()
            invariant
                i <= self.steps@.len(),
                steps@ =~= self.steps@.take(i as int),
            decreases self.steps@.len() - i,
        {
            proof {
                assert(self.steps@.take(i + 1).drop_last() =~= self.steps@.take(i as int));
            }
            steps.push(self.steps[i]);
            i = i + 1;
        }
        proof {
            assert(self.steps@.take(self.steps@.len() as int) =~= self.steps@);
        }
        TripResult { steps }
    }

    /// Aggregate distance, in length units: the sum of the legs.
    pub fn distance(&self) -> (r: i64)
        requires
            self.wf(),
        ensures
            r == steps_distance(self.steps@),
    {
        proof {
            lemma_steps_count_take(self.steps@, 0);
        }
        let mut acc: i64 = 0;
        let mut i: usize = 0;
        while i < self.steps.len()
            invariant
                self.wf(),
                i <= self.steps@.len(),
                acc == steps_distance(self.steps@.take(i as int)),
                iabs(acc as int) <= steps_count(self.steps@.take(i as int)) * 2_800_000_000,
                0 <= steps_count(self.steps@.take(i as int)) <= 0x4000_0000,
            decreases self.steps@.len() - i,
        {
            proof {
                assert(self.steps@.take(i + 1).drop_last() =~= self.steps@.take(i as int));
                assert(self.steps@.take(i + 1).last() == self.steps@[i as int]);
                lemma_steps_count_take(self.steps@, i + 1);
                assert(self.steps@[i as int].wf_leg_bounds()) by {
                    assert(self.steps@[i as int].time == self.steps@[i as int].time_steps * 5);
                }
            }
            acc = acc + self.steps[i].distance;
            i = i + 1;
        }
        proof {
            assert(self.steps@.take(self.steps@.len() as int) =~= self.steps@);
        }
        acc
    }

    /// Aggregate time, in minutes: the sum of the legs.
    pub fn time(&self) -> (r: i64)
        requires
            self.wf(),
        ensures
            r == steps_time(self.steps@),
            r == steps_count(self.steps@) * 5,
            0 <= r,
    {
        proof {
            lemma_steps_count_take(self.steps@, 0);
        }
        let mut acc: i64 = 0;
        let mut i: usize = 0;
        while i < self.steps.len()
            invariant
                self.wf(),
                i <= self.steps@.len(),
                acc == steps_time(self.steps@.take(i as int)),
                acc == steps_count(self.steps@.take(i as int)) * 5,
                0 <= steps_count(self.steps@.take(i as int)) <= 0x4000_0000,
            decreases self.steps@.len() - i,
        {
            proof {
                assert(self.steps@.take(i + 1).drop_last() =~= self.steps@.take(i as int));
                assert(self.steps@.take(i + 1).last() == self.steps@[i as int]);
                lemma_steps_count_take(self.steps@, i + 1);
            }
            acc = acc + self.steps[i].time;
            i = i + 1;
        }
        proof {
            assert(self.steps@.take(self.steps@.len() as int) =~= self.steps@);
        }
        acc
    }
}

impl StepResult {
    /// The per-leg accounting the simulator guarantees.
    pub open spec fn wf_leg_bounds(self) -> bool {
        &&& self.time == self.time_steps * 5
        &&& iabs(self.distance as int) <= self.time_steps * 2_800_000_000
    }
}

/// Every increment count is non-negative, so a prefix counts no more than
/// the whole.
pub proof fn lemma_steps_count_take(s: Seq<StepResult>, i: int)
    requires
        0 <= i <= s.len(),
    ensures
        0 <= steps_count(s.take(i)) <= steps_count(s),
    decreases s.len() - i,
{
    if i == s.len() {
        assert(s.take(i) =~= s);
        lemma_steps_count_nonneg(s);
    } else {
        lemma_steps_count_take(s, i + 1);
        assert(s.take(i + 1).drop_last() =~= s.take(i));
        lemma_steps_count_nonneg(s.take(i));
    }
}

/// Increment counts never go negative.
pub proof fn lemma_steps_count_nonneg(s: Seq<StepResult>)
    ensures
        steps_count(s) >= 0,
    decreases s.len(),
{
    if s.len() > 0 {
        lemma_steps_count_nonneg(s.drop_last());
    }
}

/// The locations of a station list, in order.
pub open spec fn station_positions(stations: Seq<Station>) -> Seq<GeoPos> {
    stations.map_values(|s: Station| s.loc)
}

/// The trip evaluated from waypoint pair `i` on, the running time index
/// threaded forward by each leg's consumed increments.
pub open spec fn trip_rec(
    wps: Seq<Waypoint>,
    base: int,
    tables: Seq<Seq<CurrentRow>>,
    ps: Seq<GeoPos>,
    t: int,
    i: int,
) -> Option<Seq<(int, int, int)>>
    decreases wps.len() - i,
{
    if i + 1 >= wps.len() {
        Some(Seq::empty())
    } else {
        match step_spec(wps[i], wps[i + 1], base, tables, ps, t) {
            None => None,
            Some(st) => match trip_rec(wps, base, tables, ps, t + st.2, i + 1) {
                None => None,
                Some(rest) => Some(seq![st] + rest),
            },
        }
    }
}

/// The whole trip from a start time index: the legs in order, led by the
/// synthetic zero leg, or nothing when any leg outruns the forecast.
pub open spec fn trip_spec(
    wps: Seq<Waypoint>,
    base: int,
    tables: Seq<Seq<CurrentRow>>,
    ps: Seq<GeoPos>,
    t0: int,
) -> Option<Seq<(int, int, int)>> {
    match trip_rec(wps, base, tables, ps, t0, 0) {
        None => None,
        Some(s) => Some(seq![(0int, 0int, 0int)] + s),
    }
}

/// An executable result agrees with a specified one.
pub open spec fn trip_matches(r: Option<TripResult>, s: Option<Seq<(int, int, int)>>) -> bool {
    match r {
        Some(tr) => {
            &&& s is Some
            &&& steps_abs(tr.steps@) == s.unwrap()
            &&& tr.wf()
        },
        None => s is None,
    }
}

/// The trip engine: waypoints, base speed, station tables at both
/// resolutions, the spatial cache, and memoized results.
#[derive(Debug)]
pub struct Trip {
    /// The stops, in travel order.
    pub waypoints: Vec<Waypoint>,
    /// Base paddling speed, in millimetres per hour.
    pub speed: i64,
    /// The stations, northernmost first.
    pub stations: Vec<Station>,
    /// Coarse tables, one per station, in station order.
    pub current_predictions_30m: Vec<CurrentPrediction<30>>,
    /// Fine tables, one per station, in station order.
    pub current_predictions_5m: Vec<CurrentPrediction<5>>,
    /// Which start days the sweep allows.
    pub weekdays: Weekdays,
    /// Whether the sweep restricts starts to daylight trips.
    pub daytime: bool,
    /// Memoized whole-trip evaluations, keyed by start-time index.
    pub results: HashMap<usize, Option<TripResult>>,
    /// The memoized sweep table.
    pub sweep_result: Option<SweepResult>,
    /// The spatial lookup over `stations`.
    pub nn_calc: NearestNeighborCalculator,
}

/// The sweep's answer: parallel columns of coarse start indices and trip
/// durations in minutes, the fastest quintile of viable departures.
#[derive(Debug)]
pub struct SweepResult {
    /// Coarse-table start indices, ascending.
    pub idx: Vec<usize>,
    /// Trip duration for each start, in minutes.
    pub duration: Vec<i64>,
}

impl SweepResult {
    /// The two columns line up.
    pub open spec fn wf(self) -> bool {
        &&& self.idx@.len() == self.duration@.len()
        &&& self.idx@.len() <= crate::series::MAX_ROWS
    }

    /// An exact copy.
    pub fn duplicate(&self) -> (r: SweepResult)
        ensures
            r.idx@ == self.idx@,
            r.duration@ == self.duration@,
    {
        let mut idx: Vec<usize> = Vec::new();
        let mut i: usize = 0;
        while i < self.idx.len()
            invariant
                i <= self.idx@.len(),
                idx@ =~= self.idx@.take(i as int),
            decreases self.idx@.len() - i,
        {
            proof {
                assert(self.idx@.take(i + 1).drop_last() =~= self.idx@.take(i as int));
            }
            idx.push(self.idx[i]);
            i = i + 1;
        }
        let mut duration: Vec<i64> = Vec::new();
        let mut j: usize = 0;
        while j < self.duration.len()
            invariant
                j <= self.duration@.len(),
                duration@ =~= self.duration@.take(j as int),
            decreases self.duration@.len() - j,
        {
            proof {
                assert(self.duration@.take(j + 1).drop_last() =~= self.duration@.take(j as int));
            }
            duration.push(self.duration[j]);
            j = j + 1;
        }
        proof {
            assert(self.idx@.take(self.idx@.len() as int) =~= self.idx@);
            assert(self.duration@.take(self.duration@.len() as int) =~= self.duration@);
        }
        SweepResult { idx, duration }
    }
}

/// Total time over a sequence of abstracted steps.
pub open spec fn tuple_time_sum(ss: Seq<(int, int, int)>) -> int
    decreases ss.len(),
{
    if ss.len() == 0 {
        0
    } else {
        tuple_time_sum(ss.drop_last()) + ss.last().1
    }
}

impl Trip {
    /// The outcome `calculate` owes for a start index, over the current
    /// state.
    pub open spec fn calc_spec(self, t0: int) -> Option<Seq<(int, int, int)>> {
        trip_spec(self.waypoints@, self.speed as int, tables_of(self.current_predictions_5m@),
            station_positions(self.stations@), t0)
    }

    /// Everything the engine relies on: bounded, well-formed fields, a
    /// calculator over exactly these stations, and caches that hold only
    /// what the current state owes.
    pub open spec fn wf(self) -> bool {
        &&& 1 <= self.stations@.len() <= MAX_STATIONS
        &&& self.current_predictions_30m@.len() == self.stations@.len()
        &&& self.current_predictions_5m@.len() == self.stations@.len()
        &&& forall|i: int| 0 <= i < self.stations@.len() ==> (#[trigger] self.stations@[i]).wf()
        &&& forall|i: int|
            0 <= i < self.current_predictions_30m@.len() ==> (#[trigger] self.current_predictions_30m@[
            i]).wf()
        &&& forall|i: int|
            0 <= i < self.current_predictions_5m@.len() ==> (#[trigger] self.current_predictions_5m@[
            i]).wf()
        &&& self.waypoints@.len() <= MAX_WAYPOINTS
        &&& forall|i: int| 0 <= i < self.waypoints@.len() ==> (#[trigger] self.waypoints@[i]).wf()
        &&& 0 <= self.speed <= crate::leg::MAX_BASE_MMH
        &&& self.nn_calc.wf()
        &&& self.nn_calc.positions_seq() == station_positions(self.stations@)
        &&& forall|k: usize|
            #[trigger] self.results@.dom().contains(k) ==> trip_matches(self.results@[k],
                self.calc_spec(k as int))
        &&& match self.sweep_result {
            Some(sr) => sr.wf() && sweep_matches(sr, self),
            None => true,
        }
    }
}

impl Trip {
    /// Build an engine over the given coarse tables: the stations are put in
    /// the engine's order, each table is resampled to the fine resolution,
    /// and every cache starts empty.  Fails exactly when some table is
    /// empty.
    pub fn new(speed: i64, current_predictions_30m: Vec<CurrentPrediction<30>>) -> (r: Result<
        Trip,
        InsufficientDataError,
    >)
        requires
            0 <= speed <= crate::leg::MAX_BASE_MMH,
            1 <= current_predictions_30m@.len() <= MAX_STATIONS,
            forall|i: int|
                0 <= i < current_predictions_30m@.len() ==> (#[trigger] current_predictions_30m@[
                i]).wf(),
            forall|i: int|
                0 <= i < current_predictions_30m@.len() ==> (#[trigger] current_predictions_30m@[
                i]).rows@.len() <= MAX_COARSE_ROWS,
        ensures
            match r {
                Ok(t) => {
                    &&& t.wf()
                    &&& t.speed == speed
                    &&& t.waypoints@.len() == 0
                    &&& !t.daytime
                    &&& t.weekdays == (Weekdays {
                        mon: false,
                        tue: false,
                        wed: false,
                        thu: false,
                        fri: false,
                        sat: false,
                        sun: false,
                    })
                    &&& t.current_predictions_30m@.to_multiset()
                        == current_predictions_30m@.to_multiset()
                    &&& sorted_by(t.current_predictions_30m@, station_order())
                    &&& t.stations@.len() == current_predictions_30m@.len()
                    &&& forall|i: int|
                        0 <= i < t.stations@.len() ==> station_eq(#[trigger] t.stations@[i],
                            t.current_predictions_30m@[i].station)
                    &&& forall|i: int|
                        0 <= i < t.stations@.len() ==> crate::series::is_resample_of(
                            #[trigger] t.current_predictions_30m@[i],
                            t.current_predictions_5m@[i])
                },
                Err(_) => exists|i: int|
                    0 <= i < current_predictions_30m@.len() && (#[trigger] current_predictions_30m@[
                    i]).rows@.len() == 0,
            },
    {
        broadcast use vstd::seq_lib::group_to_multiset_ensures;

        let ghost orig = current_predictions_30m@;
        let sorted = sort_predictions(current_predictions_30m);
        proof {
            assert forall|i: int| 0 <= i < sorted@.len() implies (#[trigger] sorted@[i]).wf()
                && sorted@[i].rows@.len() <= MAX_COARSE_ROWS by {
                assert(sorted@.to_multiset().contains(sorted@[i]));
                assert(orig.to_multiset().contains(sorted@[i]));
                assert(orig.contains(sorted@[i]));
            }
        }
        let mut stations: Vec<Station> = Vec::new();
        let mut fine: Vec<CurrentPrediction<5>> = Vec::new();
        let mut i: usize = 0;
        while i < sorted.len()
            invariant
                i <= sorted@.len(),
                orig == current_predictions_30m@,
                sorted@.to_multiset() == orig.to_multiset(),
                forall|k: int|
                    0 <= k < sorted@.len() ==> (#[trigger] sorted@[k]).wf() && sorted@[
                    k].rows@.len() <= MAX_COARSE_ROWS,
                stations@.len() == i,
                fine@.len() == i,
                forall|k: int|
                    0 <= k < i ==> station_eq(#[trigger] stations@[k], sorted@[k].station),
                forall|k: int| 0 <= k < i ==> (#[trigger] stations@[k]).wf(),
                forall|k: int|
                    0 <= k < i ==> crate::series::is_resample_of(#[trigger] sorted@[k], fine@[k]),
                forall|k: int| 0 <= k < i ==> (#[trigger] fine@[k]).wf(),
            decreases sorted@.len() - i,
        {
            proof {
                assert(crate::series::resampled_len(sorted@[i as int].rows@.len() as int, 30, 5)
                    <= 6 * MAX_COARSE_ROWS + 1 || sorted@[i as int].rows@.len() == 0);
            }
            let resampled = sorted[i].resampled::<5>();
            match resampled {
                Ok(f) => {
                    stations.push(sorted[i].station.duplicate());
                    fine.push(f);
                },
                Err(e) => {
                    proof {
                        assert(sorted@.contains(sorted@[i as int]));
                        vstd::seq_lib::to_multiset_contains(sorted@, sorted@[i as int]);
                        vstd::seq_lib::to_multiset_contains(orig, sorted@[i as int]);
                        assert(orig.contains(sorted@[i as int]));
                        let j = choose|j: int|
                            0 <= j < orig.len() && orig[j] == sorted@[i as int];
                        assert(orig[j].rows@.len() == 0);
                    }
                    return Err(e);
                },
            }
            i = i + 1;
        }
        let nn_calc = NearestNeighborCalculator::new(&stations);
        let trip = Trip {
            waypoints: Vec::new(),
            speed,
            stations,
            current_predictions_30m: sorted,
            current_predictions_5m: fine,
            weekdays: Weekdays {
                mon: false,
                tue: false,
                wed: false,
                thu: false,
                fri: false,
                sat: false,
                sun: false,
            },
            daytime: false,
            results: HashMap::new(),
            sweep_result: None,
            nn_calc,
        };
        proof {
            assert(station_positions(trip.stations@) =~= trip.nn_calc.positions_seq());
            assert(forall|k: usize| !trip.results@.dom().contains(k));
        }
        Ok(trip)
    }

    /// Drop every memoized result; called by each mutation.
    fn clear_cache(&mut self)
        ensures
            final(self).results@.dom() == Set::<usize>::empty(),
            final(self).sweep_result is None,
            final(self).waypoints == old(self).waypoints,
            final(self).speed == old(self).speed,
            final(self).stations == old(self).stations,
            final(self).current_predictions_30m == old(self).current_predictions_30m,
            final(self).current_predictions_5m == old(self).current_predictions_5m,
            final(self).weekdays == old(self).weekdays,
            final(self).daytime == old(self).daytime,
            final(self).nn_calc == old(self).nn_calc,
    {
        self.results.clear();
        self.sweep_result = None;
        proof {
            assert(self.results@.dom() =~= Set::<usize>::empty());
        }
    }

    /// Append a waypoint to the travel order; prior results are invalidated.
    pub fn add_waypoint(&mut self, waypoint: Waypoint)
        requires
            old(self).wf(),
            waypoint.wf(),
            old(self).waypoints@.len() < MAX_WAYPOINTS,
        ensures
            final(self).wf(),
            final(self).waypoints@ == old(self).waypoints@.push(waypoint),
            final(self).speed == old(self).speed,
            final(self).stations == old(self).stations,
            final(self).current_predictions_30m == old(self).current_predictions_30m,
            final(self).current_predictions_5m == old(self).current_predictions_5m,
            final(self).weekdays == old(self).weekdays,
            final(self).daytime == old(self).daytime,
    {
        self.waypoints.push(waypoint);
        self.clear_cache();
    }

    /// Remove the waypoint at `idx`; prior results are invalidated.
    pub fn remove_waypoint(&mut self, idx: usize)
        requires
            old(self).wf(),
            idx < old(self).waypoints@.len(),
        ensures
            final(self).wf(),
            final(self).waypoints@ == old(self).waypoints@.remove(idx as int),
            final(self).speed == old(self).speed,
            final(self).stations == old(self).stations,
            final(self).current_predictions_30m == old(self).current_predictions_30m,
            final(self).current_predictions_5m == old(self).current_predictions_5m,
            final(self).weekdays == old(self).weekdays,
            final(self).daytime == old(self).daytime,
    {
        self.waypoints.remove(idx);
        self.clear_cache();
    }

    /// Remove every waypoint; prior results are invalidated.
    pub fn clear_waypoints(&mut self)
        requires
            old(self).wf(),
        ensures
            final(self).wf(),
            final(self).waypoints@.len() == 0,
            final(self).speed == old(self).speed,
            final(self).stations == old(self).stations,
            final(self).current_predictions_30m == old(self).current_predictions_30m,
            final(self).current_predictions_5m == old(self).current_predictions_5m,
            final(self).weekdays == old(self).weekdays,
            final(self).daytime == old(self).daytime,
    {
        self.waypoints.clear();
        self.clear_cache();
    }

    /// Change the base paddling speed; prior results are invalidated.
    pub fn set_speed(&mut self, speed: i64)
        requires
            old(self).wf(),
            0 <= speed <= crate::leg::MAX_BASE_MMH,
        ensures
            final(self).wf(),
            final(self).speed == speed,
            final(self).waypoints == old(self).waypoints,
            final(self).stations == old(self).stations,
            final(self).current_predictions_30m == old(self).current_predictions_30m,
            final(self).current_predictions_5m == old(self).current_predictions_5m,
            final(self).weekdays == old(self).weekdays,
            final(self).daytime == old(self).daytime,
    {
        self.speed = speed;
        self.clear_cache();
    }

    /// Change the weekday filter; prior results are invalidated when it
    /// differs.
    pub fn set_weekdays(&mut self, weekdays: Weekdays)
        requires
            old(self).wf(),
        ensures
            final(self).wf(),
            final(self).weekdays == weekdays,
            final(self).waypoints == old(self).waypoints,
            final(self).speed == old(self).speed,
            final(self).stations == old(self).stations,
            final(self).current_predictions_30m == old(self).current_predictions_30m,
            final(self).current_predictions_5m == old(self).current_predictions_5m,
            final(self).daytime == old(self).daytime,
    {
        if self.weekdays != weekdays {
            self.weekdays = weekdays;
            self.clear_cache();
        }
    }

    /// Change the daylight filter; prior results are invalidated when it
    /// differs.
    pub fn set_daytime(&mut self, daytime: bool)
        requires
            old(self).wf(),
        ensures
            final(self).wf(),
            final(self).daytime == daytime,
            final(self).waypoints == old(self).waypoints,
            final(self).speed == old(self).speed,
            final(self).stations == old(self).stations,
            final(self).current_predictions_30m == old(self).current_predictions_30m,
            final(self).current_predictions_5m == old(self).current_predictions_5m,
            final(self).weekdays == old(self).weekdays,
    {
        if self.daytime != daytime {
            self.daytime = daytime;
            self.clear_cache();
        }
    }
}

/// A trip prefix already evaluated, composed with the outcome of the
/// remainder.
pub open spec fn compose_trip(acc: Seq<(int, int, int)>, rest: Option<Seq<(int, int, int)>>) -> Option<
    Seq<(int, int, int)>,
> {
    match rest {
        None => None,
        Some(r) => Some(acc + r),
    }
}

/// Copy an optional trip result.
fn duplicate_opt(o: &Option<TripResult>) -> (r: Option<TripResult>)
    ensures
        match (*o, r) {
            (Some(a), Some(b)) => a.steps@ == b.steps@,
            (None, None) => true,
            _ => false,
        },
{
    match o {
        None => None,
        Some(tr) => Some(tr.duplicate()),
    }
}

impl Trip {
    /// Evaluate the whole trip from fine-resolution start index
    /// `start_time_idx`: each consecutive waypoint pair simulated in order,
    /// the running time index threaded forward by each leg's consumed
    /// increments, memoized per start index.  Yields nothing when any leg
    /// outruns the forecast, and that answer is memoized too.  The answer is
    /// a function of the waypoints, speed, stations and tables alone, so
    /// repeated calls on an unchanged engine return identical results, and
    /// a call after any mutation reflects the new state.
    #[verifier::rlimit(100)]
    pub fn calculate(&mut self, start_time_idx: usize) -> (r: Option<TripResult>)
        requires
            old(self).wf(),
            start_time_idx <= MAX_START_IDX,
        ensures
            final(self).wf(),
            final(self).waypoints == old(self).waypoints,
            final(self).speed == old(self).speed,
            final(self).stations == old(self).stations,
            final(self).current_predictions_30m == old(self).current_predictions_30m,
            final(self).current_predictions_5m == old(self).current_predictions_5m,
            final(self).weekdays == old(self).weekdays,
            final(self).daytime == old(self).daytime,
            final(self).sweep_result == old(self).sweep_result,
            trip_matches(r, old(self).calc_spec(start_time_idx as int)),
    {
        let ghost w0 = self.waypoints@;
        let ghost base0 = self.speed as int;
        let ghost tbl = tables_of(self.current_predictions_5m@);
        let ghost ps0 = station_positions(self.stations@);
        let ghost full = trip_rec(w0, base0, tbl, ps0, start_time_idx as int, 0);

        let cached = self.results.get(&start_time_idx);
        if let Some(c) = cached {
            return duplicate_opt(c);
        }

        let mut steps: Vec<StepResult> = Vec::new();
        steps.push(StepResult::default());
        let mut t: usize = start_time_idx;
        let mut i: usize = 0;
        let n = self.waypoints.len();
        proof {
            assert(steps@.skip(1) =~= Seq::<StepResult>::empty());
            assert(steps_abs(steps@.skip(1)) =~= Seq::<(int, int, int)>::empty());
            if full is Some {
                assert(steps_abs(steps@.skip(1)) + full.unwrap() =~= full.unwrap());
            }
            assert(steps@[0].wf_leg_bounds());
            assert(steps_count(steps@) == 0) by {
                assert(steps@.drop_last() =~= Seq::<StepResult>::empty());
                assert(steps_count(Seq::<StepResult>::empty()) == 0);
                assert(steps@.last().time_steps == 0);
            }
        }
        while i + 1 < n
            invariant
                self.wf(),
                self.waypoints == old(self).waypoints,
                self.speed == old(self).speed,
                self.stations == old(self).stations,
                self.current_predictions_30m == old(self).current_predictions_30m,
                self.current_predictions_5m == old(self).current_predictions_5m,
                self.weekdays == old(self).weekdays,
                self.daytime == old(self).daytime,
                self.sweep_result == old(self).sweep_result,
                self.results@ == old(self).results@,
                w0 == self.waypoints@,
                base0 == self.speed as int,
                tbl == tables_of(self.current_predictions_5m@),
                ps0 == station_positions(self.stations@),
                full == trip_rec(w0, base0, tbl, ps0, start_time_idx as int, 0),
                n == w0.len(),
                i <= n,
                start_time_idx <= MAX_START_IDX,
                steps@.len() == i + 1,
                steps@[0] == (StepResult { distance: 0, time: 0, time_steps: 0 }),
                forall|k: int| 0 <= k < steps@.len() ==> (#[trigger] steps@[k]).wf_leg_bounds(),
                steps_count(steps@) == t - start_time_idx,
                t >= start_time_idx,
                t <= start_time_idx + 6 * i + crate::series::MAX_ROWS,
                full == compose_trip(steps_abs(steps@.skip(1)), trip_rec(w0, base0, tbl, ps0,
                    t as int, i as int)),
            decreases n - i,
        {
            proof {
                assert forall|k: int| 0 <= k < tbl.len() implies (#[trigger] tbl[k]).len()
                    <= crate::series::MAX_ROWS by {
                    assert(self.current_predictions_5m@[k].wf());
                }
                crate::leg::lemma_max_height_le(tbl, crate::series::MAX_ROWS as int);
            }
            let res = calculate_step(&self.waypoints[i], &self.waypoints[i + 1], self.speed,
                &self.current_predictions_5m, t, &mut self.nn_calc);
            match res {
                None => {
                    proof {
                        assert(trip_rec(w0, base0, tbl, ps0, t as int, i as int) is None);
                        assert(full is None);
                        assert(old(self).calc_spec(start_time_idx as int) is None);
                    }
                    self.results.insert(start_time_idx, None);
                    proof {
                        assert forall|k: usize| #[trigger] self.results@.dom().contains(
                        k) implies trip_matches(self.results@[k], self.calc_spec(k as int)) by {
                            if k != start_time_idx {
                                assert(old(self).results@.dom().contains(k));
                            }
                        }
                    }
                    return None;
                },
                Some(s) => {
                    let ghost old_steps = steps@;
                    let ghost old_t = t as int;
                    steps.push(s);
                    t = t + s.time_steps;
                    proof {
                        let st = step_abs(s);
                        assert(steps@.drop_last() =~= old_steps);
                        assert(steps_abs(steps@.skip(1)) =~= steps_abs(old_steps.skip(1)).push(
                            st));
                        assert(trip_rec(w0, base0, tbl, ps0, old_t, i as int) == (
                        match trip_rec(w0, base0, tbl, ps0, old_t + st.2, i + 1) {
                            None => None,
                            Some(rest) => Some(seq![st] + rest),
                        }));
                        match trip_rec(w0, base0, tbl, ps0, t as int, i + 1) {
                            None => {},
                            Some(rest) => {
                                assert(steps_abs(old_steps.skip(1)) + (seq![st] + rest)
                                    =~= steps_abs(old_steps.skip(1)).push(st) + rest);
                            },
                        }
                    }
                    i = i + 1;
                },
            }
        }
        proof {
            assert(trip_rec(w0, base0, tbl, ps0, t as int, i as int) == Some(Seq::<(
                int,
                int,
                int,
            )>::empty()));
            assert(steps_abs(steps@.skip(1)) + Seq::<(int, int, int)>::empty() =~= steps_abs(
                steps@.skip(1)));
            assert(full == Some(steps_abs(steps@.skip(1))));
            assert(seq![(0int, 0int, 0int)] + steps_abs(steps@.skip(1)) =~= steps_abs(steps@));
            assert(old(self).calc_spec(start_time_idx as int) == Some(steps_abs(steps@)));
        }
        let tr = TripResult { steps };
        proof {
            assert(tr.wf());
            assert(trip_matches(Some(tr), old(self).calc_spec(start_time_idx as int)));
        }
        let dup = tr.duplicate();
        self.results.insert(start_time_idx, Some(dup));
        proof {
            assert forall|k: usize| #[trigger] self.results@.dom().contains(
            k) implies trip_matches(self.results@[k], self.calc_spec(k as int)) by {
                if k != start_time_idx {
                    assert(old(self).results@.dom().contains(k));
                }
            }
        }
        Some(tr)
    }
}

/// Keep the fastest quintile of the evaluated candidates: the rows whose
/// duration is at or below the twentieth percentile of all evaluated
/// durations, in start order.
fn sweep_retain(idxs: Vec<usize>, durs: Vec<i64>, Ghost(pairs): Ghost<Seq<(int, int)>>) -> (r:
    SweepResult)
    requires
        durs@.len() == idxs@.len(),
        idxs@.len() == pairs.len(),
        1 <= pairs.len() <= crate::series::MAX_ROWS,
        forall|j: int|
            0 <= j < pairs.len() ==> (#[trigger] idxs@[j]) as int == pairs[j].0 && durs@[
            j] as int == pairs[j].1,
    ensures
        r.wf(),
        ({
            let rt = retained(pairs, sweep_cut(pairs), pairs.len() as int);
            &&& r.idx@.len() == rt.len()
            &&& r.duration@.len() == rt.len()
            &&& forall|k: int|
                0 <= k < rt.len() ==> (#[trigger] r.idx@[k]) as int == rt[k].0 && r.duration@[
                k] as int == rt[k].1
        }),
{
    proof {
        assert forall|k: int|
            0 <= k < pairs.len() implies to_i64_seq(durations_of(pairs))[k] == durs@[k] by {
            assert(durations_of(pairs)[k] == pairs[k].1);
            assert(idxs@[k] as int == pairs[k].0);
            assert(durs@[k] as int == pairs[k].1);
            assert(to_i64_seq(durations_of(pairs))[k] == durations_of(pairs)[k] as i64);
        }
        assert(to_i64_seq(durations_of(pairs)).len() == durs@.len());
        assert(to_i64_seq(durations_of(pairs)) =~= durs@);
    }
    let cut = crate::order::percentile20_exec(&durs);
    let mut ridx: Vec<usize> = Vec::new();
    let mut rdur: Vec<i64> = Vec::new();
    let mut k: usize = 0;
    while k < durs.len()
        invariant
            durs@.len() == idxs@.len(),
            idxs@.len() == pairs.len(),
            forall|j: int|
                0 <= j < pairs.len() ==> (#[trigger] idxs@[j]) as int == pairs[j].0 && durs@[
                j] as int == pairs[j].1,
            cut == sweep_cut(pairs),
            k <= pairs.len(),
            ridx@.len() == rdur@.len(),
            ridx@.len() == retained(pairs, cut as int, k as int).len(),
            forall|j: int|
                0 <= j < retained(pairs, cut as int, k as int).len() ==> (#[trigger] ridx@[
                j]) as int == retained(pairs, cut as int, k as int)[j].0 && rdur@[j] as int
                    == retained(pairs, cut as int, k as int)[j].1,
        decreases durs@.len() - k,
    {
        let ghost rprev = retained(pairs, cut as int, k as int);
        let ghost rcur = retained(pairs, cut as int, k + 1);
        let ghost old_ridx = ridx@;
        let ghost old_rdur = rdur@;
        proof {
            assert(idxs@[k as int] as int == pairs[k as int].0 && durs@[k as int] as int
                == pairs[k as int].1);
        }
        if durs[k] <= cut {
            ridx.push(idxs[k]);
            rdur.push(durs[k]);
            proof {
                assert(pairs[k as int].1 <= cut as int);
                assert(rcur =~= rprev.push(pairs[k as int]));
            }
        } else {
            proof {
                assert(!(pairs[k as int].1 <= cut as int));
                assert(rcur =~= rprev);
            }
        }
        k = k + 1;
        proof {
            assert(retained(pairs, cut as int, k as int) == rcur);
            assert(ridx@.len() == rcur.len());
            assert forall|j: int|
                0 <= j < retained(pairs, cut as int, k as int).len() implies (#[trigger] ridx@[
            j]) as int == retained(pairs, cut as int, k as int)[j].0 && rdur@[j] as int
                == retained(pairs, cut as int, k as int)[j].1 by {
                assert(retained(pairs, cut as int, k as int)[j] == rcur[j]);
                if j < rprev.len() {
                    assert(rcur[j] == rprev[j]);
                    assert(old_ridx[j] as int == rprev[j].0);
                    assert(old_rdur[j] as int == rprev[j].1);
                    assert(ridx@[j] == old_ridx[j]);
                    assert(rdur@[j] == old_rdur[j]);
                } else {
                    assert(j == rprev.len());
                    assert(rcur[j] == pairs[(k - 1) as int]);
                }
            }
        }
    }
    proof {
        lemma_retained_le(pairs, cut as int, pairs.len() as int);
    }
    SweepResult { idx: ridx, duration: rdur }
}

impl Trip {
    /// Scan the reference station's coarse horizon for candidate departure
    /// times allowed by the weekday and daylight filters, evaluate each, and
    /// keep the fastest quintile: every evaluated candidate whose duration
    /// is at or below the twentieth percentile, in start order.  Memoized
    /// until the next mutation.
    #[verifier::rlimit(100)]
    pub fn sweep(&mut self) -> (r: SweepResult)
        requires
            old(self).wf(),
        ensures
            final(self).wf(),
            final(self).waypoints == old(self).waypoints,
            final(self).speed == old(self).speed,
            final(self).stations == old(self).stations,
            final(self).current_predictions_30m == old(self).current_predictions_30m,
            final(self).current_predictions_5m == old(self).current_predictions_5m,
            final(self).weekdays == old(self).weekdays,
            final(self).daytime == old(self).daytime,
            r.wf(),
            sweep_matches(r, *old(self)),
    {
        let ghost w0 = self.waypoints@;
        let ghost base0 = self.speed as int;
        let ghost tbl = tables_of(self.current_predictions_5m@);
        let ghost ps0 = station_positions(self.stations@);
        let ghost wd0 = self.weekdays;
        let ghost dt0 = self.daytime;

        if self.sweep_result.is_some() {
            match &self.sweep_result {
                Some(sr) => {
                    proof {
                        assert(sweep_matches(*sr, *old(self)));
                    }
                    let copy = sr.duplicate();
                    proof {
                        assert(sweep_matches(copy, *old(self)));
                    }
                    return copy;
                },
                None => {},
            }
        }

        let coarse_len = self.current_predictions_30m[0].rows.len();
        let start_min = self.current_predictions_30m[0].start_min;
        let ghost sm0 = start_min as int;
        let mut idxs: Vec<usize> = Vec::new();
        let mut durs: Vec<i64> = Vec::new();
        let mut i: usize = 0;
        while i < coarse_len
            invariant
                self.wf(),
                self.waypoints == old(self).waypoints,
                self.speed == old(self).speed,
                self.stations == old(self).stations,
                self.current_predictions_30m == old(self).current_predictions_30m,
                self.current_predictions_5m == old(self).current_predictions_5m,
                self.weekdays == old(self).weekdays,
                self.daytime == old(self).daytime,
                w0 == self.waypoints@,
                base0 == self.speed as int,
                tbl == tables_of(self.current_predictions_5m@),
                ps0 == station_positions(self.stations@),
                wd0 == self.weekdays,
                dt0 == self.daytime,
                sm0 == self.current_predictions_30m@[0].start_min as int,
                coarse_len == self.current_predictions_30m@[0].rows@.len(),
                coarse_len <= crate::series::MAX_ROWS,
                0 <= start_min as int == sm0 <= 0x4_0000_0000,
                i <= coarse_len,
                idxs@.len() == durs@.len(),
                ({
                    let p = sweep_pairs(w0, base0, tbl, ps0, wd0, dt0, sm0, i as int);
                    &&& idxs@.len() == p.len()
                    &&& forall|k: int|
                        0 <= k < p.len() ==> (#[trigger] idxs@[k]) as int == p[k].0 && durs@[
                        k] as int == p[k].1
                }),
            decreases coarse_len - i,
        {
            let ghost prev = sweep_pairs(w0, base0, tbl, ps0, wd0, dt0, sm0, i as int);
            let ghost cur = sweep_pairs(w0, base0, tbl, ps0, wd0, dt0, sm0, i + 1);
            let t_min: i64 = start_min + (i as i64) * 30;
            let allowed = crate::calendar::start_day_allowed(&self.weekdays, t_min);
            let mut keep = allowed;
            if keep && self.daytime {
                if crate::calendar::hour_of_minutes(t_min) < 8 {
                    keep = false;
                }
            }
            proof {
                assert(keep == cand_ok(wd0, dt0, sm0, i as int));
            }
            if keep {
                let res = self.calculate(6 * i);
                match res {
                    Some(tr) => {
                        proof {
                            lemma_tuple_time_abs(tr.steps@);
                        }
                        let dur = tr.time();
                        proof {
                            let ss = trip_spec(w0, base0, tbl, ps0, 6 * i as int).unwrap();
                            assert(ss == steps_abs(tr.steps@));
                            assert(dur as int == tuple_time_sum(ss));
                        }
                        let mut ok = true;
                        if self.daytime {
                            let cutoff = crate::calendar::day_start_minutes(t_min) + 1260;
                            if t_min + dur >= cutoff {
                                ok = false;
                            }
                        }
                        let ghost old_idxs = idxs@;
                        let ghost old_durs = durs@;
                        if ok {
                            idxs.push(i);
                            durs.push(dur);
                            proof {
                                assert(cur =~= prev.push((i as int, dur as int)));
                            }
                        } else {
                            proof {
                                assert(cur =~= prev);
                            }
                        }
                        proof {
                            assert forall|k: int|
                                0 <= k < cur.len() implies (#[trigger] idxs@[k]) as int == cur[
                            k].0 && durs@[k] as int == cur[k].1 by {
                                if k < prev.len() {
                                    assert(cur[k] == prev[k]);
                                    assert(old_idxs[k] as int == prev[k].0);
                                    assert(old_durs[k] as int == prev[k].1);
                                    assert(idxs@[k] == old_idxs[k]);
                                    assert(durs@[k] == old_durs[k]);
                                } else {
                                    assert(k == prev.len());
                                    assert(cur[k] == (i as int, dur as int));
                                    assert(idxs@[k] == i);
                                    assert(durs@[k] == dur);
                                }
                            }
                        }
                    },
                    None => {
                        proof {
                            assert(cur =~= prev);
                        }
                    },
                }
            } else {
                proof {
                    assert(cur =~= prev);
                }
            }
            i = i + 1;
            proof {
                assert(sweep_pairs(w0, base0, tbl, ps0, wd0, dt0, sm0, i as int) == cur);
                assert(idxs@.len() == cur.len());
            }
        }
        proof {
            assert(sweep_spec(*old(self)) == ({
                let p = sweep_pairs(w0, base0, tbl, ps0, wd0, dt0, sm0, coarse_len as int);
                if p.len() == 0 {
                    Seq::<(int, int)>::empty()
                } else {
                    retained(p, sweep_cut(p), p.len() as int)
                }
            }));
        }
        let ghost pairs = sweep_pairs(w0, base0, tbl, ps0, wd0, dt0, sm0, coarse_len as int);
        let result: SweepResult;
        if durs.len() == 0 {
            result = SweepResult { idx: Vec::new(), duration: Vec::new() };
        } else {
            proof {
                lemma_sweep_pairs_len(w0, base0, tbl, ps0, wd0, dt0, sm0, coarse_len as int);
            }
            result = sweep_retain(idxs, durs, Ghost(pairs));
        }
        proof {
            assert(sweep_matches(result, *old(self)));
        }
        let dup = result.duplicate();
        self.sweep_result = Some(dup);
        proof {
            assert(sweep_matches(dup, *self));
        }
        result
    }
}

/// The timestamp, in minutes since the epoch, of coarse row `i` of a table
/// starting at `start_min`.
pub open spec fn coarse_time(start_min: int, i: int) -> int {
    start_min + i * 30
}

/// Whether coarse row `i` is a candidate start: its weekday is enabled, and
/// under the daylight filter its hour is no earlier than eight.
pub open spec fn cand_ok(wd: Weekdays, daytime: bool, start_min: int, i: int) -> bool {
    &&& crate::calendar::day_enabled(wd, crate::calendar::weekday_index(coarse_time(start_min,
        i)))
    &&& (daytime ==> crate::calendar::hour_of(coarse_time(start_min, i)) >= 8)
}

/// The candidate starts among the first `n` coarse rows that the engine can
/// evaluate, as pairs of coarse index and trip duration in minutes, in index
/// order.  Under the daylight filter a trip must also finish before nine in
/// the evening of its start day.
pub open spec fn sweep_pairs(
    wps: Seq<Waypoint>,
    base: int,
    tables: Seq<Seq<CurrentRow>>,
    ps: Seq<GeoPos>,
    wd: Weekdays,
    daytime: bool,
    start_min: int,
    n: int,
) -> Seq<(int, int)>
    decreases n,
{
    if n <= 0 {
        Seq::empty()
    } else {
        let prev = sweep_pairs(wps, base, tables, ps, wd, daytime, start_min, n - 1);
        let i = n - 1;
        if cand_ok(wd, daytime, start_min, i) {
            match trip_spec(wps, base, tables, ps, 6 * i) {
                None => prev,
                Some(ss) => {
                    let dur = tuple_time_sum(ss);
                    if !daytime || coarse_time(start_min, i) + dur < crate::calendar::day_start(
                        coarse_time(start_min, i)) + 1260 {
                        prev.push((i, dur))
                    } else {
                        prev
                    }
                },
            }
        } else {
            prev
        }
    }
}

/// The durations column of a pair sequence.
pub open spec fn durations_of(pairs: Seq<(int, int)>) -> Seq<int> {
    pairs.map_values(|p: (int, int)| p.1)
}

/// A sequence of mathematical integers narrowed to machine words.
pub open spec fn to_i64_seq(s: Seq<int>) -> Seq<i64> {
    s.map_values(|d: int| d as i64)
}

/// The pairs whose duration is at or below the cut, in order.
pub open spec fn retained(pairs: Seq<(int, int)>, cut: int, n: int) -> Seq<(int, int)>
    decreases n,
{
    if n <= 0 {
        Seq::empty()
    } else {
        let prev = retained(pairs, cut, n - 1);
        if pairs[n - 1].1 <= cut {
            prev.push(pairs[n - 1])
        } else {
            prev
        }
    }
}

/// The sweep's twentieth-percentile duration cut over the evaluated
/// candidates.
pub open spec fn sweep_cut(pairs: Seq<(int, int)>) -> int {
    crate::order::percentile20(to_i64_seq(durations_of(pairs)))
}

/// What the sweep owes: every evaluated candidate at or below the
/// twentieth-percentile duration, in index order; nothing when no candidate
/// could be evaluated.
pub open spec fn sweep_spec(trip: Trip) -> Seq<(int, int)> {
    let pairs = sweep_pairs(trip.waypoints@, trip.speed as int, tables_of(
        trip.current_predictions_5m@), station_positions(trip.stations@), trip.weekdays,
        trip.daytime, trip.current_predictions_30m@[0].start_min as int,
        trip.current_predictions_30m@[0].rows@.len() as int);
    if pairs.len() == 0 {
        Seq::empty()
    } else {
        retained(pairs, sweep_cut(pairs), pairs.len() as int)
    }
}

/// The time column of abstracted steps sums to the same total as the step
/// results it came from.
pub proof fn lemma_tuple_time_abs(s: Seq<StepResult>)
    ensures
        tuple_time_sum(steps_abs(s)) == steps_time(s),
    decreases s.len(),
{
    if s.len() == 0 {
        assert(steps_abs(s) =~= Seq::<(int, int, int)>::empty());
    } else {
        lemma_tuple_time_abs(s.drop_last());
        assert(steps_abs(s).drop_last() =~= steps_abs(s.drop_last()));
        assert(steps_abs(s).last() == step_abs(s.last()));
    }
}

/// Every retained pair sits at or below the cut, and no pairs appear from
/// nowhere: the retained rows are no more numerous than the candidates.
pub proof fn lemma_retained_le(pairs: Seq<(int, int)>, cut: int, n: int)
    requires
        0 <= n <= pairs.len(),
    ensures
        retained(pairs, cut, n).len() <= n,
        forall|k: int|
            0 <= k < retained(pairs, cut, n).len() ==> (#[trigger] retained(pairs, cut, n)[
            k]).1 <= cut,
        forall|k: int|
            0 <= k < retained(pairs, cut, n).len() ==> pairs.contains(#[trigger] retained(pairs,
                cut, n)[k]),
    decreases n,
{
    if n > 0 {
        lemma_retained_le(pairs, cut, n - 1);
        if pairs[n - 1].1 <= cut {
            assert(pairs.contains(pairs[n - 1]));
        }
    }
}

/// There are never more evaluated candidates than coarse rows.
pub proof fn lemma_sweep_pairs_len(
    wps: Seq<Waypoint>,
    base: int,
    tables: Seq<Seq<CurrentRow>>,
    ps: Seq<GeoPos>,
    wd: Weekdays,
    daytime: bool,
    start_min: int,
    n: int,
)
    requires
        n >= 0,
    ensures
        sweep_pairs(wps, base, tables, ps, wd, daytime, start_min, n).len() <= n,
    decreases n,
{
    if n > 0 {
        lemma_sweep_pairs_len(wps, base, tables, ps, wd, daytime, start_min, n - 1);
    }
}

/// Every evaluated candidate pair carries an index within the horizon whose
/// weekday the filter enables.
pub proof fn lemma_sweep_pairs_enabled(
    wps: Seq<Waypoint>,
    base: int,
    tables: Seq<Seq<CurrentRow>>,
    ps: Seq<GeoPos>,
    wd: Weekdays,
    daytime: bool,
    start_min: int,
    n: int,
)
    ensures
        forall|k: int|
            0 <= k < sweep_pairs(wps, base, tables, ps, wd, daytime, start_min, n).len()
                ==> cand_ok(wd, daytime, start_min, (#[trigger] sweep_pairs(wps, base, tables,
                ps, wd, daytime, start_min, n)[k]).0) && 0 <= sweep_pairs(wps, base, tables, ps,
                wd, daytime, start_min, n)[k].0 < n,
    decreases n,
{
    if n > 0 {
        lemma_sweep_pairs_enabled(wps, base, tables, ps, wd, daytime, start_min, n - 1);
        let prev = sweep_pairs(wps, base, tables, ps, wd, daytime, start_min, n - 1);
        let cur = sweep_pairs(wps, base, tables, ps, wd, daytime, start_min, n);
        assert forall|k: int| 0 <= k < cur.len() implies cand_ok(wd, daytime, start_min, (
        #[trigger] cur[k]).0) && 0 <= cur[k].0 < n by {
            if k < prev.len() {
                assert(cur[k] == prev[k]);
            }
        }
    }
}

/// Every row the sweep retains starts on an enabled weekday, and its
/// duration lies at or below the twentieth-percentile cut of the evaluated
/// candidates, which are at least as numerous.
pub proof fn lemma_sweep_laws(trip: Trip)
    ensures
        ({
            let start_min = trip.current_predictions_30m@[0].start_min as int;
            let n30 = trip.current_predictions_30m@[0].rows@.len() as int;
            let pairs = sweep_pairs(trip.waypoints@, trip.speed as int, tables_of(
                trip.current_predictions_5m@), station_positions(trip.stations@), trip.weekdays,
                trip.daytime, start_min, n30);
            &&& sweep_spec(trip).len() <= pairs.len()
            &&& forall|k: int|
                0 <= k < sweep_spec(trip).len() ==> (#[trigger] sweep_spec(trip)[k]).1
                    <= sweep_cut(pairs)
            &&& forall|k: int|
                0 <= k < sweep_spec(trip).len() ==> crate::calendar::day_enabled(trip.weekdays,
                    crate::calendar::weekday_index(coarse_time(start_min, (
                    #[trigger] sweep_spec(trip)[k]).0)))
        }),
{
    let start_min = trip.current_predictions_30m@[0].start_min as int;
    let n30 = trip.current_predictions_30m@[0].rows@.len() as int;
    let wps = trip.waypoints@;
    let base = trip.speed as int;
    let tables = tables_of(trip.current_predictions_5m@);
    let ps = station_positions(trip.stations@);
    let pairs = sweep_pairs(wps, base, tables, ps, trip.weekdays, trip.daytime, start_min, n30);
    if pairs.len() > 0 {
        lemma_retained_le(pairs, sweep_cut(pairs), pairs.len() as int);
        lemma_sweep_pairs_enabled(wps, base, tables, ps, trip.weekdays, trip.daytime, start_min,
            n30);
        assert forall|k: int| 0 <= k < sweep_spec(trip).len() implies crate::calendar::day_enabled(
            trip.weekdays, crate::calendar::weekday_index(coarse_time(start_min, (
        #[trigger] sweep_spec(trip)[k]).0))) by {
            assert(pairs.contains(sweep_spec(trip)[k]));
            let j = choose|j: int| 0 <= j < pairs.len() && pairs[j] == sweep_spec(trip)[k];
            assert(cand_ok(trip.weekdays, trip.daytime, start_min, pairs[j].0));
        }
    }
}

/// An executable sweep table agrees with the specified one.
pub open spec fn sweep_matches(sr: SweepResult, trip: Trip) -> bool {
    let pairs = sweep_spec(trip);
    &&& sr.idx@.len() == pairs.len()
    &&& sr.duration@.len() == pairs.len()
    &&& forall|k: int|
        0 <= k < pairs.len() ==> (#[trigger] sr.idx@[k]) == pairs[k].0 && sr.duration@[k]
            == pairs[k].1
}

} // verus!
