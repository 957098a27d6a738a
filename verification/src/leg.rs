//! The leg simulator: advance a virtual paddler from one waypoint to the
//! next in fixed five-minute increments, sampling the current at the nearest
//! station each increment.

use vstd::prelude::*;

use crate::angles::dir_cos;
use crate::angles::dir_sin;
use crate::angles::cos_mdeg;
use crate::angles::sin_mdeg;
use crate::geo::distance_between;
use crate::geo::displacement;
use crate::geo::distance_units;
use crate::geo::east_units;
use crate::geo::north_units;
use crate::geo::project;
use crate::geo::project_lat;
use crate::geo::project_lon;
use crate::geo::tdiv;
use crate::geo::unit_course;
use crate::geo::GeoPos;
use crate::nearest::nearest_idx;
use crate::nearest::NearestNeighborCalculator;
use crate::series::CurrentPrediction;
use crate::series::CurrentRow;
use crate::waypoint::Waypoint;
use crate::waypoint::WaypointType;

verus! {

/// The fine simulation interval, in minutes.
pub const FINE_INTERVAL_MIN: u64 = 5;

/// How long a pause lasts, in minutes.
pub const PAUSE_MIN: i64 = 30;

/// Largest base paddling speed accepted, in millimetres per hour (one
/// hundred knots).
pub const MAX_BASE_MMH: i64 = 185_200_000;

/// Largest start index accepted by the simulator, so that adding pause
/// increments can never overflow.
pub const MAX_TIME_IDX: usize = 0x4000_0000;

/// What one leg came to: distance in length units, elapsed time in minutes,
/// and fine-resolution increments consumed.
#[derive(Debug, Clone, Copy, PartialEq, Eq, Structural)]
pub struct StepResult {
    /// Distance travelled, in sixtieths of a millimetre.
    pub distance: i64,
    /// Elapsed time, in minutes.
    pub time: i64,
    /// Fine-resolution time increments consumed.
    pub time_steps: usize,
}

impl Default for StepResult {
    /// The zero leg: no distance, no time, no increments.
    fn default() -> (r: StepResult)
        ensures
            r.distance == 0,
            r.time == 0,
            r.time_steps == 0,
    {
        StepResult { distance: 0, time: 0, time_steps: 0 }
    }
}

impl StepResult {
    /// Mean speed over the leg, in millimetres per hour.  One length unit
    /// per minute is one millimetre per hour.
    pub fn speed(&self) -> (r: i64)
        requires
            self.time > 0,
        ensures
            r == tdiv(self.distance as int, self.time as int),
    {
        self.distance / self.time
    }
}

/// The speed made good along the course, in millimetres per hour: the base
/// paddling speed plus the current projected onto the course.
pub open spec fn net_speed_mmh(base: int, un: int, ue: int, row: CurrentRow) -> int {
    let cosang = tdiv(ue * dir_sin(row.direction as int) + un * dir_cos(row.direction as int),
        1000);
    base + tdiv(cosang * row.speed, 1000)
}

/// The position after one increment along the fixed course.
pub open spec fn step_pos(pos: GeoPos, un: int, ue: int, step: int) -> GeoPos {
    GeoPos { lat: project_lat(pos, un, step) as i64, lon: project_lon(pos, ue, step) as i64 }
}

/// The longest table, in rows.
pub open spec fn max_height(tables: Seq<Seq<CurrentRow>>) -> int
    decreases tables.len(),
{
    if tables.len() == 0 {
        0
    } else {
        let rest = max_height(tables.drop_last());
        if tables.last().len() > rest {
            tables.last().len() as int
        } else {
            rest
        }
    }
}

/// No table is taller than the longest.
pub proof fn lemma_max_height_ge(tables: Seq<Seq<CurrentRow>>, i: int)
    requires
        0 <= i < tables.len(),
    ensures
        tables[i].len() <= max_height(tables),
        max_height(tables) >= 0,
    decreases tables.len(),
{
    if i < tables.len() - 1 {
        lemma_max_height_ge(tables.drop_last(), i);
        assert(tables.drop_last()[i] == tables[i]);
    }
    if tables.len() > 1 {
        lemma_max_height_ge(tables.drop_last(), 0);
    }
}

/// The longest table is no taller than any common bound of the tables.
pub proof fn lemma_max_height_le(tables: Seq<Seq<CurrentRow>>, b: int)
    requires
        b >= 0,
        forall|i: int| 0 <= i < tables.len() ==> (#[trigger] tables[i]).len() <= b,
    ensures
        max_height(tables) <= b,
    decreases tables.len(),
{
    if tables.len() > 0 {
        assert(forall|i: int|
            0 <= i < tables.len() - 1 ==> #[trigger] tables.drop_last()[i] == tables[i]);
        lemma_max_height_le(tables.drop_last(), b);
    }
}

/// One leg simulated from a running state: while distance remains, sample
/// the nearest station's current at the running time index, advance along
/// the fixed course by the net speed over one increment, and fail once the
/// running index leaves the forecast.  `horizon` is the height of the
/// tallest table, after which every lookup fails.
pub open spec fn leg_rec(
    ps: Seq<GeoPos>,
    tables: Seq<Seq<CurrentRow>>,
    base: int,
    un: int,
    ue: int,
    pos: GeoPos,
    remaining: int,
    time_idx: int,
    acc_dist: int,
    acc_time: int,
    acc_steps: int,
    horizon: int,
) -> Option<(int, int, int)>
    decreases horizon - time_idx,
{
    if remaining <= 0 {
        Some((acc_dist, acc_time, acc_steps))
    } else if time_idx >= horizon {
        None
    } else {
        let si = nearest_idx(ps, pos);
        if time_idx >= tables[si].len() {
            None
        } else {
            let row = tables[si][time_idx];
            let step = net_speed_mmh(base, un, ue, row) * FINE_INTERVAL_MIN;
            leg_rec(ps, tables, base, un, ue, step_pos(pos, un, ue, step), remaining - step,
                time_idx + 1, acc_dist + step, acc_time + FINE_INTERVAL_MIN, acc_steps + 1,
                horizon)
        }
    }
}

/// The rows of each table, in station order.
pub open spec fn tables_of(preds: Seq<CurrentPrediction<5>>) -> Seq<Seq<CurrentRow>> {
    preds.map_values(|p: CurrentPrediction<5>| p.rows@)
}

/// What `calculate_step` returns: a pause is a fixed rest wherever it
/// stands; a move is the simulated leg along the straight course from start
/// to end.
pub open spec fn step_spec(
    start: Waypoint,
    end: Waypoint,
    base: int,
    tables: Seq<Seq<CurrentRow>>,
    ps: Seq<GeoPos>,
    t0: int,
) -> Option<(int, int, int)> {
    if end.type_ == WaypointType::Pause {
        Some((0, PAUSE_MIN as int, PAUSE_MIN as int / FINE_INTERVAL_MIN as int))
    } else {
        let dist = distance_units(start.point, end.point);
        if dist == 0 {
            Some((0, 0, 0))
        } else {
            let n = north_units(start.point, end.point);
            let e = east_units(start.point, end.point);
            let un = tdiv(n * 1000, dist);
            let ue = tdiv(e * 1000, dist);
            leg_rec(ps, tables, base, un, ue, start.point, dist, t0, 0, 0, 0, max_height(tables))
        }
    }
}

/// A pause yields zero distance and exactly the fixed rest, whatever the
/// tables, the stations, the base speed or the start index.
pub proof fn lemma_pause_step(
    start: Waypoint,
    end: Waypoint,
    base: int,
    tables: Seq<Seq<CurrentRow>>,
    ps: Seq<GeoPos>,
    t0: int,
)
    requires
        end.type_ == WaypointType::Pause,
    ensures
        step_spec(start, end, base, tables, ps, t0) == Some((0int, PAUSE_MIN as int, 6int)),
{
}

proof fn lemma_leg_zero_current_rec(
    ps: Seq<GeoPos>,
    tables: Seq<Seq<CurrentRow>>,
    base: int,
    un: int,
    ue: int,
    pos: GeoPos,
    remaining: int,
    t0: int,
    acc_dist: int,
    acc_time: int,
    acc_steps: int,
    horizon: int,
)
    requires
        base > 0,
        remaining > 0,
        0 <= t0,
        ps.len() >= 1,
        tables.len() == ps.len(),
        forall|i: int, j: int|
            0 <= i < tables.len() && 0 <= j < tables[i].len() ==> (#[trigger] tables[i][
            j]).speed == 0,
    ensures
        match leg_rec(ps, tables, base, un, ue, pos, remaining, t0, acc_dist, acc_time,
            acc_steps, horizon) {
            Some((d, t, k)) => {
                &&& d - acc_dist == (k - acc_steps) * 5 * base
                &&& t - acc_time == (k - acc_steps) * 5
                &&& k > acc_steps
                &&& d - acc_dist >= remaining
                &&& (d - acc_dist) - 5 * base < remaining
            },
            None => true,
        },
    decreases horizon - t0,
{
    if t0 >= horizon {
    } else {
        let si = nearest_idx(ps, pos);
        crate::nearest::lemma_nearest_idx_minimal(ps, pos);
        if t0 >= tables[si].len() {
        } else {
            let row = tables[si][t0];
            assert(row.speed == 0);
            assert(net_speed_mmh(base, un, ue, row) == base);
            let step = base * 5;
            assert(net_speed_mmh(base, un, ue, row) * FINE_INTERVAL_MIN == step);
            if remaining - step <= 0 {
            } else {
                lemma_leg_zero_current_rec(ps, tables, base, un, ue, step_pos(pos, un, ue, step),
                    remaining - step, t0 + 1, acc_dist + step, acc_time + 5, acc_steps + 1,
                    horizon);
                match leg_rec(ps, tables, base, un, ue, pos, remaining, t0, acc_dist, acc_time,
                    acc_steps, horizon) {
                    Some((d, t, k)) => {
                        assert(d - (acc_dist + step) == (k - (acc_steps + 1)) * 5 * base);
                        assert((k - acc_steps) * 5 * base == (k - (acc_steps + 1)) * 5 * base + 5
                            * base) by (nonlinear_arith)
                        {
                        }
                        assert((k - acc_steps) * 5 == (k - (acc_steps + 1)) * 5 + 5)
                            by (nonlinear_arith)
                        {
                        }
                    },
                    None => {},
                }
            }
        }
    }
}

/// With zero current everywhere, every increment advances by the base speed
/// alone, so a completed leg's duration is the least number of whole
/// increments that covers the remaining distance: the distance made good
/// equals duration times base speed, it is at least the straight-line
/// distance, and it falls short of it by less than one increment's travel.
pub proof fn lemma_leg_zero_current(
    ps: Seq<GeoPos>,
    tables: Seq<Seq<CurrentRow>>,
    base: int,
    un: int,
    ue: int,
    pos: GeoPos,
    remaining: int,
    t0: int,
    horizon: int,
)
    requires
        base > 0,
        remaining > 0,
        0 <= t0,
        ps.len() >= 1,
        tables.len() == ps.len(),
        forall|i: int, j: int|
            0 <= i < tables.len() && 0 <= j < tables[i].len() ==> (#[trigger] tables[i][
            j]).speed == 0,
    ensures
        match leg_rec(ps, tables, base, un, ue, pos, remaining, t0, 0, 0, 0, horizon) {
            Some((d, t, k)) => {
                &&& d == t * base
                &&& t == k * 5
                &&& t * base >= remaining
                &&& (t - 5) * base < remaining
            },
            None => true,
        },
{
    lemma_leg_zero_current_rec(ps, tables, base, un, ue, pos, remaining, t0, 0, 0, 0, horizon);
    match leg_rec(ps, tables, base, un, ue, pos, remaining, t0, 0, 0, 0, horizon) {
        Some((d, t, k)) => {
            assert(d == k * 5 * base);
            assert(t == k * 5);
            assert(t * base == k * 5 * base) by (nonlinear_arith)
                requires
                    t == k * 5,
            {
            }
            assert((t - 5) * base == k * 5 * base - 5 * base) by (nonlinear_arith)
                requires
                    t == k * 5,
            {
            }
        },
        None => {},
    }
}

/// With zero current everywhere, a completed move covers its distance at
/// the base speed alone: the distance made good is exactly the duration
/// times the base speed, which is at least the straight-line distance and
/// exceeds it by less than one increment's travel.
pub proof fn lemma_step_zero_current(
    start: Waypoint,
    end: Waypoint,
    base: int,
    tables: Seq<Seq<CurrentRow>>,
    ps: Seq<GeoPos>,
    t0: int,
    d: int,
    t: int,
    k: int,
)
    requires
        end.type_ == WaypointType::Move,
        base > 0,
        0 <= t0,
        ps.len() >= 1,
        tables.len() == ps.len(),
        forall|i: int, j: int|
            0 <= i < tables.len() && 0 <= j < tables[i].len() ==> (#[trigger] tables[i][
            j]).speed == 0,
        step_spec(start, end, base, tables, ps, t0) == Some((d, t, k)),
    ensures
        d == t * base,
        t * base >= distance_units(start.point, end.point),
        (t - 5) * base < distance_units(start.point, end.point),
{
    let dist = distance_units(start.point, end.point);
    let n = north_units(start.point, end.point);
    let e = east_units(start.point, end.point);
    assert(n * n + e * e >= 0) by (nonlinear_arith)
    {
    }
    crate::geo::lemma_isqrt_exists(n * n + e * e);
    if dist == 0 {
        assert(step_spec(start, end, base, tables, ps, t0) == Some((0int, 0int, 0int)));
        assert(d == 0 && t == 0);
        assert((0 - 5) * base < 0) by (nonlinear_arith)
            requires
                base > 0,
        {
        }
    } else {
        let un = tdiv(n * 1000, dist);
        let ue = tdiv(e * 1000, dist);
        assert(step_spec(start, end, base, tables, ps, t0) == leg_rec(ps, tables, base, un, ue,
            start.point, dist, t0, 0, 0, 0, max_height(tables)));
        lemma_leg_zero_current(ps, tables, base, un, ue, start.point, dist, t0, max_height(
            tables));
    }
}

/// Simulate one leg from `start` to `end` at the given base speed, reading
/// each station's fine-resolution predictions from `current_predictions`
/// (indexed like the calculator's stations) from time index
/// `start_time_idx` on.  A `Pause` destination yields the fixed rest
/// regardless of current data; a leg that outruns the forecast yields
/// nothing.
#[verifier::rlimit(100)]
pub fn calculate_step(
    start: &Waypoint,
    end: &Waypoint,
    base_speed: i64,
    current_predictions: &Vec<CurrentPrediction<5>>,
    start_time_idx: usize,
    nn_calc: &mut NearestNeighborCalculator,
) -> (r: Option<StepResult>)
    requires
        old(nn_calc).wf(),
        start.wf(),
        end.wf(),
        0 <= base_speed <= MAX_BASE_MMH,
        current_predictions@.len() == old(nn_calc).positions_seq().len(),
        forall|i: int|
            0 <= i < current_predictions@.len() ==> (#[trigger] current_predictions@[i]).wf(),
        start_time_idx <= MAX_TIME_IDX,
    ensures
        final(nn_calc).wf(),
        final(nn_calc).positions_seq() == old(nn_calc).positions_seq(),
        ({
            let outcome = step_spec(*start, *end, base_speed as int, tables_of(
                current_predictions@), old(nn_calc).positions_seq(), start_time_idx as int);
            match r {
                Some(s) => {
                    &&& outcome == Some((s.distance as int, s.time as int, s.time_steps as int))
                    &&& s.time_steps <= crate::series::MAX_ROWS + PAUSE_MIN
                    &&& s.time == s.time_steps * 5
                    &&& crate::geo::iabs(s.distance as int) <= s.time_steps * 2_800_000_000
                    &&& start_time_idx + s.time_steps <= (if start_time_idx + 6 >= max_height(
                        tables_of(current_predictions@)) {
                        start_time_idx + 6
                    } else {
                        max_height(tables_of(current_predictions@))
                    })
                },
                None => outcome.is_none(),
            }
        }),
{
    let ghost tables = tables_of(current_predictions@);
    let ghost ps = old(nn_calc).positions_seq();
    if matches!(end.type_, WaypointType::Pause) {
        return Some(
            StepResult {
                distance: 0,
                time: PAUSE_MIN,
                time_steps: (PAUSE_MIN as u64 / FINE_INTERVAL_MIN) as usize,
            },
        );
    }
    let dist = distance_between(start.point, end.point);
    if dist == 0 {
        return Some(StepResult { distance: 0, time: 0, time_steps: 0 });
    }
    let (dn, de) = displacement(start.point, end.point);
    let (un, ue) = unit_course(dn, de, dist);

    let mut maxh: usize = 0;
    let mut k: usize = 0;
    while k < current_predictions.len()
        invariant
            k <= current_predictions@.len(),
            tables == tables_of(current_predictions@),
            tables.len() == current_predictions@.len(),
            forall|i: int| 0 <= i < tables.len() ==> tables[i] == current_predictions@[i].rows@,
            maxh == max_height(tables.take(k as int)),
            maxh <= crate::series::MAX_ROWS,
            forall|i: int|
                0 <= i < current_predictions@.len() ==> (#[trigger] current_predictions@[
                i]).wf(),
        decreases current_predictions@.len() - k,
    {
        proof {
            assert(tables.take(k + 1).drop_last() =~= tables.take(k as int));
            assert(tables.take(k + 1).last() == tables[k as int]);
            assert(current_predictions@[k as int].wf());
        }
        let h = current_predictions[k].rows.len();
        if h > maxh {
            maxh = h;
        }
        k = k + 1;
    }
    proof {
        assert(tables.take(tables.len() as int) =~= tables);
    }

    let mut pos: GeoPos = start.point;
    let mut remaining: i64 = dist;
    let mut time_idx: usize = start_time_idx;
    let mut total_dist: i64 = 0;
    let mut total_time: i64 = 0;
    let mut fuel: usize = if maxh > time_idx {
        maxh - time_idx
    } else {
        0
    };
    let ghost target = leg_rec(ps, tables, base_speed as int, un as int, ue as int, pos,
        remaining as int, time_idx as int, 0, 0, 0, maxh as int);
    proof {
        assert(target == step_spec(*start, *end, base_speed as int, tables, ps,
            start_time_idx as int));
    }
    while remaining > 0
        invariant
            nn_calc.wf(),
            ps == old(nn_calc).positions_seq(),
            nn_calc.positions_seq() == ps,
            target == step_spec(*start, *end, base_speed as int, tables, ps,
                start_time_idx as int),
            start_time_idx <= MAX_TIME_IDX,
            tables == tables_of(current_predictions@),
            tables.len() == current_predictions@.len(),
            tables.len() == ps.len(),
            forall|i: int| 0 <= i < tables.len() ==> tables[i] == current_predictions@[i].rows@,
            forall|i: int|
                0 <= i < current_predictions@.len() ==> (#[trigger] current_predictions@[
                i]).wf(),
            maxh == max_height(tables),
            maxh <= crate::series::MAX_ROWS,
            0 <= base_speed <= MAX_BASE_MMH,
            -1000 <= un <= 1000,
            -1000 <= ue <= 1000,
            pos.in_domain(),
            fuel as int == if (time_idx as int) < maxh as int {
                maxh as int - time_idx as int
            } else {
                0
            },
            time_idx <= MAX_TIME_IDX + crate::series::MAX_ROWS,
            time_idx as int <= (if start_time_idx as int >= maxh as int {
                start_time_idx as int
            } else {
                maxh as int
            }),
            total_time == (time_idx - start_time_idx) * FINE_INTERVAL_MIN,
            time_idx >= start_time_idx,
            time_idx - start_time_idx <= crate::series::MAX_ROWS,
            crate::geo::iabs(total_dist as int) <= (time_idx - start_time_idx) * 2_800_000_000,
            crate::geo::iabs(remaining as int) <= 0x4_0000_0000_0000 + (time_idx
                - start_time_idx) * 2_800_000_000,
            target == leg_rec(ps, tables, base_speed as int, un as int, ue as int, pos,
                remaining as int, time_idx as int, total_dist as int, total_time as int, (
            time_idx - start_time_idx) as int, maxh as int),
        decreases fuel,
    {
        let si = nn_calc.nearest_neighbor(pos);
        proof {
            crate::nearest::lemma_nearest_idx_minimal(ps, pos);
        }
        if time_idx >= current_predictions[si].rows.len() {
            proof {
                if (time_idx as int) < maxh as int {
                    lemma_max_height_ge(tables, si as int);
                }
                assert(leg_rec(ps, tables, base_speed as int, un as int, ue as int, pos,
                    remaining as int, time_idx as int, total_dist as int, total_time as int, (
                time_idx - start_time_idx) as int, maxh as int).is_none());
            }
            return None;
        }
        proof {
            lemma_max_height_ge(tables, si as int);
            assert(current_predictions@[si as int].wf());
            assert(current_predictions@[si as int].rows@[time_idx as int].wf());
            crate::angles::lemma_dir_sin_bounds(current_predictions@[si as int].rows@[
            time_idx as int].direction as int);
            crate::angles::lemma_dir_cos_bounds(current_predictions@[si as int].rows@[
            time_idx as int].direction as int);
        }
        let row = current_predictions[si].rows[time_idx];
        let s = sin_mdeg(row.direction);
        let c = cos_mdeg(row.direction);
        proof {
            assert(-1_000_000 <= ue as int * s as int <= 1_000_000 && -1_000_000 <= un as int
                * c as int <= 1_000_000) by (nonlinear_arith)
                requires
                    -1000 <= un <= 1000,
                    -1000 <= ue <= 1000,
                    -1000 <= s <= 1000,
                    -1000 <= c <= 1000,
            {
            }
        }
        let cosang: i64 = (ue * s + un * c) / 1000;
        proof {
            crate::geo::lemma_tdiv_bounds(ue as int * s as int + un as int * c as int, 1000);
            assert(-2000 <= cosang <= 2000) by (nonlinear_arith)
                requires
                    -1000 <= un <= 1000,
                    -1000 <= ue <= 1000,
                    -1000 <= s <= 1000,
                    -1000 <= c <= 1000,
                    cosang == tdiv(ue as int * s as int + un as int * c as int, 1000),
                    crate::geo::iabs(tdiv(ue as int * s as int + un as int * c as int, 1000))
                        * 1000 <= crate::geo::iabs(ue as int * s as int + un as int * c as int),
            {
            }
            crate::geo::lemma_tdiv_bounds(cosang as int * row.speed as int, 1000);
            assert(crate::geo::iabs(cosang as int * row.speed as int) <= 2000
                * crate::series::MAX_CURRENT_MMH) by (nonlinear_arith)
                requires
                    -2000 <= cosang <= 2000,
                    crate::geo::iabs(row.speed as int) <= crate::series::MAX_CURRENT_MMH,
            {
            }
        }
        let net: i64 = base_speed + (cosang * row.speed) / 1000;
        proof {
            assert(crate::geo::iabs(net as int) <= 560_000_000);
        }
        let step: i64 = net * (FINE_INTERVAL_MIN as i64);
        proof {
            assert(crate::geo::iabs(step as int) <= 2_800_000_000);
        }
        let newpos = project(pos, un, ue, step);
        proof {
            assert(leg_rec(ps, tables, base_speed as int, un as int, ue as int, pos,
                remaining as int, time_idx as int, total_dist as int, total_time as int, (
            time_idx - start_time_idx) as int, maxh as int) == leg_rec(ps, tables,
                base_speed as int, un as int, ue as int, step_pos(pos, un as int, ue as int,
                step as int), remaining - step, time_idx + 1, total_dist + step, total_time
                + FINE_INTERVAL_MIN, (time_idx + 1 - start_time_idx) as int, maxh as int));
            assert(newpos == step_pos(pos, un as int, ue as int, step as int));
        }
        pos = newpos;
        remaining = remaining - step;
        total_dist = total_dist + step;
        total_time = total_time + (FINE_INTERVAL_MIN as i64);
        time_idx = time_idx + 1;
        fuel = fuel - 1;
    }
    Some(StepResult { distance: total_dist, time: total_time, time_steps: time_idx - start_time_idx })
}

} // verus!
