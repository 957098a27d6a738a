//! Per-station time series of current predictions at a fixed sampling
//! interval, and resampling between intervals.

use vstd::prelude::*;

use crate::geo::iabs;
use crate::geo::tdiv;
use crate::station::Station;

verus! {

/// An input table was empty, so no simulation can proceed.
#[derive(Debug, Clone, Copy, PartialEq, Eq, Structural)]
pub struct InsufficientDataError;

/// Largest current speed the tables represent, in millimetres per hour
/// (one hundred knots).
pub const MAX_CURRENT_MMH: i64 = 185_200_000;

/// Largest direction the tables represent, in milli-degrees.  Directions may
/// exceed a full turn: a subordinate station's ebb direction may be derived
/// as its flood direction plus half a turn.
pub const MAX_DIR_MDEG: i64 = 540_000;

/// Largest number of rows a table may hold.
pub const MAX_ROWS: usize = 10_000_000;

/// One sample of a current prediction.
#[derive(Debug, Clone, Copy, PartialEq, Eq, Structural)]
pub struct CurrentRow {
    /// Current speed in millimetres per hour, non-negative once the ebb/flood
    /// sign convention has been resolved.
    pub speed: i64,
    /// Direction the current sets towards, in milli-degrees clockwise from
    /// north.
    pub direction: i64,
}

impl CurrentRow {
    /// The sample lies within the representable ranges.
    pub open spec fn wf(self) -> bool {
        &&& -MAX_CURRENT_MMH <= self.speed <= MAX_CURRENT_MMH
        &&& 0 <= self.direction <= MAX_DIR_MDEG
    }
}

/// A time-indexed table of current predictions for one station, sampled
/// every `R` minutes from `start_min`.
#[derive(Debug)]
pub struct CurrentPrediction<const R: u64> {
    /// The station the predictions belong to.
    pub station: Station,
    /// Timestamp of the first row, in minutes since the epoch.
    pub start_min: i64,
    /// The samples, one every `R` minutes.
    pub rows: Vec<CurrentRow>,
}

impl<const R: u64> CurrentPrediction<R> {
    /// The table is well-formed: a sensible interval, a bounded extent and
    /// every sample in range.
    pub open spec fn wf(self) -> bool {
        &&& 1 <= R <= 1440
        &&& 0 <= self.start_min <= 0x4_0000_0000
        &&& self.rows@.len() <= MAX_ROWS
        &&& forall|i: int| 0 <= i < self.rows@.len() ==> (#[trigger] self.rows@[i]).wf()
        &&& self.station.wf()
    }

    /// The timestamp of row `i`, in minutes since the epoch.
    pub open spec fn time_of(self, i: int) -> int {
        self.start_min + i * R
    }

    /// The sampling interval in minutes.
    pub fn resolution_minutes() -> (r: u64)
        ensures
            r == R,
    {
        R
    }

    /// Re-base the table onto a uniform grid at interval `R2`, covering the
    /// same extent, with the speed and direction columns linearly
    /// interpolated across the new grid points.  An empty table cannot be
    /// resampled.
    pub fn resampled<const R2: u64>(&self) -> (r: Result<
        CurrentPrediction<R2>,
        InsufficientDataError,
    >)
        requires
            self.wf(),
            1 <= R2 <= 1440,
            self.rows@.len() == 0 || resampled_len(self.rows@.len() as int, R as int, R2 as int)
                <= MAX_ROWS,
        ensures
            match r {
                Ok(t) => {
                    &&& self.rows@.len() > 0
                    &&& t.wf()
                    &&& t.station.id@ == self.station.id@
                    &&& t.station.name@ == self.station.name@
                    &&& t.station.loc == self.station.loc
                    &&& t.station.type_ == self.station.type_
                    &&& t.start_min == self.start_min
                    &&& t.rows@.len() == resampled_len(self.rows@.len() as int, R as int,
                        R2 as int)
                    &&& forall|j: int|
                        0 <= j < t.rows@.len() ==> #[trigger] t.rows@[j] == resample_row(
                            self.rows@, R as int, R2 as int, j)
                },
                Err(_) => self.rows@.len() == 0,
            },
    {
        if self.rows.len() == 0 {
            return Err(InsufficientDataError);
        }
        let n: u64 = self.rows.len() as u64;
        proof {
            assert((n - 1) as int * R as int <= 14_400_000_000) by (nonlinear_arith)
                requires
                    1 <= n <= MAX_ROWS,
                    1 <= R <= 1440,
            {
            }
        }
        let total: u64 = (n - 1) * R;
        let m: u64 = total / R2 + 1;
        let mut out: Vec<CurrentRow> = Vec::new();
        let mut j: u64 = 0;
        while j < m
            invariant
                self.wf(),
                1 <= R2 <= 1440,
                1 <= n <= MAX_ROWS,
                n == self.rows@.len(),
                total == (n - 1) * R,
                m == resampled_len(n as int, R as int, R2 as int),
                m <= MAX_ROWS,
                j <= m,
                out@.len() == j,
                forall|k: int|
                    0 <= k < j ==> #[trigger] out@[k] == resample_row(self.rows@, R as int,
                        R2 as int, k),
                forall|k: int| 0 <= k < j ==> (#[trigger] out@[k]).wf(),
            decreases m - j,
        {
            proof {
                assert(j as int * R2 as int <= 14_400_000_000) by (nonlinear_arith)
                    requires
                        j < m <= MAX_ROWS,
                        1 <= R2 <= 1440,
                {
                }
            }
            let off: u64 = j * R2;
            let i: u64 = off / R;
            let frac: u64 = off % R;
            proof {
                vstd::arithmetic::div_mod::lemma_remainder_lower(total as int, R2 as int);
                assert(off as int <= total as int) by (nonlinear_arith)
                    requires
                        off == j * R2,
                        j <= m - 1,
                        m - 1 == (total as int) / (R2 as int),
                        R2 >= 1,
                        ((total as int) / (R2 as int)) * R2 <= total as int,
                {
                }
                vstd::arithmetic::div_mod::lemma_div_is_ordered(off as int, total as int,
                    R as int);
                vstd::arithmetic::div_mod::lemma_div_by_multiple((n - 1) as int, R as int);
                assert(i <= n - 1);
                vstd::arithmetic::div_mod::lemma_fundamental_div_mod(off as int, R as int);
            }
            if frac == 0 {
                let row = self.rows[i as usize];
                out.push(row);
            } else {
                proof {
                    assert(i < n - 1) by (nonlinear_arith)
                        requires
                            off as int == (R as int) * (i as int) + frac as int,
                            0 < frac,
                            off <= total,
                            total == (n - 1) * R,
                            i <= n - 1,
                            R >= 1,
                    {
                    }
                    assert(self.rows@[i as int].wf());
                    assert(self.rows@[i as int + 1].wf());
                    lemma_lerp_between(self.rows@[i as int].speed as int,
                        self.rows@[i as int + 1].speed as int, frac as int, R as int);
                    lemma_lerp_between(self.rows@[i as int].direction as int,
                        self.rows@[i as int + 1].direction as int, frac as int, R as int);
                    assert(iabs((self.rows@[i as int + 1].speed - self.rows@[i as int].speed)
                        * frac) <= 2 * MAX_CURRENT_MMH * 1440) by (nonlinear_arith)
                        requires
                            iabs((self.rows@[i as int + 1].speed - self.rows@[i as int].speed)
                                as int) <= 2 * MAX_CURRENT_MMH,
                            0 < frac <= 1440,
                    {
                    }
                    assert(iabs((self.rows@[i as int + 1].direction - self.rows@[
                    i as int].direction) * frac) <= 2 * MAX_DIR_MDEG * 1440) by (nonlinear_arith)
                        requires
                            iabs((self.rows@[i as int + 1].direction - self.rows@[
                            i as int].direction) as int) <= 2 * MAX_DIR_MDEG,
                            0 < frac <= 1440,
                    {
                    }
                    crate::geo::lemma_tdiv_bounds((self.rows@[i as int + 1].speed - self.rows@[
                    i as int].speed) * frac, R as int);
                    crate::geo::lemma_tdiv_bounds((self.rows@[i as int + 1].direction
                        - self.rows@[i as int].direction) * frac, R as int);
                }
                let a = self.rows[i as usize];
                let b = self.rows[i as usize + 1];
                let sp: i64 = a.speed + ((b.speed - a.speed) * (frac as i64)) / (R as i64);
                let di: i64 = a.direction + ((b.direction - a.direction) * (frac as i64)) / (
                R as i64);
                out.push(CurrentRow { speed: sp, direction: di });
            }
            j = j + 1;
        }
        Ok(CurrentPrediction { station: self.station.duplicate(), start_min: self.start_min, rows: out })
    }
}

/// Resolve the ebb/flood sign convention of a subordinate station's sample:
/// the direction is the flood direction while the signed speed is
/// non-negative and the ebb direction otherwise, and the speed becomes its
/// magnitude.
pub fn pick_direction(speed: i64, flood_dir: i64, ebb_dir: i64) -> (r: CurrentRow)
    requires
        -MAX_CURRENT_MMH <= speed <= MAX_CURRENT_MMH,
    ensures
        r.speed == iabs(speed as int),
        r.direction == if speed >= 0 {
            flood_dir
        } else {
            ebb_dir
        },
{
    if speed >= 0 {
        CurrentRow { speed, direction: flood_dir }
    } else {
        CurrentRow { speed: -speed, direction: ebb_dir }
    }
}

/// The number of rows of a table of `n` rows resampled from interval `r1` to
/// interval `r2`: the finer grid covers the same extent.
pub open spec fn resampled_len(n: int, r1: int, r2: int) -> int {
    ((n - 1) * r1) / r2 + 1
}

/// Linear interpolation between `a` and `b` at fraction `num / den`,
/// truncated as the executable code computes it.
pub open spec fn lerp(a: int, b: int, num: int, den: int) -> int {
    a + tdiv((b - a) * num, den)
}

/// Row `j` of a table resampled from interval `r1` to interval `r2`: the
/// source row when the grids align, and the linear interpolation of the two
/// bracketing source rows otherwise.
pub open spec fn resample_row(rows: Seq<CurrentRow>, r1: int, r2: int, j: int) -> CurrentRow {
    let off = j * r2;
    let i = off / r1;
    let frac = off % r1;
    if frac == 0 {
        rows[i]
    } else {
        CurrentRow {
            speed: lerp(rows[i].speed as int, rows[i + 1].speed as int, frac, r1) as i64,
            direction: lerp(rows[i].direction as int, rows[i + 1].direction as int, frac,
                r1) as i64,
        }
    }
}

/// `dst` is `src` resampled onto the finer grid: the same station and start,
/// the extended length, and every row given by grid alignment or linear
/// interpolation.
pub open spec fn is_resample_of<const R1: u64, const R2: u64>(
    src: CurrentPrediction<R1>,
    dst: CurrentPrediction<R2>,
) -> bool {
    &&& dst.start_min == src.start_min
    &&& crate::station::station_eq(dst.station, src.station)
    &&& src.rows@.len() > 0
    &&& dst.rows@.len() == resampled_len(src.rows@.len() as int, R1 as int, R2 as int)
    &&& forall|j: int|
        0 <= j < dst.rows@.len() ==> #[trigger] dst.rows@[j] == resample_row(src.rows@,
            R1 as int, R2 as int, j)
}

/// Resampling a table to its own interval changes nothing: the grid has the
/// same length and every row is taken over unchanged.
pub proof fn lemma_resample_identity(rows: Seq<CurrentRow>, r1: int)
    requires
        r1 >= 1,
        rows.len() >= 1,
    ensures
        resampled_len(rows.len() as int, r1, r1) == rows.len(),
        forall|j: int| 0 <= j < rows.len() ==> resample_row(rows, r1, r1, j) == rows[j],
{
    vstd::arithmetic::div_mod::lemma_div_by_multiple(rows.len() - 1, r1);
    assert forall|j: int| 0 <= j < rows.len() implies resample_row(rows, r1, r1, j) == rows[
    j] by {
        vstd::arithmetic::div_mod::lemma_mod_multiples_basic(j, r1);
        vstd::arithmetic::div_mod::lemma_div_by_multiple(j, r1);
    }
}

/// The interpolated value lies between its two endpoints.
pub proof fn lemma_lerp_between(a: int, b: int, num: int, den: int)
    requires
        0 < num < den,
    ensures
        a <= b ==> a <= lerp(a, b, num, den) <= b,
        b < a ==> b <= lerp(a, b, num, den) <= a,
{
    if a <= b {
        let d = b - a;
        assert(0 <= d * num <= d * den) by (nonlinear_arith)
            requires
                0 <= d,
                0 < num < den,
        {
        }
        vstd::arithmetic::div_mod::lemma_div_is_ordered(0, d * num, den);
        vstd::arithmetic::div_mod::lemma_div_is_ordered(d * num, d * den, den);
        vstd::arithmetic::div_mod::lemma_div_by_multiple(d, den);
        assert(tdiv(d * num, den) == (d * num) / den);
    } else {
        let d = a - b;
        assert(0 <= d * num <= d * den) by (nonlinear_arith)
            requires
                0 <= d,
                0 < num < den,
        {
        }
        vstd::arithmetic::div_mod::lemma_div_is_ordered(0, d * num, den);
        vstd::arithmetic::div_mod::lemma_div_is_ordered(d * num, d * den, den);
        vstd::arithmetic::div_mod::lemma_div_by_multiple(d, den);
        assert((b - a) * num == -(d * num)) by (nonlinear_arith)
            requires
                d == a - b,
        {
        }
        assert(tdiv((b - a) * num, den) == -((d * num) / den));
    }
}

} // verus!
