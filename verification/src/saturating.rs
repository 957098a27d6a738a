//! A counter clamped to a closed range, stepped by the time-index controls.

use vstd::prelude::*;

verus! {

/// Clamp a value into the closed range from `lo` to `hi`.
pub open spec fn clamp_spec(v: int, lo: int, hi: int) -> int {
    if v < lo {
        lo
    } else if v > hi {
        hi
    } else {
        v
    }
}

/// A value held within a closed range: every operation saturates at the
/// bounds instead of leaving them.
#[derive(Debug, Clone, Copy, PartialEq, Eq, Structural)]
pub struct Saturating {
    /// The held value.
    pub val: usize,
    /// The smallest value the counter may hold.
    pub lower_bound: usize,
    /// The largest value the counter may hold.
    pub upper_bound: usize,
}

impl Saturating {
    /// The value lies within the bounds.
    pub open spec fn wf(self) -> bool {
        self.lower_bound <= self.val <= self.upper_bound
    }

    /// A new counter at `val`, clamped into the range.
    pub fn new(val: usize, lower_bound: usize, upper_bound: usize) -> (r: Saturating)
        requires
            lower_bound <= upper_bound,
        ensures
            r.wf(),
            r.lower_bound == lower_bound,
            r.upper_bound == upper_bound,
            r.val as int == clamp_spec(val as int, lower_bound as int, upper_bound as int),
    {
        let v: usize = if val < lower_bound {
            lower_bound
        } else if val > upper_bound {
            upper_bound
        } else {
            val
        };
        Saturating { val: v, lower_bound, upper_bound }
    }

    /// Step up by one; at the upper bound nothing moves and the call says
    /// so.
    pub fn inc(&mut self) -> (moved: bool)
        requires
            old(self).wf(),
        ensures
            final(self).wf(),
            final(self).lower_bound == old(self).lower_bound,
            final(self).upper_bound == old(self).upper_bound,
            moved == (old(self).val < old(self).upper_bound),
            final(self).val == if moved {
                old(self).val + 1
            } else {
                old(self).val as int
            },
    {
        if self.val == self.upper_bound {
            false
        } else {
            self.val = self.val + 1;
            true
        }
    }

    /// Step down by one; at the lower bound nothing moves and the call says
    /// so.
    pub fn dec(&mut self) -> (moved: bool)
        requires
            old(self).wf(),
        ensures
            final(self).wf(),
            final(self).lower_bound == old(self).lower_bound,
            final(self).upper_bound == old(self).upper_bound,
            moved == (old(self).val > old(self).lower_bound),
            final(self).val == if moved {
                old(self).val - 1
            } else {
                old(self).val as int
            },
    {
        if self.val == self.lower_bound {
            false
        } else {
            self.val = self.val - 1;
            true
        }
    }

    /// Move to `val`, clamped into the range; the call says whether the
    /// held value changed.
    pub fn set(&mut self, val: usize) -> (changed: bool)
        requires
            old(self).wf(),
        ensures
            final(self).wf(),
            final(self).lower_bound == old(self).lower_bound,
            final(self).upper_bound == old(self).upper_bound,
            final(self).val as int == clamp_spec(val as int, old(self).lower_bound as int, old(
                self).upper_bound as int),
            changed == (final(self).val != old(self).val),
    {
        let old_val = self.val;
        let v: usize = if val < self.lower_bound {
            self.lower_bound
        } else if val > self.upper_bound {
            self.upper_bound
        } else {
            val
        };
        self.val = v;
        self.val != old_val
    }

    /// The held value.
    pub fn val(&self) -> (r: usize)
        ensures
            r == self.val,
    {
        self.val
    }

    /// Hand the held value to `f` and hold its replacement, clamped into
    /// the range; the rest of what `f` computed comes back to the caller.
    pub fn with_val_mut<T, F: FnOnce(usize) -> (usize, T)>(&mut self, f: F) -> (r: T)
        requires
            old(self).wf(),
            f.requires((old(self).val,)),
        ensures
            final(self).wf(),
            final(self).lower_bound == old(self).lower_bound,
            final(self).upper_bound == old(self).upper_bound,
            exists|out: (usize, T)|
                {
                    &&& #[trigger] f.ensures((old(self).val,), out)
                    &&& final(self).val as int == clamp_spec(out.0 as int, old(
                        self).lower_bound as int, old(self).upper_bound as int)
                    &&& r == out.1
                },
    {
        let (raw, extra) = f(self.val);
        let v: usize = if raw < self.lower_bound {
            self.lower_bound
        } else if raw > self.upper_bound {
            self.upper_bound
        } else {
            raw
        };
        self.val = v;
        proof {
            let out = (raw, extra);
            assert(f.ensures((old(self).val,), out));
        }
        extra
    }

    /// The lower bound.
    pub fn lower_bound(&self) -> (r: usize)
        ensures
            r == self.lower_bound,
    {
        self.lower_bound
    }

    /// The upper bound.
    pub fn upper_bound(&self) -> (r: usize)
        ensures
            r == self.upper_bound,
    {
        self.upper_bound
    }
}

} // verus!
