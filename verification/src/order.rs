//! Sorting helpers: an ascending sort of durations for the percentile rule,
//! and the station ordering of the trip engine.

use vstd::prelude::*;

use vstd::relations::sorted_by;
use vstd::relations::total_ordering;

use crate::series::CurrentPrediction;

verus! {

/// The ascending order on durations.
pub open spec fn i64_leq() -> spec_fn(i64, i64) -> bool {
    |a: i64, b: i64| a <= b
}

/// The ascending order on durations is total.
pub proof fn lemma_i64_leq_total()
    ensures
        total_ordering(i64_leq()),
{
    assert(total_ordering(i64_leq())) by {
        let leq = i64_leq();
        assert forall|a: i64, b: i64, c: i64| #[trigger] leq(a, b) && #[trigger] leq(b,
            c) implies leq(a, c) by {}
    }
}

/// The station order of the trip engine: northernmost first, then
/// westernmost.
pub open spec fn station_order() -> spec_fn(CurrentPrediction<30>, CurrentPrediction<30>) -> bool {
    |a: CurrentPrediction<30>, b: CurrentPrediction<30>|
        a.station.loc.lat > b.station.loc.lat || (a.station.loc.lat == b.station.loc.lat
            && a.station.loc.lon <= b.station.loc.lon)
}

/// Sort durations ascending: the result is an ordered permutation of the
/// input.
pub fn sort_i64(input: Vec<i64>) -> (r: Vec<i64>)
    ensures
        r@.len() == input@.len(),
        r@.to_multiset() == input@.to_multiset(),
        sorted_by(r@, i64_leq()),
{
    broadcast use vstd::seq_lib::group_to_multiset_ensures;

    let ghost orig = input@;
    let mut v = input;
    let mut out: Vec<i64> = Vec::new();
    while v.len() > 0
        invariant
            out@.to_multiset().add(v@.to_multiset()) =~= orig.to_multiset(),
            out@.len() + v@.len() == orig.len(),
            sorted_by(out@, i64_leq()),
            forall|a: int, b: int|
                0 <= a < out@.len() && 0 <= b < v@.len() ==> #[trigger] out@[a] <= #[trigger] v@[
                b],
        decreases v.len(),
    {
        let mut mi: usize = 0;
        let mut k: usize = 1;
        while k < v.len()
            invariant
                v@.len() > 0,
                0 <= mi < k <= v@.len(),
                forall|j: int| 0 <= j < k ==> v@[mi as int] <= #[trigger] v@[j],
            decreases v@.len() - k,
        {
            if v[k] < v[mi] {
                mi = k;
            }
            k = k + 1;
        }
        let ghost old_v = v@;
        let ghost old_out = out@;
        let x = v.remove(mi);
        out.push(x);
        proof {
            assert(old_v[mi as int] == x);
            vstd::seq_lib::to_multiset_remove(old_v, mi as int);
            vstd::seq_lib::to_multiset_build(old_out, x);
            vstd::seq_lib::to_multiset_contains(old_v, x);
            assert(old_v.contains(x));
            assert(old_v.to_multiset().contains(x));
            assert(out@.to_multiset().add(v@.to_multiset()) =~= orig.to_multiset()) by {
                assert(v@.to_multiset() == old_v.to_multiset().remove(x));
                assert(out@.to_multiset() == old_out.to_multiset().insert(x));
                assert(out@.to_multiset().add(v@.to_multiset())
                    =~= old_out.to_multiset().insert(x).add(old_v.to_multiset().remove(x)));
                assert(old_out.to_multiset().insert(x).add(old_v.to_multiset().remove(x))
                    =~= old_out.to_multiset().add(old_v.to_multiset()));
            }
            assert(sorted_by(out@, i64_leq())) by {
                assert(forall|a: int|
                    0 <= a < old_out.len() ==> #[trigger] old_out[a] <= old_v[mi as int]);
                assert(forall|a: int, b: int|
                    0 <= a < b < out@.len() ==> (i64_leq())(out@[a], out@[b]));
            }
            assert forall|a: int, b: int|
                0 <= a < out@.len() && 0 <= b < v@.len() implies #[trigger] out@[a]
                <= #[trigger] v@[b] by {
                assert(v@[b] == if b < mi {
                    old_v[b]
                } else {
                    old_v[b + 1]
                });
            }
        }
    }
    out
}

/// Sort prediction tables into the engine's station order: the result is an
/// ordered permutation of the input.
pub fn sort_predictions(input: Vec<CurrentPrediction<30>>) -> (r: Vec<CurrentPrediction<30>>)
    ensures
        r@.len() == input@.len(),
        r@.to_multiset() == input@.to_multiset(),
        sorted_by(r@, station_order()),
{
    broadcast use vstd::seq_lib::group_to_multiset_ensures;

    let ghost orig = input@;
    let mut v = input;
    let mut out: Vec<CurrentPrediction<30>> = Vec::new();
    while v.len() > 0
        invariant
            out@.to_multiset().add(v@.to_multiset()) =~= orig.to_multiset(),
            out@.len() + v@.len() == orig.len(),
            sorted_by(out@, station_order()),
            forall|a: int, b: int|
                0 <= a < out@.len() && 0 <= b < v@.len() ==> (station_order())(
                    #[trigger] out@[a], #[trigger] v@[b]),
        decreases v.len(),
    {
        let mut mi: usize = 0;
        let mut k: usize = 1;
        while k < v.len()
            invariant
                v@.len() > 0,
                0 <= mi < k <= v@.len(),
                forall|j: int|
                    0 <= j < k ==> (station_order())(v@[mi as int], #[trigger] v@[j]),
            decreases v@.len() - k,
        {
            let earlier = v[k].station.loc.lat > v[mi].station.loc.lat || (v[k].station.loc.lat
                == v[mi].station.loc.lat && v[k].station.loc.lon < v[mi].station.loc.lon);
            if earlier {
                mi = k;
            }
            k = k + 1;
        }
        let ghost old_v = v@;
        let ghost old_out = out@;
        let x = v.remove(mi);
        out.push(x);
        proof {
            assert(old_v[mi as int] == x);
            vstd::seq_lib::to_multiset_remove(old_v, mi as int);
            vstd::seq_lib::to_multiset_build(old_out, x);
            vstd::seq_lib::to_multiset_contains(old_v, x);
            assert(old_v.contains(x));
            assert(out@.to_multiset().add(v@.to_multiset()) =~= orig.to_multiset()) by {
                assert(v@.to_multiset() == old_v.to_multiset().remove(x));
                assert(out@.to_multiset() == old_out.to_multiset().insert(x));
                assert(out@.to_multiset().add(v@.to_multiset())
                    =~= old_out.to_multiset().insert(x).add(old_v.to_multiset().remove(x)));
                assert(old_out.to_multiset().insert(x).add(old_v.to_multiset().remove(x))
                    =~= old_out.to_multiset().add(old_v.to_multiset()));
            }
            assert(sorted_by(out@, station_order())) by {
                assert(forall|a: int|
                    0 <= a < old_out.len() ==> (station_order())(#[trigger] old_out[a], old_v[
                    mi as int]));
                assert(forall|a: int, b: int|
                    0 <= a < b < out@.len() ==> (station_order())(out@[a], out@[b]));
            }
            assert forall|a: int, b: int|
                0 <= a < out@.len() && 0 <= b < v@.len() implies (station_order())(
                #[trigger] out@[a], #[trigger] v@[b]) by {
                assert(v@[b] == if b < mi {
                    old_v[b]
                } else {
                    old_v[b + 1]
                });
            }
        }
    }
    out
}

/// The nearest rank of the twentieth percentile among `n` values: the index
/// nearest to a fifth of the way through the ascending order.
pub open spec fn rank20(n: int) -> int {
    (2 * (n - 1) + 5) / 10
}

/// The twentieth percentile of a set of durations by the nearest-rank rule:
/// the value at the twentieth-percentile rank of the ascending order.
pub open spec fn percentile20(s: Seq<i64>) -> int {
    s.sort_by(i64_leq())[rank20(s.len() as int)] as int
}

/// The rank lies within the sequence.
pub proof fn lemma_rank20_in_range(n: int)
    requires
        n >= 1,
    ensures
        0 <= rank20(n) < n,
{
    vstd::arithmetic::div_mod::lemma_div_is_ordered(2 * (n - 1) + 5, 10 * n - 1, 10);
    vstd::arithmetic::div_mod::lemma_fundamental_div_mod(10 * n - 1, 10);
}

/// The twentieth percentile of a non-empty set of durations.
pub fn percentile20_exec(durations: &Vec<i64>) -> (r: i64)
    requires
        1 <= durations@.len() <= 100_000_000,
    ensures
        r == percentile20(durations@),
{
    let mut copy: Vec<i64> = Vec::new();
    let mut i: usize = 0;
    while i < durations.len()
        invariant
            i <= durations@.len(),
            copy@ =~= durations@.take(i as int),
        decreases durations@.len() - i,
    {
        proof {
            assert(durations@.take(i + 1).drop_last() =~= durations@.take(i as int));
        }
        copy.push(durations[i]);
        i = i + 1;
    }
    proof {
        assert(durations@.take(durations@.len() as int) =~= durations@);
    }
    let sorted = sort_i64(copy);
    proof {
        lemma_i64_leq_total();
        durations@.lemma_sort_by_ensures(i64_leq());
        vstd::seq_lib::lemma_sorted_unique(sorted@, durations@.sort_by(i64_leq()), i64_leq());
        lemma_rank20_in_range(durations@.len() as int);
    }
    let n = sorted.len();
    let idx: usize = (2 * (n - 1) + 5) / 10;
    sorted[idx]
}

} // verus!
