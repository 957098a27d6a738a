//! Nearest-station lookup: a linear scan over the station set ranked by the
//! equirectangular distance model, memoized in a bounded least-recently-used
//! cache keyed by the exact query coordinates.
//!
//! The cache is a pure memoization: its entries always equal the answer of a
//! fresh scan, so a warm and a cold cache return the same station.

use vstd::prelude::*;

use crate::geo::cos_lat;
use crate::geo::cos_lat_mil;
use crate::geo::GeoPos;
use crate::station::Station;

verus! {

/// How many query points the cache may remember.
pub const CACHE_CAPACITY: usize = 1_048_576;

#[verifier::external_type_specification]
#[verifier::external_body]
#[verifier::reject_recursive_types(K)]
#[verifier::reject_recursive_types(V)]
#[verifier::reject_recursive_types(S)]
pub struct ExLruCache<K, V, S>(lru::LruCache<K, V, S>);

/// A bounded least-recently-used cache from query coordinates (latitude and
/// longitude in micro-degrees) to a station index.
pub type CoordCache = lru::LruCache<(i64, i64), usize, std::collections::hash_map::RandomState>;

/// What the cache holds: query coordinates mapped to a station index.
pub uninterp spec fn lru_entries(c: CoordCache) -> Map<(int, int), int>;

/// Relies on lru::LruCache::with_hasher: a freshly built cache holds no
/// entries.
#[verifier::external_body]
fn lru_new(cap: usize) -> (cache: CoordCache)
    requires
        cap >= 1,
    ensures
        lru_entries(cache).is_empty(),
{
    lru::LruCache::with_hasher(
        std::num::NonZeroUsize::new(cap).unwrap(),
        std::collections::hash_map::RandomState::new(),
    )
}

/// Relies on lru::LruCache::get: a hit hands back the entry's value, a miss
/// means the key is absent, and only recency order changes either way.
#[verifier::external_body]
fn lru_get(c: &mut CoordCache, key: (i64, i64)) -> (r: Option<usize>)
    ensures
        lru_entries(*final(c)) == lru_entries(*old(c)),
        match r {
            Some(v) => lru_entries(*old(c)).contains_pair((key.0 as int, key.1 as int), v as int),
            None => !lru_entries(*old(c)).dom().contains((key.0 as int, key.1 as int)),
        },
{
    c.get(&key).copied()
}

/// Relies on lru::LruCache::put: the pair is inserted, and every other entry
/// that remains was already present (at capacity the least-recently-used one
/// leaves).
#[verifier::external_body]
fn lru_put(c: &mut CoordCache, key: (i64, i64), value: usize)
    ensures
        lru_entries(*final(c)).contains_pair((key.0 as int, key.1 as int), value as int),
        lru_entries(*final(c)).remove((key.0 as int, key.1 as int)).submap_of(
            lru_entries(*old(c))),
{
    c.put(key, value);
}

/// Squared ranking distance between a query point and a station location:
/// the equirectangular model with the longitude span measured on the
/// query's parallel, scaled to milli-units.
pub open spec fn dist2(q: GeoPos, p: GeoPos) -> int {
    let dn = (p.lat - q.lat) * 1000;
    let de = (p.lon - q.lon) * cos_lat(q.lat as int);
    dn * dn + de * de
}

/// Executable squared ranking distance.
pub fn dist2_exec(q: GeoPos, p: GeoPos) -> (r: i128)
    requires
        q.in_domain(),
        p.in_domain(),
    ensures
        r == dist2(q, p),
        r >= 0,
{
    proof {
        crate::geo::lemma_cos_lat_bounds(q.lat as int);
    }
    let c: i64 = cos_lat_mil(q.lat);
    proof {
        assert(-360_000_000_000 <= (p.lon - q.lon) * (c as int) <= 360_000_000_000)
            by (nonlinear_arith)
            requires
                -360_000_000 <= p.lon - q.lon <= 360_000_000,
                0 <= c <= 1000,
        {
        }
    }
    let dn: i128 = ((p.lat as i128) - (q.lat as i128)) * 1000;
    let de: i128 = ((p.lon as i128) - (q.lon as i128)) * (c as i128);
    proof {
        assert(0 <= dn * dn < 0x4000_0000_0000_0000_0000_0000 && 0 <= de * de
            < 0x4000_0000_0000_0000_0000_0000 && dn * dn == (p.lat - q.lat) * 1000 * ((p.lat
            - q.lat) * 1000) && de * de == (p.lon - q.lon) * cos_lat(q.lat as int) * ((p.lon
            - q.lon) * cos_lat(q.lat as int))) by (nonlinear_arith)
            requires
                dn == (p.lat - q.lat) * 1000,
                de == (p.lon - q.lon) * (c as int),
                c == cos_lat(q.lat as int),
                -180_000_000 <= p.lat - q.lat <= 180_000_000,
                -360_000_000 <= p.lon - q.lon <= 360_000_000,
                0 <= c <= 1000,
        {
        }
    }
    dn * dn + de * de
}

/// The least index of a station at minimal ranking distance from `q`.
pub open spec fn nearest_idx(ps: Seq<GeoPos>, q: GeoPos) -> int
    decreases ps.len(),
{
    if ps.len() <= 1 {
        0
    } else {
        let prev = nearest_idx(ps.drop_last(), q);
        if dist2(q, ps.last()) < dist2(q, ps[prev]) {
            ps.len() - 1
        } else {
            prev
        }
    }
}

/// `nearest_idx` names a valid index, minimizes the ranking distance, and is
/// the least index doing so.
pub proof fn lemma_nearest_idx_minimal(ps: Seq<GeoPos>, q: GeoPos)
    requires
        ps.len() >= 1,
    ensures
        0 <= nearest_idx(ps, q) < ps.len(),
        forall|j: int|
            0 <= j < ps.len() ==> dist2(q, ps[nearest_idx(ps, q)]) <= #[trigger] dist2(q, ps[j]),
        forall|j: int|
            0 <= j < nearest_idx(ps, q) ==> #[trigger] dist2(q, ps[j]) > dist2(q, ps[nearest_idx(
                ps, q)]),
    decreases ps.len(),
{
    if ps.len() > 1 {
        lemma_nearest_idx_minimal(ps.drop_last(), q);
        let prev = nearest_idx(ps.drop_last(), q);
        assert(ps.drop_last()[prev] == ps[prev]);
        assert(forall|j: int| 0 <= j < ps.len() - 1 ==> ps.drop_last()[j] == #[trigger] ps[j]);
    }
}

/// A static spatial lookup over the station set, with a bounded
/// least-recently-used memoization of query results.
#[derive(Debug)]
pub struct NearestNeighborCalculator {
    /// Station locations, in station order.
    positions: Vec<GeoPos>,
    /// Memoized lookups: exact query coordinates to nearest station index.
    cache: CoordCache,
}

impl NearestNeighborCalculator {
    /// The station locations of the calculator.
    pub closed spec fn positions_seq(self) -> Seq<GeoPos> {
        self.positions@
    }

    /// There is at least one station, every location is representable, and
    /// every cache entry equals the answer of a fresh scan.
    pub closed spec fn wf(self) -> bool {
        &&& self.positions@.len() >= 1
        &&& forall|i: int| 0 <= i < self.positions@.len() ==> (#[trigger] self.positions@[
        i]).in_domain()
        &&& forall|k: (int, int)|
            #[trigger] lru_entries(self.cache).dom().contains(k) ==> lru_entries(
                self.cache)[k] == nearest_idx(self.positions@, GeoPos {
                lat: k.0 as i64,
                lon: k.1 as i64,
            })
    }

    /// Build the lookup over the given stations.
    pub fn new(stations: &Vec<Station>) -> (r: NearestNeighborCalculator)
        requires
            stations@.len() >= 1,
            forall|i: int| 0 <= i < stations@.len() ==> (#[trigger] stations@[i]).wf(),
        ensures
            r.wf(),
            r.positions_seq().len() == stations@.len(),
            forall|i: int|
                0 <= i < stations@.len() ==> r.positions_seq()[i] == (#[trigger] stations@[
                i]).loc,
    {
        let mut positions: Vec<GeoPos> = Vec::new();
        let mut i: usize = 0;
        while i < stations.len()
            invariant
                i <= stations@.len(),
                positions@.len() == i,
                forall|k: int| 0 <= k < i ==> positions@[k] == (#[trigger] stations@[k]).loc,
                forall|k: int| 0 <= k < stations@.len() ==> (#[trigger] stations@[k]).wf(),
            decreases stations@.len() - i,
        {
            positions.push(stations[i].loc);
            i = i + 1;
        }
        let cache = lru_new(CACHE_CAPACITY);
        proof {
            assert forall|k: int| 0 <= k < positions@.len() implies (#[trigger] positions@[
            k]).in_domain() by {
                assert(stations@[k].wf());
            }
            assert(forall|k: (int, int)| !lru_entries(cache).dom().contains(k));
        }
        NearestNeighborCalculator { positions, cache }
    }

    /// The index of the station nearest to `point` under the ranking
    /// distance, from the cache when the same point was asked before and by
    /// a scan otherwise; the answer never depends on the cache's state.
    pub fn nearest_neighbor(&mut self, point: GeoPos) -> (r: usize)
        requires
            old(self).wf(),
            point.in_domain(),
        ensures
            final(self).wf(),
            final(self).positions_seq() == old(self).positions_seq(),
            r == nearest_idx(old(self).positions_seq(), point),
            r < old(self).positions_seq().len(),
            forall|j: int|
                0 <= j < old(self).positions_seq().len() ==> dist2(point, old(
                    self).positions_seq()[r as int]) <= #[trigger] dist2(point, old(
                    self).positions_seq()[j]),
    {
        proof {
            lemma_nearest_idx_minimal(self.positions@, point);
        }
        let key = (point.lat, point.lon);
        let hit = lru_get(&mut self.cache, key);
        proof {
            assert(GeoPos { lat: key.0 as int as i64, lon: key.1 as int as i64 } == point);
        }
        if let Some(i) = hit {
            return i;
        }
        let mut best: usize = 0;
        let mut best_d: i128 = dist2_exec(point, self.positions[0]);
        let mut i: usize = 1;
        while i < self.positions.len()
            invariant
                self.wf(),
                point.in_domain(),
                1 <= i <= self.positions@.len(),
                best < i,
                best_d == dist2(point, self.positions@[best as int]),
                best == nearest_idx(self.positions@.take(i as int), point),
            decreases self.positions@.len() - i,
        {
            let d = dist2_exec(point, self.positions[i]);
            proof {
                assert(self.positions@.take(i + 1).drop_last() =~= self.positions@.take(i as int));
                assert(self.positions@.take(i + 1).last() == self.positions@[i as int]);
            }
            if d < best_d {
                best = i;
                best_d = d;
            }
            i = i + 1;
        }
        proof {
            assert(self.positions@.take(self.positions@.len() as int) =~= self.positions@);
        }
        lru_put(&mut self.cache, key, best);
        proof {
            let entries = lru_entries(self.cache);
            let kq = (key.0 as int, key.1 as int);
            assert forall|k: (int, int)| #[trigger] entries.dom().contains(k) implies entries[k]
                == nearest_idx(self.positions@, GeoPos {
                lat: k.0 as i64,
                lon: k.1 as i64,
            }) by {
                if k != kq {
                    assert(entries.remove(kq).dom().contains(k));
                    assert(entries.remove(kq)[k] == entries[k]);
                    assert(lru_entries(old(self).cache).contains_pair(k, entries[k]));
                }
            }
        }
        best
    }
}

} // verus!
