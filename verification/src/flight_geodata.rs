//! The time-indexed track of geo-samples for one journey, with point and
//! interpolated lookup by timestamp.

use vstd::prelude::*;
use vstd::arithmetic::div_mod::lemma_div_is_ordered;
use vstd::arithmetic::div_mod::lemma_div_multiples_vanish;

use crate::coord::COORD_SCALE;
use crate::result::{GTError, GTResult};

verus! {

/// Largest altitude magnitude, in meters, that a track sample may carry.
/// Generous compared to any physical journey; it keeps all interpolation
/// arithmetic inside 128-bit intermediates.
pub const MAX_ALTITUDE_ABS: i64 = 1_000_000_000;

/// One reading of a journey: an instant in UTC epoch seconds, a position in
/// fixed-point decimal degrees (`COORD_SCALE` units per degree) and an
/// altitude in whole meters.
#[derive(Clone, Copy, Debug, PartialEq, Eq, Structural)]
pub struct GeoPosition {
    pub timestamp: i64,
    pub latitude: i64,
    pub longitude: i64,
    pub altitude: i64,
}

/// A sample whose coordinates lie in the latitude range of ninety degrees
/// either side of the equator, the longitude range of one hundred eighty
/// degrees either side of the prime meridian, and whose altitude magnitude
/// stays within [`MAX_ALTITUDE_ABS`].
pub open spec fn valid_sample(p: GeoPosition) -> bool {
    &&& -90 * (COORD_SCALE as int) <= p.latitude <= 90 * (COORD_SCALE as int)
    &&& -180 * (COORD_SCALE as int) <= p.longitude <= 180 * (COORD_SCALE as int)
    &&& -(MAX_ALTITUDE_ABS as int) <= p.altitude <= MAX_ALTITUDE_ABS as int
}

/// Samples ordered by non-decreasing timestamp.
pub open spec fn ts_sorted(s: Seq<GeoPosition>) -> bool {
    forall|i: int, j: int| 0 <= i <= j < s.len() ==> s[i].timestamp <= s[j].timestamp
}

/// Every sample of the sequence is valid.
pub open spec fn all_valid(s: Seq<GeoPosition>) -> bool {
    forall|i: int| 0 <= i < s.len() ==> valid_sample(#[trigger] s[i])
}

/// Keeps exactly the samples taken at the given instant.
pub open spec fn ts_eq_pred(t: i64) -> spec_fn(GeoPosition) -> bool {
    |p: GeoPosition| p.timestamp == t
}

/// Division with truncation toward zero, for a positive divisor.
pub open spec fn trunc_div(n: int, d: int) -> int {
    if n >= 0 {
        n / d
    } else {
        -((-n) / d)
    }
}

/// Linear interpolation between the values `v0` at time `t0` and `v1` at
/// time `t1`, evaluated at time `t`: the exact rational
/// `v0 + (t - t0) * (v1 - v0) / (t1 - t0)` truncated toward zero.
pub open spec fn interp1(v0: int, v1: int, t0: int, t1: int, t: int) -> int {
    trunc_div(v0 * (t1 - t0) + (t - t0) * (v1 - v0), t1 - t0)
}

/// The sample synthesized between the bracketing samples `lo` and `hi` for
/// a query instant `t`: its timestamp is the query itself and each
/// coordinate is interpolated linearly.
pub open spec fn interp_at(lo: GeoPosition, hi: GeoPosition, t: i64) -> GeoPosition {
    GeoPosition {
        timestamp: t,
        latitude: interp1(
            lo.latitude as int,
            hi.latitude as int,
            lo.timestamp as int,
            hi.timestamp as int,
            t as int,
        ) as i64,
        longitude: interp1(
            lo.longitude as int,
            hi.longitude as int,
            lo.timestamp as int,
            hi.timestamp as int,
            t as int,
        ) as i64,
        altitude: interp1(
            lo.altitude as int,
            hi.altitude as int,
            lo.timestamp as int,
            hi.timestamp as int,
            t as int,
        ) as i64,
    }
}

/// Whether some sample of the sequence was taken exactly at `t`.
pub open spec fn has_exact(s: Seq<GeoPosition>, t: i64) -> bool {
    exists|k: int| 0 <= k < s.len() && s[k].timestamp == t
}

/// What a successful lookup returns. On an exact hit the result is one of
/// the samples taken at the query instant, unmodified; otherwise it is the
/// linear interpolation between the unique pair of adjacent samples that
/// brackets the query.
pub open spec fn lookup_ok(s: Seq<GeoPosition>, t: i64, p: GeoPosition) -> bool {
    if has_exact(s, t) {
        exists|k: int| 0 <= k < s.len() && s[k].timestamp == t && p == s[k]
    } else {
        exists|i: int|
            1 <= i < s.len() && s[i - 1].timestamp < t < (#[trigger] s[i]).timestamp && p
                == interp_at(s[i - 1], s[i], t)
    }
}

/// The truncated interpolation lies between the two interpolated values.
pub proof fn lemma_interp_bounds(v0: int, v1: int, t0: int, t1: int, t: int)
    requires
        t0 < t < t1,
    ensures
        (if v0 <= v1 {
            v0
        } else {
            v1
        }) <= interp1(v0, v1, t0, t1, t) <= (if v0 <= v1 {
            v1
        } else {
            v0
        }),
{
    let d = t1 - t0;
    let a = t - t0;
    let n = v0 * d + a * (v1 - v0);
    let m = if v0 <= v1 {
        v0
    } else {
        v1
    };
    let big = if v0 <= v1 {
        v1
    } else {
        v0
    };
    assert(m * d <= n && n <= big * d) by (nonlinear_arith)
        requires
            0 < a < d,
            m == (if v0 <= v1 { v0 } else { v1 }),
            big == (if v0 <= v1 { v1 } else { v0 }),
            n == v0 * d + a * (v1 - v0),
    ;
    if n >= 0 {
        lemma_div_is_ordered(m * d, n, d);
        lemma_div_is_ordered(n, big * d, d);
        lemma_div_multiples_vanish(m, d);
        lemma_div_multiples_vanish(big, d);
        assert(d * m == m * d) by (nonlinear_arith);
        assert(d * big == big * d) by (nonlinear_arith);
    } else {
        assert(d * (-m) == (-m) * d) by (nonlinear_arith);
        assert(d * (-big) == (-big) * d) by (nonlinear_arith);
        assert((-m) * d == -(m * d)) by (nonlinear_arith);
        assert((-big) * d == -(big * d)) by (nonlinear_arith);
        lemma_div_is_ordered(-n, (-m) * d, d);
        lemma_div_is_ordered((-big) * d, -n, d);
        lemma_div_multiples_vanish(-m, d);
        lemma_div_multiples_vanish(-big, d);
    }
}

/// Interpolation between the values `v0` and `v1`, whose magnitudes must
/// stay within two billion, over the instants `t0 < t < t1`.
fn interp_exec(v0: i64, v1: i64, t0: i64, t1: i64, t: i64) -> (r: i64)
    requires
        t0 < t < t1,
        -2_000_000_000 <= v0 <= 2_000_000_000,
        -2_000_000_000 <= v1 <= 2_000_000_000,
    ensures
        r == interp1(v0 as int, v1 as int, t0 as int, t1 as int, t as int),
        (if v0 <= v1 {
            v0
        } else {
            v1
        }) <= r <= (if v0 <= v1 {
            v1
        } else {
            v0
        }),
{
    let d: i128 = t1 as i128 - t0 as i128;
    let a: i128 = t as i128 - t0 as i128;
    let dv: i128 = v1 as i128 - v0 as i128;
    proof {
        assert(-40000000000000000000000000000 <= (v0 as int) * (d as int)
            <= 40000000000000000000000000000) by (nonlinear_arith)
            requires
                -2_000_000_000 <= v0 <= 2_000_000_000,
                0 < d < 20000000000000000000,
        ;
        assert(-100000000000000000000000000000 <= (a as int) * (dv as int)
            <= 100000000000000000000000000000) by (nonlinear_arith)
            requires
                0 < a < 20000000000000000000,
                -4_000_000_001 <= dv <= 4_000_000_001,
        ;
    }
    let n: i128 = v0 as i128 * d + a * dv;
    proof {
        lemma_interp_bounds(v0 as int, v1 as int, t0 as int, t1 as int, t as int);
    }
    let q: i128 = match n.checked_div(d) {
        Some(q) => q,
        None => 0,  // unreachable: the divisor is positive and the quotient in range
    };
    proof {
        assert(q == trunc_div(n as int, d as int));
    }
    q as i64
}

/// An immutable, timestamp-sorted track of geo-samples for one journey.
///
/// Built once from a fully materialized sample list; construction sorts the
/// samples by timestamp with a stable sort, so samples sharing a timestamp
/// keep their input order. Read-only afterward.
#[derive(Clone, Debug)]
pub struct FlightGeodata {
    /// Opaque journey label, for example a flight code.
    pub flight_code: String,
    positions: Vec<GeoPosition>,
}

impl FlightGeodata {
    /// The samples the track holds, in storage order.
    pub closed spec fn samples(&self) -> Seq<GeoPosition> {
        self.positions@
    }

    /// The journey label the track was built with.
    pub closed spec fn spec_flight_code(&self) -> String {
        self.flight_code
    }

    /// A track on which lookup may be called: non-empty, sorted by
    /// timestamp, every sample valid. Construction establishes this.
    pub open spec fn wf(&self) -> bool {
        &&& self.samples().len() > 0
        &&& ts_sorted(self.samples())
        &&& all_valid(self.samples())
    }

    /// How many samples the track holds.
    pub fn sample_count(&self) -> (r: usize)
        ensures
            r == self.samples().len(),
    {
        self.positions.len()
    }

    /// Builds a track from a journey label and a non-empty list of valid
    /// samples. The samples are sorted ascending by timestamp; the sort is
    /// stable: for every instant `t`, the subsequence of samples taken at
    /// `t` is exactly the input's subsequence at `t`, in input order.
    pub fn new(flight_code: String, positions: Vec<GeoPosition>) -> (r: FlightGeodata)
        requires
            positions@.len() > 0,
            all_valid(positions@),
        ensures
            r.spec_flight_code() == flight_code,
            r.wf(),
            r.samples().len() == positions@.len(),
            forall|t: i64|
                r.samples().filter(#[trigger] ts_eq_pred(t)) == positions@.filter(ts_eq_pred(t)),
    {
        let ghost orig = positions@;
        let mut rest = positions;
        let mut sorted: Vec<GeoPosition> = Vec::new();
        proof {
            assert(orig.skip(0) =~= orig);
            assert(orig.take(0) =~= Seq::<GeoPosition>::empty());
            assert forall|t: i64|
                sorted@.filter(#[trigger] ts_eq_pred(t)) == orig.take(0).filter(
                    ts_eq_pred(t),
                ) by {
                assert(sorted@ =~= orig.take(0));
            }
        }
        while rest.len() > 0
            invariant
                all_valid(orig),
                sorted.len() + rest.len() == orig.len(),
                rest@ == orig.skip(orig.len() - rest.len()),
                ts_sorted(sorted@),
                all_valid(sorted@),
                forall|t: i64|
                    sorted@.filter(#[trigger] ts_eq_pred(t)) == orig.take(
                        orig.len() - rest.len(),
                    ).filter(ts_eq_pred(t)),
            decreases rest.len(),
        {
            let ghost i = orig.len() - rest.len();
            let x = rest.remove(0);
            proof {
                assert(x == orig[i]);
                assert(rest@ =~= orig.skip(i + 1));
            }
            let mut pos: usize = sorted.len();
            while pos > 0 && sorted[pos - 1].timestamp > x.timestamp
                invariant
                    pos <= sorted.len(),
                    forall|k: int|
                        pos <= k < sorted.len() ==> (#[trigger] sorted@[k]).timestamp
                            > x.timestamp,
                decreases pos,
            {
                pos = pos - 1;
            }
            let ghost olds = sorted@;
            sorted.insert(pos, x);
            proof {
                let p = pos as int;
                assert(sorted@ =~= olds.take(p).push(x) + olds.skip(p));
                assert(forall|k: int| 0 <= k < p ==> olds[k].timestamp <= x.timestamp);
                assert forall|a: int, b: int|
                    0 <= a <= b < sorted@.len() implies sorted@[a].timestamp
                    <= sorted@[b].timestamp by {
                    if a < p {
                        assert(sorted@[a] == olds[a]);
                    } else if a == p {
                        assert(sorted@[a] == x);
                    } else {
                        assert(sorted@[a] == olds[a - 1]);
                    }
                    if b < p {
                        assert(sorted@[b] == olds[b]);
                    } else if b == p {
                        assert(sorted@[b] == x);
                    } else {
                        assert(sorted@[b] == olds[b - 1]);
                    }
                }
                assert forall|k: int| 0 <= k < sorted@.len() implies valid_sample(
                    #[trigger] sorted@[k],
                ) by {
                    if k < p {
                        assert(sorted@[k] == olds[k]);
                    } else if k == p {
                        assert(sorted@[k] == x);
                    } else {
                        assert(sorted@[k] == olds[k - 1]);
                    }
                }
                assert(olds =~= olds.take(p) + olds.skip(p));
                assert(orig.take(i + 1) =~= orig.take(i).push(x));
                assert forall|t: i64|
                    sorted@.filter(#[trigger] ts_eq_pred(t)) == orig.take(i + 1).filter(
                        ts_eq_pred(t),
                    ) by {
                    let pred = ts_eq_pred(t);
                    Seq::filter_distributes_over_add(olds.take(p), olds.skip(p), pred);
                    Seq::filter_distributes_over_add(olds.take(p).push(x), olds.skip(p), pred);
                    crate::metadata::lemma_filter_push(olds.take(p), x, pred);
                    crate::metadata::lemma_filter_push(orig.take(i), x, pred);
                    if t == x.timestamp {
                        assert forall|k: int| 0 <= k < olds.skip(p).len() implies !pred(
                            #[trigger] olds.skip(p)[k],
                        ) by {
                            assert(olds.skip(p)[k] == olds[p + k]);
                        }
                        crate::metadata::lemma_filter_none(olds.skip(p), pred);
                        assert(sorted@.filter(pred) =~= olds.filter(pred).push(x));
                        assert(orig.take(i + 1).filter(pred) =~= orig.take(i).filter(pred).push(
                            x,
                        ));
                    } else {
                        assert(sorted@.filter(pred) =~= olds.filter(pred));
                        assert(orig.take(i + 1).filter(pred) =~= orig.take(i).filter(pred));
                    }
                }
            }
        }
        proof {
            assert(orig.take(orig.len() as int) =~= orig);
        }
        FlightGeodata { flight_code, positions: sorted }
    }

    /// Finds, inside the covered range, the first index whose sample is not
    /// earlier than the query; outside the range, reports which boundary
    /// was crossed, carrying the boundary's timestamp.
    fn binary_search_positions(&self, timestamp: i64) -> (r: GTResult<usize>)
        requires
            self.wf(),
        ensures
            ({
                let s = self.samples();
                &&& (timestamp < s[0].timestamp <==> r == Err::<usize, GTError>(
                    GTError::TooOld(s[0].timestamp),
                ))
                &&& (timestamp > s[s.len() - 1].timestamp <==> r == Err::<usize, GTError>(
                    GTError::TooNew(s[s.len() - 1].timestamp),
                ))
                &&& (r is Err ==> timestamp < s[0].timestamp || timestamp > s[s.len()
                    - 1].timestamp)
                &&& (r is Ok ==> {
                    let i = r.unwrap() as int;
                    &&& 0 <= i < s.len()
                    &&& s[i].timestamp >= timestamp
                    &&& forall|k: int| 0 <= k < i ==> (#[trigger] s[k]).timestamp < timestamp
                })
            }),
    {
        if timestamp < self.positions[0].timestamp {
            return Err(GTError::TooOld(self.positions[0].timestamp));
        }
        let last = self.positions.len() - 1;
        if timestamp > self.positions[last].timestamp {
            return Err(GTError::TooNew(self.positions[last].timestamp));
        }
        let mut lo: usize = 0;
        let mut hi: usize = self.positions.len();
        while lo < hi
            invariant
                self.wf(),
                lo <= hi <= self.samples().len(),
                forall|k: int|
                    0 <= k < lo ==> (#[trigger] self.samples()[k]).timestamp < timestamp,
                forall|k: int|
                    hi <= k < self.samples().len() ==> (#[trigger] self.samples()[k]).timestamp
                        >= timestamp,
                timestamp <= self.samples()[self.samples().len() - 1].timestamp,
            decreases hi - lo,
        {
            let mid = lo + (hi - lo) / 2;
            if self.positions[mid].timestamp < timestamp {
                lo = mid + 1;
            } else {
                hi = mid;
            }
        }
        if lo == self.positions.len() {
            proof {
                assert(self.samples()[self.samples().len() - 1].timestamp < timestamp);
            }
            // unreachable: the query is not past the last sample
            return Err(GTError::TooNew(self.positions[last].timestamp));
        }
        Ok(lo)
    }

    /// Resolves a query instant to a position. Fails with the boundary
    /// error when the query lies strictly outside the covered range. On an
    /// exact timestamp hit the matching sample is returned unmodified;
    /// otherwise the position is interpolated linearly, with the altitude
    /// truncated toward zero, and carries the query timestamp itself.
    pub fn get_position_from_datetime(&self, timestamp: i64) -> (r: GTResult<GeoPosition>)
        requires
            self.wf(),
        ensures
            ({
                let s = self.samples();
                &&& (r is Err <==> timestamp < s[0].timestamp || timestamp > s[s.len()
                    - 1].timestamp)
                &&& (timestamp < s[0].timestamp ==> r == Err::<GeoPosition, GTError>(
                    GTError::TooOld(s[0].timestamp),
                ))
                &&& (timestamp > s[s.len() - 1].timestamp ==> r == Err::<GeoPosition, GTError>(
                    GTError::TooNew(s[s.len() - 1].timestamp),
                ))
                &&& (r is Ok ==> lookup_ok(s, timestamp, r.unwrap()))
                &&& (r is Ok ==> valid_sample(r.unwrap()))
                &&& (r is Ok ==> r.unwrap().timestamp == timestamp)
            }),
    {
        let idx = match self.binary_search_positions(timestamp) {
            Ok(i) => i,
            Err(e) => {
                return Err(e);
            },
        };
        if self.positions[idx].timestamp == timestamp {
            let hit = self.positions[idx];
            proof {
                let s = self.samples();
                assert(s[idx as int].timestamp == timestamp);
                assert(has_exact(s, timestamp));
            }
            return Ok(hit);
        }
        proof {
            let s = self.samples();
            if idx == 0 {
                assert(s[0].timestamp >= timestamp);
                assert(s[0].timestamp != timestamp);
                assert(false);
            }
        }
        let lower = self.positions[idx - 1];
        let higher = self.positions[idx];
        proof {
            let s = self.samples();
            assert(lower == s[idx - 1]);
            assert(higher == s[idx as int]);
            assert(lower.timestamp < timestamp);
            assert(higher.timestamp > timestamp);
            assert(valid_sample(lower));
            assert(valid_sample(higher));
            assert forall|k: int| 0 <= k < s.len() implies (#[trigger] s[k]).timestamp
                != timestamp by {
                if k < idx {
                    assert(s[k].timestamp < timestamp);
                } else {
                    assert(s[idx as int].timestamp <= s[k].timestamp);
                }
            }
            assert(!has_exact(s, timestamp));
        }
        let latitude = interp_exec(
            lower.latitude,
            higher.latitude,
            lower.timestamp,
            higher.timestamp,
            timestamp,
        );
        let longitude = interp_exec(
            lower.longitude,
            higher.longitude,
            lower.timestamp,
            higher.timestamp,
            timestamp,
        );
        let altitude = interp_exec(
            lower.altitude,
            higher.altitude,
            lower.timestamp,
            higher.timestamp,
            timestamp,
        );
        let interpolated = GeoPosition { timestamp, latitude, longitude, altitude };
        proof {
            let s = self.samples();
            assert(interpolated == interp_at(s[idx - 1], s[idx as int], timestamp));
            assert(1 <= idx < s.len() && s[idx - 1].timestamp < timestamp < s[
                idx as int
            ].timestamp && interpolated == interp_at(s[idx - 1], s[idx as int], timestamp));
        }
        Ok(interpolated)
    }

    /// Resolves a query instant to the six positional metadata fields of
    /// the looked-up position. Fails exactly when the query lies strictly
    /// outside the covered range, with the boundary error of the lookup;
    /// field construction itself cannot fail on a well-formed track, whose
    /// altitudes always fit the unsigned target range.
    pub fn get_gps_exif_from_datetime(&self, timestamp: i64) -> (r: GTResult<
        Vec<crate::metadata::MetadataField>,
    >)
        requires
            self.wf(),
        ensures
            ({
                let s = self.samples();
                &&& (r is Err <==> timestamp < s[0].timestamp || timestamp > s[s.len()
                    - 1].timestamp)
                &&& (timestamp < s[0].timestamp ==> r == Err::<
                    Vec<crate::metadata::MetadataField>,
                    GTError,
                >(GTError::TooOld(s[0].timestamp)))
                &&& (timestamp > s[s.len() - 1].timestamp ==> r == Err::<
                    Vec<crate::metadata::MetadataField>,
                    GTError,
                >(GTError::TooNew(s[s.len() - 1].timestamp)))
                &&& (r is Ok ==> r.unwrap()@.len() == 6)
                &&& (r is Ok ==> exists|p: GeoPosition|
                    lookup_ok(s, timestamp, p) && crate::metadata::fields_view(r.unwrap()@)
                        == #[trigger] crate::metadata::positional_fields_spec(p))
                &&& (r is Ok ==> forall|i: int|
                    0 <= i < r.unwrap()@.len() ==> crate::metadata::is_positional_tag(
                        (#[trigger] r.unwrap()@[i]).tag,
                    ))
            }),
    {
        let position = match self.get_position_from_datetime(timestamp) {
            Ok(p) => p,
            Err(e) => {
                return Err(e);
            },
        };
        match crate::metadata::build_positional_fields(&position) {
            Ok(fields) => {
                proof {
                    assert(lookup_ok(self.samples(), timestamp, position)
                        && crate::metadata::fields_view(fields@)
                        == crate::metadata::positional_fields_spec(position));
                }
                Ok(fields)
            },
            Err(e) => {
                proof {
                    // unreachable: a valid sample's altitude fits the target range
                    assert(false);
                }
                Err(e)
            },
        }
    }
}

/// Two sorted sequences that agree, instant by instant, on the subsequence
/// of samples taken at that instant are the same sequence: sortedness and
/// stability together determine the result of construction completely.
pub proof fn lemma_sorted_stable_unique(a: Seq<GeoPosition>, b: Seq<GeoPosition>)
    requires
        ts_sorted(a),
        ts_sorted(b),
        forall|t: i64| a.filter(#[trigger] ts_eq_pred(t)) == b.filter(ts_eq_pred(t)),
    ensures
        a == b,
    decreases a.len() + b.len(),
{
    broadcast use vstd::seq_lib::group_filter_ensures;
    broadcast use Seq::lemma_filter_contains_rev;

    if a.len() == 0 && b.len() == 0 {
        assert(a =~= b);
    } else if a.len() == 0 {
        let t = b.last().timestamp;
        let pred = ts_eq_pred(t);
        assert(b.filter(pred) == b.drop_last().filter(pred).push(b.last())) by {
            crate::metadata::lemma_filter_push(b.drop_last(), b.last(), pred);
            assert(b.drop_last().push(b.last()) =~= b);
        }
        assert(a.filter(pred).len() == 0);
        assert(false);
    } else if b.len() == 0 {
        let t = a.last().timestamp;
        let pred = ts_eq_pred(t);
        assert(a.filter(pred) == a.drop_last().filter(pred).push(a.last())) by {
            crate::metadata::lemma_filter_push(a.drop_last(), a.last(), pred);
            assert(a.drop_last().push(a.last()) =~= a);
        }
        assert(b.filter(pred).len() == 0);
        assert(false);
    } else {
        let ta = a.last().timestamp;
        let tb = b.last().timestamp;
        let pa = ts_eq_pred(ta);
        let pb = ts_eq_pred(tb);
        assert(a.filter(pa) == a.drop_last().filter(pa).push(a.last())) by {
            crate::metadata::lemma_filter_push(a.drop_last(), a.last(), pa);
            assert(a.drop_last().push(a.last()) =~= a);
        }
        assert(b.filter(pb) == b.drop_last().filter(pb).push(b.last())) by {
            crate::metadata::lemma_filter_push(b.drop_last(), b.last(), pb);
            assert(b.drop_last().push(b.last()) =~= b);
        }
        // The greatest instant of each sequence occurs in the other, so
        // the two greatest instants coincide.
        assert(tb <= ta) by {
            let e = b.filter(pb).last();
            assert(b.filter(pb).contains(e));
            assert(a.filter(pb).contains(e));
            assert(a.contains(e));
            let j = choose|j: int| 0 <= j < a.len() && a[j] == e;
            assert(a[j].timestamp <= a[a.len() - 1].timestamp);
        }
        assert(ta <= tb) by {
            let e = a.filter(pa).last();
            assert(a.filter(pa).contains(e));
            assert(b.filter(pa).contains(e));
            assert(b.contains(e));
            let j = choose|j: int| 0 <= j < b.len() && b[j] == e;
            assert(b[j].timestamp <= b[b.len() - 1].timestamp);
        }
        assert(ta == tb);
        assert(a.last() == b.last()) by {
            assert(a.filter(pa) == b.filter(pa));
            assert(a.filter(pa).last() == a.last());
            assert(b.filter(pa).last() == b.last());
        }
        assert(a.drop_last().filter(pa) == b.drop_last().filter(pa)) by {
            assert(a.filter(pa).drop_last() == a.drop_last().filter(pa));
            assert(b.filter(pa).drop_last() == b.drop_last().filter(pa));
        }
        assert forall|t2: i64|
            a.drop_last().filter(#[trigger] ts_eq_pred(t2)) == b.drop_last().filter(
                ts_eq_pred(t2),
            ) by {
            let pred2 = ts_eq_pred(t2);
            crate::metadata::lemma_filter_push(a.drop_last(), a.last(), pred2);
            crate::metadata::lemma_filter_push(b.drop_last(), b.last(), pred2);
            assert(a.drop_last().push(a.last()) =~= a);
            assert(b.drop_last().push(b.last()) =~= b);
            if t2 == ta {
                assert(a.drop_last().filter(pred2) == a.filter(pred2).drop_last());
                assert(b.drop_last().filter(pred2) == b.filter(pred2).drop_last());
            }
        }
        assert(ts_sorted(a.drop_last())) by {
            assert(forall|i: int|
                0 <= i < a.drop_last().len() ==> a.drop_last()[i] == a[i]);
        }
        assert(ts_sorted(b.drop_last())) by {
            assert(forall|i: int|
                0 <= i < b.drop_last().len() ==> b.drop_last()[i] == b[i]);
        }
        lemma_sorted_stable_unique(a.drop_last(), b.drop_last());
        assert(a =~= b) by {
            assert(a.drop_last() == b.drop_last());
            assert(forall|i: int|
                0 <= i < a.len() - 1 ==> a[i] == a.drop_last()[i] && b[i] == b.drop_last()[i]);
        }
    }
}

/// On a sorted track without conflicting duplicates (samples sharing a
/// timestamp are identical), a lookup at the exact timestamp of sample `i`
/// yields sample `i` itself: no interpolation drift on exact hits.
pub proof fn lemma_lookup_exact_hit(s: Seq<GeoPosition>, i: int, p: GeoPosition)
    requires
        ts_sorted(s),
        0 <= i < s.len(),
        forall|j: int, k: int|
            0 <= j < s.len() && 0 <= k < s.len() && (#[trigger] s[j]).timestamp
                == (#[trigger] s[k]).timestamp ==> s[j] == s[k],
        lookup_ok(s, s[i].timestamp, p),
    ensures
        p == s[i],
{
    let t = s[i].timestamp;
    assert(has_exact(s, t));
    let k = choose|k: int| 0 <= k < s.len() && s[k].timestamp == t && p == s[k];
    assert(s[k] == s[i]);
}

/// A lookup strictly between two adjacent samples yields exactly the
/// linear interpolation between them.
pub proof fn lemma_lookup_interpolates(s: Seq<GeoPosition>, i: int, t: i64, p: GeoPosition)
    requires
        ts_sorted(s),
        1 <= i < s.len(),
        s[i - 1].timestamp < t < s[i].timestamp,
        lookup_ok(s, t, p),
    ensures
        p == interp_at(s[i - 1], s[i], t),
{
    assert forall|k: int| 0 <= k < s.len() implies (#[trigger] s[k]).timestamp != t by {
        if k <= i - 1 {
            assert(s[k].timestamp <= s[i - 1].timestamp);
        } else {
            assert(s[i].timestamp <= s[k].timestamp);
        }
    }
    assert(!has_exact(s, t));
    let w = choose|w: int|
        1 <= w < s.len() && s[w - 1].timestamp < t < (#[trigger] s[w]).timestamp && p
            == interp_at(s[w - 1], s[w], t);
    if w < i {
        assert(s[w].timestamp <= s[i - 1].timestamp);
        assert(false);
    }
    if w > i {
        assert(s[i].timestamp <= s[w - 1].timestamp);
        assert(false);
    }
}

} // verus!
