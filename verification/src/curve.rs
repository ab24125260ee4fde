//! Looking a temperature up on a fan curve.
//!
//! The points of a curve are taken in ascending order of temperature, points
//! of equal temperature keeping the order in which they are listed. At or
//! below the coolest point the curve gives that point's speed, at or above
//! the hottest point that point's speed, and in between it interpolates
//! linearly between the two neighbouring points. The lookup here decides
//! which of these applies and which points bound the temperature; the
//! linear interpolation itself is binary64 arithmetic and is done by the
//! caller on the two points returned.

use vstd::prelude::*;

use crate::config::CurvePoint;
use crate::temperature::Celsius;

verus! {

/// The speed used when a curve has no point, or the temperature is NaN.
pub const FALLBACK_SPEED_PERCENT: u8 = 50;

/// What a curve gives for a temperature.
#[derive(Clone, Copy, Debug, PartialEq, Eq, Structural)]
pub enum SpeedPlan {
    /// This speed, as it is.
    Fixed(u8),
    /// The speed interpolated between two neighbouring points, where
    /// `lower` is cooler than the temperature and `upper` is not.
    Interpolate { lower: CurvePoint, upper: CurvePoint },
}

/// The order key of a point's temperature.
pub open spec fn tkey(p: CurvePoint) -> int {
    p.temperature_celsius.key()
}

/// `i` is the first listed of the coolest points.
pub open spec fn is_first_coolest(ps: Seq<CurvePoint>, i: int) -> bool {
    &&& 0 <= i < ps.len()
    &&& forall|j: int| 0 <= j < ps.len() ==> tkey(ps[i]) <= #[trigger] tkey(ps[j])
    &&& forall|j: int| 0 <= j < i ==> #[trigger] tkey(ps[j]) != tkey(ps[i])
}

/// `i` is the last listed of the hottest points.
pub open spec fn is_last_hottest(ps: Seq<CurvePoint>, i: int) -> bool {
    &&& 0 <= i < ps.len()
    &&& forall|j: int| 0 <= j < ps.len() ==> #[trigger] tkey(ps[j]) <= tkey(ps[i])
    &&& forall|j: int| i < j < ps.len() ==> #[trigger] tkey(ps[j]) != tkey(ps[i])
}

/// `i` is the last listed of the hottest points that are cooler than `t`.
pub open spec fn is_lower_neighbour(ps: Seq<CurvePoint>, t: int, i: int) -> bool {
    &&& 0 <= i < ps.len()
    &&& tkey(ps[i]) < t
    &&& forall|j: int| 0 <= j < ps.len() && #[trigger] tkey(ps[j]) < t ==> tkey(ps[j]) <= tkey(ps[i])
    &&& forall|j: int| i < j < ps.len() ==> #[trigger] tkey(ps[j]) != tkey(ps[i])
}

/// `i` is the first listed of the coolest points that are not cooler than `t`.
pub open spec fn is_upper_neighbour(ps: Seq<CurvePoint>, t: int, i: int) -> bool {
    &&& 0 <= i < ps.len()
    &&& tkey(ps[i]) >= t
    &&& forall|j: int| 0 <= j < ps.len() && #[trigger] tkey(ps[j]) >= t ==> tkey(ps[j]) >= tkey(ps[i])
    &&& forall|j: int| 0 <= j < i ==> #[trigger] tkey(ps[j]) != tkey(ps[i])
}

/// No temperature of the points is NaN.
pub open spec fn no_nan_temperature(ps: Seq<CurvePoint>) -> bool {
    forall|i: int| 0 <= i < ps.len() ==> !(#[trigger] ps[i]).temperature_celsius.nan()
}

/// What the curve `ps` gives at temperature `t`.
pub open spec fn curve_plan(ps: Seq<CurvePoint>, t: Celsius) -> SpeedPlan {
    if ps.len() == 0 {
        SpeedPlan::Fixed(FALLBACK_SPEED_PERCENT)
    } else if ps.len() == 1 {
        SpeedPlan::Fixed(ps[0].fan_speed_percent)
    } else if t.nan() {
        SpeedPlan::Fixed(FALLBACK_SPEED_PERCENT)
    } else {
        let c = choose|i: int| is_first_coolest(ps, i);
        let h = choose|i: int| is_last_hottest(ps, i);
        if t.key() <= tkey(ps[c]) {
            SpeedPlan::Fixed(ps[c].fan_speed_percent)
        } else if t.key() >= tkey(ps[h]) {
            SpeedPlan::Fixed(ps[h].fan_speed_percent)
        } else {
            let l = choose|i: int| is_lower_neighbour(ps, t.key(), i);
            let u = choose|i: int| is_upper_neighbour(ps, t.key(), i);
            SpeedPlan::Interpolate { lower: ps[l], upper: ps[u] }
        }
    }
}

proof fn lemma_first_coolest_unique(ps: Seq<CurvePoint>, i: int, k: int)
    requires
        is_first_coolest(ps, i),
        is_first_coolest(ps, k),
    ensures
        i == k,
{
    assert(tkey(ps[i]) <= tkey(ps[k]));
    assert(tkey(ps[k]) <= tkey(ps[i]));
    if i < k {
        assert(tkey(ps[i]) != tkey(ps[k]));
    } else if k < i {
        assert(tkey(ps[k]) != tkey(ps[i]));
    }
}

proof fn lemma_last_hottest_unique(ps: Seq<CurvePoint>, i: int, k: int)
    requires
        is_last_hottest(ps, i),
        is_last_hottest(ps, k),
    ensures
        i == k,
{
    assert(tkey(ps[i]) <= tkey(ps[k]));
    assert(tkey(ps[k]) <= tkey(ps[i]));
    if i < k {
        assert(tkey(ps[k]) != tkey(ps[i]));
    } else if k < i {
        assert(tkey(ps[i]) != tkey(ps[k]));
    }
}

proof fn lemma_lower_neighbour_unique(ps: Seq<CurvePoint>, t: int, i: int, k: int)
    requires
        is_lower_neighbour(ps, t, i),
        is_lower_neighbour(ps, t, k),
    ensures
        i == k,
{
    assert(tkey(ps[i]) <= tkey(ps[k]));
    assert(tkey(ps[k]) <= tkey(ps[i]));
    if i < k {
        assert(tkey(ps[k]) != tkey(ps[i]));
    } else if k < i {
        assert(tkey(ps[i]) != tkey(ps[k]));
    }
}

proof fn lemma_upper_neighbour_unique(ps: Seq<CurvePoint>, t: int, i: int, k: int)
    requires
        is_upper_neighbour(ps, t, i),
        is_upper_neighbour(ps, t, k),
    ensures
        i == k,
{
    assert(tkey(ps[i]) <= tkey(ps[k]));
    assert(tkey(ps[k]) <= tkey(ps[i]));
    if i < k {
        assert(tkey(ps[i]) != tkey(ps[k]));
    } else if k < i {
        assert(tkey(ps[k]) != tkey(ps[i]));
    }
}

/// The first listed of the coolest among the first `n` points.
spec fn coolest_in_prefix(ps: Seq<CurvePoint>, n: int) -> int
    decreases n,
{
    if n <= 1 {
        0
    } else {
        let c = coolest_in_prefix(ps, n - 1);
        if tkey(ps[n - 1]) < tkey(ps[c]) { n - 1 } else { c }
    }
}

/// The last listed of the hottest among the first `n` points.
spec fn hottest_in_prefix(ps: Seq<CurvePoint>, n: int) -> int
    decreases n,
{
    if n <= 1 {
        0
    } else {
        let h = hottest_in_prefix(ps, n - 1);
        if tkey(ps[n - 1]) >= tkey(ps[h]) { n - 1 } else { h }
    }
}

proof fn lemma_coolest_in_prefix(ps: Seq<CurvePoint>, n: int)
    requires
        1 <= n <= ps.len(),
    ensures
        0 <= coolest_in_prefix(ps, n) < n,
        forall|j: int| 0 <= j < n ==> tkey(ps[coolest_in_prefix(ps, n)]) <= #[trigger] tkey(ps[j]),
        forall|j: int|
            0 <= j < coolest_in_prefix(ps, n) ==> #[trigger] tkey(ps[j]) != tkey(
                ps[coolest_in_prefix(ps, n)],
            ),
    decreases n,
{
    if n > 1 {
        lemma_coolest_in_prefix(ps, n - 1);
    }
}

proof fn lemma_hottest_in_prefix(ps: Seq<CurvePoint>, n: int)
    requires
        1 <= n <= ps.len(),
    ensures
        0 <= hottest_in_prefix(ps, n) < n,
        forall|j: int| 0 <= j < n ==> #[trigger] tkey(ps[j]) <= tkey(ps[hottest_in_prefix(ps, n)]),
        forall|j: int|
            hottest_in_prefix(ps, n) < j < n ==> #[trigger] tkey(ps[j]) != tkey(
                ps[hottest_in_prefix(ps, n)],
            ),
    decreases n,
{
    if n > 1 {
        lemma_hottest_in_prefix(ps, n - 1);
    }
}

proof fn lemma_extremes_exist(ps: Seq<CurvePoint>)
    requires
        ps.len() > 0,
    ensures
        exists|i: int| is_first_coolest(ps, i),
        exists|i: int| is_last_hottest(ps, i),
{
    lemma_coolest_in_prefix(ps, ps.len() as int);
    lemma_hottest_in_prefix(ps, ps.len() as int);
    assert(is_first_coolest(ps, coolest_in_prefix(ps, ps.len() as int)));
    assert(is_last_hottest(ps, hottest_in_prefix(ps, ps.len() as int)));
}

/// The last listed of the hottest points cooler than `t` among the first `n`
/// points, or -1 when none is.
spec fn lower_in_prefix(ps: Seq<CurvePoint>, t: int, n: int) -> int
    decreases n,
{
    if n <= 0 {
        -1
    } else {
        let l = lower_in_prefix(ps, t, n - 1);
        if tkey(ps[n - 1]) < t && (l < 0 || tkey(ps[n - 1]) >= tkey(ps[l])) { n - 1 } else { l }
    }
}

/// The first listed of the coolest points not cooler than `t` among the
/// first `n` points, or -1 when none is.
spec fn upper_in_prefix(ps: Seq<CurvePoint>, t: int, n: int) -> int
    decreases n,
{
    if n <= 0 {
        -1
    } else {
        let u = upper_in_prefix(ps, t, n - 1);
        if tkey(ps[n - 1]) >= t && (u < 0 || tkey(ps[n - 1]) < tkey(ps[u])) { n - 1 } else { u }
    }
}

proof fn lemma_lower_in_prefix(ps: Seq<CurvePoint>, t: int, n: int)
    requires
        0 <= n <= ps.len(),
    ensures
        -1 <= lower_in_prefix(ps, t, n) < n,
        lower_in_prefix(ps, t, n) < 0 ==> forall|j: int| 0 <= j < n ==> #[trigger] tkey(ps[j]) >= t,
        lower_in_prefix(ps, t, n) >= 0 ==> {
            let l = lower_in_prefix(ps, t, n);
            &&& tkey(ps[l]) < t
            &&& forall|j: int| 0 <= j < n && #[trigger] tkey(ps[j]) < t ==> tkey(ps[j]) <= tkey(ps[l])
            &&& forall|j: int| l < j < n ==> #[trigger] tkey(ps[j]) != tkey(ps[l])
        },
    decreases n,
{
    if n > 0 {
        lemma_lower_in_prefix(ps, t, n - 1);
    }
}

proof fn lemma_upper_in_prefix(ps: Seq<CurvePoint>, t: int, n: int)
    requires
        0 <= n <= ps.len(),
    ensures
        -1 <= upper_in_prefix(ps, t, n) < n,
        upper_in_prefix(ps, t, n) < 0 ==> forall|j: int| 0 <= j < n ==> #[trigger] tkey(ps[j]) < t,
        upper_in_prefix(ps, t, n) >= 0 ==> {
            let u = upper_in_prefix(ps, t, n);
            &&& tkey(ps[u]) >= t
            &&& forall|j: int| 0 <= j < n && #[trigger] tkey(ps[j]) >= t ==> tkey(ps[j]) >= tkey(ps[u])
            &&& forall|j: int| 0 <= j < u ==> #[trigger] tkey(ps[j]) != tkey(ps[u])
        },
    decreases n,
{
    if n > 0 {
        lemma_upper_in_prefix(ps, t, n - 1);
    }
}

proof fn lemma_neighbours_exist(ps: Seq<CurvePoint>, t: int, i: int, k: int)
    requires
        0 <= i < ps.len(),
        0 <= k < ps.len(),
        tkey(ps[i]) < t,
        tkey(ps[k]) >= t,
    ensures
        exists|l: int| is_lower_neighbour(ps, t, l),
        exists|u: int| is_upper_neighbour(ps, t, u),
{
    let n = ps.len() as int;
    lemma_lower_in_prefix(ps, t, n);
    lemma_upper_in_prefix(ps, t, n);
    assert(is_lower_neighbour(ps, t, lower_in_prefix(ps, t, n)));
    assert(is_upper_neighbour(ps, t, upper_in_prefix(ps, t, n)));
}

/// No two points have the same temperature.
pub open spec fn distinct_temperatures(ps: Seq<CurvePoint>) -> bool {
    forall|i: int, j: int| 0 <= i < ps.len() && 0 <= j < ps.len() && i != j ==> tkey(ps[i]) != tkey(ps[j])
}

/// Where the curve interpolates, it does so between two of its points
/// that bound the temperature, the lower one cooler than it and the upper
/// one not, with no point of the curve strictly between them.
pub proof fn lemma_interpolation_between_neighbours(ps: Seq<CurvePoint>, t: Celsius)
    ensures
        curve_plan(ps, t) matches SpeedPlan::Interpolate { lower, upper } ==> {
            &&& ps.contains(lower)
            &&& ps.contains(upper)
            &&& tkey(lower) < t.key() <= tkey(upper)
            &&& forall|j: int| 0 <= j < ps.len() ==> !(tkey(lower) < #[trigger] tkey(ps[j]) < tkey(upper))
        },
{
    if ps.len() >= 2 && !t.nan() {
        lemma_extremes_exist(ps);
        let c = choose|i: int| is_first_coolest(ps, i);
        let h = choose|i: int| is_last_hottest(ps, i);
        if tkey(ps[c]) < t.key() && t.key() < tkey(ps[h]) {
            lemma_neighbours_exist(ps, t.key(), c, h);
            let l = choose|i: int| is_lower_neighbour(ps, t.key(), i);
            let u = choose|i: int| is_upper_neighbour(ps, t.key(), i);
            assert(ps.contains(ps[l]));
            assert(ps.contains(ps[u]));
        }
    }
}

/// Between the ends of a curve the speed is always interpolated: for a curve
/// of at least two points and a temperature that is not NaN, strictly hotter
/// than some point and strictly cooler than some point, the curve gives
/// `Interpolate` with two of its points, the lower one the latest listed of
/// the hottest points cooler than the temperature, the upper one the first
/// listed of the coolest points not cooler than it, and no point strictly
/// between them.
pub proof fn lemma_between_ends_interpolates(ps: Seq<CurvePoint>, t: Celsius, i: int, j: int)
    requires
        ps.len() >= 2,
        !t.nan(),
        0 <= i < ps.len(),
        0 <= j < ps.len(),
        tkey(ps[i]) < t.key(),
        t.key() < tkey(ps[j]),
    ensures
        curve_plan(ps, t) is Interpolate,
        exists|l: int, u: int|
            {
                &&& 0 <= l < ps.len()
                &&& 0 <= u < ps.len()
                &&& curve_plan(ps, t) == SpeedPlan::Interpolate { lower: ps[l], upper: ps[u] }
                &&& tkey(ps[l]) < t.key() <= tkey(ps[u])
                &&& forall|k: int|
                    0 <= k < ps.len() && #[trigger] tkey(ps[k]) < t.key() ==> tkey(ps[k]) <= tkey(
                        ps[l],
                    )
                &&& forall|k: int|
                    0 <= k < ps.len() && #[trigger] tkey(ps[k]) >= t.key() ==> tkey(ps[k]) >= tkey(
                        ps[u],
                    )
                &&& forall|k: int| l < k < ps.len() ==> #[trigger] tkey(ps[k]) != tkey(ps[l])
                &&& forall|k: int| 0 <= k < u ==> #[trigger] tkey(ps[k]) != tkey(ps[u])
            },
{
    lemma_extremes_exist(ps);
    let c = choose|k: int| is_first_coolest(ps, k);
    let h = choose|k: int| is_last_hottest(ps, k);
    assert(tkey(ps[c]) <= tkey(ps[i]));
    assert(tkey(ps[j]) <= tkey(ps[h]));
    lemma_neighbours_exist(ps, t.key(), i, j);
    let l = choose|k: int| is_lower_neighbour(ps, t.key(), k);
    let u = choose|k: int| is_upper_neighbour(ps, t.key(), k);
    assert(curve_plan(ps, t) == SpeedPlan::Interpolate { lower: ps[l], upper: ps[u] });
}

/// A curve without points runs at 50 % whatever the temperature; a curve of
/// one point runs at that point's speed whatever the temperature; a curve of
/// two or more points runs at 50 % when the temperature is NaN.
pub proof fn lemma_degenerate_lookups(ps: Seq<CurvePoint>, t: Celsius)
    ensures
        ps.len() == 0 ==> curve_plan(ps, t) == SpeedPlan::Fixed(50),
        ps.len() == 1 ==> curve_plan(ps, t) == SpeedPlan::Fixed(ps[0].fan_speed_percent),
        ps.len() >= 2 && t.nan() ==> curve_plan(ps, t) == SpeedPlan::Fixed(50),
{
}

/// At or below the temperature of every point, the curve gives the speed of
/// the first listed coolest point; at or above every point, the speed of the
/// last listed hottest point, unless the temperature also equals every
/// point's (for a curve of at least two points and a temperature that is
/// not NaN).
pub proof fn lemma_flat_beyond_the_ends(ps: Seq<CurvePoint>, t: Celsius)
    requires
        ps.len() >= 2,
        !t.nan(),
    ensures
        (forall|j: int| 0 <= j < ps.len() ==> t.key() <= #[trigger] tkey(ps[j])) ==> exists|c: int|
            is_first_coolest(ps, c) && curve_plan(ps, t) == SpeedPlan::Fixed(ps[c].fan_speed_percent),
        (forall|j: int| 0 <= j < ps.len() ==> t.key() >= #[trigger] tkey(ps[j])) && (exists|j: int|
            0 <= j < ps.len() && t.key() > #[trigger] tkey(ps[j])) ==> exists|h: int|
            is_last_hottest(ps, h) && curve_plan(ps, t) == SpeedPlan::Fixed(ps[h].fan_speed_percent),
{
    lemma_extremes_exist(ps);
    let c = choose|i: int| is_first_coolest(ps, i);
    let h = choose|i: int| is_last_hottest(ps, i);
    if forall|j: int| 0 <= j < ps.len() ==> t.key() <= #[trigger] tkey(ps[j]) {
        assert(t.key() <= tkey(ps[c]));
    }
    if (forall|j: int| 0 <= j < ps.len() ==> t.key() >= #[trigger] tkey(ps[j])) && (exists|j: int|
        0 <= j < ps.len() && t.key() > #[trigger] tkey(ps[j])) {
        assert(t.key() >= tkey(ps[h]));
        let j = choose|j: int| 0 <= j < ps.len() && t.key() > #[trigger] tkey(ps[j]);
        assert(tkey(ps[c]) <= tkey(ps[j]));
    }
}

/// `qs` lists the same points as `ps`, possibly in another order.
pub open spec fn same_points(ps: Seq<CurvePoint>, qs: Seq<CurvePoint>) -> bool {
    &&& ps.len() == qs.len()
    &&& forall|p: CurvePoint| ps.contains(p) <==> qs.contains(p)
}

proof fn lemma_transfer_first_coolest(ps: Seq<CurvePoint>, qs: Seq<CurvePoint>, i: int) -> (j: int)
    requires
        same_points(ps, qs),
        distinct_temperatures(qs),
        is_first_coolest(ps, i),
    ensures
        is_first_coolest(qs, j),
        qs[j] == ps[i],
{
    assert(ps.contains(ps[i]));
    let j = choose|j: int| 0 <= j < qs.len() && qs[j] == ps[i];
    assert forall|k: int| 0 <= k < qs.len() implies tkey(qs[j]) <= #[trigger] tkey(qs[k]) by {
        assert(qs.contains(qs[k]));
        let m = choose|m: int| 0 <= m < ps.len() && ps[m] == qs[k];
        assert(tkey(ps[i]) <= tkey(ps[m]));
    }
    j
}

proof fn lemma_transfer_last_hottest(ps: Seq<CurvePoint>, qs: Seq<CurvePoint>, i: int) -> (j: int)
    requires
        same_points(ps, qs),
        distinct_temperatures(qs),
        is_last_hottest(ps, i),
    ensures
        is_last_hottest(qs, j),
        qs[j] == ps[i],
{
    assert(ps.contains(ps[i]));
    let j = choose|j: int| 0 <= j < qs.len() && qs[j] == ps[i];
    assert forall|k: int| 0 <= k < qs.len() implies #[trigger] tkey(qs[k]) <= tkey(qs[j]) by {
        assert(qs.contains(qs[k]));
        let m = choose|m: int| 0 <= m < ps.len() && ps[m] == qs[k];
        assert(tkey(ps[m]) <= tkey(ps[i]));
    }
    j
}

proof fn lemma_transfer_lower(ps: Seq<CurvePoint>, qs: Seq<CurvePoint>, t: int, i: int) -> (j: int)
    requires
        same_points(ps, qs),
        distinct_temperatures(qs),
        is_lower_neighbour(ps, t, i),
    ensures
        is_lower_neighbour(qs, t, j),
        qs[j] == ps[i],
{
    assert(ps.contains(ps[i]));
    let j = choose|j: int| 0 <= j < qs.len() && qs[j] == ps[i];
    assert forall|k: int| 0 <= k < qs.len() && #[trigger] tkey(qs[k]) < t implies tkey(qs[k]) <= tkey(
        qs[j],
    ) by {
        assert(qs.contains(qs[k]));
        let m = choose|m: int| 0 <= m < ps.len() && ps[m] == qs[k];
        assert(tkey(ps[m]) <= tkey(ps[i]));
    }
    j
}

proof fn lemma_transfer_upper(ps: Seq<CurvePoint>, qs: Seq<CurvePoint>, t: int, i: int) -> (j: int)
    requires
        same_points(ps, qs),
        distinct_temperatures(qs),
        is_upper_neighbour(ps, t, i),
    ensures
        is_upper_neighbour(qs, t, j),
        qs[j] == ps[i],
{
    assert(ps.contains(ps[i]));
    let j = choose|j: int| 0 <= j < qs.len() && qs[j] == ps[i];
    assert forall|k: int| 0 <= k < qs.len() && #[trigger] tkey(qs[k]) >= t implies tkey(qs[k]) >= tkey(
        qs[j],
    ) by {
        assert(qs.contains(qs[k]));
        let m = choose|m: int| 0 <= m < ps.len() && ps[m] == qs[k];
        assert(tkey(ps[m]) >= tkey(ps[i]));
    }
    j
}

/// When no two points share a temperature, the order in which the points
/// are listed does not change what the curve gives.
pub proof fn lemma_listing_order_irrelevant(ps: Seq<CurvePoint>, qs: Seq<CurvePoint>, t: Celsius)
    requires
        same_points(ps, qs),
        distinct_temperatures(ps),
        distinct_temperatures(qs),
    ensures
        curve_plan(ps, t) == curve_plan(qs, t),
{
    if ps.len() == 1 {
        assert(ps.contains(ps[0]));
        let j = choose|j: int| 0 <= j < qs.len() && qs[j] == ps[0];
        assert(j == 0);
    } else if ps.len() >= 2 && !t.nan() {
        lemma_extremes_exist(ps);
        let c = choose|i: int| is_first_coolest(ps, i);
        let h = choose|i: int| is_last_hottest(ps, i);
        let cq = lemma_transfer_first_coolest(ps, qs, c);
        let hq = lemma_transfer_last_hottest(ps, qs, h);
        let cc = choose|i: int| is_first_coolest(qs, i);
        let hh = choose|i: int| is_last_hottest(qs, i);
        lemma_first_coolest_unique(qs, cq, cc);
        lemma_last_hottest_unique(qs, hq, hh);
        if tkey(ps[c]) < t.key() && t.key() < tkey(ps[h]) {
            lemma_neighbours_exist(ps, t.key(), c, h);
            let l = choose|i: int| is_lower_neighbour(ps, t.key(), i);
            let u = choose|i: int| is_upper_neighbour(ps, t.key(), i);
            let lq = lemma_transfer_lower(ps, qs, t.key(), l);
            let uq = lemma_transfer_upper(ps, qs, t.key(), u);
            let ll = choose|i: int| is_lower_neighbour(qs, t.key(), i);
            let uu = choose|i: int| is_upper_neighbour(qs, t.key(), i);
            lemma_lower_neighbour_unique(qs, t.key(), lq, ll);
            lemma_upper_neighbour_unique(qs, t.key(), uq, uu);
        }
    }
}

/// Looks `temperature` up on the curve given by `points`.
///
/// Where there are at least two points, none of their temperatures may be
/// NaN: they could not be put in order.
pub fn fan_speed_plan(points: &Vec<CurvePoint>, temperature: Celsius) -> (plan: SpeedPlan)
    requires
        points.len() >= 2 ==> no_nan_temperature(points@),
    ensures
        plan == curve_plan(points@, temperature),
{
    let n = points.len();
    if n == 0 {
        return SpeedPlan::Fixed(FALLBACK_SPEED_PERCENT);
    }
    if n == 1 {
        return SpeedPlan::Fixed(points[0].fan_speed_percent);
    }
    if temperature.is_nan() {
        return SpeedPlan::Fixed(FALLBACK_SPEED_PERCENT);
    }
    let ghost ps = points@;
    let t = temperature.order_key();

    let mut c: usize = 0;
    let mut h: usize = 0;
    let mut i: usize = 1;
    while i < n
        invariant
            n == ps.len(),
            ps == points@,
            1 <= i <= n,
            c < i,
            h < i,
            forall|j: int| 0 <= j < i ==> tkey(ps[c as int]) <= #[trigger] tkey(ps[j]),
            forall|j: int| 0 <= j < c ==> #[trigger] tkey(ps[j]) != tkey(ps[c as int]),
            forall|j: int| 0 <= j < i ==> #[trigger] tkey(ps[j]) <= tkey(ps[h as int]),
            forall|j: int| h < j < i ==> #[trigger] tkey(ps[j]) != tkey(ps[h as int]),
        decreases n - i,
    {
        let k = points[i].temperature_celsius.order_key();
        if k < points[c].temperature_celsius.order_key() {
            c = i;
        }
        if k >= points[h].temperature_celsius.order_key() {
            h = i;
        }
        i = i + 1;
    }
    proof {
        assert(is_first_coolest(ps, c as int));
        assert(is_last_hottest(ps, h as int));
        let cc = choose|i: int| is_first_coolest(ps, i);
        lemma_first_coolest_unique(ps, c as int, cc);
        let hh = choose|i: int| is_last_hottest(ps, i);
        lemma_last_hottest_unique(ps, h as int, hh);
    }
    let coolest = points[c];
    let hottest = points[h];
    if t <= coolest.temperature_celsius.order_key() {
        return SpeedPlan::Fixed(coolest.fan_speed_percent);
    }
    if t >= hottest.temperature_celsius.order_key() {
        return SpeedPlan::Fixed(hottest.fan_speed_percent);
    }

    let mut lower: usize = 0;
    let mut upper: usize = 0;
    let mut have_lower = false;
    let mut have_upper = false;
    let mut i: usize = 0;
    while i < n
        invariant
            n == ps.len(),
            ps == points@,
            0 <= i <= n,
            have_lower ==> {
                &&& lower < i
                &&& tkey(ps[lower as int]) < t
                &&& forall|j: int|
                    0 <= j < i && #[trigger] tkey(ps[j]) < t ==> tkey(ps[j]) <= tkey(ps[lower as int])
                &&& forall|j: int| lower < j < i ==> #[trigger] tkey(ps[j]) != tkey(ps[lower as int])
            },
            !have_lower ==> forall|j: int| 0 <= j < i ==> #[trigger] tkey(ps[j]) >= t,
            have_upper ==> {
                &&& upper < i
                &&& tkey(ps[upper as int]) >= t
                &&& forall|j: int|
                    0 <= j < i && #[trigger] tkey(ps[j]) >= t ==> tkey(ps[j]) >= tkey(ps[upper as int])
                &&& forall|j: int| 0 <= j < upper ==> #[trigger] tkey(ps[j]) != tkey(ps[upper as int])
            },
            !have_upper ==> forall|j: int| 0 <= j < i ==> #[trigger] tkey(ps[j]) < t,
        decreases n - i,
    {
        let k = points[i].temperature_celsius.order_key();
        if k < t {
            if !have_lower || k >= points[lower].temperature_celsius.order_key() {
                lower = i;
                have_lower = true;
            }
        } else {
            if !have_upper || k < points[upper].temperature_celsius.order_key() {
                upper = i;
                have_upper = true;
            }
        }
        i = i + 1;
    }
    proof {
        if !have_lower {
            assert(tkey(ps[c as int]) >= t);
        }
        if !have_upper {
            assert(tkey(ps[h as int]) < t);
        }
    }
    proof {
        assert(is_lower_neighbour(ps, t as int, lower as int));
        assert(is_upper_neighbour(ps, t as int, upper as int));
        let ll = choose|i: int| is_lower_neighbour(ps, t as int, i);
        lemma_lower_neighbour_unique(ps, t as int, lower as int, ll);
        let uu = choose|i: int| is_upper_neighbour(ps, t as int, i);
        lemma_upper_neighbour_unique(ps, t as int, upper as int, uu);
    }
    SpeedPlan::Interpolate { lower: points[lower], upper: points[upper] }
}

} // verus!
