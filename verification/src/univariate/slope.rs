use vstd::prelude::*;
use core::cmp::Ordering;

use super::bracket::{
    Bracket, Slope, bracket_of, bracket_of_slopes, falls_then_rises, flat_bottom, least_at, lemma_bracket_holds_minimum,
    lemma_bracket_of_flat_bottom, lemma_bracket_of_turning_point, slopes_between,
};

verus! {

/// The slope from one sample to the next, given how the first value compares
/// with the second.
pub open spec fn slope_spec(ordering: Ordering) -> Slope {
    match ordering {
        Ordering::Greater => Slope::Falls,
        Ordering::Equal => Slope::Level,
        Ordering::Less => Slope::Rises,
    }
}

/// The slopes of a sequence of comparisons.
pub open spec fn slopes_spec(trend: Seq<Ordering>) -> Seq<Slope> {
    trend.map_values(|o: Ordering| slope_spec(o))
}

/// The slope from one sample to the next, given how the first value compares
/// with the second.
pub fn slope_from_ordering(ordering: Ordering) -> (s: Slope)
    ensures
        s == slope_spec(ordering),
{
    match ordering {
        Ordering::Greater => Slope::Falls,
        Ordering::Equal => Slope::Level,
        Ordering::Less => Slope::Rises,
    }
}

/// The bracket for one round of samples, given, for each point but the last,
/// how its value compares with the value of the next point.
///
/// Comparisons that are all `Greater` before position `k` and all `Less`
/// from `k` on give the bracket around point `k`; comparisons that are all
/// `Greater` before an inner position `k`, `Equal` at `k` and all `Less` after
/// it give the level bracket `(k, k + 1)`; any other trend is not unimodal.
/// Whatever values the comparisons came from, a bracket holds the smallest of
/// them.
pub fn bracket_from_trend<const N: usize>(trend: [Ordering; N]) -> (r: Bracket)
    ensures
        r == bracket_of(slopes_spec(trend@)),
        forall|k: int| #![trigger trend@.take(k)]
            0 <= k <= trend@.len()
            && !trend@.take(k).contains(Ordering::Equal)
            && !trend@.take(k).contains(Ordering::Less)
            && !trend@.skip(k).contains(Ordering::Greater)
            && !trend@.skip(k).contains(Ordering::Equal)
            ==> (r is Narrow && r->Narrow_0 == (if k == 0 { 0 } else { k - 1 }) && r->Narrow_1 == (if k == trend@.len() { k } else { k + 1 })),
        forall|k: int| #![trigger trend@.take(k)]
            0 < k < trend@.len() - 1
            && trend@[k] == Ordering::Equal
            && !trend@.take(k).contains(Ordering::Equal)
            && !trend@.take(k).contains(Ordering::Less)
            && !trend@.skip(k + 1).contains(Ordering::Greater)
            && !trend@.skip(k + 1).contains(Ordering::Equal)
            ==> (r is Flat && r->Flat_0 == k && r->Flat_1 == k + 1),
        r == Bracket::NotUnimodal
            || (exists|k: int| #![trigger trend@.take(k)]
                0 <= k <= trend@.len()
            && !trend@.take(k).contains(Ordering::Equal)
            && !trend@.take(k).contains(Ordering::Less)
            && !trend@.skip(k).contains(Ordering::Greater)
            && !trend@.skip(k).contains(Ordering::Equal))
            || (exists|k: int| #![trigger trend@.take(k)]
                0 < k < trend@.len() - 1
            && trend@[k] == Ordering::Equal
            && !trend@.take(k).contains(Ordering::Equal)
            && !trend@.take(k).contains(Ordering::Less)
            && !trend@.skip(k + 1).contains(Ordering::Greater)
            && !trend@.skip(k + 1).contains(Ordering::Equal)),
        forall|ys: Seq<int>| #![trigger ys.len()]
            ys.len() == trend@.len() + 1
            && trend@.len() + 1 <= usize::MAX
            && (forall|i: int| 0 <= i < trend@.len() ==> trend@[i] == (if ys[i] < ys[i + 1] {
                Ordering::Less
            } else if ys[i] == ys[i + 1] {
                Ordering::Equal
            } else {
                Ordering::Greater
            }))
            ==> match r {
                Bracket::Narrow(lo, hi) => {
                    &&& lo <= hi <= trend@.len()
                    &&& hi - lo <= 2
                    &&& exists|m: int| #![trigger ys[m]] lo <= m <= hi && forall|j: int| 0 <= j < ys.len() ==> ys[m] <= #[trigger] ys[j]
                },
                Bracket::Flat(a, b) => {
                    &&& b == a + 1
                    &&& b <= trend@.len()
                    &&& exists|m: int| #![trigger ys[m]] m == a && ys[m] == ys[m + 1] && forall|j: int| 0 <= j < ys.len() ==> ys[m] <= #[trigger] ys[j]
                },
                Bracket::NotUnimodal => true,
            },
{
    let slopes: [Slope; N] = trend.map(slope_from_ordering);
    assert(slopes@ =~= slopes_spec(trend@));
    let r = bracket_of_slopes(slopes);
    proof {
        lemma_trend_narrow(trend@, r);
        lemma_trend_flat(trend@, r);
        lemma_trend_otherwise(trend@, r);
        assert forall|ys: Seq<int>| #![trigger ys.len()]
            ys.len() == trend@.len() + 1
            && trend@.len() + 1 <= usize::MAX
            && (forall|i: int| 0 <= i < trend@.len() ==> trend@[i] == (if ys[i] < ys[i + 1] {
                Ordering::Less
            } else if ys[i] == ys[i + 1] {
                Ordering::Equal
            } else {
                Ordering::Greater
            }))
            implies match r {
                Bracket::Narrow(lo, hi) => {
                    &&& lo <= hi <= trend@.len()
                    &&& hi - lo <= 2
                    &&& exists|m: int| #![trigger ys[m]] lo <= m <= hi && forall|j: int| 0 <= j < ys.len() ==> ys[m] <= #[trigger] ys[j]
                },
                Bracket::Flat(a, b) => {
                    &&& b == a + 1
                    &&& b <= trend@.len()
                    &&& exists|m: int| #![trigger ys[m]] m == a && ys[m] == ys[m + 1] && forall|j: int| 0 <= j < ys.len() ==> ys[m] <= #[trigger] ys[j]
                },
                Bracket::NotUnimodal => true,
            } by {
            lemma_trend_holds_minimum(trend@, r, ys);
        }
    }
    r
}

/// Slope `i` of a trend falls, is level or rises exactly when comparison `i`
/// is `Greater`, `Equal` or `Less`.
proof fn lemma_slopes_follow_trend(trend: Seq<Ordering>)
    ensures
        slopes_spec(trend).len() == trend.len(),
        forall|i: int| 0 <= i < trend.len() ==> {
            &&& (#[trigger] slopes_spec(trend)[i] == Slope::Falls) == (trend[i] == Ordering::Greater)
            &&& (slopes_spec(trend)[i] == Slope::Level) == (trend[i] == Ordering::Equal)
            &&& (slopes_spec(trend)[i] == Slope::Rises) == (trend[i] == Ordering::Less)
        },
{
    assert forall|i: int| 0 <= i < trend.len() implies {
        &&& (#[trigger] slopes_spec(trend)[i] == Slope::Falls) == (trend[i] == Ordering::Greater)
        &&& (slopes_spec(trend)[i] == Slope::Level) == (trend[i] == Ordering::Equal)
        &&& (slopes_spec(trend)[i] == Slope::Rises) == (trend[i] == Ordering::Less)
    } by {
        assert(slopes_spec(trend)[i] == slope_spec(trend[i]));
        match trend[i] {
            Ordering::Greater => {},
            Ordering::Equal => {},
            Ordering::Less => {},
        }
    }
}

/// A run of comparisons holds neither of two values exactly when each of its
/// comparisons is the third.
proof fn lemma_run_is(run: Seq<Ordering>, x: Ordering, y: Ordering, z: Ordering)
    requires
        x != y,
        x != z,
        y != z,
    ensures
        (!run.contains(y) && !run.contains(z)) == (forall|i: int| 0 <= i < run.len() ==> #[trigger] run[i] == x),
{
    if !run.contains(y) && !run.contains(z) {
        assert forall|i: int| 0 <= i < run.len() implies #[trigger] run[i] == x by {
            match run[i] {
                Ordering::Greater => {},
                Ordering::Equal => {},
                Ordering::Less => {},
            }
            assert(run[i] != y && run[i] != z);
        }
    }
    if forall|i: int| 0 <= i < run.len() ==> #[trigger] run[i] == x {
        assert(!run.contains(y));
        assert(!run.contains(z));
    }
}

/// The slopes fall before `k` and rise from `k` on exactly when the
/// comparisons before `k` are all `Greater` and those from `k` on all `Less`.
proof fn lemma_turning_point_of_trend(trend: Seq<Ordering>, k: int)
    requires
        0 <= k <= trend.len(),
    ensures
        falls_then_rises(slopes_spec(trend), k) == (
            !trend.take(k).contains(Ordering::Equal)
            && !trend.take(k).contains(Ordering::Less)
            && !trend.skip(k).contains(Ordering::Greater)
            && !trend.skip(k).contains(Ordering::Equal)
        ),
{
    let s = slopes_spec(trend);
    lemma_slopes_follow_trend(trend);
    lemma_run_is(trend.take(k), Ordering::Greater, Ordering::Equal, Ordering::Less);
    lemma_run_is(trend.skip(k), Ordering::Less, Ordering::Greater, Ordering::Equal);
    if forall|i: int| 0 <= i < trend.take(k).len() ==> #[trigger] trend.take(k)[i] == Ordering::Greater {
        assert forall|i: int| 0 <= i < k implies s[i] == Slope::Falls by {
            assert(trend.take(k)[i] == trend[i]);
        }
    }
    if forall|i: int| 0 <= i < trend.skip(k).len() ==> #[trigger] trend.skip(k)[i] == Ordering::Less {
        assert forall|i: int| k <= i < trend.len() implies s[i] == Slope::Rises by {
            assert(trend.skip(k)[i - k] == trend[i]);
        }
    }
    if falls_then_rises(s, k) {
        assert forall|i: int| 0 <= i < trend.take(k).len() implies #[trigger] trend.take(k)[i] == Ordering::Greater by {
            assert(s[i] == Slope::Falls);
        }
        assert forall|i: int| 0 <= i < trend.skip(k).len() implies #[trigger] trend.skip(k)[i] == Ordering::Less by {
            assert(s[i + k] == Slope::Rises);
        }
    }
}

/// The slopes have a level bottom at `k` exactly when `k` is an inner
/// position whose comparison is `Equal`, those before it all `Greater` and
/// those after it all `Less`.
proof fn lemma_flat_bottom_of_trend(trend: Seq<Ordering>, k: int)
    requires
        0 < k < trend.len() - 1,
    ensures
        flat_bottom(slopes_spec(trend), k) == (
            trend[k] == Ordering::Equal
            && !trend.take(k).contains(Ordering::Equal)
            && !trend.take(k).contains(Ordering::Less)
            && !trend.skip(k + 1).contains(Ordering::Greater)
            && !trend.skip(k + 1).contains(Ordering::Equal)
        ),
{
    let s = slopes_spec(trend);
    lemma_slopes_follow_trend(trend);
    lemma_run_is(trend.take(k), Ordering::Greater, Ordering::Equal, Ordering::Less);
    lemma_run_is(trend.skip(k + 1), Ordering::Less, Ordering::Greater, Ordering::Equal);
    assert((s[k] == Slope::Level) == (trend[k] == Ordering::Equal));
    if forall|i: int| 0 <= i < trend.take(k).len() ==> #[trigger] trend.take(k)[i] == Ordering::Greater {
        assert forall|i: int| 0 <= i < k implies s[i] == Slope::Falls by {
            assert(trend.take(k)[i] == trend[i]);
        }
    }
    if forall|i: int| 0 <= i < trend.skip(k + 1).len() ==> #[trigger] trend.skip(k + 1)[i] == Ordering::Less {
        assert forall|i: int| k < i < trend.len() implies s[i] == Slope::Rises by {
            assert(trend.skip(k + 1)[i - k - 1] == trend[i]);
        }
    }
    if flat_bottom(s, k) {
        assert forall|i: int| 0 <= i < trend.take(k).len() implies #[trigger] trend.take(k)[i] == Ordering::Greater by {
            assert(s[i] == Slope::Falls);
        }
        assert forall|i: int| 0 <= i < trend.skip(k + 1).len() implies #[trigger] trend.skip(k + 1)[i] == Ordering::Less by {
            assert(s[i + k + 1] == Slope::Rises);
        }
    }
}

/// Comparisons that are all `Greater` before `k` and all `Less` from `k` on
/// bracket point `k` with its neighbours.
proof fn lemma_trend_narrow(trend: Seq<Ordering>, r: Bracket)
    requires
        r == bracket_of(slopes_spec(trend)),
        trend.len() <= usize::MAX,
    ensures
        forall|k: int| #![trigger trend.take(k)]
            0 <= k <= trend.len()
            && !trend.take(k).contains(Ordering::Equal)
            && !trend.take(k).contains(Ordering::Less)
            && !trend.skip(k).contains(Ordering::Greater)
            && !trend.skip(k).contains(Ordering::Equal)
            ==> (r is Narrow && r->Narrow_0 == (if k == 0 { 0 } else { k - 1 }) && r->Narrow_1 == (if k == trend.len() { k } else { k + 1 })),
{
    assert forall|k: int| #![trigger trend.take(k)]
            0 <= k <= trend.len()
            && !trend.take(k).contains(Ordering::Equal)
            && !trend.take(k).contains(Ordering::Less)
            && !trend.skip(k).contains(Ordering::Greater)
            && !trend.skip(k).contains(Ordering::Equal)
            implies (r is Narrow && r->Narrow_0 == (if k == 0 { 0 } else { k - 1 }) && r->Narrow_1 == (if k == trend.len() { k } else { k + 1 })) by {
        lemma_turning_point_of_trend(trend, k);
        lemma_bracket_of_turning_point(slopes_spec(trend), k);
    }
}

/// Comparisons that are all `Greater` before an inner position `k`, `Equal`
/// at `k` and all `Less` after it give the level bracket `(k, k + 1)`.
proof fn lemma_trend_flat(trend: Seq<Ordering>, r: Bracket)
    requires
        r == bracket_of(slopes_spec(trend)),
        trend.len() <= usize::MAX,
    ensures
        forall|k: int| #![trigger trend.take(k)]
            0 < k < trend.len() - 1
            && trend[k] == Ordering::Equal
            && !trend.take(k).contains(Ordering::Equal)
            && !trend.take(k).contains(Ordering::Less)
            && !trend.skip(k + 1).contains(Ordering::Greater)
            && !trend.skip(k + 1).contains(Ordering::Equal)
            ==> (r is Flat && r->Flat_0 == k && r->Flat_1 == k + 1),
{
    assert forall|k: int| #![trigger trend.take(k)]
            0 < k < trend.len() - 1
            && trend[k] == Ordering::Equal
            && !trend.take(k).contains(Ordering::Equal)
            && !trend.take(k).contains(Ordering::Less)
            && !trend.skip(k + 1).contains(Ordering::Greater)
            && !trend.skip(k + 1).contains(Ordering::Equal)
            implies (r is Flat && r->Flat_0 == k && r->Flat_1 == k + 1) by {
        lemma_flat_bottom_of_trend(trend, k);
        lemma_bracket_of_flat_bottom(slopes_spec(trend), k);
    }
}

/// Any other trend is not unimodal.
proof fn lemma_trend_otherwise(trend: Seq<Ordering>, r: Bracket)
    requires
        r == bracket_of(slopes_spec(trend)),
    ensures
        r == Bracket::NotUnimodal
            || (exists|k: int| #![trigger trend.take(k)]
                0 <= k <= trend.len()
            && !trend.take(k).contains(Ordering::Equal)
            && !trend.take(k).contains(Ordering::Less)
            && !trend.skip(k).contains(Ordering::Greater)
            && !trend.skip(k).contains(Ordering::Equal))
            || (exists|k: int| #![trigger trend.take(k)]
                0 < k < trend.len() - 1
            && trend[k] == Ordering::Equal
            && !trend.take(k).contains(Ordering::Equal)
            && !trend.take(k).contains(Ordering::Less)
            && !trend.skip(k + 1).contains(Ordering::Greater)
            && !trend.skip(k + 1).contains(Ordering::Equal)),
{
    let s = slopes_spec(trend);
    if exists|k: int| falls_then_rises(s, k) {
        let k = choose|k: int| falls_then_rises(s, k);
        lemma_turning_point_of_trend(trend, k);
        assert(trend.take(k) == trend.take(k));
    } else if exists|k: int| flat_bottom(s, k) {
        let k = choose|k: int| flat_bottom(s, k);
        lemma_flat_bottom_of_trend(trend, k);
        assert(trend.take(k) == trend.take(k));
    }
}

/// Whatever values the comparisons came from, a bracket holds the smallest of
/// them.
proof fn lemma_trend_holds_minimum(trend: Seq<Ordering>, r: Bracket, ys: Seq<int>)
    requires
        r == bracket_of(slopes_spec(trend)),
        ys.len() == trend.len() + 1,
        trend.len() + 1 <= usize::MAX,
        (forall|i: int| 0 <= i < trend.len() ==> trend[i] == (if ys[i] < ys[i + 1] {
                Ordering::Less
            } else if ys[i] == ys[i + 1] {
                Ordering::Equal
            } else {
                Ordering::Greater
            })),
    ensures
        match r {
                Bracket::Narrow(lo, hi) => {
                    &&& lo <= hi <= trend.len()
                    &&& hi - lo <= 2
                    &&& exists|m: int| #![trigger ys[m]] lo <= m <= hi && forall|j: int| 0 <= j < ys.len() ==> ys[m] <= #[trigger] ys[j]
                },
                Bracket::Flat(a, b) => {
                    &&& b == a + 1
                    &&& b <= trend.len()
                    &&& exists|m: int| #![trigger ys[m]] m == a && ys[m] == ys[m + 1] && forall|j: int| 0 <= j < ys.len() ==> ys[m] <= #[trigger] ys[j]
                },
                Bracket::NotUnimodal => true,
            },
{
    let s = slopes_spec(trend);
    lemma_slopes_follow_trend(trend);
    assert(slopes_between(ys) =~= s);
    lemma_bracket_holds_minimum(ys);
    match r {
        Bracket::Narrow(lo, hi) => {
            let m = choose|m: int| lo <= m <= hi && #[trigger] least_at(ys, m);
            assert(least_at(ys, m));
            assert(ys[m] == ys[m]);
        },
        Bracket::Flat(a, b) => {
            assert(!exists|k: int| falls_then_rises(s, k));
            assert(exists|k: int| flat_bottom(s, k));
            let k = choose|k: int| flat_bottom(s, k);
            assert(a == k && b == k + 1);
            assert(least_at(ys, k));
            assert(ys[k] == ys[k + 1]);
        },
        Bracket::NotUnimodal => {},
    }
}

}
