use vstd::prelude::*;

verus! {

/// How the value at one sample point compares with the value at the next.
#[derive(Debug, Clone, Copy, PartialEq, Eq, Structural)]
pub enum Slope {
    /// The next value is smaller.
    Falls,
    /// The next value is the same.
    Level,
    /// The next value is larger.
    Rises,
}

/// What a bracketing method learns from the slopes of its sampled values.
///
/// The points of one round are numbered from left to right; slope `i` goes
/// from point `i` to point `i + 1`.
#[derive(Debug, Clone, Copy, PartialEq, Eq, Structural)]
pub enum Bracket {
    /// The values fall up to some point and rise after it: the minimum lies
    /// between points `.0` and `.1`.
    Narrow(usize, usize),
    /// The values fall up to point `.0`, are equal at points `.0` and `.1`,
    /// and rise after: the minimum lies between these two points.
    Flat(usize, usize),
    /// The values do not fall and then rise.
    NotUnimodal,
}

/// The slopes fall before position `k` and rise from position `k` on.
pub open spec fn falls_then_rises(slopes: Seq<Slope>, k: int) -> bool {
    &&& 0 <= k <= slopes.len()
    &&& forall|i: int| 0 <= i < k ==> slopes[i] == Slope::Falls
    &&& forall|i: int| k <= i < slopes.len() ==> slopes[i] == Slope::Rises
}

/// The slopes fall before position `k`, are level at `k` and rise after it,
/// with `k` neither the first nor the last position.
pub open spec fn flat_bottom(slopes: Seq<Slope>, k: int) -> bool {
    &&& 0 < k < slopes.len() - 1
    &&& slopes[k] == Slope::Level
    &&& forall|i: int| 0 <= i < k ==> slopes[i] == Slope::Falls
    &&& forall|i: int| k < i < slopes.len() ==> slopes[i] == Slope::Rises
}

/// The bracket that a sequence of slopes calls for: around the turning point
/// when the values fall and then rise, on the level step when they fall, stay
/// level once between two inner points, and rise; none otherwise.
pub open spec fn bracket_of(slopes: Seq<Slope>) -> Bracket {
    if exists|k: int| falls_then_rises(slopes, k) {
        let k = choose|k: int| falls_then_rises(slopes, k);
        Bracket::Narrow(
            (if k == 0 { 0 } else { k - 1 }) as usize,
            (if k == slopes.len() { k } else { k + 1 }) as usize,
        )
    } else if exists|k: int| flat_bottom(slopes, k) {
        let k = choose|k: int| flat_bottom(slopes, k);
        Bracket::Flat(k as usize, (k + 1) as usize)
    } else {
        Bracket::NotUnimodal
    }
}

/// Slopes fall and then rise around one turning position only.
pub proof fn lemma_turning_point_unique(slopes: Seq<Slope>, k1: int, k2: int)
    requires
        falls_then_rises(slopes, k1),
        falls_then_rises(slopes, k2),
    ensures
        k1 == k2,
{
    if k1 < k2 {
        assert(slopes[k1] == Slope::Falls);
    } else if k2 < k1 {
        assert(slopes[k2] == Slope::Falls);
    }
}

/// Slopes have one level bottom at most, and not together with a turning
/// position.
pub proof fn lemma_flat_bottom_unique(slopes: Seq<Slope>, k1: int, k2: int)
    requires
        flat_bottom(slopes, k1),
    ensures
        flat_bottom(slopes, k2) ==> k1 == k2,
        !falls_then_rises(slopes, k2),
{
    if flat_bottom(slopes, k2) && k1 != k2 {
        if k1 < k2 {
            assert(slopes[k1] == Slope::Falls);
        } else {
            assert(slopes[k2] == Slope::Falls);
        }
    }
    if falls_then_rises(slopes, k2) {
        if k2 <= k1 {
            assert(slopes[k1] == Slope::Rises);
        } else {
            assert(slopes[k1] == Slope::Falls);
        }
    }
}

/// The bracket of slopes that fall before position `k` and rise from it on:
/// the points on either side of point `k`.
pub proof fn lemma_bracket_of_turning_point(slopes: Seq<Slope>, k: int)
    requires
        falls_then_rises(slopes, k),
        slopes.len() <= usize::MAX,
    ensures
        bracket_of(slopes) == Bracket::Narrow(
            (if k == 0 { 0 } else { k - 1 }) as usize,
            (if k == slopes.len() { k } else { k + 1 }) as usize,
        ),
{
    let c = choose|c: int| falls_then_rises(slopes, c);
    lemma_turning_point_unique(slopes, c, k);
}

/// The bracket of slopes with a level bottom at position `k`: points `k` and
/// `k + 1`.
pub proof fn lemma_bracket_of_flat_bottom(slopes: Seq<Slope>, k: int)
    requires
        flat_bottom(slopes, k),
        slopes.len() <= usize::MAX,
    ensures
        bracket_of(slopes) == Bracket::Flat(k as usize, (k + 1) as usize),
{
    assert forall|j: int| !falls_then_rises(slopes, j) by {
        lemma_flat_bottom_unique(slopes, k, j);
    }
    let c = choose|c: int| flat_bottom(slopes, c);
    lemma_flat_bottom_unique(slopes, k, c);
}

/// Whether every slope from position `from` on rises.
fn rises_from<const N: usize>(slopes: &[Slope; N], from: usize) -> (b: bool)
    requires
        from <= N,
    ensures
        b <==> forall|i: int| from <= i < N ==> slopes@[i] == Slope::Rises,
{
    let mut i = from;
    while i < N
        invariant
            from <= i <= N,
            forall|j: int| from <= j < i ==> slopes@[j] == Slope::Rises,
        decreases N - i,
    {
        if slopes[i] != Slope::Rises {
            return false;
        }
        i += 1;
    }
    true
}

/// The bracket for the slopes of one round of samples.
pub fn bracket_of_slopes<const N: usize>(slopes: [Slope; N]) -> (r: Bracket)
    ensures
        r == bracket_of(slopes@),
{
    let ghost s = slopes@;
    let mut k: usize = 0;
    while k < N
        invariant
            k <= N,
            s == slopes@,
            forall|i: int| 0 <= i < k ==> s[i] == Slope::Falls,
        ensures
            k <= N,
            forall|i: int| 0 <= i < k ==> s[i] == Slope::Falls,
            k < N ==> s[k as int] != Slope::Falls,
        decreases N - k,
    {
        if slopes[k] != Slope::Falls {
            break;
        }
        k += 1;
    }
    let ghost kk = k as int;
    if k < N && slopes[k] == Slope::Level {
        let rest = rises_from(&slopes, k + 1);
        assert forall|j: int| !falls_then_rises(s, j) by {
            if falls_then_rises(s, j) {
                if j <= kk {
                    assert(s[kk] == Slope::Rises);
                } else {
                    assert(s[kk] == Slope::Falls);
                }
            }
        }
        if rest && 0 < k && k + 1 < N {
            assert(flat_bottom(s, kk));
            assert forall|j: int| #[trigger] flat_bottom(s, j) implies j == kk by {
                if j < kk {
                    assert(s[j] == Slope::Falls);
                } else if j > kk {
                    assert(s[kk] == Slope::Falls);
                }
            }
            Bracket::Flat(k, k + 1)
        } else {
            assert forall|j: int| !flat_bottom(s, j) by {
                if flat_bottom(s, j) {
                    if j < kk {
                        assert(s[j] == Slope::Falls);
                    } else if j > kk {
                        assert(s[kk] == Slope::Falls);
                    } else if !rest {
                        let i = choose|i: int| kk + 1 <= i < N && s[i] != Slope::Rises;
                        assert(s[i] == Slope::Rises);
                    }
                }
            }
            Bracket::NotUnimodal
        }
    } else {
        let rest = rises_from(&slopes, k);
        assert forall|j: int| !flat_bottom(s, j) by {
            if flat_bottom(s, j) {
                if j < kk {
                    assert(s[j] == Slope::Falls);
                } else if j > kk {
                    assert(s[kk] == Slope::Falls);
                }
            }
        }
        if rest {
            assert(falls_then_rises(s, kk));
            assert forall|j: int| #[trigger] falls_then_rises(s, j) implies j == kk by {
                if j < kk {
                    assert(s[j] == Slope::Falls);
                } else if j > kk {
                    assert(s[kk] == Slope::Falls);
                }
            }
            let lo = if k == 0 { 0 } else { k - 1 };
            let hi = if k == N { k } else { k + 1 };
            Bracket::Narrow(lo, hi)
        } else {
            assert forall|j: int| !falls_then_rises(s, j) by {
                if falls_then_rises(s, j) {
                    if j < kk {
                        assert(s[j] == Slope::Falls);
                    } else if j > kk {
                        assert(s[kk] == Slope::Falls);
                    } else {
                        let i = choose|i: int| kk <= i < N && s[i] != Slope::Rises;
                        assert(s[i] == Slope::Rises);
                    }
                }
            }
            Bracket::NotUnimodal
        }
    }
}

/// Which sampled values the dichotomy method keeps for its next round of five
/// points over the bracket from point `lo` to point `hi`: entry `p` is the old
/// point whose value the new point `p` shares, if any. The ends keep theirs,
/// and the middle keeps the value of the old middle point when the bracket
/// spans two gaps.
pub fn dichotomy_carry(lo: usize, hi: usize) -> (r: [Option<usize>; 5])
    requires
        lo < hi <= 4,
        hi - lo <= 2,
    ensures
        r@ == seq![Some(lo), None, if hi - lo == 2 { Some((lo + 1) as usize) } else { None }, None, Some(hi)],
{
    let middle = if hi - lo == 2 { Some(lo + 1) } else { None };
    let r = [Some(lo), None, middle, None, Some(hi)];
    assert(r@ =~= seq![Some(lo), None, middle, None, Some(hi)]);
    r
}

/// Which sampled values the golden section and Fibonacci methods keep for
/// their next round of four points over the bracket from point `lo` to point
/// `hi`: entry `p` is the old point whose value the new point `p` shares, if
/// any. The ends keep theirs; over two gaps, the inner old point becomes the
/// new inner point on its side.
pub fn golden_carry(lo: usize, hi: usize) -> (r: [Option<usize>; 4])
    requires
        lo < hi <= 3,
        hi - lo <= 2,
    ensures
        r@ == seq![
            Some(lo),
            if hi - lo == 2 && lo == 1 { Some(2usize) } else { None },
            if hi - lo == 2 && lo == 0 { Some(1usize) } else { None },
            Some(hi),
        ],
{
    let first = if hi - lo == 2 && lo == 1 { Some(2) } else { None };
    let second = if hi - lo == 2 && lo == 0 { Some(1) } else { None };
    let r = [Some(lo), first, second, Some(hi)];
    assert(r@ =~= seq![Some(lo), first, second, Some(hi)]);
    r
}

/// The slope from value `a` to value `b`.
pub open spec fn slope_between(a: int, b: int) -> Slope {
    if a > b {
        Slope::Falls
    } else if a == b {
        Slope::Level
    } else {
        Slope::Rises
    }
}

/// The slopes between consecutive values of `ys`.
pub open spec fn slopes_between(ys: Seq<int>) -> Seq<Slope> {
    Seq::new((ys.len() - 1) as nat, |i: int| slope_between(ys[i], ys[i + 1]))
}

/// No value of `ys` is smaller than the one at position `m`.
pub open spec fn least_at(ys: Seq<int>, m: int) -> bool {
    &&& 0 <= m < ys.len()
    &&& forall|j: int| 0 <= j < ys.len() ==> ys[m] <= #[trigger] ys[j]
}

/// Values whose slopes all fall from `j` to `k` decrease from `j` to `k`.
proof fn lemma_falling_run(ys: Seq<int>, j: int, k: int)
    requires
        0 <= j < k < ys.len(),
        forall|i: int| j <= i < k ==> slopes_between(ys)[i] == Slope::Falls,
    ensures
        ys[j] > ys[k],
    decreases k - j,
{
    assert(slopes_between(ys)[j] == Slope::Falls);
    if j + 1 < k {
        lemma_falling_run(ys, j + 1, k);
    }
}

/// Values whose slopes all rise from `j` to `k` increase from `j` to `k`.
proof fn lemma_rising_run(ys: Seq<int>, j: int, k: int)
    requires
        0 <= j < k < ys.len(),
        forall|i: int| j <= i < k ==> slopes_between(ys)[i] == Slope::Rises,
    ensures
        ys[j] < ys[k],
    decreases k - j,
{
    assert(slopes_between(ys)[k - 1] == Slope::Rises);
    if j < k - 1 {
        lemma_rising_run(ys, j, k - 1);
    }
}

/// A bracket keeps the minimum: when the sampled values narrow to a bracket,
/// the smallest of them lies within it, and the bracket spans at most two
/// gaps between sample points; a level bracket holds two equal smallest
/// values.
pub proof fn lemma_bracket_holds_minimum(ys: Seq<int>)
    requires
        1 <= ys.len() <= usize::MAX,
    ensures
        match bracket_of(slopes_between(ys)) {
            Bracket::Narrow(lo, hi) => {
                &&& lo <= hi < ys.len()
                &&& hi - lo <= 2
                &&& exists|m: int| lo <= m <= hi && #[trigger] least_at(ys, m)
            },
            Bracket::Flat(a, b) => {
                &&& a < b < ys.len()
                &&& ys[a as int] == ys[b as int]
                &&& least_at(ys, a as int)
            },
            Bracket::NotUnimodal => true,
        },
{
    let s = slopes_between(ys);
    if exists|k: int| falls_then_rises(s, k) {
        let k = choose|k: int| falls_then_rises(s, k);
        assert forall|j: int| 0 <= j < ys.len() implies ys[k] <= #[trigger] ys[j] by {
            if j < k {
                lemma_falling_run(ys, j, k);
            } else if j > k {
                lemma_rising_run(ys, k, j);
            }
        }
        assert(least_at(ys, k));
    } else if exists|k: int| flat_bottom(s, k) {
        let k = choose|k: int| flat_bottom(s, k);
        assert(s[k] == Slope::Level);
        assert forall|j: int| 0 <= j < ys.len() implies ys[k] <= #[trigger] ys[j] by {
            if j < k {
                lemma_falling_run(ys, j, k);
            } else if j > k + 1 {
                lemma_rising_run(ys, k + 1, j);
            }
        }
    }
}

}
