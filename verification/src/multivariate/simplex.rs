use vstd::prelude::*;

verus! {

broadcast use vstd::string::group_string_axioms;

/// The simplex method, run until `stopping_condition` says to stop.
#[derive(Clone)]
pub struct Simplex<S> {
    stopping_condition: S,
}

impl<S> Simplex<S> {
    /// The simplex method with the given stopping condition.
    pub fn new(stopping_condition: S) -> (r: Self)
        ensures
            r.condition() == stopping_condition,
    {
        Self { stopping_condition }
    }

    /// The stopping condition of the method.
    pub closed spec fn condition(&self) -> S {
        self.stopping_condition
    }

    /// The stopping condition of the method.
    pub fn stopping_condition(&self) -> (r: &S)
        ensures
            *r == self.condition(),
    {
        &self.stopping_condition
    }
}

/// The first phase of the simplex method: the program with one artificial
/// variable added per constraint.
pub struct AugmentedLP;

/// The message of a basis that still holds an artificial variable.
pub const ARTIFICIAL_IN_BASIS: &'static str = "Artificial variable remains in basis; problem might be infeasible";

/// Every basis entry up to and including position `i` names a variable
/// of the problem (one numbered `c` or more, with `c` artificial variables first).
pub open spec fn problem_vars_up_to(idx_init: Seq<usize>, c: nat, i: int) -> bool {
    forall|j: int| 0 <= j <= i ==> idx_init[j] >= c
}

/// When the basis entries up to position `i` name variables of the problem, the
/// entry at `i` names one of the `v` variables of the problem, and `i` is a position
/// among them.
pub open spec fn fits_if_problem_var(idx_init: Seq<usize>, c: nat, v: nat, i: int) -> bool {
    problem_vars_up_to(idx_init, c, i) ==> i < v && idx_init[i] < c + v
}

/// Variable `v` (numbered among the variables of the problem) is in the basis.
pub open spec fn in_basis(idx_init: Seq<usize>, c: nat, v: int) -> bool {
    exists|i: int| 0 <= i < c && idx_init[i] - c == v
}

/// The variables numbered below `upto` that are not in the basis, in
/// increasing order.
pub open spec fn outside_basis(idx_init: Seq<usize>, c: nat, upto: nat) -> Seq<usize>
    decreases upto,
{
    if upto == 0 {
        Seq::empty()
    } else {
        let rest = outside_basis(idx_init, c, (upto - 1) as nat);
        if in_basis(idx_init, c, upto - 1) {
            rest
        } else {
            rest.push((upto - 1) as usize)
        }
    }
}

/// `p` lists each of `0..p.len()` once.
pub open spec fn is_permutation(p: Seq<usize>) -> bool {
    &&& forall|i: int| 0 <= i < p.len() ==> p[i] < p.len()
    &&& forall|i: int, j: int| 0 <= i < j < p.len() ==> p[i] != p[j]
}

/// The number of `true` entries in `s`.
pub open spec fn count_true(s: Seq<bool>) -> nat
    decreases s.len(),
{
    if s.len() == 0 {
        0
    } else {
        count_true(s.drop_last()) + if s.last() { 1nat } else { 0nat }
    }
}

proof fn lemma_count_true_bounded(s: Seq<bool>)
    ensures
        count_true(s) <= s.len(),
    decreases s.len(),
{
    if s.len() > 0 {
        lemma_count_true_bounded(s.drop_last());
    }
}

/// A sequence with no `true` entry counts none.
proof fn lemma_count_true_none(s: Seq<bool>)
    requires
        forall|i: int| 0 <= i < s.len() ==> !s[i],
    ensures
        count_true(s) == 0,
    decreases s.len(),
{
    if s.len() > 0 {
        lemma_count_true_none(s.drop_last());
    }
}

/// Setting a `false` entry to `true` adds one to the count.
proof fn lemma_count_true_set(s: Seq<bool>, k: int)
    requires
        0 <= k < s.len(),
        !s[k],
    ensures
        count_true(s.update(k, true)) == count_true(s) + 1,
    decreases s.len(),
{
    let t = s.update(k, true);
    if k == s.len() - 1 {
        assert(t.drop_last() =~= s.drop_last());
    } else {
        assert(t.drop_last() =~= s.drop_last().update(k, true));
        lemma_count_true_set(s.drop_last(), k);
    }
}

/// The `false` entries of a prefix are no more than those of a longer prefix.
proof fn lemma_count_false_grows(s: Seq<bool>, a: int, b: int)
    requires
        0 <= a <= b <= s.len(),
    ensures
        a - count_true(s.take(a)) <= b - count_true(s.take(b)),
    decreases b - a,
{
    if a < b {
        lemma_count_false_grows(s, a, b - 1);
        assert(s.take(b).drop_last() =~= s.take(b - 1));
    }
}

/// The order of the variables for the second phase of the simplex method,
/// from the basis `idx_init` that the first phase ends with: the variables of
/// the basis first, in basis order, then the other variables in increasing
/// order. Variables are numbered with the `C` artificial variables first, so
/// a basis entry below `C` is an artificial variable left in the basis, which
/// is an error.
pub fn basis_permutation<const V: usize, const C: usize>(idx_init: &[usize; C]) -> (r: Result<[usize; V], String>)
    requires
        forall|i: int| 0 <= i < C ==> #[trigger] fits_if_problem_var(idx_init@, C as nat, V as nat, i),
        problem_vars_up_to(idx_init@, C as nat, C - 1) ==> forall|i: int, j: int| 0 <= i < j < C ==> idx_init@[i] != idx_init@[j],
    ensures
        r is Err <==> exists|i: int| 0 <= i < C && idx_init@[i] < C,
        r matches Err(e) ==> e@ == ARTIFICIAL_IN_BASIS@,
        r matches Ok(p) ==> {
            &&& is_permutation(p@)
            &&& forall|i: int| 0 <= i < C ==> p@[i] == idx_init@[i] - C
            &&& p@.subrange(C as int, V as int) == outside_basis(idx_init@, C as nat, V as nat)
            &&& forall|a: int, b: int| C <= a < b < V ==> p@[a] < p@[b]
        },
{
    let mut perm = [0usize; V];
    let mut used = [false; V];
    let mut i: usize = 0;
    proof {
        lemma_count_true_none(used@);
    }
    while i < C
        invariant
            i <= C,
            i <= V,
            forall|j: int| 0 <= j < i ==> idx_init@[j] >= C,
            forall|j: int| 0 <= j < C ==> #[trigger] fits_if_problem_var(idx_init@, C as nat, V as nat, j),
            problem_vars_up_to(idx_init@, C as nat, C - 1) ==> forall|a: int, b: int| 0 <= a < b < C ==> idx_init@[a] != idx_init@[b],
            forall|j: int| 0 <= j < i ==> perm@[j] == idx_init@[j] - C,
            forall|w: int| 0 <= w < V ==> (used@[w] <==> exists|j: int| 0 <= j < i && idx_init@[j] - C == w),
            problem_vars_up_to(idx_init@, C as nat, C - 1) ==> count_true(used@) == i,
        decreases C - i,
    {
        if idx_init[i] < C {
            return Err(ARTIFICIAL_IN_BASIS.to_string());
        }
        assert(problem_vars_up_to(idx_init@, C as nat, i as int));
        assert(fits_if_problem_var(idx_init@, C as nat, V as nat, i as int));
        let orig_idx = idx_init[i] - C;
        proof {
            if problem_vars_up_to(idx_init@, C as nat, C - 1) {
                assert(!used@[orig_idx as int]) by {
                    if used@[orig_idx as int] {
                        let j = choose|j: int| 0 <= j < i && idx_init@[j] - C == orig_idx;
                        assert(idx_init@[j] != idx_init@[i as int]);
                    }
                }
                lemma_count_true_set(used@, orig_idx as int);
            }
        }
        perm[i] = orig_idx;
        used[orig_idx] = true;
        i += 1;
    }
    assert(problem_vars_up_to(idx_init@, C as nat, C - 1));
    assert(forall|w: int| 0 <= w < V ==> (used@[w] <==> in_basis(idx_init@, C as nat, w)));
    assert(used@.take(V as int) =~= used@);
    let mut fill: usize = C;
    let mut v: usize = 0;
    while v < V
        invariant
            v <= V,
            C <= fill,
            fill == C + v - count_true(used@.take(v as int)),
            count_true(used@) == C,
            used@.take(V as int) == used@,
            forall|j: int| 0 <= j < C ==> perm@[j] == idx_init@[j] - C,
            forall|w: int| 0 <= w < V ==> (used@[w] <==> in_basis(idx_init@, C as nat, w)),
            forall|a: int| C <= a < fill ==> perm@[a] < v && !used@[perm@[a] as int],
            forall|a: int, b: int| C <= a < b < fill ==> perm@[a] < perm@[b],
            perm@.subrange(C as int, fill as int) == outside_basis(idx_init@, C as nat, v as nat),
            forall|w: int| 0 <= w < v && !used@[w] ==> exists|a: int| C <= a < fill && perm@[a] == w,
        decreases V - v,
    {
        assert(used@.take(v + 1).drop_last() =~= used@.take(v as int));
        let ghost prefix = perm@.subrange(C as int, fill as int);
        if !used[v] {
            proof {
                lemma_count_false_grows(used@, v + 1, V as int);
            }
            let ghost old_fill = fill as int;
            let ghost before = perm@;
            perm[fill] = v;
            fill += 1;
            assert forall|w: int| 0 <= w <= v && !used@[w] implies exists|a: int| C <= a < fill && perm@[a] == w by {
                if w < v {
                    let a = choose|a: int| C <= a < old_fill && before[a] == w;
                    assert(perm@[a] == w);
                } else {
                    assert(perm@[old_fill] == w);
                }
            }
            assert(perm@.subrange(C as int, fill as int) =~= prefix.push(v));
        } else {
            assert(in_basis(idx_init@, C as nat, v as int));
        }
        v += 1;
    }
    proof {
        lemma_count_true_bounded(used@);
        let p = perm@;
        assert forall|a: int| 0 <= a < V implies p[a] < V by {
            if a < C {
                assert(problem_vars_up_to(idx_init@, C as nat, a));
                assert(fits_if_problem_var(idx_init@, C as nat, V as nat, a));
            }
        }
        assert forall|a: int, b: int| 0 <= a < b < V implies p[a] != p[b] by {
            if b < C {
                assert(idx_init@[a] != idx_init@[b]);
            } else if a < C {
                assert(used@[p[a] as int]);
            }
        }
    }
    Ok(perm)
}

}
