use vstd::prelude::*;

verus! {

/// The Fibonacci numbers: 0, 1, 1, 2, 3, 5, ...
pub open spec fn fib(n: nat) -> nat
    decreases n,
{
    if n < 2 {
        n
    } else {
        fib((n - 2) as nat) + fib((n - 1) as nat)
    }
}

/// Fibonacci numbers never decrease.
pub proof fn lemma_fib_monotonic(i: nat, j: nat)
    requires
        i <= j,
    ensures
        fib(i) <= fib(j),
    decreases j - i,
{
    if i < j {
        lemma_fib_monotonic(i, (j - 1) as nat);
        if j >= 2 {
            assert(fib(j) == fib((j - 2) as nat) + fib((j - 1) as nat));
        }
    }
}

/// From the third on, Fibonacci numbers strictly increase.
pub proof fn lemma_fib_increasing(i: nat)
    requires
        i >= 2,
    ensures
        fib(i) < fib(i + 1),
{
    lemma_fib_positive((i - 1) as nat);
    assert(fib(i + 1) == fib((i - 1) as nat) + fib(i));
}

/// Fibonacci numbers after the first are positive.
pub proof fn lemma_fib_positive(i: nat)
    requires
        i >= 1,
    ensures
        fib(i) >= 1,
    decreases i,
{
    reveal_with_fuel(fib, 3);
    if i >= 3 {
        lemma_fib_positive((i - 1) as nat);
    }
}

/// The `N` Fibonacci numbers 2, 3, 5, 8, ...: entry `i` is the sum of the two
/// before it, starting from two ones.
pub fn fibonacci_numbers<const N: usize>() -> (fibs: [usize; N])
    requires
        fib((N + 2) as nat) <= usize::MAX,
    ensures
        forall|i: int| 0 <= i < N ==> fibs@[i] == fib((i + 3) as nat),
{
    let mut fibs = [0usize; N];
    let mut prev: usize = 1;
    let mut pprev: usize = 1;
    let mut i: usize = 0;
    assert(fib(2) == 1) by {
        reveal_with_fuel(fib, 3);
    }
    while i < N
        invariant
            i <= N,
            fib((N + 2) as nat) <= usize::MAX,
            prev == fib((i + 2) as nat),
            pprev == fib((i + 1) as nat),
            forall|j: int| 0 <= j < i ==> fibs@[j] == fib((j + 3) as nat),
        decreases N - i,
    {
        proof {
            lemma_fib_monotonic((i + 3) as nat, (N + 2) as nat);
        }
        fibs[i] = prev + pprev;
        pprev = prev;
        prev = fibs[i];
        i += 1;
    }
    fibs
}

}
