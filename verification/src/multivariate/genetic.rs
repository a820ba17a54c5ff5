use vstd::prelude::*;

verus! {

broadcast use vstd::array::group_array_axioms;

/// A problem for the binary genetic algorithm: chromosomes are arrays of
/// bits, and the algorithm looks for one of largest fitness.
pub struct BinaryGAProblem<F> {
    /// Fitness function to maximize
    pub fitness_function: F,
}

/// `rand::random_range` draws a number from the range `lo..hi`, which must not
/// be empty; which number comes out is left to chance.
#[verifier::external_body]
fn random_index_in(lo: usize, hi: usize) -> (r: usize)
    requires
        lo < hi,
    ensures
        lo <= r < hi,
{
    rand::random_range(lo..hi)
}

/// `rand::random::<bool>()` draws a bit; which one is left to chance.
#[verifier::external_body]
fn random_bit() -> bool {
    rand::random::<bool>()
}

/// The two children of a single-point crossover of `p1` and `p2` at `split`:
/// the first takes the genes of `p1` before `split` and those of `p2` from
/// `split` on, the second the other way round.
pub open spec fn crossed<T>(p1: Seq<T>, p2: Seq<T>, split: int) -> (Seq<T>, Seq<T>) {
    (p1.take(split) + p2.skip(split), p2.take(split) + p1.skip(split))
}

/// The single-point crossover of `parent_1` and `parent_2` at
/// `crossover_split_point`.
pub fn crossover<const N: usize>(parent_1: &[bool; N], parent_2: &[bool; N], crossover_split_point: usize) -> (children: ([bool; N], [bool; N]))
    requires
        crossover_split_point <= N,
    ensures
        (children.0@, children.1@) == crossed(parent_1@, parent_2@, crossover_split_point as int),
{
    let s = crossover_split_point;
    let child_1: [bool; N] = core::array::from_fn(|j: usize| -> (g: bool)
        requires
            j < N,
        ensures
            g == if j < s { parent_1@[j as int] } else { parent_2@[j as int] },
        {
            if j < s { parent_1[j] } else { parent_2[j] }
        });
    let child_2: [bool; N] = core::array::from_fn(|j: usize| -> (g: bool)
        requires
            j < N,
        ensures
            g == if j < s { parent_2@[j as int] } else { parent_1@[j as int] },
        {
            if j < s { parent_2[j] } else { parent_1[j] }
        });
    assert(child_1@ =~= parent_1@.take(s as int) + parent_2@.skip(s as int));
    assert(child_2@ =~= parent_2@.take(s as int) + parent_1@.skip(s as int));
    (child_1, child_2)
}

/// The chromosome `individual` with the genes flipped where `mask` is set.
pub open spec fn flipped(individual: Seq<bool>, mask: Seq<bool>) -> Seq<bool> {
    Seq::new(individual.len(), |j: int| individual[j] != mask[j])
}

/// The bit-flip mutation of `individual`: each gene whose entry in `mask` is
/// set is flipped.
pub fn mutate<const N: usize>(individual: &[bool; N], mask: &[bool; N]) -> (r: [bool; N])
    ensures
        r@ == flipped(individual@, mask@),
{
    let r: [bool; N] = core::array::from_fn(|j: usize| -> (g: bool)
        requires
            j < N,
        ensures
            g == (individual@[j as int] != mask@[j as int]),
        {
            individual[j] != mask[j]
        });
    assert(r@ =~= flipped(individual@, mask@));
    r
}

/// `b` is a bit that a call of `random_bit` can return.
pub closed spec fn drawn_bit(b: bool) -> bool {
    call_ensures(random_bit, (), b)
}

/// A population of `POP_SIZE` chromosomes of `N` random genes each: every
/// gene is a bit drawn by its own call of `random_bit`.
pub fn random_population<const N: usize, const POP_SIZE: usize>() -> (r: [[bool; N]; POP_SIZE])
    ensures
        forall|i: int, j: int| 0 <= i < POP_SIZE && 0 <= j < N ==> drawn_bit(#[trigger] r@[i]@[j]),
{
    core::array::from_fn(|_i: usize| -> (row: [bool; N])
        ensures
            forall|j: int| 0 <= j < N ==> call_ensures(random_bit, (), #[trigger] row@[j]),
        {
            core::array::from_fn(|_j: usize| -> (g: bool)
                ensures
                    call_ensures(random_bit, (), g),
                {
                    random_bit()
                })
        })
}

/// `c` is the winner of a match between two members of `population`, where
/// the first wins when `first_is_fitter` says so.
pub open spec fn wins_a_match<const N: usize, const POP_SIZE: usize, F: Fn(&[bool; N], &[bool; N]) -> bool>(
    c: [bool; N],
    population: [[bool; N]; POP_SIZE],
    first_is_fitter: F,
) -> bool {
    exists|j1: int, j2: int, w: bool| {
        &&& 0 <= j1 < POP_SIZE
        &&& 0 <= j2 < POP_SIZE
        &&& first_is_fitter.ensures((&population@[j1], &population@[j2]), w)
        &&& c == if w { population@[j1] } else { population@[j2] }
    }
}

/// The winner of a match between members `j1` and `j2` of `population`: the
/// first when `first_is_fitter` says so, the second otherwise.
pub fn match_winner<const N: usize, const POP_SIZE: usize, F>(
    population: &[[bool; N]; POP_SIZE],
    j1: usize,
    j2: usize,
    first_is_fitter: &F,
) -> (c: [bool; N])
    where
        F: Fn(&[bool; N], &[bool; N]) -> bool,
    requires
        j1 < POP_SIZE,
        j2 < POP_SIZE,
        first_is_fitter.requires((&population@[j1 as int], &population@[j2 as int])),
    ensures
        exists|w: bool| {
            &&& first_is_fitter.ensures((&population@[j1 as int], &population@[j2 as int]), w)
            &&& c == if w { population@[j1 as int] } else { population@[j2 as int] }
        },
{
    let w = first_is_fitter(&population[j1], &population[j2]);
    if w {
        population[j1]
    } else {
        population[j2]
    }
}

/// `c` is the winner of the match between members `j1` and `j2` of
/// `population`: member `j1` when `first_is_fitter` says it is the fitter,
/// member `j2` otherwise.
pub open spec fn won_match<const N: usize, const POP_SIZE: usize, F: Fn(&[bool; N], &[bool; N]) -> bool>(
    c: [bool; N],
    population: [[bool; N]; POP_SIZE],
    first_is_fitter: F,
    j1: int,
    j2: int,
) -> bool {
    exists|w: bool| {
        &&& first_is_fitter.ensures((&population@[j1], &population@[j2]), w)
        &&& c == if w { population@[j1] } else { population@[j2] }
    }
}

/// The winner of a match is one of its two players, and the fitter one:
/// when `first_is_fitter` can only answer that member `j1` is the fitter, the
/// winner is member `j1`; when it can only answer that it is not, the winner
/// is member `j2`.
pub proof fn lemma_match_goes_to_the_fitter<const N: usize, const POP_SIZE: usize, F: Fn(&[bool; N], &[bool; N]) -> bool>(
    c: [bool; N],
    population: [[bool; N]; POP_SIZE],
    first_is_fitter: F,
    j1: int,
    j2: int,
)
    requires
        won_match(c, population, first_is_fitter, j1, j2),
    ensures
        c == population@[j1] || c == population@[j2],
        (forall|w: bool| #[trigger] first_is_fitter.ensures((&population@[j1], &population@[j2]), w) ==> w) ==> c == population@[j1],
        (forall|w: bool| #[trigger] first_is_fitter.ensures((&population@[j1], &population@[j2]), w) ==> !w) ==> c == population@[j2],
{
}

/// A member that wins a match of the tournament won a match between two
/// members of the population, in the sense of `lemma_match_goes_to_the_fitter`.
pub proof fn lemma_tournament_winner_won_a_match<const N: usize, const POP_SIZE: usize, F: Fn(&[bool; N], &[bool; N]) -> bool>(
    c: [bool; N],
    population: [[bool; N]; POP_SIZE],
    first_is_fitter: F,
)
    requires
        wins_a_match(c, population, first_is_fitter),
    ensures
        exists|j1: int, j2: int| 0 <= j1 < POP_SIZE && 0 <= j2 < POP_SIZE && #[trigger] won_match(c, population, first_is_fitter, j1, j2),
{
    let (j1, j2, w) = choose|j1: int, j2: int, w: bool| {
        &&& 0 <= j1 < POP_SIZE
        &&& 0 <= j2 < POP_SIZE
        &&& first_is_fitter.ensures((&population@[j1], &population@[j2]), w)
        &&& c == if w { population@[j1] } else { population@[j2] }
    };
    assert(won_match(c, population, first_is_fitter, j1, j2));
}

/// The mating pool of a tournament of size two with the given draws: member
/// `i` of the pool is the winner of the match between members `draws[i].0`
/// and `draws[i].1` of `population`, the first winning when
/// `first_is_fitter` says so.
pub fn tournament_from_draws<const N: usize, const POP_SIZE: usize, F>(
    population: &[[bool; N]; POP_SIZE],
    draws: &[(usize, usize); POP_SIZE],
    first_is_fitter: &F,
) -> (pool: [[bool; N]; POP_SIZE])
    where
        F: Fn(&[bool; N], &[bool; N]) -> bool,
    requires
        forall|i: int| 0 <= i < POP_SIZE ==> (#[trigger] draws@[i]).0 < POP_SIZE && draws@[i].1 < POP_SIZE,
        forall|a: &[bool; N], b: &[bool; N]| #[trigger] first_is_fitter.requires((a, b)),
    ensures
        forall|i: int| 0 <= i < POP_SIZE ==> won_match(#[trigger] pool@[i], *population, *first_is_fitter, draws@[i].0 as int, draws@[i].1 as int),
{
    let pool = core::array::from_fn(|i: usize| -> (c: [bool; N])
        requires
            i < POP_SIZE,
        ensures
            exists|w: bool| {
                &&& first_is_fitter.ensures((&population@[draws@[i as int].0 as int], &population@[draws@[i as int].1 as int]), w)
                &&& c == if w { population@[draws@[i as int].0 as int] } else { population@[draws@[i as int].1 as int] }
            },
        {
            let (j1, j2) = draws[i];
            match_winner(population, j1, j2, first_is_fitter)
        });
    assert forall|i: int| 0 <= i < POP_SIZE implies won_match(#[trigger] pool@[i], *population, *first_is_fitter, draws@[i].0 as int, draws@[i].1 as int) by {
        assert(pool@[i] == pool@[(i as usize) as int]);
    }
    pool
}

/// Tournament selection of size two: each member of the mating pool is the
/// winner of a match between two members of `population` drawn at random,
/// where the first wins when `first_is_fitter` says so.
pub fn tournament_selection<const N: usize, const POP_SIZE: usize, F>(population: &[[bool; N]; POP_SIZE], first_is_fitter: &F) -> (pool: [[bool; N]; POP_SIZE])
    where
        F: Fn(&[bool; N], &[bool; N]) -> bool,
    requires
        forall|a: &[bool; N], b: &[bool; N]| #[trigger] first_is_fitter.requires((a, b)),
    ensures
        forall|i: int| 0 <= i < POP_SIZE ==> wins_a_match(#[trigger] pool@[i], *population, *first_is_fitter),
{
    let draws: [(usize, usize); POP_SIZE] = core::array::from_fn(|i: usize| -> (d: (usize, usize))
        requires
            i < POP_SIZE,
        ensures
            d.0 < POP_SIZE && d.1 < POP_SIZE,
        {
            let candidate_idx_1 = random_index_in(0, POP_SIZE);
            let candidate_idx_2 = random_index_in(0, POP_SIZE);
            (candidate_idx_1, candidate_idx_2)
        });
    let pool = tournament_from_draws(population, &draws, first_is_fitter);
    assert forall|i: int| 0 <= i < POP_SIZE implies wins_a_match(#[trigger] pool@[i], *population, *first_is_fitter) by {
        let d = draws@[i];
        assert(won_match(pool@[i], *population, *first_is_fitter, d.0 as int, d.1 as int));
        let w = choose|w: bool| {
            &&& first_is_fitter.ensures((&population@[d.0 as int], &population@[d.1 as int]), w)
            &&& pool@[i] == if w { population@[d.0 as int] } else { population@[d.1 as int] }
        };
        assert(0 <= d.0 < POP_SIZE && 0 <= d.1 < POP_SIZE);
    }
    pool
}

/// Offspring `2k` and `2k + 1` are the children of a single-point crossover
/// of members `2k` and `2k + 1` of `pool`, at a split point strictly inside
/// the chromosome.
pub open spec fn is_crossover_of<const N: usize, const POP_SIZE: usize>(offspring: [[bool; N]; POP_SIZE], pool: [[bool; N]; POP_SIZE], k: int) -> bool {
    exists|s: int| 1 <= s < N && (offspring@[2 * k]@, offspring@[2 * k + 1]@) == #[trigger] crossed(pool@[2 * k]@, pool@[2 * k + 1]@, s)
}

/// Single-point crossover between adjacent members of the mating pool, each
/// pair at a split point drawn at random.
pub fn crossover_population<const N: usize, const POP_SIZE: usize>(mating_pool: &[[bool; N]; POP_SIZE]) -> (offspring: [[bool; N]; POP_SIZE])
    requires
        POP_SIZE % 2 == 0,
        POP_SIZE > 0 ==> N >= 2,
    ensures
        forall|k: int| 0 <= k < POP_SIZE / 2 ==> #[trigger] is_crossover_of(offspring, *mating_pool, k),
{
    let mut offspring = *mating_pool;
    let mut i: usize = 0;
    while i < POP_SIZE
        invariant
            POP_SIZE % 2 == 0,
            POP_SIZE > 0 ==> N >= 2,
            i % 2 == 0,
            i <= POP_SIZE,
            forall|k: int| 0 <= k < i / 2 ==> #[trigger] is_crossover_of(offspring, *mating_pool, k),
        decreases POP_SIZE - i,
    {
        let crossover_split_point = random_index_in(1, N);
        let (child_1, child_2) = crossover(&mating_pool[i], &mating_pool[i + 1], crossover_split_point);
        let ghost before = offspring;
        offspring[i] = child_1;
        offspring[i + 1] = child_2;
        assert forall|k: int| 0 <= k < (i + 2) / 2 implies #[trigger] is_crossover_of(offspring, *mating_pool, k) by {
            if k < i / 2 {
                assert(is_crossover_of(before, *mating_pool, k));
                assert(offspring@[2 * k] == before@[2 * k]);
                assert(offspring@[2 * k + 1] == before@[2 * k + 1]);
            } else {
                assert(2 * k == i);
                assert((offspring@[2 * k]@, offspring@[2 * k + 1]@) == crossed(mating_pool@[2 * k]@, mating_pool@[2 * k + 1]@, crossover_split_point as int));
            }
        }
        i += 2;
    }
    offspring
}

/// `after` is `before` with the genes flipped where some mask is set, each
/// entry of the mask being an answer of `flip`.
pub open spec fn mutated_by<const N: usize, F: Fn() -> bool>(after: [bool; N], before: [bool; N], flip: F) -> bool {
    exists|mask: [bool; N]| {
        &&& forall|j: int| 0 <= j < N ==> flip.ensures((), #[trigger] mask@[j])
        &&& after@ == flipped(before@, mask@)
    }
}

/// Bit-flip mutation of every member of `population`: each gene is flipped
/// when `flip`, asked once per gene, says so.
pub fn mutate_population<const N: usize, const POP_SIZE: usize, F>(population: &mut [[bool; N]; POP_SIZE], flip: &F)
    where
        F: Fn() -> bool,
    requires
        flip.requires(()),
    ensures
        forall|i: int| 0 <= i < POP_SIZE ==> mutated_by(#[trigger] final(population)@[i], old(population)@[i], *flip),
{
    let ghost start = *population;
    let mut i: usize = 0;
    while i < POP_SIZE
        invariant
            i <= POP_SIZE,
            flip.requires(()),
            forall|k: int| 0 <= k < i ==> mutated_by(#[trigger] population@[k], start@[k], *flip),
            forall|k: int| i <= k < POP_SIZE ==> #[trigger] population@[k] == start@[k],
        decreases POP_SIZE - i,
    {
        let mask: [bool; N] = core::array::from_fn(|_j: usize| -> (b: bool)
            ensures
                flip.ensures((), b),
            {
                flip()
            });
        let individual = mutate(&population[i], &mask);
        population[i] = individual;
        assert(mutated_by(population@[i as int], start@[i as int], *flip));
        i += 1;
    }
}


/// Crossing the two children again at the same point gives back the parents.
pub proof fn lemma_crossover_twice<T>(p1: Seq<T>, p2: Seq<T>, split: int)
    requires
        p1.len() == p2.len(),
        0 <= split <= p1.len(),
    ensures
        crossed(crossed(p1, p2, split).0, crossed(p1, p2, split).1, split) == (p1, p2),
{
    let (c1, c2) = crossed(p1, p2, split);
    assert(c1.take(split) + c2.skip(split) =~= p1);
    assert(c2.take(split) + c1.skip(split) =~= p2);
}

/// At every position, the two children hold the two genes of the parents, in
/// one order or the other.
pub proof fn lemma_crossover_keeps_genes<T>(p1: Seq<T>, p2: Seq<T>, split: int, j: int)
    requires
        p1.len() == p2.len(),
        0 <= split <= p1.len(),
        0 <= j < p1.len(),
    ensures
        ({
            let (c1, c2) = crossed(p1, p2, split);
            (c1[j] == p1[j] && c2[j] == p2[j]) || (c1[j] == p2[j] && c2[j] == p1[j])
        }),
{
    let (c1, c2) = crossed(p1, p2, split);
    if j < split {
        assert(c1[j] == p1.take(split)[j]);
        assert(c2[j] == p2.take(split)[j]);
    } else {
        assert(c1[j] == p2.skip(split)[j - split]);
        assert(c2[j] == p1.skip(split)[j - split]);
    }
}

/// Flipping the same genes twice gives back the chromosome.
pub proof fn lemma_mutate_twice(individual: Seq<bool>, mask: Seq<bool>)
    requires
        individual.len() == mask.len(),
    ensures
        flipped(flipped(individual, mask), mask) == individual,
{
    assert(flipped(flipped(individual, mask), mask) =~= individual);
}

}
