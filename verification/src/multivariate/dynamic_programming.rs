use vstd::prelude::*;

verus! {

/// Dynamic programming for the 0-1 knapsack problem.
pub struct DynamicProgramming;

/// The total weight of the chosen items numbered `from` or more.
pub open spec fn chosen_weight(weights: Seq<usize>, choices: Seq<bool>, from: int) -> int
    decreases weights.len() - from,
{
    if from < 0 || from >= weights.len() {
        0
    } else {
        chosen_weight(weights, choices, from + 1) + if choices[from] { weights[from] as int } else { 0 }
    }
}

/// `item_taken`, asked with stage `k + 1` and the capacity that the chosen
/// items after item `k` leave, answers whether item `k` is chosen.
pub open spec fn decided_by<F: Fn(usize, usize) -> bool>(item_taken: F, weights: Seq<usize>, choices: Seq<bool>, capacity: int, k: int) -> bool {
    item_taken.ensures(((k + 1) as usize, (capacity - chosen_weight(weights, choices, k + 1)) as usize), choices[k])
}

/// The items of a filled knapsack table, recovered from the last item back:
/// item `k` is taken when `item_taken`, asked with the stage `k + 1` and the
/// capacity left by the items after it, says so. The chosen items fit in the
/// knapsack.
pub fn knapsack_choices<const N: usize, F>(item_weights: &[usize; N], knapsack_capacity: usize, item_taken: &F) -> (choices: [bool; N])
    where
        F: Fn(usize, usize) -> bool,
    requires
        forall|stage: usize, capacity: usize| #[trigger] item_taken.requires((stage, capacity)),
        forall|stage: usize, capacity: usize| 1 <= stage <= N && #[trigger] item_taken.ensures((stage, capacity), true)
            ==> item_weights@[stage - 1] <= capacity,
    ensures
        forall|k: int| 0 <= k < N ==> #[trigger] decided_by(*item_taken, item_weights@, choices@, knapsack_capacity as int, k),
        0 <= chosen_weight(item_weights@, choices@, 0) <= knapsack_capacity,
        forall|k: int| 0 <= k < N ==> item_taken.ensures(
            ((k + 1) as usize, (knapsack_capacity - chosen_weight(item_weights@, choices@, k + 1)) as usize),
            #[trigger] choices@[k],
        ),
{
    let mut choices = [false; N];
    let mut remaining_capacity = knapsack_capacity;
    let mut stage = N;
    while stage > 0
        invariant
            stage <= N,
            forall|s: usize, c: usize| #[trigger] item_taken.requires((s, c)),
            forall|s: usize, c: usize| 1 <= s <= N && #[trigger] item_taken.ensures((s, c), true) ==> item_weights@[s - 1] <= c,
            forall|k: int| 0 <= k < stage ==> !choices@[k],
            0 <= chosen_weight(item_weights@, choices@, stage as int) <= knapsack_capacity,
            remaining_capacity == knapsack_capacity - chosen_weight(item_weights@, choices@, stage as int),
            forall|k: int| stage <= k < N ==> #[trigger] decided_by(*item_taken, item_weights@, choices@, knapsack_capacity as int, k),
        decreases stage,
    {
        let k = stage - 1;
        let taken = item_taken(stage, remaining_capacity);
        let ghost before = choices@;
        if taken {
            choices[k] = true;
            remaining_capacity = remaining_capacity - item_weights[k];
        }
        proof {
            lemma_chosen_weight_unchanged_above(item_weights@, before, choices@, k as int);
            assert(chosen_weight(item_weights@, choices@, k + 1) == chosen_weight(item_weights@, before, k + 1));
            assert(decided_by(*item_taken, item_weights@, choices@, knapsack_capacity as int, k as int));
            assert forall|j: int| stage <= j < N implies #[trigger] decided_by(*item_taken, item_weights@, choices@, knapsack_capacity as int, j) by {
                assert(decided_by(*item_taken, item_weights@, before, knapsack_capacity as int, j));
                assert(chosen_weight(item_weights@, choices@, j + 1) == chosen_weight(item_weights@, before, j + 1));
                assert(choices@[j] == before[j]);
            }
        }
        stage = k;
    }
    assert forall|k: int| 0 <= k < N implies item_taken.ensures(
        ((k + 1) as usize, (knapsack_capacity - chosen_weight(item_weights@, choices@, k + 1)) as usize),
        #[trigger] choices@[k],
    ) by {
        assert(decided_by(*item_taken, item_weights@, choices@, knapsack_capacity as int, k));
    }
    choices
}

/// The chosen weight from item `from` on adds up the weights of the chosen
/// items: nothing past the last item, and from an item on, its own weight when
/// it is chosen plus the chosen weight after it.
pub proof fn lemma_chosen_weight_adds_up(weights: Seq<usize>, choices: Seq<bool>, from: int)
    requires
        0 <= from <= weights.len(),
    ensures
        from == weights.len() ==> chosen_weight(weights, choices, from) == 0,
        from < weights.len() ==> chosen_weight(weights, choices, from)
            == (if choices[from] { weights[from] as int } else { 0 }) + chosen_weight(weights, choices, from + 1),
        chosen_weight(weights, choices, from) >= 0,
    decreases weights.len() - from,
{
    if from < weights.len() {
        lemma_chosen_weight_adds_up(weights, choices, from + 1);
    }
}

/// Changing the choice of item `k` leaves the weight of the items after it.
proof fn lemma_chosen_weight_unchanged_above(weights: Seq<usize>, a: Seq<bool>, b: Seq<bool>, k: int)
    requires
        0 <= k,
        a.len() == weights.len(),
        b.len() == weights.len(),
        forall|j: int| 0 <= j < weights.len() && j != k ==> a[j] == b[j],
    ensures
        forall|from: int| from > k ==> chosen_weight(weights, a, from) == chosen_weight(weights, b, from),
{
    assert forall|from: int| from > k implies chosen_weight(weights, a, from) == chosen_weight(weights, b, from) by {
        lemma_chosen_weight_same_from(weights, a, b, from);
    }
}

/// Choices that agree from `from` on give the same weight from `from` on.
proof fn lemma_chosen_weight_same_from(weights: Seq<usize>, a: Seq<bool>, b: Seq<bool>, from: int)
    requires
        0 <= from,
        forall|j: int| from <= j < weights.len() ==> a[j] == b[j],
    ensures
        chosen_weight(weights, a, from) == chosen_weight(weights, b, from),
    decreases weights.len() - from,
{
    if from < weights.len() {
        lemma_chosen_weight_same_from(weights, a, b, from + 1);
    }
}

}
