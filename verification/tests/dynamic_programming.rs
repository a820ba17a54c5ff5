use optimization::multivariate::dynamic_programming::knapsack_choices;

/// The best values of the 0-1 knapsack for the first items and each capacity.
fn table(values: &[u32], weights: &[usize], capacity: usize) -> Vec<Vec<u32>> {
    let mut t = vec![vec![0; capacity + 1]; values.len() + 1];
    for k in 0..values.len() {
        for c in 0..=capacity {
            t[k + 1][c] = t[k][c];
            if weights[k] <= c {
                t[k + 1][c] = t[k + 1][c].max(t[k][c - weights[k]] + values[k]);
            }
        }
    }
    t
}

#[test]
fn backtracking_recovers_the_best_items() {
    let values = [60, 100, 120];
    let weights = [1usize, 2, 3];
    let t = table(&values, &weights, 5);
    let taken = |stage: usize, cap: usize| t[stage][cap] != t[stage - 1][cap];
    let choices = knapsack_choices(&weights, 5, &taken);
    assert_eq!(choices, [false, true, true]);
    let weight: usize = (0..3).filter(|&k| choices[k]).map(|k| weights[k]).sum();
    assert!(weight <= 5);
}

#[test]
fn nothing_taken_when_nothing_fits() {
    let weights = [4usize, 5];
    let t = table(&[3, 7], &weights, 3);
    let taken = |stage: usize, cap: usize| t[stage][cap] != t[stage - 1][cap];
    assert_eq!(knapsack_choices(&weights, 3, &taken), [false, false]);
    assert_eq!(knapsack_choices::<0, _>(&[], 10, &|_: usize, _: usize| true), []);
}

#[test]
fn capacity_left_goes_down_with_each_item() {
    let weights = [2usize, 3, 4];
    let mut asked = Vec::new();
    let cell = std::cell::RefCell::new(&mut asked);
    let taken = |stage: usize, cap: usize| {
        cell.borrow_mut().push((stage, cap));
        stage != 2
    };
    let choices = knapsack_choices(&weights, 10, &taken);
    assert_eq!(choices, [true, false, true]);
    assert_eq!(asked, vec![(3, 10), (2, 6), (1, 6)]);
}
