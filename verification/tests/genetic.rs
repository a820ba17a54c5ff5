use optimization::multivariate::genetic::{
    crossover, crossover_population, mutate, mutate_population, random_population, tournament_selection,
    BinaryGAProblem,
};

#[test]
fn crossover_swaps_the_tails() {
    let p1 = [true, true, true, true];
    let p2 = [false, false, false, false];
    let (c1, c2) = crossover(&p1, &p2, 1);
    assert_eq!(c1, [true, false, false, false]);
    assert_eq!(c2, [false, true, true, true]);
    let (c1, c2) = crossover(&p1, &p2, 4);
    assert_eq!((c1, c2), (p1, p2));
    let (c1, c2) = crossover(&p1, &p2, 0);
    assert_eq!((c1, c2), (p2, p1));
}

#[test]
fn crossing_twice_gives_back_the_parents() {
    let p1 = [true, false, true, true, false];
    let p2 = [false, false, true, false, true];
    let (c1, c2) = crossover(&p1, &p2, 2);
    let (d1, d2) = crossover(&c1, &c2, 2);
    assert_eq!((d1, d2), (p1, p2));
}

#[test]
fn mutation_flips_the_masked_genes() {
    let x = [true, false, true, false];
    let m = [false, false, true, true];
    let y = mutate(&x, &m);
    assert_eq!(y, [true, false, false, true]);
    assert_eq!(mutate(&y, &m), x);
    assert_eq!(mutate(&x, &[false; 4]), x);
}

#[test]
fn random_population_has_the_right_shape() {
    let p: [[bool; 16]; 8] = random_population();
    assert_eq!(p.len(), 8);
    let ones: usize = p.iter().flatten().filter(|&&g| g).count();
    assert!(ones > 0 && ones < 128);
}

#[test]
fn tournament_picks_winners_from_the_population() {
    let population = [[false, false, false], [true, false, false], [true, true, false], [true, true, true]];
    let ones = |c: &[bool; 3]| c.iter().filter(|&&g| g).count();
    let fitter = |a: &[bool; 3], b: &[bool; 3]| ones(a) >= ones(b);
    let mut seen = [false; 4];
    for _ in 0..200 {
        let pool = tournament_selection(&population, &fitter);
        for c in pool.iter() {
            let k = population.iter().position(|p| p == c).unwrap();
            seen[k] = true;
        }
    }
    assert!(seen[1] && seen[2] && seen[3]);
    let problem = BinaryGAProblem { fitness_function: ones };
    assert_eq!((problem.fitness_function)(&[true, true, false]), 2);
}

#[test]
fn tournament_with_one_member_keeps_it() {
    let population = [[true, false]];
    let pool = tournament_selection(&population, &|_: &[bool; 2], _: &[bool; 2]| true);
    assert_eq!(pool, population);
}

#[test]
fn crossover_population_crosses_adjacent_pairs() {
    let pool = [[true, true, true], [false, false, false], [true, false, true], [false, true, false]];
    let mut splits_seen = [false; 4];
    for _ in 0..200 {
        let off = crossover_population(&pool);
        for k in 0..2 {
            let s = (1..3)
                .find(|&s| crossover(&pool[2 * k], &pool[2 * k + 1], s) == (off[2 * k], off[2 * k + 1]))
                .expect("offspring come from a crossover strictly inside the chromosome");
            splits_seen[s] = true;
        }
    }
    assert!(splits_seen[1] && splits_seen[2]);
}

#[test]
fn mutate_population_flips_as_told() {
    let mut p = [[true, false], [false, false]];
    mutate_population(&mut p, &|| true);
    assert_eq!(p, [[false, true], [true, true]]);
    mutate_population(&mut p, &|| false);
    assert_eq!(p, [[false, true], [true, true]]);
}

#[test]
fn match_winner_follows_the_comparison() {
    use_match_winner();
}

fn use_match_winner() {
    let population = [[true, false], [false, false], [true, true]];
    let ones = |c: &[bool; 2]| c.iter().filter(|&&g| g).count();
    let fitter = |a: &[bool; 2], b: &[bool; 2]| ones(a) >= ones(b);
    assert_eq!(optimization::multivariate::genetic::match_winner(&population, 0, 2, &fitter), [true, true]);
    assert_eq!(optimization::multivariate::genetic::match_winner(&population, 2, 1, &fitter), [true, true]);
    assert_eq!(optimization::multivariate::genetic::match_winner(&population, 1, 1, &fitter), [false, false]);
    assert_eq!(optimization::multivariate::genetic::match_winner(&population, 0, 1, &fitter), [true, false]);
}
