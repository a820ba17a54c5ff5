use std::cmp::Ordering::{Equal, Greater, Less};

use optimization::univariate::bracket::{bracket_of_slopes, dichotomy_carry, golden_carry, Bracket, Slope};
use optimization::univariate::fibonacci::fibonacci_numbers;
use optimization::univariate::slope::{bracket_from_trend, slope_from_ordering};

fn trend(ys: &[f64]) -> Vec<std::cmp::Ordering> {
    ys.windows(2).map(|w| w[0].total_cmp(&w[1])).collect()
}

#[test]
fn slopes_follow_the_comparison() {
    assert_eq!(slope_from_ordering(Greater), Slope::Falls);
    assert_eq!(slope_from_ordering(Equal), Slope::Level);
    assert_eq!(slope_from_ordering(Less), Slope::Rises);
}

#[test]
fn five_point_brackets() {
    assert_eq!(bracket_from_trend([Less, Less, Less, Less]), Bracket::Narrow(0, 1));
    assert_eq!(bracket_from_trend([Greater, Less, Less, Less]), Bracket::Narrow(0, 2));
    assert_eq!(bracket_from_trend([Greater, Greater, Less, Less]), Bracket::Narrow(1, 3));
    assert_eq!(bracket_from_trend([Greater, Greater, Greater, Less]), Bracket::Narrow(2, 4));
    assert_eq!(bracket_from_trend([Greater, Greater, Greater, Greater]), Bracket::Narrow(3, 4));
    assert_eq!(bracket_from_trend([Greater, Equal, Less, Less]), Bracket::Flat(1, 2));
    assert_eq!(bracket_from_trend([Greater, Greater, Equal, Less]), Bracket::Flat(2, 3));
}

#[test]
fn five_point_trends_that_are_not_unimodal() {
    assert_eq!(bracket_from_trend([Less, Greater, Less, Less]), Bracket::NotUnimodal);
    assert_eq!(bracket_from_trend([Equal, Less, Less, Less]), Bracket::NotUnimodal);
    assert_eq!(bracket_from_trend([Greater, Greater, Greater, Equal]), Bracket::NotUnimodal);
    assert_eq!(bracket_from_trend([Greater, Equal, Equal, Less]), Bracket::NotUnimodal);
    assert_eq!(bracket_from_trend([Equal, Equal, Equal, Equal]), Bracket::NotUnimodal);
}

#[test]
fn four_point_brackets() {
    assert_eq!(bracket_from_trend([Less, Less, Less]), Bracket::Narrow(0, 1));
    assert_eq!(bracket_from_trend([Greater, Less, Less]), Bracket::Narrow(0, 2));
    assert_eq!(bracket_from_trend([Greater, Greater, Less]), Bracket::Narrow(1, 3));
    assert_eq!(bracket_from_trend([Greater, Greater, Greater]), Bracket::Narrow(2, 3));
    assert_eq!(bracket_from_trend([Greater, Equal, Less]), Bracket::Flat(1, 2));
    assert_eq!(bracket_from_trend([Less, Equal, Less]), Bracket::NotUnimodal);
    assert_eq!(bracket_from_trend([Equal, Less, Less]), Bracket::NotUnimodal);
}

#[test]
fn brackets_of_slopes_directly() {
    assert_eq!(bracket_of_slopes([Slope::Falls, Slope::Rises]), Bracket::Narrow(0, 2));
    assert_eq!(bracket_of_slopes::<0>([]), Bracket::Narrow(0, 0));
    assert_eq!(bracket_of_slopes([Slope::Level]), Bracket::NotUnimodal);
}

#[test]
fn bracket_holds_the_smallest_sample() {
    let ys = [9.0, 4.0, 1.0, 2.0, 8.0];
    let t = trend(&ys);
    let b = bracket_from_trend([t[0], t[1], t[2], t[3]]);
    assert_eq!(b, Bracket::Narrow(1, 3));
    let (lo, hi) = match b {
        Bracket::Narrow(lo, hi) => (lo, hi),
        _ => unreachable!(),
    };
    let least = (0..ys.len()).min_by(|&a, &b| ys[a].total_cmp(&ys[b])).unwrap();
    assert!(lo <= least && least <= hi);

    let ys = [3.0, 1.0, 1.0, 2.0];
    let t = trend(&ys);
    assert_eq!(bracket_from_trend([t[0], t[1], t[2]]), Bracket::Flat(1, 2));
}

#[test]
fn dichotomy_keeps_the_ends_and_the_middle() {
    assert_eq!(dichotomy_carry(0, 1), [Some(0), None, None, None, Some(1)]);
    assert_eq!(dichotomy_carry(0, 2), [Some(0), None, Some(1), None, Some(2)]);
    assert_eq!(dichotomy_carry(1, 3), [Some(1), None, Some(2), None, Some(3)]);
    assert_eq!(dichotomy_carry(2, 4), [Some(2), None, Some(3), None, Some(4)]);
    assert_eq!(dichotomy_carry(3, 4), [Some(3), None, None, None, Some(4)]);
}

#[test]
fn golden_section_keeps_the_ends_and_one_inner_point() {
    assert_eq!(golden_carry(0, 1), [Some(0), None, None, Some(1)]);
    assert_eq!(golden_carry(0, 2), [Some(0), None, Some(1), Some(2)]);
    assert_eq!(golden_carry(1, 3), [Some(1), Some(2), None, Some(3)]);
    assert_eq!(golden_carry(2, 3), [Some(2), None, None, Some(3)]);
    assert_eq!(golden_carry(1, 2), [Some(1), None, None, Some(2)]);
}

#[test]
fn fibonacci_numbers_from_two() {
    assert_eq!(fibonacci_numbers::<8>(), [2, 3, 5, 8, 13, 21, 34, 55]);
    assert_eq!(fibonacci_numbers::<0>(), []);
    let f = fibonacci_numbers::<40>();
    for i in 2..40 {
        assert_eq!(f[i], f[i - 1] + f[i - 2]);
    }
}
