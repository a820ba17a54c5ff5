use optimization::optimizer::{ith_step, try_ith_step, Optimize, TryOptimize};

struct Halving;

impl Optimize<u32, u32> for Halving {
    type Steps = std::vec::IntoIter<u32>;

    fn optimize(&self, _problem: u32, starting_guess: u32) -> Self::Steps {
        let mut steps = Vec::new();
        let mut x = starting_guess;
        while x > 0 {
            x /= 2;
            steps.push(x);
        }
        steps.into_iter()
    }
}

struct FailsAt(usize);

impl TryOptimize<(), u32> for FailsAt {
    type Error = String;
    type Steps = std::vec::IntoIter<Result<u32, String>>;

    fn try_optimize(&self, _problem: (), starting_guess: u32) -> Self::Steps {
        let mut steps = Vec::new();
        for k in 0..5usize {
            if k == self.0 {
                steps.push(Err(format!("failed at {k}")));
            } else {
                steps.push(Ok(starting_guess + k as u32 + 1));
            }
        }
        steps.into_iter()
    }
}

#[test]
fn ith_step_takes_the_last_of_the_first_steps() {
    assert_eq!(ith_step(vec![1, 2, 3].into_iter(), 2, 0), 2);
    assert_eq!(ith_step(vec![1, 2, 3].into_iter(), 10, 0), 3);
    assert_eq!(ith_step(vec![1, 2, 3].into_iter(), 0, 9), 9);
    assert_eq!(ith_step(Vec::<i32>::new().into_iter(), 4, 9), 9);
}

#[test]
fn ith_step_stops_early_on_endless_steps() {
    assert_eq!(ith_step(0u64.., 1000, 7), 999);
}

#[test]
fn try_ith_step_reports_the_first_error_within_reach() {
    let steps = vec![Ok(1), Err("a"), Ok(3), Err("b")];
    assert_eq!(try_ith_step(steps.clone().into_iter(), 1, 0), Ok(1));
    assert_eq!(try_ith_step(steps.clone().into_iter(), 2, 0), Err("a"));
    assert_eq!(try_ith_step(steps.into_iter(), 10, 0), Err("a"));
    assert_eq!(try_ith_step(Vec::<Result<i32, &str>>::new().into_iter(), 3, 5), Ok(5));
    assert_eq!(try_ith_step(vec![Ok::<i32, &str>(4)].into_iter(), 0, 5), Ok(5));
}

#[test]
fn ith_guess_and_solution_follow_the_steps() {
    assert_eq!(Halving.ith_guess(0, 100, 0), 100);
    assert_eq!(Halving.ith_guess(0, 100, 1), 50);
    assert_eq!(Halving.ith_guess(0, 100, 3), 12);
    assert_eq!(Halving.solution(0, 100), 0);
    assert_eq!(Halving.solution(0, 0), 0);
}

#[test]
fn try_ith_guess_and_try_solution() {
    assert_eq!(FailsAt(3).try_ith_guess((), 10, 3), Ok(13));
    assert_eq!(FailsAt(3).try_ith_guess((), 10, 4), Err("failed at 3".to_string()));
    assert_eq!(FailsAt(3).try_solution((), 10), Err("failed at 3".to_string()));
    assert_eq!(FailsAt(9).try_solution((), 10), Ok(15));
    assert_eq!(FailsAt(0).try_ith_guess((), 10, 0), Ok(10));
}
