# optimization

Numerical optimization methods: line searches (dichotomy, golden section,
Fibonacci, Newton), gradient descent, Newton-Raphson and Levenberg-Marquardt,
BFGS, conjugate gradients, the simplex method, the active set method, SQP,
branch and bound, dynamic programming for the knapsack problem, genetic
algorithms and simulated annealing.

## Layout

- `src/` is the verified library (Verus). It holds what the methods decide
  and build without floating point, each with its contract:
  - `optimizer`: the `Optimize` and `TryOptimize` traits and the verified runs
    of a method's steps (`ith_step`, `try_ith_step`);
  - `quadratic`, `linalg`: matrices of any entry type, their arithmetic,
    transpose, product, columns, rows, and the blocks of constrained systems;
  - `univariate`: the bracket a line search keeps from the slopes of its
    samples, the samples that carry over, and the Fibonacci numbers;
  - `multivariate`: the basis order of the simplex method's second phase, the
    systems of the active set method, and the selection, crossover and
    mutation of the binary genetic algorithm;
  - `helpers`: stopping conditions and the HTML of the dashboard page;
  - `function`, `functions`: the function and differentiation traits.
- `app/` holds the floating-point side: the numerical methods themselves, the
  problems and steps that carry `f64` values, and the file I/O.
- `tests/` runs the library on concrete values.
