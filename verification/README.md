# knapsack

Solvers for the 0/1 knapsack problem and the benchmark that compares them,
written in Verus with their contracts proved.

- `src/problem.rs` — items, instances, answers; the value and weight of an
  answer and whether it is feasible.
- `src/masks.rs` — answers as masks (one flag per item), the sums over them,
  and the lemmas that relate masks to lists of indices.
- `src/ranking.rs` — a stable merge sort of positions by the exact ratio of
  two integers; the ranking it produces is unique.
- `src/greedy.rs` — the greedy pass: items taken in a given order while
  they fit.
- `src/exhaustive.rs` — exhaustive search, plain and with a cache; both give
  the same answer, which is feasible and (with positive weights) optimal.
- `src/tabular.rs` — the dynamic-programming table; feasible and optimal,
  never worse than greedy, and equal in value to exhaustive search.
- `src/evolution.rs` — the evolutionary search: every candidate fits, the
  first population is greedily filled, repair stops as soon as a candidate
  fits, and the elite keeps the best answer over the whole run.
- `src/rng.rs` — the random draws, taken from the `rand` crate.
- `src/levels.rs` — the twenty benchmark levels and their integer item recipes.
- `src/bench.rs` — the verdict on an answer, the skipping of the levels
  after a timeout, the tally over levels, and
  the checks that scoring and tallying stay within their integer types.
- `app/main.rs` — the benchmark program: float-based item recipes and
  capacities, the order of items by float density for the greedy pass,
  threads with a timeout, and printing.
