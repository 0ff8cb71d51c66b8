//! General facts about the automaton, proved over the spec functions that
//! the executable contracts use.
use vstd::prelude::*;

use crate::engine::{
    after_command, after_update, after_updates, apply_rules, generation, step, sweep, sweep_column,
    Command, ModelView,
};
use crate::grid::{blank, in_range, lookup, square};
use crate::rule::{
    count_first, linear_matches, linear_write, moore_offset, neighbour_count, neighbour_hit,
    pattern_at, radial_fires, Rule,
};
use crate::state::State;

verus! {

/// Replaying the same number of generations from the same seed with the
/// same rules gives the same grid at every generation.
pub proof fn lemma_replay_identical(
    g1: Seq<Seq<State>>,
    g2: Seq<Seq<State>>,
    rules1: Seq<Rule>,
    rules2: Seq<Rule>,
    k: nat,
)
    requires
        g1 == g2,
        rules1 == rules2,
    ensures
        forall|i: nat| i <= k ==> #[trigger] generation(g1, rules1, i) == generation(g2, rules2, i),
{
}

/// Resuming from a recorded generation `j` and running `k` more gives the
/// same grid as running `j + k` generations from the seed.
pub proof fn lemma_replay_resumes(g: Seq<Seq<State>>, rules: Seq<Rule>, j: nat, k: nat)
    ensures
        generation(generation(g, rules, j), rules, k) == generation(g, rules, j + k),
    decreases k,
{
    if k > 0 {
        lemma_replay_resumes(g, rules, j, (k - 1) as nat);
        assert(generation(g, rules, j + k) == step(generation(g, rules, (j + k - 1) as nat), rules));
    }
}

/// 1 when the `k`-th neighbour of `(x, y)` lies on the grid, else 0.
pub open spec fn on_grid_hit(g: Seq<Seq<State>>, x: int, y: int, k: int) -> int {
    if in_range(g, x + moore_offset(k).0, y + moore_offset(k).1) {
        1
    } else {
        0
    }
}

/// How many of the first `k` neighbours of `(x, y)` lie on the grid.
pub open spec fn on_grid_first(g: Seq<Seq<State>>, x: int, y: int, k: nat) -> int
    decreases k,
{
    if k == 0 {
        0
    } else {
        on_grid_first(g, x, y, (k - 1) as nat) + on_grid_hit(g, x, y, k - 1)
    }
}

/// How many neighbours of `(x, y)` lie on the grid.
pub open spec fn neighbours_on_grid(g: Seq<Seq<State>>, x: int, y: int) -> int {
    on_grid_first(g, x, y, 8)
}

proof fn lemma_count_first_bounded(g: Seq<Seq<State>>, x: int, y: int, s: State, k: nat)
    ensures
        0 <= count_first(g, x, y, s, k) <= on_grid_first(g, x, y, k),
    decreases k,
{
    if k > 0 {
        lemma_count_first_bounded(g, x, y, s, (k - 1) as nat);
    }
}

/// Neighbour counts see only cells on the grid: a count never exceeds the
/// number of neighbours on the grid, which is 3 at a corner, 5 elsewhere on
/// an edge (for a side of at least 2) and 8 inside.
pub proof fn lemma_neighbour_count_bounded(g: Seq<Seq<State>>, x: int, y: int, s: State)
    requires
        square(g),
        in_range(g, x, y),
    ensures
        forall|k: int|
            0 <= k < 8 ==> #[trigger] neighbour_hit(g, x, y, k, s) <= on_grid_hit(g, x, y, k),
        0 <= neighbour_count(g, x, y, s) <= neighbours_on_grid(g, x, y),
        g.len() >= 2 && (x == 0 || x == g.len() - 1) && (y == 0 || y == g.len() - 1)
            ==> neighbours_on_grid(g, x, y) == 3,
        g.len() >= 2 && (x == 0 || x == g.len() - 1) != (y == 0 || y == g.len() - 1)
            ==> neighbours_on_grid(g, x, y) == 5,
        0 < x < g.len() - 1 && 0 < y < g.len() - 1 ==> neighbours_on_grid(g, x, y) == 8,
{
    lemma_count_first_bounded(g, x, y, s, 8);
    assert(on_grid_first(g, x, y, 8) == on_grid_hit(g, x, y, 0) + on_grid_hit(g, x, y, 1)
        + on_grid_hit(g, x, y, 2) + on_grid_hit(g, x, y, 3) + on_grid_hit(g, x, y, 4)
        + on_grid_hit(g, x, y, 5) + on_grid_hit(g, x, y, 6) + on_grid_hit(g, x, y, 7)) by {
        reveal_with_fuel(on_grid_first, 9);
    }
}

/// Facts on one column sweep of a radial rule: only anchors are written,
/// each with the final state exactly when the rule fires there.
proof fn lemma_sweep_column_radial(
    rule: Rule,
    cur: Seq<Seq<State>>,
    next: Seq<Seq<State>>,
    c: int,
    y: nat,
)
    requires
        rule is Radial,
        square(cur),
        square(next),
        next.len() == cur.len(),
        0 <= c < cur.len(),
        y <= cur.len(),
    ensures
        square(sweep_column(rule, cur, next, c, y)),
        sweep_column(rule, cur, next, c, y).len() == cur.len(),
        forall|a: int, b: int|
            0 <= a < cur.len() && 0 <= b < cur.len() ==> #[trigger] sweep_column(
                rule,
                cur,
                next,
                c,
                y,
            )[a][b] == if a == c && b < y && rule.fires(cur, next, a, b) {
                rule->final_state
            } else {
                next[a][b]
            },
    decreases y,
{
    if y > 0 {
        lemma_sweep_column_radial(rule, cur, next, c, (y - 1) as nat);
        let prev = sweep_column(rule, cur, next, c, (y - 1) as nat);
        assert(rule.fires(cur, prev, c, y - 1) == rule.fires(cur, next, c, y - 1));
    }
}

proof fn lemma_sweep_radial(rule: Rule, cur: Seq<Seq<State>>, next: Seq<Seq<State>>, x: nat)
    requires
        rule is Radial,
        square(cur),
        square(next),
        next.len() == cur.len(),
        x <= cur.len(),
    ensures
        square(sweep(rule, cur, next, x)),
        sweep(rule, cur, next, x).len() == cur.len(),
        forall|a: int, b: int|
            0 <= a < cur.len() && 0 <= b < cur.len() ==> #[trigger] sweep(rule, cur, next, x)[a][b]
                == if a < x && rule.fires(cur, next, a, b) {
                rule->final_state
            } else {
                next[a][b]
            },
    decreases x,
{
    if x > 0 {
        lemma_sweep_radial(rule, cur, next, (x - 1) as nat);
        let prev = sweep(rule, cur, next, (x - 1) as nat);
        lemma_sweep_column_radial(rule, cur, prev, x - 1, cur.len());
        assert forall|a: int, b: int| 0 <= a < cur.len() && 0 <= b < cur.len() implies rule.fires(
            cur,
            prev,
            a,
            b,
        ) == rule.fires(cur, next, a, b) by {}
    }
}

/// Two radial rules that both fire at an anchor: the later one in the list
/// decides the anchor's next state.
pub proof fn lemma_later_rule_wins(cur: Seq<Seq<State>>, r1: Rule, r2: Rule, x: int, y: int)
    requires
        square(cur),
        in_range(cur, x, y),
        r1 is Radial,
        r2 is Radial,
        radial_fires(r1->current_state, r1->surroundings@, cur, x, y),
        radial_fires(r2->current_state, r2->surroundings@, cur, x, y),
    ensures
        step(cur, seq![r1, r2])[x][y] == r2->final_state,
{
    let rules = seq![r1, r2];
    let n = cur.len();
    let g1 = sweep(r1, cur, cur, n);
    assert(apply_rules(rules, cur, 0) == cur);
    assert(apply_rules(rules, cur, 1) == g1);
    assert(step(cur, rules) == sweep(r2, cur, g1, n));
    lemma_sweep_radial(r1, cur, cur, n);
    lemma_sweep_radial(r2, cur, g1, n);
}

/// Wildcards in a linear rule: cells under a `None` of the input pattern
/// have no say in whether it matches, and cells under a `None` of the
/// output pattern keep their value.
pub proof fn lemma_linear_wildcards(
    inp: Seq<Seq<Option<State>>>,
    out: Seq<Seq<Option<State>>>,
    cur: Seq<Seq<State>>,
    next: Seq<Seq<State>>,
    cur2: Seq<Seq<State>>,
    next2: Seq<Seq<State>>,
    x: int,
    y: int,
)
    requires
        square(cur),
        square(next),
        square(cur2),
        square(next2),
        cur2.len() == cur.len(),
        next2.len() == next.len(),
        forall|ri: int, rj: int| #[trigger]
            pattern_at(inp, ri, rj) is Some ==> lookup(cur2, x + ri, y + rj) == lookup(cur, x + ri, y + rj)
                && lookup(next2, x + ri, y + rj) == lookup(next, x + ri, y + rj),
    ensures
        linear_matches(inp, out, cur, next, x, y) == linear_matches(inp, out, cur2, next2, x, y),
        forall|a: int, b: int|
            in_range(next, a, b) && pattern_at(out, a - x, b - y) is None ==> #[trigger] linear_write(
                out,
                next,
                x,
                y,
            )[a][b] == next[a][b],
{
}

/// While paused, any number of advance requests leave the engine as it is.
pub proof fn lemma_paused_stays(m: ModelView, times: Seq<u64>)
    requires
        m.paused,
    ensures
        after_updates(m, times) == m,
    decreases times.len(),
{
    if times.len() > 0 {
        assert(after_update(m, times[0]) == m);
        lemma_paused_stays(m, times.drop_first());
    }
}

/// A reset empties every cell and keeps the side, whatever came before.
pub proof fn lemma_reset_empties(m: ModelView)
    ensures
        after_command(m, Command::Reset).grid == blank(m.grid.len()),
        forall|a: int, b: int|
            in_range(after_command(m, Command::Reset).grid, a, b) ==> #[trigger] after_command(
                m,
                Command::Reset,
            ).grid[a][b] == State::Empty,
{
}

} // verus!
