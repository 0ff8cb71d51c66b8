use vstd::prelude::*;

use crate::grid::{blank, in_range, put, square, Grid};
use crate::rule::Rule;
use crate::state::State;

verus! {

/// The shortest time, in milliseconds, between two generations.
pub const TICK_INTERVAL_MS: u64 = 50;

/// `next` after `rule` is tried at anchors `(x, 0)` to `(x, y - 1)`.
pub open spec fn sweep_column(
    rule: Rule,
    cur: Seq<Seq<State>>,
    next: Seq<Seq<State>>,
    x: int,
    y: nat,
) -> Seq<Seq<State>>
    decreases y,
{
    if y == 0 {
        next
    } else {
        rule.applied(cur, sweep_column(rule, cur, next, x, (y - 1) as nat), x, y - 1)
    }
}

/// `next` after `rule` is tried at every anchor of columns `0` to `x - 1`,
/// in scan order.
pub open spec fn sweep(rule: Rule, cur: Seq<Seq<State>>, next: Seq<Seq<State>>, x: nat) -> Seq<
    Seq<State>,
>
    decreases x,
{
    if x == 0 {
        next
    } else {
        sweep_column(rule, cur, sweep(rule, cur, next, (x - 1) as nat), x - 1, cur.len())
    }
}

/// The generation under construction after the first `k` rules have swept
/// the grid, starting from a copy of `cur`.
pub open spec fn apply_rules(rules: Seq<Rule>, cur: Seq<Seq<State>>, k: nat) -> Seq<Seq<State>>
    decreases k,
{
    if k == 0 {
        cur
    } else {
        sweep(rules[k - 1], cur, apply_rules(rules, cur, (k - 1) as nat), cur.len())
    }
}

/// The generation that follows `cur` under `rules`.
pub open spec fn step(cur: Seq<Seq<State>>, rules: Seq<Rule>) -> Seq<Seq<State>> {
    apply_rules(rules, cur, rules.len())
}

/// The grid after `k` generations from `cur`.
pub open spec fn generation(cur: Seq<Seq<State>>, rules: Seq<Rule>, k: nat) -> Seq<Seq<State>>
    decreases k,
{
    if k == 0 {
        cur
    } else {
        step(generation(cur, rules, (k - 1) as nat), rules)
    }
}

/// Computes the next generation: every rule, in list order, is tried at
/// every cell, in scan order, writing into a copy of `cur`.
pub fn tick(cur: &Grid, rules: &Vec<Rule>) -> (r: Grid)
    requires
        cur.wf(),
    ensures
        r.wf(),
        r@ == step(cur@, rules@),
{
    proof {
        cur.lemma_wf();
    }
    let n = cur.size();
    let mut next = cur.copy();
    let mut k: usize = 0;
    while k < rules.len()
        invariant
            cur.wf(),
            square(cur@),
            n == cur@.len(),
            next.wf(),
            k <= rules@.len(),
            next@ == apply_rules(rules@, cur@, k as nat),
            next@.len() == n,
        decreases rules@.len() - k,
    {
        let rule = &rules[k];
        let ghost base = next@;
        let mut x: usize = 0;
        while x < n
            invariant
                cur.wf(),
                square(cur@),
                n == cur@.len(),
                next.wf(),
                x <= n,
                next@ == sweep(*rule, cur@, base, x as nat),
                next@.len() == n,
            decreases n - x,
        {
            let ghost col_base = next@;
            let mut y: usize = 0;
            while y < n
                invariant
                    cur.wf(),
                    square(cur@),
                    n == cur@.len(),
                    next.wf(),
                    x < n,
                    y <= n,
                    next@ == sweep_column(*rule, cur@, col_base, x as int, y as nat),
                    next@.len() == n,
                decreases n - y,
            {
                rule.apply(cur, &mut next, x, y);
                y += 1;
            }
            x += 1;
        }
        k += 1;
    }
    next
}

/// Runs `k` generations from `cur`.
pub fn run(cur: &Grid, rules: &Vec<Rule>, k: usize) -> (r: Grid)
    requires
        cur.wf(),
    ensures
        r.wf(),
        r@ == generation(cur@, rules@, k as nat),
{
    let mut g = cur.copy();
    let mut i: usize = 0;
    while i < k
        invariant
            g.wf(),
            i <= k,
            g@ == generation(cur@, rules@, i as nat),
        decreases k - i,
    {
        g = tick(&g, rules);
        i += 1;
    }
    g
}

/// An engine's contents as plain values.
pub struct ModelView {
    pub grid: Seq<Seq<State>>,
    pub rules: Seq<Rule>,
    /// Time of the last generation, in milliseconds.
    pub last: u64,
    pub paused: bool,
    /// The value that painting writes.
    pub fill_state: State,
}

/// A discrete request from the input layer.
#[derive(Clone, Copy, PartialEq, Eq, Structural, Debug)]
pub enum Command {
    /// Paint the cell at `(x, y)`, each coordinate clamped to the grid.
    PaintAt(usize, usize),
    /// Move the paint value forward in its cycle.
    NextPaint,
    /// Move the paint value backward in its cycle.
    PrevPaint,
    TogglePause,
    /// Empty every cell.
    Reset,
}

/// Why an engine could not be built.
#[derive(Clone, Copy, PartialEq, Eq, Structural, Debug)]
pub enum ConfigError {
    /// The cell count does not fit a `usize`.
    GridTooLarge,
    /// The starting grid's side differs from the requested one.
    SizeMismatch,
    /// The rule at this index is not usable on the grid; it is the first such.
    InvalidRule(usize),
}

/// `v` clamped to `[0, n - 1]`.
pub open spec fn clamp_index(v: int, n: int) -> int {
    if v < n - 1 {
        v
    } else {
        n - 1
    }
}

/// What a command does to an engine.
pub open spec fn after_command(m: ModelView, c: Command) -> ModelView {
    match c {
        Command::PaintAt(x, y) => if m.grid.len() == 0 {
            m
        } else {
            ModelView {
                grid: put(
                    m.grid,
                    clamp_index(x as int, m.grid.len() as int),
                    clamp_index(y as int, m.grid.len() as int),
                    m.fill_state,
                ),
                ..m
            }
        },
        Command::NextPaint => ModelView { fill_state: m.fill_state.other(), ..m },
        Command::PrevPaint => ModelView { fill_state: m.fill_state.other(), ..m },
        Command::TogglePause => ModelView { paused: !m.paused, ..m },
        Command::Reset => ModelView { grid: blank(m.grid.len()), ..m },
    }
}

/// A generation is due at `now` when the engine runs and at least the
/// pacing interval has passed since the last one.
pub open spec fn is_due(m: ModelView, now: u64) -> bool {
    !m.paused && now >= m.last && now - m.last >= TICK_INTERVAL_MS
}

/// The engine after an advance request at time `now`.
pub open spec fn after_update(m: ModelView, now: u64) -> ModelView {
    if is_due(m, now) {
        ModelView { grid: step(m.grid, m.rules), last: now, ..m }
    } else {
        m
    }
}

/// The engine after advance requests at each of `times`, in order.
pub open spec fn after_updates(m: ModelView, times: Seq<u64>) -> ModelView
    decreases times.len(),
{
    if times.len() == 0 {
        m
    } else {
        after_updates(after_update(m, times[0]), times.drop_first())
    }
}

/// The index of the first rule from `i` on that is not usable on side `n`.
pub open spec fn first_invalid(rules: Seq<Rule>, n: int, i: nat) -> Option<nat>
    decreases rules.len() - i,
{
    if i >= rules.len() {
        None
    } else if !rules[i as int].valid_for(n) {
        Some(i)
    } else {
        first_invalid(rules, n, (i + 1) as nat)
    }
}

/// The error that building an engine meets, if any: checked in the order
/// size, starting grid, rules.
pub open spec fn config_error(size: usize, start: Option<Seq<Seq<State>>>, rules: Seq<Rule>) -> Option<
    ConfigError,
> {
    if size * size > usize::MAX {
        Some(ConfigError::GridTooLarge)
    } else if (start matches Some(g) && g.len() != size) {
        Some(ConfigError::SizeMismatch)
    } else {
        match first_invalid(rules, size as int, 0) {
            Some(i) => Some(ConfigError::InvalidRule(i as usize)),
            None => None,
        }
    }
}

/// The engine that building with these arguments gives.
pub open spec fn initial(
    size: usize,
    start: Option<Seq<Seq<State>>>,
    rules: Seq<Rule>,
    paused: bool,
    now: u64,
) -> ModelView {
    ModelView {
        grid: match start {
            Some(g) => g,
            None => blank(size as nat),
        },
        rules,
        last: now,
        paused,
        fill_state: State::Empty,
    }
}

/// The view of an optional grid.
pub open spec fn grid_option_view(g: Option<Grid>) -> Option<Seq<Seq<State>>> {
    match g {
        Some(g) => Some(g@),
        None => None,
    }
}

/// The automaton: the current grid, the rules, and pacing and paint state.
pub struct Model {
    active: Grid,
    rules: Vec<Rule>,
    last: u64,
    paused: bool,
    fill_state: State,
}

impl View for Model {
    type V = ModelView;

    closed spec fn view(&self) -> ModelView {
        ModelView {
            grid: self.active@,
            rules: self.rules@,
            last: self.last,
            paused: self.paused,
            fill_state: self.fill_state,
        }
    }
}

impl Model {
    /// The grid is well formed.
    pub closed spec fn wf(&self) -> bool {
        self.active.wf()
    }

    /// Builds an engine of side `size` from an optional starting grid (all
    /// empty when absent), the rules, and whether it starts paused; `now`
    /// is the current time in milliseconds.
    #[verifier::loop_isolation(false)]
    pub fn model(
        size: usize,
        starting_state: Option<Grid>,
        rules: Vec<Rule>,
        paused: bool,
        now: u64,
    ) -> (r: Result<Model, ConfigError>)
        requires
            starting_state matches Some(g) ==> g.wf(),
        ensures
            (r is Err) == config_error(size, grid_option_view(starting_state), rules@) is Some,
            r matches Err(e) ==> config_error(size, grid_option_view(starting_state), rules@) == Some(e),
            r matches Ok(m) ==> m.wf() && m@ == initial(
                size,
                grid_option_view(starting_state),
                rules@,
                paused,
                now,
            ),
    {
        if size > 0 && size > usize::MAX / size {
            proof {
                assert(size * size > usize::MAX) by (nonlinear_arith)
                    requires
                        size > 0,
                        size > usize::MAX / size,
                ;
            }
            return Err(ConfigError::GridTooLarge);
        }
        proof {
            if size > 0 {
                assert(size * size <= usize::MAX) by (nonlinear_arith)
                    requires
                        size > 0,
                        size <= usize::MAX / size,
                ;
            }
        }
        let active = match starting_state {
            Some(g) => {
                if g.size() != size {
                    return Err(ConfigError::SizeMismatch);
                }
                g
            },
            None => Grid::new(size),
        };
        let mut i: usize = 0;
        while i < rules.len()
            invariant
                i <= rules@.len(),
                first_invalid(rules@, size as int, 0) == first_invalid(rules@, size as int, i as nat),
            decreases rules@.len() - i,
        {
            if !rules[i].is_valid(size) {
                assert(first_invalid(rules@, size as int, i as nat) == Some(i as nat));
                return Err(ConfigError::InvalidRule(i));
            }
            i += 1;
        }
        Ok(Model { active, rules, last: now, paused, fill_state: State::Empty })
    }

    /// The current grid, for drawing.
    pub fn grid(&self) -> (r: &Grid)
        requires
            self.wf(),
        ensures
            r.wf(),
            r@ == self@.grid,
    {
        &self.active
    }

    /// The value that painting writes.
    pub fn fill_state(&self) -> (r: State)
        ensures
            r == self@.fill_state,
    {
        self.fill_state
    }

    /// Whether generations are suspended.
    pub fn paused(&self) -> (r: bool)
        ensures
            r == self@.paused,
    {
        self.paused
    }

    /// Writes the paint value at `(x, y)`, each clamped into the grid.
    pub fn paint_at(&mut self, x: usize, y: usize)
        requires
            old(self).wf(),
        ensures
            final(self).wf(),
            final(self)@ == after_command(old(self)@, Command::PaintAt(x, y)),
    {
        proof {
            self.active.lemma_wf();
        }
        let n = self.active.size();
        if n == 0 {
            return;
        }
        let cx: usize = if x < n - 1 {
            x
        } else {
            n - 1
        };
        let cy: usize = if y < n - 1 {
            y
        } else {
            n - 1
        };
        self.active.set(cx, cy, self.fill_state);
    }

    /// Moves the paint value forward in its cycle.
    pub fn next_paint(&mut self)
        requires
            old(self).wf(),
        ensures
            final(self).wf(),
            final(self)@ == after_command(old(self)@, Command::NextPaint),
    {
        self.fill_state = self.fill_state.next();
    }

    /// Moves the paint value backward in its cycle.
    pub fn prev_paint(&mut self)
        requires
            old(self).wf(),
        ensures
            final(self).wf(),
            final(self)@ == after_command(old(self)@, Command::PrevPaint),
    {
        self.fill_state = self.fill_state.prev();
    }

    /// Suspends or resumes generations.
    pub fn toggle_pause(&mut self)
        requires
            old(self).wf(),
        ensures
            final(self).wf(),
            final(self)@ == after_command(old(self)@, Command::TogglePause),
    {
        self.paused = !self.paused;
    }

    /// Empties every cell, keeping the side.
    pub fn reset(&mut self)
        requires
            old(self).wf(),
        ensures
            final(self).wf(),
            final(self)@ == after_command(old(self)@, Command::Reset),
            final(self)@.grid == blank(old(self)@.grid.len()),
    {
        self.active = self.active.cleared();
    }
}

/// Carries out one command.
pub fn event(model: &mut Model, command: Command)
    requires
        old(model).wf(),
    ensures
        final(model).wf(),
        final(model)@ == after_command(old(model)@, command),
{
    match command {
        Command::PaintAt(x, y) => model.paint_at(x, y),
        Command::NextPaint => model.next_paint(),
        Command::PrevPaint => model.prev_paint(),
        Command::TogglePause => model.toggle_pause(),
        Command::Reset => model.reset(),
    }
}

/// Advances one generation if one is due at time `now` (milliseconds), and
/// tells whether it did.
pub fn update(model: &mut Model, now: u64) -> (r: bool)
    requires
        old(model).wf(),
    ensures
        final(model).wf(),
        r == is_due(old(model)@, now),
        final(model)@ == after_update(old(model)@, now),
        old(model)@.paused ==> final(model)@ == old(model)@,
{
    if model.paused || now < model.last || now - model.last < TICK_INTERVAL_MS {
        return false;
    }
    model.last = now;
    model.active = tick(&model.active, &model.rules);
    true
}

} // verus!
