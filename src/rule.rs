use vstd::prelude::*;

use crate::grid::{in_range, lookup, put, square, Grid};
use crate::state::{Comparison, State};

verus! {

/// A transition rule, applied at one anchor cell at a time.
pub enum Rule {
    /// Rewrites a local pattern. `in_state[ri][rj]` and `out_state[ri][rj]`
    /// speak of the cell at `(x + ri, y + rj)` from anchor `(x, y)`; `None`
    /// matches anything and writes nothing.
    Linear { in_state: Vec<Vec<Option<State>>>, out_state: Vec<Vec<Option<State>>> },
    /// Sets an anchor in `current_state` to `final_state` when, for every
    /// `(required, test)` pair, the number of neighbours in state `required`
    /// passes `test`.
    Radial {
        current_state: State,
        surroundings: Vec<(State, Comparison)>,
        final_state: State,
    },
}

/// A pattern as nested sequences.
pub open spec fn pattern_view(p: Vec<Vec<Option<State>>>) -> Seq<Seq<Option<State>>> {
    Seq::new(p@.len(), |i: int| p@[i]@)
}

/// The pattern entry at offset `(ri, rj)`; `None` outside the pattern.
pub open spec fn pattern_at(p: Seq<Seq<Option<State>>>, ri: int, rj: int) -> Option<State> {
    if 0 <= ri < p.len() && 0 <= rj < p[ri].len() {
        p[ri][rj]
    } else {
        None
    }
}

/// A linear rule matches at `(x, y)` when every non-wildcard entry of the
/// input pattern lies on the grid and equals the cell there both in the
/// current grid and in the generation being built, and every non-wildcard
/// entry of the output pattern lies on the grid.
pub open spec fn linear_matches(
    inp: Seq<Seq<Option<State>>>,
    out: Seq<Seq<Option<State>>>,
    cur: Seq<Seq<State>>,
    next: Seq<Seq<State>>,
    x: int,
    y: int,
) -> bool {
    &&& forall|ri: int, rj: int| #[trigger]
        pattern_at(inp, ri, rj) is Some ==> lookup(cur, x + ri, y + rj) == pattern_at(inp, ri, rj)
            && lookup(next, x + ri, y + rj) == pattern_at(inp, ri, rj)
    &&& forall|ri: int, rj: int| #[trigger]
        pattern_at(out, ri, rj) is Some ==> in_range(next, x + ri, y + rj)
}

/// `next` with every non-wildcard entry of `out` written at its offset from `(x, y)`.
pub open spec fn linear_write(
    out: Seq<Seq<Option<State>>>,
    next: Seq<Seq<State>>,
    x: int,
    y: int,
) -> Seq<Seq<State>> {
    Seq::new(
        next.len(),
        |a: int|
            Seq::new(
                next[a].len(),
                |b: int|
                    match pattern_at(out, a - x, b - y) {
                        Some(s) => s,
                        None => next[a][b],
                    },
            ),
    )
}

/// The eight Moore offsets, column by column, `(0, 0)` left out.
pub open spec fn moore_offset(k: int) -> (int, int) {
    if k == 0 {
        (-1, -1)
    } else if k == 1 {
        (-1, 0)
    } else if k == 2 {
        (-1, 1)
    } else if k == 3 {
        (0, -1)
    } else if k == 4 {
        (0, 1)
    } else if k == 5 {
        (1, -1)
    } else if k == 6 {
        (1, 0)
    } else {
        (1, 1)
    }
}

/// 1 when the `k`-th neighbour of `(x, y)` is on the grid and in state `s`, else 0.
pub open spec fn neighbour_hit(g: Seq<Seq<State>>, x: int, y: int, k: int, s: State) -> int {
    if lookup(g, x + moore_offset(k).0, y + moore_offset(k).1) == Some(s) {
        1
    } else {
        0
    }
}

/// How many of the first `k` neighbours of `(x, y)` are in state `s`.
pub open spec fn count_first(g: Seq<Seq<State>>, x: int, y: int, s: State, k: nat) -> int
    decreases k,
{
    if k == 0 {
        0
    } else {
        count_first(g, x, y, s, (k - 1) as nat) + neighbour_hit(g, x, y, k - 1, s)
    }
}

/// How many neighbours of `(x, y)` are on the grid and in state `s`.
pub open spec fn neighbour_count(g: Seq<Seq<State>>, x: int, y: int, s: State) -> int {
    count_first(g, x, y, s, 8)
}

/// A radial rule fires at `(x, y)` when the cell there is `current` and
/// every count test passes on the current grid.
pub open spec fn radial_fires(
    current: State,
    surroundings: Seq<(State, Comparison)>,
    cur: Seq<Seq<State>>,
    x: int,
    y: int,
) -> bool {
    &&& lookup(cur, x, y) == Some(current)
    &&& forall|i: int|
        0 <= i < surroundings.len() ==> #[trigger] surroundings[i].1.holds(
            neighbour_count(cur, x, y, surroundings[i].0),
        )
}

impl Rule {
    /// Whether the rule fires at `(x, y)`, given the current grid and the
    /// generation built so far.
    pub open spec fn fires(
        &self,
        cur: Seq<Seq<State>>,
        next: Seq<Seq<State>>,
        x: int,
        y: int,
    ) -> bool {
        match self {
            Rule::Linear { in_state, out_state } => linear_matches(
                pattern_view(*in_state),
                pattern_view(*out_state),
                cur,
                next,
                x,
                y,
            ),
            Rule::Radial { current_state, surroundings, .. } => radial_fires(
                *current_state,
                surroundings@,
                cur,
                x,
                y,
            ),
        }
    }

    /// The generation under construction after the rule is tried at `(x, y)`.
    pub open spec fn applied(
        &self,
        cur: Seq<Seq<State>>,
        next: Seq<Seq<State>>,
        x: int,
        y: int,
    ) -> Seq<Seq<State>> {
        if !self.fires(cur, next, x, y) {
            next
        } else {
            match self {
                Rule::Linear { out_state, .. } => linear_write(
                    pattern_view(*out_state),
                    next,
                    x,
                    y,
                ),
                Rule::Radial { final_state, .. } => put(next, x, y, *final_state),
            }
        }
    }

    /// Whether the rule is usable on a grid of side `n`: the two patterns of
    /// a linear rule have the same shape and fit within the grid, and no
    /// count test of a radial rule is a range with its bounds reversed.
    pub open spec fn valid_for(&self, n: int) -> bool {
        match self {
            Rule::Linear { in_state, out_state } => {
                &&& in_state@.len() == out_state@.len()
                &&& in_state@.len() <= n
                &&& forall|i: int|
                    0 <= i < in_state@.len() ==> #[trigger] in_state@[i]@.len()
                        == out_state@[i]@.len() && in_state@[i]@.len() <= n
            },
            Rule::Radial { surroundings, .. } => forall|i: int|
                0 <= i < surroundings@.len() ==> !(#[trigger] surroundings@[i]).1.is_inverted(),
        }
    }

    /// Checks the rule against a grid of side `size`.
    #[verifier::loop_isolation(false)]
    pub fn is_valid(&self, size: usize) -> (r: bool)
        ensures
            r == self.valid_for(size as int),
    {
        match self {
            Rule::Linear { in_state, out_state } => {
                if in_state.len() != out_state.len() || in_state.len() > size {
                    return false;
                }
                let mut i: usize = 0;
                while i < in_state.len()
                    invariant
                        in_state@.len() == out_state@.len(),
                        i <= in_state@.len(),
                        forall|j: int|
                            0 <= j < i ==> #[trigger] in_state@[j]@.len() == out_state@[j]@.len()
                                && in_state@[j]@.len() <= size,
                    decreases in_state@.len() - i,
                {
                    if in_state[i].len() != out_state[i].len() || in_state[i].len() > size {
                        assert(in_state@[i as int]@.len() != out_state@[i as int]@.len()
                            || in_state@[i as int]@.len() > size);
                        return false;
                    }
                    i += 1;
                }
                true
            },
            Rule::Radial { surroundings, .. } => {
                let mut i: usize = 0;
                while i < surroundings.len()
                    invariant
                        i <= surroundings@.len(),
                        forall|j: int| 0 <= j < i ==> !(#[trigger] surroundings@[j]).1.is_inverted(),
                    decreases surroundings@.len() - i,
                {
                    if !surroundings[i].1.is_valid() {
                        assert(surroundings@[i as int].1.is_inverted());
                        return false;
                    }
                    i += 1;
                }
                true
            },
        }
    }

    /// Tries the rule at anchor `(x, y)`: reads `cur` (and, for a linear
    /// rule, `next`), writes into `next`, and tells whether it fired.
    pub fn apply(&self, cur: &Grid, next: &mut Grid, x: usize, y: usize) -> (r: bool)
        requires
            cur.wf(),
            old(next).wf(),
            old(next)@.len() == cur@.len(),
            in_range(cur@, x as int, y as int),
        ensures
            r == self.fires(cur@, old(next)@, x as int, y as int),
            final(next).wf(),
            final(next)@ == self.applied(cur@, old(next)@, x as int, y as int),
    {
        match self {
            Rule::Linear { in_state, out_state } => linear(cur, next, x, y, in_state, out_state),
            Rule::Radial { current_state, surroundings, final_state } => radial(
                cur,
                next,
                x,
                y,
                *current_state,
                surroundings,
                *final_state,
            ),
        }
    }
}

/// The `k`-th Moore offset.
fn moore(k: usize) -> (r: (i64, i64))
    requires
        k < 8,
    ensures
        (r.0 as int, r.1 as int) == moore_offset(k as int),
{
    if k == 0 {
        (-1, -1)
    } else if k == 1 {
        (-1, 0)
    } else if k == 2 {
        (-1, 1)
    } else if k == 3 {
        (0, -1)
    } else if k == 4 {
        (0, 1)
    } else if k == 5 {
        (1, -1)
    } else if k == 6 {
        (1, 0)
    } else {
        (1, 1)
    }
}

/// Counts the neighbours of `(x, y)` in `g` that are in state `s`.
pub fn count_neighbours(g: &Grid, x: usize, y: usize, s: State) -> (r: usize)
    requires
        g.wf(),
        in_range(g@, x as int, y as int),
    ensures
        r == neighbour_count(g@, x as int, y as int, s),
{
    proof {
        g.lemma_wf();
    }
    let mut count: usize = 0;
    let mut k: usize = 0;
    while k < 8
        invariant
            g.wf(),
            in_range(g@, x as int, y as int),
            g@.len() < 0x1_0000_0000,
            square(g@),
            k <= 8,
            count <= k,
            count == count_first(g@, x as int, y as int, s, k as nat),
        decreases 8 - k,
    {
        let (dx, dy) = moore(k);
        let nx: i64 = x as i64 + dx;
        let ny: i64 = y as i64 + dy;
        match g.lookup(nx, ny) {
            Some(c) => {
                if c == s {
                    count += 1;
                }
            },
            None => {},
        }
        k += 1;
    }
    count
}

fn radial(
    cur: &Grid,
    next: &mut Grid,
    x: usize,
    y: usize,
    current_state: State,
    surroundings: &Vec<(State, Comparison)>,
    final_state: State,
) -> (r: bool)
    requires
        cur.wf(),
        old(next).wf(),
        old(next)@.len() == cur@.len(),
        in_range(cur@, x as int, y as int),
    ensures
        r == radial_fires(current_state, surroundings@, cur@, x as int, y as int),
        final(next).wf(),
        final(next)@ == (if r {
            put(old(next)@, x as int, y as int, final_state)
        } else {
            old(next)@
        }),
{
    proof {
        cur.lemma_wf();
        old(next).lemma_wf();
    }
    if cur.get(x, y) != current_state {
        return false;
    }
    let mut i: usize = 0;
    while i < surroundings.len()
        invariant
            cur.wf(),
            next.wf(),
            next@ == old(next)@,
            in_range(cur@, x as int, y as int),
            i <= surroundings@.len(),
            forall|j: int|
                0 <= j < i ==> #[trigger] surroundings@[j].1.holds(
                    neighbour_count(cur@, x as int, y as int, surroundings@[j].0),
                ),
        decreases surroundings@.len() - i,
    {
        let (required, test) = surroundings[i];
        let n = count_neighbours(cur, x, y, required);
        if !test.compare(n) {
            return false;
        }
        i += 1;
    }
    next.set(x, y, final_state);
    true
}

/// `start` with the entries of `out` written whose offset comes before
/// `(ri, rj)` in row-by-row order of the pattern.
spec fn written_upto(
    out: Seq<Seq<Option<State>>>,
    start: Seq<Seq<State>>,
    x: int,
    y: int,
    ri: int,
    rj: int,
) -> Seq<Seq<State>> {
    Seq::new(
        start.len(),
        |a: int|
            Seq::new(
                start[a].len(),
                |b: int|
                    if (a - x < ri || (a - x == ri && b - y < rj)) && pattern_at(out, a - x, b - y) is Some {
                        pattern_at(out, a - x, b - y).unwrap()
                    } else {
                        start[a][b]
                    },
            ),
    )
}

fn linear(
    cur: &Grid,
    next: &mut Grid,
    x: usize,
    y: usize,
    in_state: &Vec<Vec<Option<State>>>,
    out_state: &Vec<Vec<Option<State>>>,
) -> (r: bool)
    requires
        cur.wf(),
        old(next).wf(),
        old(next)@.len() == cur@.len(),
        in_range(cur@, x as int, y as int),
    ensures
        r == linear_matches(
            pattern_view(*in_state),
            pattern_view(*out_state),
            cur@,
            old(next)@,
            x as int,
            y as int,
        ),
        final(next).wf(),
        final(next)@ == (if r {
            linear_write(pattern_view(*out_state), old(next)@, x as int, y as int)
        } else {
            old(next)@
        }),
{
    proof {
        cur.lemma_wf();
        next.lemma_wf();
    }
    let n = cur.size();
    let ghost inp = pattern_view(*in_state);
    let ghost out = pattern_view(*out_state);
    let ghost start = next@;
    let mut ri: usize = 0;
    while ri < in_state.len()
        invariant
            cur.wf(),
            next.wf(),
            next@ == start,
            n == cur@.len(),
            start.len() == n,
            square(cur@),
            square(start),
            x < n,
            y < n,
            inp == pattern_view(*in_state),
            ri <= inp.len(),
            forall|a: int, b: int|
                0 <= a < ri && #[trigger] pattern_at(inp, a, b) is Some ==> lookup(
                    cur@,
                    x + a,
                    y + b,
                ) == pattern_at(inp, a, b) && lookup(start, x + a, y + b) == pattern_at(inp, a, b),
        decreases inp.len() - ri,
    {
        let col = &in_state[ri];
        let mut rj: usize = 0;
        while rj < col.len()
            invariant
                cur.wf(),
                next.wf(),
                next@ == start,
                n == cur@.len(),
                start.len() == n,
                square(cur@),
                square(start),
                x < n,
                y < n,
                inp == pattern_view(*in_state),
                ri < inp.len(),
                col@ == inp[ri as int],
                rj <= col@.len(),
                forall|a: int, b: int|
                    0 <= a < ri && #[trigger] pattern_at(inp, a, b) is Some ==> lookup(
                        cur@,
                        x + a,
                        y + b,
                    ) == pattern_at(inp, a, b) && lookup(start, x + a, y + b) == pattern_at(
                        inp,
                        a,
                        b,
                    ),
                forall|b: int|
                    0 <= b < rj && #[trigger] pattern_at(inp, ri as int, b) is Some ==> lookup(
                        cur@,
                        x + ri,
                        y + b,
                    ) == pattern_at(inp, ri as int, b) && lookup(start, x + ri, y + b)
                        == pattern_at(inp, ri as int, b),
            decreases col@.len() - rj,
        {
            match col[rj] {
                Some(want) => {
                    if ri >= n - x || rj >= n - y {
                        assert(pattern_at(inp, ri as int, rj as int) is Some);
                        return false;
                    }
                    if cur.get(x + ri, y + rj) != want || next.get(x + ri, y + rj) != want {
                        assert(pattern_at(inp, ri as int, rj as int) is Some);
                        return false;
                    }
                },
                None => {},
            }
            rj += 1;
        }
        ri += 1;
    }
    let mut ri: usize = 0;
    while ri < out_state.len()
        invariant
            next.wf(),
            next@ == start,
            start.len() == n,
            square(start),
            x < n,
            y < n,
            out == pattern_view(*out_state),
            ri <= out.len(),
            forall|a: int, b: int|
                0 <= a < ri && #[trigger] pattern_at(out, a, b) is Some ==> in_range(start, x + a, y + b),
        decreases out.len() - ri,
    {
        let col = &out_state[ri];
        let mut rj: usize = 0;
        while rj < col.len()
            invariant
                next.wf(),
                next@ == start,
                start.len() == n,
                square(start),
                x < n,
                y < n,
                out == pattern_view(*out_state),
                ri < out.len(),
                col@ == out[ri as int],
                rj <= col@.len(),
                forall|a: int, b: int|
                    0 <= a < ri && #[trigger] pattern_at(out, a, b) is Some ==> in_range(start, x + a, y + b),
                forall|b: int|
                    0 <= b < rj && #[trigger] pattern_at(out, ri as int, b) is Some ==> in_range(start, x + ri, y + b),
            decreases col@.len() - rj,
        {
            if col[rj].is_some() && (ri >= n - x || rj >= n - y) {
                assert(pattern_at(out, ri as int, rj as int) is Some);
                return false;
            }
            rj += 1;
        }
        ri += 1;
    }
    proof {
        let want = written_upto(out, start, x as int, y as int, 0, 0);
        assert forall|a: int| 0 <= a < n implies #[trigger] want[a] =~= start[a] by {}
        assert(want =~= start);
    }
    let mut ri: usize = 0;
    while ri < out_state.len()
        invariant
            next.wf(),
            start.len() == n,
            square(start),
            x < n,
            y < n,
            out == pattern_view(*out_state),
            ri <= out.len(),
            forall|a: int, b: int| #[trigger]
                pattern_at(out, a, b) is Some ==> in_range(start, x + a, y + b),
            next@ == written_upto(out, start, x as int, y as int, ri as int, 0),
        decreases out.len() - ri,
    {
        let col = &out_state[ri];
        let mut rj: usize = 0;
        while rj < col.len()
            invariant
                next.wf(),
                start.len() == n,
                square(start),
                x < n,
                y < n,
                out == pattern_view(*out_state),
                ri < out.len(),
                col@ == out[ri as int],
                rj <= col@.len(),
                forall|a: int, b: int| #[trigger]
                    pattern_at(out, a, b) is Some ==> in_range(start, x + a, y + b),
                next@ == written_upto(out, start, x as int, y as int, ri as int, rj as int),
            decreases col@.len() - rj,
        {
            match col[rj] {
                Some(s) => {
                    assert(pattern_at(out, ri as int, rj as int) is Some);
                    next.set(x + ri, y + rj, s);
                    proof {
                        let want = written_upto(out, start, x as int, y as int, ri as int, rj + 1);
                        assert forall|a: int| 0 <= a < n implies #[trigger] next@[a] =~= want[a] by {}
                        assert(next@ =~= want);
                    }
                },
                None => {
                    proof {
                        let want = written_upto(out, start, x as int, y as int, ri as int, rj + 1);
                        assert forall|a: int| 0 <= a < n implies #[trigger] next@[a] =~= want[a] by {}
                        assert(next@ =~= want);
                    }
                },
            }
            rj += 1;
        }
        proof {
            let want = written_upto(out, start, x as int, y as int, ri + 1, 0);
            assert forall|a: int| 0 <= a < n implies #[trigger] next@[a] =~= want[a] by {}
            assert(next@ =~= want);
        }
        ri += 1;
    }
    proof {
        let want = linear_write(out, start, x as int, y as int);
        assert forall|a: int| 0 <= a < n implies #[trigger] next@[a] =~= want[a] by {}
        assert(next@ =~= want);
    }
    true
}

} // verus!
