use vstd::prelude::*;

use crate::state::State;

verus! {

/// Every column of `g` is as long as `g` has columns.
pub open spec fn square(g: Seq<Seq<State>>) -> bool {
    forall|x: int| 0 <= x < g.len() ==> #[trigger] g[x].len() == g.len()
}

/// Whether `(x, y)` names a cell of `g`.
pub open spec fn in_range(g: Seq<Seq<State>>, x: int, y: int) -> bool {
    0 <= x < g.len() && 0 <= y < g[x].len()
}

/// The cell at `(x, y)`, or `None` off the grid: no wraparound.
pub open spec fn lookup(g: Seq<Seq<State>>, x: int, y: int) -> Option<State> {
    if in_range(g, x, y) {
        Some(g[x][y])
    } else {
        None
    }
}

/// `g` with the cell at `(x, y)` replaced by `s`.
pub open spec fn put(g: Seq<Seq<State>>, x: int, y: int, s: State) -> Seq<Seq<State>> {
    g.update(x, g[x].update(y, s))
}

/// The `n` by `n` grid of empty cells.
pub open spec fn blank(n: nat) -> Seq<Seq<State>> {
    Seq::new(n, |x: int| Seq::new(n, |y: int| State::Empty))
}

/// The column-major listing of `g`: entry `x * n + y` is `(x, y, g[x][y])`.
pub open spec fn is_scan_of(s: Seq<(usize, usize, State)>, g: Seq<Seq<State>>) -> bool {
    &&& s.len() == g.len() * g.len()
    &&& forall|x: int, y: int|
        0 <= x < g.len() && 0 <= y < g.len() ==> #[trigger] s[x * g.len() + y] == (
        x as usize,
        y as usize,
        g[x][y],
    )
}

proof fn lemma_flat_bound(n: int, x: int, y: int)
    requires
        0 <= x < n,
        0 <= y < n,
    ensures
        0 <= x * n + y < n * n,
        x * n + y + 1 <= (x + 1) * n,
{
    assert(0 <= x * n + y < n * n) by (nonlinear_arith)
        requires
            0 <= x < n,
            0 <= y < n,
    ;
    assert(x * n + y + 1 <= (x + 1) * n) by (nonlinear_arith)
        requires
            0 <= y < n,
    ;
}

proof fn lemma_flat_unique(n: int, a: int, b: int, x: int, y: int)
    requires
        0 <= a,
        0 <= x,
        0 <= b < n,
        0 <= y < n,
        a * n + b == x * n + y,
    ensures
        a == x,
        b == y,
{
    if a < x {
        assert(a * n + b < x * n + y) by (nonlinear_arith)
            requires
                a < x,
                0 <= b < n,
                0 <= y,
        ;
    } else if a > x {
        assert(x * n + y < a * n + b) by (nonlinear_arith)
            requires
                x < a,
                0 <= y < n,
                0 <= b,
        ;
    }
}

proof fn lemma_side_fits(n: int)
    requires
        0 <= n,
        n * n <= u64::MAX,
    ensures
        n < 0x1_0000_0000,
{
    if n >= 0x1_0000_0000 {
        assert(n * n >= 0x1_0000_0000 * 0x1_0000_0000) by (nonlinear_arith)
            requires
                n >= 0x1_0000_0000,
        ;
    }
}

/// A square grid of cells, fixed in size once made.
///
/// Cells are held column by column in one buffer; `(x, y)` is column `x`,
/// row `y`.
#[derive(Debug)]
pub struct Grid {
    size: usize,
    cells: Vec<State>,
}

impl View for Grid {
    type V = Seq<Seq<State>>;

    closed spec fn view(&self) -> Seq<Seq<State>> {
        Seq::new(
            self.size as nat,
            |x: int| Seq::new(self.size as nat, |y: int| self.cells@[x * self.size + y]),
        )
    }
}

impl Grid {
    /// The buffer holds exactly one entry per cell, and the cell count fits a `usize`.
    pub closed spec fn wf(&self) -> bool {
        &&& self.cells@.len() == self.size * self.size
        &&& self.size * self.size <= usize::MAX
    }

    /// A well-formed grid is square, and its side is below 2^32.
    pub proof fn lemma_wf(&self)
        requires
            self.wf(),
        ensures
            square(self@),
            self@.len() < 0x1_0000_0000,
            self@.len() * self@.len() <= usize::MAX,
    {
        lemma_side_fits(self.size as int);
    }

    /// The all-empty grid of the given side.
    pub fn new(size: usize) -> (r: Grid)
        requires
            size * size <= usize::MAX,
        ensures
            r.wf(),
            r@ == blank(size as nat),
    {
        let total: usize = size * size;
        let mut cells: Vec<State> = Vec::new();
        while cells.len() < total
            invariant
                cells@.len() <= total,
                forall|k: int| 0 <= k < cells@.len() ==> cells@[k] == State::Empty,
            decreases total - cells@.len(),
        {
            cells.push(State::Empty);
        }
        let r = Grid { size, cells };
        proof {
            r.lemma_wf();
            assert forall|x: int| 0 <= x < size implies #[trigger] r@[x] == blank(size as nat)[x] by {
                assert forall|y: int| 0 <= y < size implies r@[x][y] == State::Empty by {
                    lemma_flat_bound(size as int, x, y);
                }
                assert(r@[x] =~= blank(size as nat)[x]);
            }
            assert(r@ =~= blank(size as nat));
        }
        r
    }

    /// The same side, every cell empty.
    pub fn cleared(&self) -> (r: Grid)
        requires
            self.wf(),
        ensures
            r.wf(),
            r@ == blank(self@.len()),
    {
        proof {
            self.lemma_wf();
        }
        Grid::new(self.size)
    }

    /// The grid whose column `x` is `cols[x]`, if the columns make a square.
    pub fn from_columns(cols: &Vec<Vec<State>>) -> (r: Option<Grid>)
        ensures
            r is Some <==> (forall|x: int| 0 <= x < cols@.len() ==> #[trigger] cols@[x]@.len() == cols@.len())
                && cols@.len() * cols@.len() <= usize::MAX,
            r matches Some(g) ==> g.wf() && g@ == Seq::new(cols@.len(), |x: int| cols@[x]@),
    {
        let size = cols.len();
        let mut x: usize = 0;
        while x < size
            invariant
                size == cols@.len(),
                x <= size,
                forall|a: int| 0 <= a < x ==> #[trigger] cols@[a]@.len() == size,
            decreases size - x,
        {
            if cols[x].len() != size {
                return None;
            }
            x += 1;
        }
        if size > 0 && size > usize::MAX / size {
            proof {
                assert(size * size > usize::MAX) by (nonlinear_arith)
                    requires
                        size > 0,
                        size > usize::MAX / size,
                ;
            }
            return None;
        }
        proof {
            if size > 0 {
                assert(size * size <= usize::MAX) by (nonlinear_arith)
                    requires
                        size > 0,
                        size <= usize::MAX / size,
                ;
            }
        }
        let mut cells: Vec<State> = Vec::new();
        let mut x: usize = 0;
        while x < size
            invariant
                size == cols@.len(),
                size * size <= usize::MAX,
                x <= size,
                forall|a: int| 0 <= a < size ==> #[trigger] cols@[a]@.len() == size,
                cells@.len() == x * size,
                forall|a: int, b: int|
                    0 <= a < x && 0 <= b < size ==> cells@[#[trigger] (a * size + b)] == cols@[a]@[b],
            decreases size - x,
        {
            let mut y: usize = 0;
            while y < size
                invariant
                    size == cols@.len(),
                    size * size <= usize::MAX,
                    x < size,
                    y <= size,
                    forall|a: int| 0 <= a < size ==> #[trigger] cols@[a]@.len() == size,
                    cells@.len() == x * size + y,
                    forall|a: int, b: int|
                        0 <= a < x && 0 <= b < size ==> cells@[#[trigger] (a * size + b)] == cols@[a]@[b],
                    forall|b: int| 0 <= b < y ==> cells@[#[trigger] (x * size + b)] == cols@[x as int]@[b],
                decreases size - y,
            {
                proof {
                    lemma_flat_bound(size as int, x as int, y as int);
                }
                let ghost before = cells@;
                cells.push(cols[x][y]);
                proof {
                    assert forall|a: int, b: int|
                        0 <= a < x && 0 <= b < size implies cells@[#[trigger] (a * size + b)] == cols@[a]@[b] by {
                        lemma_flat_bound(size as int, a, b);
                        assert(a * size + b + 1 <= x * size) by (nonlinear_arith)
                            requires
                                a < x,
                                a * size + b + 1 <= (a + 1) * size,
                        ;
                        assert(cells@[a * size + b] == before[a * size + b]);
                    }
                }
                y += 1;
            }
            proof {
                assert((x + 1) * size == x * size + size) by (nonlinear_arith);
            }
            x += 1;
        }
        let g = Grid { size, cells };
        proof {
            g.lemma_wf();
            let want = Seq::new(cols@.len(), |x: int| cols@[x]@);
            assert forall|a: int| 0 <= a < size implies #[trigger] g@[a] == want[a] by {
                assert(g@[a] =~= want[a]);
            }
            assert(g@ =~= want);
        }
        Some(g)
    }

    /// The side of the grid.
    pub fn size(&self) -> (r: usize)
        requires
            self.wf(),
        ensures
            r == self@.len(),
    {
        self.size
    }

    /// The cell at `(x, y)`, or `None` when it lies off the grid.
    pub fn get_cell(&self, x: usize, y: usize) -> (r: Option<State>)
        requires
            self.wf(),
        ensures
            r == lookup(self@, x as int, y as int),
    {
        proof {
            self.lemma_wf();
        }
        if x < self.size && y < self.size {
            proof {
                lemma_flat_bound(self.size as int, x as int, y as int);
            }
            Some(self.cells[x * self.size + y])
        } else {
            None
        }
    }

    /// The cell at signed coordinates, or `None` when they lie off the grid.
    pub fn lookup(&self, x: i64, y: i64) -> (r: Option<State>)
        requires
            self.wf(),
        ensures
            r == lookup(self@, x as int, y as int),
    {
        proof {
            self.lemma_wf();
        }
        if x < 0 || y < 0 {
            return None;
        }
        if (x as u64) >= (self.size as u64) || (y as u64) >= (self.size as u64) {
            return None;
        }
        self.get_cell(x as usize, y as usize)
    }

    /// The cell at `(x, y)`, which must lie on the grid.
    pub fn get(&self, x: usize, y: usize) -> (r: State)
        requires
            self.wf(),
            in_range(self@, x as int, y as int),
        ensures
            r == self@[x as int][y as int],
    {
        proof {
            self.lemma_wf();
            lemma_flat_bound(self.size as int, x as int, y as int);
        }
        self.cells[x * self.size + y]
    }

    /// Writes `s` at `(x, y)`, which must lie on the grid.
    pub fn set(&mut self, x: usize, y: usize, s: State)
        requires
            old(self).wf(),
            in_range(old(self)@, x as int, y as int),
        ensures
            final(self).wf(),
            final(self)@ == put(old(self)@, x as int, y as int, s),
    {
        proof {
            self.lemma_wf();
            lemma_flat_bound(self.size as int, x as int, y as int);
        }
        let ghost before = self@;
        let n = self.size;
        self.cells.set(x * n + y, s);
        proof {
            let want = put(before, x as int, y as int, s);
            assert forall|a: int| 0 <= a < n implies #[trigger] self@[a] == want[a] by {
                assert forall|b: int| 0 <= b < n implies self@[a][b] == want[a][b] by {
                    lemma_flat_bound(n as int, a, b);
                    if a * n + b == x * n + y {
                        lemma_flat_unique(n as int, a, b, x as int, y as int);
                    }
                }
                assert(self@[a] =~= want[a]);
            }
            assert(self@ =~= want);
        }
    }

    /// An independent copy.
    pub fn copy(&self) -> (r: Grid)
        requires
            self.wf(),
        ensures
            r.wf(),
            r@ == self@,
    {
        let mut cells: Vec<State> = Vec::new();
        let mut k: usize = 0;
        while k < self.cells.len()
            invariant
                k <= self.cells@.len(),
                cells@ == self.cells@.subrange(0, k as int),
            decreases self.cells@.len() - k,
        {
            cells.push(self.cells[k]);
            k += 1;
            assert(cells@ =~= self.cells@.subrange(0, k as int));
        }
        assert(cells@ =~= self.cells@);
        Grid { size: self.size, cells }
    }

    /// Every cell with its coordinates, column by column, top to bottom.
    pub fn scan(&self) -> (r: Vec<(usize, usize, State)>)
        requires
            self.wf(),
        ensures
            is_scan_of(r@, self@),
    {
        proof {
            self.lemma_wf();
        }
        let n = self.size;
        let mut out: Vec<(usize, usize, State)> = Vec::new();
        let mut x: usize = 0;
        while x < n
            invariant
                n == self@.len(),
                self.wf(),
                square(self@),
                x <= n,
                out@.len() == x * n,
                forall|a: int, b: int|
                    0 <= a < x && 0 <= b < n ==> #[trigger] out@[a * n + b] == (
                    a as usize,
                    b as usize,
                    self@[a][b],
                ),
            decreases n - x,
        {
            let mut y: usize = 0;
            while y < n
                invariant
                    n == self@.len(),
                    self.wf(),
                    square(self@),
                    x < n,
                    y <= n,
                    out@.len() == x * n + y,
                    forall|a: int, b: int|
                        0 <= a < x && 0 <= b < n ==> #[trigger] out@[a * n + b] == (
                        a as usize,
                        b as usize,
                        self@[a][b],
                    ),
                    forall|b: int|
                        0 <= b < y ==> #[trigger] out@[x * n + b] == (x, b as usize, self@[x as int][b]),
                decreases n - y,
            {
                let ghost before = out@;
                let s = self.get(x, y);
                out.push((x, y, s));
                proof {
                    assert forall|a: int, b: int| 0 <= a < x && 0 <= b < n implies #[trigger] out@[a * n + b] == (
                        a as usize,
                        b as usize,
                        self@[a][b],
                    ) by {
                        lemma_flat_bound(n as int, a, b);
                        assert(a * n + b + 1 <= x * n) by (nonlinear_arith)
                            requires
                                a < x,
                                a * n + b + 1 <= (a + 1) * n,
                        ;
                        assert(out@[a * n + b] == before[a * n + b]);
                    }
                }
                y += 1;
            }
            proof {
                assert((x + 1) * n == x * n + n) by (nonlinear_arith);
            }
            x += 1;
        }
        out
    }
}

} // verus!
