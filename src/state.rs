use vstd::prelude::*;

verus! {

/// The value of one cell.
#[derive(Clone, Copy, PartialEq, Eq, Structural, Debug)]
pub enum State {
    Full,
    Empty,
}

impl State {
    /// The other value: the successor in the two-element cycle.
    pub open spec fn other(self) -> State {
        match self {
            State::Full => State::Empty,
            State::Empty => State::Full,
        }
    }

    /// Successor in the cycle `Empty -> Full -> Empty`.
    pub fn next(self) -> (r: State)
        ensures
            r == self.other(),
            r != self,
    {
        match self {
            State::Full => State::Empty,
            State::Empty => State::Full,
        }
    }

    /// Predecessor in the cycle; with two values it is the successor.
    pub fn prev(self) -> (r: State)
        ensures
            r == self.other(),
            r.other() == self,
    {
        match self {
            State::Full => State::Empty,
            State::Empty => State::Full,
        }
    }

    /// A one-character picture of the value: `X` for full, `O` for empty.
    pub fn symbol(&self) -> (r: char)
        ensures
            r == (if *self == State::Full { 'X' } else { 'O' }),
    {
        match self {
            State::Full => 'X',
            State::Empty => 'O',
        }
    }
}

impl Default for State {
    fn default() -> (r: State)
        ensures
            r == State::Empty,
    {
        State::Empty
    }
}

/// A relational test on a neighbour count.
#[derive(Clone, Copy, PartialEq, Eq, Structural, Debug)]
pub enum Comparison {
    Equal(usize),
    NotEqual(usize),
    GreaterThan(usize),
    LessThan(usize),
    GreaterThanOrEqual(usize),
    LessThanOrEqual(usize),
    /// Strictly between the two bounds.
    BetweenExclusive(usize, usize),
    /// Between the two bounds, both included.
    BetweenInclusive(usize, usize),
}

impl Comparison {
    /// Whether `n` passes the test.
    pub open spec fn holds(self, n: int) -> bool {
        match self {
            Comparison::Equal(v) => n == v,
            Comparison::NotEqual(v) => n != v,
            Comparison::GreaterThan(v) => n > v,
            Comparison::LessThan(v) => n < v,
            Comparison::GreaterThanOrEqual(v) => n >= v,
            Comparison::LessThanOrEqual(v) => n <= v,
            Comparison::BetweenExclusive(lo, hi) => lo < n < hi,
            Comparison::BetweenInclusive(lo, hi) => lo <= n <= hi,
        }
    }

    /// A range test whose lower bound lies above its upper bound.
    pub open spec fn is_inverted(self) -> bool {
        match self {
            Comparison::BetweenExclusive(lo, hi) => lo > hi,
            Comparison::BetweenInclusive(lo, hi) => lo > hi,
            _ => false,
        }
    }

    pub fn compare(&self, other: usize) -> (r: bool)
        ensures
            r == self.holds(other as int),
    {
        match self {
            Comparison::Equal(value) => other == *value,
            Comparison::NotEqual(value) => other != *value,
            Comparison::GreaterThan(value) => other > *value,
            Comparison::LessThan(value) => other < *value,
            Comparison::GreaterThanOrEqual(value) => other >= *value,
            Comparison::LessThanOrEqual(value) => other <= *value,
            Comparison::BetweenExclusive(lower, upper) => *lower < other && other < *upper,
            Comparison::BetweenInclusive(lower, upper) => *lower <= other && other <= *upper,
        }
    }

    /// Whether the test is well formed: a range's bounds are in order.
    pub fn is_valid(&self) -> (r: bool)
        ensures
            r == !self.is_inverted(),
    {
        match self {
            Comparison::BetweenExclusive(lower, upper) => *lower <= *upper,
            Comparison::BetweenInclusive(lower, upper) => *lower <= *upper,
            _ => true,
        }
    }
}

} // verus!
