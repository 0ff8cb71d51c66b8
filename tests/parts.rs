use cellular::grid::Grid;
use cellular::state::{Comparison, State};

#[test]
fn state_cycles() {
    assert_eq!(State::Empty.next(), State::Full);
    assert_eq!(State::Full.next(), State::Empty);
    assert_eq!(State::Empty.prev(), State::Full);
    assert_eq!(State::Full.prev(), State::Empty);
    assert_eq!(State::default(), State::Empty);
    assert_eq!(State::Full.symbol(), 'X');
    assert_eq!(State::Empty.symbol(), 'O');
}

#[test]
fn comparisons() {
    assert!(Comparison::Equal(3).compare(3));
    assert!(!Comparison::Equal(3).compare(2));
    assert!(Comparison::NotEqual(3).compare(2));
    assert!(!Comparison::NotEqual(3).compare(3));
    assert!(Comparison::GreaterThan(3).compare(4));
    assert!(!Comparison::GreaterThan(3).compare(3));
    assert!(Comparison::LessThan(2).compare(1));
    assert!(!Comparison::LessThan(2).compare(2));
    assert!(Comparison::GreaterThanOrEqual(3).compare(3));
    assert!(!Comparison::GreaterThanOrEqual(3).compare(2));
    assert!(Comparison::LessThanOrEqual(3).compare(3));
    assert!(!Comparison::LessThanOrEqual(3).compare(4));
    assert!(Comparison::BetweenExclusive(1, 4).compare(2));
    assert!(!Comparison::BetweenExclusive(1, 4).compare(4));
    assert!(!Comparison::BetweenExclusive(1, 4).compare(1));
    assert!(Comparison::BetweenInclusive(1, 4).compare(4));
    assert!(Comparison::BetweenInclusive(1, 4).compare(1));
    assert!(!Comparison::BetweenInclusive(1, 4).compare(5));
    assert!(!Comparison::BetweenInclusive(4, 1).is_valid());
    assert!(!Comparison::BetweenExclusive(4, 1).is_valid());
    assert!(Comparison::BetweenExclusive(1, 1).is_valid());
    assert!(Comparison::Equal(0).is_valid());
}

#[test]
fn grid_lookups_are_bounds_safe() {
    let mut g = Grid::new(3);
    g.set(2, 1, State::Full);
    assert_eq!(g.get_cell(2, 1), Some(State::Full));
    assert_eq!(g.get_cell(1, 2), Some(State::Empty));
    assert_eq!(g.get_cell(3, 0), None);
    assert_eq!(g.get_cell(0, 3), None);
    assert_eq!(g.lookup(-1, 0), None);
    assert_eq!(g.lookup(0, -1), None);
    assert_eq!(g.lookup(2, 1), Some(State::Full));
    assert_eq!(g.lookup(3, 1), None);
    assert_eq!(g.get(2, 1), State::Full);
}

#[test]
fn scan_is_column_major() {
    let mut g = Grid::new(2);
    g.set(1, 0, State::Full);
    assert_eq!(
        g.scan(),
        vec![(0, 0, State::Empty), (0, 1, State::Empty), (1, 0, State::Full), (1, 1, State::Empty)]
    );
    assert!(Grid::new(0).scan().is_empty());
}

#[test]
fn grid_from_columns() {
    let g = Grid::from_columns(&vec![vec![State::Full, State::Empty], vec![State::Empty, State::Empty]]).unwrap();
    assert_eq!(g.size(), 2);
    assert_eq!(g.get(0, 0), State::Full);
    assert_eq!(g.get(0, 1), State::Empty);
    assert!(Grid::from_columns(&vec![vec![State::Full], vec![State::Empty, State::Empty]]).is_none());
    assert!(Grid::from_columns(&vec![vec![State::Full, State::Full]]).is_none());
    assert_eq!(Grid::from_columns(&vec![]).unwrap().size(), 0);
}

#[test]
fn copies_are_independent() {
    let g = Grid::new(2);
    let mut c = g.copy();
    c.set(0, 0, State::Full);
    assert_eq!(g.get(0, 0), State::Empty);
    assert_eq!(c.get(0, 0), State::Full);
    let cleared = c.cleared();
    assert_eq!(cleared.get(0, 0), State::Empty);
    assert_eq!(cleared.size(), 2);
}
