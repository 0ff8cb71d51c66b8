use cellular::engine::{event, run, tick, update, Command, ConfigError, Model, TICK_INTERVAL_MS};
use cellular::grid::Grid;
use cellular::rule::{count_neighbours, Rule};
use cellular::state::{Comparison, State};

fn grid_with(size: usize, full: &[(usize, usize)]) -> Grid {
    let mut g = Grid::new(size);
    for &(x, y) in full {
        g.set(x, y, State::Full);
    }
    g
}

fn full_cells(g: &Grid) -> Vec<(usize, usize)> {
    g.scan()
        .into_iter()
        .filter(|&(_, _, s)| s == State::Full)
        .map(|(x, y, _)| (x, y))
        .collect()
}

fn life_rules() -> Vec<Rule> {
    vec![
        Rule::Radial {
            current_state: State::Empty,
            surroundings: vec![(State::Full, Comparison::Equal(3))],
            final_state: State::Full,
        },
        Rule::Radial {
            current_state: State::Full,
            surroundings: vec![(State::Full, Comparison::LessThan(2))],
            final_state: State::Empty,
        },
        Rule::Radial {
            current_state: State::Full,
            surroundings: vec![(State::Full, Comparison::GreaterThan(3))],
            final_state: State::Empty,
        },
    ]
}

fn gravity_rules() -> Vec<Rule> {
    vec![
        Rule::Linear {
            in_state: vec![vec![Some(State::Full), Some(State::Empty)]],
            out_state: vec![vec![Some(State::Empty), Some(State::Full)]],
        },
        Rule::Linear {
            in_state: vec![vec![Some(State::Full), Some(State::Full)], vec![None, Some(State::Empty)]],
            out_state: vec![vec![Some(State::Empty), None], vec![None, Some(State::Full)]],
        },
        Rule::Linear {
            in_state: vec![vec![None, Some(State::Empty)], vec![Some(State::Full), Some(State::Full)]],
            out_state: vec![vec![None, Some(State::Full)], vec![Some(State::Empty), None]],
        },
    ]
}

#[test]
fn glider_moves_one_cell_diagonally_in_four_ticks() {
    let seed = grid_with(5, &[(1, 0), (2, 1), (0, 2), (1, 2), (2, 2)]);
    let after = run(&seed, &life_rules(), 4);
    let mut got = full_cells(&after);
    got.sort();
    let mut want = vec![(2, 1), (3, 2), (1, 3), (2, 3), (3, 3)];
    want.sort();
    assert_eq!(got, want);
}

#[test]
fn glider_first_generation() {
    let seed = grid_with(5, &[(1, 0), (2, 1), (0, 2), (1, 2), (2, 2)]);
    let after = tick(&seed, &life_rules());
    let mut got = full_cells(&after);
    got.sort();
    let mut want = vec![(0, 1), (2, 1), (1, 2), (2, 2), (1, 3)];
    want.sort();
    assert_eq!(got, want);
}

#[test]
fn sand_falls_to_bottom_in_two_ticks() {
    let seed = grid_with(3, &[(1, 0)]);
    let rules = gravity_rules();
    let one = tick(&seed, &rules);
    assert_eq!(full_cells(&one), vec![(1, 1)]);
    let two = tick(&one, &rules);
    assert_eq!(full_cells(&two), vec![(1, 2)]);
    let three = tick(&two, &rules);
    assert_eq!(full_cells(&three), vec![(1, 2)]);
}

#[test]
fn sand_slides_off_a_pile() {
    let seed = grid_with(3, &[(1, 1), (1, 2)]);
    let after = tick(&seed, &gravity_rules());
    let mut got = full_cells(&after);
    got.sort();
    assert_eq!(got, vec![(1, 2), (2, 2)]);
}

#[test]
fn later_rule_decides_the_anchor() {
    let fill = Rule::Radial { current_state: State::Empty, surroundings: vec![], final_state: State::Full };
    let keep = Rule::Radial { current_state: State::Empty, surroundings: vec![], final_state: State::Empty };
    let g = Grid::new(3);
    let a = tick(&g, &vec![fill, keep]);
    assert!(full_cells(&a).is_empty());
    let fill = Rule::Radial { current_state: State::Empty, surroundings: vec![], final_state: State::Full };
    let keep = Rule::Radial { current_state: State::Empty, surroundings: vec![], final_state: State::Empty };
    let b = tick(&g, &vec![keep, fill]);
    assert_eq!(full_cells(&b).len(), 9);
}

#[test]
fn wildcards_match_anything_and_write_nothing() {
    let rule = Rule::Linear {
        in_state: vec![vec![Some(State::Full), None]],
        out_state: vec![vec![Some(State::Empty), None]],
    };
    for below in [State::Full, State::Empty] {
        let mut cur = grid_with(2, &[(0, 0)]);
        cur.set(0, 1, below);
        let mut next = cur.copy();
        assert!(rule.apply(&cur, &mut next, 0, 0));
        assert_eq!(next.get(0, 0), State::Empty);
        assert_eq!(next.get(0, 1), below);
    }
}

#[test]
fn linear_rule_fails_off_the_grid() {
    let rule = Rule::Linear {
        in_state: vec![vec![Some(State::Full), Some(State::Full)]],
        out_state: vec![vec![None, None]],
    };
    let cur = grid_with(2, &[(0, 0), (0, 1), (1, 0), (1, 1)]);
    let mut next = cur.copy();
    assert!(rule.apply(&cur, &mut next, 0, 0));
    assert!(!rule.apply(&cur, &mut next, 0, 1));
}

#[test]
fn linear_rule_is_blocked_by_earlier_writes() {
    let first = Rule::Radial { current_state: State::Empty, surroundings: vec![], final_state: State::Full };
    let second = Rule::Linear {
        in_state: vec![vec![Some(State::Empty)]],
        out_state: vec![vec![Some(State::Full)]],
    };
    let cur = Grid::new(1);
    let mut next = cur.copy();
    assert!(first.apply(&cur, &mut next, 0, 0));
    assert!(!second.apply(&cur, &mut next, 0, 0));
}

#[test]
fn neighbour_counts_at_corner_edge_and_inside() {
    let all = grid_with(3, &[(0, 0), (0, 1), (0, 2), (1, 0), (1, 1), (1, 2), (2, 0), (2, 1), (2, 2)]);
    assert_eq!(count_neighbours(&all, 0, 0, State::Full), 3);
    assert_eq!(count_neighbours(&all, 2, 2, State::Full), 3);
    assert_eq!(count_neighbours(&all, 1, 0, State::Full), 5);
    assert_eq!(count_neighbours(&all, 0, 1, State::Full), 5);
    assert_eq!(count_neighbours(&all, 1, 1, State::Full), 8);
    assert_eq!(count_neighbours(&all, 0, 0, State::Empty), 0);
    let one = Grid::new(1);
    assert_eq!(count_neighbours(&one, 0, 0, State::Empty), 0);
}

#[test]
fn replay_is_deterministic() {
    let seed = grid_with(6, &[(1, 0), (2, 1), (0, 2), (1, 2), (2, 2), (4, 4)]);
    let rules = life_rules();
    let mut a = seed.copy();
    let mut b = seed.copy();
    for _ in 0..6 {
        a = tick(&a, &rules);
        b = tick(&b, &rules);
        assert_eq!(a.scan(), b.scan());
    }
}

#[test]
fn paused_engine_never_advances() {
    let seed = grid_with(5, &[(1, 0), (2, 1), (0, 2), (1, 2), (2, 2)]);
    let mut m = Model::model(5, Some(seed.copy()), life_rules(), true, 0).unwrap();
    for t in [0u64, 50, 100, 1000, 100_000] {
        assert!(!update(&mut m, t));
        assert_eq!(m.grid().scan(), seed.scan());
    }
}

#[test]
fn pacing_floor_drops_early_ticks() {
    let seed = grid_with(5, &[(1, 0), (2, 1), (0, 2), (1, 2), (2, 2)]);
    let mut m = Model::model(5, Some(seed), life_rules(), false, 100).unwrap();
    assert!(!update(&mut m, 100 + TICK_INTERVAL_MS - 1));
    assert!(!update(&mut m, 20));
    assert!(update(&mut m, 100 + TICK_INTERVAL_MS));
    assert!(!update(&mut m, 100 + TICK_INTERVAL_MS + 10));
    assert!(update(&mut m, 100 + 2 * TICK_INTERVAL_MS));
    let mut got = full_cells(m.grid());
    got.sort();
    let seed = grid_with(5, &[(1, 0), (2, 1), (0, 2), (1, 2), (2, 2)]);
    let mut want = full_cells(&run(&seed, &life_rules(), 2));
    want.sort();
    assert_eq!(got, want);
}

#[test]
fn reset_empties_every_cell() {
    let seed = grid_with(4, &[(0, 0), (3, 3), (1, 2)]);
    let mut m = Model::model(4, Some(seed), vec![], false, 0).unwrap();
    event(&mut m, Command::Reset);
    assert_eq!(m.grid().size(), 4);
    assert!(full_cells(m.grid()).is_empty());
    m.reset();
    assert!(full_cells(m.grid()).is_empty());
}

#[test]
fn painting_clamps_to_the_grid() {
    let mut m = Model::model(4, None, vec![], false, 0).unwrap();
    assert_eq!(m.fill_state(), State::Empty);
    event(&mut m, Command::NextPaint);
    assert_eq!(m.fill_state(), State::Full);
    event(&mut m, Command::PaintAt(10, 1));
    event(&mut m, Command::PaintAt(2, 99));
    let mut got = full_cells(m.grid());
    got.sort();
    assert_eq!(got, vec![(2, 3), (3, 1)]);
    event(&mut m, Command::PrevPaint);
    assert_eq!(m.fill_state(), State::Empty);
    m.paint_at(3, 1);
    assert_eq!(full_cells(m.grid()), vec![(2, 3)]);
}

#[test]
fn toggle_pause_flips_the_flag() {
    let mut m = Model::model(2, None, vec![], false, 0).unwrap();
    assert!(!m.paused());
    event(&mut m, Command::TogglePause);
    assert!(m.paused());
    m.toggle_pause();
    assert!(!m.paused());
}

#[test]
fn construction_errors() {
    assert_eq!(Model::model(usize::MAX, None, vec![], false, 0).err(), Some(ConfigError::GridTooLarge));
    assert_eq!(Model::model(3, Some(Grid::new(4)), vec![], false, 0).err(), Some(ConfigError::SizeMismatch));
    let rules = vec![
        Rule::Radial { current_state: State::Full, surroundings: vec![], final_state: State::Empty },
        Rule::Radial {
            current_state: State::Full,
            surroundings: vec![(State::Full, Comparison::BetweenInclusive(5, 2))],
            final_state: State::Empty,
        },
    ];
    assert_eq!(Model::model(3, None, rules, false, 0).err(), Some(ConfigError::InvalidRule(1)));
    let wide = vec![Rule::Linear {
        in_state: vec![vec![None], vec![None], vec![None], vec![None]],
        out_state: vec![vec![None], vec![None], vec![None], vec![None]],
    }];
    assert_eq!(Model::model(3, None, wide, false, 0).err(), Some(ConfigError::InvalidRule(0)));
    let uneven = vec![Rule::Linear { in_state: vec![vec![None, None]], out_state: vec![vec![None]] }];
    assert_eq!(Model::model(3, None, uneven, false, 0).err(), Some(ConfigError::InvalidRule(0)));
    assert!(Model::model(3, None, gravity_rules(), false, 0).is_ok());
}

#[test]
fn resuming_from_a_generation_matches_a_full_run() {
    let seed = grid_with(5, &[(1, 0), (2, 1), (0, 2), (1, 2), (2, 2)]);
    let rules = life_rules();
    let straight = run(&seed, &rules, 4);
    let resumed = run(&run(&seed, &rules, 2), &rules, 2);
    assert_eq!(straight.scan(), resumed.scan());
}

#[test]
fn empty_grid_is_inert() {
    let mut m = Model::model(0, None, life_rules(), false, 0).unwrap();
    event(&mut m, Command::NextPaint);
    event(&mut m, Command::PaintAt(3, 3));
    assert!(update(&mut m, 100));
    assert_eq!(m.grid().size(), 0);
    assert!(m.grid().scan().is_empty());
}
