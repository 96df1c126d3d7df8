use ternary_game_of_life::{CellState, PopulationStats, TernaryGrid};

fn grid_with(width: usize, height: usize, cells: &[(usize, usize, CellState)]) -> TernaryGrid {
    let mut g = TernaryGrid::new(width, height);
    for &(x, y, s) in cells {
        g.set(x, y, s);
    }
    g
}

#[test]
fn trit_values() {
    assert_eq!(CellState::Dead.to_trit(), -1);
    assert_eq!(CellState::Dormant.to_trit(), 0);
    assert_eq!(CellState::Alive.to_trit(), 1);
    assert_eq!(CellState::from_trit(-1), CellState::Dead);
    assert_eq!(CellState::from_trit(0), CellState::Dormant);
    assert_eq!(CellState::from_trit(1), CellState::Alive);
}

#[test]
fn symbols() {
    assert_eq!(CellState::Dead.to_string(), "\u{B7}");
    assert_eq!(CellState::Dormant.to_string(), "\u{25CB}");
    assert_eq!(CellState::Alive.to_string(), "\u{25CF}");
    assert_eq!(CellState::Alive.symbol_str(), "\u{25CF}");
}

#[test]
fn render_exact() {
    let g = grid_with(3, 1, &[(1, 0, CellState::Dormant), (2, 0, CellState::Alive)]);
    assert_eq!(g.render(), "\u{B7}\u{25CB}\u{25CF}\n");
    let blank = TernaryGrid::new(2, 2);
    assert_eq!(blank.render(), "\u{B7}\u{B7}\n\u{B7}\u{B7}\n");
}

#[test]
fn render_length_is_rows_times_width_plus_one() {
    let g = grid_with(4, 3, &[(3, 2, CellState::Alive)]);
    assert_eq!(g.render().chars().count(), 3 * (4 + 1));
    assert_eq!(TernaryGrid::new(0, 3).render(), "\n\n\n");
    assert_eq!(TernaryGrid::new(3, 0).render(), "");
}

#[test]
fn set_out_of_bounds_changes_nothing() {
    let mut g = grid_with(3, 3, &[(1, 1, CellState::Alive)]);
    let before = g.clone();
    g.set(3, 0, CellState::Alive);
    g.set(0, 3, CellState::Alive);
    assert!(g.same_as(&before));
    assert_eq!(g.get(3, 0), None);
}

#[test]
fn set_leaves_other_cells() {
    let mut g = grid_with(3, 2, &[(0, 0, CellState::Alive)]);
    g.set(2, 1, CellState::Dormant);
    assert_eq!(g.get(0, 0), Some(CellState::Alive));
    assert_eq!(g.get(2, 1), Some(CellState::Dormant));
    assert_eq!(g.get(1, 1), Some(CellState::Dead));
    g.set(2, 1, CellState::Alive);
    assert_eq!(g.get(2, 1), Some(CellState::Alive));
}

#[test]
fn neighbors_on_one_by_one_grid_are_the_cell_itself() {
    let g = grid_with(1, 1, &[(0, 0, CellState::Alive)]);
    assert_eq!(g.count_neighbors(0, 0), (0, 0, 8));
}

#[test]
fn neighbors_on_two_by_two_grid_repeat() {
    let g = grid_with(2, 2, &[(1, 1, CellState::Alive)]);
    assert_eq!(g.count_neighbors(0, 0), (4, 0, 4));
}

#[test]
fn neighbors_of_position_beyond_the_edge_wrap() {
    let g = grid_with(3, 3, &[(0, 0, CellState::Alive)]);
    assert_eq!(g.count_neighbors(2, 2), (7, 0, 1));
    assert_eq!(g.count_neighbors(5, 5), (7, 0, 1));
}

#[test]
fn neighbor_counts_sum_to_eight() {
    let g = grid_with(4, 4, &[(0, 0, CellState::Alive), (1, 0, CellState::Dormant), (3, 3, CellState::Dormant)]);
    for y in 0..4 {
        for x in 0..4 {
            let (d, m, a) = g.count_neighbors(x, y);
            assert_eq!(d + m + a, 8);
        }
    }
}

#[test]
fn dead_cell_crowd_stirring() {
    // 2 alive and 3 dormant neighbours stir a dead cell to dormant
    let g = grid_with(
        5,
        5,
        &[
            (1, 1, CellState::Alive),
            (2, 1, CellState::Alive),
            (3, 1, CellState::Dormant),
            (1, 2, CellState::Dormant),
            (3, 2, CellState::Dormant),
        ],
    );
    assert_eq!(g.count_neighbors(2, 2), (3, 3, 2));
    assert_eq!(g.step().get(2, 2), Some(CellState::Dormant));
}

#[test]
fn dead_cell_takes_two_steps_to_come_alive() {
    let g = grid_with(5, 5, &[(0, 0, CellState::Alive), (1, 0, CellState::Alive), (0, 1, CellState::Alive)]);
    let one = g.step();
    assert_eq!(one.get(1, 1), Some(CellState::Dormant));
    let two = one.step();
    assert_eq!(two.get(1, 1), Some(CellState::Alive));
}

#[test]
fn no_cell_jumps_a_state() {
    let g = grid_with(
        5,
        5,
        &[
            (1, 2, CellState::Alive),
            (2, 2, CellState::Alive),
            (3, 2, CellState::Alive),
            (2, 1, CellState::Dormant),
            (0, 0, CellState::Dormant),
        ],
    );
    let next = g.step();
    for y in 0..5 {
        for x in 0..5 {
            let before = g.get(x, y).unwrap();
            let after = next.get(x, y).unwrap();
            assert!(!(before == CellState::Dead && after == CellState::Alive));
            assert!(!(before == CellState::Alive && after == CellState::Dormant));
            assert!(!(before == CellState::Dormant && after == CellState::Dead));
        }
    }
}

#[test]
fn blinker_evolution() {
    let g = grid_with(5, 5, &[(1, 2, CellState::Alive), (2, 2, CellState::Alive), (3, 2, CellState::Alive)]);
    let one = g.step();
    let expected = grid_with(5, 5, &[(2, 1, CellState::Dormant), (2, 2, CellState::Alive), (2, 3, CellState::Dormant)]);
    assert!(one.same_as(&expected));
    assert_eq!(g.detect_oscillator(), None);
    assert!(!g.is_still_life());
}

#[test]
fn blank_grid_is_still_life_of_any_size() {
    for (w, h) in [(1, 1), (2, 7), (4, 3), (0, 5), (6, 0)] {
        let g = TernaryGrid::new(w, h);
        assert!(g.is_still_life());
        assert_eq!(g.detect_oscillator(), Some(1));
    }
}

#[test]
fn steps_follow_step() {
    let g = grid_with(5, 5, &[(0, 0, CellState::Alive), (1, 0, CellState::Alive), (0, 1, CellState::Alive)]);
    let history = g.steps(4);
    assert_eq!(history.len(), 4);
    assert!(history[0].same_as(&g.step()));
    for i in 1..4 {
        assert!(history[i].same_as(&history[i - 1].step()));
    }
    assert!(g.steps(0).is_empty());
}

#[test]
fn glider_shift_wraps_around() {
    let g1 = grid_with(
        10,
        10,
        &[(8, 8, CellState::Alive), (9, 8, CellState::Alive), (8, 9, CellState::Alive), (9, 9, CellState::Alive)],
    );
    let g2 = grid_with(
        10,
        10,
        &[(0, 0, CellState::Alive), (1, 0, CellState::Alive), (0, 1, CellState::Alive), (1, 1, CellState::Alive)],
    );
    assert_eq!(TernaryGrid::detect_glider(&g1, &g2), Some((-8, -8)));
}

#[test]
fn glider_needs_same_number_of_alive_cells() {
    let g1 = grid_with(5, 5, &[(1, 1, CellState::Alive)]);
    let g2 = grid_with(5, 5, &[(2, 2, CellState::Alive), (3, 3, CellState::Alive)]);
    assert_eq!(TernaryGrid::detect_glider(&g1, &g2), None);
    let empty = TernaryGrid::new(5, 5);
    assert_eq!(TernaryGrid::detect_glider(&empty, &empty), None);
}

#[test]
fn glider_rejects_a_changed_shape() {
    let g1 = grid_with(6, 6, &[(1, 1, CellState::Alive), (2, 1, CellState::Alive)]);
    let g2 = grid_with(6, 6, &[(3, 3, CellState::Alive), (3, 4, CellState::Alive)]);
    assert_eq!(TernaryGrid::detect_glider(&g1, &g2), None);
}

#[test]
fn still_lives_exact() {
    let g = grid_with(
        6,
        6,
        &[(2, 2, CellState::Alive), (3, 2, CellState::Alive), (2, 3, CellState::Alive), (3, 3, CellState::Alive)],
    );
    let mut three = Vec::new();
    for y in 0..4 {
        for x in 0..4 {
            three.push((x, y, 3, 3));
        }
    }
    assert_eq!(g.find_still_lives(3), three);
    let mut two = Vec::new();
    for y in 1..4 {
        for x in 1..4 {
            two.push((x, y, 2, 2));
        }
    }
    assert_eq!(g.find_still_lives(2), two);
    assert_eq!(g.find_still_lives(6), vec![(0, 0, 6, 6)]);
    assert!(g.find_still_lives(0).is_empty());
    assert!(g.find_still_lives(7).is_empty());
    assert!(TernaryGrid::new(6, 6).find_still_lives(2).is_empty());
}

#[test]
fn population_partition() {
    let g = grid_with(4, 3, &[(0, 0, CellState::Alive), (1, 2, CellState::Dormant), (3, 2, CellState::Dormant)]);
    let p = g.population();
    assert_eq!(p, PopulationStats { dead: 9, dormant: 2, alive: 1, total: 12 });
    assert_eq!(p.dead + p.dormant + p.alive, p.total);
    assert_eq!(TernaryGrid::new(0, 4).population(), PopulationStats { dead: 0, dormant: 0, alive: 0, total: 0 });
}

#[test]
fn from_cells_keeps_the_cells() {
    let cells = vec![CellState::Dead, CellState::Dormant, CellState::Alive, CellState::Alive, CellState::Dead, CellState::Dormant];
    let g = TernaryGrid::from_cells(3, 2, cells).unwrap();
    assert_eq!(g.width(), 3);
    assert_eq!(g.height(), 2);
    assert_eq!(g.get(2, 0), Some(CellState::Alive));
    assert_eq!(g.get(0, 1), Some(CellState::Alive));
    assert_eq!(g.get(2, 1), Some(CellState::Dormant));
    assert_eq!(g.population().total, 6);
}

#[test]
fn from_cells_with_overflowing_size() {
    assert!(TernaryGrid::from_cells(usize::MAX, 2, Vec::new()).is_none());
    assert!(TernaryGrid::from_cells(0, 5, Vec::new()).is_some());
}

#[test]
fn same_as_compares_dimensions_and_cells() {
    let a = grid_with(2, 3, &[(1, 1, CellState::Alive)]);
    let b = grid_with(3, 2, &[(1, 1, CellState::Alive)]);
    let c = grid_with(2, 3, &[(1, 1, CellState::Dormant)]);
    assert!(a.same_as(&a.clone()));
    assert!(!a.same_as(&b));
    assert!(!a.same_as(&c));
    assert!(a == a.clone());
}

#[test]
fn grid_without_alive_cells_is_still_life() {
    let g = grid_with(4, 4, &[(0, 0, CellState::Dormant), (1, 0, CellState::Dormant), (2, 3, CellState::Dormant)]);
    assert!(g.is_still_life());
    assert!(g.step().same_as(&g));
    assert_eq!(g.detect_oscillator(), Some(1));
}

#[test]
fn step_commutes_with_toroidal_shift() {
    let (w, h) = (7usize, 5usize);
    let (a, b) = (3usize, 4usize);
    let cells = [
        (0, 0, CellState::Alive),
        (1, 0, CellState::Alive),
        (0, 1, CellState::Alive),
        (6, 4, CellState::Dormant),
        (5, 4, CellState::Alive),
        (2, 2, CellState::Dormant),
        (3, 2, CellState::Alive),
    ];
    let g = grid_with(w, h, &cells);
    let shifted: Vec<(usize, usize, CellState)> = cells.iter().map(|&(x, y, s)| ((x + a) % w, (y + b) % h, s)).collect();
    let g2 = grid_with(w, h, &shifted);
    let n1 = g.step();
    let n2 = g2.step();
    for y in 0..h {
        for x in 0..w {
            assert_eq!(n2.get((x + a) % w, (y + b) % h), n1.get(x, y));
        }
    }
}

#[test]
fn duplicate_copies_the_grid() {
    let g = grid_with(3, 2, &[(2, 1, CellState::Alive), (0, 1, CellState::Dormant)]);
    let d = g.duplicate();
    assert!(d.same_as(&g));
    assert_eq!(d.get(2, 1), Some(CellState::Alive));
    assert_eq!(d.width(), 3);
    assert_eq!(d.height(), 2);
}

#[test]
fn dimensions_survive_set_and_steps() {
    let mut g = TernaryGrid::new(6, 4);
    g.set(1, 1, CellState::Alive);
    g.set(9, 9, CellState::Alive);
    assert_eq!((g.width(), g.height()), (6, 4));
    for s in g.steps(3) {
        assert_eq!((s.width(), s.height()), (6, 4));
    }
}
