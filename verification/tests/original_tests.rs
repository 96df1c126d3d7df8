use ternary_game_of_life::{CellState, TernaryGrid};

#[test]
fn test_empty_grid() {
    let grid = TernaryGrid::new(5, 5);
    assert_eq!(grid.width(), 5);
    assert_eq!(grid.height(), 5);
    for y in 0..5 {
        for x in 0..5 {
            assert_eq!(grid.get(x, y), Some(CellState::Dead));
        }
    }
}

#[test]
fn test_set_get() {
    let mut grid = TernaryGrid::new(3, 3);
    grid.set(1, 1, CellState::Alive);
    grid.set(0, 0, CellState::Dormant);
    assert_eq!(grid.get(1, 1), Some(CellState::Alive));
    assert_eq!(grid.get(0, 0), Some(CellState::Dormant));
    assert_eq!(grid.get(2, 2), Some(CellState::Dead));
}

#[test]
fn test_neighbor_count_center() {
    let mut grid = TernaryGrid::new(3, 3);
    grid.set(0, 0, CellState::Alive);
    grid.set(1, 0, CellState::Alive);
    grid.set(2, 0, CellState::Dormant);
    // Center cell (1,1) has neighbors from all 8 positions (wrapping)
    let (dead, dormant, alive) = grid.count_neighbors(1, 1);
    assert_eq!(alive, 2);
    assert_eq!(dormant, 1);
    assert!(dead > 0); // remaining neighbors are dead
    assert_eq!(dead + dormant + alive, 8);
}

#[test]
fn test_neighbor_count_wrapping() {
    let mut grid = TernaryGrid::new(3, 3);
    grid.set(0, 0, CellState::Alive);
    // Cell (2, 2) should see (0,0) as a neighbor via wrapping
    let (_, _, alive) = grid.count_neighbors(2, 2);
    assert_eq!(alive, 1);
}

#[test]
fn test_step_isolation() {
    // Single alive cell with no neighbors dies
    let mut grid = TernaryGrid::new(5, 5);
    grid.set(2, 2, CellState::Alive);
    let next = grid.step();
    assert_eq!(next.get(2, 2), Some(CellState::Dead));
}

#[test]
fn test_step_survival() {
    // Block: 2x2 alive cells should be a still life
    let mut grid = TernaryGrid::new(5, 5);
    grid.set(1, 1, CellState::Alive);
    grid.set(2, 1, CellState::Alive);
    grid.set(1, 2, CellState::Alive);
    grid.set(2, 2, CellState::Alive);
    let next = grid.step();
    // All should survive (each has exactly 3 alive neighbors)
    assert_eq!(next.get(1, 1), Some(CellState::Alive));
    assert_eq!(next.get(2, 1), Some(CellState::Alive));
    assert_eq!(next.get(1, 2), Some(CellState::Alive));
    assert_eq!(next.get(2, 2), Some(CellState::Alive));
}

#[test]
fn test_step_birth() {
    // Dormant cell with exactly 3 alive neighbors becomes alive
    let mut grid = TernaryGrid::new(5, 5);
    grid.set(1, 1, CellState::Alive);
    grid.set(2, 1, CellState::Alive);
    grid.set(1, 2, CellState::Alive);
    grid.set(2, 2, CellState::Dormant);
    let next = grid.step();
    assert_eq!(next.get(2, 2), Some(CellState::Alive));
}

#[test]
fn test_step_overcrowding() {
    // Alive cell with 4+ alive neighbors dies
    let mut grid = TernaryGrid::new(5, 5);
    grid.set(2, 2, CellState::Alive); // center
    grid.set(1, 1, CellState::Alive);
    grid.set(2, 1, CellState::Alive);
    grid.set(3, 1, CellState::Alive);
    grid.set(1, 2, CellState::Alive);
    let next = grid.step();
    assert_eq!(next.get(2, 2), Some(CellState::Dead));
}

#[test]
fn test_block_still_life() {
    let mut grid = TernaryGrid::new(5, 5);
    grid.set(1, 1, CellState::Alive);
    grid.set(2, 1, CellState::Alive);
    grid.set(1, 2, CellState::Alive);
    grid.set(2, 2, CellState::Alive);
    assert!(grid.is_still_life());
}

#[test]
fn test_oscillator_block_period1() {
    // A 2x2 block is a still life, a period 1 oscillator
    let mut grid = TernaryGrid::new(5, 5);
    grid.set(1, 1, CellState::Alive);
    grid.set(2, 1, CellState::Alive);
    grid.set(1, 2, CellState::Alive);
    grid.set(2, 2, CellState::Alive);
    let period = grid.detect_oscillator();
    assert_eq!(period, Some(1));
}

#[test]
fn test_oscillator_empty_period1() {
    // Empty grid is a period 1 oscillator (still life)
    let grid = TernaryGrid::new(3, 3);
    let period = grid.detect_oscillator();
    assert_eq!(period, Some(1));
}

#[test]
fn test_blinker_no_oscillation_in_ternary() {
    // Classic blinker doesn't oscillate under ternary rules
    let mut grid = TernaryGrid::new(5, 5);
    grid.set(1, 2, CellState::Alive);
    grid.set(2, 2, CellState::Alive);
    grid.set(3, 2, CellState::Alive);
    let period = grid.detect_oscillator();
    assert!(period.is_none() || period == Some(1));
}

#[test]
fn test_empty_is_still_life() {
    let grid = TernaryGrid::new(3, 3);
    assert!(grid.is_still_life());
}

#[test]
fn test_glider_detection_translated_block() {
    let mut grid1 = TernaryGrid::new(10, 10);
    grid1.set(2, 2, CellState::Alive);
    grid1.set(3, 2, CellState::Alive);
    grid1.set(2, 3, CellState::Alive);
    grid1.set(3, 3, CellState::Alive);

    let mut grid2 = TernaryGrid::new(10, 10);
    grid2.set(4, 4, CellState::Alive);
    grid2.set(5, 4, CellState::Alive);
    grid2.set(4, 5, CellState::Alive);
    grid2.set(5, 5, CellState::Alive);

    let movement = TernaryGrid::detect_glider(&grid1, &grid2);
    assert!(movement.is_some());
    let (dx, dy) = movement.unwrap();
    assert_eq!(dx, 2);
    assert_eq!(dy, 2);
}

#[test]
fn test_glider_detection_no_movement() {
    // Same pattern in same position: no movement detected
    let mut grid = TernaryGrid::new(5, 5);
    grid.set(1, 1, CellState::Alive);
    grid.set(2, 1, CellState::Alive);
    let movement = TernaryGrid::detect_glider(&grid, &grid);
    assert!(movement.is_none());
}

#[test]
fn test_population_stats() {
    let mut grid = TernaryGrid::new(3, 3);
    grid.set(0, 0, CellState::Alive);
    grid.set(1, 1, CellState::Alive);
    grid.set(2, 2, CellState::Dormant);
    let stats = grid.population();
    assert_eq!(stats.alive, 2);
    assert_eq!(stats.dormant, 1);
    assert_eq!(stats.dead, 6);
    assert_eq!(stats.total, 9);
}

#[test]
fn test_steps_chain() {
    let mut grid = TernaryGrid::new(5, 5);
    grid.set(2, 2, CellState::Alive);
    let history = grid.steps(3);
    assert_eq!(history.len(), 3);
}

#[test]
fn test_render() {
    let mut grid = TernaryGrid::new(3, 1);
    grid.set(0, 0, CellState::Dead);
    grid.set(1, 0, CellState::Dormant);
    grid.set(2, 0, CellState::Alive);
    let rendered = grid.render();
    assert!(rendered.contains("\u{B7}"));
    assert!(rendered.contains("\u{25CB}"));
    assert!(rendered.contains("\u{25CF}"));
}

#[test]
fn test_from_cells() {
    let cells = vec![CellState::Alive, CellState::Dead, CellState::Dormant, CellState::Dead];
    let grid = TernaryGrid::from_cells(2, 2, cells).unwrap();
    assert_eq!(grid.get(0, 0), Some(CellState::Alive));
    assert_eq!(grid.get(1, 0), Some(CellState::Dead));
}

#[test]
fn test_from_cells_wrong_size() {
    let cells = vec![CellState::Alive];
    assert!(TernaryGrid::from_cells(2, 2, cells).is_none());
}

#[test]
fn test_find_still_lives() {
    // Place a block (2x2 alive); the 3x3 region containing it should be found
    let mut grid = TernaryGrid::new(6, 6);
    grid.set(2, 2, CellState::Alive);
    grid.set(3, 2, CellState::Alive);
    grid.set(2, 3, CellState::Alive);
    grid.set(3, 3, CellState::Alive);
    let still_lives = grid.find_still_lives(3);
    assert!(!still_lives.is_empty());
}

#[test]
fn test_dormant_activation() {
    // A dormant cell surrounded by 3 alive cells should activate
    let mut grid = TernaryGrid::new(5, 5);
    grid.set(0, 0, CellState::Alive);
    grid.set(1, 0, CellState::Alive);
    grid.set(0, 1, CellState::Alive);
    grid.set(1, 1, CellState::Dormant);
    let next = grid.step();
    assert_eq!(next.get(1, 1), Some(CellState::Alive));
}

#[test]
fn test_dead_near_miss() {
    // A dead cell with exactly 3 alive neighbors becomes dormant
    let mut grid = TernaryGrid::new(5, 5);
    grid.set(0, 0, CellState::Alive);
    grid.set(1, 0, CellState::Alive);
    grid.set(0, 1, CellState::Alive);
    grid.set(1, 1, CellState::Dead);
    let next = grid.step();
    assert_eq!(next.get(1, 1), Some(CellState::Dormant));
}

#[test]
fn test_out_of_bounds() {
    let grid = TernaryGrid::new(3, 3);
    assert_eq!(grid.get(5, 5), None);
}

#[test]
fn test_cell_state_trit_roundtrip() {
    assert_eq!(CellState::from_trit(CellState::Dead.to_trit()), CellState::Dead);
    assert_eq!(CellState::from_trit(CellState::Dormant.to_trit()), CellState::Dormant);
    assert_eq!(CellState::from_trit(CellState::Alive.to_trit()), CellState::Alive);
}
