use life_engine::game::GameOfLife;
use life_engine::grid::Grid;
use life_engine::grid::Position;
use life_engine::patterns::PatternKind;

fn has(game: &GameOfLife, x: i32, y: i32) -> bool {
    game.live.contains_pos(Position::new(x, y))
}

#[test]
fn empty_board_stays_empty() {
    let mut game = GameOfLife::new(10, 10, 1);
    game.next_generation();
    assert!(game.live.is_empty());
    assert_eq!(game.generation, 1);
    game.set_wrap(true);
    game.next_generation();
    assert!(game.live.is_empty());
    assert_eq!(game.generation, 2);
}

#[test]
fn block_is_fixed_point_bounded() {
    let mut game = GameOfLife::new(10, 10, 1);
    game.apply_pattern(PatternKind::Block, 4, 4);
    assert_eq!(game.live.count(), 4);
    game.next_generation();
    assert_eq!(game.live.count(), 4);
    assert!(has(&game, 4, 4));
    assert!(has(&game, 5, 4));
    assert!(has(&game, 4, 5));
    assert!(has(&game, 5, 5));
}

#[test]
fn block_is_fixed_point_wrapped_across_corner() {
    let mut game = GameOfLife::new(10, 10, 1);
    game.set_wrap(true);
    game.apply_pattern(PatternKind::Block, 9, 9);
    assert_eq!(game.live.count(), 4);
    game.next_generation();
    assert_eq!(game.live.count(), 4);
    assert!(has(&game, 9, 9));
    assert!(has(&game, 0, 9));
    assert!(has(&game, 9, 0));
    assert!(has(&game, 0, 0));
}

#[test]
fn blinker_has_period_two() {
    let mut game = GameOfLife::new(10, 10, 1);
    game.apply_pattern(PatternKind::Blinker, 4, 4);
    assert_eq!(game.live.count(), 3);
    game.next_generation();
    assert_eq!(game.live.count(), 3);
    assert!(has(&game, 5, 3));
    assert!(has(&game, 5, 4));
    assert!(has(&game, 5, 5));
    game.next_generation();
    assert_eq!(game.live.count(), 3);
    assert!(has(&game, 4, 4));
    assert!(has(&game, 5, 4));
    assert!(has(&game, 6, 4));
}

#[test]
fn blinker_oscillates_across_wrap_edge() {
    let mut game = GameOfLife::new(5, 5, 1);
    game.set_wrap(true);
    game.apply_pattern(PatternKind::Blinker, 3, 2);
    assert_eq!(game.live.count(), 3);
    assert!(has(&game, 3, 2));
    assert!(has(&game, 4, 2));
    assert!(has(&game, 0, 2));
    game.next_generation();
    assert_eq!(game.live.count(), 3);
    assert!(has(&game, 4, 1));
    assert!(has(&game, 4, 2));
    assert!(has(&game, 4, 3));
    game.next_generation();
    assert_eq!(game.live.count(), 3);
    assert!(has(&game, 3, 2));
    assert!(has(&game, 4, 2));
    assert!(has(&game, 0, 2));
}

#[test]
fn stamping_near_edge_clips_cell_by_cell() {
    let mut game = GameOfLife::new(10, 10, 1);
    game.apply_pattern(PatternKind::Glider, 8, 8);
    // Offsets (1,0),(2,1),(0,2),(1,2),(2,2): only (9,8) stays in bounds.
    assert_eq!(game.live.count(), 1);
    assert!(has(&game, 9, 8));
}

#[test]
fn stamping_near_edge_wraps_every_cell() {
    let mut game = GameOfLife::new(10, 10, 1);
    game.set_wrap(true);
    game.apply_pattern(PatternKind::Glider, 8, 8);
    assert_eq!(game.live.count(), 5);
    assert!(has(&game, 9, 8));
    assert!(has(&game, 0, 9));
    assert!(has(&game, 8, 0));
    assert!(has(&game, 9, 0));
    assert!(has(&game, 0, 0));
}

#[test]
fn toggle_twice_is_identity() {
    let mut game = GameOfLife::new(10, 10, 1);
    game.add_cell(2, 2);
    game.toggle_cell(3, 3);
    assert!(has(&game, 3, 3));
    game.toggle_cell(3, 3);
    assert!(!has(&game, 3, 3));
    assert!(has(&game, 2, 2));
    assert_eq!(game.live.count(), 1);
    // An out-of-bounds toggle is a no-op under bounded mode.
    game.toggle_cell(-1, 5);
    game.toggle_cell(10, 0);
    assert_eq!(game.live.count(), 1);
}

#[test]
fn toggle_wraps_under_wrap_mode() {
    let mut game = GameOfLife::new(10, 10, 1);
    game.set_wrap(true);
    game.toggle_cell(-1, 12);
    assert!(has(&game, 9, 2));
    game.toggle_cell(-1, 12);
    assert!(!has(&game, 9, 2));
    assert!(game.live.is_empty());
}

#[test]
fn canonicalization_is_total_and_idempotent() {
    let grid = Grid::new(7, 5);
    for &(x, y) in &[(-13, 23), (-1, -1), (0, 0), (6, 4), (7, 5), (700, -500), (i32::MIN, i32::MAX)] {
        let p = grid.wrap(x, y);
        assert!(0 <= p.x() && p.x() < 7);
        assert!(0 <= p.y() && p.y() < 5);
        let q = grid.wrap(p.x(), p.y());
        assert_eq!(q.x(), p.x());
        assert_eq!(q.y(), p.y());
    }
    let p = grid.wrap(-13, 23);
    assert_eq!(p.x(), 1);
    assert_eq!(p.y(), 3);
}

#[test]
fn in_bounds_matches_rectangle() {
    let grid = Grid::new(10, 8);
    assert!(grid.in_bounds(0, 0));
    assert!(grid.in_bounds(9, 7));
    assert!(!grid.in_bounds(10, 0));
    assert!(!grid.in_bounds(0, 8));
    assert!(!grid.in_bounds(-1, 0));
    assert!(!grid.in_bounds(0, -1));
}

#[test]
fn glider_translates_by_one_one_after_four_steps() {
    let mut game = GameOfLife::new(10, 10, 1);
    game.apply_pattern(PatternKind::Glider, 0, 0);
    assert_eq!(game.live.count(), 5);
    for _ in 0..4 {
        game.next_generation();
    }
    assert_eq!(game.generation, 4);
    assert_eq!(game.live.count(), 5);
    // The same shape, translated by (1, 1).
    assert!(has(&game, 2, 1));
    assert!(has(&game, 3, 2));
    assert!(has(&game, 1, 3));
    assert!(has(&game, 2, 3));
    assert!(has(&game, 3, 3));
}

#[test]
fn diehard_dies_after_exactly_130_generations() {
    let mut game = GameOfLife::new(400, 400, 1);
    game.apply_pattern(PatternKind::Diehard, 200, 200);
    assert_eq!(game.live.count(), 7);
    for gen in 1..=129u32 {
        game.next_generation();
        assert!(!game.live.is_empty(), "died early at generation {}", gen);
    }
    game.next_generation();
    assert!(game.live.is_empty());
    assert_eq!(game.generation, 130);
}

#[test]
fn clear_empties_board_and_resets_generation() {
    let mut game = GameOfLife::new(10, 10, 1);
    game.apply_pattern(PatternKind::RPentomino, 4, 4);
    game.next_generation();
    game.next_generation();
    assert_eq!(game.generation, 2);
    game.clear();
    assert!(game.live.is_empty());
    assert_eq!(game.generation, 0);
}

#[test]
fn adding_a_live_cell_twice_is_a_no_op() {
    let mut game = GameOfLife::new(10, 10, 1);
    game.add_cell(3, 4);
    game.add_cell(3, 4);
    assert_eq!(game.live.count(), 1);
    assert!(has(&game, 3, 4));
}

#[test]
fn out_of_bounds_cells_are_dropped_under_bounded_mode() {
    let mut game = GameOfLife::new(10, 10, 1);
    game.add_cell(-1, 0);
    game.add_cell(0, -1);
    game.add_cell(10, 3);
    game.add_cell(3, 10);
    assert!(game.live.is_empty());
}

#[test]
fn overflowing_anchor_is_dropped_not_a_crash() {
    let mut game = GameOfLife::new(10, 10, 1);
    game.apply_pattern(PatternKind::Diehard, i32::MAX, i32::MAX);
    assert!(game.live.is_empty());
    game.set_wrap(true);
    game.apply_pattern(PatternKind::Diehard, i32::MAX, i32::MAX);
    assert!(game.live.is_empty());
    game.apply_pattern(PatternKind::Block, i32::MIN, i32::MIN);
    // Offsets (0,0),(0,1),(1,0),(1,1) do not overflow and wrap home.
    assert_eq!(game.live.count(), 4);
}

#[test]
fn set_wrap_changes_only_the_flag() {
    let mut game = GameOfLife::new(10, 10, 1);
    game.add_cell(5, 5);
    game.set_wrap(true);
    assert!(game.grid.wrap_world);
    assert_eq!(game.grid.width, 10);
    assert_eq!(game.grid.height, 10);
    assert!(has(&game, 5, 5));
    game.set_wrap(false);
    assert!(!game.grid.wrap_world);
}

#[test]
fn beacon_has_period_two() {
    let mut game = GameOfLife::new(12, 12, 1);
    game.apply_pattern(PatternKind::Beacon, 4, 4);
    assert_eq!(game.live.count(), 6);
    game.next_generation();
    // The two inner cells die; the corner blocks stay.
    assert_eq!(game.live.count(), 8);
    game.next_generation();
    assert_eq!(game.live.count(), 6);
    assert!(has(&game, 4, 4));
    assert!(has(&game, 5, 4));
    assert!(has(&game, 4, 5));
    assert!(has(&game, 6, 7));
    assert!(has(&game, 7, 6));
    assert!(has(&game, 7, 7));
}

#[test]
fn on_a_one_cell_wrap_board_a_cell_is_its_own_neighbor_eight_times() {
    // Every one of the 8 offsets wraps back to the single cell, so its
    // neighbor count is 8 and it dies.
    let mut game = GameOfLife::new(1, 1, 1);
    game.set_wrap(true);
    game.add_cell(0, 0);
    game.next_generation();
    assert!(game.live.is_empty());
}

#[test]
fn a_full_two_by_two_wrap_board_dies_of_overcrowding() {
    // On a 2x2 torus every offset of every cell lands on a live cell:
    // each neighbor count is 8, so all four die at once.
    let mut game = GameOfLife::new(2, 2, 1);
    game.set_wrap(true);
    for x in 0..2 {
        for y in 0..2 {
            game.add_cell(x, y);
        }
    }
    assert_eq!(game.live.count(), 4);
    game.next_generation();
    assert!(game.live.is_empty());
}

#[test]
fn position_accessors_return_components() {
    let p = Position::new(-7, 42);
    assert_eq!(p.x(), -7);
    assert_eq!(p.y(), 42);
}
