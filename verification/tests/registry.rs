use life_engine::game::GameOfLife;
use life_engine::patterns::get_pattern_by_index;
use life_engine::patterns::get_pattern_names;
use life_engine::patterns::PatternKind;

#[test]
fn pattern_names_are_in_menu_order() {
    let names = get_pattern_names();
    assert_eq!(
        names,
        vec![
            "Glider", "Random", "Block", "Blinker", "Beacon",
            "R-pentomino", "Acorn", "Diehard", "Gosper Gun", "Pentadecathlon",
        ]
    );
}

#[test]
fn pattern_index_matches_name_list() {
    let names = get_pattern_names();
    for (i, name) in names.iter().enumerate() {
        assert_eq!(get_pattern_by_index(i).name(), *name);
    }
}

#[test]
fn pattern_index_out_of_menu_falls_back_to_glider() {
    assert_eq!(get_pattern_by_index(10), PatternKind::Glider);
    assert_eq!(get_pattern_by_index(usize::MAX), PatternKind::Glider);
}

#[test]
fn random_pattern_stamps_nothing_itself() {
    let mut game = GameOfLife::new(10, 10, 1);
    game.apply_pattern(PatternKind::Random, 5, 5);
    assert!(game.live.is_empty());
}

#[test]
fn fixed_pattern_cell_counts() {
    let cases: Vec<(PatternKind, usize)> = vec![
        (PatternKind::Glider, 5),
        (PatternKind::Random, 0),
        (PatternKind::Block, 4),
        (PatternKind::Blinker, 3),
        (PatternKind::Beacon, 6),
        (PatternKind::RPentomino, 5),
        (PatternKind::Acorn, 7),
        (PatternKind::Diehard, 7),
        (PatternKind::GosperGun, 36),
        (PatternKind::Pentadecathlon, 12),
    ];
    for (kind, n) in cases {
        assert_eq!(kind.offsets().len(), n, "{}", kind.name());
        let mut game = GameOfLife::new(100, 100, 1);
        game.apply_pattern(kind, 50, 50);
        assert_eq!(game.live.count(), n, "{}", kind.name());
    }
}

#[test]
fn gosper_gun_emits_a_glider() {
    // After 30 generations the gun's population has grown: a first glider
    // is on its way and the gun itself persists.
    let mut game = GameOfLife::new(100, 100, 1);
    game.apply_pattern(PatternKind::GosperGun, 20, 20);
    let start = game.live.count();
    for _ in 0..30 {
        game.next_generation();
    }
    assert!(game.live.count() > start);
}

#[test]
fn pentadecathlon_stamps_with_negative_offsets() {
    // Two of its offsets reach one row above the anchor; at an anchor on
    // the top row those cells are clipped under bounded mode.
    let mut game = GameOfLife::new(30, 30, 1);
    game.apply_pattern(PatternKind::Pentadecathlon, 10, 0);
    assert_eq!(game.live.count(), 10);
    let mut wrapped = GameOfLife::new(30, 30, 1);
    wrapped.set_wrap(true);
    wrapped.apply_pattern(PatternKind::Pentadecathlon, 10, 0);
    assert_eq!(wrapped.live.count(), 12);
    assert!(wrapped.live.contains_pos(life_engine::grid::Position::new(11, 29)));
    assert!(wrapped.live.contains_pos(life_engine::grid::Position::new(14, 29)));
}
