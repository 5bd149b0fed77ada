use sandfall::cell::Cell;
use sandfall::game::Game;
use sandfall::rng::Coin;

fn grid_snapshot(game: &Game) -> Vec<Vec<Option<Cell>>> {
    let mut out = Vec::new();
    for c in 0..game.column_total {
        let mut col = Vec::new();
        for r in 0..game.row_total {
            col.push(game.cell_at(c, r));
        }
        out.push(col);
    }
    out
}

fn count_occupied(game: &Game) -> usize {
    let mut n = 0;
    for c in 0..game.column_total {
        for r in 0..game.row_total {
            if game.cell_at(c, r).is_some() {
                n += 1;
            }
        }
    }
    n
}

#[test]
fn new_starts_with_the_documented_defaults() {
    let game = Game::new(10, 8);
    assert!(!game.exit);
    assert_eq!(game.current_column, 5);
    assert_eq!(game.current_row, 4);
    assert!(game.gravity);
    assert!(game.topple);
    assert_eq!(game.topple_range, 3);
    assert_eq!(game.topple_min, 1);
    assert_eq!(game.topple_max, 100);
    assert_eq!(game.brush_current, 7);
    assert_eq!(game.brush_min, 7);
    assert_eq!(game.brush_max, 609);
    assert_eq!(game.column_total, 10);
    assert_eq!(game.row_total, 8);
    assert_eq!(count_occupied(&game), 0);
}

#[test]
fn point_brush_paints_exactly_the_cursor_cell() {
    // The default radius is 0.7 cells: no neighbor is within that
    // distance, so one application fills exactly one cell.
    let mut game = Game::new(5, 5);
    game.brush_apply(true);
    assert!(game.cell_at(2, 2).is_some());
    assert_eq!(count_occupied(&game), 1);
}

#[test]
fn wider_brush_covers_the_cross_but_not_the_diagonals() {
    // Radius 1.4 cells: the four orthogonal neighbors sit at distance 1
    // (inside), the diagonal neighbors at sqrt(2) > 1.4 (outside).
    let mut game = Game::new(5, 5);
    game.brush_increase();
    assert_eq!(game.brush_current, 14);
    game.brush_apply(true);
    assert_eq!(count_occupied(&game), 5);
    assert!(game.cell_at(2, 2).is_some());
    assert!(game.cell_at(1, 2).is_some());
    assert!(game.cell_at(3, 2).is_some());
    assert!(game.cell_at(2, 1).is_some());
    assert!(game.cell_at(2, 3).is_some());
    assert!(game.cell_at(1, 1).is_none());
    assert!(game.cell_at(3, 3).is_none());
}

#[test]
fn brush_clips_against_the_grid_edge() {
    let mut game = Game::new(3, 3);
    game.current_column = 0;
    game.current_row = 0;
    game.brush_increase();
    game.brush_apply(true);
    assert_eq!(count_occupied(&game), 3);
    assert!(game.cell_at(0, 0).is_some());
    assert!(game.cell_at(1, 0).is_some());
    assert!(game.cell_at(0, 1).is_some());
}

#[test]
fn painting_twice_changes_nothing_the_second_time() {
    // Painting over an already painted disc must not re-randomize any
    // grain: the grid is identical after the second application.
    let mut game = Game::new(9, 9);
    game.brush_increase();
    game.brush_increase();
    game.brush_apply(true);
    let first = grid_snapshot(&game);
    game.brush_apply(true);
    let second = grid_snapshot(&game);
    assert_eq!(first, second);
}

#[test]
fn erasing_clears_the_disc() {
    let mut game = Game::new(5, 5);
    game.brush_increase();
    game.brush_apply(true);
    assert!(count_occupied(&game) > 0);
    game.brush_apply(false);
    assert_eq!(count_occupied(&game), 0);
}

#[test]
fn painted_glyphs_come_from_the_enabled_classes() {
    let mut game = Game::new(7, 7);
    game.brush_increase();
    game.brush_increase();
    game.brush_apply(true);
    let symbols = "!@#$%^&*()_+-=[]{}|;:',.<>?/";
    for c in 0..7u16 {
        for r in 0..7u16 {
            if let Some(cell) = game.cell_at(c, r) {
                assert!(cell.hue < 360);
                let g = cell.glyph;
                assert!(
                    g.is_ascii_lowercase()
                        || g.is_ascii_uppercase()
                        || g.is_ascii_digit()
                        || symbols.contains(g)
                );
            }
        }
    }
}

#[test]
fn brush_size_clamps_at_both_bounds() {
    let mut game = Game::new(5, 5);
    game.brush_decrease();
    assert_eq!(game.brush_current, 7);
    for _ in 0..86 {
        game.brush_increase();
    }
    assert_eq!(game.brush_current, 609);
    game.brush_increase();
    assert_eq!(game.brush_current, 609);
    game.brush_decrease();
    assert_eq!(game.brush_current, 602);
}

#[test]
fn topple_range_clamps_at_both_bounds() {
    let mut game = Game::new(5, 5);
    for _ in 0..97 {
        game.topple_range_increase();
    }
    assert_eq!(game.topple_range, 100);
    game.topple_range_increase();
    assert_eq!(game.topple_range, 100);
    for _ in 0..99 {
        game.topple_range_decrease();
    }
    assert_eq!(game.topple_range, 1);
    game.topple_range_decrease();
    assert_eq!(game.topple_range, 1);
}

#[test]
fn toggles_flip_their_flags() {
    let mut game = Game::new(5, 5);
    game.toggle_gravity();
    assert!(!game.gravity);
    game.toggle_gravity();
    assert!(game.gravity);
    game.toggle_topple();
    assert!(!game.topple);
    game.toggle_topple();
    assert!(game.topple);
}

#[test]
fn reset_restores_the_startup_state() {
    let mut game = Game::new(5, 5);
    game.brush_increase();
    game.brush_apply(true);
    game.toggle_gravity();
    game.toggle_topple();
    game.topple_range_increase();
    game.reset();
    assert_eq!(count_occupied(&game), 0);
    assert_eq!(game.brush_current, game.brush_min);
    assert_eq!(game.topple_range, game.topple_range_default);
    assert!(game.gravity);
    assert!(game.topple);
}

#[test]
fn game_drain_clears_the_bottom_row_whatever_the_toggles_say() {
    let mut game = Game::new(3, 3);
    game.current_column = 1;
    game.current_row = 2;
    game.brush_apply(true);
    game.current_row = 1;
    game.brush_apply(true);
    assert!(game.cell_at(1, 2).is_some());
    assert!(game.cell_at(1, 1).is_some());
    game.toggle_gravity();
    game.drain();
    assert!(game.cell_at(1, 2).is_none());
    assert!(game.cell_at(1, 1).is_some());
}

#[test]
fn game_resize_keeps_the_overlap_and_truncates_the_rest() {
    let mut game = Game::new(5, 5);
    game.brush_apply(true);
    assert!(game.cell_at(2, 2).is_some());
    game.resize(3, 3);
    assert_eq!(game.column_total, 3);
    assert_eq!(game.row_total, 3);
    assert!(game.cell_at(2, 2).is_some());
    game.resize(2, 2);
    assert_eq!(count_occupied(&game), 0);
}

#[test]
fn tick_conserves_the_number_of_grains() {
    let mut game = Game::new(8, 8);
    game.brush_increase();
    game.brush_increase();
    game.brush_apply(true);
    let before = count_occupied(&game);
    assert!(before > 0);
    for _ in 0..20 {
        game.tick();
        assert_eq!(count_occupied(&game), before);
    }
}

#[test]
fn tick_drops_a_lone_unsupported_grain_one_row() {
    // A grain with nothing beneath it is not resting, so the topple pass
    // leaves it alone and gravity moves it down exactly one row.
    let mut game = Game::new(5, 5);
    game.current_column = 2;
    game.current_row = 0;
    game.brush_apply(true);
    let grain = game.cell_at(2, 0);
    assert!(grain.is_some());
    let mut coin = Coin::Fixed {
        bits: vec![true; 4],
        next: 0,
    };
    game.tick_with(&mut coin);
    assert!(game.cell_at(2, 0).is_none());
    assert_eq!(game.cell_at(2, 1), grain);
    assert_eq!(count_occupied(&game), 1);
}

#[test]
fn tick_keeps_a_settled_floor_in_place() {
    // A full bottom row is stable: nothing can fall (floor beneath) and
    // nothing can topple (no empty destination at the target row).
    let mut game = Game::new(3, 3);
    game.current_row = 2;
    game.current_column = 0;
    game.brush_apply(true);
    game.current_column = 1;
    game.brush_apply(true);
    game.current_column = 2;
    game.brush_apply(true);
    let before = grid_snapshot(&game);
    for _ in 0..5 {
        game.tick();
    }
    assert_eq!(grid_snapshot(&game), before);
}

#[test]
fn set_cell_fills_only_empty_cells_and_clears_occupied_ones() {
    let mut game = Game::new(3, 3);
    game.set_cell(1, 1, true);
    let grain = game.cell_at(1, 1);
    assert!(grain.is_some());
    game.set_cell(1, 1, true);
    assert_eq!(game.cell_at(1, 1), grain);
    game.set_cell(1, 1, false);
    assert!(game.cell_at(1, 1).is_none());
    game.set_cell(1, 1, false);
    assert!(game.cell_at(1, 1).is_none());
    assert_eq!(count_occupied(&game), 0);
}
