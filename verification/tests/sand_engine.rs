use sandfall::block::Block;
use sandfall::rng::Coin;
use sandfall::sand::{ConfigError, Sand};

fn block(ch: char) -> Block {
    Block {
        character: ch,
        hue: 0,
    }
}

fn count_occupied(sand: &Sand) -> usize {
    let mut n = 0;
    for col in sand.grid.iter() {
        for cell in col.iter() {
            if cell.is_some() {
                n += 1;
            }
        }
    }
    n
}

#[test]
fn new_builds_an_empty_grid() {
    let sand = Sand::new(4, 3, 60, 1).unwrap();
    assert_eq!(sand.columns, 4);
    assert_eq!(sand.rows, 3);
    assert_eq!(sand.speed, 1000 / 60);
    assert_eq!(sand.topple, 1);
    assert_eq!(sand.grid.len(), 4);
    assert!(sand.grid.iter().all(|c| c.len() == 3));
    assert_eq!(count_occupied(&sand), 0);
}

#[test]
fn new_rejects_zero_dimensions() {
    assert_eq!(
        Sand::new(0, 3, 60, 1).unwrap_err(),
        ConfigError::ZeroDimension
    );
    assert_eq!(
        Sand::new(3, 0, 60, 1).unwrap_err(),
        ConfigError::ZeroDimension
    );
}

#[test]
fn new_rejects_negative_topple_range() {
    assert_eq!(
        Sand::new(3, 3, 60, -1).unwrap_err(),
        ConfigError::NegativeToppleRange
    );
}

#[test]
fn cell_set_and_clear_round_trip() {
    let mut sand = Sand::new(3, 3, 60, 1).unwrap();
    assert!(sand.is_cell_unset(1, 1));
    sand.cell_set(1, 1, block('a'));
    assert!(sand.is_cell_set(1, 1));
    assert_eq!(sand.grid[1][1], Some(block('a')));
    sand.clear_cell(1, 1);
    assert!(sand.is_cell_unset(1, 1));
    assert_eq!(count_occupied(&sand), 0);
}

#[test]
fn gravity_moves_each_grain_down_exactly_one_row() {
    // Column [A, _, B, _]: both grains have an empty cell somewhere below,
    // so each falls exactly one row per pass -- A does not teleport through
    // the gap down to the floor.
    let mut sand = Sand::new(1, 4, 60, 1).unwrap();
    sand.cell_set(0, 0, block('A'));
    sand.cell_set(0, 2, block('B'));
    sand.effect_gravity();
    assert_eq!(sand.grid[0][0], None);
    assert_eq!(sand.grid[0][1], Some(block('A')));
    assert_eq!(sand.grid[0][2], None);
    assert_eq!(sand.grid[0][3], Some(block('B')));
}

#[test]
fn gravity_compacts_a_stack_from_the_bottom() {
    // Column [A, B, _] compacts to [_, A, B] in a single pass: the scan
    // runs bottom-to-top, so B falls first and A follows into its place.
    let mut sand = Sand::new(1, 3, 60, 1).unwrap();
    sand.cell_set(0, 0, block('A'));
    sand.cell_set(0, 1, block('B'));
    sand.effect_gravity();
    assert_eq!(sand.grid[0][0], None);
    assert_eq!(sand.grid[0][1], Some(block('A')));
    assert_eq!(sand.grid[0][2], Some(block('B')));
}

#[test]
fn gravity_never_drains_the_bottom_row() {
    let mut sand = Sand::new(2, 2, 60, 1).unwrap();
    sand.cell_set(0, 1, block('A'));
    sand.cell_set(1, 1, block('B'));
    for _ in 0..5 {
        sand.effect_gravity();
    }
    assert_eq!(sand.grid[0][1], Some(block('A')));
    assert_eq!(sand.grid[1][1], Some(block('B')));
}

#[test]
fn update_conserves_the_number_of_grains() {
    let mut sand = Sand::new(6, 8, 60, 2).unwrap();
    sand.cell_set(0, 0, block('a'));
    sand.cell_set(2, 1, block('b'));
    sand.cell_set(2, 2, block('c'));
    sand.cell_set(2, 3, block('d'));
    sand.cell_set(3, 0, block('e'));
    sand.cell_set(5, 7, block('f'));
    let before = count_occupied(&sand);
    for _ in 0..20 {
        sand.update();
        assert_eq!(count_occupied(&sand), before);
    }
}

#[test]
fn update_keeps_bottom_row_grains_in_place() {
    let mut sand = Sand::new(3, 3, 60, 1).unwrap();
    sand.cell_set(0, 2, block('A'));
    sand.cell_set(2, 2, block('B'));
    for _ in 0..10 {
        sand.update();
    }
    assert_eq!(sand.grid[0][2], Some(block('A')));
    assert_eq!(sand.grid[2][2], Some(block('B')));
}

#[test]
fn drain_clears_only_the_bottom_row() {
    // A fully occupied 3x3 grid keeps its top two rows (6 grains) and
    // loses the bottom row.
    let mut sand = Sand::new(3, 3, 60, 1).unwrap();
    for c in 0..3u16 {
        for r in 0..3u16 {
            sand.cell_set(c, r, block('x'));
        }
    }
    sand.drain();
    assert_eq!(count_occupied(&sand), 6);
    for c in 0..3usize {
        assert!(sand.grid[c][0].is_some());
        assert!(sand.grid[c][1].is_some());
        assert!(sand.grid[c][2].is_none());
    }
}

#[test]
fn reset_empties_the_grid_and_keeps_the_dimensions() {
    let mut sand = Sand::new(3, 3, 60, 1).unwrap();
    sand.cell_set(1, 1, block('x'));
    sand.reset();
    assert_eq!(sand.columns, 3);
    assert_eq!(sand.rows, 3);
    assert_eq!(count_occupied(&sand), 0);
}

#[test]
fn resize_keeps_the_overlap_region() {
    // (2,2) survives a shrink to 3x3 because 2 < 3 in both axes.
    let mut sand = Sand::new(5, 5, 60, 1).unwrap();
    sand.cell_set(2, 2, block('K'));
    sand.resize_grid(3, 3);
    assert_eq!(sand.columns, 3);
    assert_eq!(sand.rows, 3);
    assert_eq!(sand.grid.len(), 3);
    assert!(sand.grid.iter().all(|c| c.len() == 3));
    assert_eq!(sand.grid[2][2], Some(block('K')));
    assert_eq!(count_occupied(&sand), 1);
}

#[test]
fn resize_truncates_content_beyond_the_new_bounds() {
    // Shrinking to 2x2 loses (2,2) and must not panic.
    let mut sand = Sand::new(5, 5, 60, 1).unwrap();
    sand.cell_set(2, 2, block('K'));
    sand.resize_grid(2, 2);
    assert_eq!(sand.columns, 2);
    assert_eq!(sand.rows, 2);
    assert_eq!(count_occupied(&sand), 0);
}

#[test]
fn resize_grows_with_empty_cells() {
    let mut sand = Sand::new(2, 2, 60, 1).unwrap();
    sand.cell_set(1, 1, block('K'));
    sand.resize_grid(4, 3);
    assert_eq!(sand.grid.len(), 4);
    assert!(sand.grid.iter().all(|c| c.len() == 3));
    assert_eq!(sand.grid[1][1], Some(block('K')));
    assert_eq!(count_occupied(&sand), 1);
}

#[test]
fn topple_retries_the_opposite_side_after_a_blocked_preference() {
    // One row, three columns: the left neighbor is occupied, so a
    // left-preferring grain must retry right and land in the rightmost
    // column instead of staying stuck.
    let mut grid = vec![
        vec![Some(block('X'))],
        vec![Some(block('M'))],
        vec![None],
    ];
    let moved_left = sandfall::grid::topple_in_direction(&mut grid, 1, 0, 0, true);
    assert!(!moved_left);
    let moved_right = sandfall::grid::topple_in_direction(&mut grid, 1, 0, 0, false);
    assert!(moved_right);
    assert_eq!(grid[0][0], Some(block('X')));
    assert_eq!(grid[1][0], None);
    assert_eq!(grid[2][0], Some(block('M')));
}

#[test]
fn topple_pass_slides_a_blocked_grain_to_the_right() {
    // 3x2 grid, topple range 1. M rests on S; its left target (0,1) is
    // occupied by B, so even with every coin flip preferring left, M must
    // retry right and end up in the rightmost column, one row down.
    let mut sand = Sand::new(3, 2, 60, 1).unwrap();
    sand.cell_set(0, 1, block('B'));
    sand.cell_set(1, 1, block('S'));
    sand.cell_set(1, 0, block('M'));
    let mut coin = Coin::Fixed {
        bits: vec![true; 8],
        next: 0,
    };
    sand.effect_topple_with(1, &mut coin);
    assert_eq!(sand.grid[0][1], Some(block('B')));
    assert_eq!(sand.grid[1][1], Some(block('S')));
    assert_eq!(sand.grid[1][0], None);
    assert_eq!(sand.grid[2][1], Some(block('M')));
}

#[test]
fn topple_needs_support_underneath() {
    // A free-falling grain (empty cell below) never topples sideways.
    let mut sand = Sand::new(3, 3, 60, 1).unwrap();
    sand.cell_set(1, 0, block('M'));
    let mut coin = Coin::Fixed {
        bits: vec![true; 4],
        next: 0,
    };
    sand.effect_topple_with(1, &mut coin);
    assert_eq!(sand.grid[1][0], Some(block('M')));
    assert_eq!(count_occupied(&sand), 1);
}

#[test]
fn update_lets_a_lone_grain_fall_one_row() {
    let mut sand = Sand::new(3, 4, 60, 1).unwrap();
    sand.cell_set(1, 0, block('M'));
    sand.update();
    assert_eq!(sand.grid[1][0], None);
    assert_eq!(sand.grid[1][1], Some(block('M')));
    assert_eq!(count_occupied(&sand), 1);
}

#[test]
fn a_completely_full_grid_is_a_fixpoint_of_the_tick() {
    // No empty cell means no gravity destination and no topple
    // destination: ticking changes nothing, not even a single glyph.
    let mut sand = Sand::new(3, 3, 60, 2).unwrap();
    let glyphs = ['a', 'b', 'c', 'd', 'e', 'f', 'g', 'h', 'i'];
    for c in 0..3u16 {
        for r in 0..3u16 {
            sand.cell_set(c, r, block(glyphs[(c * 3 + r) as usize]));
        }
    }
    let before = sand.grid.clone();
    for _ in 0..5 {
        sand.update();
        assert_eq!(sand.grid, before);
    }
}

#[test]
fn zero_range_topple_keeps_grains_in_their_row() {
    // With range 0 a grain can only slide sideways: scanning column by
    // column, the mover first escapes right past the blocker, is revisited
    // in its new column, and slides back -- never leaving the bottom row.
    let mut sand = Sand::new(3, 1, 60, 0).unwrap();
    sand.cell_set(0, 0, block('X'));
    sand.cell_set(1, 0, block('M'));
    let mut coin = Coin::Fixed {
        bits: vec![true; 4],
        next: 0,
    };
    sand.effect_topple_with(0, &mut coin);
    assert_eq!(sand.grid[0][0], Some(block('X')));
    assert_eq!(sand.grid[1][0], Some(block('M')));
    assert_eq!(sand.grid[2][0], None);
}
