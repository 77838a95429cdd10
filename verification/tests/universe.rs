use game_of_life::{Cell, Universe, HEIGHT, WIDTH};

const ALIVE_GLYPH: char = '\u{25FC}';
const DEAD_GLYPH: char = '\u{25FB}';

/// A universe whose live cells are exactly those at the given coordinates.
fn universe_with(alive: &[(u32, u32)]) -> Universe {
    let mut flips = vec![false; (WIDTH * HEIGHT) as usize];
    for &(row, col) in alive {
        flips[(row * WIDTH + col) as usize] = true;
    }
    Universe::new(&flips)
}

/// The coordinates of the live cells, in row-major order.
fn live_cells(universe: &Universe) -> Vec<(u32, u32)> {
    let mut found = Vec::new();
    for row in 0..universe.height() {
        for col in 0..universe.width() {
            if universe.cells()[universe.get_index(row, col)] == Cell::Alive {
                found.push((row, col));
            }
        }
    }
    found
}

/// Flips that follow a fixed, irregular pattern.
fn scrambled_flips() -> Vec<bool> {
    let mut state: u32 = 0x2545_f491;
    let mut flips = Vec::new();
    for _ in 0..WIDTH * HEIGHT {
        state = state.wrapping_mul(1_664_525).wrapping_add(1_013_904_223);
        flips.push(state >> 31 == 1);
    }
    flips
}

/// Reads a rendering back: one row of cells per line.
fn parse(text: &str) -> Vec<Vec<Cell>> {
    text.lines()
        .map(|line| {
            line.chars()
                .map(|glyph| match glyph {
                    ALIVE_GLYPH => Cell::Alive,
                    DEAD_GLYPH => Cell::Dead,
                    other => panic!("unexpected glyph {:?}", other),
                })
                .collect()
        })
        .collect()
}

#[test]
fn dimensions_are_sixty_four_by_sixty_four() {
    assert_eq!(WIDTH, 64);
    assert_eq!(HEIGHT, 64);
    let universe = universe_with(&[]);
    assert_eq!(universe.width(), 64);
    assert_eq!(universe.height(), 64);
}

#[test]
fn new_takes_one_cell_from_each_flip() {
    let flips = scrambled_flips();
    let universe = Universe::new(&flips);
    let cells = universe.cells();
    assert_eq!(cells.len(), flips.len());
    for (k, flip) in flips.iter().enumerate() {
        let expected = if *flip { Cell::Alive } else { Cell::Dead };
        assert_eq!(cells[k], expected, "cell {}", k);
    }
    assert!(flips.iter().any(|flip| *flip));
    assert!(flips.iter().any(|flip| !*flip));
}

#[test]
fn buffer_length_is_width_times_height() {
    let mut universe = Universe::new(&scrambled_flips());
    let expected = (universe.width() * universe.height()) as usize;
    assert_eq!(expected, 4096);
    assert_eq!(universe.cells().len(), expected);
    for _ in 0..10 {
        universe.tick();
        assert_eq!(universe.cells().len(), expected);
        assert_eq!(universe.width(), 64);
        assert_eq!(universe.height(), 64);
    }
}

#[test]
fn index_is_row_major() {
    let universe = universe_with(&[]);
    assert_eq!(universe.get_index(0, 0), 0);
    assert_eq!(universe.get_index(0, 1), 1);
    assert_eq!(universe.get_index(1, 0), 64);
    assert_eq!(universe.get_index(3, 5), 197);
    assert_eq!(universe.get_index(63, 63), 4095);
}

#[test]
fn cell_is_found_at_its_index() {
    let universe = universe_with(&[(7, 11)]);
    let index = universe.get_index(7, 11);
    assert_eq!(index, 7 * 64 + 11);
    for (k, cell) in universe.cells().iter().enumerate() {
        assert_eq!(*cell == Cell::Alive, k == index);
    }
}

#[test]
fn far_corner_counts_the_origin() {
    let universe = universe_with(&[(0, 0)]);
    assert_eq!(universe.live_nn_count(HEIGHT - 1, WIDTH - 1), 1);
}

#[test]
fn origin_counts_the_far_corner() {
    let universe = universe_with(&[(63, 63)]);
    assert_eq!(universe.live_nn_count(0, 0), 1);
}

#[test]
fn neighbours_wrap_around_each_edge() {
    let universe = universe_with(&[(0, 10)]);
    assert_eq!(universe.live_nn_count(63, 9), 1);
    assert_eq!(universe.live_nn_count(63, 10), 1);
    assert_eq!(universe.live_nn_count(63, 11), 1);
    assert_eq!(universe.live_nn_count(62, 10), 0);

    let universe = universe_with(&[(10, 63)]);
    assert_eq!(universe.live_nn_count(9, 0), 1);
    assert_eq!(universe.live_nn_count(10, 0), 1);
    assert_eq!(universe.live_nn_count(11, 0), 1);
    assert_eq!(universe.live_nn_count(10, 1), 0);
}

#[test]
fn cell_is_not_its_own_neighbour() {
    let universe = universe_with(&[(20, 20)]);
    assert_eq!(universe.live_nn_count(20, 20), 0);
}

#[test]
fn lone_cell_is_seen_by_its_eight_neighbours_only() {
    let universe = universe_with(&[(20, 30)]);
    for row in 0..HEIGHT {
        for col in 0..WIDTH {
            let near = (19..=21).contains(&row) && (29..=31).contains(&col);
            let expected = if near && (row, col) != (20, 30) { 1 } else { 0 };
            assert_eq!(universe.live_nn_count(row, col), expected, "at ({}, {})", row, col);
        }
    }
}

#[test]
fn count_reaches_eight_in_a_full_neighbourhood() {
    let mut alive = Vec::new();
    for row in 4..=6 {
        for col in 4..=6 {
            alive.push((row, col));
        }
    }
    let universe = universe_with(&alive);
    assert_eq!(universe.live_nn_count(5, 5), 8);
    assert_eq!(universe.live_nn_count(4, 4), 3);
    assert_eq!(universe.live_nn_count(4, 5), 5);
    assert_eq!(universe.live_nn_count(3, 5), 3);
    assert_eq!(universe.live_nn_count(3, 3), 1);
}

#[test]
fn count_is_eight_everywhere_on_a_full_grid() {
    let universe = Universe::new(&vec![true; 4096]);
    assert_eq!(universe.live_nn_count(0, 0), 8);
    assert_eq!(universe.live_nn_count(63, 63), 8);
    assert_eq!(universe.live_nn_count(31, 0), 8);
}

#[test]
fn full_grid_dies_in_one_generation() {
    let mut universe = Universe::new(&vec![true; 4096]);
    universe.tick();
    assert!(universe.cells().iter().all(|cell| *cell == Cell::Dead));
}

#[test]
fn tick_is_deterministic() {
    let flips = scrambled_flips();
    let mut first = Universe::new(&flips);
    let mut second = Universe::new(&flips);
    first.tick();
    second.tick();
    assert_eq!(first.cells(), second.cells());
    assert_eq!(first.render(), second.render());
    first.tick();
    second.tick();
    assert_eq!(first.cells(), second.cells());
}

#[test]
fn tick_applies_the_rule_to_every_cell_at_once() {
    let mut universe = Universe::new(&scrambled_flips());
    let mut expected = Vec::new();
    for row in 0..HEIGHT {
        for col in 0..WIDTH {
            let cell = universe.cells()[universe.get_index(row, col)];
            expected.push(cell.next_state(universe.live_nn_count(row, col)));
        }
    }
    let before = universe.cells().to_vec();
    universe.tick();
    assert_eq!(universe.cells(), expected.as_slice());
    assert_ne!(universe.cells(), before.as_slice());
}

#[test]
fn block_is_a_still_life() {
    let block = [(10, 10), (10, 11), (11, 10), (11, 11)];
    let mut universe = universe_with(&block);
    for (row, col) in block {
        assert_eq!(universe.live_nn_count(row, col), 3);
    }
    let before = universe.cells().to_vec();
    universe.tick();
    assert_eq!(universe.cells(), before.as_slice());
    assert_eq!(live_cells(&universe), block.to_vec());
}

#[test]
fn block_across_the_corner_is_a_still_life() {
    let mut universe = universe_with(&[(63, 63), (63, 0), (0, 63), (0, 0)]);
    let before = universe.cells().to_vec();
    universe.tick();
    assert_eq!(universe.cells(), before.as_slice());
}

#[test]
fn blinker_oscillates_with_period_two() {
    let horizontal = vec![(20, 29), (20, 30), (20, 31)];
    let vertical = vec![(19, 30), (20, 30), (21, 30)];
    let mut universe = universe_with(&horizontal);
    let start = universe.cells().to_vec();
    universe.tick();
    assert_eq!(live_cells(&universe), vertical);
    universe.tick();
    assert_eq!(live_cells(&universe), horizontal);
    assert_eq!(universe.cells(), start.as_slice());
}

#[test]
fn blinker_oscillates_across_the_edges() {
    let mut universe = universe_with(&[(0, 63), (0, 0), (0, 1)]);
    let start = universe.cells().to_vec();
    universe.tick();
    assert_eq!(live_cells(&universe), vec![(0, 0), (1, 0), (63, 0)]);
    universe.tick();
    assert_eq!(universe.cells(), start.as_slice());
}

#[test]
fn lone_cell_dies() {
    let mut universe = universe_with(&[(5, 5)]);
    universe.tick();
    assert_eq!(live_cells(&universe), Vec::new());
}

#[test]
fn three_in_a_corner_give_birth_to_the_fourth() {
    let mut universe = universe_with(&[(30, 30), (30, 31), (31, 30)]);
    assert_eq!(universe.live_nn_count(31, 31), 3);
    universe.tick();
    assert_eq!(live_cells(&universe), vec![(30, 30), (30, 31), (31, 30), (31, 31)]);
}

#[test]
fn empty_grid_stays_empty() {
    let mut universe = universe_with(&[]);
    for _ in 0..25 {
        universe.tick();
        assert!(universe.cells().iter().all(|cell| *cell == Cell::Dead));
    }
}

#[test]
fn render_of_empty_grid_is_rows_of_hollow_glyphs() {
    let universe = universe_with(&[]);
    let mut line = DEAD_GLYPH.to_string().repeat(64);
    line.push('\n');
    assert_eq!(universe.render(), line.repeat(64));
}

#[test]
fn render_marks_live_cells_with_the_filled_glyph() {
    let universe = universe_with(&[(0, 1), (2, 63)]);
    let text = universe.render();
    let lines: Vec<&str> = text.split('\n').collect();
    assert_eq!(lines.len(), 65);
    assert_eq!(lines[64], "");
    let hollow = DEAD_GLYPH.to_string();
    let filled = ALIVE_GLYPH.to_string();
    assert_eq!(lines[0], format!("{}{}{}", hollow, filled, hollow.repeat(62)));
    assert_eq!(lines[1], hollow.repeat(64));
    assert_eq!(lines[2], format!("{}{}", hollow.repeat(63), filled));
    assert_eq!(text.chars().count(), 64 * 65);
}

#[test]
fn render_uses_the_two_square_glyphs() {
    let universe = universe_with(&[(0, 0)]);
    let text = universe.render();
    let mut glyphs = text.chars();
    assert_eq!(glyphs.next(), Some('◼'));
    assert_eq!(glyphs.next(), Some('◻'));
}

#[test]
fn render_round_trips() {
    let mut universe = Universe::new(&scrambled_flips());
    for _ in 0..3 {
        let rows = parse(&universe.render());
        assert_eq!(rows.len(), 64);
        assert!(rows.iter().all(|row| row.len() == 64));
        let cells: Vec<Cell> = rows.into_iter().flatten().collect();
        assert_eq!(cells.as_slice(), universe.cells());
        universe.tick();
    }
}

#[test]
fn render_reflects_the_state_at_call_time() {
    let mut universe = universe_with(&[(20, 29), (20, 30), (20, 31)]);
    let before = universe.render();
    universe.tick();
    let after = universe.render();
    assert_ne!(before, after);
    let rows = parse(&after);
    assert_eq!(rows[19][30], Cell::Alive);
    assert_eq!(rows[20][30], Cell::Alive);
    assert_eq!(rows[21][30], Cell::Alive);
    assert_eq!(rows[20][29], Cell::Dead);
    assert_eq!(rows[20][31], Cell::Dead);
}
