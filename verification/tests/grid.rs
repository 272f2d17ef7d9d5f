use game_of_life::Universe;

fn dead_grid(width: u32, height: u32) -> Universe {
    Universe::new(width, height, &vec![false; (width * height) as usize])
}

fn grid_with(width: u32, height: u32, alive: &[(u32, u32)]) -> Universe {
    let mut universe = dead_grid(width, height);
    universe.set_cells(alive);
    universe
}

fn living_cells(universe: &Universe) -> Vec<(u32, u32)> {
    let mut found = Vec::new();
    for row in 0..universe.height() {
        for col in 0..universe.width() {
            if universe.get_cells()[(row * universe.width() + col) as usize] {
                found.push((row, col));
            }
        }
    }
    found
}

#[test]
fn new_takes_its_cells_from_the_seed() {
    let seed = vec![true, false, false, false, true, true];
    let universe = Universe::new(3, 2, &seed);
    assert_eq!(universe.width(), 3);
    assert_eq!(universe.height(), 2);
    assert_eq!(universe.get_cells().len(), 6);
    for (i, &cell) in seed.iter().enumerate() {
        assert_eq!(universe.get_cells()[i], cell, "cell {}", i);
    }
    assert_eq!(living_cells(&universe), vec![(0, 0), (1, 1), (1, 2)]);
}

#[test]
fn set_cells_marks_the_listed_cells_and_keeps_the_rest() {
    let mut universe = grid_with(4, 3, &[(0, 1)]);
    universe.set_cells(&[(2, 3), (1, 0), (2, 3)]);
    assert_eq!(living_cells(&universe), vec![(0, 1), (1, 0), (2, 3)]);
    universe.set_cells(&[]);
    assert_eq!(living_cells(&universe), vec![(0, 1), (1, 0), (2, 3)]);
}

#[test]
fn corner_cell_sees_each_wrapped_neighbor() {
    let (width, height) = (5u32, 4u32);
    let around_the_corner = [
        (height - 1, width - 1),
        (height - 1, 0),
        (height - 1, 1),
        (0, width - 1),
        (0, 1),
        (1, width - 1),
        (1, 0),
        (1, 1),
    ];
    for cell in around_the_corner {
        let universe = grid_with(width, height, &[cell]);
        assert_eq!(universe.live_neighbor_count(0, 0), 1, "neighbour {:?}", cell);
    }
    let universe = grid_with(width, height, &around_the_corner);
    assert_eq!(universe.live_neighbor_count(0, 0), 8);
}

#[test]
fn a_cell_is_not_its_own_neighbor() {
    let universe = grid_with(5, 4, &[(0, 0)]);
    assert_eq!(universe.live_neighbor_count(0, 0), 0);
    let universe = grid_with(5, 4, &[(2, 2)]);
    assert_eq!(universe.live_neighbor_count(2, 2), 0);
}

#[test]
fn cells_two_steps_away_are_not_neighbors() {
    let universe = grid_with(5, 5, &[(0, 2), (2, 0), (2, 2), (0, 3), (3, 0), (3, 3)]);
    assert_eq!(universe.live_neighbor_count(0, 0), 0);
}

#[test]
fn interior_cell_counts_its_eight_neighbors() {
    let universe = grid_with(6, 6, &[(1, 1), (1, 2), (1, 3), (2, 1), (2, 3), (3, 2)]);
    assert_eq!(universe.live_neighbor_count(2, 2), 6);
    assert_eq!(universe.live_neighbor_count(1, 2), 4);
    assert_eq!(universe.live_neighbor_count(5, 5), 0);
}

#[test]
fn on_a_two_wide_grid_the_side_neighbor_counts_twice() {
    let universe = Universe::new(2, 2, &[false, true, false, false]);
    assert_eq!(universe.live_neighbor_count(0, 0), 2);
    assert_eq!(universe.live_neighbor_count(1, 0), 4);
    assert_eq!(universe.live_neighbor_count(1, 1), 2);
    assert_eq!(universe.live_neighbor_count(0, 1), 0);
}

#[test]
fn single_cell_grid_counts_its_nonzero_offsets() {
    let universe = Universe::new(1, 1, &[true]);
    assert_eq!(universe.live_neighbor_count(0, 0), 5);
    let universe = Universe::new(1, 1, &[false]);
    assert_eq!(universe.live_neighbor_count(0, 0), 0);
}

#[test]
fn single_row_grid_skips_offsets_that_are_both_zero() {
    let universe = Universe::new(3, 1, &[true, true, true]);
    assert_eq!(universe.live_neighbor_count(0, 1), 7);
}

#[test]
fn block_is_a_still_life() {
    let block = [(1, 1), (1, 2), (2, 1), (2, 2)];
    let mut universe = grid_with(4, 4, &block);
    for (row, col) in block {
        assert_eq!(universe.live_neighbor_count(row, col), 3);
    }
    for generation in 0..10 {
        universe.tick();
        assert_eq!(living_cells(&universe), block.to_vec(), "generation {}", generation + 1);
    }
}

#[test]
fn block_across_the_edges_is_a_still_life() {
    let mut universe = grid_with(5, 4, &[(3, 4), (3, 0), (0, 4), (0, 0)]);
    for _ in 0..4 {
        universe.tick();
        assert_eq!(living_cells(&universe), vec![(0, 0), (0, 4), (3, 0), (3, 4)]);
    }
}

#[test]
fn blinker_turns_and_returns() {
    let along_row = vec![(2, 1), (2, 2), (2, 3)];
    let along_column = vec![(1, 2), (2, 2), (3, 2)];
    let mut universe = grid_with(5, 5, &along_row);
    universe.tick();
    assert_eq!(living_cells(&universe), along_column);
    universe.tick();
    assert_eq!(living_cells(&universe), along_row);
    universe.tick();
    assert_eq!(living_cells(&universe), along_column);
}

#[test]
fn blinker_on_a_larger_grid() {
    let mut universe = grid_with(8, 6, &[(1, 5), (2, 5), (3, 5)]);
    universe.tick();
    assert_eq!(living_cells(&universe), vec![(2, 4), (2, 5), (2, 6)]);
    universe.tick();
    assert_eq!(living_cells(&universe), vec![(1, 5), (2, 5), (3, 5)]);
}

#[test]
fn glider_moves_one_cell_diagonally_in_four_ticks() {
    let mut universe = grid_with(6, 6, &[(0, 1), (1, 2), (2, 0), (2, 1), (2, 2)]);
    universe.tick();
    assert_eq!(living_cells(&universe), vec![(1, 0), (1, 2), (2, 1), (2, 2), (3, 1)]);
    universe.tick();
    universe.tick();
    universe.tick();
    assert_eq!(living_cells(&universe), vec![(1, 2), (2, 3), (3, 1), (3, 2), (3, 3)]);
}

#[test]
fn lone_cell_dies_and_empty_grid_stays_empty() {
    let mut universe = grid_with(4, 4, &[(2, 2)]);
    universe.tick();
    assert_eq!(living_cells(&universe), vec![]);
    universe.tick();
    assert_eq!(living_cells(&universe), vec![]);
}

#[test]
fn tick_reads_only_the_previous_generation() {
    // Three cells in an L: the fourth corner is born, the three survive.
    let mut universe = grid_with(5, 5, &[(1, 1), (1, 2), (2, 1)]);
    universe.tick();
    assert_eq!(living_cells(&universe), vec![(1, 1), (1, 2), (2, 1), (2, 2)]);
}

#[test]
fn tick_keeps_the_shape() {
    let mut universe = grid_with(7, 3, &[(0, 0), (1, 3), (2, 6), (1, 4), (1, 5)]);
    for _ in 0..5 {
        universe.tick();
        assert_eq!(universe.width(), 7);
        assert_eq!(universe.height(), 3);
        assert_eq!(universe.get_cells().len(), 21);
    }
}

#[test]
fn set_width_clears_every_cell() {
    let mut universe = grid_with(4, 4, &[(0, 0), (1, 1), (3, 3)]);
    universe.set_width(6);
    assert_eq!(universe.width(), 6);
    assert_eq!(universe.height(), 4);
    assert_eq!(universe.get_cells().len(), 24);
    assert_eq!(living_cells(&universe), vec![]);
}

#[test]
fn set_height_clears_every_cell() {
    let mut universe = grid_with(4, 4, &[(0, 0), (1, 1), (3, 3)]);
    universe.set_height(2);
    assert_eq!(universe.width(), 4);
    assert_eq!(universe.height(), 2);
    assert_eq!(universe.get_cells().len(), 8);
    assert_eq!(living_cells(&universe), vec![]);
}

#[test]
fn resize_to_the_same_size_still_clears() {
    let mut universe = grid_with(3, 3, &[(1, 1)]);
    universe.set_width(3);
    assert_eq!(living_cells(&universe), vec![]);
    universe.set_cells(&[(2, 2)]);
    universe.set_height(3);
    assert_eq!(living_cells(&universe), vec![]);
}

#[test]
fn equal_grids_tick_to_equal_grids() {
    let seed: Vec<bool> = (0..64u32).map(|i| i % 2 == 0 || i % 7 == 0).collect();
    let mut first = Universe::new(8, 8, &seed);
    let mut second = Universe::new(8, 8, &seed);
    for _ in 0..6 {
        first.tick();
        second.tick();
        assert_eq!(first.get_cells(), second.get_cells());
        assert_eq!(first.render(), second.render());
    }
}

#[test]
fn render_draws_one_glyph_per_cell_and_ends_each_row() {
    let universe = grid_with(3, 2, &[(0, 0), (1, 2)]);
    assert_eq!(universe.render(), "\u{25FC}\u{25FB}\u{25FB}\n\u{25FB}\u{25FB}\u{25FC}\n");
}

#[test]
fn render_of_a_wide_grid_has_a_glyph_for_every_cell() {
    let universe = grid_with(40, 2, &[(0, 39), (1, 0)]);
    let text = universe.render();
    let lines: Vec<&str> = text.lines().collect();
    assert_eq!(lines.len(), 2);
    assert_eq!(lines[0].chars().count(), 40);
    assert_eq!(lines[1].chars().count(), 40);
    assert_eq!(lines[0].chars().last(), Some('\u{25FC}'));
    assert_eq!(lines[1].chars().next(), Some('\u{25FC}'));
    assert_eq!(text.chars().filter(|&c| c == '\u{25FC}').count(), 2);
    assert_eq!(text.chars().filter(|&c| c == '\u{25FB}').count(), 78);
    assert!(text.ends_with('\n'));
}

#[test]
fn render_follows_tick() {
    let mut universe = grid_with(5, 5, &[(2, 1), (2, 2), (2, 3)]);
    universe.tick();
    let dead_row = "\u{25FB}\u{25FB}\u{25FB}\u{25FB}\u{25FB}\n";
    let live_row = "\u{25FB}\u{25FB}\u{25FC}\u{25FB}\u{25FB}\n";
    let expected = format!("{}{}{}{}{}", dead_row, live_row, live_row, live_row, dead_row);
    assert_eq!(universe.render(), expected);
}

#[test]
fn cells_are_packed_thirty_two_to_a_word() {
    let universe = grid_with(8, 5, &[(0, 0), (0, 3), (3, 7), (4, 1)]);
    // Cell indices 0, 3, 31 and 33.
    assert_eq!(universe.cells(), &[0x8000_0009u32, 0x0000_0002u32][..]);
}

#[test]
fn cells_has_just_enough_words() {
    assert_eq!(dead_grid(8, 4).cells().len(), 1);
    assert_eq!(dead_grid(11, 3).cells().len(), 2);
    assert_eq!(dead_grid(64, 64).cells().len(), 128);
}

#[test]
fn get_cells_agrees_with_cells() {
    let mut universe = grid_with(9, 9, &[(0, 0), (4, 4), (8, 8), (3, 5)]);
    universe.tick();
    let bits = universe.get_cells();
    let words = universe.cells();
    for i in 0..81usize {
        assert_eq!(bits[i], words[i / 32] & (1 << (i % 32)) != 0, "cell {}", i);
    }
}
