use game_of_life::Universe;

fn dead_board(width: u32, height: u32) -> Universe {
    let mut universe = Universe::new();
    universe.set_width(width);
    universe.set_height(height);
    universe
}

fn live_cells(universe: &Universe) -> Vec<(u32, u32)> {
    let mut cells = Vec::new();
    for row in 0..universe.height() {
        for col in 0..universe.width() {
            if universe.is_alive(row, col) {
                cells.push((row, col));
            }
        }
    }
    cells
}

fn neighbor_counts(universe: &Universe) -> Vec<Vec<u8>> {
    (0..universe.height())
        .map(|row| {
            (0..universe.width())
                .map(|col| universe.live_neighbor_count(row, col))
                .collect()
        })
        .collect()
}

#[test]
fn default_universe_has_the_seed_pattern() {
    let universe = Universe::new();
    assert_eq!(universe.width(), 64);
    assert_eq!(universe.height(), 64);
    assert_eq!(live_cells(&universe), vec![(0, 3), (1, 1), (1, 3), (2, 2), (2, 3)]);
}

#[test]
fn default_universe_packs_the_seed_into_blocks() {
    let universe = Universe::new();
    let blocks = universe.get_cells();
    assert_eq!(blocks.len(), 128);
    for (i, &block) in blocks.iter().enumerate() {
        let expected = match i {
            0 => 1u32 << 3,
            2 => (1u32 << 1) | (1u32 << 3),
            4 => (1u32 << 2) | (1u32 << 3),
            _ => 0,
        };
        assert_eq!(block, expected, "block {}", i);
    }
}

#[test]
fn get_index_is_row_major() {
    let universe = dead_board(7, 5);
    assert_eq!(universe.get_index(0, 0), 0);
    assert_eq!(universe.get_index(0, 6), 6);
    assert_eq!(universe.get_index(1, 0), 7);
    assert_eq!(universe.get_index(3, 4), 25);
    assert_eq!(universe.get_index(4, 6), 34);
}

#[test]
fn get_cells_holds_one_bit_per_cell() {
    let mut universe = dead_board(10, 7);
    universe.set_cells(&[(0, 0), (3, 1), (3, 2), (6, 9)]);
    let blocks = universe.get_cells();
    assert_eq!(blocks.len(), 3);
    assert_eq!(blocks[0], 1 | (1 << 31));
    assert_eq!(blocks[1], 1);
    assert_eq!(blocks[2], 1 << 5);
}

#[test]
fn get_cells_of_a_board_without_cells_is_empty() {
    let universe = dead_board(0, 0);
    assert_eq!(universe.get_cells().len(), 0);
}

#[test]
fn toggle_twice_restores_the_cell() {
    let mut universe = Universe::new();
    let before = universe.get_cells().to_vec();
    for &(row, col) in [(0u32, 3u32), (0, 0), (63, 63), (17, 40)].iter() {
        let was = universe.is_alive(row, col);
        universe.toggle_cell(row, col);
        assert_eq!(universe.is_alive(row, col), !was);
        universe.toggle_cell(row, col);
        assert_eq!(universe.is_alive(row, col), was);
        assert_eq!(universe.get_cells(), &before[..]);
    }
}

#[test]
fn toggle_changes_one_cell_only() {
    let mut universe = dead_board(4, 3);
    universe.toggle_cell(1, 2);
    assert_eq!(live_cells(&universe), vec![(1, 2)]);
    universe.toggle_cell(2, 3);
    assert_eq!(live_cells(&universe), vec![(1, 2), (2, 3)]);
    universe.toggle_cell(1, 2);
    assert_eq!(live_cells(&universe), vec![(2, 3)]);
}

#[test]
fn kill_all_leaves_no_live_neighbor_and_only_dead_glyphs() {
    let mut universe = Universe::new();
    universe.set_cells(&[(10, 10), (10, 11), (63, 0)]);
    universe.kill_all();
    assert_eq!(universe.width(), 64);
    assert_eq!(universe.height(), 64);
    for row in 0..64 {
        for col in 0..64 {
            assert!(!universe.is_alive(row, col));
            assert_eq!(universe.live_neighbor_count(row, col), 0);
        }
    }
    let text = universe.render();
    assert!(text.chars().all(|glyph| glyph == '\u{25FB}' || glyph == '\n'));
    assert_eq!(text.chars().filter(|&glyph| glyph == '\u{25FB}').count(), 64 * 64);
}

#[test]
fn set_width_resets_the_board() {
    let mut universe = Universe::new();
    universe.set_width(100);
    assert_eq!(universe.width(), 100);
    assert_eq!(universe.height(), 64);
    assert_eq!(live_cells(&universe), vec![]);
    assert_eq!(universe.get_cells().len(), 200);
    universe.toggle_cell(63, 99);
    assert_eq!(live_cells(&universe), vec![(63, 99)]);
}

#[test]
fn set_height_resets_the_board() {
    let mut universe = Universe::new();
    universe.set_height(3);
    assert_eq!(universe.width(), 64);
    assert_eq!(universe.height(), 3);
    assert_eq!(live_cells(&universe), vec![]);
    assert_eq!(universe.get_cells().len(), 6);
    universe.set_height(200);
    assert_eq!(universe.height(), 200);
    universe.toggle_cell(199, 63);
    assert_eq!(live_cells(&universe), vec![(199, 63)]);
}

#[test]
fn set_width_to_the_same_value_still_kills_every_cell() {
    let mut universe = Universe::new();
    universe.set_width(64);
    assert_eq!(universe.width(), 64);
    assert_eq!(live_cells(&universe), vec![]);
}

#[test]
fn resize_to_zero_leaves_no_cells() {
    let mut universe = Universe::new();
    universe.set_width(0);
    assert_eq!(universe.width(), 0);
    assert_eq!(universe.height(), 64);
    assert_eq!(universe.get_cells().len(), 0);
    assert_eq!(universe.render(), "\n".repeat(63));
}

#[test]
fn single_cell_reaches_its_eight_neighbors_around_the_torus() {
    let mut universe = dead_board(5, 4);
    universe.set_cells(&[(0, 0)]);
    assert_eq!(
        neighbor_counts(&universe),
        vec![
            vec![0, 1, 0, 0, 1],
            vec![1, 1, 0, 0, 1],
            vec![0, 0, 0, 0, 0],
            vec![1, 1, 0, 0, 1],
        ]
    );
}

#[test]
fn single_cell_on_a_three_by_three_board_reaches_every_other_cell() {
    let mut universe = dead_board(3, 3);
    universe.set_cells(&[(0, 0)]);
    assert_eq!(
        neighbor_counts(&universe),
        vec![vec![0, 1, 1], vec![1, 1, 1], vec![1, 1, 1]]
    );
}

#[test]
fn neighbors_repeat_on_a_narrow_torus() {
    let mut universe = dead_board(2, 3);
    universe.set_cells(&[(0, 0)]);
    assert_eq!(neighbor_counts(&universe), vec![vec![0, 2], vec![1, 2], vec![1, 2]]);

    let mut universe = dead_board(2, 2);
    universe.set_cells(&[(0, 0)]);
    assert_eq!(neighbor_counts(&universe), vec![vec![0, 2], vec![2, 4]]);
}

#[test]
fn neighbors_on_a_board_of_one_row_or_one_column() {
    let mut universe = dead_board(3, 1);
    universe.set_cells(&[(0, 0)]);
    assert_eq!(neighbor_counts(&universe), vec![vec![1, 3, 3]]);

    let mut universe = dead_board(1, 3);
    universe.set_cells(&[(0, 0)]);
    assert_eq!(neighbor_counts(&universe), vec![vec![1], vec![3], vec![3]]);

    let mut universe = dead_board(1, 1);
    universe.set_cells(&[(0, 0)]);
    assert_eq!(neighbor_counts(&universe), vec![vec![5]]);
}

#[test]
fn neighbor_count_wraps_at_every_corner() {
    let mut universe = dead_board(6, 5);
    universe.set_cells(&[(4, 5)]);
    assert_eq!(universe.live_neighbor_count(0, 0), 1);
    assert_eq!(universe.live_neighbor_count(3, 0), 1);
    assert_eq!(universe.live_neighbor_count(0, 4), 1);
    assert_eq!(universe.live_neighbor_count(4, 5), 0);
    assert_eq!(universe.live_neighbor_count(2, 2), 0);
}

#[test]
fn set_cells_marks_the_listed_cells_only() {
    let mut universe = dead_board(5, 5);
    universe.set_cells(&[(4, 4), (0, 1), (2, 3)]);
    assert_eq!(live_cells(&universe), vec![(0, 1), (2, 3), (4, 4)]);
    universe.set_cells(&[(1, 1)]);
    assert_eq!(live_cells(&universe), vec![(0, 1), (1, 1), (2, 3), (4, 4)]);
}

#[test]
fn set_cells_takes_duplicates_and_live_cells() {
    let mut universe = dead_board(5, 5);
    universe.set_cells(&[(2, 2), (2, 2), (1, 0), (2, 2)]);
    assert_eq!(live_cells(&universe), vec![(1, 0), (2, 2)]);
    universe.set_cells(&[(1, 0)]);
    assert_eq!(live_cells(&universe), vec![(1, 0), (2, 2)]);
    universe.set_cells(&[]);
    assert_eq!(live_cells(&universe), vec![(1, 0), (2, 2)]);
}

#[test]
fn spawn_glider_sets_five_cells() {
    let mut universe = dead_board(8, 8);
    universe.spawn_glider(3, 4);
    assert_eq!(live_cells(&universe), vec![(2, 3), (2, 5), (3, 4), (3, 5), (4, 4)]);
}

#[test]
fn spawn_glider_next_to_the_edges() {
    let mut universe = dead_board(3, 3);
    universe.spawn_glider(1, 1);
    assert_eq!(live_cells(&universe), vec![(0, 0), (0, 2), (1, 1), (1, 2), (2, 1)]);
}

#[test]
fn spawn_glider_keeps_live_cells() {
    let mut universe = dead_board(8, 8);
    universe.set_cells(&[(0, 0), (3, 4)]);
    universe.spawn_glider(3, 4);
    assert_eq!(
        live_cells(&universe),
        vec![(0, 0), (2, 3), (2, 5), (3, 4), (3, 5), (4, 4)]
    );
}

#[test]
fn spawn_pulsar_sets_a_bar_of_three() {
    let mut universe = dead_board(6, 6);
    universe.spawn_pulsar(1, 2);
    assert_eq!(live_cells(&universe), vec![(1, 2), (2, 2), (3, 2)]);
    universe.spawn_pulsar(3, 5);
    assert_eq!(
        live_cells(&universe),
        vec![(1, 2), (2, 2), (3, 2), (3, 5), (4, 5), (5, 5)]
    );
}

#[test]
fn reset_takes_the_given_states() {
    let mut universe = dead_board(3, 2);
    universe.set_cells(&[(0, 0)]);
    universe.reset(&[false, true, true, true, false, false]);
    assert_eq!(universe.width(), 3);
    assert_eq!(universe.height(), 2);
    assert_eq!(live_cells(&universe), vec![(0, 1), (0, 2), (1, 0)]);
    universe.reset(&[false; 6]);
    assert_eq!(live_cells(&universe), vec![]);
    universe.reset(&[true; 6]);
    assert_eq!(live_cells(&universe).len(), 6);
}

#[test]
fn render_draws_one_line_per_row() {
    let mut universe = dead_board(3, 2);
    universe.set_cells(&[(0, 1), (1, 0), (1, 2)]);
    assert_eq!(
        universe.render(),
        "\u{25FB}\u{25FC}\u{25FB}\n\u{25FC}\u{25FB}\u{25FC}"
    );
}

#[test]
fn render_of_a_wide_board_has_a_glyph_for_every_cell() {
    let mut universe = dead_board(40, 2);
    universe.set_cells(&[(0, 39), (1, 33)]);
    let text = universe.render();
    let lines: Vec<&str> = text.lines().collect();
    assert_eq!(lines.len(), 2);
    for (row, line) in lines.iter().enumerate() {
        let glyphs: Vec<char> = line.chars().collect();
        assert_eq!(glyphs.len(), 40);
        for (col, &glyph) in glyphs.iter().enumerate() {
            let alive = (row, col) == (0, 39) || (row, col) == (1, 33);
            assert_eq!(glyph, if alive { '\u{25FC}' } else { '\u{25FB}' });
        }
    }
    assert!(!text.starts_with('\n'));
    assert!(!text.ends_with('\n'));
    assert_eq!(text.chars().filter(|&glyph| glyph == '\n').count(), 1);
}

#[test]
fn render_of_the_default_universe() {
    let universe = Universe::new();
    let text = universe.render();
    let lines: Vec<&str> = text.lines().collect();
    assert_eq!(lines.len(), 64);
    assert_eq!(text.chars().filter(|&glyph| glyph == '\u{25FC}').count(), 5);
    assert_eq!(text.chars().filter(|&glyph| glyph == '\n').count(), 63);
    assert!(text.ends_with('\u{25FB}'));
    assert_eq!(lines[0].chars().position(|glyph| glyph == '\u{25FC}'), Some(3));
}

#[test]
fn render_of_a_single_row_has_no_line_break() {
    let mut universe = dead_board(4, 1);
    universe.set_cells(&[(0, 0), (0, 3)]);
    assert_eq!(universe.render(), "\u{25FC}\u{25FB}\u{25FB}\u{25FC}");
}

#[test]
fn render_of_a_single_column_breaks_between_rows_only() {
    let mut universe = dead_board(1, 3);
    universe.set_cells(&[(1, 0)]);
    assert_eq!(universe.render(), "\u{25FB}\n\u{25FC}\n\u{25FB}");
}

#[test]
fn render_of_a_board_without_rows_is_empty() {
    let universe = dead_board(5, 0);
    assert_eq!(universe.render(), "");
}
