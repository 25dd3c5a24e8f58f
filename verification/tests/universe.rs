use life_rs::Universe;

fn alive_cells(universe: &Universe) -> Vec<(u32, u32)> {
    let mut cells = Vec::new();
    for row in 0..universe.height() {
        for col in 0..universe.width() {
            if universe.is_cell_alive(row, col) {
                cells.push((row, col));
            }
        }
    }
    cells
}

fn input_spaceship() -> Universe {
    let mut universe = Universe::new_empty(6, 6);
    universe.set_cells(&[(1, 2), (2, 3), (3, 1), (3, 2), (3, 3)]);
    universe
}

fn expected_spaceship() -> Universe {
    let mut universe = Universe::new_empty(6, 6);
    universe.set_cells(&[(2, 1), (2, 3), (3, 2), (3, 3), (4, 2)]);
    universe
}

#[test]
fn test_universe_creation() {
    let universe = Universe::new();
    assert_eq!(universe.width(), 64);
    assert_eq!(universe.height(), 64);
}

#[test]
fn test_universe_with_dimensions() {
    let universe = Universe::new_empty(100, 50);
    assert_eq!(universe.width(), 100);
    assert_eq!(universe.height(), 50);
}

#[test]
fn test_cell_manipulation() {
    let mut universe = Universe::new_empty(10, 10);

    // Test cell setting
    universe.set_cell(5, 5, true);
    assert!(universe.is_cell_alive(5, 5));

    // Test cell toggling
    universe.toggle_cell(3, 3);
    assert!(universe.is_cell_alive(3, 3));
    universe.toggle_cell(3, 3);
    assert!(!universe.is_cell_alive(3, 3));
}

#[test]
fn test_tick() {
    let mut input_universe = input_spaceship();
    let expected_universe = expected_spaceship();

    input_universe.tick();
    assert_eq!(&input_universe.get_cells(), &expected_universe.get_cells());
    assert_eq!(
        alive_cells(&input_universe),
        vec![(2, 1), (2, 3), (3, 2), (3, 3), (4, 2)]
    );
}

#[test]
fn new_universe_is_empty() {
    let universe = Universe::new();
    assert_eq!(universe.get_cells().len(), 64 * 64);
    assert_eq!(alive_cells(&universe), vec![]);
}

#[test]
fn new_empty_holds_one_bit_per_cell() {
    let universe = Universe::new_empty(7, 3);
    assert_eq!(universe.get_cells().len(), 21);
    assert_eq!(universe.get_cells().count_ones(..), 0);
}

#[test]
fn new_empty_may_have_no_cells() {
    let universe = Universe::new_empty(0, 5);
    assert_eq!(universe.width(), 0);
    assert_eq!(universe.height(), 5);
    assert_eq!(universe.get_cells().len(), 0);
    assert_eq!(universe.render(), "\n\n\n\n\n");
}

#[test]
fn dimensions_fit_up_to_the_index_range() {
    assert!(Universe::dimensions_fit(0, u32::MAX));
    assert!(Universe::dimensions_fit(65535, 65537));
    assert!(Universe::dimensions_fit(u32::MAX, 1));
    assert!(!Universe::dimensions_fit(65536, 65536));
    assert!(!Universe::dimensions_fit(u32::MAX, 2));
}

#[test]
fn in_bounds_follows_the_shape() {
    let universe = Universe::new_empty(4, 3);
    assert!(universe.in_bounds(0, 0));
    assert!(universe.in_bounds(2, 3));
    assert!(!universe.in_bounds(3, 0));
    assert!(!universe.in_bounds(0, 4));
}

#[test]
fn cells_are_stored_row_after_row() {
    let mut universe = Universe::new_empty(4, 3);
    universe.set_cell(1, 2, true);
    let bits = universe.get_cells();
    for i in 0..12 {
        assert_eq!(bits.contains(i), i == 6);
    }
    assert!(!universe.is_cell_alive(2, 1));
}

#[test]
fn set_cell_reads_back_and_leaves_the_rest() {
    let mut universe = Universe::new_empty(5, 4);
    universe.set_cell(2, 3, true);
    assert!(universe.is_cell_alive(2, 3));
    assert_eq!(alive_cells(&universe), vec![(2, 3)]);
    universe.set_cell(0, 0, true);
    universe.set_cell(2, 3, false);
    assert!(!universe.is_cell_alive(2, 3));
    assert_eq!(alive_cells(&universe), vec![(0, 0)]);
}

#[test]
fn toggle_twice_restores_the_grid() {
    let mut universe = input_spaceship();
    universe.toggle_cell(3, 2);
    assert!(!universe.is_cell_alive(3, 2));
    assert_eq!(alive_cells(&universe), vec![(1, 2), (2, 3), (3, 1), (3, 3)]);
    universe.toggle_cell(3, 2);
    assert_eq!(&universe.get_cells(), &input_spaceship().get_cells());
}

#[test]
fn set_cells_only_adds() {
    let mut universe = Universe::new_empty(4, 4);
    universe.set_cell(3, 3, true);
    universe.set_cells(&[(0, 1), (2, 2), (0, 1)]);
    assert_eq!(alive_cells(&universe), vec![(0, 1), (2, 2), (3, 3)]);
    universe.set_cells(&[]);
    assert_eq!(alive_cells(&universe), vec![(0, 1), (2, 2), (3, 3)]);
}

#[test]
fn new_with_pattern_marks_the_listed_cells() {
    let universe = Universe::new_with_pattern(6, 4, vec![(0, 0), (3, 5), (1, 2)]);
    assert_eq!(universe.width(), 6);
    assert_eq!(universe.height(), 4);
    assert_eq!(alive_cells(&universe), vec![(0, 0), (1, 2), (3, 5)]);
}

#[test]
fn clear_leaves_no_live_cell() {
    let mut universe = input_spaceship();
    universe.clear();
    assert_eq!(universe.width(), 6);
    assert_eq!(universe.height(), 6);
    assert_eq!(universe.get_cells().len(), 36);
    for row in 0..6 {
        for col in 0..6 {
            assert!(!universe.is_cell_alive(row, col));
        }
    }
    universe.clear();
    assert_eq!(&universe.get_cells(), &Universe::new_empty(6, 6).get_cells());
}

#[test]
fn fill_from_takes_states_row_after_row() {
    let mut universe = Universe::new_empty(3, 2);
    universe.set_cell(0, 1, true);
    universe.fill_from(&[true, false, false, false, true, true]);
    assert_eq!(alive_cells(&universe), vec![(0, 0), (1, 1), (1, 2)]);
    assert_eq!(universe.width(), 3);
    assert_eq!(universe.height(), 2);
}

#[test]
fn randomize_keeps_the_shape() {
    let mut universe = Universe::new_empty(64, 48);
    universe.randomize();
    assert_eq!(universe.width(), 64);
    assert_eq!(universe.height(), 48);
    assert_eq!(universe.get_cells().len(), 64 * 48);
    let alive = universe.get_cells().count_ones(..);
    assert!(alive > 0);
    assert!(alive < 64 * 48);
}

#[test]
fn randomize_without_cells_changes_nothing() {
    let mut wide = Universe::new_empty(9, 0);
    wide.randomize();
    assert_eq!(wide.width(), 9);
    assert_eq!(wide.height(), 0);
    assert_eq!(wide.get_cells().len(), 0);

    let mut tall = Universe::new_empty(0, 9);
    tall.randomize();
    assert_eq!(tall.width(), 0);
    assert_eq!(tall.height(), 9);
    assert_eq!(tall.get_cells().len(), 0);
}

#[test]
fn new_random_has_the_given_shape() {
    let universe = Universe::new_random(32, 16);
    assert_eq!(universe.width(), 32);
    assert_eq!(universe.height(), 16);
    assert_eq!(universe.get_cells().len(), 512);
    let alive = universe.get_cells().count_ones(..);
    assert!(alive > 0);
    assert!(alive < 512);
}

#[test]
fn set_width_resets_the_cells() {
    let mut universe = input_spaceship();
    universe.set_width(9);
    assert_eq!(universe.width(), 9);
    assert_eq!(universe.height(), 6);
    assert_eq!(universe.get_cells().len(), 54);
    assert_eq!(alive_cells(&universe), vec![]);
}

#[test]
fn set_height_resets_the_cells() {
    let mut universe = input_spaceship();
    universe.set_height(2);
    assert_eq!(universe.width(), 6);
    assert_eq!(universe.height(), 2);
    assert_eq!(universe.get_cells().len(), 12);
    assert_eq!(alive_cells(&universe), vec![]);
}

#[test]
fn live_neighbor_count_of_the_spaceship() {
    let universe = input_spaceship();
    assert_eq!(universe.live_neighbor_count(2, 2), 5);
    assert_eq!(universe.live_neighbor_count(3, 2), 3);
    assert_eq!(universe.live_neighbor_count(1, 2), 1);
    assert_eq!(universe.live_neighbor_count(0, 0), 0);
    assert_eq!(universe.live_neighbor_count(4, 2), 3);
}

#[test]
fn live_neighbor_count_leaves_out_the_cell_itself() {
    let mut universe = Universe::new_empty(3, 3);
    universe.set_cell(1, 1, true);
    assert_eq!(universe.live_neighbor_count(1, 1), 0);
    universe.fill_from(&[true; 9]);
    assert_eq!(universe.live_neighbor_count(1, 1), 8);
    universe.set_cell(1, 1, false);
    assert_eq!(universe.live_neighbor_count(1, 1), 8);
    assert_eq!(universe.live_neighbor_count(0, 0), 7);
}

#[test]
fn live_neighbor_count_wraps_round_the_corner() {
    let mut universe = Universe::new_empty(5, 4);
    assert_eq!(universe.live_neighbor_count(3, 4), 0);
    universe.toggle_cell(0, 0);
    assert_eq!(universe.live_neighbor_count(3, 4), 1);
    assert_eq!(universe.live_neighbor_count(0, 4), 1);
    assert_eq!(universe.live_neighbor_count(3, 0), 1);
    assert_eq!(universe.live_neighbor_count(2, 2), 0);
}

#[test]
fn live_neighbor_count_on_tiny_grids_sums_eight_lookups() {
    let mut single = Universe::new_empty(1, 1);
    assert_eq!(single.live_neighbor_count(0, 0), 0);
    single.set_cell(0, 0, true);
    assert_eq!(single.live_neighbor_count(0, 0), 8);

    let mut pair = Universe::new_empty(2, 1);
    pair.set_cell(0, 1, true);
    // from (0, 0): the three lookups to the left and the three to the right
    // all land on (0, 1)
    assert_eq!(pair.live_neighbor_count(0, 0), 6);
    // from (0, 1): only the lookups straight up and down land on (0, 1)
    assert_eq!(pair.live_neighbor_count(0, 1), 2);
}

#[test]
fn next_cell_state_follows_the_four_rules() {
    for n in 0..=8u8 {
        assert_eq!(Universe::next_cell_state(true, n), n == 2 || n == 3);
        assert_eq!(Universe::next_cell_state(false, n), n == 3);
    }
}

#[test]
fn tick_turns_a_blinker() {
    let mut universe = Universe::new_empty(5, 5);
    universe.set_cells(&[(2, 1), (2, 2), (2, 3)]);
    universe.tick();
    assert_eq!(alive_cells(&universe), vec![(1, 2), (2, 2), (3, 2)]);
    universe.tick();
    assert_eq!(alive_cells(&universe), vec![(2, 1), (2, 2), (2, 3)]);
}

#[test]
fn tick_reads_the_old_generation_only() {
    // A block is still life; a lone cell dies; three in a corner give birth
    // across the edge of the torus.
    let mut universe = Universe::new_empty(6, 6);
    universe.set_cells(&[(0, 0), (0, 5), (5, 0)]);
    universe.tick();
    assert_eq!(alive_cells(&universe), vec![(0, 0), (0, 5), (5, 0), (5, 5)]);
    universe.tick();
    assert_eq!(alive_cells(&universe), vec![(0, 0), (0, 5), (5, 0), (5, 5)]);
}

#[test]
fn tick_without_cells_changes_nothing() {
    let mut universe = Universe::new_empty(0, 3);
    universe.tick();
    assert_eq!(universe.width(), 0);
    assert_eq!(universe.height(), 3);
    assert_eq!(universe.get_cells().len(), 0);
}

#[test]
fn tick_on_a_single_cell() {
    let mut universe = Universe::new_empty(1, 1);
    universe.set_cell(0, 0, true);
    universe.tick();
    assert!(!universe.is_cell_alive(0, 0));
}

#[test]
fn render_draws_one_line_per_row() {
    let mut universe = Universe::new_empty(3, 2);
    universe.set_cell(0, 1, true);
    universe.set_cell(1, 2, true);
    assert_eq!(universe.render(), "◻◼◻\n◻◻◼\n");
}

#[test]
fn render_of_the_spaceship() {
    let text = input_spaceship().render();
    let expected = "◻◻◻◻◻◻\n◻◻◼◻◻◻\n◻◻◻◼◻◻\n◻◼◼◼◻◻\n◻◻◻◻◻◻\n◻◻◻◻◻◻\n";
    assert_eq!(text, expected);
    assert_eq!(text.lines().count(), 6);
    assert!(text.lines().all(|line| line.chars().count() == 6));
}

#[test]
fn cells_packs_one_bit_per_cell() {
    let bits = usize::BITS as usize;
    let mut universe = Universe::new_empty(10, 10);
    universe.set_cells(&[(0, 0), (0, 1), (6, 4), (9, 9)]);
    let words = universe.cells();
    assert_eq!(words.len(), (100 + bits - 1) / bits);
    for row in 0..10usize {
        for col in 0..10usize {
            let i = row * 10 + col;
            let bit = (words[i / bits] >> (i % bits)) & 1 == 1;
            assert_eq!(bit, universe.is_cell_alive(row as u32, col as u32));
        }
    }
    assert_eq!(words[0] & 3, 3);
}
