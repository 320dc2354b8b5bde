use game_of_life::game::{Game, SizeError};
use game_of_life::grid::AGE_CAP;

fn live_coordinates(game: &Game) -> Vec<(u32, u32)> {
    let mut live = Vec::new();
    for row in 0..game.height() {
        for col in 0..game.width() {
            if game.get_cells()[game.get_cell_index(row, col)] > 0 {
                live.push((row, col));
            }
        }
    }
    live
}

#[test]
fn fresh_grid_is_all_dead() {
    let game = Game::new(7, 4);
    assert_eq!(game.width(), 7);
    assert_eq!(game.height(), 4);
    assert_eq!(game.get_cells().len(), 28);
    for row in 0..4 {
        for col in 0..7 {
            assert_eq!(game.get_cells()[game.get_cell_index(row, col)], 0);
        }
    }
    assert_eq!(game.get_cells(), vec![0u32; 28].as_slice());
}

#[test]
fn try_new_accepts_positive_sizes() {
    let game = Game::try_new(5, 2).expect("a positive size");
    assert_eq!(game.width(), 5);
    assert_eq!(game.height(), 2);
    assert_eq!(game.get_cells(), vec![0u32; 10].as_slice());
}

#[test]
fn try_new_refuses_zero_width() {
    assert_eq!(Game::try_new(0, 3).err(), Some(SizeError::Empty));
}

#[test]
fn try_new_refuses_zero_height() {
    assert_eq!(Game::try_new(3, 0).err(), Some(SizeError::Empty));
    assert_eq!(Game::try_new(0, 0).err(), Some(SizeError::Empty));
}

#[test]
fn try_new_refuses_too_many_cells() {
    assert_eq!(Game::try_new(65536, 65536).err(), Some(SizeError::TooLarge));
    assert_eq!(Game::try_new(u32::MAX, 2).err(), Some(SizeError::TooLarge));
}

#[test]
fn index_is_row_major() {
    let game = Game::new(5, 3);
    assert_eq!(game.get_cell_index(0, 0), 0);
    assert_eq!(game.get_cell_index(0, 4), 4);
    assert_eq!(game.get_cell_index(1, 0), 5);
    assert_eq!(game.get_cell_index(2, 3), 13);
    assert_eq!(game.get_cell_index(2, 4), 14);
}

#[test]
fn index_reaches_each_position_once() {
    let game = Game::new(5, 3);
    let mut seen = vec![false; 15];
    for row in 0..3 {
        for col in 0..5 {
            let index = game.get_cell_index(row, col);
            assert!(index < 15);
            assert!(!seen[index]);
            seen[index] = true;
        }
    }
    assert!(seen.iter().all(|&s| s));
}

#[test]
fn is_valid_cell_tells_the_grid_from_the_rest() {
    let game = Game::new(4, 3);
    assert!(game.is_valid_cell(0, 0));
    assert!(game.is_valid_cell(2, 3));
    assert!(!game.is_valid_cell(3, 0));
    assert!(!game.is_valid_cell(0, 4));
    assert!(!game.is_valid_cell(-1, 0));
    assert!(!game.is_valid_cell(0, -1));
}

#[test]
fn top_row_sees_bottom_row() {
    let mut game = Game::new(5, 4);
    game.set_cells(&[(3, 2)]);
    assert_eq!(game.get_live_neighbours(game.get_cell_index(0, 2)), 1);
    assert_eq!(game.get_live_neighbours(game.get_cell_index(0, 1)), 1);
    assert_eq!(game.get_live_neighbours(game.get_cell_index(0, 3)), 1);
    assert_eq!(game.get_live_neighbours(game.get_cell_index(0, 0)), 0);
    assert_eq!(game.get_live_neighbours(game.get_cell_index(1, 2)), 0);
}

#[test]
fn bottom_row_sees_top_row() {
    let mut game = Game::new(5, 4);
    game.set_cells(&[(0, 2)]);
    assert_eq!(game.get_live_neighbours(game.get_cell_index(3, 2)), 1);
    assert_eq!(game.get_live_neighbours(game.get_cell_index(2, 2)), 0);
}

#[test]
fn left_column_sees_right_column() {
    let mut game = Game::new(5, 4);
    game.set_cells(&[(1, 4)]);
    assert_eq!(game.get_live_neighbours(game.get_cell_index(1, 0)), 1);
    assert_eq!(game.get_live_neighbours(game.get_cell_index(0, 0)), 1);
    assert_eq!(game.get_live_neighbours(game.get_cell_index(2, 0)), 1);
    assert_eq!(game.get_live_neighbours(game.get_cell_index(1, 1)), 0);
}

#[test]
fn right_column_sees_left_column() {
    let mut game = Game::new(5, 4);
    game.set_cells(&[(1, 0)]);
    assert_eq!(game.get_live_neighbours(game.get_cell_index(1, 4)), 1);
    assert_eq!(game.get_live_neighbours(game.get_cell_index(1, 3)), 0);
}

#[test]
fn corners_meet_across_the_grid() {
    let mut game = Game::new(5, 4);
    game.set_cells(&[(3, 4)]);
    assert_eq!(game.get_live_neighbours(game.get_cell_index(0, 0)), 1);
}

#[test]
fn a_cell_is_not_its_own_neighbour() {
    let mut game = Game::new(1, 1);
    game.set_cells(&[(0, 0)]);
    assert_eq!(game.get_live_neighbours(0), 0);
    assert!(!game.is_cell_alive(0));
}

#[test]
fn all_eight_neighbours_are_counted() {
    let mut game = Game::new(3, 3);
    game.set_cells(&[(0, 0), (0, 1), (0, 2), (1, 0), (1, 1), (1, 2), (2, 0), (2, 1), (2, 2)]);
    for index in 0..9 {
        assert_eq!(game.get_live_neighbours(index), 8);
    }
}

#[test]
fn transition_table_for_a_dead_cell() {
    let around = [(0, 0), (0, 1), (0, 2), (1, 0), (1, 2), (2, 0), (2, 1), (2, 2)];
    let expected = [false, false, false, true, false, false, false, false, false];
    for n in 0..=8usize {
        let mut game = Game::new(3, 3);
        game.set_cells(&around[..n]);
        let centre = game.get_cell_index(1, 1);
        assert_eq!(game.get_live_neighbours(centre), n as u32);
        assert_eq!(game.is_cell_alive(centre), expected[n]);
    }
}

#[test]
fn transition_table_for_a_live_cell() {
    let around = [(0, 0), (0, 1), (0, 2), (1, 0), (1, 2), (2, 0), (2, 1), (2, 2)];
    let expected = [false, false, true, true, false, false, false, false, false];
    for n in 0..=8usize {
        let mut game = Game::new(3, 3);
        game.set_cells(&around[..n]);
        game.set_cells(&[(1, 1)]);
        let centre = game.get_cell_index(1, 1);
        assert_eq!(game.get_live_neighbours(centre), n as u32);
        assert_eq!(game.is_cell_alive(centre), expected[n]);
    }
}

#[test]
fn tick_updates_all_cells_at_once() {
    let mut game = Game::new(5, 5);
    game.set_cells(&[(2, 1), (2, 2), (2, 3)]);

    game.tick();
    assert_eq!(live_coordinates(&game), vec![(1, 2), (2, 2), (3, 2)]);

    game.tick();
    assert_eq!(live_coordinates(&game), vec![(2, 1), (2, 2), (2, 3)]);
}

#[test]
fn two_adjacent_cells_both_die() {
    let mut game = Game::new(5, 5);
    game.set_cells(&[(2, 2), (2, 3)]);
    game.tick();
    assert_eq!(game.get_cells(), vec![0u32; 25].as_slice());
}

#[test]
fn glider_moves_one_step() {
    let mut game = Game::new(6, 6);
    game.set_cells(&[(1, 2), (2, 3), (3, 1), (3, 2), (3, 3)]);

    game.tick();

    assert_eq!(live_coordinates(&game), vec![(2, 1), (2, 3), (3, 2), (3, 3), (4, 2)]);
    let cells = game.get_cells();
    assert_eq!(cells[game.get_cell_index(2, 1)], 1);
    assert_eq!(cells[game.get_cell_index(2, 3)], 2);
    assert_eq!(cells[game.get_cell_index(3, 2)], 2);
    assert_eq!(cells[game.get_cell_index(3, 3)], 2);
    assert_eq!(cells[game.get_cell_index(4, 2)], 1);
}

#[test]
fn age_grows_by_one_each_generation() {
    let mut game = Game::new(6, 6);
    game.set_cells(&[(1, 1), (1, 2), (2, 1), (2, 2)]);
    let corner = game.get_cell_index(1, 1);
    assert_eq!(game.get_cells()[corner], 1);
    for generation in 1..=10u32 {
        game.tick();
        assert_eq!(game.get_cells()[corner], 1 + generation);
    }
}

#[test]
fn age_stops_at_the_cap() {
    let mut game = Game::new(6, 6);
    game.set_cells(&[(1, 1), (1, 2), (2, 1), (2, 2)]);
    let corner = game.get_cell_index(1, 1);
    for _ in 0..254 {
        game.tick();
    }
    assert_eq!(game.get_cells()[corner], 255);
    game.tick();
    assert_eq!(game.get_cells()[corner], 256);
    assert_eq!(game.get_cells()[corner], AGE_CAP);
    for _ in 0..100 {
        game.tick();
        assert_eq!(game.get_cells()[corner], AGE_CAP);
    }
    assert_eq!(live_coordinates(&game), vec![(1, 1), (1, 2), (2, 1), (2, 2)]);
    assert!(game.get_cells().iter().all(|&age| age <= AGE_CAP));
}

#[test]
fn age_is_zero_once_a_cell_dies() {
    let mut game = Game::new(6, 6);
    game.set_cells(&[(1, 1), (1, 2), (2, 1), (2, 2)]);
    for _ in 0..5 {
        game.tick();
    }
    let corner = game.get_cell_index(1, 1);
    assert_eq!(game.get_cells()[corner], 6);

    game.toggle_cell(1, 2);
    game.toggle_cell(2, 1);
    game.toggle_cell(2, 2);
    game.tick();
    assert_eq!(game.get_cells()[corner], 0);
    for _ in 0..3 {
        game.tick();
        assert_eq!(game.get_cells()[corner], 0);
    }
}

#[test]
fn toggle_kills_an_aged_cell() {
    let mut game = Game::new(6, 6);
    game.set_cells(&[(1, 1), (1, 2), (2, 1), (2, 2)]);
    game.tick();
    game.tick();
    let corner = game.get_cell_index(1, 1);
    assert_eq!(game.get_cells()[corner], 3);
    game.toggle_cell(1, 1);
    assert_eq!(game.get_cells()[corner], 0);
    game.toggle_cell(1, 1);
    assert_eq!(game.get_cells()[corner], 1);
}

#[test]
fn toggle_off_the_grid_changes_nothing() {
    let mut game = Game::new(4, 3);
    game.set_cells(&[(1, 1)]);
    let before = game.get_cells().to_vec();
    game.toggle_cell(3, 0);
    game.toggle_cell(0, 4);
    game.toggle_cell(3, 4);
    game.toggle_cell(u32::MAX, u32::MAX);
    assert_eq!(game.get_cells(), before.as_slice());
}

#[test]
fn set_cells_off_the_grid_changes_nothing() {
    let mut game = Game::new(4, 3);
    game.set_cells(&[(3, 0), (0, 4), (1, 2), (7, 7)]);
    assert_eq!(live_coordinates(&game), vec![(1, 2)]);
}

#[test]
fn set_cells_gives_age_one() {
    let mut game = Game::new(6, 6);
    game.set_cells(&[(1, 1), (1, 2), (2, 1), (2, 2)]);
    game.tick();
    let corner = game.get_cell_index(1, 1);
    assert_eq!(game.get_cells()[corner], 2);
    game.set_cells(&[(1, 1), (4, 4)]);
    assert_eq!(game.get_cells()[corner], 1);
    assert_eq!(game.get_cells()[game.get_cell_index(4, 4)], 1);
    assert_eq!(game.get_cells()[game.get_cell_index(1, 2)], 2);
}

#[test]
fn set_cells_with_no_coordinates_changes_nothing() {
    let mut game = Game::new(3, 3);
    game.set_cells(&[]);
    assert_eq!(game.get_cells(), vec![0u32; 9].as_slice());
}

#[test]
fn clearing_twice_is_clearing_once() {
    let mut game = Game::new(4, 5);
    game.set_cells(&[(0, 0), (2, 3), (4, 1)]);
    game.tick();
    game.clear_grid();
    let once = game.get_cells().to_vec();
    game.clear_grid();
    assert_eq!(game.get_cells(), once.as_slice());
    assert_eq!(once, vec![0u32; 20]);
    assert_eq!(game.width(), 4);
    assert_eq!(game.height(), 5);
}

#[test]
fn cells_and_get_cells_show_the_same_buffer() {
    let mut game = Game::new(3, 2);
    game.set_cells(&[(0, 1), (1, 2)]);
    assert_eq!(game.cells().as_slice(), game.get_cells());
    assert_eq!(game.get_cells(), [0u32, 1, 0, 0, 0, 1].as_slice());
}

#[test]
fn tiny_torus_counts_each_offset() {
    let mut game = Game::new(2, 2);
    game.set_cells(&[(0, 1)]);
    assert_eq!(game.get_live_neighbours(game.get_cell_index(0, 0)), 2);
    assert_eq!(game.get_live_neighbours(game.get_cell_index(1, 0)), 4);
    assert_eq!(game.get_live_neighbours(game.get_cell_index(0, 1)), 0);
}
