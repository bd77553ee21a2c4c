use game_of_life::error::GameError;
use game_of_life::game::Game;
use game_of_life::rules::next_state;

fn board(columns: usize, rows: usize, live: &[usize]) -> Game {
    let mut game = Game::try_new(columns * 4, rows * 4, 4).unwrap();
    game.init();
    for &index in live {
        game.grid[index].alive = true;
    }
    game
}

fn live_cells(game: &Game) -> Vec<usize> {
    (0..game.size).filter(|&i| game.grid[i].alive).collect()
}

#[test]
fn new_board_is_paused_dead_and_unplaced() {
    let game = Game::new(32, 24, 8);
    assert!(game.paused);
    assert_eq!(game.width, 4);
    assert_eq!(game.height, 3);
    assert_eq!(game.scale, 8);
    assert_eq!(game.size, 12);
    assert_eq!(game.grid.len(), 12);
    for cell in game.grid.iter() {
        assert!(!cell.alive);
        assert_eq!(cell.coords, [0, 0]);
        assert_eq!(cell.neighbours, [0; 8]);
    }
}

#[test]
fn try_new_accepts_an_aligned_window() {
    let game = Game::try_new(1280, 720, 8).unwrap();
    assert_eq!(game.width, 160);
    assert_eq!(game.height, 90);
    assert_eq!(game.size, 14400);
    assert_eq!(game.grid.len(), 14400);
    assert!(game.paused);
}

#[test]
fn try_new_refuses_a_zero_scale() {
    assert_eq!(Game::try_new(32, 32, 0).err(), Some(GameError::ZeroScale));
    assert_eq!(Game::try_new(0, 0, 0).err(), Some(GameError::ZeroScale));
}

#[test]
fn try_new_refuses_a_ragged_window() {
    assert_eq!(Game::try_new(33, 32, 8).err(), Some(GameError::Misaligned));
    assert_eq!(Game::try_new(32, 31, 8).err(), Some(GameError::Misaligned));
    assert_eq!(Game::try_new(7, 32, 8).err(), Some(GameError::Misaligned));
}

#[test]
fn try_new_refuses_a_board_without_two_rows_and_columns() {
    assert_eq!(Game::try_new(8, 32, 8).err(), Some(GameError::TooSmall));
    assert_eq!(Game::try_new(32, 8, 8).err(), Some(GameError::TooSmall));
    assert_eq!(Game::try_new(0, 32, 8).err(), Some(GameError::TooSmall));
    assert!(Game::try_new(16, 16, 8).is_ok());
}

#[test]
fn try_new_refuses_more_cells_than_can_be_counted() {
    assert_eq!(Game::try_new(usize::MAX, usize::MAX, 1).err(), Some(GameError::TooLarge));
}

#[test]
fn init_places_every_cell() {
    let mut game = Game::new(20, 12, 4);
    game.init();
    for (index, cell) in game.grid.iter().enumerate() {
        assert!(!cell.alive);
        assert_eq!(cell.coords, [index % 5, index / 5]);
        assert_eq!(cell.neighbours, cell.get_neighbours(index, 5, 3));
    }
}

#[test]
fn init_again_clears_the_board() {
    let mut game = board(5, 5, &[0, 6, 12, 24]);
    game.toggle_pause();
    let places: Vec<([usize; 2], [usize; 8])> =
        game.grid.iter().map(|c| (c.coords, c.neighbours)).collect();
    game.init();
    assert_eq!(live_cells(&game), Vec::<usize>::new());
    assert!(!game.paused);
    for (cell, place) in game.grid.iter().zip(places.iter()) {
        assert_eq!((cell.coords, cell.neighbours), *place);
    }
}

#[test]
fn toggle_pause_twice_restores_the_flag() {
    let mut game = Game::new(32, 32, 8);
    assert!(game.paused);
    game.toggle_pause();
    assert!(!game.paused);
    game.toggle_pause();
    assert!(game.paused);
}

#[test]
fn update_leaves_the_pause_flag() {
    let mut game = board(6, 6, &[14, 15, 16]);
    game.update();
    assert!(game.paused);
    game.toggle_pause();
    game.update();
    assert!(!game.paused);
}

#[test]
fn next_state_follows_the_rule() {
    let dead = [false, false, false, true, false, false, false, false, false];
    let live = [false, false, true, true, false, false, false, false, false];
    for n in 0..=8u8 {
        assert_eq!(next_state(false, n), dead[n as usize]);
        assert_eq!(next_state(true, n), live[n as usize]);
    }
}

#[test]
fn count_neighbours_counts_live_links() {
    let game = board(4, 4, &[1, 4, 5, 15]);
    assert_eq!(game.count_neighbours(0), 4);
    assert_eq!(game.count_neighbours(5), 2);
    assert_eq!(game.count_neighbours(10), 2);
    assert_eq!(game.count_neighbours(3), 2);
    assert_eq!(game.count_neighbours(9), 2);
}

#[test]
fn count_neighbours_counts_a_repeated_link_each_time() {
    let game = board(2, 2, &[3]);
    assert_eq!(game.count_neighbours(0), 4);
    assert_eq!(game.count_neighbours(1), 2);
    assert_eq!(game.count_neighbours(3), 0);
}

#[test]
fn count_neighbours_on_an_unplaced_board_looks_at_cell_zero() {
    let mut game = Game::new(16, 16, 4);
    assert_eq!(game.count_neighbours(5), 0);
    game.grid[0].alive = true;
    assert_eq!(game.count_neighbours(5), 8);
}

#[test]
fn block_is_a_still_life() {
    let block = [14, 15, 20, 21];
    let mut game = board(6, 6, &block);
    game.update();
    assert_eq!(live_cells(&game), block.to_vec());
    game.update();
    assert_eq!(live_cells(&game), block.to_vec());
}

#[test]
fn blinker_oscillates() {
    let horizontal = [212, 213, 214];
    let vertical = [193, 213, 233];
    let mut game = board(20, 20, &horizontal);
    game.update();
    assert_eq!(live_cells(&game), vertical.to_vec());
    game.update();
    assert_eq!(live_cells(&game), horizontal.to_vec());
}

#[test]
fn blinker_oscillates_across_the_edge() {
    let mut game = board(6, 6, &[5, 0, 1]);
    game.update();
    assert_eq!(live_cells(&game), vec![0, 6, 30]);
    game.update();
    assert_eq!(live_cells(&game), vec![0, 1, 5]);
}

#[test]
fn lonely_cell_dies_and_crowded_cell_dies() {
    let mut game = board(6, 6, &[14]);
    game.update();
    assert_eq!(live_cells(&game), Vec::<usize>::new());
    let mut game = board(6, 6, &[7, 8, 9, 13, 14, 15, 19, 20, 21]);
    game.update();
    assert!(!game.grid[14].alive);
    assert!(game.grid[7].alive);
    assert!(!game.grid[8].alive);
    assert!(game.grid[2].alive);
}

#[test]
fn update_judges_every_cell_by_the_old_generation() {
    let mut game = board(5, 5, &[6, 7, 8]);
    let before: Vec<bool> = game.grid.iter().map(|c| c.alive).collect();
    let counts: Vec<u8> = (0..game.size).map(|i| game.count_neighbours(i)).collect();
    game.update();
    for i in 0..game.size {
        assert_eq!(game.grid[i].alive, next_state(before[i], counts[i]));
    }
}

#[test]
fn update_keeps_coordinates_and_links() {
    let mut game = board(7, 5, &[0, 1, 2, 8, 9, 16, 34]);
    let places: Vec<([usize; 2], [usize; 8])> =
        game.grid.iter().map(|c| (c.coords, c.neighbours)).collect();
    for _ in 0..4 {
        game.update();
        assert_eq!(game.width, 7);
        assert_eq!(game.height, 5);
        assert_eq!(game.size, 35);
        assert_eq!(game.grid.len(), 35);
        for (cell, place) in game.grid.iter().zip(places.iter()) {
            assert_eq!((cell.coords, cell.neighbours), *place);
        }
    }
}

#[test]
fn glider_returns_after_crossing_the_torus() {
    let glider = [1, 8, 12, 13, 14];
    let mut game = board(6, 6, &glider);
    for _ in 0..24 {
        game.update();
    }
    assert_eq!(live_cells(&game), glider.to_vec());
}
