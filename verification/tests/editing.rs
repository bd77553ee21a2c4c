use game_of_life::error::GameError;
use game_of_life::game::Game;
use image::{DynamicImage, GenericImage, Rgba};

fn placed(columns: usize, rows: usize, scale: usize) -> Game {
    let mut game = Game::try_new(columns * scale, rows * scale, scale).unwrap();
    game.init();
    game
}

#[test]
fn get_cell_maps_pixels_to_cells() {
    let game = placed(4, 3, 8);
    assert_eq!(game.get_cell([0, 0]), Ok(0));
    assert_eq!(game.get_cell([7, 7]), Ok(0));
    assert_eq!(game.get_cell([8, 0]), Ok(1));
    assert_eq!(game.get_cell([9, 17]), Ok(9));
    assert_eq!(game.get_cell([31, 23]), Ok(11));
}

#[test]
fn get_cell_inverts_the_coordinate_of_every_cell() {
    let game = placed(7, 5, 3);
    for index in 0..game.size {
        let [x, y] = game.grid[index].coords;
        assert_eq!(game.get_cell([x * 3, y * 3]), Ok(index));
        assert_eq!(game.get_cell([x * 3 + 2, y * 3 + 2]), Ok(index));
    }
}

#[test]
fn get_cell_refuses_pixels_off_the_board() {
    let game = placed(4, 3, 8);
    assert_eq!(game.get_cell([32, 0]), Err(GameError::OutOfRange));
    assert_eq!(game.get_cell([0, 24]), Err(GameError::OutOfRange));
    assert_eq!(game.get_cell([40, 8]), Err(GameError::OutOfRange));
    assert_eq!(game.get_cell([usize::MAX, usize::MAX]), Err(GameError::OutOfRange));
}

#[test]
fn paint_toggles_the_cell_under_the_pixel() {
    let mut game = placed(4, 3, 8);
    assert_eq!(game.paint([9, 17]), Ok(()));
    for index in 0..game.size {
        assert_eq!(game.grid[index].alive, index == 9);
    }
    assert_eq!(game.grid[9].coords, [1, 2]);
    assert_eq!(game.paint([15, 23]), Ok(()));
    assert!(!game.grid[9].alive);
}

#[test]
fn paint_off_the_board_changes_nothing() {
    let mut game = placed(4, 3, 8);
    game.grid[5].alive = true;
    assert_eq!(game.paint([32, 3]), Err(GameError::OutOfRange));
    assert_eq!(game.paint([3, 24]), Err(GameError::OutOfRange));
    for index in 0..game.size {
        assert_eq!(game.grid[index].alive, index == 5);
    }
}

#[test]
fn randomise_from_makes_even_draws_alive() {
    let mut game = placed(3, 2, 4);
    let places: Vec<([usize; 2], [usize; 8])> =
        game.grid.iter().map(|c| (c.coords, c.neighbours)).collect();
    game.randomise_from(&vec![0, 1, 2, 7, usize::MAX, usize::MAX - 1]);
    let alive: Vec<bool> = game.grid.iter().map(|c| c.alive).collect();
    assert_eq!(alive, vec![true, false, true, false, false, true]);
    for (cell, place) in game.grid.iter().zip(places.iter()) {
        assert_eq!((cell.coords, cell.neighbours), *place);
    }
    assert!(game.paused);
}

#[test]
fn randomise_keeps_places_and_mixes_states() {
    let mut game = placed(64, 64, 2);
    let places: Vec<([usize; 2], [usize; 8])> =
        game.grid.iter().map(|c| (c.coords, c.neighbours)).collect();
    game.randomise();
    assert_eq!(game.grid.len(), 4096);
    for (cell, place) in game.grid.iter().zip(places.iter()) {
        assert_eq!((cell.coords, cell.neighbours), *place);
    }
    let alive = game.grid.iter().filter(|c| c.alive).count();
    assert!(alive > 0 && alive < 4096);
    assert!(game.paused);
}

#[test]
fn image_to_grid_reads_the_top_left_pixel_of_each_cell() {
    let mut game = placed(3, 2, 4);
    let white = Rgba([255u8, 255, 255, 255]);
    let mut picture = DynamicImage::new_rgba8(12, 8);
    for y in 0..8 {
        for x in 0..12 {
            picture.put_pixel(x, y, white);
        }
    }
    picture.put_pixel(4, 0, Rgba([0, 0, 0, 255]));
    picture.put_pixel(8, 4, Rgba([255, 255, 254, 255]));
    picture.put_pixel(0, 4, Rgba([255, 255, 255, 0]));
    picture.put_pixel(1, 1, Rgba([0, 0, 0, 255]));
    picture.put_pixel(11, 7, Rgba([0, 0, 0, 255]));
    game.grid[0].alive = true;
    assert_eq!(game.image_to_grid(&picture), Ok(()));
    let alive: Vec<bool> = game.grid.iter().map(|c| c.alive).collect();
    assert_eq!(alive, vec![false, true, false, true, false, true]);
    assert_eq!(game.grid[4].coords, [1, 1]);
}

#[test]
fn image_to_grid_treats_an_opaque_format_as_opaque() {
    let mut game = placed(2, 2, 2);
    let mut picture = DynamicImage::new_rgb8(4, 4);
    picture.put_pixel(0, 0, Rgba([255, 255, 255, 255]));
    picture.put_pixel(2, 2, Rgba([255, 255, 255, 255]));
    assert_eq!(game.image_to_grid(&picture), Ok(()));
    let alive: Vec<bool> = game.grid.iter().map(|c| c.alive).collect();
    assert_eq!(alive, vec![false, true, true, false]);
}

#[test]
fn image_to_grid_refuses_another_size() {
    let mut game = placed(3, 2, 4);
    game.grid[2].alive = true;
    for (w, h) in [(12u32, 7u32), (11, 8), (8, 12), (3, 2), (0, 0)] {
        let picture = DynamicImage::new_rgba8(w, h);
        assert_eq!(game.image_to_grid(&picture), Err(GameError::ImageMismatch));
    }
    for index in 0..game.size {
        assert_eq!(game.grid[index].alive, index == 2);
    }
}
