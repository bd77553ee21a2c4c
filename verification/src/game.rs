//! The grid: a row-major sequence of cells that advances by generations.

use crate::bitmap::{blank, extent, image_extent, image_pixels, is_blank, pixel};
use crate::cell::Cell;
use crate::error::GameError;
use crate::random::draw;
use crate::rules::{count_live, lemma_count_live_agrees, life_step, next_state, survives};
use crate::topology::{
    cell_at, col_of, lemma_adjacency_symmetric, lemma_cell_at_roundtrip, lemma_in_grid_iff,
    lemma_neighbours_exclude_self, lemma_neighbours_in_grid, lemma_row_in_grid, neighbours_of,
    opposite, row_of, valid_grid,
};
use vstd::arithmetic::div_mod::lemma_fundamental_div_mod;
use image::DynamicImage;
use vstd::prelude::*;

verus! {

/// A Game of Life board.
///
/// `width` and `height` count cells, `scale` is the edge of a cell in
/// pixels, `size` is the number of cells and `grid` holds them row by row.
pub struct Game {
    pub width: usize,
    pub height: usize,
    pub scale: usize,
    pub size: usize,
    pub grid: Vec<Cell>,
    pub paused: bool,
}

/// A board as the rules see it: its dimensions in cells, whether it is
/// paused, and which cells are alive, row by row.
pub struct Board {
    pub width: int,
    pub height: int,
    pub paused: bool,
    pub alive: Seq<bool>,
}

impl View for Game {
    type V = Board;

    open spec fn view(&self) -> Board {
        Board {
            width: self.width as int,
            height: self.height as int,
            paused: self.paused,
            alive: Seq::new(self.grid.len() as nat, |i: int| self.grid[i].alive),
        }
    }
}

impl Board {
    /// The board one generation later, on a grid whose edges wrap around.
    pub open spec fn step(self) -> Board {
        Board { alive: life_step(self.alive, self.width, self.height), ..self }
    }
}

impl Game {
    /// The board is consistent: it has at least two columns and two rows,
    /// `size` cells in `grid`, a positive scale, a pixel extent that fits
    /// the machine, and neighbour links that all name cells of the board.
    pub open spec fn wf(&self) -> bool {
        &&& valid_grid(self.width as int, self.height as int)
        &&& self.size == self.width * self.height
        &&& self.grid.len() == self.size
        &&& self.scale > 0
        &&& self.width * self.scale <= usize::MAX
        &&& self.height * self.scale <= usize::MAX
        &&& forall|i: int|
            0 <= i < self.grid.len() ==> (#[trigger] self.grid[i]).links_within(self.size as int)
    }

    /// Every cell carries the coordinate and the links of its own position.
    pub open spec fn placed(&self) -> bool {
        forall|i: int|
            0 <= i < self.grid.len() ==> (#[trigger] self.grid[i]).placed_at(
                i,
                self.width as int,
                self.height as int,
            )
    }

    /// Number of live cells among the eight that cell `i` links to.
    pub open spec fn live_neighbours(&self, i: int) -> nat {
        count_live(self@.alive, self.grid[i]@.links, 8)
    }

    /// Same dimensions, scale and number of cells as `other`.
    pub open spec fn same_shape(&self, other: Game) -> bool {
        &&& self.width == other.width
        &&& self.height == other.height
        &&& self.scale == other.scale
        &&& self.size == other.size
        &&& self.grid.len() == other.grid.len()
    }

    /// Every cell has the coordinate and the links of the cell of `other`
    /// in the same position.
    pub open spec fn same_places(&self, other: Game) -> bool {
        forall|i: int|
            0 <= i < self.grid.len() ==> (#[trigger] self.grid[i]).same_place(other.grid[i])
    }

    /// The point `(px, py)`, in pixels, lies on the board.
    pub open spec fn covers(&self, px: int, py: int) -> bool {
        px / (self.scale as int) < self.width && py / (self.scale as int) < self.height
    }

    /// The cells of the board with cell `index` flipped between alive and
    /// dead.
    pub open spec fn cells_with_toggled(&self, index: int) -> Seq<Cell> {
        self.grid@.update(
            index,
            Cell {
                alive: !self.grid[index].alive,
                coords: self.grid[index].coords,
                neighbours: self.grid[index].neighbours,
            },
        )
    }

    /// An image of `extent` pixels is exactly as large as the board.
    pub open spec fn fits(&self, extent: (u32, u32)) -> bool {
        self.width * self.scale == extent.0 && self.height * self.scale == extent.1
    }

    /// The pixel that stands for cell `i`: the top left corner of the square
    /// the cell covers.
    pub open spec fn sample_point(&self, i: int) -> (u32, u32) {
        (
            (col_of(i, self.width as int) * self.scale) as u32,
            (row_of(i, self.width as int) * self.scale) as u32,
        )
    }

    /// The board with its pause flag flipped.
    pub open spec fn with_pause_toggled(self) -> Game {
        Game { paused: !self.paused, ..self }
    }

    /// Why a window of `width` by `height` pixels cannot be cut into cells
    /// of `scale` pixels, if it cannot.
    pub open spec fn refusal(width: int, height: int, scale: int) -> Option<GameError> {
        if scale == 0 {
            Some(GameError::ZeroScale)
        } else if width % scale != 0 || height % scale != 0 {
            Some(GameError::Misaligned)
        } else if !valid_grid(width / scale, height / scale) {
            Some(GameError::TooSmall)
        } else if (width / scale) * (height / scale) > usize::MAX {
            Some(GameError::TooLarge)
        } else {
            None
        }
    }

    /// A paused board of dead, unplaced cells that fills a window of `width`
    /// by `height` pixels exactly, `width / scale` cells wide and
    /// `height / scale` cells high.
    ///
    /// The scale must divide both sides of the window: a window with pixels
    /// left over has no board. `try_new` tests that, and the other demands,
    /// for a caller who cannot vouch for them.
    pub fn new(width: usize, height: usize, scale: usize) -> (game: Self)
        requires
            scale > 0,
            width as int % scale as int == 0,
            height as int % scale as int == 0,
            valid_grid(width as int / scale as int, height as int / scale as int),
            (width as int / scale as int) * (height as int / scale as int) <= usize::MAX,
        ensures
            game.wf(),
            game.width * scale == width,
            game.height * scale == height,
            game.scale == scale,
            game.paused,
            forall|i: int| 0 <= i < game.grid.len() ==> (#[trigger] game.grid[i]).fresh(),
    {
        let w: usize = width / scale;
        let h: usize = height / scale;
        let size: usize = w * h;
        proof {
            lemma_fundamental_div_mod(width as int, scale as int);
            lemma_fundamental_div_mod(height as int, scale as int);
            assert(w * scale == scale * w) by (nonlinear_arith);
            assert(h * scale == scale * h) by (nonlinear_arith);
            assert(size >= 4) by (nonlinear_arith)
                requires
                    size == w * h,
                    w >= 2,
                    h >= 2,
            ;
        }
        Game { grid: vec![Cell::new(); size], width: w, height: h, scale, size, paused: true }
    }

    /// Places every cell and marks it dead: the way to set a board up, and
    /// to clear it again.
    pub fn init(&mut self)
        requires
            old(self).wf(),
        ensures
            final(self).wf(),
            final(self).placed(),
            final(self).same_shape(*old(self)),
            final(self).paused == old(self).paused,
            forall|i: int| 0 <= i < final(self).grid.len() ==> !(#[trigger] final(self).grid[i]).alive,
    {
        let mut c: usize = 0;
        while c < self.size
            invariant
                c <= self.size,
                self.wf(),
                self.same_shape(*old(self)),
                self.paused == old(self).paused,
                forall|i: int|
                    0 <= i < c ==> (#[trigger] self.grid[i]).placed_at(
                        i,
                        self.width as int,
                        self.height as int,
                    ) && !self.grid[i].alive,
            decreases self.size - c,
        {
            let mut cell = self.grid[c];
            cell.init(c, self.width, self.height);
            self.grid.set(c, cell);
            c += 1;
        }
    }

    /// A board for a window of `width` by `height` pixels, or the reason why
    /// there is none: a zero scale, a width or height that the scale does
    /// not divide, fewer than two columns or rows, or more cells than the
    /// machine can count.
    pub fn try_new(width: usize, height: usize, scale: usize) -> (made: Result<Self, GameError>)
        ensures
            match made {
                Ok(game) => {
                    &&& Self::refusal(width as int, height as int, scale as int) is None
                    &&& game.wf()
                    &&& game.width * scale == width
                    &&& game.height * scale == height
                    &&& game.scale == scale
                    &&& game.paused
                    &&& forall|i: int| 0 <= i < game.grid.len() ==> (#[trigger] game.grid[i]).fresh()
                },
                Err(e) => Self::refusal(width as int, height as int, scale as int) == Some(e),
            },
    {
        if scale == 0 {
            return Err(GameError::ZeroScale);
        }
        if width % scale != 0 || height % scale != 0 {
            return Err(GameError::Misaligned);
        }
        let w: usize = width / scale;
        let h: usize = height / scale;
        if w < 2 || h < 2 {
            return Err(GameError::TooSmall);
        }
        if w.checked_mul(h).is_none() {
            return Err(GameError::TooLarge);
        }
        Ok(Game::new(width, height, scale))
    }

    /// Flips the pause flag and touches nothing else.
    pub fn toggle_pause(&mut self)
        ensures
            *final(self) == old(self).with_pause_toggled(),
    {
        self.paused = !self.paused;
    }

    /// Sets every cell alive or dead by the draw at its index: alive where
    /// the draw is even. Places and the pause flag stay.
    pub fn randomise_from(&mut self, draws: &Vec<usize>)
        requires
            old(self).wf(),
            draws.len() >= old(self).size,
        ensures
            final(self).wf(),
            final(self).same_shape(*old(self)),
            final(self).same_places(*old(self)),
            final(self).paused == old(self).paused,
            forall|i: int|
                0 <= i < final(self).grid.len() ==> (#[trigger] final(self).grid[i]).alive == (
                draws[i] % 2 == 0),
    {
        let mut c: usize = 0;
        while c < self.size
            invariant
                c <= self.size,
                draws.len() >= self.size,
                self.wf(),
                self.same_shape(*old(self)),
                self.same_places(*old(self)),
                self.paused == old(self).paused,
                forall|i: int| 0 <= i < c ==> (#[trigger] self.grid[i]).alive == (draws[i] % 2 == 0),
            decreases self.size - c,
        {
            let mut cell = self.grid[c];
            cell.alive = draws[c] % 2 == 0;
            self.grid.set(c, cell);
            c += 1;
        }
    }

    /// Sets every cell alive or dead by chance, one draw of the thread's
    /// generator for each. Places and the pause flag stay.
    pub fn randomise(&mut self)
        requires
            old(self).wf(),
        ensures
            final(self).wf(),
            final(self).same_shape(*old(self)),
            final(self).same_places(*old(self)),
            final(self).paused == old(self).paused,
    {
        let mut rng = rand::thread_rng();
        let mut draws: Vec<usize> = Vec::new();
        let mut c: usize = 0;
        while c < self.size
            invariant
                c <= self.size,
                draws.len() == c,
            decreases self.size - c,
        {
            let n: usize = draw(&mut rng);
            draws.push(n);
            c += 1;
        }
        self.randomise_from(&draws);
    }

    /// Number of live cells among the neighbours of cell `n`.
    pub fn count_neighbours(&self, n: usize) -> (count: u8)
        requires
            self.wf(),
            n < self.size,
        ensures
            count == self.live_neighbours(n as int),
            count <= 8,
    {
        let cell = self.grid[n];
        let mut count: u8 = 0;
        let mut slot: usize = 0;
        while slot < 8
            invariant
                slot <= 8,
                self.wf(),
                n < self.size,
                cell == self.grid[n as int],
                count == count_live(self@.alive, cell@.links, slot as nat),
                count <= slot,
            decreases 8 - slot,
        {
            assert(cell.links_within(self.size as int));
            let link: usize = cell.neighbours[slot];
            assert(link == cell.neighbours[slot as int]);
            let neighbour = self.grid[link];
            if neighbour.alive {
                count += 1;
            }
            slot += 1;
        }
        count
    }

    /// Advances the board by one generation.
    ///
    /// Every cell is judged against the generation before the call; the new
    /// generation replaces the old one as a whole. Coordinates, links and
    /// the pause flag are left as they were.
    pub fn update(&mut self)
        requires
            old(self).wf(),
        ensures
            final(self).wf(),
            final(self).same_shape(*old(self)),
            final(self).same_places(*old(self)),
            final(self).paused == old(self).paused,
            forall|i: int|
                0 <= i < old(self).grid.len() ==> (#[trigger] final(self).grid[i]).alive
                    == survives(old(self).grid[i].alive, old(self).live_neighbours(i)),
            old(self).placed() ==> final(self).placed() && final(self)@ == old(self)@.step(),
    {
        let mut next: Vec<Cell> = vec![Cell::new(); self.size];
        let mut i: usize = 0;
        while i < self.size
            invariant
                i <= self.size,
                self.wf(),
                *self == *old(self),
                next.len() == self.size,
                forall|j: int|
                    0 <= j < i ==> (#[trigger] next[j]).same_place(self.grid[j])
                        && next[j].alive == survives(
                        self.grid[j].alive,
                        self.live_neighbours(j),
                    ),
            decreases self.size - i,
        {
            let cell = self.grid[i];
            let neighbours = self.count_neighbours(i);
            let successor = Cell {
                alive: next_state(cell.alive, neighbours),
                coords: cell.coords,
                neighbours: cell.neighbours,
            };
            next.set(i, successor);
            i += 1;
        }
        self.grid = next;
        proof {
            if old(self).placed() {
                old(self).lemma_placed_counts_wrap();
                self.lemma_same_places_keep_placed(*old(self));
                assert(self@.alive =~= old(self)@.step().alive);
            }
        }
    }

    /// On a placed board the live neighbours of a cell are the live cells
    /// among its eight neighbours under wraparound.
    pub proof fn lemma_placed_counts_wrap(&self)
        requires
            self.placed(),
        ensures
            forall|i: int|
                0 <= i < self.grid.len() ==> #[trigger] self.live_neighbours(i) == count_live(
                    self@.alive,
                    neighbours_of(i, self.width as int, self.height as int),
                    8,
                ),
    {
        assert forall|i: int| 0 <= i < self.grid.len() implies #[trigger] self.live_neighbours(i)
            == count_live(
            self@.alive,
            neighbours_of(i, self.width as int, self.height as int),
            8,
        ) by {
            assert(self.grid[i].placed_at(i, self.width as int, self.height as int));
            lemma_count_live_agrees(
                self@.alive,
                self.grid[i]@.links,
                self@.alive,
                neighbours_of(i, self.width as int, self.height as int),
                8,
            );
        }
    }

    /// A board whose cells sit where those of a placed board of the same
    /// shape sit is placed too.
    pub proof fn lemma_same_places_keep_placed(&self, other: Game)
        requires
            other.placed(),
            self.same_shape(other),
            self.same_places(other),
        ensures
            self.placed(),
    {
        assert forall|i: int| 0 <= i < self.grid.len() implies (#[trigger] self.grid[i]).placed_at(
            i,
            self.width as int,
            self.height as int,
        ) by {
            assert(self.grid[i].same_place(other.grid[i]));
            assert(other.grid[i].placed_at(i, other.width as int, other.height as int));
        }
    }

    /// On a placed board adjacency is symmetric and never reflexive: the
    /// cell that cell `i` links to in some slot links back to `i` in the
    /// opposite slot, and is not `i` itself.
    pub proof fn lemma_placed_links_pair_up(&self, i: int, slot: int)
        requires
            self.wf(),
            self.placed(),
            0 <= i < self.size,
            0 <= slot < 8,
        ensures
            0 <= self.grid[i]@.links[slot] < self.size,
            self.grid[i]@.links[slot] != i,
            self.grid[self.grid[i]@.links[slot]]@.links[opposite(slot)] == i,
    {
        let w = self.width as int;
        let h = self.height as int;
        let j = self.grid[i]@.links[slot];
        assert(self.grid[i].placed_at(i, w, h));
        assert(j == self.grid[i].neighbours[slot]);
        lemma_neighbours_in_grid(i, w, h);
        lemma_neighbours_exclude_self(i, w, h);
        lemma_adjacency_symmetric(i, w, h);
        assert(j == neighbours_of(i, w, h)[slot]);
        assert(self.grid[j].placed_at(j, w, h));
        assert(self.grid[j]@.links[opposite(slot)] == self.grid[j].neighbours[opposite(slot)]);
    }

    /// Every pixel of the square that a cell covers lies on the board and
    /// belongs to that cell, so `get_cell` finds the cell again from any of
    /// them.
    pub proof fn lemma_cell_owns_its_pixels(&self, i: int, dx: int, dy: int)
        requires
            self.wf(),
            0 <= i < self.size,
            0 <= dx < self.scale,
            0 <= dy < self.scale,
        ensures
            self.covers(
                col_of(i, self.width as int) * self.scale + dx,
                row_of(i, self.width as int) * self.scale + dy,
            ),
            cell_at(
                col_of(i, self.width as int) * self.scale + dx,
                row_of(i, self.width as int) * self.scale + dy,
                self.scale as int,
                self.width as int,
            ) == i,
    {
        lemma_row_in_grid(i, self.width as int, self.height as int);
        lemma_cell_at_roundtrip(i, self.width as int, self.scale as int, dx, dy);
    }

    /// Pausing and resuming, or resuming and pausing, leaves the board as
    /// it was.
    pub proof fn lemma_pause_twice(self)
        ensures
            self.with_pause_toggled().with_pause_toggled() == self,
    {
    }

    /// Index of the cell under the pixel `coords`, given as `[x, y]`, or
    /// `OutOfRange` for a pixel that lies right of or below the board.
    pub fn get_cell(&self, coords: [usize; 2]) -> (found: Result<usize, GameError>)
        requires
            self.wf(),
        ensures
            match found {
                Ok(index) => {
                    &&& self.covers(coords[0] as int, coords[1] as int)
                    &&& index == cell_at(
                        coords[0] as int,
                        coords[1] as int,
                        self.scale as int,
                        self.width as int,
                    )
                    &&& index < self.size
                },
                Err(e) => e == GameError::OutOfRange && !self.covers(
                    coords[0] as int,
                    coords[1] as int,
                ),
            },
    {
        let x: usize = coords[0] / self.scale;
        let y: usize = coords[1] / self.scale;
        if x >= self.width || y >= self.height {
            return Err(GameError::OutOfRange);
        }
        proof {
            lemma_in_grid_iff(x as int, y as int, self.width as int, self.height as int);
        }
        Ok(y * self.width + x)
    }

    /// Flips the cell under the pixel `coords`, given as `[x, y]`. A pixel
    /// off the board changes nothing and is reported as `OutOfRange`.
    pub fn paint(&mut self, coords: [usize; 2]) -> (done: Result<(), GameError>)
        requires
            old(self).wf(),
        ensures
            final(self).wf(),
            match done {
                Ok(()) => {
                    &&& old(self).covers(coords[0] as int, coords[1] as int)
                    &&& final(self).grid@ == old(self).cells_with_toggled(
                        cell_at(
                            coords[0] as int,
                            coords[1] as int,
                            old(self).scale as int,
                            old(self).width as int,
                        ),
                    )
                    &&& final(self).same_shape(*old(self))
                    &&& final(self).paused == old(self).paused
                },
                Err(e) => {
                    &&& e == GameError::OutOfRange
                    &&& !old(self).covers(coords[0] as int, coords[1] as int)
                    &&& *final(self) == *old(self)
                },
            },
    {
        match self.get_cell(coords) {
            Ok(index) => {
                let mut cell = self.grid[index];
                cell.toggle_life();
                self.grid.set(index, cell);
                Ok(())
            },
            Err(e) => Err(e),
        }
    }

    /// Seeds the board from an image of exactly the board's extent in
    /// pixels: a cell is dead where the pixel at its top left corner is
    /// opaque white and alive everywhere else. An image of another size
    /// changes nothing and is reported as `ImageMismatch`.
    pub fn image_to_grid(&mut self, image: &DynamicImage) -> (done: Result<(), GameError>)
        requires
            old(self).wf(),
        ensures
            final(self).wf(),
            final(self).same_shape(*old(self)),
            final(self).same_places(*old(self)),
            final(self).paused == old(self).paused,
            match done {
                Ok(()) => {
                    &&& old(self).fits(image_extent(*image))
                    &&& forall|i: int|
                        0 <= i < final(self).grid.len() ==> (#[trigger] final(self).grid[i]).alive
                            == !blank(image_pixels(*image)[old(self).sample_point(i)])
                },
                Err(e) => {
                    &&& e == GameError::ImageMismatch
                    &&& !old(self).fits(image_extent(*image))
                    &&& *final(self) == *old(self)
                },
            },
    {
        let (a, b) = extent(image);
        if self.width * self.scale != a as usize || self.height * self.scale != b as usize {
            return Err(GameError::ImageMismatch);
        }
        let mut c: usize = 0;
        while c < self.size
            invariant
                c <= self.size,
                self.wf(),
                self.same_shape(*old(self)),
                self.same_places(*old(self)),
                self.paused == old(self).paused,
                (a, b) == image_extent(*image),
                self.fits((a, b)),
                forall|i: int|
                    0 <= i < c ==> (#[trigger] self.grid[i]).alive == !blank(
                        image_pixels(*image)[self.sample_point(i)],
                    ),
            decreases self.size - c,
        {
            let mut cell = self.grid[c];
            let coords = cell.get_coords(c, self.width);
            proof {
                lemma_row_in_grid(c as int, self.width as int, self.height as int);
                assert(coords[0] * self.scale < self.width * self.scale) by (nonlinear_arith)
                    requires
                        coords[0] < self.width,
                        self.scale > 0,
                ;
                assert(coords[1] * self.scale < self.height * self.scale) by (nonlinear_arith)
                    requires
                        coords[1] < self.height,
                        self.scale > 0,
                ;
            }
            let px: usize = coords[0] * self.scale;
            let py: usize = coords[1] * self.scale;
            let rgba = pixel(image, px as u32, py as u32);
            cell.alive = !is_blank(rgba);
            self.grid.set(c, cell);
            c += 1;
        }
        Ok(())
    }
}

} // verus!
