//! One position of the grid: whether it is alive, where it sits, and which
//! eight cells surround it.

use crate::topology::{
    col_of, in_grid, index_of, lemma_index_roundtrip, lemma_neighbours_in_grid,
    lemma_row_in_grid, lemma_wrap_step, neighbours_of, row_of, valid_grid,
};
use vstd::prelude::*;

verus! {

/// A cell of the grid.
///
/// `coords` is the zero-based `[column, row]` of the cell. `neighbours` holds
/// the linear indices of the surrounding cells in the order north, south,
/// east, west, north-west, north-east, south-west, south-east.
#[derive(Clone, Copy)]
pub struct Cell {
    pub alive: bool,
    pub coords: [usize; 2],
    pub neighbours: [usize; 8],
}

/// A cell as the rules see it: its state, its column and row, and the
/// indices of its eight neighbours in slot order.
pub struct CellView {
    pub alive: bool,
    pub column: int,
    pub row: int,
    pub links: Seq<int>,
}

impl View for Cell {
    type V = CellView;

    open spec fn view(&self) -> CellView {
        CellView {
            alive: self.alive,
            column: self.coords[0] as int,
            row: self.coords[1] as int,
            links: Seq::new(8, |slot: int| self.neighbours[slot] as int),
        }
    }
}

/// Products of a row number and the grid's width that the wraparound cases
/// compare and add.
proof fn lemma_row_offsets(y: int, width: int, height: int)
    requires
        0 <= y < height,
        width > 0,
    ensures
        0 * width == 0,
        (y - 1) * width == y * width - width,
        (y + 1) * width == y * width + width,
        (height - 1) * width == width * height - width,
        0 <= y * width <= width * height - width,
        y >= 1 ==> y * width >= width,
        y <= height - 2 ==> y * width <= width * height - 2 * width,
{
    assert((y - 1) * width == y * width - width) by (nonlinear_arith);
    assert((y + 1) * width == y * width + width) by (nonlinear_arith);
    assert((height - 1) * width == width * height - width) by (nonlinear_arith);
    assert(0 <= y * width) by (nonlinear_arith)
        requires
            0 <= y,
            width > 0,
    ;
    assert(y * width <= (height - 1) * width) by (nonlinear_arith)
        requires
            y <= height - 1,
            width > 0,
    ;
    assert(y >= 1 ==> y * width >= width) by (nonlinear_arith)
        requires
            width > 0,
    ;
    assert(y <= height - 2 ==> y * width <= (height - 2) * width) by (nonlinear_arith)
        requires
            width > 0,
    ;
    assert((height - 2) * width == width * height - 2 * width) by (nonlinear_arith);
}

impl Cell {
    /// All eight neighbour links name cells of a grid of `size` cells.
    pub open spec fn links_within(&self, size: int) -> bool {
        forall|slot: int| 0 <= slot < 8 ==> 0 <= #[trigger] self.neighbours[slot] < size
    }

    /// The cell carries the coordinate and the neighbour links that belong
    /// to position `index` of a `width` by `height` grid.
    pub open spec fn placed_at(&self, index: int, width: int, height: int) -> bool {
        &&& self@.column == col_of(index, width)
        &&& self@.row == row_of(index, width)
        &&& forall|slot: int|
            0 <= slot < 8 ==> #[trigger] self.neighbours[slot] == neighbours_of(
                index,
                width,
                height,
            )[slot]
    }

    /// Both cells sit at the same place: equal coordinate, equal links.
    pub open spec fn same_place(&self, other: Cell) -> bool {
        self.coords == other.coords && self.neighbours == other.neighbours
    }

    /// The cell is dead and has no place yet: coordinate and links are all
    /// zero.
    pub open spec fn fresh(&self) -> bool {
        &&& !self.alive
        &&& self.coords[0] == 0 && self.coords[1] == 0
        &&& forall|slot: int| 0 <= slot < 8 ==> #[trigger] self.neighbours[slot] == 0
    }

    /// A dead cell that has not been placed yet.
    pub fn new() -> (cell: Cell)
        ensures
            cell.fresh(),
    {
        Cell { alive: false, coords: [0, 0], neighbours: [0, 0, 0, 0, 0, 0, 0, 0] }
    }

    /// Places the cell at position `cell` of a `width` by `height` grid and
    /// marks it dead.
    pub fn init(&mut self, cell: usize, width: usize, height: usize)
        requires
            valid_grid(width as int, height as int),
            width * height <= usize::MAX,
            in_grid(cell as int, width as int, height as int),
        ensures
            !final(self).alive,
            final(self).placed_at(cell as int, width as int, height as int),
            final(self).links_within(width * height),
    {
        self.alive = false;
        self.coords = self.get_coords(cell, width);
        self.neighbours = self.get_neighbours(cell, width, height);
    }

    /// Flips the cell between alive and dead; its place stays.
    pub fn toggle_life(&mut self)
        ensures
            final(self).alive == !old(self).alive,
            final(self).coords == old(self).coords,
            final(self).neighbours == old(self).neighbours,
    {
        self.alive = !self.alive;
    }

    /// The `[column, row]` of linear index `n` on a grid `w` cells wide.
    pub fn get_coords(&self, n: usize, w: usize) -> (xy: [usize; 2])
        requires
            w > 0,
        ensures
            xy[0] == col_of(n as int, w as int),
            xy[1] == row_of(n as int, w as int),
            index_of(xy[0] as int, xy[1] as int, w as int) == n,
    {
        proof {
            lemma_index_roundtrip(n as int, w as int);
        }
        [n % w, n / w]
    }

    /// The linear indices of the eight cells around `cell` on a `width` by
    /// `height` grid whose edges wrap around, in the order north, south,
    /// east, west, north-west, north-east, south-west, south-east.
    pub fn get_neighbours(&self, cell: usize, width: usize, height: usize) -> (links: [usize; 8])
        requires
            valid_grid(width as int, height as int),
            width * height <= usize::MAX,
            in_grid(cell as int, width as int, height as int),
        ensures
            forall|slot: int|
                0 <= slot < 8 ==> #[trigger] links[slot] == neighbours_of(
                    cell as int,
                    width as int,
                    height as int,
                )[slot],
            forall|slot: int| 0 <= slot < 8 ==> 0 <= #[trigger] links[slot] < width * height,
    {
        let ghost x = col_of(cell as int, width as int);
        let ghost y = row_of(cell as int, width as int);
        proof {
            lemma_row_in_grid(cell as int, width as int, height as int);
            lemma_index_roundtrip(cell as int, width as int);
            lemma_row_offsets(y, width as int, height as int);
            lemma_wrap_step(x, width as int, -1);
            lemma_wrap_step(x, width as int, 0);
            lemma_wrap_step(x, width as int, 1);
            lemma_wrap_step(y, height as int, -1);
            lemma_wrap_step(y, height as int, 0);
            lemma_wrap_step(y, height as int, 1);
            lemma_neighbours_in_grid(cell as int, width as int, height as int);
        }
        let size: usize = width * height;
        let row_start: usize = (cell / width) * width;
        let row_end: usize = (row_start + width) - 1;
        let last_row_start: usize = size - width;
        let column: usize = cell % width;
        let top_right: usize = width - 1;
        let bottom_right: usize = size - 1;

        let north: usize = if cell < width {
            last_row_start + cell
        } else {
            cell - width
        };
        let south: usize = if cell >= last_row_start {
            cell - row_start
        } else {
            cell + width
        };

        let east: usize;
        let north_east: usize;
        let south_east: usize;
        if column == top_right {
            east = row_start;
            if cell == top_right {
                north_east = last_row_start;
                south_east = row_start + width;
            } else if cell == bottom_right {
                north_east = row_start - width;
                south_east = 0;
            } else {
                north_east = row_start - width;
                south_east = row_start + width;
            }
        } else {
            east = cell + 1;
            north_east = north + 1;
            south_east = south + 1;
        }

        let west: usize;
        let north_west: usize;
        let south_west: usize;
        if column == 0 {
            west = row_end;
            if cell == last_row_start {
                north_west = cell - 1;
                south_west = top_right;
            } else if cell == 0 {
                north_west = bottom_right;
                south_west = row_end + width;
            } else {
                north_west = cell - 1;
                south_west = row_end + width;
            }
        } else {
            west = cell - 1;
            north_west = north - 1;
            south_west = south - 1;
        }

        [north, south, east, west, north_west, north_east, south_west, south_east]
    }
}

} // verus!
