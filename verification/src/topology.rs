//! The arithmetic of a row-major grid whose edges wrap around.
//!
//! A grid of `width` columns and `height` rows numbers its cells row by row:
//! the cell in column `x` of row `y` has the linear index `y * width + x`.
//! Stepping off one edge re-enters on the opposite edge, so every cell has
//! eight neighbours. This module states that adjacency once, over
//! mathematical integers, and proves the facts the rest of the crate relies
//! on.

use vstd::arithmetic::div_mod::{
    lemma_fundamental_div_mod, lemma_fundamental_div_mod_converse,
    lemma_mod_add_multiples_vanish, lemma_mod_self_0, lemma_small_mod,
};
use vstd::prelude::*;

verus! {

/// Slot of the northern neighbour in a cell's neighbour list.
pub const NORTH: usize = 0;

/// Slot of the southern neighbour.
pub const SOUTH: usize = 1;

/// Slot of the eastern neighbour.
pub const EAST: usize = 2;

/// Slot of the western neighbour.
pub const WEST: usize = 3;

/// Slot of the north-western neighbour.
pub const NORTH_WEST: usize = 4;

/// Slot of the north-eastern neighbour.
pub const NORTH_EAST: usize = 5;

/// Slot of the south-western neighbour.
pub const SOUTH_WEST: usize = 6;

/// Slot of the south-eastern neighbour.
pub const SOUTH_EAST: usize = 7;

/// Column of the cell at linear index `index` on a grid `width` cells wide.
pub open spec fn col_of(index: int, width: int) -> int {
    index % width
}

/// Row of the cell at linear index `index` on a grid `width` cells wide.
pub open spec fn row_of(index: int, width: int) -> int {
    index / width
}

/// Linear index of the cell in column `x` of row `y`.
pub open spec fn index_of(x: int, y: int, width: int) -> int {
    y * width + x
}

/// Position `a` brought back into `0..n` by going around.
pub open spec fn wrap(a: int, n: int) -> int {
    a % n
}

/// A grid large enough for wraparound to make sense: at least two columns
/// and two rows.
pub open spec fn valid_grid(width: int, height: int) -> bool {
    width >= 2 && height >= 2
}

/// `index` names a cell of the grid.
pub open spec fn in_grid(index: int, width: int, height: int) -> bool {
    0 <= index < width * height
}

/// Index of the cell reached from `index` by moving `dx` columns to the
/// right and `dy` rows down, wrapping at the edges.
pub open spec fn neighbour(index: int, width: int, height: int, dx: int, dy: int) -> int {
    index_of(
        wrap(col_of(index, width) + dx, width),
        wrap(row_of(index, width) + dy, height),
        width,
    )
}

/// Horizontal step of the neighbour stored in slot `slot`.
pub open spec fn step_x(slot: int) -> int {
    if slot == EAST || slot == NORTH_EAST || slot == SOUTH_EAST {
        1
    } else if slot == WEST || slot == NORTH_WEST || slot == SOUTH_WEST {
        -1
    } else {
        0
    }
}

/// Vertical step of the neighbour stored in slot `slot`; rows grow downwards.
pub open spec fn step_y(slot: int) -> int {
    if slot == SOUTH || slot == SOUTH_WEST || slot == SOUTH_EAST {
        1
    } else if slot == NORTH || slot == NORTH_WEST || slot == NORTH_EAST {
        -1
    } else {
        0
    }
}

/// Slot that points back: north for south, north-west for south-east, and
/// so on.
pub open spec fn opposite(slot: int) -> int {
    if slot == NORTH {
        SOUTH as int
    } else if slot == SOUTH {
        NORTH as int
    } else if slot == EAST {
        WEST as int
    } else if slot == WEST {
        EAST as int
    } else if slot == NORTH_WEST {
        SOUTH_EAST as int
    } else if slot == NORTH_EAST {
        SOUTH_WEST as int
    } else if slot == SOUTH_WEST {
        NORTH_EAST as int
    } else {
        NORTH_WEST as int
    }
}

/// The eight neighbours of `index`, in slot order: north, south, east, west,
/// north-west, north-east, south-west, south-east.
pub open spec fn neighbours_of(index: int, width: int, height: int) -> Seq<int> {
    Seq::new(8, |slot: int| neighbour(index, width, height, step_x(slot), step_y(slot)))
}

/// Index of the cell that covers the pixel `(px, py)` when every cell is
/// `scale` pixels wide and high.
pub open spec fn cell_at(px: int, py: int, scale: int, width: int) -> int {
    index_of(px / scale, py / scale, width)
}

/// One step along an axis of length `n` from a position inside it either
/// stays inside or lands on the far end.
pub proof fn lemma_wrap_step(a: int, n: int, d: int)
    requires
        0 <= a < n,
        -1 <= d <= 1,
    ensures
        wrap(a + d, n) == if a + d < 0 {
            n - 1
        } else if a + d >= n {
            0
        } else {
            a + d
        },
        0 <= wrap(a + d, n) < n,
{
    if a + d < 0 {
        lemma_mod_add_multiples_vanish(-1, n);
        lemma_small_mod((n - 1) as nat, n as nat);
    } else if a + d >= n {
        lemma_mod_self_0(n);
    } else {
        lemma_small_mod((a + d) as nat, n as nat);
    }
}

/// Every index splits into a column inside the row and a row, and is put
/// together again from the two.
pub proof fn lemma_index_roundtrip(index: int, width: int)
    requires
        width > 0,
        0 <= index,
    ensures
        0 <= col_of(index, width) < width,
        0 <= row_of(index, width),
        index_of(col_of(index, width), row_of(index, width), width) == index,
{
    lemma_fundamental_div_mod(index, width);
    assert(width * (index / width) == (index / width) * width) by (nonlinear_arith);
    assert(index / width >= 0) by (nonlinear_arith)
        requires
            width > 0,
            0 <= index,
    ;
}

/// A column and a row are recovered from the index they make.
pub proof fn lemma_coordinate_roundtrip(x: int, y: int, width: int)
    requires
        0 <= x < width,
        0 <= y,
    ensures
        0 <= index_of(x, y, width),
        col_of(index_of(x, y, width), width) == x,
        row_of(index_of(x, y, width), width) == y,
{
    assert(y * width >= 0) by (nonlinear_arith)
        requires
            0 <= y,
            0 < width,
    ;
    assert(y * width == width * y) by (nonlinear_arith);
    lemma_fundamental_div_mod_converse(index_of(x, y, width), width, y, x);
}

/// The cells of a grid are exactly the pairs of a column below `width` and
/// a row below `height`.
pub proof fn lemma_in_grid_iff(x: int, y: int, width: int, height: int)
    requires
        0 <= x < width,
        0 <= y,
        0 < height,
    ensures
        in_grid(index_of(x, y, width), width, height) <==> y < height,
{
    assert(y * width >= 0) by (nonlinear_arith)
        requires
            0 <= y,
            0 < width,
    ;
    if y < height {
        assert(y * width + x < width * height) by (nonlinear_arith)
            requires
                0 <= x < width,
                0 <= y < height,
        ;
    } else {
        assert(y * width + x >= width * height) by (nonlinear_arith)
            requires
                0 <= x < width,
                y >= height,
                height > 0,
        ;
    }
}

/// The row of a cell of the grid lies below `height`.
pub proof fn lemma_row_in_grid(index: int, width: int, height: int)
    requires
        width > 0,
        height > 0,
        in_grid(index, width, height),
    ensures
        0 <= col_of(index, width) < width,
        0 <= row_of(index, width) < height,
{
    lemma_index_roundtrip(index, width);
    lemma_in_grid_iff(col_of(index, width), row_of(index, width), width, height);
}

/// A step of at most one column and one row from a cell of the grid ends on
/// a cell of the grid, in the column and the row that wrapping gives.
pub proof fn lemma_neighbour_position(index: int, width: int, height: int, dx: int, dy: int)
    requires
        width > 0,
        height > 0,
        in_grid(index, width, height),
        -1 <= dx <= 1,
        -1 <= dy <= 1,
    ensures
        in_grid(neighbour(index, width, height, dx, dy), width, height),
        col_of(neighbour(index, width, height, dx, dy), width) == wrap(
            col_of(index, width) + dx,
            width,
        ),
        row_of(neighbour(index, width, height, dx, dy), width) == wrap(
            row_of(index, width) + dy,
            height,
        ),
{
    lemma_row_in_grid(index, width, height);
    let x = col_of(index, width);
    let y = row_of(index, width);
    lemma_wrap_step(x, width, dx);
    lemma_wrap_step(y, height, dy);
    let nx = wrap(x + dx, width);
    let ny = wrap(y + dy, height);
    lemma_coordinate_roundtrip(nx, ny, width);
    lemma_in_grid_iff(nx, ny, width, height);
}

/// Stepping back undoes a step: going `dx` columns and `dy` rows and then
/// the same distance the other way returns to the starting cell, across
/// every edge and corner.
pub proof fn lemma_neighbour_inverse(index: int, width: int, height: int, dx: int, dy: int)
    requires
        width > 0,
        height > 0,
        in_grid(index, width, height),
        -1 <= dx <= 1,
        -1 <= dy <= 1,
    ensures
        neighbour(neighbour(index, width, height, dx, dy), width, height, -dx, -dy) == index,
{
    lemma_row_in_grid(index, width, height);
    lemma_index_roundtrip(index, width);
    lemma_neighbour_position(index, width, height, dx, dy);
    let x = col_of(index, width);
    let y = row_of(index, width);
    lemma_wrap_step(x, width, dx);
    lemma_wrap_step(y, height, dy);
    lemma_wrap_step(wrap(x + dx, width), width, -dx);
    lemma_wrap_step(wrap(y + dy, height), height, -dy);
}

/// Adjacency is symmetric: if `j` is the neighbour of `i` in some slot,
/// then `i` is the neighbour of `j` in the opposite slot. North pairs with
/// south, east with west, north-west with south-east and north-east with
/// south-west.
pub proof fn lemma_adjacency_symmetric(index: int, width: int, height: int)
    requires
        width > 0,
        height > 0,
        in_grid(index, width, height),
    ensures
        forall|slot: int|
            0 <= slot < 8 ==> neighbours_of(
                #[trigger] neighbours_of(index, width, height)[slot],
                width,
                height,
            )[opposite(slot)] == index,
{
    assert forall|slot: int| 0 <= slot < 8 implies neighbours_of(
        #[trigger] neighbours_of(index, width, height)[slot],
        width,
        height,
    )[opposite(slot)] == index by {
        lemma_neighbour_inverse(index, width, height, step_x(slot), step_y(slot));
    }
}

/// All eight neighbours of a cell are cells of the same grid.
pub proof fn lemma_neighbours_in_grid(index: int, width: int, height: int)
    requires
        width > 0,
        height > 0,
        in_grid(index, width, height),
    ensures
        neighbours_of(index, width, height).len() == 8,
        forall|slot: int|
            0 <= slot < 8 ==> in_grid(
                #[trigger] neighbours_of(index, width, height)[slot],
                width,
                height,
            ),
{
    assert forall|slot: int| 0 <= slot < 8 implies in_grid(
        #[trigger] neighbours_of(index, width, height)[slot],
        width,
        height,
    ) by {
        lemma_neighbour_position(index, width, height, step_x(slot), step_y(slot));
    }
}

/// On a grid of at least two columns and two rows no cell is its own
/// neighbour.
pub proof fn lemma_neighbours_exclude_self(index: int, width: int, height: int)
    requires
        valid_grid(width, height),
        in_grid(index, width, height),
    ensures
        forall|slot: int|
            0 <= slot < 8 ==> #[trigger] neighbours_of(index, width, height)[slot] != index,
{
    lemma_row_in_grid(index, width, height);
    let x = col_of(index, width);
    let y = row_of(index, width);
    assert forall|slot: int| 0 <= slot < 8 implies #[trigger] neighbours_of(
        index,
        width,
        height,
    )[slot] != index by {
        lemma_neighbour_position(index, width, height, step_x(slot), step_y(slot));
        lemma_wrap_step(x, width, step_x(slot));
        lemma_wrap_step(y, height, step_y(slot));
    }
}

/// On a grid of at least three columns and three rows the eight neighbours
/// of a cell are pairwise distinct.
pub proof fn lemma_neighbours_distinct(index: int, width: int, height: int)
    requires
        width >= 3,
        height >= 3,
        in_grid(index, width, height),
    ensures
        forall|j: int, k: int|
            0 <= j < k < 8 ==> #[trigger] neighbours_of(index, width, height)[j]
                != #[trigger] neighbours_of(index, width, height)[k],
{
    lemma_row_in_grid(index, width, height);
    let x = col_of(index, width);
    let y = row_of(index, width);
    assert forall|j: int, k: int| 0 <= j < k < 8 implies #[trigger] neighbours_of(
        index,
        width,
        height,
    )[j] != #[trigger] neighbours_of(index, width, height)[k] by {
        lemma_neighbour_position(index, width, height, step_x(j), step_y(j));
        lemma_neighbour_position(index, width, height, step_x(k), step_y(k));
        lemma_wrap_step(x, width, step_x(j));
        lemma_wrap_step(y, height, step_y(j));
        lemma_wrap_step(x, width, step_x(k));
        lemma_wrap_step(y, height, step_y(k));
    }
}

/// The top-left corner wraps both ways: its northern neighbour is the first
/// cell of the bottom row, its western neighbour the last cell of its own
/// row, and its north-western neighbour the bottom-right corner.
pub proof fn lemma_origin_wraps(width: int, height: int)
    requires
        width > 0,
        height > 0,
    ensures
        in_grid(0, width, height),
        neighbours_of(0, width, height)[NORTH as int] == width * height - width,
        neighbours_of(0, width, height)[WEST as int] == width - 1,
        neighbours_of(0, width, height)[NORTH_WEST as int] == width * height - 1,
{
    assert(width * height > 0) by (nonlinear_arith)
        requires
            width > 0,
            height > 0,
    ;
    lemma_small_mod(0, width as nat);
    assert(0int / width == 0) by (nonlinear_arith)
        requires
            width > 0,
    ;
    lemma_wrap_step(0, width, -1);
    lemma_wrap_step(0, width, 0);
    lemma_wrap_step(0, height, -1);
    lemma_wrap_step(0, height, 0);
    assert((height - 1) * width == width * height - width) by (nonlinear_arith);
    assert(0 * width == 0) by (nonlinear_arith);
    assert(col_of(0, width) == 0 && row_of(0, width) == 0);
    assert(neighbour(0, width, height, -1, 0) == index_of(width - 1, 0, width));
    assert(neighbour(0, width, height, 0, -1) == index_of(0, height - 1, width));
    assert(neighbour(0, width, height, -1, -1) == index_of(width - 1, height - 1, width));
}

/// Every pixel of the square that a cell covers leads back to that cell:
/// with cells `scale` pixels wide and high, the pixel `dx` to the right of
/// and `dy` below the top left corner of cell `index` lies in the column
/// and the row of `index` and belongs to `index`.
pub proof fn lemma_cell_at_roundtrip(index: int, width: int, scale: int, dx: int, dy: int)
    requires
        width > 0,
        scale > 0,
        0 <= index,
        0 <= dx < scale,
        0 <= dy < scale,
    ensures
        (col_of(index, width) * scale + dx) / scale == col_of(index, width),
        (row_of(index, width) * scale + dy) / scale == row_of(index, width),
        cell_at(
            col_of(index, width) * scale + dx,
            row_of(index, width) * scale + dy,
            scale,
            width,
        ) == index,
{
    lemma_index_roundtrip(index, width);
    let x = col_of(index, width);
    let y = row_of(index, width);
    assert(x * scale == scale * x) by (nonlinear_arith);
    assert(y * scale == scale * y) by (nonlinear_arith);
    lemma_fundamental_div_mod_converse(x * scale + dx, scale, x, dx);
    lemma_fundamental_div_mod_converse(y * scale + dy, scale, y, dy);
}

} // verus!
