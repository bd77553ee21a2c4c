//! The rule by which one generation follows another.

use crate::topology::neighbours_of;
use vstd::prelude::*;

verus! {

/// How many of the first `upto` cells named by `links` are alive in `alive`.
pub open spec fn count_live(alive: Seq<bool>, links: Seq<int>, upto: nat) -> nat
    decreases upto,
{
    if upto == 0 {
        0
    } else {
        let rest = count_live(alive, links, (upto - 1) as nat);
        if alive[links[upto - 1]] {
            rest + 1
        } else {
            rest
        }
    }
}

/// Whether a cell is alive in the next generation: a cell with exactly
/// three live neighbours is, a live cell with exactly two stays so, and
/// every other cell is dead.
pub open spec fn survives(alive: bool, live_neighbours: nat) -> bool {
    live_neighbours == 3 || (alive && live_neighbours == 2)
}

/// The generation that follows `alive` on a `width` by `height` board whose
/// edges wrap around: every cell is judged by its own state and by the
/// number of live cells among its eight neighbours.
pub open spec fn life_step(alive: Seq<bool>, width: int, height: int) -> Seq<bool> {
    Seq::new(
        alive.len(),
        |i: int| survives(alive[i], count_live(alive, neighbours_of(i, width, height), 8)),
    )
}

/// The count depends only on the links it looks at and on the cells they
/// name.
pub proof fn lemma_count_live_agrees(
    alive: Seq<bool>,
    links: Seq<int>,
    other_alive: Seq<bool>,
    other_links: Seq<int>,
    upto: nat,
)
    requires
        forall|slot: int| 0 <= slot < upto ==> links[slot] == other_links[slot],
        forall|slot: int| 0 <= slot < upto ==> alive[links[slot]] == other_alive[links[slot]],
    ensures
        count_live(alive, links, upto) == count_live(other_alive, other_links, upto),
    decreases upto,
{
    if upto > 0 {
        lemma_count_live_agrees(alive, links, other_alive, other_links, (upto - 1) as nat);
    }
}

/// The state of a cell in the next generation, from its state now and the
/// number of its live neighbours.
pub fn next_state(alive: bool, neighbours: u8) -> (next: bool)
    ensures
        next == survives(alive, neighbours as nat),
{
    if !alive && neighbours == 3 {
        true
    } else if neighbours < 2 || neighbours > 3 {
        false
    } else {
        alive
    }
}

} // verus!
