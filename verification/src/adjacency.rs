//! The fixed movement graph: where each side may step from each cell.

use vstd::prelude::*;
use crate::entity::Entity;
use crate::board::Cell;

verus! {

/// The eleven cells of the grid that belong to the graph of the game. The
/// four corners of the 3 x 5 grid do not.
pub open spec fn in_graph(c: Cell) -> bool {
    ||| c.0 == 1 && c.1 < 5
    ||| (c.0 == 0 || c.0 == 2) && 1 <= c.1 <= 3
}

/// The cells a dog may step to from `c`, in the order in which they are tried.
pub open spec fn dog_steps(c: Cell) -> Seq<Cell> {
    if c == (0usize, 1usize) {
        seq![(1usize, 1usize), (1usize, 2usize), (0usize, 2usize)]
    } else if c == (0usize, 2usize) {
        seq![(1usize, 2usize), (0usize, 3usize)]
    } else if c == (0usize, 3usize) {
        seq![(1usize, 3usize)]
    } else if c == (1usize, 0usize) {
        seq![(0usize, 1usize), (1usize, 1usize), (2usize, 1usize)]
    } else if c == (1usize, 1usize) {
        seq![(0usize, 1usize), (1usize, 2usize), (2usize, 1usize)]
    } else if c == (1usize, 2usize) {
        seq![(0usize, 2usize), (0usize, 3usize), (1usize, 3usize), (2usize, 2usize), (2usize, 3usize)]
    } else if c == (1usize, 3usize) {
        seq![(0usize, 3usize), (2usize, 3usize)]
    } else if c == (2usize, 1usize) {
        seq![(1usize, 1usize), (1usize, 2usize), (2usize, 2usize)]
    } else if c == (2usize, 2usize) {
        seq![(1usize, 2usize), (2usize, 3usize)]
    } else if c == (2usize, 3usize) {
        seq![(1usize, 3usize)]
    } else {
        Seq::empty()
    }
}

/// The cells the rabbit may step to from `c`, in the order in which they are
/// tried. The rabbit never leaves one of its home cells.
pub open spec fn rabbit_steps(c: Cell) -> Seq<Cell> {
    if c == (0usize, 2usize) {
        seq![(0usize, 1usize), (1usize, 2usize), (0usize, 3usize)]
    } else if c == (0usize, 3usize) {
        seq![(0usize, 2usize), (1usize, 2usize), (1usize, 3usize), (1usize, 4usize)]
    } else if c == (1usize, 1usize) {
        seq![(0usize, 1usize), (1usize, 0usize), (1usize, 2usize), (2usize, 1usize)]
    } else if c == (1usize, 2usize) {
        seq![
            (0usize, 1usize),
            (0usize, 2usize),
            (0usize, 3usize),
            (1usize, 1usize),
            (1usize, 3usize),
            (2usize, 1usize),
            (2usize, 2usize),
            (2usize, 3usize),
        ]
    } else if c == (1usize, 3usize) {
        seq![(0usize, 3usize), (1usize, 2usize), (1usize, 4usize), (2usize, 3usize)]
    } else if c == (1usize, 4usize) {
        seq![(0usize, 3usize), (1usize, 3usize), (2usize, 3usize)]
    } else if c == (2usize, 2usize) {
        seq![(2usize, 1usize), (1usize, 2usize), (2usize, 3usize)]
    } else if c == (2usize, 3usize) {
        seq![(2usize, 2usize), (1usize, 2usize), (1usize, 3usize), (1usize, 4usize)]
    } else {
        Seq::empty()
    }
}

/// The cells that an occupant of kind `side` may step to from `c`. Nothing
/// moves an empty cell.
pub open spec fn adjacent(side: Entity, c: Cell) -> Seq<Cell> {
    match side {
        Entity::Empty => Seq::empty(),
        Entity::Dog => dog_steps(c),
        Entity::Rabbit => rabbit_steps(c),
    }
}

/// The cells that `c` may step to from row `i`, column `j`.
pub fn neighbors(c: Entity, i: usize, j: usize) -> (r: Vec<(usize, usize)>)
    ensures
        r@ == adjacent(c, (i, j)),
{
    let r: Vec<(usize, usize)> = match c {
        Entity::Empty => vec![],
        Entity::Dog => match (i, j) {
            (0, 1) => vec![(1, 1), (1, 2), (0, 2)],
            (0, 2) => vec![(1, 2), (0, 3)],
            (0, 3) => vec![(1, 3)],
            (1, 0) => vec![(0, 1), (1, 1), (2, 1)],
            (1, 1) => vec![(0, 1), (1, 2), (2, 1)],
            (1, 2) => vec![(0, 2), (0, 3), (1, 3), (2, 2), (2, 3)],
            (1, 3) => vec![(0, 3), (2, 3)],
            (2, 1) => vec![(1, 1), (1, 2), (2, 2)],
            (2, 2) => vec![(1, 2), (2, 3)],
            (2, 3) => vec![(1, 3)],
            _ => vec![],
        },
        Entity::Rabbit => match (i, j) {
            (0, 2) => vec![(0, 1), (1, 2), (0, 3)],
            (0, 3) => vec![(0, 2), (1, 2), (1, 3), (1, 4)],
            (1, 1) => vec![(0, 1), (1, 0), (1, 2), (2, 1)],
            (1, 2) => vec![(0, 1), (0, 2), (0, 3), (1, 1), (1, 3), (2, 1), (2, 2), (2, 3)],
            (1, 3) => vec![(0, 3), (1, 2), (1, 4), (2, 3)],
            (1, 4) => vec![(0, 3), (1, 3), (2, 3)],
            (2, 2) => vec![(2, 1), (1, 2), (2, 3)],
            (2, 3) => vec![(2, 2), (1, 2), (1, 3), (1, 4)],
            _ => vec![],
        },
    };
    assert(r@ =~= adjacent(c, (i, j)));
    r
}

/// Steps start and end on cells of the graph: from a cell outside it nothing
/// moves, and no step leads out of it.
pub proof fn lemma_steps_stay_in_graph(side: Entity, c: Cell, k: int)
    requires
        0 <= k < adjacent(side, c).len(),
    ensures
        in_graph(c),
        in_graph(adjacent(side, c)[k]),
        adjacent(side, c)[k] != c,
{
}

/// No cell is listed twice among the steps from one cell.
pub proof fn lemma_steps_distinct(side: Entity, c: Cell)
    ensures
        adjacent(side, c).no_duplicates(),
{
}

} // verus!
