//! The board: three rows of five cells.

use vstd::prelude::*;
use crate::entity::Entity;

verus! {

/// A cell, as (row, column).
pub type Cell = (usize, usize);

/// The mathematical model of a position: its rows, top to bottom, each from
/// left to right.
pub type Board = Seq<Seq<Entity>>;

/// A board has three rows of five cells.
pub open spec fn is_board(b: Board) -> bool {
    &&& b.len() == 3
    &&& forall|i: int| 0 <= i < 3 ==> (#[trigger] b[i]).len() == 5
}

/// The cell lies on the 3 x 5 grid.
pub open spec fn on_grid(c: Cell) -> bool {
    c.0 < 3 && c.1 < 5
}

/// What stands on a cell.
pub open spec fn cell(b: Board, c: Cell) -> Entity {
    b[c.0 as int][c.1 as int]
}

/// The board with one cell replaced.
pub open spec fn with_cell(b: Board, c: Cell, e: Entity) -> Board {
    b.update(c.0 as int, b[c.0 as int].update(c.1 as int, e))
}

/// The board on which nothing stands.
pub open spec fn empty_board() -> Board {
    Seq::new(3, |i: int| Seq::new(5, |j: int| Entity::Empty))
}

/// The board seen in a mirror: every row runs from right to left.
pub open spec fn mirrored(b: Board) -> Board {
    b.map_values(|row: Seq<Entity>| row.reverse())
}

/// A position of the game.
#[derive(Debug, Clone, Copy, PartialEq, Eq)]
pub struct Game {
    pub data: [[Entity; 5]; 3],
}

impl View for Game {
    type V = Board;

    open spec fn view(&self) -> Board {
        Seq::new(3, |i: int| self.data[i]@)
    }
}

impl Game {
    /// The board on which nothing stands.
    pub fn empty() -> (g: Game)
        ensures
            g@ == empty_board(),
    {
        let g = Game { data: [[Entity::Empty; 5]; 3] };
        assert(g@ =~~= empty_board());
        g
    }

    /// Replaces row `i`.
    pub fn set_row(&mut self, i: usize, row: [Entity; 5])
        requires
            i < 3,
        ensures
            final(self)@ == old(self)@.update(i as int, row@),
    {
        self.data[i] = row;
        assert(self@ =~~= old(self)@.update(i as int, row@));
    }

    /// What stands on the cell in row `i`, column `j`.
    pub fn get(&self, i: usize, j: usize) -> (e: Entity)
        requires
            i < 3,
            j < 5,
        ensures
            e == cell(self@, (i, j)),
    {
        self.data[i][j]
    }

    /// Replaces what stands on the cell in row `i`, column `j`.
    pub fn set(&mut self, i: usize, j: usize, e: Entity)
        requires
            i < 3,
            j < 5,
        ensures
            final(self)@ == with_cell(old(self)@, (i, j), e),
    {
        self.data[i][j] = e;
        assert(self@ =~~= with_cell(old(self)@, (i, j), e));
    }

    /// The position seen in a mirror: each row's columns in reverse order.
    pub fn mirror(&self) -> (r: Game)
        ensures
            r@ == mirrored(self@),
    {
        let mut r = *self;
        let mut i: usize = 0;
        while i < 3
            invariant
                i <= 3,
                forall|a: int, b: int| 0 <= a < i && 0 <= b < 5 ==> r@[a][b] == self@[a][4 - b],
            decreases 3 - i,
        {
            let mut j: usize = 0;
            while j < 5
                invariant
                    i < 3,
                    j <= 5,
                    forall|a: int, b: int| 0 <= a < i && 0 <= b < 5 ==> r@[a][b] == self@[a][4 - b],
                    forall|b: int| 0 <= b < j ==> r@[i as int][b] == self@[i as int][4 - b],
                decreases 5 - j,
            {
                let e = self.get(i, 4 - j);
                r.set(i, j, e);
                j += 1;
            }
            i += 1;
        }
        assert(r@ =~~= mirrored(self@));
        r
    }
}

/// The model of every position is a board.
pub proof fn lemma_view_is_board(g: Game)
    ensures
        is_board(g@),
{
}

/// Mirroring a board twice gives the board back.
pub proof fn lemma_mirror_involution(b: Board)
    ensures
        mirrored(mirrored(b)) == b,
{
    assert forall|i: int| 0 <= i < b.len() implies #[trigger] mirrored(mirrored(b))[i] == b[i] by {
        assert(b[i].reverse().reverse() =~= b[i]);
    }
    assert(mirrored(mirrored(b)) =~= b);
}

/// The mirror image of a board is a board, with each cell on the other side
/// of the middle column.
pub proof fn lemma_mirror_cells(b: Board, c: Cell)
    requires
        is_board(b),
        on_grid(c),
    ensures
        is_board(mirrored(b)),
        cell(mirrored(b), c) == cell(b, (c.0, (4 - c.1) as usize)),
{
}

} // verus!
