//! Moves: which are legal, in which order, and what they do to the board.

use vstd::prelude::*;
use vstd::multiset::Multiset;
use crate::entity::Entity;
use crate::board::{Board, Cell, Game, cell, is_board, on_grid, with_cell};
use crate::adjacency::{adjacent, neighbors};

verus! {

/// A move: the cell a piece leaves and the cell it goes to.
pub type Move = (Cell, Cell);

/// The board after the piece on `m.0` has gone to `m.1`.
pub open spec fn apply_move(b: Board, m: Move) -> Board {
    with_cell(with_cell(b, m.1, cell(b, m.0)), m.0, Entity::Empty)
}

/// A move is legal for `side` when a piece of that side stands on its
/// source, its destination is free, and the side may step from the one to
/// the other.
pub open spec fn is_legal(b: Board, side: Entity, m: Move) -> bool {
    &&& cell(b, m.0) == side
    &&& cell(b, m.1) == Entity::Empty
    &&& adjacent(side, m.0).contains(m.1)
}

/// The cells of the board in row-major order.
pub open spec fn all_cells(b: Board) -> Seq<Entity> {
    Seq::new(15, |k: int| b[k / 5][k % 5])
}

/// The occupants of the board, each as often as it occurs.
pub open spec fn occupants(b: Board) -> Multiset<Entity> {
    all_cells(b).to_multiset()
}

/// Tells of a cell whether it is free on `b`.
pub open spec fn is_free(b: Board) -> spec_fn(Cell) -> bool {
    |d: Cell| cell(b, d) == Entity::Empty
}

/// Makes of a destination the move that leads from `src` to it.
pub open spec fn step_from(src: Cell) -> spec_fn(Cell) -> Move {
    |d: Cell| (src, d)
}

/// The `k`-th cell of the grid in row-major order.
pub open spec fn nth_cell(k: int) -> Cell {
    ((k / 5) as usize, (k % 5) as usize)
}

/// The legal moves of `side` that start on `src`, in the order of the
/// movement graph.
pub open spec fn moves_from(b: Board, side: Entity, src: Cell) -> Seq<Move> {
    if cell(b, src) == side {
        adjacent(side, src).filter(is_free(b)).map_values(step_from(src))
    } else {
        Seq::empty()
    }
}

/// The legal moves of `side` that start on one of the first `k` cells.
pub open spec fn moves_before(b: Board, side: Entity, k: nat) -> Seq<Move>
    decreases k,
{
    if k == 0 {
        Seq::empty()
    } else {
        moves_before(b, side, (k - 1) as nat) + moves_from(b, side, nth_cell(k - 1))
    }
}

/// All legal moves of `side`: by source in row-major order, and for one
/// source by destination in the order of the movement graph. An empty cell
/// is no side and has no moves.
pub open spec fn legal_moves(b: Board, side: Entity) -> Seq<Move> {
    if side == Entity::Empty {
        Seq::empty()
    } else {
        moves_before(b, side, 15)
    }
}

/// Makes a move: the piece on the source goes to the destination, and the
/// source becomes empty.
pub fn play(g: &Game, choice: ((usize, usize), (usize, usize))) -> (h: Game)
    requires
        on_grid(choice.0),
        on_grid(choice.1),
    ensures
        h@ == apply_move(g@, choice),
{
    let ((i, j), (u, v)) = choice;
    let mut h = *g;
    h.set(u, v, g.get(i, j));
    h.set(i, j, Entity::Empty);
    h
}

/// A legal move only relocates a piece: the board holds as many dogs, as
/// many rabbits and as many empty cells after it as before.
pub proof fn lemma_move_keeps_occupants(b: Board, side: Entity, m: Move)
    requires
        is_board(b),
        is_legal(b, side, m),
    ensures
        is_board(apply_move(b, m)),
        occupants(apply_move(b, m)) == occupants(b),
{
    broadcast use {
        vstd::seq_lib::to_multiset_update,
        vstd::seq_lib::to_multiset_contains,
        vstd::multiset::group_multiset_axioms,
    };

    crate::adjacency::lemma_steps_stay_in_graph(side, m.0, adjacent(side, m.0).index_of(m.1));
    let s = m.0.0 * 5 + m.0.1;
    let d = m.1.0 * 5 + m.1.1;
    let before = all_cells(b);
    let mid = before.update(d, side);
    let after = mid.update(s, Entity::Empty);
    assert(before[s] == side);
    assert(before[d] == Entity::Empty);
    assert(all_cells(apply_move(b, m)) =~= after);
    assert(mid.to_multiset() == before.to_multiset().insert(side).remove(Entity::Empty));
    assert(after.to_multiset() == mid.to_multiset().insert(Entity::Empty).remove(side));
    assert(before.contains(Entity::Empty));
    assert(mid.contains(side));
    assert(after.to_multiset() =~= before.to_multiset());
}

/// Lists the legal moves of `next`.
pub fn choices(g: &Game, next: Entity) -> (ways: Vec<((usize, usize), (usize, usize))>)
    ensures
        ways@ == legal_moves(g@, next),
{
    if next == Entity::Empty {
        return vec![];
    }
    let mut ways: Vec<((usize, usize), (usize, usize))> = Vec::new();
    let mut i: usize = 0;
    while i < 3
        invariant
            i <= 3,
            ways@ == moves_before(g@, next, (i * 5) as nat),
        decreases 3 - i,
    {
        let mut j: usize = 0;
        while j < 5
            invariant
                i < 3,
                j <= 5,
                ways@ == moves_before(g@, next, (i * 5 + j) as nat),
            decreases 5 - j,
        {
            assert(nth_cell(i * 5 + j) == (i, j));
            if g.get(i, j) == next {
                let around = neighbors(next, i, j);
                let ghost done = ways@;
                let mut n: usize = 0;
                while n < around.len()
                    invariant
                        n <= around.len(),
                        around@ == adjacent(next, (i, j)),
                        ways@ == done + around@.take(n as int).filter(is_free(g@)).map_values(
                            step_from((i, j)),
                        ),
                    decreases around.len() - n,
                {
                    let (u, v) = around[n];
                    proof {
                        crate::adjacency::lemma_steps_stay_in_graph(next, (i, j), n as int);
                        let seen = around@.take(n as int);
                        assert(around@.take(n + 1) =~= seen.push((u, v)));
                        seen.lemma_filter_push((u, v), is_free(g@));
                        seen.filter(is_free(g@)).lemma_push_map_commute(step_from((i, j)), (u, v));
                    }
                    if g.get(u, v) == Entity::Empty {
                        ways.push(((i, j), (u, v)));
                    }
                    n += 1;
                }
                assert(around@.take(n as int) =~= around@);
            } else {
                assert(ways@ + Seq::<Move>::empty() =~= ways@);
            }
            j += 1;
        }
        i += 1;
    }
    ways
}

/// The moves that start on `src` are the legal moves with that source.
pub proof fn lemma_moves_from(b: Board, side: Entity, src: Cell, m: Move)
    ensures
        moves_from(b, side, src).contains(m) <==> m.0 == src && is_legal(b, side, m),
{
    broadcast use vstd::seq_lib::group_filter_ensures;

    let steps = adjacent(side, src);
    let free = steps.filter(is_free(b));
    let out = free.map_values(step_from(src));
    if moves_from(b, side, src).contains(m) {
        let k = choose|k: int| 0 <= k < out.len() && out[k] == m;
        assert(m == (src, free[k]));
        assert(is_free(b)(free[k]));
        assert(free.contains(free[k]));
        steps.lemma_filter_contains_rev(is_free(b), free[k]);
    }
    if m.0 == src && is_legal(b, side, m) {
        let k = steps.index_of(m.1);
        assert(is_free(b)(steps[k]));
        assert(free.contains(steps[k]));
        let n = free.index_of(m.1);
        assert(out[n] == m);
    }
}

/// The moves that start on one of the first `k` cells are the legal moves
/// whose source is one of these cells.
pub proof fn lemma_moves_before(b: Board, side: Entity, k: nat, m: Move)
    ensures
        moves_before(b, side, k).contains(m) <==> is_legal(b, side, m) && exists|n: int|
            0 <= n < k && #[trigger] nth_cell(n) == m.0,
    decreases k,
{
    if k > 0 {
        let head = moves_before(b, side, (k - 1) as nat);
        let tail = moves_from(b, side, nth_cell(k - 1));
        lemma_moves_before(b, side, (k - 1) as nat, m);
        lemma_moves_from(b, side, nth_cell(k - 1), m);
        vstd::seq_lib::lemma_seq_concat_contains_all_elements(head, tail, m);
        if is_legal(b, side, m) && exists|n: int| 0 <= n < k && #[trigger] nth_cell(n) == m.0 {
            let n = choose|n: int| 0 <= n < k && #[trigger] nth_cell(n) == m.0;
            if n < k - 1 {
                assert(head.contains(m));
            } else {
                assert(tail.contains(m));
            }
        }
        if tail.contains(m) {
            assert(nth_cell(k - 1) == m.0);
        }
    }
}

/// The generator is complete and sound: a pair of cells is among the moves
/// listed for `side` exactly when it is a legal move of `side`.
pub proof fn lemma_legal_moves_complete(b: Board, side: Entity, m: Move)
    ensures
        legal_moves(b, side).contains(m) <==> is_legal(b, side, m),
{
    if side != Entity::Empty {
        lemma_moves_before(b, side, 15, m);
        if is_legal(b, side, m) {
            crate::adjacency::lemma_steps_stay_in_graph(
                side,
                m.0,
                adjacent(side, m.0).index_of(m.1),
            );
            assert(nth_cell(m.0.0 * 5 + m.0.1) == m.0);
        }
    }
}

/// Every move that the generator lists starts and ends on a cell of the
/// graph, and making it leaves the source empty and puts the mover's piece on
/// the destination.
pub proof fn lemma_legal_moves_sound(b: Board, side: Entity, k: int)
    requires
        is_board(b),
        0 <= k < legal_moves(b, side).len(),
    ensures
        is_legal(b, side, legal_moves(b, side)[k]),
        crate::adjacency::in_graph(legal_moves(b, side)[k].0),
        crate::adjacency::in_graph(legal_moves(b, side)[k].1),
        on_grid(legal_moves(b, side)[k].0),
        on_grid(legal_moves(b, side)[k].1),
        side != Entity::Empty,
        cell(apply_move(b, legal_moves(b, side)[k]), legal_moves(b, side)[k].0) == Entity::Empty,
        cell(apply_move(b, legal_moves(b, side)[k]), legal_moves(b, side)[k].1) == side,
{
    let m = legal_moves(b, side)[k];
    assert(legal_moves(b, side).contains(m));
    lemma_legal_moves_complete(b, side, m);
    crate::adjacency::lemma_steps_stay_in_graph(side, m.0, adjacent(side, m.0).index_of(m.1));
}

/// Leaving elements out of a list without repeats leaves no repeats.
proof fn lemma_filter_no_duplicates<A>(s: Seq<A>, pred: spec_fn(A) -> bool)
    requires
        s.no_duplicates(),
    ensures
        s.filter(pred).no_duplicates(),
    decreases s.len(),
{
    reveal(Seq::filter);
    if s.len() > 0 {
        let head = s.drop_last();
        lemma_filter_no_duplicates(head, pred);
        let kept = head.filter(pred);
        if pred(s.last()) && kept.contains(s.last()) {
            head.lemma_filter_contains_rev(pred, s.last());
            let k = head.index_of(s.last());
            assert(s[k] == s[s.len() - 1]);
        }
    }
}

/// The generator lists no move twice.
pub proof fn lemma_legal_moves_distinct(b: Board, side: Entity)
    ensures
        legal_moves(b, side).no_duplicates(),
{
    if side != Entity::Empty {
        lemma_moves_before_distinct(b, side, 15);
    }
}

/// No move is listed twice among those that start on the first `k` cells.
proof fn lemma_moves_before_distinct(b: Board, side: Entity, k: nat)
    requires
        k <= 15,
    ensures
        moves_before(b, side, k).no_duplicates(),
    decreases k,
{
    if k > 0 {
        let src = nth_cell(k - 1);
        let head = moves_before(b, side, (k - 1) as nat);
        let tail = moves_from(b, side, src);
        lemma_moves_before_distinct(b, side, (k - 1) as nat);
        if cell(b, src) == side {
            let free = adjacent(side, src).filter(is_free(b));
            crate::adjacency::lemma_steps_distinct(side, src);
            lemma_filter_no_duplicates(adjacent(side, src), is_free(b));
            assert forall|i: int, j: int| 0 <= i < j < tail.len() implies tail[i] != tail[j] by {
                assert(tail[i] == (src, free[i]));
                assert(tail[j] == (src, free[j]));
            }
        }
        assert forall|i: int, j: int| 0 <= i < head.len() && 0 <= j < tail.len() implies head[i]
            != tail[j] by {
            lemma_moves_before(b, side, (k - 1) as nat, head[i]);
            lemma_moves_from(b, side, src, tail[j]);
            assert(head.contains(head[i]));
            assert(tail.contains(tail[j]));
            let n = choose|n: int| 0 <= n < k - 1 && #[trigger] nth_cell(n) == head[i].0;
            assert(nth_cell(n) != nth_cell(k - 1));
        }
        vstd::seq_lib::lemma_no_dup_in_concat(head, tail);
    }
}

} // verus!
