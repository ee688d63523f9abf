//! How a side picks its move during a simulated game.

use vstd::prelude::*;
use rand::distributions::{Distribution, Uniform};
use rand::rngs::StdRng;
use crate::entity::Entity;
use crate::board::{Board, Game};
use crate::judge::{judge, is_win_for, outcome, wins};
use crate::moves::{Move, apply_move, choices, is_legal, legal_moves, play};

verus! {

/// The random number generator of the `rand` crate that all simulations
/// draw from. Nothing is known of its state.
#[verifier::external_type_specification]
#[verifier::external_body]
pub struct ExStdRng(rand::rngs::StdRng);

/// Draws an index below `n` from `rng`, by `Uniform::from(0..n).sample(rng)`
/// of the `rand` crate. The range `0..n` must not be empty: `Uniform` panics
/// on an empty range. All that is claimed of the index is that it lies in the
/// range; which index comes is up to the generator.
#[verifier::external_body]
fn draw_index(rng: &mut StdRng, n: usize) -> (idx: usize)
    requires
        n > 0,
    ensures
        idx < n,
{
    Uniform::from(0..n).sample(rng)
}

/// The model of a position that may be missing.
pub open spec fn board_of(g: Option<Game>) -> Option<Board> {
    match g {
        Some(h) => Some(h@),
        None => None,
    }
}

/// The move wins at once: the position it leads to is a win for the mover.
pub open spec fn is_winning(b: Board, side: Entity, m: Move) -> bool {
    wins(side, outcome(apply_move(b, m)))
}

/// The first of the moves `ms` that wins at once for `side`, if there is one.
pub open spec fn first_win(b: Board, side: Entity, ms: Seq<Move>) -> Option<Move>
    decreases ms.len(),
{
    if ms.len() == 0 {
        None
    } else if is_winning(b, side, ms[0]) {
        Some(ms[0])
    } else {
        first_win(b, side, ms.drop_first())
    }
}

/// The trivial move of `side`: its first legal move, in the generator's
/// order, that wins at once.
pub open spec fn trivial_move(b: Board, side: Entity) -> Option<Move> {
    first_win(b, side, legal_moves(b, side))
}

/// The position after the trivial move, where there is one.
pub open spec fn trivial_board(b: Board, side: Entity) -> Option<Board> {
    match trivial_move(b, side) {
        Some(m) => Some(apply_move(b, m)),
        None => None,
    }
}

/// Takes the first of the legal moves `ways` of `next` that wins at once, if
/// there is one.
pub(crate) fn first_winning(g: &Game, next: Entity, ways: &Vec<Move>) -> (r: Option<Game>)
    requires
        ways@ == legal_moves(g@, next),
    ensures
        board_of(r) == trivial_board(g@, next),
{
    let mut k: usize = 0;
    assert(ways@.skip(0) =~= ways@);
    while k < ways.len()
        invariant
            k <= ways.len(),
            ways@ == legal_moves(g@, next),
            first_win(g@, next, ways@) == first_win(g@, next, ways@.skip(k as int)),
        decreases ways.len() - k,
    {
        let choice = ways[k];
        proof {
            crate::moves::lemma_legal_moves_sound(g@, next, k as int);
            assert(ways@.skip(k as int).drop_first() =~= ways@.skip(k + 1));
        }
        let h = play(g, choice);
        if is_win_for(next, judge(&h)) {
            return Some(h);
        }
        k += 1;
    }
    None
}

/// Takes the first legal move of `next` that wins at once, if there is one.
pub fn play_trivial(g: &Game, next: Entity) -> (r: Option<Game>)
    ensures
        board_of(r) == trivial_board(g@, next),
{
    let ways = choices(g, next);
    first_winning(g, next, &ways)
}

/// What `first_win` finds: the first winning move of the list, or nothing
/// where no move of the list wins.
pub proof fn lemma_first_win(b: Board, side: Entity, ms: Seq<Move>)
    ensures
        match first_win(b, side, ms) {
            Some(m) => exists|k: int|
                0 <= k < ms.len() && #[trigger] ms[k] == m && is_winning(b, side, m) && forall|
                    j: int,
                | 0 <= j < k ==> !is_winning(b, side, #[trigger] ms[j]),
            None => forall|k: int| 0 <= k < ms.len() ==> !is_winning(b, side, #[trigger] ms[k]),
        },
    decreases ms.len(),
{
    if ms.len() > 0 && !is_winning(b, side, ms[0]) {
        let rest = ms.drop_first();
        lemma_first_win(b, side, rest);
        match first_win(b, side, rest) {
            Some(m) => {
                let k = choose|k: int|
                    0 <= k < rest.len() && #[trigger] rest[k] == m && is_winning(b, side, m)
                        && forall|j: int| 0 <= j < k ==> !is_winning(b, side, #[trigger] rest[j]);
                assert(ms[k + 1] == m);
                assert forall|j: int| 0 <= j < k + 1 implies !is_winning(
                    b,
                    side,
                    #[trigger] ms[j],
                ) by {
                    if j > 0 {
                        assert(ms[j] == rest[j - 1]);
                    }
                }
            },
            None => {
                assert forall|k: int| 0 <= k < ms.len() implies !is_winning(
                    b,
                    side,
                    #[trigger] ms[k],
                ) by {
                    if k > 0 {
                        assert(ms[k] == rest[k - 1]);
                    }
                }
            },
        }
    } else if ms.len() > 0 {
        // the first move is the witness
        assert(ms[0] == ms[0]);
    }
}

/// The trivial move is right: where there is one, it is a legal move of
/// `side` and the position after it is a win for `side`; where there is
/// none, no legal move of `side` leads to a position won by `side`.
pub proof fn lemma_trivial_move(b: Board, side: Entity)
    ensures
        match trivial_move(b, side) {
            Some(m) => is_legal(b, side, m) && wins(side, outcome(apply_move(b, m))),
            None => forall|m: Move| is_legal(b, side, m) ==> !wins(side, outcome(apply_move(b, m))),
        },
{
    let ms = legal_moves(b, side);
    lemma_first_win(b, side, ms);
    match trivial_move(b, side) {
        Some(m) => {
            assert(ms.contains(m));
            crate::moves::lemma_legal_moves_complete(b, side, m);
        },
        None => {
            assert forall|m: Move| is_legal(b, side, m) implies !wins(
                side,
                outcome(apply_move(b, m)),
            ) by {
                crate::moves::lemma_legal_moves_complete(b, side, m);
                let k = ms.index_of(m);
                assert(!is_winning(b, side, ms[k]));
            }
        },
    }
}

/// The position after a move of the random policy that drew `pick`: the
/// trivial move where there is one, else the legal move at index `pick`.
pub open spec fn random_step(b: Board, side: Entity, pick: int) -> Board {
    match trivial_move(b, side) {
        Some(m) => apply_move(b, m),
        None => apply_move(b, legal_moves(b, side)[pick]),
    }
}

/// The random policy may lead from `b` to `h`: `side` has a legal move, and
/// `h` comes of the trivial move or, where there is none, of some legal move.
pub open spec fn random_next(b: Board, side: Entity, h: Board) -> bool {
    exists|pick: int|
        0 <= pick < legal_moves(b, side).len() && h == #[trigger] random_step(b, side, pick)
}

/// The move of the random policy once the index `pick` has been drawn: the
/// trivial move where there is one, else the legal move at that index.
pub fn play_random_at(g: &Game, next: Entity, pick: usize) -> (h: Game)
    requires
        pick < legal_moves(g@, next).len(),
    ensures
        h@ == random_step(g@, next, pick as int),
{
    let ways = choices(g, next);
    match first_winning(g, next, &ways) {
        Some(h) => h,
        None => {
            proof {
                crate::moves::lemma_legal_moves_sound(g@, next, pick as int);
            }
            play(g, ways[pick])
        },
    }
}

/// The random policy. A side without a legal move cannot play. Otherwise the
/// side takes its trivial move where it has one, and else a legal move drawn
/// uniformly from `rng`.
pub fn play_random(g: &Game, next: Entity, rng: &mut StdRng) -> (r: Option<Game>)
    ensures
        r is None <==> legal_moves(g@, next).len() == 0,
        r matches Some(h) ==> random_next(g@, next, h@),
        trivial_board(g@, next) is Some ==> board_of(r) == trivial_board(g@, next),
{
    let ways = choices(g, next);
    if ways.len() == 0 {
        return None;
    }
    if let Some(h) = first_winning(g, next, &ways) {
        assert(h@ == random_step(g@, next, 0));
        return Some(h);
    }
    let pick = draw_index(rng, ways.len());
    proof {
        crate::moves::lemma_legal_moves_sound(g@, next, pick as int);
    }
    let h = play(g, ways[pick]);
    assert(h@ == random_step(g@, next, pick as int));
    Some(h)
}

/// The random policy makes legal moves only, so it keeps the occupants of
/// the board.
pub proof fn lemma_random_next_legal(b: Board, side: Entity, h: Board)
    requires
        crate::board::is_board(b),
        random_next(b, side, h),
    ensures
        exists|m: Move| is_legal(b, side, m) && h == #[trigger] apply_move(b, m),
        crate::moves::occupants(h) == crate::moves::occupants(b),
{
    let pick = choose|pick: int|
        0 <= pick < legal_moves(b, side).len() && h == #[trigger] random_step(b, side, pick);
    lemma_trivial_move(b, side);
    crate::moves::lemma_legal_moves_sound(b, side, pick);
    let m = match trivial_move(b, side) {
        Some(m) => m,
        None => legal_moves(b, side)[pick],
    };
    assert(h == apply_move(b, m));
    crate::moves::lemma_move_keeps_occupants(b, side, m);
}

} // verus!
