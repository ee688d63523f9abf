//! The solver: which move a side should make in a position.

use vstd::prelude::*;
use rand::rngs::StdRng;
use crate::entity::Entity;
use crate::board::{Board, Cell, Game, cell, is_board, on_grid};
use crate::estimate::{Estimate, best_index, pick_best};
use crate::lookahead::{good_estimate, prob_to_win_good};
use crate::moves::{Move, apply_move, choices, is_legal, legal_moves, play};
use crate::judge::{GameState, outcome, rabbit_home};
use crate::policy::board_of;

verus! {

/// The number of games that the solver simulates for each move.
pub const SOLVER_TRIALS: usize = 200;

/// A move that the solver has weighed.
#[derive(Debug, Clone, Copy)]
pub struct Candidate {
    /// The move.
    pub choice: Move,
    /// The position after the move.
    pub board: Game,
    /// The mover's estimated chance to win after the move.
    pub chance: Estimate,
}

/// `c` may be what the solver finds of the move `m` of `side`: the position
/// after the move, and as the mover's chance one minus a chance of the other
/// side, estimated with the lookahead policy from that position, where the
/// other side moves first.
pub open spec fn weighed(b: Board, side: Entity, m: Move, c: Candidate) -> bool {
    &&& c.choice == m
    &&& c.board@ == apply_move(b, m)
    &&& exists|e: Estimate|
        e.wf() && #[trigger] good_estimate(
            apply_move(b, m),
            side.opposite(),
            SOLVER_TRIALS as nat,
            e,
        ) && c.chance == e.complement()
}

/// `cands` may be what the solver finds of the legal moves of `side`, in
/// the generator's order.
pub open spec fn assessed(b: Board, side: Entity, cands: Seq<Candidate>) -> bool {
    &&& cands.len() == legal_moves(b, side).len()
    &&& forall|k: int|
        0 <= k < cands.len() ==> weighed(b, side, legal_moves(b, side)[k], #[trigger] cands[k])
}

/// The chances of the candidates.
pub open spec fn chances(cands: Seq<Candidate>) -> Seq<Estimate> {
    cands.map_values(|c: Candidate| c.chance)
}

/// The candidate that the solver chooses: the first whose chance is above
/// zero and is exceeded by none.
pub open spec fn chosen(cands: Seq<Candidate>) -> Option<int> {
    best_index(chances(cands), Some(Estimate { wins: 0, trials: 1 }))
}

/// Weighs every legal move of `next`: for each the position after it and
/// the mover's chance, estimated from `SOLVER_TRIALS` games simulated with
/// the lookahead policy.
pub fn assess(g: &Game, next: Entity, rng: &mut StdRng) -> (cands: Vec<Candidate>)
    ensures
        assessed(g@, next, cands@),
{
    let ways = choices(g, next);
    let mut cands: Vec<Candidate> = Vec::new();
    let mut k: usize = 0;
    while k < ways.len()
        invariant
            k <= ways.len(),
            ways@ == legal_moves(g@, next),
            cands.len() == k,
            forall|j: int| 0 <= j < k ==> weighed(g@, next, ways@[j], #[trigger] cands@[j]),
        decreases ways.len() - k,
    {
        proof {
            crate::moves::lemma_legal_moves_sound(g@, next, k as int);
        }
        let h = play(g, ways[k]);
        let e = prob_to_win_good(&h, next.opposite(), SOLVER_TRIALS, rng);
        cands.push(Candidate { choice: ways[k], board: h, chance: e.complement() });
        k += 1;
    }
    cands
}

/// Chooses among the candidates: the first whose chance is above zero and
/// is exceeded by none. Where no chance is above zero, none is chosen.
pub fn best_candidate(cands: &Vec<Candidate>) -> (r: Option<usize>)
    ensures
        match r {
            Some(k) => chosen(cands@) == Some(k as int) && k < cands.len(),
            None => chosen(cands@) is None,
        },
{
    let mut scores: Vec<Estimate> = Vec::new();
    let mut k: usize = 0;
    while k < cands.len()
        invariant
            k <= cands.len(),
            scores@ == chances(cands@).take(k as int),
        decreases cands.len() - k,
    {
        scores.push(cands[k].chance);
        assert(scores@ =~= chances(cands@).take(k + 1));
        k += 1;
    }
    assert(scores@ =~= chances(cands@));
    pick_best(&scores, Some(Estimate::zero()))
}

/// Finds the best move of `next` in the position `g` and gives the position
/// after it. Every legal move is weighed, and the first is taken whose
/// chance is above zero and is exceeded by none. There is no answer where
/// `next` has no legal move, and none where no move leaves it a chance.
pub fn solve(g: &Game, next: Entity, rng: &mut StdRng) -> (r: Option<Game>)
    ensures
        exists|cands: Seq<Candidate>| #[trigger]
            assessed(g@, next, cands) && match chosen(cands) {
                Some(k) => board_of(r) == Some(cands[k].board@),
                None => r is None,
            },
        legal_moves(g@, next).len() == 0 ==> r is None,
        r matches Some(h) ==> exists|m: Move| is_legal(g@, next, m) && h@ == #[trigger] apply_move(g@, m),
{
    let cands = assess(g, next, rng);
    match best_candidate(&cands) {
        Some(k) => {
            proof {
                let m = legal_moves(g@, next)[k as int];
                crate::moves::lemma_legal_moves_sound(g@, next, k as int);
                assert(cands@[k as int].board@ == apply_move(g@, m));
            }
            Some(cands[k].board)
        },
        None => None,
    }
}

/// Every rabbit on the board stands on a home cell.
pub open spec fn rabbits_at_home(b: Board) -> bool {
    forall|c: Cell|
        on_grid(c) && #[trigger] cell(b, c) == Entity::Rabbit ==> c == (0usize, 1usize) || c == (
            1usize,
            0usize,
        ) || c == (2usize, 1usize)
}

/// Against a rabbit that has reached a home cell the dogs have nothing
/// left: whatever they move, the position stays won by the rabbit, every
/// move is weighed at chance zero, and the solver chooses none.
pub proof fn lemma_no_answer_to_rabbit_at_home(b: Board, cands: Seq<Candidate>)
    requires
        is_board(b),
        rabbit_home(b),
        rabbits_at_home(b),
        assessed(b, Entity::Dog, cands),
    ensures
        forall|k: int|
            0 <= k < cands.len() ==> outcome((#[trigger] cands[k]).board@) == GameState::RabbitWin
                && cands[k].chance == (Estimate { wins: 0, trials: SOLVER_TRIALS }),
        chosen(cands) is None,
{
    let ms = legal_moves(b, Entity::Dog);
    assert forall|k: int| 0 <= k < cands.len() implies outcome((#[trigger] cands[k]).board@)
        == GameState::RabbitWin && cands[k].chance == (Estimate { wins: 0, trials: SOLVER_TRIALS }) by {
        let m = ms[k];
        let h = apply_move(b, m);
        crate::moves::lemma_legal_moves_sound(b, Entity::Dog, k);
        crate::judge::lemma_home_win_stays(b, m);
        assert forall|c: Cell| on_grid(c) && #[trigger] cell(h, c) == Entity::Rabbit implies cell(
            b,
            c,
        ) == Entity::Rabbit by {
            if c != m.0 && c != m.1 {
                assert(cell(h, c) == cell(b, c));
            }
        }
        lemma_rabbit_stays_home(h);
        let e = choose|e: Estimate|
            e.wf() && #[trigger] good_estimate(h, Entity::Rabbit, SOLVER_TRIALS as nat, e)
                && cands[k].chance == e.complement();
        crate::lookahead::lemma_stuck_good_estimate(h, Entity::Rabbit, SOLVER_TRIALS as nat, e);
    }
    let scores = chances(cands);
    let floor = Some(Estimate { wins: 0, trials: 1 });
    crate::estimate::lemma_best_index(scores, floor);
    match best_index(scores, floor) {
        Some(k) => {
            assert(scores[k] == cands[k].chance);
        },
        None => {},
    }
}

/// Rabbits that all stand on home cells have no legal move.
pub proof fn lemma_rabbit_stays_home(b: Board)
    requires
        rabbits_at_home(b),
    ensures
        legal_moves(b, Entity::Rabbit).len() == 0,
{
    let ms = legal_moves(b, Entity::Rabbit);
    if ms.len() > 0 {
        let m = ms[0];
        assert(ms.contains(m));
        crate::moves::lemma_legal_moves_complete(b, Entity::Rabbit, m);
        crate::adjacency::lemma_steps_stay_in_graph(
            Entity::Rabbit,
            m.0,
            crate::adjacency::adjacent(Entity::Rabbit, m.0).index_of(m.1),
        );
        assert(cell(b, m.0) == Entity::Rabbit);
    }
}

} // verus!
