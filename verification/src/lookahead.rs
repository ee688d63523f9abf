//! The lookahead policy: a side weighs each of its moves by games simulated
//! with the random policy. Also the games simulated with the lookahead
//! policy itself, and the chances estimated from them.

use vstd::prelude::*;
use rand::rngs::StdRng;
use crate::entity::Entity;
use crate::board::{Board, Game};
use crate::estimate::{Estimate, best_index, pick_best};
use crate::judge::{GameState, judge, is_win_for, outcome};
use crate::moves::{Move, apply_move, choices, legal_moves, play};
use crate::policy::{
    board_of, first_winning, play_random, random_next, trivial_board, trivial_move,
};
use crate::rollout::{MAX_PLIES, prob_to_win, random_estimate, tally, won_by};

verus! {

/// From this depth on the lookahead policy plays as the random policy does.
pub const DEPTH_CUTOFF: usize = 3;

/// The number of games that the lookahead policy simulates for each move.
pub const LOOKAHEAD_TRIALS: usize = 100;

/// `q` may be the chance that the lookahead policy gives `side` after its
/// move `m`: one minus a chance of the other side, estimated with the random
/// policy from the position after the move, where the other side moves
/// first.
pub open spec fn chance_after(b: Board, side: Entity, m: Move, q: Estimate) -> bool {
    exists|e: Estimate|
        e.wf() && #[trigger] random_estimate(
            apply_move(b, m),
            side.opposite(),
            LOOKAHEAD_TRIALS as nat,
            e,
        ) && q == e.complement()
}

/// `scores` may be the chances that the lookahead policy gives `side` after
/// each of its legal moves, in the generator's order.
pub open spec fn scored(b: Board, side: Entity, scores: Seq<Estimate>) -> bool {
    &&& scores.len() == legal_moves(b, side).len()
    &&& forall|k: int|
        0 <= k < scores.len() ==> chance_after(b, side, legal_moves(b, side)[k], #[trigger] scores[k])
}

/// The lookahead policy may lead from `b` to `h`: `side` has a legal move,
/// and `h` comes of the trivial move or, where there is none, of the legal
/// move with the best chance, the first of them where several are best.
pub open spec fn good_next(b: Board, side: Entity, h: Board) -> bool {
    &&& legal_moves(b, side).len() > 0
    &&& match trivial_move(b, side) {
        Some(m) => h == apply_move(b, m),
        None => exists|scores: Seq<Estimate>|
            #[trigger] scored(b, side, scores) && best_index(scores, None) is Some && h
                == apply_move(b, legal_moves(b, side)[best_index(scores, None)->0]),
    }
}

/// Where the first chance is a number, one of the chances is the best.
pub proof fn lemma_some_best(scores: Seq<Estimate>, n: nat)
    requires
        0 < n <= scores.len(),
        scores[0].trials > 0,
    ensures
        crate::estimate::best_upto(scores, None, n) is Some,
    decreases n,
{
    if n > 1 {
        lemma_some_best(scores, (n - 1) as nat);
    }
}

/// The lookahead policy. A side without a legal move cannot play. At depth
/// `DEPTH_CUTOFF` and deeper the side plays as the random policy does.
/// Above it the side takes its trivial move where it has one; else it
/// estimates for each legal move the other side's chance from games
/// simulated with the random policy, and takes the move after which that
/// chance is least.
pub fn play_good(g: &Game, next: Entity, depth: usize, rng: &mut StdRng) -> (r: Option<Game>)
    ensures
        r is None <==> legal_moves(g@, next).len() == 0,
        r matches Some(h) ==> if depth >= DEPTH_CUTOFF {
            random_next(g@, next, h@)
        } else {
            good_next(g@, next, h@)
        },
        trivial_board(g@, next) is Some ==> board_of(r) == trivial_board(g@, next),
{
    if depth >= DEPTH_CUTOFF {
        return play_random(g, next, rng);
    }
    let ways = choices(g, next);
    if ways.len() == 0 {
        return None;
    }
    if let Some(gp) = first_winning(g, next, &ways) {
        return Some(gp);
    }
    let mut scores: Vec<Estimate> = Vec::new();
    let mut k: usize = 0;
    while k < ways.len()
        invariant
            k <= ways.len(),
            ways@ == legal_moves(g@, next),
            scores.len() == k,
            forall|j: int|
                0 <= j < k ==> chance_after(g@, next, ways@[j], #[trigger] scores@[j])
                    && scores@[j].trials == LOOKAHEAD_TRIALS,
        decreases ways.len() - k,
    {
        proof {
            crate::moves::lemma_legal_moves_sound(g@, next, k as int);
        }
        let h = play(g, ways[k]);
        let e = prob_to_win(&h, next.opposite(), LOOKAHEAD_TRIALS, rng);
        scores.push(e.complement());
        k += 1;
    }
    proof {
        lemma_some_best(scores@, scores@.len());
        assert(scored(g@, next, scores@));
    }
    match pick_best(&scores, None) {
        Some(best) => {
            proof {
                crate::moves::lemma_legal_moves_sound(g@, next, best as int);
            }
            Some(play(g, ways[best]))
        },
        None => None,
    }
}

/// A game simulated with the lookahead policy, from position `b` with
/// `turn` to move and `plies` moves left, may end in state `s`. With no move
/// left the game counts as unfinished. When the side to move has no legal
/// move the game ends in the state of the position. Otherwise the side moves
/// and the other side goes on.
pub open spec fn good_rollout(b: Board, turn: Entity, plies: nat, s: GameState) -> bool
    decreases plies,
{
    if plies == 0 {
        s == GameState::InGame
    } else if legal_moves(b, turn).len() == 0 {
        s == outcome(b)
    } else {
        exists|h: Board| #[trigger]
            good_next(b, turn, h) && good_rollout(h, turn.opposite(), (plies - 1) as nat, s)
    }
}

/// Each of `outs` is a state in which a game simulated with the lookahead
/// policy from `b`, with `side` to move first, may end.
pub open spec fn good_rollouts(b: Board, side: Entity, outs: Seq<GameState>) -> bool {
    forall|i: int| 0 <= i < outs.len() ==> good_rollout(b, side, MAX_PLIES as nat, #[trigger] outs[i])
}

/// `e` may be the chance of `side` estimated from `trials` games simulated
/// with the lookahead policy: the share of these games that `side` won. No
/// side gets one half.
pub open spec fn good_estimate(b: Board, side: Entity, trials: nat, e: Estimate) -> bool {
    if side == Entity::Empty {
        e == (Estimate { wins: 1, trials: 2 })
    } else {
        &&& e.trials == trials
        &&& exists|outs: Seq<GameState>|
            outs.len() == trials && good_rollouts(b, side, outs) && e.wins == #[trigger] tally(
                side,
                outs,
            )
    }
}

/// Simulates one game with the lookahead policy, `first` moving first, and
/// says how it ended.
pub fn rollplay_good(g: &Game, first: Entity, rng: &mut StdRng) -> (s: GameState)
    ensures
        good_rollout(g@, first, MAX_PLIES as nat, s),
{
    let mut next = first;
    let mut h = *g;
    let mut t: usize = 0;
    while t < MAX_PLIES
        invariant
            t <= MAX_PLIES,
            forall|s: GameState|
                good_rollout(h@, next, (MAX_PLIES - t) as nat, s) ==> good_rollout(
                    g@,
                    first,
                    MAX_PLIES as nat,
                    s,
                ),
        decreases MAX_PLIES - t,
    {
        match play_good(&h, next, 0, rng) {
            Some(h_next) => {
                h = h_next;
                next = next.opposite();
            },
            None => {
                return judge(&h);
            },
        }
        t += 1;
    }
    GameState::InGame
}

/// Estimates the chance of `first` to win from position `g` when it moves
/// first: the share won of `num_try` games simulated with the lookahead
/// policy.
pub fn prob_to_win_good(g: &Game, first: Entity, num_try: usize, rng: &mut StdRng) -> (e: Estimate)
    ensures
        good_estimate(g@, first, num_try as nat, e),
        e.wf(),
{
    if first == Entity::Empty {
        return Estimate::even();
    }
    let mut win: usize = 0;
    let ghost mut outs: Seq<GameState> = Seq::empty();
    let mut i: usize = 0;
    while i < num_try
        invariant
            i <= num_try,
            outs.len() == i,
            good_rollouts(g@, first, outs),
            win == tally(first, outs),
            win <= i,
        decreases num_try - i,
    {
        let s = rollplay_good(g, first, rng);
        proof {
            outs.lemma_filter_push(s, won_by(first));
            outs = outs.push(s);
        }
        if is_win_for(first, s) {
            win += 1;
        }
        i += 1;
    }
    Estimate { wins: win, trials: num_try }
}

/// With the lookahead policy too, a game in which the side to move has no
/// legal move ends at once, in the state of the position.
pub proof fn lemma_stuck_good_rollout(b: Board, side: Entity, plies: nat, s: GameState)
    requires
        plies > 0,
        legal_moves(b, side).len() == 0,
    ensures
        good_rollout(b, side, plies, s) <==> s == outcome(b),
{
}

/// Where the side to move has no legal move, nothing is left to chance: it
/// has won every simulated game if the position is a win for it, and else
/// none.
pub proof fn lemma_stuck_good_estimate(b: Board, side: Entity, trials: nat, e: Estimate)
    requires
        side != Entity::Empty,
        legal_moves(b, side).len() == 0,
        good_estimate(b, side, trials, e),
    ensures
        e.trials == trials,
        e.wins == if crate::judge::wins(side, outcome(b)) {
            trials
        } else {
            0
        },
{
    let outs = choose|outs: Seq<GameState>|
        outs.len() == trials && good_rollouts(b, side, outs) && e.wins == #[trigger] tally(
            side,
            outs,
        );
    assert forall|i: int| 0 <= i < outs.len() implies outs[i] == outcome(b) by {
        lemma_stuck_good_rollout(b, side, MAX_PLIES as nat, outs[i]);
    }
    crate::rollout::lemma_tally_constant(side, outs, outcome(b));
}

/// The lookahead policy makes legal moves only, so it keeps the occupants
/// of the board.
pub proof fn lemma_good_next_legal(b: Board, side: Entity, h: Board)
    requires
        crate::board::is_board(b),
        good_next(b, side, h),
    ensures
        exists|m: Move| crate::moves::is_legal(b, side, m) && h == #[trigger] apply_move(b, m),
        crate::moves::occupants(h) == crate::moves::occupants(b),
{
    crate::policy::lemma_trivial_move(b, side);
    let m = match trivial_move(b, side) {
        Some(m) => m,
        None => {
            let scores = choose|scores: Seq<Estimate>|
                #[trigger] scored(b, side, scores) && best_index(scores, None) is Some && h
                    == apply_move(b, legal_moves(b, side)[best_index(scores, None)->0]);
            let k = best_index(scores, None)->0;
            crate::estimate::lemma_best_in_range(scores, None, scores.len());
            crate::moves::lemma_legal_moves_sound(b, side, k);
            legal_moves(b, side)[k]
        },
    };
    assert(h == apply_move(b, m));
    crate::moves::lemma_move_keeps_occupants(b, side, m);
}

} // verus!
