//! Simulated games with the random policy, and the chances estimated from
//! them.

use vstd::prelude::*;
use rand::rngs::StdRng;
use crate::entity::Entity;
use crate::board::{Board, Game};
use crate::estimate::Estimate;
use crate::judge::{GameState, judge, is_win_for, outcome, wins};
use crate::moves::legal_moves;
use crate::policy::{play_random, random_step};

verus! {

/// A simulated game ends after this many moves at the latest.
pub const MAX_PLIES: usize = 30;

/// A game simulated with the random policy, from position `b` with `turn`
/// to move and `plies` moves left, may end in state `s`. With no move left
/// the game counts as unfinished. When the side to move has no legal move
/// the game ends in the state of the position. Otherwise the side moves and
/// the other side goes on.
pub open spec fn random_rollout(b: Board, turn: Entity, plies: nat, s: GameState) -> bool
    decreases plies,
{
    if plies == 0 {
        s == GameState::InGame
    } else if legal_moves(b, turn).len() == 0 {
        s == outcome(b)
    } else {
        exists|pick: int|
            0 <= pick < legal_moves(b, turn).len() && random_rollout(
                #[trigger] random_step(b, turn, pick),
                turn.opposite(),
                (plies - 1) as nat,
                s,
            )
    }
}

/// Tells of a state whether it is a win for `side`.
pub open spec fn won_by(side: Entity) -> spec_fn(GameState) -> bool {
    |s: GameState| wins(side, s)
}

/// The number of the games `outs` that `side` won.
pub open spec fn tally(side: Entity, outs: Seq<GameState>) -> nat {
    outs.filter(won_by(side)).len()
}

/// Each of `outs` is a state in which a game simulated with the random
/// policy from `b`, with `side` to move first, may end.
pub open spec fn random_rollouts(b: Board, side: Entity, outs: Seq<GameState>) -> bool {
    forall|i: int| 0 <= i < outs.len() ==> random_rollout(b, side, MAX_PLIES as nat, #[trigger] outs[i])
}

/// `e` may be the chance of `side` estimated from `trials` games simulated
/// with the random policy: the share of these games that `side` won. No
/// side gets one half.
pub open spec fn random_estimate(b: Board, side: Entity, trials: nat, e: Estimate) -> bool {
    if side == Entity::Empty {
        e == (Estimate { wins: 1, trials: 2 })
    } else {
        &&& e.trials == trials
        &&& exists|outs: Seq<GameState>|
            outs.len() == trials && random_rollouts(b, side, outs) && e.wins == #[trigger] tally(
                side,
                outs,
            )
    }
}

/// Simulates one game with the random policy, `first` moving first, and
/// says how it ended.
pub fn rollplay_random(g: &Game, first: Entity, rng: &mut StdRng) -> (s: GameState)
    ensures
        random_rollout(g@, first, MAX_PLIES as nat, s),
{
    let mut next = first;
    let mut h = *g;
    let mut t: usize = 0;
    while t < MAX_PLIES
        invariant
            t <= MAX_PLIES,
            forall|s: GameState|
                random_rollout(h@, next, (MAX_PLIES - t) as nat, s) ==> random_rollout(
                    g@,
                    first,
                    MAX_PLIES as nat,
                    s,
                ),
        decreases MAX_PLIES - t,
    {
        match play_random(&h, next, rng) {
            Some(h_next) => {
                h = h_next;
                next = next.opposite();
            },
            None => {
                return judge(&h);
            },
        }
        t += 1;
    }
    GameState::InGame
}

/// Estimates the chance of `first` to win from position `g` when it moves
/// first: the share won of `num_try` games simulated with the random policy.
pub fn prob_to_win(g: &Game, first: Entity, num_try: usize, rng: &mut StdRng) -> (e: Estimate)
    ensures
        random_estimate(g@, first, num_try as nat, e),
        e.wf(),
{
    if first == Entity::Empty {
        return Estimate::even();
    }
    let mut win: usize = 0;
    let ghost mut outs: Seq<GameState> = Seq::empty();
    let mut i: usize = 0;
    while i < num_try
        invariant
            i <= num_try,
            outs.len() == i,
            random_rollouts(g@, first, outs),
            win == tally(first, outs),
            win <= i,
        decreases num_try - i,
    {
        let s = rollplay_random(g, first, rng);
        proof {
            outs.lemma_filter_push(s, won_by(first));
            outs = outs.push(s);
        }
        if is_win_for(first, s) {
            win += 1;
        }
        i += 1;
    }
    Estimate { wins: win, trials: num_try }
}

/// Where every game ended in the same state, the side that this state is
/// a win for has won them all, and any other side none.
pub proof fn lemma_tally_constant(side: Entity, outs: Seq<GameState>, s: GameState)
    requires
        forall|i: int| 0 <= i < outs.len() ==> outs[i] == s,
    ensures
        tally(side, outs) == if wins(side, s) {
            outs.len()
        } else {
            0
        },
    decreases outs.len(),
{
    reveal(Seq::filter);
    if outs.len() > 0 {
        lemma_tally_constant(side, outs.drop_last(), s);
    }
}

/// A game in which the side to move has no legal move ends at once, in the
/// state of the position.
pub proof fn lemma_stuck_rollout(b: Board, side: Entity, plies: nat, s: GameState)
    requires
        plies > 0,
        legal_moves(b, side).len() == 0,
    ensures
        random_rollout(b, side, plies, s) <==> s == outcome(b),
{
}

/// Where the side to move has no legal move, nothing is left to chance: it
/// has won every simulated game if the position is a win for it, and else
/// none.
pub proof fn lemma_stuck_estimate(b: Board, side: Entity, trials: nat, e: Estimate)
    requires
        side != Entity::Empty,
        legal_moves(b, side).len() == 0,
        random_estimate(b, side, trials, e),
    ensures
        e.trials == trials,
        e.wins == if wins(side, outcome(b)) {
            trials
        } else {
            0
        },
{
    let outs = choose|outs: Seq<GameState>|
        outs.len() == trials && random_rollouts(b, side, outs) && e.wins == #[trigger] tally(
            side,
            outs,
        );
    assert forall|i: int| 0 <= i < outs.len() implies outs[i] == outcome(b) by {
        lemma_stuck_rollout(b, side, MAX_PLIES as nat, outs[i]);
    }
    lemma_tally_constant(side, outs, outcome(b));
}

/// Every estimate counts no more games won than were played.
pub proof fn lemma_estimate_wf(b: Board, side: Entity, trials: nat, e: Estimate)
    requires
        random_estimate(b, side, trials, e),
    ensures
        e.wf(),
{
    if side != Entity::Empty {
        let outs = choose|outs: Seq<GameState>|
            outs.len() == trials && random_rollouts(b, side, outs) && e.wins == #[trigger] tally(
                side,
                outs,
            );
        outs.lemma_filter_len(won_by(side));
    }
}

} // verus!
