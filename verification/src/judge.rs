//! Who has won a position, if anybody.

use vstd::prelude::*;
use crate::entity::Entity;
use crate::board::{Board, Game, cell};

verus! {

/// The state of a game: still going, or won by one side.
#[derive(Debug, Clone, Copy, PartialEq, Eq, Structural)]
pub enum GameState {
    InGame,
    DogWin,
    RabbitWin,
}

/// The rabbit stands on one of its three home cells.
pub open spec fn rabbit_home(b: Board) -> bool {
    ||| cell(b, (0usize, 1usize)) == Entity::Rabbit
    ||| cell(b, (1usize, 0usize)) == Entity::Rabbit
    ||| cell(b, (2usize, 1usize)) == Entity::Rabbit
}

/// The cell before the way out is free and the rabbit stands next to it.
pub open spec fn rabbit_at_open_door(b: Board) -> bool {
    cell(b, (1usize, 0usize)) == Entity::Empty && cell(b, (1usize, 1usize)) == Entity::Rabbit
}

/// The rabbit stands in the far corner with a dog on each cell next to it.
pub open spec fn rabbit_trapped(b: Board) -> bool {
    &&& cell(b, (0usize, 3usize)) == Entity::Dog
    &&& cell(b, (1usize, 3usize)) == Entity::Dog
    &&& cell(b, (2usize, 3usize)) == Entity::Dog
    &&& cell(b, (1usize, 4usize)) == Entity::Rabbit
}

/// The state of a position. The rabbit's two ways to win are looked at
/// before the dogs' one.
pub open spec fn outcome(b: Board) -> GameState {
    if rabbit_home(b) {
        GameState::RabbitWin
    } else if rabbit_at_open_door(b) {
        GameState::RabbitWin
    } else if rabbit_trapped(b) {
        GameState::DogWin
    } else {
        GameState::InGame
    }
}

/// The state that is a win for `side`. No state is a win for an empty cell.
pub open spec fn wins(side: Entity, s: GameState) -> bool {
    ||| side == Entity::Dog && s == GameState::DogWin
    ||| side == Entity::Rabbit && s == GameState::RabbitWin
}

/// Tells whether the state `s` is a win for `side`.
pub fn is_win_for(side: Entity, s: GameState) -> (r: bool)
    ensures
        r == wins(side, s),
{
    match (side, s) {
        (Entity::Dog, GameState::DogWin) => true,
        (Entity::Rabbit, GameState::RabbitWin) => true,
        _ => false,
    }
}

/// Classifies a position.
pub fn judge(g: &Game) -> (s: GameState)
    ensures
        s == outcome(g@),
{
    if g.get(0, 1) == Entity::Rabbit || g.get(1, 0) == Entity::Rabbit || g.get(2, 1)
        == Entity::Rabbit {
        return GameState::RabbitWin;
    }
    if g.get(1, 0) == Entity::Empty && g.get(1, 1) == Entity::Rabbit {
        return GameState::RabbitWin;
    }
    if g.get(0, 3) == Entity::Dog && g.get(1, 3) == Entity::Dog && g.get(2, 3) == Entity::Dog
        && g.get(1, 4) == Entity::Rabbit {
        return GameState::DogWin;
    }
    GameState::InGame
}

/// A state is a win for at most one side.
pub proof fn lemma_one_winner(s: GameState)
    ensures
        !(wins(Entity::Dog, s) && wins(Entity::Rabbit, s)),
        !wins(Entity::Empty, s),
{
}

/// The state of a position depends on the position alone: positions with
/// the same cells have the same state.
pub proof fn lemma_judge_deterministic(g: Game, h: Game)
    requires
        g@ == h@,
    ensures
        outcome(g@) == outcome(h@),
{
}

/// A position that the rabbit has won by reaching a home cell stays won:
/// no legal move of a dog changes its state.
pub proof fn lemma_home_win_stays(b: Board, m: crate::moves::Move)
    requires
        crate::board::is_board(b),
        rabbit_home(b),
        crate::moves::is_legal(b, Entity::Dog, m),
    ensures
        outcome(b) == GameState::RabbitWin,
        outcome(crate::moves::apply_move(b, m)) == GameState::RabbitWin,
{
    crate::adjacency::lemma_steps_stay_in_graph(
        Entity::Dog,
        m.0,
        crate::adjacency::adjacent(Entity::Dog, m.0).index_of(m.1),
    );
}

} // verus!
