//! The occupant of a cell, and the two sides of the game.

use vstd::prelude::*;

verus! {

/// What stands on one cell of the board. `Dog` and `Rabbit` are also the
/// names of the two sides.
#[derive(Debug, Clone, Copy, PartialEq, Eq, Structural)]
pub enum Entity {
    Empty,
    Dog,
    Rabbit,
}

impl Entity {
    /// The other side. An empty cell belongs to no side and stays empty.
    pub open spec fn spec_opposite(self) -> Entity {
        match self {
            Entity::Empty => Entity::Empty,
            Entity::Dog => Entity::Rabbit,
            Entity::Rabbit => Entity::Dog,
        }
    }

    /// The occupant that a character of a board's text stands for:
    /// `'D'` is a dog, `'R'` a rabbit, every other character an empty cell.
    pub open spec fn spec_from_char(c: char) -> Entity {
        if c == 'D' {
            Entity::Dog
        } else if c == 'R' {
            Entity::Rabbit
        } else {
            Entity::Empty
        }
    }

    /// The character that stands for an occupant in a board's text.
    pub open spec fn spec_to_char(self) -> char {
        match self {
            Entity::Empty => '.',
            Entity::Dog => 'D',
            Entity::Rabbit => 'R',
        }
    }

    /// The side that moves after `self`.
    #[verifier::when_used_as_spec(spec_opposite)]
    pub fn opposite(self) -> (r: Entity)
        ensures
            r == self.spec_opposite(),
    {
        match self {
            Entity::Empty => Entity::Empty,
            Entity::Dog => Entity::Rabbit,
            Entity::Rabbit => Entity::Dog,
        }
    }

    /// Reads one character of a board's text.
    #[verifier::when_used_as_spec(spec_from_char)]
    pub fn from_char(c: char) -> (r: Entity)
        ensures
            r == Entity::spec_from_char(c),
    {
        if c == 'D' {
            Entity::Dog
        } else if c == 'R' {
            Entity::Rabbit
        } else {
            Entity::Empty
        }
    }

    /// Writes one character of a board's text.
    #[verifier::when_used_as_spec(spec_to_char)]
    pub fn to_char(self) -> (c: char)
        ensures
            c == self.spec_to_char(),
    {
        match self {
            Entity::Empty => '.',
            Entity::Dog => 'D',
            Entity::Rabbit => 'R',
        }
    }
}

/// Taking the other side twice gives the side back.
pub proof fn lemma_opposite_involution(e: Entity)
    ensures
        e.opposite().opposite() == e,
{
}

/// Writing an occupant and reading the character back gives the occupant.
pub proof fn lemma_char_round_trip(e: Entity)
    ensures
        Entity::from_char(e.to_char()) == e,
{
}

} // verus!
