//! A request to the solver, and how it is answered.

use vstd::prelude::*;
use rand::rngs::StdRng;
use crate::entity::Entity;
use crate::board::{Board, Game, mirrored};
use crate::policy::board_of;
use crate::solver::{Candidate, assess, assessed, best_candidate, chosen};
use crate::moves::legal_moves;
use crate::text::chars_of;

verus! {

/// The options of a request.
#[derive(Debug)]
pub struct Opt {
    /// Show every move that was weighed.
    pub verbose: bool,
    /// Solve the position as seen in a mirror.
    pub mirror: bool,
    /// The side that moves next, by name.
    pub next: String,
}

/// The side that a name stands for: `D`, `Dog`, `dog` and `d` name the dogs,
/// and every other text names the rabbit.
pub open spec fn side_named(name: Seq<char>) -> Entity {
    if name == seq!['D'] || name == seq!['D', 'o', 'g'] || name == seq!['d', 'o', 'g'] || name
        == seq!['d'] {
        Entity::Dog
    } else {
        Entity::Rabbit
    }
}

/// The board as the solver gets it, and the answer as it is given back: seen
/// in a mirror where `mirror` is set, else as it is.
pub open spec fn maybe_mirrored(mirror: bool, b: Board) -> Board {
    if mirror {
        mirrored(b)
    } else {
        b
    }
}

/// What the solver found for a request.
#[derive(Debug)]
pub struct Answer {
    /// Every legal move of the side that moves next, as the solver weighed
    /// it, on the board as the solver got it.
    pub trace: Vec<Candidate>,
    /// The position after the best move, if there is one.
    pub best: Option<Game>,
}

impl Entity {
    /// The side that a name stands for.
    pub fn from_name(name: &str) -> (r: Entity)
        ensures
            r == side_named(name@),
    {
        let cs = chars_of(name);
        let dog = if cs.len() == 1 {
            cs[0] == 'D' || cs[0] == 'd'
        } else if cs.len() == 3 {
            (cs[0] == 'D' || cs[0] == 'd') && cs[1] == 'o' && cs[2] == 'g'
        } else {
            false
        };
        proof {
            let n = name@;
            if dog {
                if n.len() == 1 {
                    assert(n =~= seq!['D'] || n =~= seq!['d']);
                } else {
                    assert(n =~= seq!['D', 'o', 'g'] || n =~= seq!['d', 'o', 'g']);
                }
            } else {
                assert(seq!['D'].len() == 1 && seq!['D'][0] == 'D');
                assert(seq!['d'].len() == 1 && seq!['d'][0] == 'd');
                let big = seq!['D', 'o', 'g'];
                let small = seq!['d', 'o', 'g'];
                assert(big.len() == 3 && big[0] == 'D' && big[1] == 'o' && big[2] == 'g');
                assert(small.len() == 3 && small[0] == 'd' && small[1] == 'o' && small[2] == 'g');
            }
        }
        if dog {
            Entity::Dog
        } else {
            Entity::Rabbit
        }
    }
}

impl Opt {
    /// The side that moves next.
    pub fn side(&self) -> (r: Entity)
        ensures
            r == side_named(self.next@),
    {
        Entity::from_name(self.next.as_str())
    }
}

/// `trace` and `best` may be what the solver finds for a request: every
/// legal move of `side` weighed on the board as the solver gets it, and the
/// position after the chosen move as it is given back, if a move is chosen.
pub open spec fn answers(
    mirror: bool,
    b: Board,
    side: Entity,
    trace: Seq<Candidate>,
    best: Option<Board>,
) -> bool {
    &&& assessed(maybe_mirrored(mirror, b), side, trace)
    &&& best == match chosen(trace) {
        Some(k) => Some(maybe_mirrored(mirror, trace[k].board@)),
        None => None,
    }
}

/// Answers a request: solves the position `g` for the side that `opt`
/// names. Where `opt.mirror` is set the position is solved as seen in a
/// mirror, and the answer is mirrored back. A side without a legal move gets
/// no answer.
pub fn respond(opt: &Opt, g: &Game, rng: &mut StdRng) -> (a: Answer)
    ensures
        answers(opt.mirror, g@, side_named(opt.next@), a.trace@, board_of(a.best)),
        legal_moves(maybe_mirrored(opt.mirror, g@), side_named(opt.next@)).len() == 0
            ==> a.best is None,
{
    let next = opt.side();
    let seen = if opt.mirror {
        g.mirror()
    } else {
        *g
    };
    let trace = assess(&seen, next, rng);
    let best = match best_candidate(&trace) {
        Some(k) => {
            let h = trace[k].board;
            Some(
                if opt.mirror {
                    h.mirror()
                } else {
                    h
                },
            )
        },
        None => None,
    };
    Answer { trace, best }
}

/// A request with the mirror option is answered as the request without it
/// for the mirrored position, and the answer is the mirror image of that
/// answer.
pub proof fn lemma_mirrored_request(
    b: Board,
    side: Entity,
    trace: Seq<Candidate>,
    best: Option<Board>,
)
    requires
        answers(true, b, side, trace, best),
    ensures
        answers(
            false,
            mirrored(b),
            side,
            trace,
            match best {
                Some(h) => Some(mirrored(h)),
                None => None,
            },
        ),
{
    match chosen(trace) {
        Some(k) => {
            crate::board::lemma_mirror_involution(trace[k].board@);
        },
        None => {},
    }
}

} // verus!
