//! Estimated chances: how many of a number of simulated games a side won.

use vstd::prelude::*;

verus! {

/// An estimated chance to win: `wins` games won out of `trials` games
/// played. It stands for the fraction `wins / trials`; with no trial at all
/// it stands for no number, and neither exceeds a chance nor is exceeded.
#[derive(Debug, Clone, Copy, PartialEq, Eq, Structural)]
pub struct Estimate {
    pub wins: usize,
    pub trials: usize,
}

impl Estimate {
    /// No more games are won than were played.
    pub open spec fn wf(self) -> bool {
        self.wins <= self.trials
    }

    /// The chance of the other side in a game that one of the two wins:
    /// one minus this chance.
    pub open spec fn spec_complement(self) -> Estimate {
        Estimate { wins: (self.trials - self.wins) as usize, trials: self.trials }
    }

    /// This fraction is strictly greater than the other.
    pub open spec fn spec_exceeds(self, other: Estimate) -> bool {
        self.wins * other.trials > other.wins * self.trials
    }

    /// This chance is greater than the best one so far, if there is one, and
    /// else is a number at all.
    pub open spec fn beats(self, best: Option<Estimate>) -> bool {
        match best {
            Some(b) => self.spec_exceeds(b),
            None => self.trials > 0,
        }
    }

    /// The chance one half: neither side is favoured.
    pub fn even() -> (e: Estimate)
        ensures
            e == (Estimate { wins: 1, trials: 2 }),
    {
        Estimate { wins: 1, trials: 2 }
    }

    /// The chance zero.
    pub fn zero() -> (e: Estimate)
        ensures
            e == (Estimate { wins: 0, trials: 1 }),
    {
        Estimate { wins: 0, trials: 1 }
    }

    /// One minus this chance.
    #[verifier::when_used_as_spec(spec_complement)]
    pub fn complement(self) -> (e: Estimate)
        requires
            self.wf(),
        ensures
            e == self.spec_complement(),
            e.wf(),
    {
        Estimate { wins: self.trials - self.wins, trials: self.trials }
    }

    /// Tells whether this chance is strictly greater than the other.
    #[verifier::when_used_as_spec(spec_exceeds)]
    pub fn exceeds(self, other: Estimate) -> (r: bool)
        ensures
            r == self.spec_exceeds(other),
    {
        let left: u128 = widen(self.wins, other.trials);
        let right: u128 = widen(other.wins, self.trials);
        left > right
    }
}

/// The product of two machine words, which always fits in 128 bits.
fn widen(a: usize, b: usize) -> (p: u128)
    ensures
        p == a * b,
{
    assert(a * b <= 0xffff_ffff_ffff_ffff * 0xffff_ffff_ffff_ffff) by (nonlinear_arith)
        requires
            0 <= a <= 0xffff_ffff_ffff_ffff,
            0 <= b <= 0xffff_ffff_ffff_ffff,
    ;
    (a as u128) * (b as u128)
}

/// The index of the best among the first `n` chances: going through them in
/// order, a chance becomes the best so far when it beats the best before
/// it, or `floor` while none has been found. So of equal chances the first
/// stays.
pub open spec fn best_upto(scores: Seq<Estimate>, floor: Option<Estimate>, n: nat) -> Option<int>
    decreases n,
{
    if n == 0 {
        None
    } else {
        let before = best_upto(scores, floor, (n - 1) as nat);
        let bar = match before {
            Some(k) => Some(scores[k]),
            None => floor,
        };
        if scores[n - 1].beats(bar) {
            Some(n - 1)
        } else {
            before
        }
    }
}

/// The index of the best of the chances, if one beats `floor`.
pub open spec fn best_index(scores: Seq<Estimate>, floor: Option<Estimate>) -> Option<int> {
    best_upto(scores, floor, scores.len())
}

/// Finds the best of the chances `scores`: the first that beats `floor` and
/// is exceeded by none.
pub fn pick_best(scores: &Vec<Estimate>, floor: Option<Estimate>) -> (r: Option<usize>)
    ensures
        match r {
            Some(k) => best_index(scores@, floor) == Some(k as int) && k < scores.len(),
            None => best_index(scores@, floor) is None,
        },
{
    let mut best: Option<usize> = None;
    let mut bar: Option<Estimate> = floor;
    let mut n: usize = 0;
    while n < scores.len()
        invariant
            n <= scores.len(),
            match best {
                Some(k) => best_upto(scores@, floor, n as nat) == Some(k as int) && k < n && bar
                    == Some(scores@[k as int]),
                None => best_upto(scores@, floor, n as nat) is None && bar == floor,
            },
        decreases scores.len() - n,
    {
        let q = scores[n];
        let better = match bar {
            Some(b) => q.exceeds(b),
            None => q.trials > 0,
        };
        if better {
            best = Some(n);
            bar = Some(q);
        }
        n += 1;
    }
    best
}

/// The best of the first `n` chances is one of them.
pub proof fn lemma_best_in_range(scores: Seq<Estimate>, floor: Option<Estimate>, n: nat)
    ensures
        best_upto(scores, floor, n) matches Some(k) ==> 0 <= k < n,
    decreases n,
{
    if n > 0 {
        lemma_best_in_range(scores, floor, (n - 1) as nat);
    }
}

/// Of three chances that are numbers, the first exceeds the third when it
/// exceeds the second and the third does not exceed the second.
pub proof fn lemma_exceeds_chain(a: Estimate, b: Estimate, c: Estimate)
    requires
        a.trials > 0,
        b.trials > 0,
        c.trials > 0,
        a.exceeds(b),
        !c.exceeds(b),
    ensures
        a.exceeds(c),
{
    let (aw, at) = (a.wins as int, a.trials as int);
    let (bw, bt) = (b.wins as int, b.trials as int);
    let (cw, ct) = (c.wins as int, c.trials as int);
    assert(aw * ct > cw * at) by (nonlinear_arith)
        requires
            at > 0,
            bt > 0,
            ct > 0,
            aw >= 0,
            bw >= 0,
            cw >= 0,
            aw * bt > bw * at,
            cw * bt <= bw * ct,
    {
        assert(aw * bt * ct > bw * at * ct);
        assert(cw * bt * at <= bw * ct * at);
        assert(bw * at * ct == bw * ct * at);
        assert(aw * bt * ct == (aw * ct) * bt);
        assert(cw * bt * at == (cw * at) * bt);
        assert((aw * ct) * bt > (cw * at) * bt);
    }
}

/// What the best of the first `n` chances is, where every chance is a
/// number: it beats `floor`, none of the others exceeds it, and it exceeds
/// all that come before it. Where there is no best, no chance beats `floor`.
pub proof fn lemma_best_upto(scores: Seq<Estimate>, floor: Option<Estimate>, n: nat)
    requires
        n <= scores.len(),
        forall|j: int| 0 <= j < n ==> (#[trigger] scores[j]).trials > 0,
        floor matches Some(f) ==> f.trials > 0,
    ensures
        match best_upto(scores, floor, n) {
            Some(k) => {
                &&& 0 <= k < n
                &&& scores[k].beats(floor)
                &&& forall|j: int| 0 <= j < n ==> !(#[trigger] scores[j]).exceeds(scores[k])
                &&& forall|j: int| 0 <= j < k ==> scores[k].exceeds(#[trigger] scores[j])
            },
            None => forall|j: int| 0 <= j < n ==> !(#[trigger] scores[j]).beats(floor),
        },
    decreases n,
{
    if n > 0 {
        lemma_best_upto(scores, floor, (n - 1) as nat);
        let before = best_upto(scores, floor, (n - 1) as nat);
        let last = scores[n - 1];
        match before {
            Some(p) => {
                if last.exceeds(scores[p]) {
                    assert forall|j: int| 0 <= j < n implies !(#[trigger] scores[j]).exceeds(
                        last,
                    ) by {
                        if j < n - 1 && scores[j].exceeds(last) {
                            lemma_exceeds_chain(scores[j], last, scores[p]);
                        }
                    }
                    assert forall|j: int| 0 <= j < n - 1 implies last.exceeds(
                        #[trigger] scores[j],
                    ) by {
                        lemma_exceeds_chain(last, scores[p], scores[j]);
                    }
                    match floor {
                        Some(f) => {
                            lemma_exceeds_chain(last, scores[p], f);
                        },
                        None => {},
                    }
                }
            },
            None => {
                if last.beats(floor) {
                    match floor {
                        Some(f) => {
                            assert forall|j: int| 0 <= j < n - 1 implies last.exceeds(
                                #[trigger] scores[j],
                            ) by {
                                assert(!scores[j].beats(floor));
                                lemma_exceeds_chain(last, f, scores[j]);
                            }
                        },
                        None => {
                            if n > 1 {
                                assert(scores[0].beats(floor));
                            }
                        },
                    }
                }
            },
        }
    }
}

/// What `pick_best` finds, where every chance is a number: the first of
/// the chances that beats `floor` and is exceeded by none.
pub proof fn lemma_best_index(scores: Seq<Estimate>, floor: Option<Estimate>)
    requires
        forall|j: int| 0 <= j < scores.len() ==> (#[trigger] scores[j]).trials > 0,
        floor matches Some(f) ==> f.trials > 0,
    ensures
        match best_index(scores, floor) {
            Some(k) => {
                &&& 0 <= k < scores.len()
                &&& scores[k].beats(floor)
                &&& forall|j: int| 0 <= j < scores.len() ==> !(#[trigger] scores[j]).exceeds(scores[k])
                &&& forall|j: int| 0 <= j < k ==> scores[k].exceeds(#[trigger] scores[j])
            },
            None => forall|j: int| 0 <= j < scores.len() ==> !(#[trigger] scores[j]).beats(floor),
        },
{
    lemma_best_upto(scores, floor, scores.len());
}

} // verus!
