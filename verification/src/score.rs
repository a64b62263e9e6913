//! Fixed-point scores and the rank that combines confidence with trust.

use vstd::prelude::*;

verus! {

/// Number of score units that stand for the value one.
pub const SCORE_SCALE: u32 = 1_000_000;

/// A value between zero and one, held in millionths.
#[derive(Clone, Copy, Debug, PartialEq, Eq, Structural)]
pub struct Score {
    millionths: u32,
}

impl View for Score {
    type V = nat;

    closed spec fn view(&self) -> nat {
        self.millionths as nat
    }
}

impl Score {
    #[verifier::type_invariant]
    spec fn in_range(self) -> bool {
        self.millionths <= SCORE_SCALE
    }

    /// The score of `millionths` units, or `None` above one.
    pub fn new(millionths: u32) -> (r: Option<Score>)
        ensures
            millionths <= SCORE_SCALE ==> r.is_some() && r.unwrap()@ == millionths,
            millionths > SCORE_SCALE ==> r.is_none(),
    {
        if millionths <= SCORE_SCALE {
            Some(Score { millionths })
        } else {
            None
        }
    }

    /// The score of `millionths` units, capped at one.
    pub fn saturating(millionths: u32) -> (r: Score)
        ensures
            r@ == if millionths <= SCORE_SCALE { millionths } else { SCORE_SCALE },
    {
        if millionths <= SCORE_SCALE {
            Score { millionths }
        } else {
            Score { millionths: SCORE_SCALE }
        }
    }

    /// The score zero.
    pub fn zero() -> (r: Score)
        ensures
            r@ == 0,
    {
        Score { millionths: 0 }
    }

    /// The score one.
    pub fn one() -> (r: Score)
        ensures
            r@ == SCORE_SCALE,
    {
        Score { millionths: SCORE_SCALE }
    }

    /// The score one half.
    pub fn half() -> (r: Score)
        ensures
            r@ == 500_000,
    {
        Score { millionths: 500_000 }
    }

    /// The smaller of two scores.
    pub fn min(self, other: Score) -> (r: Score)
        ensures
            r@ == if self@ <= other@ { self@ } else { other@ },
    {
        if self.millionths <= other.millionths {
            self
        } else {
            other
        }
    }

    /// The number of millionths this score holds.
    pub fn millionths(&self) -> (r: u32)
        ensures
            r == self@,
            r <= SCORE_SCALE,
    {
        proof {
            use_type_invariant(self);
        }
        self.millionths
    }
}

/// Weights of the two axes in the combined rank.
#[derive(Clone, Copy, Debug, PartialEq, Eq, Structural)]
pub struct ScoringWeights {
    pub confidence_weight: u32,
    pub trust_weight: u32,
}

impl ScoringWeights {
    /// Both axes weigh the same.
    pub fn balanced() -> (w: ScoringWeights)
        ensures
            w.confidence_weight == 1,
            w.trust_weight == 1,
    {
        ScoringWeights { confidence_weight: 1, trust_weight: 1 }
    }
}

/// The weighted sum of confidence and trust, each counted once.
pub open spec fn rank_of(confidence: int, trust: int, w: ScoringWeights) -> int {
    w.confidence_weight * confidence + w.trust_weight * trust
}

/// Combines a match's confidence with its source's trust into one rank.
pub fn rank(confidence: Score, trust: Score, w: &ScoringWeights) -> (r: u64)
    ensures
        r == rank_of(confidence@ as int, trust@ as int, *w),
{
    let c: u64 = confidence.millionths() as u64;
    let t: u64 = trust.millionths() as u64;
    let wc: u64 = w.confidence_weight as u64;
    let wt: u64 = w.trust_weight as u64;
    assert(wc * c <= 0xffff_ffff * 1_000_000) by (nonlinear_arith)
        requires
            wc <= 0xffff_ffff,
            c <= 1_000_000,
    ;
    assert(wt * t <= 0xffff_ffff * 1_000_000) by (nonlinear_arith)
        requires
            wt <= 0xffff_ffff,
            t <= 1_000_000,
    ;
    wc * c + wt * t
}

/// Raising the confidence, with trust and weights fixed, never lowers the rank.
pub proof fn lemma_rank_monotonic_in_confidence(c1: int, c2: int, trust: int, w: ScoringWeights)
    requires
        c1 <= c2,
    ensures
        rank_of(c1, trust, w) <= rank_of(c2, trust, w),
{
    let wc = w.confidence_weight as int;
    assert(wc * c1 <= wc * c2) by (nonlinear_arith)
        requires
            0 <= wc,
            c1 <= c2,
    ;
}

/// Raising the trust, with confidence and weights fixed, never lowers the rank.
pub proof fn lemma_rank_monotonic_in_trust(confidence: int, t1: int, t2: int, w: ScoringWeights)
    requires
        t1 <= t2,
    ensures
        rank_of(confidence, t1, w) <= rank_of(confidence, t2, w),
{
    let wt = w.trust_weight as int;
    assert(wt * t1 <= wt * t2) by (nonlinear_arith)
        requires
            0 <= wt,
            t1 <= t2,
    ;
}

} // verus!
