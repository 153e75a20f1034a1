use vstd::prelude::*;

verus! {

/// Scale of all fixed-point quantities: a weight, a threshold or a similarity
/// of 1.0 is represented by `SCALE`. Penalties accumulated during a search are
/// held in units of `1/(SCALE*SCALE)` so that a substitution cost
/// `penalty * (SCALE - sim)` needs no division.
pub const SCALE: u32 = 100;

/// `SCALE * SCALE`: one whole unit of penalty, in accumulator units.
pub const SCALE_SQ: u64 = 10000;

/// `SCALE * SCALE * SCALE`: the denominator unit of a similarity score.
pub const SCALE_CUBE: u64 = 1000000;

/// Largest pattern length in graphemes that the engine accepts; keeps every
/// score comparison inside `u128`.
pub const MAX_GRAPHEMES: usize = 256;

/// Largest pattern length in bytes that the engine accepts.
pub const MAX_PATTERN_BYTES: usize = 4096;

/// Largest value a single edit-penalty weight may take (100.0 at scale 100).
pub const MAX_PENALTY: u32 = 10000;

/// Largest value an edit limit may take.
pub const MAX_EDIT_LIMIT: usize = 1000000;

/// Largest denominator a well-formed score can have:
/// `MAX_GRAPHEMES * SCALE_CUBE` rounded up to a power of two (2^28).
pub const MAX_SCORE_DEN: u64 = 0x10000000;

/// A similarity score: the exact rational `num / den`, with
/// `num = (L*SCALE_SQ - penalty) * weight` and `den = L * SCALE_CUBE`
/// for a pattern of `L` graphemes. Always in `[0, 1]`.
#[derive(Clone, Copy, Debug, PartialEq, Eq, Structural)]
pub struct Score {
    pub num: u64,
    pub den: u64,
}

impl Score {
    /// Well-formed scores have a positive denominator bounded by
    /// `MAX_SCORE_DEN`, and value at most 1.
    pub open spec fn wf(self) -> bool {
        0 < self.den <= MAX_SCORE_DEN && self.num <= self.den
    }

    /// `self <= other`, as exact rationals.
    pub open spec fn spec_le(self, other: Score) -> bool {
        self.num * other.den <= other.num * self.den
    }

    /// `self < other`, as exact rationals.
    pub open spec fn spec_lt(self, other: Score) -> bool {
        self.num * other.den < other.num * self.den
    }

    /// Exact strict comparison of two well-formed scores.
    pub fn lt(&self, other: &Score) -> (r: bool)
        requires
            self.wf(),
            other.wf(),
        ensures
            r == self.spec_lt(*other),
    {
        proof {
            lemma_mul_bound(self.num as int, other.den as int, MAX_SCORE_DEN as int);
            lemma_mul_bound(other.num as int, self.den as int, MAX_SCORE_DEN as int);
        }
        self.num * other.den < other.num * self.den
    }

    /// `self >= t / SCALE` for a fixed-point threshold `t`.
    pub open spec fn spec_at_least(self, t: int) -> bool {
        self.num * SCALE >= t * self.den
    }

    /// Exact comparison of two well-formed scores.
    pub fn le(&self, other: &Score) -> (r: bool)
        requires
            self.wf(),
            other.wf(),
        ensures
            r == self.spec_le(*other),
    {
        proof {
            lemma_mul_bound(self.num as int, other.den as int, MAX_SCORE_DEN as int);
            lemma_mul_bound(other.num as int, self.den as int, MAX_SCORE_DEN as int);
        }
        self.num * other.den <= other.num * self.den
    }

    /// Whether the score reaches the fixed-point threshold `t`.
    pub fn at_least(&self, t: u32) -> (r: bool)
        requires
            self.wf(),
            t <= SCALE,
        ensures
            r == self.spec_at_least(t as int),
    {
        proof {
            lemma_mul_bound(self.num as int, SCALE as int, MAX_SCORE_DEN as int);
            lemma_mul_bound(t as int, self.den as int, SCALE as int);
        }
        self.num * (SCALE as u64) >= (t as u64) * self.den
    }

    /// Whether this score is exactly 1.
    pub fn is_one(&self) -> (r: bool)
        requires
            self.wf(),
        ensures
            r == (self.num == self.den),
    {
        self.num == self.den
    }
}

/// `a * b <= abound * bbound` when the factors are bounded; used to show that
/// cross-multiplied score comparisons stay inside `u64`/`u128`.
pub proof fn lemma_mul_bound(a: int, b: int, abound: int)
    requires
        0 <= a <= abound,
        0 <= b,
    ensures
        a * b <= abound * b,
        b * a <= b * abound,
    decreases 0int,
{
    assert(a * b <= abound * b) by (nonlinear_arith)
        requires
            0 <= a <= abound,
            0 <= b,
    ;
    assert(a * b == b * a) by (nonlinear_arith);
    assert(abound * b == b * abound) by (nonlinear_arith);
}

/// Builds the similarity score of a match: pattern length `len` (graphemes),
/// pattern weight `weight`, accumulated penalty `penalty`.
pub fn score_of(len: usize, weight: u32, penalty: u64) -> (r: Score)
    requires
        1 <= len <= MAX_GRAPHEMES,
        1 <= weight <= SCALE,
        penalty <= len * SCALE_SQ,
    ensures
        r.num == (len * SCALE_SQ - penalty) * weight,
        r.den == len * SCALE_CUBE,
        r.wf(),
{
    proof {
        lemma_mul_bound(len as int, SCALE_SQ as int, MAX_GRAPHEMES as int);
        lemma_mul_bound((len * SCALE_SQ - penalty) as int, weight as int, (MAX_GRAPHEMES * SCALE_SQ) as int);
        lemma_mul_bound(len as int, SCALE_CUBE as int, MAX_GRAPHEMES as int);
        lemma_mul_bound((len * SCALE_SQ - penalty) as int, SCALE as int, len * SCALE_SQ);
        assert((len * SCALE_SQ) * SCALE == len * SCALE_CUBE) by (nonlinear_arith);
    }
    let num: u64 = ((len as u64) * SCALE_SQ - penalty) * (weight as u64);
    let den: u64 = (len as u64) * SCALE_CUBE;
    assert(num <= den) by {
        lemma_mul_bound(weight as int, (len * SCALE_SQ - penalty) as int, SCALE as int);
        assert(num == (len * SCALE_SQ - penalty) * weight);
        assert((len * SCALE_SQ - penalty) * weight == weight * ((len * SCALE_SQ - penalty) as int))
            by (nonlinear_arith);
        assert(SCALE * ((len * SCALE_SQ - penalty) as int) <= SCALE * (len * SCALE_SQ)) by (nonlinear_arith)
            requires
                penalty >= 0,
        ;
        assert(SCALE * (len * SCALE_SQ) == len * SCALE_CUBE) by (nonlinear_arith);
    }
    Score { num, den }
}

} // verus!
