use vstd::prelude::*;
use vstd::arithmetic::power2::{pow2, lemma_pow2_unfold, lemma_pow2_pos, lemma2_to64, lemma2_to64_rest};

verus! {

/// Multipliers are handled as numerators over `UNIT` = 2^50: `UNIT` stands
/// for the multiplier 1.0, and each step of a search from `UNIT` halves an
/// interval that stays exactly representable in double precision.
pub const UNIT: u64 = 1125899906842624;

/// The multiplier tried next when the search interval is `[lo, hi]`.
pub open spec fn midpoint(lo: int, hi: int) -> int {
    lo + (hi - lo) / 2
}

/// Where a search on `[lo, hi]` ends when exactly the multipliers up to
/// `t` fit.
pub open spec fn settle(lo: int, hi: int, t: int) -> int
    decreases hi - lo,
{
    if hi - lo <= 1 {
        lo
    } else if midpoint(lo, hi) <= t {
        settle(midpoint(lo, hi), hi, t)
    } else {
        settle(lo, midpoint(lo, hi), t)
    }
}

/// How many multipliers such a search tries.
pub open spec fn rounds(lo: int, hi: int, t: int) -> nat
    decreases hi - lo,
{
    if hi - lo <= 1 {
        0
    } else if midpoint(lo, hi) <= t {
        1 + rounds(midpoint(lo, hi), hi, t)
    } else {
        1 + rounds(lo, midpoint(lo, hi), t)
    }
}

/// A bisection for the largest multiplier that still fits: the lower end
/// of the interval is a multiplier known (or taken) to fit, the upper end
/// one known (or taken) not to.
pub struct Bisection {
    lo: u64,
    hi: u64,
}

impl Bisection {
    #[verifier::type_invariant]
    spec fn well_formed(self) -> bool {
        self.lo < self.hi
    }

    /// The lower end of the search interval.
    pub closed spec fn low(self) -> int {
        self.lo as int
    }

    /// The upper end of the search interval.
    pub closed spec fn high(self) -> int {
        self.hi as int
    }

    /// A search over the multipliers `0 ..= upper` (in units of `UNIT`);
    /// with `upper == UNIT` the first multiplier tried is one half.
    pub fn new(upper: u64) -> (s: Bisection)
        requires
            upper > 0,
        ensures
            s.low() == 0,
            s.high() == upper,
    {
        Bisection { lo: 0, hi: upper }
    }

    /// Whether the interval can no longer be split.
    pub fn finished(&self) -> (f: bool)
        ensures
            f == (self.high() - self.low() <= 1),
    {
        proof {
            use_type_invariant(self);
        }
        self.hi - self.lo <= 1
    }

    /// The multiplier to test next.
    pub fn candidate(&self) -> (m: u64)
        ensures
            m == midpoint(self.low(), self.high()),
    {
        proof {
            use_type_invariant(self);
        }
        self.lo + (self.hi - self.lo) / 2
    }

    /// Records whether the candidate fitted and moves the matching end of the
    /// interval onto it; a finished search is left as it is.
    pub fn record(&mut self, fits: bool)
        ensures
            old(self).high() - old(self).low() <= 1 ==> *final(self) == *old(self),
            old(self).high() - old(self).low() > 1 && fits ==> final(self).low() == midpoint(
                old(self).low(),
                old(self).high(),
            ) && final(self).high() == old(self).high(),
            old(self).high() - old(self).low() > 1 && !fits ==> final(self).low() == old(self).low()
                && final(self).high() == midpoint(old(self).low(), old(self).high()),
    {
        proof {
            use_type_invariant(&*self);
        }
        if self.hi - self.lo > 1 {
            let mid = self.lo + (self.hi - self.lo) / 2;
            if fits {
                self.lo = mid;
            } else {
                self.hi = mid;
            }
        }
    }

    /// The largest multiplier found to fit.
    pub fn result(&self) -> (m: u64)
        ensures
            m == self.low(),
    {
        self.lo
    }
}

/// When exactly the multipliers up to `t` fit and the lower end fits, the
/// search ends on the largest fitting multiplier below the upper end.
pub proof fn lemma_bisection_finds_threshold(lo: int, hi: int, t: int)
    requires
        lo < hi,
        lo <= t,
    ensures
        settle(lo, hi, t) == if t < hi - 1 { t } else { hi - 1 },
    decreases hi - lo,
{
    if hi - lo > 1 {
        let m = midpoint(lo, hi);
        if m <= t {
            lemma_bisection_finds_threshold(m, hi, t);
        } else {
            lemma_bisection_finds_threshold(lo, m, t);
        }
    }
}

proof fn lemma_rounds_pow2(lo: int, k: nat, t: int)
    ensures
        rounds(lo, lo + pow2(k), t) == k,
    decreases k,
{
    if k == 0 {
        lemma2_to64();
    } else {
        lemma_pow2_unfold(k);
        lemma_pow2_pos((k - 1) as nat);
        let h = pow2((k - 1) as nat) as int;
        assert(midpoint(lo, lo + pow2(k)) == lo + h);
        lemma_rounds_pow2(lo, (k - 1) as nat, t);
        lemma_rounds_pow2(lo + h, (k - 1) as nat, t);
        assert(lo + h + h == lo + pow2(k));
    }
}

/// On an interval of width 2^k a search tries exactly `k` multipliers,
/// whichever of them fit; from `UNIT` that is fifty.
pub proof fn lemma_bisection_rounds(lo: int, k: nat, t: int)
    ensures
        rounds(lo, lo + pow2(k), t) == k,
        rounds(0, UNIT as int, t) == 50,
{
    lemma_rounds_pow2(lo, k, t);
    lemma_rounds_pow2(0, 50, t);
    lemma2_to64_rest();
}

} // verus!
