use vstd::prelude::*;
use crate::rgb::{sRGB, index_of, color_at, lemma_enumeration_bijective};

verus! {

/// Which end of the distance scale a scan is looking for.
#[derive(Clone, Copy, Debug, PartialEq, Eq, Structural)]
pub enum Goal {
    /// The candidate with the largest key (a maximin or contrast search).
    Farthest,
    /// The candidate with the smallest key (a nearest-color search).
    Nearest,
}

/// A color together with the order key of its score.
///
/// Keys compare as the distances they stand for: a caller that scores in
/// floating point passes the bit pattern of a non-negative distance, whose
/// unsigned order is the order of the distances.
#[derive(Clone, Copy, Debug, PartialEq, Eq, Structural)]
pub struct Candidate {
    pub color: sRGB,
    pub key: u64,
}

/// `x` is preferred to `y` under `goal`: a better key wins, and between
/// equal keys the color that comes first in the gamut wins.
pub open spec fn outranks(goal: Goal, x: Candidate, y: Candidate) -> bool {
    match goal {
        Goal::Farthest => x.key > y.key || (x.key == y.key && index_of(x.color) < index_of(y.color)),
        Goal::Nearest => x.key < y.key || (x.key == y.key && index_of(x.color) < index_of(y.color)),
    }
}

/// The record after `c` has been offered to a record holding `cur`.
pub open spec fn pick(goal: Goal, cur: Option<Candidate>, c: Candidate) -> Option<Candidate> {
    match cur {
        None => Some(c),
        Some(b) => if outranks(goal, c, b) {
            Some(c)
        } else {
            Some(b)
        },
    }
}

/// Two records combined into one.
pub open spec fn join(goal: Goal, x: Option<Candidate>, y: Option<Candidate>) -> Option<Candidate> {
    match y {
        None => x,
        Some(c) => pick(goal, x, c),
    }
}

/// The winner of a scan over `s`, or `None` when `s` is empty.
pub open spec fn best_of(goal: Goal, s: Seq<Candidate>) -> Option<Candidate>
    decreases s.len(),
{
    if s.len() == 0 {
        None
    } else {
        pick(goal, best_of(goal, s.drop_last()), s.last())
    }
}

/// `b` is in `s` and is preferred to every other member of `s`.
pub open spec fn is_best_in(goal: Goal, b: Candidate, s: Seq<Candidate>) -> bool {
    &&& s.contains(b)
    &&& forall|i: int| 0 <= i < s.len() && s[i] != b ==> outranks(goal, b, #[trigger] s[i])
}

/// The smallest key of `s`, or `u64::MAX` when `s` is empty.
pub open spec fn min_key(s: Seq<u64>) -> u64
    decreases s.len(),
{
    if s.len() == 0 {
        u64::MAX
    } else {
        let m = min_key(s.drop_last());
        if s.last() < m {
            s.last()
        } else {
            m
        }
    }
}

/// The preference between candidates is a strict total order: never
/// reflexive, never both ways, transitive, and it decides between any two
/// different candidates.
pub proof fn lemma_outranks_strict_total(goal: Goal, x: Candidate, y: Candidate, z: Candidate)
    ensures
        !outranks(goal, x, x),
        outranks(goal, x, y) ==> !outranks(goal, y, x),
        outranks(goal, x, y) && outranks(goal, y, z) ==> outranks(goal, x, z),
        x != y ==> outranks(goal, x, y) || outranks(goal, y, x),
{
    lemma_enumeration_bijective(x.color, 0);
    lemma_enumeration_bijective(y.color, 0);
}

/// A scan finds a winner exactly when it saw a candidate, and the winner is
/// one of the candidates, preferred to all the others: under `Farthest` no
/// candidate has a larger key, under `Nearest` none has a smaller one.
pub proof fn lemma_best_is_extreme(goal: Goal, s: Seq<Candidate>)
    ensures
        best_of(goal, s).is_none() <==> s.len() == 0,
        best_of(goal, s) matches Some(b) ==> {
            &&& is_best_in(goal, b, s)
            &&& goal == Goal::Farthest ==> forall|i: int| 0 <= i < s.len() ==> (#[trigger] s[i]).key <= b.key
            &&& goal == Goal::Nearest ==> forall|i: int| 0 <= i < s.len() ==> b.key <= (#[trigger] s[i]).key
        },
    decreases s.len(),
{
    if s.len() > 0 {
        let p = s.drop_last();
        lemma_best_is_extreme(goal, p);
        let c = s.last();
        let b = best_of(goal, s).unwrap();
        assert(s =~= p.push(c));
        assert forall|i: int| 0 <= i < s.len() && s[i] != b implies outranks(goal, b, #[trigger] s[i]) by {
            lemma_outranks_strict_total(goal, b, s[i], c);
            if i < p.len() {
                assert(s[i] == p[i]);
                let bp = best_of(goal, p).unwrap();
                lemma_outranks_strict_total(goal, b, bp, s[i]);
                lemma_outranks_strict_total(goal, c, bp, s[i]);
            }
        }
        if p.len() > 0 {
            let bp = best_of(goal, p).unwrap();
            assert(p.contains(bp));
            let k = choose|k: int| 0 <= k < p.len() && p[k] == bp;
            assert(s[k] == bp);
        } else {
            assert(s[s.len() - 1] == c);
        }
        assert(s.contains(b));
    }
}

/// Two candidates that are each the best of the same sequence are the same.
pub proof fn lemma_best_unique(goal: Goal, b1: Candidate, b2: Candidate, s: Seq<Candidate>)
    requires
        is_best_in(goal, b1, s),
        is_best_in(goal, b2, s),
    ensures
        b1 == b2,
{
    if b1 != b2 {
        let i = choose|i: int| 0 <= i < s.len() && s[i] == b2;
        let j = choose|j: int| 0 <= j < s.len() && s[j] == b1;
        assert(outranks(goal, b1, s[i]));
        assert(outranks(goal, b2, s[j]));
        lemma_outranks_strict_total(goal, b1, b2, b1);
    }
}

/// The winner of a scan depends only on which candidates were seen, not on
/// the order in which they were visited nor on how often each was seen.
pub proof fn lemma_scan_order_irrelevant(goal: Goal, s: Seq<Candidate>, t: Seq<Candidate>)
    requires
        forall|x: Candidate| s.contains(x) <==> t.contains(x),
    ensures
        best_of(goal, s) == best_of(goal, t),
{
    lemma_best_is_extreme(goal, s);
    lemma_best_is_extreme(goal, t);
    if s.len() == 0 && t.len() > 0 {
        assert(t.contains(t[0]));
    } else if s.len() > 0 && t.len() == 0 {
        assert(s.contains(s[0]));
    } else if s.len() > 0 {
        let bs = best_of(goal, s).unwrap();
        let bt = best_of(goal, t).unwrap();
        assert forall|i: int| 0 <= i < t.len() && t[i] != bs implies outranks(goal, bs, #[trigger] t[i]) by {
            assert(t.contains(t[i]));
            let j = choose|j: int| 0 <= j < s.len() && s[j] == t[i];
            assert(outranks(goal, bs, s[j]));
        }
        assert(t.contains(bs));
        lemma_best_unique(goal, bs, bt, t);
    }
}

/// Scanning two parts separately and merging the two records gives the
/// winner of a scan over both parts.
pub proof fn lemma_merge_is_concat(goal: Goal, s: Seq<Candidate>, t: Seq<Candidate>)
    ensures
        join(goal, best_of(goal, s), best_of(goal, t)) == best_of(goal, s + t),
{
    let u = s + t;
    lemma_best_is_extreme(goal, s);
    lemma_best_is_extreme(goal, t);
    lemma_best_is_extreme(goal, u);
    if t.len() == 0 {
        assert(u =~= s);
    } else if s.len() == 0 {
        assert(u =~= t);
    } else {
        let bs = best_of(goal, s).unwrap();
        let bt = best_of(goal, t).unwrap();
        let j = join(goal, Some(bs), Some(bt)).unwrap();
        assert forall|i: int| 0 <= i < u.len() && u[i] != j implies outranks(goal, j, #[trigger] u[i]) by {
            lemma_outranks_strict_total(goal, j, bs, u[i]);
            lemma_outranks_strict_total(goal, j, bt, u[i]);
            lemma_outranks_strict_total(goal, bs, bt, u[i]);
            if i < s.len() {
                assert(u[i] == s[i]);
            } else {
                assert(u[i] == t[i - s.len()]);
            }
        }
        let ks = choose|k: int| 0 <= k < s.len() && s[k] == bs;
        let kt = choose|k: int| 0 <= k < t.len() && t[k] == bt;
        assert(u[ks] == bs);
        assert(u[s.len() + kt] == bt);
        assert(u.contains(j));
        lemma_best_unique(goal, j, best_of(goal, u).unwrap(), u);
    }
}

/// The running winner of a scan: the single record that every offer reads,
/// compares and conditionally replaces in one step.
#[derive(Clone, Copy, Debug, PartialEq, Eq, Structural)]
pub struct Best {
    pub goal: Goal,
    pub found: Option<Candidate>,
}

impl Best {
    /// A record that has seen no candidate.
    pub fn new(goal: Goal) -> (r: Best)
        ensures
            r.goal == goal,
            r.found.is_none(),
    {
        Best { goal, found: None }
    }

    /// Offers `c`; the record keeps whichever of the two is preferred.
    pub fn offer(&mut self, c: Candidate)
        ensures
            final(self).goal == old(self).goal,
            final(self).found == pick(old(self).goal, old(self).found, c),
    {
        match self.found {
            None => {
                self.found = Some(c);
            },
            Some(b) => {
                if prefers(self.goal, c, b) {
                    self.found = Some(c);
                }
            },
        }
    }

    /// Combines the records of two parts of a scan.
    pub fn merge(self, other: Best) -> (r: Best)
        requires
            self.goal == other.goal,
        ensures
            r.goal == self.goal,
            r.found == join(self.goal, self.found, other.found),
    {
        let mut r = self;
        match other.found {
            None => {},
            Some(c) => {
                r.offer(c);
            },
        }
        r
    }
}

/// Decides `outranks(goal, x, y)`.
pub fn prefers(goal: Goal, x: Candidate, y: Candidate) -> (r: bool)
    ensures
        r == outranks(goal, x, y),
{
    let better = match goal {
        Goal::Farthest => x.key > y.key,
        Goal::Nearest => x.key < y.key,
    };
    better || (x.key == y.key && x.color.index() < y.color.index())
}

/// The winner of a scan over `cands`, visited in order.
pub fn best_among(goal: Goal, cands: &Vec<Candidate>) -> (r: Option<Candidate>)
    ensures
        r == best_of(goal, cands@),
{
    let mut best = Best::new(goal);
    let mut i: usize = 0;
    while i < cands.len()
        invariant
            i <= cands@.len(),
            best.goal == goal,
            best.found == best_of(goal, cands@.subrange(0, i as int)),
        decreases cands@.len() - i,
    {
        proof {
            let s = cands@.subrange(0, i as int + 1);
            assert(s.drop_last() =~= cands@.subrange(0, i as int));
        }
        best.offer(cands[i]);
        i = i + 1;
    }
    proof {
        assert(cands@.subrange(0, i as int) =~= cands@);
    }
    best.found
}

/// The maximin score of a candidate: the smallest of its distance keys to
/// the colors already chosen (`u64::MAX` when there are none).
pub fn maximin_key(keys: &Vec<u64>) -> (m: u64)
    ensures
        m == min_key(keys@),
{
    let mut m: u64 = u64::MAX;
    let mut i: usize = 0;
    while i < keys.len()
        invariant
            i <= keys@.len(),
            m == min_key(keys@.subrange(0, i as int)),
        decreases keys@.len() - i,
    {
        proof {
            let s = keys@.subrange(0, i as int + 1);
            assert(s.drop_last() =~= keys@.subrange(0, i as int));
        }
        if keys[i] < m {
            m = keys[i];
        }
        i = i + 1;
    }
    proof {
        assert(keys@.subrange(0, i as int) =~= keys@);
    }
    m
}

} // verus!
