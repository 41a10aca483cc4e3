use vstd::prelude::*;
use crate::rgb::sRGB;
use crate::selection::{Candidate, maximin_key, min_key};

verus! {

/// What one round of palette construction did.
#[derive(Clone, Copy, Debug, PartialEq, Eq, Structural)]
pub enum Step {
    /// The round's winner was appended.
    Added(Candidate),
    /// The requested number of colors had already been added.
    Complete,
    /// The round found no candidate: the palette cannot be extended.
    Exhausted,
}

/// An ordered, append-only palette: the seed colors first, then one color
/// for each successful round, up to a requested number of additions.
pub struct Palette {
    colors: Vec<sRGB>,
    n_seeds: usize,
    requested: usize,
    exhausted: bool,
}

impl View for Palette {
    type V = Seq<sRGB>;

    closed spec fn view(&self) -> Seq<sRGB> {
        self.colors@
    }
}

impl Palette {
    #[verifier::type_invariant]
    spec fn well_formed(self) -> bool {
        &&& self.n_seeds <= self.colors@.len()
        &&& self.colors@.len() - self.n_seeds <= self.requested
    }

    /// How many of the colors are seeds.
    pub closed spec fn seed_count(self) -> nat {
        self.n_seeds as nat
    }

    /// How many colors construction should add after the seeds.
    pub closed spec fn requested_count(self) -> nat {
        self.requested as nat
    }

    /// A round has found no candidate.
    pub closed spec fn is_exhausted(self) -> bool {
        self.exhausted
    }

    /// How many colors have been added after the seeds.
    pub open spec fn added_count(self) -> int {
        self@.len() - self.seed_count()
    }

    /// No further round will add a color.
    pub open spec fn is_finished(self) -> bool {
        self.added_count() >= self.requested_count() || self.is_exhausted()
    }

    /// A palette holding `seeds`, to which `requested` colors are to be added.
    pub fn new(seeds: Vec<sRGB>, requested: usize) -> (p: Palette)
        ensures
            p@ == seeds@,
            p.seed_count() == seeds@.len(),
            p.requested_count() == requested,
            !p.is_exhausted(),
    {
        let n_seeds = seeds.len();
        Palette { colors: seeds, n_seeds, requested, exhausted: false }
    }

    /// The colors, seeds first, then the added ones in the order they won.
    pub fn colors(&self) -> (v: &Vec<sRGB>)
        ensures
            v@ == self@,
    {
        &self.colors
    }

    /// How many colors have been added after the seeds.
    pub fn added(&self) -> (n: usize)
        ensures
            n == self.added_count(),
            n <= self.requested_count(),
    {
        proof {
            use_type_invariant(self);
        }
        self.colors.len() - self.n_seeds
    }

    /// Whether no further round will add a color.
    pub fn finished(&self) -> (f: bool)
        ensures
            f == self.is_finished(),
    {
        proof {
            use_type_invariant(self);
        }
        self.exhausted || self.colors.len() - self.n_seeds >= self.requested
    }

    /// Whether `c` may still be chosen: it is not in the palette yet.
    pub fn admits(&self, c: sRGB) -> (ok: bool)
        ensures
            ok == !self@.contains(c),
    {
        let mut i: usize = 0;
        while i < self.colors.len()
            invariant
                i <= self@.len(),
                self@ == self.colors@,
                forall|j: int| 0 <= j < i ==> self@[j] != c,
            decreases self@.len() - i,
        {
            if self.colors[i] == c {
                return false;
            }
            i = i + 1;
        }
        true
    }

    /// Scores `c` for the next round from `keys`, the order keys of its
    /// distances to the colors of the palette: its maximin key, or `None`
    /// when `c` is already in the palette and so cannot be chosen again.
    pub fn candidate(&self, c: sRGB, keys: &Vec<u64>) -> (r: Option<Candidate>)
        ensures
            self@.contains(c) ==> r.is_none(),
            !self@.contains(c) ==> r == Some(Candidate { color: c, key: min_key(keys@) }),
    {
        if self.admits(c) {
            Some(Candidate { color: c, key: maximin_key(keys) })
        } else {
            None
        }
    }

    /// Ends a round whose scan produced `winner`: appends the winner, or
    /// records that the palette cannot be extended when there is none.
    pub fn advance(&mut self, winner: Option<Candidate>) -> (s: Step)
        ensures
            final(self).seed_count() == old(self).seed_count(),
            final(self).requested_count() == old(self).requested_count(),
            old(self).is_finished() ==> s == Step::Complete && final(self)@ == old(self)@
                && final(self).is_exhausted() == old(self).is_exhausted(),
            !old(self).is_finished() && winner.is_none() ==> s == Step::Exhausted && final(self)@
                == old(self)@ && final(self).is_exhausted(),
            !old(self).is_finished() && winner.is_some() ==> s == Step::Added(winner.unwrap())
                && final(self)@ == old(self)@.push(winner.unwrap().color) && !final(self).is_exhausted(),
    {
        proof {
            use_type_invariant(&*self);
        }
        if self.exhausted || self.colors.len() - self.n_seeds >= self.requested {
            return Step::Complete;
        }
        match winner {
            None => {
                self.exhausted = true;
                Step::Exhausted
            },
            Some(c) => {
                let mut colors = self.colors.clone();
                proof {
                    assert(colors@ =~= self.colors@);
                }
                colors.push(c.color);
                *self = Palette {
                    colors,
                    n_seeds: self.n_seeds,
                    requested: self.requested,
                    exhausted: false,
                };
                Step::Added(c)
            },
        }
    }
}

} // verus!
