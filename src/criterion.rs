use vstd::prelude::*;
use crate::ratings::best_of;

verus! {

/// Decides, once per generation, whether the search should stop.
///
/// A criterion may keep state between calls: `decides` relates the state
/// before a call, the ratings it was given, the state after it and its answer.
pub trait Criterion: Sized {
    spec fn decides(self, ratings: Seq<u64>, next: Self, stop: bool) -> bool;

    /// Consulted with the ratings of a whole population.
    fn criterion(&mut self, ratings: &Vec<u64>) -> (stop: bool)
        ensures
            Self::decides(*old(self), ratings@, *final(self), stop),
    ;
}

/// Some rating of `r` reaches `mark`.
pub open spec fn reaches(r: Seq<u64>, mark: u64) -> bool {
    exists|i: int| 0 <= i < r.len() && r[i] >= mark
}

/// Stops once any rating reaches or exceeds `max_rating`.
pub struct Mark {
    pub max_rating: u64,
}

impl Criterion for Mark {
    open spec fn decides(self, ratings: Seq<u64>, next: Self, stop: bool) -> bool {
        next == self && stop == reaches(ratings, self.max_rating)
    }

    fn criterion(&mut self, ratings: &Vec<u64>) -> (stop: bool) {
        let mut i: usize = 0;
        while i < ratings.len()
            invariant
                0 <= i <= ratings.len(),
                forall|j: int| 0 <= j < i ==> ratings@[j] < self.max_rating,
            decreases ratings.len() - i,
        {
            if ratings[i] >= self.max_rating {
                return true;
            }
            i += 1;
        }
        false
    }
}

/// Stops once the best rating has stayed the same for `max_iterations`
/// consecutive calls.
pub struct Plateau {
    pub max_iterations: usize,
    iterations: usize,
    prev_rating: u64,
}

impl Plateau {
    pub fn new(max_iterations: usize) -> (r: Self)
        ensures
            r.limit() == max_iterations,
            r.stagnation() == 0,
            r.previous_best() == 0,
    {
        Plateau { max_iterations, iterations: 0, prev_rating: 0 }
    }

    /// The number of unchanged best ratings at which it stops.
    pub closed spec fn limit(self) -> nat {
        self.max_iterations as nat
    }

    /// How many calls in a row have seen the same best rating as the call
    /// before (counted up to `usize::MAX`).
    pub closed spec fn stagnation(self) -> nat {
        self.iterations as nat
    }

    /// The best rating seen by the previous call (0 before the first, and for
    /// an empty population).
    pub closed spec fn previous_best(self) -> u64 {
        self.prev_rating
    }
}

impl Default for Plateau {
    fn default() -> (r: Self)
        ensures
            r.limit() == 0,
            r.stagnation() == 0,
            r.previous_best() == 0,
    {
        Plateau::new(0)
    }
}

impl Criterion for Plateau {
    open spec fn decides(self, ratings: Seq<u64>, next: Self, stop: bool) -> bool {
        let best = crate::ratings::max_rating(ratings);
        let count: nat = if best != self.previous_best() {
            0
        } else if self.stagnation() < usize::MAX {
            self.stagnation() + 1
        } else {
            self.stagnation()
        };
        &&& next.limit() == self.limit()
        &&& next.previous_best() == best
        &&& next.stagnation() == count
        &&& stop == (self.limit() <= count)
    }

    fn criterion(&mut self, ratings: &Vec<u64>) -> (stop: bool) {
        let max = if ratings.len() == 0 {
            0
        } else {
            best_of(ratings).1
        };
        if self.prev_rating != max {
            self.prev_rating = max;
            self.iterations = 0;
        } else if self.iterations < usize::MAX {
            self.iterations += 1;
        }
        self.max_iterations <= self.iterations
    }
}

/// Stops after a fixed number of calls, whatever the ratings.
pub struct Iterations {
    pub max_iterations: usize,
    iterations: usize,
}

impl Iterations {
    pub fn new(max_iterations: usize) -> (r: Self)
        ensures
            r.limit() == max_iterations,
            r.calls() == 0,
    {
        Iterations { max_iterations, iterations: 0 }
    }

    /// The number of calls after which it stops.
    pub closed spec fn limit(self) -> nat {
        self.max_iterations as nat
    }

    /// How many calls have been made (counted up to `usize::MAX`).
    pub closed spec fn calls(self) -> nat {
        self.iterations as nat
    }

    /// The limit and the count fit in a `usize`.
    pub proof fn lemma_bounds(self)
        ensures
            self.limit() <= usize::MAX,
            self.calls() <= usize::MAX,
    {
    }
}

impl Default for Iterations {
    fn default() -> (r: Self)
        ensures
            r.limit() == 0,
            r.calls() == 0,
    {
        Iterations::new(0)
    }
}

impl Criterion for Iterations {
    open spec fn decides(self, ratings: Seq<u64>, next: Self, stop: bool) -> bool {
        let count: nat = if self.calls() < usize::MAX {
            self.calls() + 1
        } else {
            self.calls()
        };
        &&& next.limit() == self.limit()
        &&& next.calls() == count
        &&& stop == (self.limit() <= count)
    }

    fn criterion(&mut self, ratings: &Vec<u64>) -> (stop: bool) {
        if self.iterations < usize::MAX {
            self.iterations += 1;
        }
        self.max_iterations <= self.iterations
    }
}

} // verus!
