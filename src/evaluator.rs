use vstd::prelude::*;

verus! {

/// Rates a genotype: higher is better. A rating depends on the genotype
/// alone, so a population rates the same whatever order it is rated in.
pub trait Evaluator<T> {
    spec fn rating(&self, x: T) -> u64;

    fn evaluator(&self, pop: &T) -> (r: u64)
        ensures
            r == self.rating(*pop),
    ;
}

/// The rating of each member of `pop`, in order.
pub open spec fn ratings_of<T, E: Evaluator<T>>(e: E, pop: Seq<T>) -> Seq<u64> {
    pop.map_values(|x: T| e.rating(x))
}

} // verus!
