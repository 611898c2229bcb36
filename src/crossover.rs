use vstd::prelude::*;

verus! {

/// Recombines two parents into one child.
///
/// `crosses` says which children may come of two parents.
pub trait Crossover<T> {
    spec fn crosses(&self, parent1: T, parent2: T, child: T) -> bool;

    fn crossover(&self, parent1: &T, parent2: &T) -> (child: T)
        ensures
            self.crosses(*parent1, *parent2, child),
    ;
}

} // verus!
