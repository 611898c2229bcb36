use vstd::prelude::*;
use crate::rng::{random_alphanumeric, string_from};

verus! {

/// Produces a fresh candidate genotype.
///
/// `can_generate` is what the generator needs of its own configuration;
/// `yields` says which genotypes it may produce.
pub trait Generator<T> {
    spec fn can_generate(&self) -> bool;

    spec fn yields(&self, x: T) -> bool;

    fn generator(&self) -> (x: T)
        requires
            self.can_generate(),
        ensures
            self.yields(x),
    ;
}

/// Generates random strings of ASCII letters and digits.
pub struct BasicGenerator {
    pub string_size: usize,
}

impl BasicGenerator {
    /// A string of `string_size` random ASCII letters and digits.
    pub fn random_string(&self) -> (r: String)
        ensures
            r@.len() == self.string_size,
            forall|i: int| 0 <= i < r@.len() ==> crate::rng::is_alphanumeric(#[trigger] r@[i]),
    {
        let mut chars: Vec<char> = Vec::with_capacity(self.string_size);
        while chars.len() < self.string_size
            invariant
                chars.len() <= self.string_size,
                forall|i: int| 0 <= i < chars.len() ==> crate::rng::is_alphanumeric(#[trigger] chars@[i]),
            decreases self.string_size - chars.len(),
        {
            chars.push(random_alphanumeric());
        }
        string_from(&chars)
    }
}

impl Generator<String> for BasicGenerator {
    open spec fn can_generate(&self) -> bool {
        true
    }

    open spec fn yields(&self, x: String) -> bool {
        x@.len() == self.string_size && forall|i: int| 0 <= i < x@.len() ==> crate::rng::is_alphanumeric(#[trigger] x@[i])
    }

    fn generator(&self) -> (x: String) {
        self.random_string()
    }
}

} // verus!
