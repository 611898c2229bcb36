use vstd::prelude::*;
use vstd::string::StrSliceExecFns;
use crate::rng::{random_alphanumeric, random_range, string_from};

verus! {

/// Perturbs a genotype in place.
///
/// `mutates` says which genotypes may come of perturbing one.
pub trait Mutation<T> {
    spec fn mutates(&self, before: T, after: T) -> bool;

    fn mutation(&self, pop: &mut T)
        ensures
            self.mutates(*old(pop), *final(pop)),
    ;
}

/// `after` is `before` with some characters replaced by ASCII letters or
/// digits.
pub open spec fn scrambled(before: Seq<char>, after: Seq<char>) -> bool {
    &&& after.len() == before.len()
    &&& forall|i: int|
        0 <= i < before.len() ==> #[trigger] after[i] == before[i] || crate::rng::is_alphanumeric(after[i])
}

/// The chance, in percent, that a character is replaced.
pub const CHAR_MUTATION_PERCENT: usize = 10;

/// Replaces each character of a string, with a chance of one in ten, by a
/// random ASCII letter or digit.
pub struct BasicMutation;

impl BasicMutation {
    /// The string keeps its length; each character stays or becomes an ASCII
    /// letter or digit.
    pub fn scramble(&self, pop: &mut String)
        ensures
            scrambled(old(pop)@, final(pop)@),
    {
        let n = pop.as_str().unicode_len();
        let mut picks: Vec<Option<char>> = Vec::with_capacity(n);
        while picks.len() < n
            invariant
                picks.len() <= n,
                forall|j: int| 0 <= j < picks.len() ==> (#[trigger] picks@[j] matches Some(c) ==> crate::rng::is_alphanumeric(c)),
            decreases n - picks.len(),
        {
            if random_range(0, 100) < CHAR_MUTATION_PERCENT {
                picks.push(Some(random_alphanumeric()));
            } else {
                picks.push(None);
            }
        }
        let r = self.replace_chars(pop, &picks);
        assert forall|i: int| 0 <= i < pop@.len() implies #[trigger] r@[i] == pop@[i]
            || crate::rng::is_alphanumeric(r@[i]) by {
            assert(picks@[i] matches Some(c) ==> crate::rng::is_alphanumeric(c));
        }
        *pop = r;
    }

    /// `s` with character `i` replaced by `picks[i]` wherever that is `Some`.
    pub fn replace_chars(&self, s: &String, picks: &Vec<Option<char>>) -> (r: String)
        requires
            picks.len() == s@.len(),
        ensures
            r@.len() == s@.len(),
            forall|i: int| 0 <= i < s@.len() ==> #[trigger] r@[i] == match picks@[i] {
                Some(c) => c,
                None => s@[i],
            },
    {
        let n = picks.len();
        let mut chars: Vec<char> = Vec::with_capacity(n);
        let mut i: usize = 0;
        while i < n
            invariant
                i <= n == s@.len() == picks.len(),
                chars.len() == i,
                forall|j: int| 0 <= j < i ==> #[trigger] chars@[j] == match picks@[j] {
                    Some(c) => c,
                    None => s@[j],
                },
            decreases n - i,
        {
            match picks[i] {
                Some(c) => chars.push(c),
                None => chars.push(s.as_str().get_char(i)),
            }
            i += 1;
        }
        string_from(&chars)
    }
}

impl Mutation<String> for BasicMutation {
    open spec fn mutates(&self, before: String, after: String) -> bool {
        scrambled(before@, after@)
    }

    fn mutation(&self, pop: &mut String) {
        self.scramble(pop)
    }
}

} // verus!
