use vstd::prelude::*;

verus! {

/// The largest rating of `r`, or 0 for an empty sequence.
pub open spec fn max_rating(r: Seq<u64>) -> u64
    decreases r.len(),
{
    if r.len() == 0 {
        0
    } else {
        let m = max_rating(r.drop_last());
        if r.last() > m {
            r.last()
        } else {
            m
        }
    }
}

/// `i` is the first index of `r` that holds its largest rating.
pub open spec fn is_first_best(r: Seq<u64>, i: int) -> bool {
    &&& 0 <= i < r.len()
    &&& r[i] == max_rating(r)
    &&& forall|j: int| 0 <= j < i ==> r[j] < r[i]
}

/// `max_rating` bounds every rating and is attained by one of them.
pub proof fn lemma_max_rating(r: Seq<u64>)
    ensures
        forall|j: int| 0 <= j < r.len() ==> r[j] <= max_rating(r),
        r.len() > 0 ==> exists|j: int| 0 <= j < r.len() && r[j] == max_rating(r),
    decreases r.len(),
{
    if r.len() > 0 {
        lemma_max_rating(r.drop_last());
        assert(forall|j: int| 0 <= j < r.len() - 1 ==> r[j] == r.drop_last()[j]);
        if r.len() > 1 && r.last() <= max_rating(r.drop_last()) {
            let j = choose|j: int| 0 <= j < r.len() - 1 && r.drop_last()[j] == max_rating(r.drop_last());
            assert(r[j] == max_rating(r));
        } else {
            assert(r[r.len() - 1] == max_rating(r));
        }
    }
}

/// Scans `ratings` in ascending order and returns the index and value of the
/// best rating; on ties the earliest index wins.
pub fn best_of(ratings: &Vec<u64>) -> (r: (usize, u64))
    requires
        ratings.len() > 0,
    ensures
        is_first_best(ratings@, r.0 as int),
        r.1 == max_rating(ratings@),
        r.1 == ratings@[r.0 as int],
{
    let mut best: u64 = 0;
    let mut index: usize = 0;
    let mut i: usize = 0;
    while i < ratings.len()
        invariant
            0 <= i <= ratings.len(),
            ratings.len() > 0,
            index < ratings.len(),
            best == max_rating(ratings@.take(i as int)),
            best > 0 ==> index < i && ratings@[index as int] == best,
            best == 0 ==> index == 0 && forall|j: int| 0 <= j < i ==> ratings@[j] == 0,
            forall|j: int| 0 <= j < index ==> ratings@[j] < best,
        decreases ratings.len() - i,
    {
        proof {
            assert(ratings@.take(i as int + 1).drop_last() =~= ratings@.take(i as int));
            lemma_max_rating(ratings@.take(i as int));
            assert(forall|j: int| 0 <= j < i ==> ratings@.take(i as int)[j] == ratings@[j]);
        }
        if ratings[i] > best {
            best = ratings[i];
            index = i;
        }
        i += 1;
    }
    proof {
        assert(ratings@.take(i as int) =~= ratings@);
        lemma_max_rating(ratings@);
    }
    (index, best)
}

} // verus!
