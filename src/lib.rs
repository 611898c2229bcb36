//! A genotype-agnostic evolutionary search engine.
//!
//! A search is assembled from six strategies (a generator, an evaluator, a
//! selector, a crossover, a mutation and a stopping criterion); the engine
//! seeds a population, rates it, and breeds new generations until the
//! criterion says to stop.
//!
//! Ratings are non-negative integer fitness scores: higher is better.

pub mod criterion;
pub mod crossover;
pub mod evaluator;
pub mod generator;
pub mod mutation;
pub mod ratings;
pub mod rng;
pub mod selector;
pub mod sentence;
pub mod sudoku;

use vstd::prelude::*;
use crate::criterion::{Criterion, Iterations, Mark};
use crate::crossover::Crossover;
use crate::evaluator::Evaluator;
use crate::generator::Generator;
use crate::mutation::Mutation;
use crate::ratings::best_of;
use crate::rng::random_range;
use crate::selector::Selector;

verus! {

/// How many partitions a population is rated in.
pub const WORKERS: usize = 8;

/// The chance, in percent, that a child is mutated.
pub const MUTATION_PERCENT: usize = 24;

/// Where partition `k` of `w` starts in a population of `n`: each holds
/// `n / w` members, and the last one the remainder too.
pub open spec fn part_begin(n: nat, w: nat, k: nat) -> nat {
    k * (n / w)
}

/// Where partition `k` of `w` ends in a population of `n`.
pub open spec fn part_end(n: nat, w: nat, k: nat) -> nat {
    if k + 1 == w {
        n
    } else {
        (k + 1) * (n / w)
    }
}

/// How much of a population of `n` the first `k` of `w` partitions cover.
pub open spec fn covered(n: nat, w: nat, k: nat) -> nat {
    if k == 0 {
        0
    } else {
        part_end(n, w, (k - 1) as nat)
    }
}

/// The bounds of partition `k` of `workers` over a population of `n`.
pub fn partition_bounds(n: usize, workers: usize, k: usize) -> (r: (usize, usize))
    requires
        0 < workers,
        k < workers,
    ensures
        r.0 == part_begin(n as nat, workers as nat, k as nat),
        r.1 == part_end(n as nat, workers as nat, k as nat),
        r.0 <= r.1 <= n,
{
    let size = n / workers;
    proof {
        assert(k * size <= n) by (nonlinear_arith)
            requires
                k < workers,
                size == n / workers,
                0 < workers,
        ;
        assert((k + 1) * size <= n) by (nonlinear_arith)
            requires
                k + 1 <= workers,
                size == n / workers,
                0 < workers,
        ;
        assert(k * size <= (k + 1) * size) by (nonlinear_arith);
    }
    let begin = k * size;
    let end = if k + 1 == workers {
        n
    } else {
        (k + 1) * size
    };
    (begin, end)
}

/// The ratings of `pop[begin..end]`, in order: the work of one partition.
pub fn evaluate_slice<T, E: Evaluator<T>>(pop: &Vec<T>, begin: usize, end: usize, evaluator: &E) -> (r:
    Vec<u64>)
    requires
        begin <= end <= pop.len(),
    ensures
        r@ == crate::evaluator::ratings_of(*evaluator, pop@.subrange(begin as int, end as int)),
{
    let mut buf: Vec<u64> = Vec::with_capacity(end - begin);
    let mut i: usize = begin;
    while i < end
        invariant
            begin <= i <= end <= pop.len(),
            buf@ == crate::evaluator::ratings_of(*evaluator, pop@.subrange(begin as int, i as int)),
        decreases end - i,
    {
        let v = evaluator.evaluator(&pop[i]);
        buf.push(v);
        i += 1;
        assert(buf@ =~= crate::evaluator::ratings_of(*evaluator, pop@.subrange(begin as int, i as int)));
    }
    buf
}

/// Rates `pop` in `workers` contiguous partitions and appends the ratings to
/// `ratings` in partition order, which is the order of `pop`: the result is
/// the same for any number of workers.
pub fn fill_ratings<T, E: Evaluator<T>>(workers: usize, pop: &Vec<T>, evaluator: &E, ratings: &mut Vec<u64>)
    requires
        0 < workers,
    ensures
        final(ratings)@ == old(ratings)@ + crate::evaluator::ratings_of(*evaluator, pop@),
{
    let n = pop.len();
    let mut k: usize = 0;
    while k < workers
        invariant
            0 < workers,
            k <= workers,
            n == pop.len(),
            covered(n as nat, workers as nat, k as nat) <= n,
            ratings@ == old(ratings)@ + crate::evaluator::ratings_of(
                *evaluator,
                pop@.subrange(0, covered(n as nat, workers as nat, k as nat) as int),
            ),
        decreases workers - k,
    {
        let (begin, end) = partition_bounds(n, workers, k);
        proof {
            let wn = workers as nat;
            if k > 0 {
                let kk = (k - 1) as nat;
                assert(part_end(n as nat, wn, kk) == (kk + 1) * (n as nat / wn));
                assert(kk + 1 == k);
            } else {
                assert(0 * (n as nat / wn) == 0);
            }
            assert(begin == covered(n as nat, wn, k as nat));
        }
        let mut part = evaluate_slice(pop, begin, end, evaluator);
        let ghost prev = ratings@;
        ratings.append(&mut part);
        proof {
            assert(pop@.subrange(0, end as int) =~= pop@.subrange(0, begin as int) + pop@.subrange(
                begin as int,
                end as int,
            ));
            assert(crate::evaluator::ratings_of(*evaluator, pop@.subrange(0, end as int)) =~= crate::evaluator::ratings_of(
                *evaluator,
                pop@.subrange(0, begin as int),
            ) + crate::evaluator::ratings_of(*evaluator, pop@.subrange(begin as int, end as int)));
        }
        k += 1;
    }
    assert(pop@.subrange(0, n as int) =~= pop@);
}

/// Why a search stopped before its criterion did.
#[derive(Debug, Clone, Copy, PartialEq, Eq, Structural)]
pub enum SearchError {
    /// The selector could not work on the ratings of a generation.
    SelectionRefused,
    /// The selector gave fewer than two parents, too few to breed from.
    PoolTooSmall,
}

/// Two distinct indices below `n`, each uniform.
pub fn distinct_pair(n: usize) -> (r: (usize, usize))
    requires
        n >= 2,
    ensures
        r.0 < n,
        r.1 < n,
        r.0 != r.1,
{
    let first = random_range(0, n);
    let second = random_range(0, n - 1);
    pair_from_draws(n, first, second)
}

/// The pair of distinct indices below `n` for a draw `first` below `n` and a
/// draw `second` below `n - 1`: the second skips over the first.
pub fn pair_from_draws(n: usize, first: usize, second: usize) -> (r: (usize, usize))
    requires
        2 <= n,
        first < n,
        second < n - 1,
    ensures
        r.0 == first,
        r.1 == if second >= first { second + 1 } else { second as int },
{
    let id2 = if second >= first {
        second + 1
    } else {
        second
    };
    (first, id2)
}

/// A first population: `pop_size` genotypes from independent calls of the
/// generator.
pub fn seed<T, G: Generator<T>>(generator: &G, pop_size: usize) -> (pop: Vec<T>)
    requires
        generator.can_generate(),
    ensures
        pop.len() == pop_size,
        forall|k: int| 0 <= k < pop_size ==> generator.yields(#[trigger] pop@[k]),
{
    let mut pop: Vec<T> = Vec::with_capacity(pop_size);
    while pop.len() < pop_size
        invariant
            pop.len() <= pop_size,
            generator.can_generate(),
            forall|k: int| 0 <= k < pop.len() ==> generator.yields(#[trigger] pop@[k]),
        decreases pop_size - pop.len(),
    {
        pop.push(generator.generator());
    }
    pop
}

/// `child` is the crossover of two parents at distinct places of `parents`,
/// mutated once or not at all.
pub open spec fn bred_from<T, C: Crossover<T>, M: Mutation<T>>(c: C, m: M, parents: Seq<T>, child: T) -> bool {
    exists|i: int, j: int, x: T|
        0 <= i < parents.len() && 0 <= j < parents.len() && i != j && #[trigger] c.crosses(
            parents[i],
            parents[j],
            x,
        ) && (child == x || m.mutates(x, child))
}

/// The next generation: `pop_size` children, each the crossover of two
/// distinct parents of the pool, mutated with a chance of
/// `MUTATION_PERCENT` in a hundred.
pub fn breed<T, C: Crossover<T>, M: Mutation<T>>(
    parents: &Vec<T>,
    pop_size: usize,
    crossover: &C,
    mutation: &M,
) -> (pop: Vec<T>)
    requires
        parents.len() >= 2,
    ensures
        pop.len() == pop_size,
        forall|k: int| 0 <= k < pop_size ==> bred_from(*crossover, *mutation, parents@, #[trigger] pop@[k]),
{
    let mut pop: Vec<T> = Vec::with_capacity(pop_size);
    while pop.len() < pop_size
        invariant
            parents.len() >= 2,
            pop.len() <= pop_size,
            forall|k: int| 0 <= k < pop.len() ==> bred_from(*crossover, *mutation, parents@, #[trigger] pop@[k]),
        decreases pop_size - pop.len(),
    {
        let (id1, id2) = distinct_pair(parents.len());
        let mut child = crossover.crossover(&parents[id1], &parents[id2]);
        let ghost crossed = child;
        if random_range(0, 100) < MUTATION_PERCENT {
            mutation.mutation(&mut child);
        }
        assert(crossover.crosses(parents@[id1 as int], parents@[id2 as int], crossed));
        assert(bred_from(*crossover, *mutation, parents@, child));
        pop.push(child);
    }
    pop
}

/// `best` and `rating` are what a search returns from its last population
/// `p`: the member at the first index of the best rating, and that rating.
pub open spec fn is_outcome<T, E: Evaluator<T>>(e: E, p: Seq<T>, best: T, rating: u64) -> bool {
    exists|i: int|
        crate::ratings::is_first_best(crate::evaluator::ratings_of(e, p), i) && best == p[i] && rating == #[trigger] crate::evaluator::ratings_of(e, p)[i]
}

/// `states` and `rs` record the calls of a criterion over a search of
/// `gens` generations: call `k` got the ratings `rs[k]` and moved the
/// criterion from `states[k]` to `states[k + 1]`; the first `gens` calls
/// answered no and the last one answered `last`.
pub open spec fn consulted<F: Criterion>(states: Seq<F>, rs: Seq<Seq<u64>>, gens: int, last: bool) -> bool {
    &&& states.len() == gens + 2
    &&& rs.len() == gens + 1
    &&& forall|k: int| 0 <= k < gens ==> F::decides(states[k], #[trigger] rs[k], states[k + 1], false)
    &&& F::decides(states[gens], rs[gens], states[gens + 1], last)
}

/// A search ended on population `p` with `best` and `rating` after `gens`
/// generations: its criterion, moving from `start` to `end` through
/// `states`, answered no `gens` times and then stop on the ratings of `p`
/// (or, where the counter filled up, answered no once more).
pub open spec fn ended<T, E: Evaluator<T>, F: Criterion>(
    e: E,
    p: Seq<T>,
    best: T,
    rating: u64,
    gens: u64,
    start: F,
    end: F,
    states: Seq<F>,
    rs: Seq<Seq<u64>>,
) -> bool {
    &&& is_outcome(e, p, best, rating)
    &&& consulted(states, rs, gens as int, true) || (gens == u64::MAX && consulted(states, rs, gens as int, false))
    &&& states[0] == start
    &&& states[gens + 1] == end
    &&& rs[gens as int] == crate::evaluator::ratings_of(e, p)
    &&& forall|k: int| 0 <= k <= gens ==> (#[trigger] rs[k]).len() == p.len()
}

/// `next` is a generation bred from `pop`, rated `ratings`: the selector
/// picked a pool of at least two copies of members of `pop`, and each member
/// of `next`, in order, was bred from that pool.
pub open spec fn next_generation<T: Clone, S: Selector<T>, C: Crossover<T>, M: Mutation<T>>(
    s: S,
    c: C,
    m: M,
    pop: Seq<T>,
    ratings: Seq<u64>,
    next: Seq<T>,
) -> bool {
    exists|idx: Seq<usize>, parents: Seq<T>|
        #![trigger s.picks(ratings, idx), crate::selector::copied_at(pop, idx, parents)]
        s.picks(ratings, idx) && crate::selector::copied_at(pop, idx, parents) && parents.len() >= 2
            && next.len() == pop.len() && forall|k: int|
            0 <= k < next.len() ==> bred_from(c, m, parents, #[trigger] next[k])
}

/// `pops` are the `gens + 1` generations of a search, rated `rs`: the first
/// made by the generator, each later one bred from the one before.
pub open spec fn history<T: Clone, G: Generator<T>, E: Evaluator<T>, S: Selector<T>, C: Crossover<T>, M: Mutation<T>>(
    g: G,
    e: E,
    s: S,
    c: C,
    m: M,
    pop_size: nat,
    pops: Seq<Seq<T>>,
    rs: Seq<Seq<u64>>,
    gens: int,
) -> bool {
    &&& pops.len() == gens + 1
    &&& rs.len() == gens + 1
    &&& forall|k: int|
        0 <= k <= gens ==> (#[trigger] pops[k]).len() == pop_size && rs[k] == crate::evaluator::ratings_of(e, pops[k])
    &&& forall|i: int| 0 <= i < pop_size ==> g.yields(#[trigger] pops[0][i])
    &&& forall|k: int| 0 <= k < gens ==> #[trigger] next_generation(s, c, m, pops[k], rs[k], pops[k + 1])
}

/// Runs a search: seeds `pop_size` genotypes, rates them, and while the
/// criterion does not say stop, breeds the next generation from the
/// selector's pool and rates it. Returns the member with the best rating of
/// the last generation (the first of them on ties), the number of
/// generations bred, and that rating.
///
/// The generation counter is a `u64`; a search whose criterion never stops
/// ends when it is full. A selector that refuses the ratings of a
/// generation, or gives fewer than two parents, is a fault of the caller's
/// setup: the search stops at once and reports it as an error rather than
/// panicking. It cannot fail with a selector that admits every ratings and
/// gives two parents or more.
pub fn generate<T, G, E, S, C, M, F>(
    generator: &G,
    evaluator: &E,
    selector: &S,
    crossover: &C,
    mutation: &M,
    stop_crit: &mut F,
    pop_size: u32,
) -> (r: Result<(T, u64, u64), SearchError>) where
    T: Clone,
    G: Generator<T>,
    E: Evaluator<T>,
    S: Selector<T>,
    C: Crossover<T>,
    M: Mutation<T>,
    F: Criterion,

    requires
        pop_size > 0,
        generator.can_generate(),
    ensures
        r matches Ok((best, gens, rating)) ==> exists|
            pops: Seq<Seq<T>>,
            states: Seq<F>,
            rs: Seq<Seq<u64>>,
        |
            #![trigger history(*generator, *evaluator, *selector, *crossover, *mutation, pop_size as nat, pops, rs, gens as int), ended(*evaluator, pops[gens as int], best, rating, gens, *old(stop_crit), *final(stop_crit), states, rs)]
            history(*generator, *evaluator, *selector, *crossover, *mutation, pop_size as nat, pops, rs, gens as int)
                && ended(*evaluator, pops[gens as int], best, rating, gens, *old(stop_crit), *final(stop_crit), states, rs),
        r matches Ok((_, gens, _)) && gens > 0 ==> selector.pool_size(pop_size as nat) >= 2,
        r matches Err(SearchError::SelectionRefused) ==> exists|p: Seq<T>|
            p.len() == pop_size && !selector.admits(crate::evaluator::ratings_of(*evaluator, p)),
        r matches Err(SearchError::PoolTooSmall) ==> selector.pool_size(pop_size as nat) < 2,
        (forall|s: Seq<u64>| s.len() == pop_size ==> #[trigger] selector.admits(s))
            && selector.pool_size(pop_size as nat) >= 2 ==> r.is_ok(),
{
    let n = pop_size as usize;
    let mut pop = seed(generator, n);
    let mut ratings: Vec<u64> = Vec::with_capacity(n);
    fill_ratings(WORKERS, &pop, evaluator, &mut ratings);
    assert(ratings@ =~= crate::evaluator::ratings_of(*evaluator, pop@));
    let mut gen: u64 = 0;
    let ghost start: F = *stop_crit;
    let mut stop = stop_crit.criterion(&ratings);
    let ghost mut states: Seq<F> = seq![start, *stop_crit];
    let ghost mut rs: Seq<Seq<u64>> = seq![ratings@];
    let ghost mut pops: Seq<Seq<T>> = seq![pop@];
    while !stop && gen < u64::MAX
        invariant
            n == pop_size > 0,
            pop.len() == n,
            ratings@ == crate::evaluator::ratings_of(*evaluator, pop@),
            consulted(states, rs, gen as int, stop),
            history(*generator, *evaluator, *selector, *crossover, *mutation, pop_size as nat, pops, rs, gen as int),
            states[0] == start,
            start == *old(stop_crit),
            states[gen + 1] == *stop_crit,
            rs[gen as int] == ratings@,
            pops[gen as int] == pop@,
            forall|k: int| 0 <= k <= gen ==> (#[trigger] rs[k]).len() == n,
            gen > 0 ==> selector.pool_size(pop_size as nat) >= 2,
        decreases u64::MAX - gen,
    {
        if !selector.can_select(&ratings) {
            return Err(SearchError::SelectionRefused);
        }
        let parents = selector.selector(&pop, &ratings);
        if parents.len() < 2 {
            return Err(SearchError::PoolTooSmall);
        }
        let ghost idx = choose|idx: Seq<usize>|
            #[trigger] selector.picks(ratings@, idx) && crate::selector::copied_at(pop@, idx, parents@);
        let ghost old_pop = pop@;
        let ghost old_ratings = ratings@;
        pop = breed(&parents, n, crossover, mutation);
        proof {
            assert(selector.picks(old_ratings, idx) && crate::selector::copied_at(old_pop, idx, parents@));
            assert(next_generation(*selector, *crossover, *mutation, old_pop, old_ratings, pop@));
        }
        let mut fresh: Vec<u64> = Vec::with_capacity(n);
        fill_ratings(WORKERS, &pop, evaluator, &mut fresh);
        ratings = fresh;
        assert(ratings@ =~= crate::evaluator::ratings_of(*evaluator, pop@));
        let ghost prev_states = states;
        let ghost prev_rs = rs;
        let ghost prev_pops = pops;
        gen += 1;
        stop = stop_crit.criterion(&ratings);
        proof {
            states = prev_states.push(*stop_crit);
            rs = prev_rs.push(ratings@);
            pops = prev_pops.push(pop@);
            assert forall|k: int| 0 <= k < gen implies F::decides(
                states[k],
                #[trigger] rs[k],
                states[k + 1],
                false,
            ) by {
                assert(states[k] == prev_states[k]);
                assert(rs[k] == prev_rs[k]);
                assert(states[k + 1] == prev_states[k + 1]);
            }
            assert forall|k: int| 0 <= k <= gen implies (#[trigger] rs[k]).len() == n by {
                if k < gen {
                    assert(rs[k] == prev_rs[k]);
                }
            }
            assert forall|k: int| 0 <= k <= gen implies (#[trigger] pops[k]).len() == pop_size
                && rs[k] == crate::evaluator::ratings_of(*evaluator, pops[k]) by {
                if k < gen {
                    assert(rs[k] == prev_rs[k]);
                    assert(pops[k] == prev_pops[k]);
                }
            }
            assert(pops[0] == prev_pops[0]);
            assert forall|k: int| 0 <= k < gen implies #[trigger] next_generation(
                *selector,
                *crossover,
                *mutation,
                pops[k],
                rs[k],
                pops[k + 1],
            ) by {
                if k < gen - 1 {
                    assert(pops[k] == prev_pops[k]);
                    assert(rs[k] == prev_rs[k]);
                    assert(pops[k + 1] == prev_pops[k + 1]);
                    assert(next_generation(*selector, *crossover, *mutation, prev_pops[k], prev_rs[k], prev_pops[k + 1]));
                } else {
                    assert(pops[k] == old_pop);
                    assert(rs[k] == old_ratings);
                }
            }
        }
    }
    let (index, best) = best_of(&ratings);
    let ghost last = pop@;
    let winner = pop.remove(index);
    proof {
        assert(is_outcome(*evaluator, last, winner, best));
        assert(last.len() == pop_size);
    }
    let res: Result<(T, u64, u64), SearchError> = Ok((winner, gen, best));
    assert(ended(*evaluator, pops[res->Ok_0.1 as int], res->Ok_0.0, res->Ok_0.2, res->Ok_0.1, start, *stop_crit, states, rs));
    assert(history(*generator, *evaluator, *selector, *crossover, *mutation, pop_size as nat, pops, rs, res->Ok_0.1 as int));
    res
}

/// A `Mark` keeps its state over every call.
proof fn lemma_mark_unchanged(states: Seq<Mark>, rs: Seq<Seq<u64>>, gens: int, last: bool, k: int)
    requires
        consulted(states, rs, gens, last),
        0 <= k <= gens,
    ensures
        states[k] == states[0],
    decreases k,
{
    if k > 0 {
        lemma_mark_unchanged(states, rs, gens, last, k - 1);
        assert(states[k - 1].decides(rs[k - 1], states[k], false));
    }
}

/// A search that ended because a `Mark` criterion said stop returns a rating
/// at or above the mark.
pub proof fn lemma_search_meets_mark<T, E: Evaluator<T>>(
    e: E,
    p: Seq<T>,
    best: T,
    rating: u64,
    gens: u64,
    start: Mark,
    end: Mark,
    states: Seq<Mark>,
    rs: Seq<Seq<u64>>,
)
    requires
        ended(e, p, best, rating, gens, start, end, states, rs),
        gens < u64::MAX,
    ensures
        rating >= start.max_rating,
{
    let r = crate::evaluator::ratings_of(e, p);
    assert forall|k: int| 0 <= k <= gens implies #[trigger] states[k] == start by {
        lemma_mark_unchanged(states, rs, gens as int, true, k);
    }
    crate::ratings::lemma_max_rating(r);
    let i = choose|i: int| crate::ratings::is_first_best(r, i) && best == p[i] && rating == #[trigger] r[i];
    assert(states[gens as int] == start);
    let j = choose|j: int| 0 <= j < r.len() && r[j] >= start.max_rating;
    assert(r[j] <= crate::ratings::max_rating(r));
}

/// Before each of the first `gens` calls that answered no, an `Iterations`
/// criterion started from no calls had counted one call per generation.
proof fn lemma_iterations_count(states: Seq<Iterations>, rs: Seq<Seq<u64>>, gens: int, last: bool, k: int)
    requires
        consulted(states, rs, gens, last),
        states[0].calls() == 0,
        0 <= k <= gens,
    ensures
        states[k].calls() == k,
        states[k].limit() == states[0].limit(),
        k > 0 ==> k < states[0].limit(),
    decreases k,
{
    if k > 0 {
        lemma_iterations_count(states, rs, gens, last, k - 1);
        states[0].lemma_bounds();
        assert(states[k - 1].decides(rs[k - 1], states[k], false));
    }
}

/// A search whose `Iterations` criterion starts with no calls breeds one
/// generation fewer than its limit (none for a limit of 0 or 1).
pub proof fn lemma_search_iterations<T, E: Evaluator<T>>(
    e: E,
    p: Seq<T>,
    best: T,
    rating: u64,
    gens: u64,
    start: Iterations,
    end: Iterations,
    states: Seq<Iterations>,
    rs: Seq<Seq<u64>>,
)
    requires
        ended(e, p, best, rating, gens, start, end, states, rs),
        start.calls() == 0,
        gens < u64::MAX,
    ensures
        gens + 1 == if start.limit() == 0 { 1 } else { start.limit() },
{
    lemma_iterations_count(states, rs, gens as int, true, gens as int);
    start.lemma_bounds();
    assert(states[gens as int].decides(rs[gens as int], states[gens + 1], true));
}

} // verus!
