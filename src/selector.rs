use vstd::prelude::*;
use crate::rng::{choose_multiple, weighted_index, weighted_pick};

verus! {

/// Chooses a parent pool from a rated population.
///
/// `admits` says on which ratings the strategy can work: calling it on
/// others is a fault of the caller, which `can_select` lets it test first.
/// `picks` says which lists of indices it may choose from given ratings: the
/// pool holds copies of the members at one such list, in order,
/// `pool_size(n)` of them for a population of `n`.
pub trait Selector<T: Clone> {
    spec fn admits(&self, ratings: Seq<u64>) -> bool;

    spec fn picks(&self, ratings: Seq<u64>, idx: Seq<usize>) -> bool;

    spec fn pool_size(&self, n: nat) -> nat;

    fn can_select(&self, ratings: &Vec<u64>) -> (r: bool)
        ensures
            r == self.admits(ratings@),
    ;

    fn selector(&self, pop: &Vec<T>, ratings: &Vec<u64>) -> (v: Vec<T>)
        requires
            pop.len() == ratings.len(),
            self.admits(ratings@),
        ensures
            v.len() == self.pool_size(pop.len() as nat),
            exists|idx: Seq<usize>| #[trigger] self.picks(ratings@, idx) && copied_at(pop@, idx, v@),
    ;
}

/// `v` holds copies of the members of `pop` at `idx`, in that order.
pub open spec fn copied_at<T: Clone>(pop: Seq<T>, idx: Seq<usize>, v: Seq<T>) -> bool {
    &&& idx.len() == v.len()
    &&& forall|k: int| 0 <= k < idx.len() ==> idx[k] < pop.len() && cloned(pop[idx[k] as int], #[trigger] v[k])
}

/// Individual `i` may come next after the individuals of `idx` when listing
/// the population best first.
pub open spec fn next_candidate(r: Seq<u64>, idx: Seq<usize>, i: int) -> bool {
    idx.len() == 0 || ranks_above(r, idx.last() as int, i)
}

/// Individual `a` ranks above individual `b`: a higher rating, or an equal
/// rating and a later index.
pub open spec fn ranks_above(r: Seq<u64>, a: int, b: int) -> bool {
    r[a] > r[b] || (r[a] == r[b] && a > b)
}

/// How many of the first `k` individuals rank below individual `j`.
pub open spec fn count_below(r: Seq<u64>, j: int, k: int) -> nat
    decreases k,
{
    if k <= 0 {
        0
    } else if ranks_above(r, j, k - 1) {
        count_below(r, j, k - 1) + 1
    } else {
        count_below(r, j, k - 1)
    }
}

/// The rank of individual `j`: 1 for the lowest rating, `r.len()` for the
/// highest; equal ratings are ranked by index.
pub open spec fn rank_of(r: Seq<u64>, j: int) -> nat {
    count_below(r, j, r.len() as int) + 1
}

/// `idx` lists, best first, the individuals that rank above all the others:
/// the first `idx.len()` of the population in descending order of rating.
pub open spec fn is_elite(r: Seq<u64>, idx: Seq<usize>) -> bool {
    &&& forall|k: int| 0 <= k < idx.len() ==> idx[k] < r.len()
    &&& forall|a: int, b: int|
        0 <= a < b < idx.len() ==> ranks_above(r, idx[a] as int, idx[b] as int)
    &&& forall|j: int, k: int|
        0 <= j < r.len() && !idx.contains(j as usize) && 0 <= k < idx.len() ==> ranks_above(
            r,
            idx[k] as int,
            j,
        )
}

/// `g` is a tournament group: `m` distinct individuals of a population of `n`.
pub open spec fn is_group(n: nat, m: nat, g: Seq<usize>) -> bool {
    &&& g.len() == m
    &&& g.no_duplicates()
    &&& forall|q: int| 0 <= q < g.len() ==> g[q] < n
}

/// `w` is the first member of group `g` with the group's highest rating.
pub open spec fn wins(r: Seq<u64>, g: Seq<usize>, w: usize) -> bool {
    exists|p: int|
        0 <= p < g.len() && g[p] == w && (forall|q: int| 0 <= q < p ==> r[g[q] as int] < r[w as int])
            && (forall|q: int| 0 <= q < g.len() ==> r[g[q] as int] <= r[w as int])
}

/// The indices `0..n`.
pub fn all_indices(n: usize) -> (v: Vec<usize>)
    ensures
        v.len() == n,
        forall|i: int| 0 <= i < n ==> v@[i] == i,
{
    let mut v: Vec<usize> = Vec::with_capacity(n);
    let mut i: usize = 0;
    while i < n
        invariant
            i <= n,
            v.len() == i,
            forall|k: int| 0 <= k < i ==> v@[k] == k,
        decreases n - i,
    {
        v.push(i);
        i += 1;
    }
    v
}

/// Copies of the members of `pop` at `idx`, in that order.
pub fn copies<T: Clone>(pop: &Vec<T>, idx: &Vec<usize>) -> (v: Vec<T>)
    requires
        forall|k: int| 0 <= k < idx.len() ==> idx@[k] < pop.len(),
    ensures
        copied_at(pop@, idx@, v@),
{
    let mut v: Vec<T> = Vec::with_capacity(idx.len());
    let mut k: usize = 0;
    while k < idx.len()
        invariant
            k <= idx.len(),
            v.len() == k,
            forall|k: int| 0 <= k < idx.len() ==> idx@[k] < pop.len(),
            forall|j: int| 0 <= j < k ==> cloned(pop@[idx@[j] as int], #[trigger] v@[j]),
        decreases idx.len() - k,
    {
        v.push(pop[idx[k]].clone());
        k += 1;
    }
    v
}

/// Individual `a` of `ratings` ranks above individual `b`.
fn above(ratings: &Vec<u64>, a: usize, b: usize) -> (res: bool)
    requires
        a < ratings.len(),
        b < ratings.len(),
    ensures
        res == ranks_above(ratings@, a as int, b as int),
{
    ratings[a] > ratings[b] || (ratings[a] == ratings[b] && a > b)
}

/// Every index below `n` occurs in `s` only if `s` has at least `n` elements.
proof fn lemma_covering(s: Seq<usize>, n: nat)
    requires
        n <= usize::MAX,
        forall|j: int| 0 <= j < n ==> #[trigger] s.contains(j as usize),
    ensures
        n <= s.len(),
{
    let si = s.map_values(|x: usize| x as int);
    vstd::set_lib::lemma_int_range(0, n as int);
    assert forall|j: int| vstd::set_lib::set_int_range(0, n as int).contains(j) implies si.to_set().contains(j) by {
        assert(s.contains(j as usize));
        let k = choose|k: int| 0 <= k < s.len() && s[k] == j as usize;
        assert(si[k] == s[k] as int);
    }
    si.lemma_cardinality_of_set();
    vstd::set_lib::lemma_len_subset(vstd::set_lib::set_int_range(0, n as int), si.to_set());
}

/// The `m` best individuals of `ratings`, best first; among equal ratings
/// the later index comes first.
pub fn elite(ratings: &Vec<u64>, m: usize) -> (idx: Vec<usize>)
    requires
        m <= ratings.len(),
    ensures
        idx.len() == m,
        is_elite(ratings@, idx@),
{
    let n = ratings.len();
    let mut idx: Vec<usize> = Vec::with_capacity(m);
    while idx.len() < m
        invariant
            m <= n == ratings.len(),
            idx.len() <= m,
            is_elite(ratings@, idx@),
        decreases m - idx.len(),
    {
        let k = idx.len();
        let mut found = false;
        let mut best: usize = 0;
        let mut j: usize = 0;
        while j < n
            invariant
                n == ratings.len(),
                k == idx.len(),
                j <= n,
                is_elite(ratings@, idx@),
                found ==> best < n,
                found ==> next_candidate(ratings@, idx@, best as int),
                forall|i: int|
                    0 <= i < j && #[trigger] next_candidate(ratings@, idx@, i) ==> found && (i == best
                        || ranks_above(ratings@, best as int, i)),
            decreases n - j,
        {
            let ghost old_best = best;
            let ghost old_found = found;
            if k == 0 || above(ratings, idx[k - 1], j) {
                if !found || above(ratings, j, best) {
                    best = j;
                    found = true;
                }
            }
            proof {
                assert forall|i: int|
                    0 <= i < j + 1 && #[trigger] next_candidate(ratings@, idx@, i) implies found && (i
                        == best || ranks_above(ratings@, best as int, i)) by {
                    if i < j {
                        assert(old_found && (i == old_best || ranks_above(ratings@, old_best as int, i)));
                    }
                }
            }
            j += 1;
        }
        proof {
            if !found {
                if k == 0 {
                    assert(next_candidate(ratings@, idx@, 0));
                }
                assert forall|i: int| 0 <= i < n implies #[trigger] idx@.contains(i as usize) by {
                    if !idx@.contains(i as usize) {
                        assert(ranks_above(ratings@, idx@[k - 1] as int, i));
                        assert(next_candidate(ratings@, idx@, i));
                    }
                }
                lemma_covering(idx@, n as nat);
            }
        }
        let ghost old_idx = idx@;
        idx.push(best);
        proof {
            assert(idx@ =~= old_idx.push(best));
            assert forall|i: int, q: int|
                0 <= i < n && !idx@.contains(i as usize) && 0 <= q < idx.len() implies ranks_above(
                ratings@,
                idx@[q] as int,
                i,
            ) by {
                assert(!old_idx.contains(i as usize)) by {
                    if old_idx.contains(i as usize) {
                        let p = choose|p: int| 0 <= p < old_idx.len() && old_idx[p] == i as usize;
                        assert(idx@[p] == i as usize);
                    }
                }
                assert(i != best as int) by {
                    assert(idx@[k as int] == best);
                }
                assert(next_candidate(ratings@, old_idx, i));
                if q < k {
                    assert(idx@[q] == old_idx[q]);
                }
            }
            assert forall|a: int, b: int| 0 <= a < b < idx.len() implies ranks_above(
                ratings@,
                idx@[a] as int,
                idx@[b] as int,
            ) by {
                if b == k {
                    assert(next_candidate(ratings@, old_idx, best as int));
                    if a < k - 1 {
                        assert(ranks_above(ratings@, old_idx[a] as int, old_idx[k - 1] as int));
                    }
                }
            }
        }
    }
    idx
}

/// How many individuals of `ratings` rank below individual `j`.
fn count_below_exec(ratings: &Vec<u64>, j: usize) -> (c: usize)
    requires
        j < ratings.len(),
    ensures
        c == count_below(ratings@, j as int, ratings.len() as int),
        c < ratings.len(),
{
    let mut c: usize = 0;
    let mut i: usize = 0;
    while i < ratings.len()
        invariant
            j < ratings.len(),
            i <= ratings.len(),
            c == count_below(ratings@, j as int, i as int),
            c <= i,
            i > j ==> c < i,
        decreases ratings.len() - i,
    {
        if above(ratings, j, i) {
            c += 1;
        }
        i += 1;
    }
    c
}

/// `w` sums to `total(w)` one weight at a time, so a prefix sums to no more.
proof fn lemma_total_prefix(w: Seq<u64>, i: int)
    requires
        0 <= i <= w.len(),
    ensures
        crate::rng::total(w.take(i)) <= crate::rng::total(w),
    decreases w.len() - i,
{
    if i < w.len() {
        lemma_total_prefix(w, i + 1);
        assert(w.take(i + 1).drop_last() =~= w.take(i));
    } else {
        assert(w.take(i) =~= w);
    }
}

/// Weights between `lo` and `hi` sum to between `lo` and `hi` times their number.
proof fn lemma_total_bounds(w: Seq<u64>, lo: int, hi: int)
    requires
        0 <= lo <= hi,
        forall|i: int| 0 <= i < w.len() ==> lo <= #[trigger] w[i] <= hi,
    ensures
        lo * w.len() <= crate::rng::total(w) <= hi * w.len(),
    decreases w.len(),
{
    if w.len() > 0 {
        let d = w.drop_last();
        assert forall|i: int| 0 <= i < d.len() implies lo <= #[trigger] d[i] <= hi by {
            assert(d[i] == w[i]);
        }
        lemma_total_bounds(d, lo, hi);
        assert(lo <= w[w.len() - 1] <= hi);
        assert(lo * w.len() == lo * d.len() + lo) by (nonlinear_arith)
            requires
                w.len() == d.len() + 1,
        ;
        assert(hi * w.len() == hi * d.len() + hi) by (nonlinear_arith)
            requires
                w.len() == d.len() + 1,
        ;
    }
}

/// The sum of `w`, or `None` where it does not fit in a `u64`.
pub fn checked_total(w: &Vec<u64>) -> (r: Option<u64>)
    ensures
        r.is_some() == (crate::rng::total(w@) <= u64::MAX),
        r matches Some(t) ==> t == crate::rng::total(w@),
{
    let mut t: u64 = 0;
    let mut i: usize = 0;
    while i < w.len()
        invariant
            i <= w.len(),
            t == crate::rng::total(w@.take(i as int)),
        decreases w.len() - i,
    {
        assert(w@.take(i as int + 1).drop_last() =~= w@.take(i as int));
        if t > u64::MAX - w[i] {
            proof {
                lemma_total_prefix(w@, i as int + 1);
            }
            return None;
        }
        t = t + w[i];
        i += 1;
    }
    assert(w@.take(i as int) =~= w@);
    Some(t)
}

/// `count` independent draws of an index of `w`, each index in proportion to
/// its weight. There must be a weight that is not zero.
pub fn weighted_draws(w: &Vec<u64>, count: usize) -> (idx: Vec<usize>)
    requires
        w.len() > 0,
        0 < crate::rng::total(w@) <= u64::MAX,
    ensures
        idx.len() == count,
        forall|k: int| 0 <= k < idx.len() ==> #[trigger] idx@[k] < w.len() && w@[idx@[k] as int] > 0,
{
    let d = match weighted_index(w) {
        Some(d) => d,
        None => {
            // not reached: the weights are valid
            assert(false);
            return Vec::new();
        },
    };
    let mut idx: Vec<usize> = Vec::with_capacity(count);
    while idx.len() < count
        invariant
            idx.len() <= count,
            crate::rng::weights_of(d) == w@,
            forall|k: int| 0 <= k < idx.len() ==> #[trigger] idx@[k] < w.len() && w@[idx@[k] as int] > 0,
        decreases count - idx.len(),
    {
        let i = weighted_pick(&d);
        idx.push(i);
    }
    idx
}

/// The first member of `group` with the group's highest rating.
pub fn group_winner(ratings: &Vec<u64>, group: &Vec<usize>) -> (w: usize)
    requires
        group.len() > 0,
        forall|q: int| 0 <= q < group.len() ==> group@[q] < ratings.len(),
    ensures
        wins(ratings@, group@, w),
{
    let mut best = group[0];
    let mut best_rating = ratings[best];
    let ghost mut pos: int = 0;
    let mut p: usize = 0;
    while p < group.len()
        invariant
            group.len() > 0,
            forall|q: int| 0 <= q < group.len() ==> group@[q] < ratings.len(),
            p <= group.len(),
            0 <= pos < group.len(),
            group@[pos] == best,
            best_rating == ratings@[best as int],
            forall|q: int| 0 <= q < pos ==> ratings@[group@[q] as int] < best_rating,
            forall|q: int| 0 <= q < p ==> ratings@[group@[q] as int] <= best_rating,
            pos <= p || pos == 0,
        decreases group.len() - p,
    {
        if best_rating < ratings[group[p]] {
            best = group[p];
            best_rating = ratings[best];
            proof {
                pos = p as int;
            }
        }
        p += 1;
    }
    assert(forall|q: int| 0 <= q < pos ==> ratings@[group@[q] as int] < ratings@[best as int]);
    best
}

/// `w` won a tournament among `m` distinct individuals.
pub open spec fn tournament_winner(r: Seq<u64>, m: nat, w: usize) -> bool {
    exists|g: Seq<usize>| is_group(r.len(), m, g) && wins(r, g, w)
}

/// `count_below` never exceeds the number of individuals looked at.
proof fn lemma_count_below_le(r: Seq<u64>, j: int, k: int)
    ensures
        count_below(r, j, k) <= if k < 0 { 0 } else { k },
        0 <= j < k ==> count_below(r, j, k) < k,
    decreases k,
{
    if k > 0 {
        lemma_count_below_le(r, j, k - 1);
    }
}

/// Selects in proportion to the ratings themselves.
pub struct Rating {
    pub max_pop: usize,
}

/// Selects the `max_pop` best individuals.
pub struct Elitism {
    pub max_pop: usize,
}

impl Rating {
    /// Whether the ratings can be drawn from: not all zero, with a sum that
    /// fits in a `u64`.
    pub fn accepts(&self, ratings: &Vec<u64>) -> (r: bool)
        ensures
            r == (ratings.len() > 0 && 0 < crate::rng::total(ratings@) <= u64::MAX),
    {
        match checked_total(ratings) {
            Some(t) => ratings.len() > 0 && t > 0,
            None => false,
        }
    }

    /// `max_pop` independent draws, each individual in proportion to its
    /// rating, so never one rated zero.
    pub fn select_indices(&self, ratings: &Vec<u64>) -> (idx: Vec<usize>)
        requires
            ratings.len() > 0,
            0 < crate::rng::total(ratings@) <= u64::MAX,
        ensures
            idx.len() == self.max_pop,
            forall|k: int|
                0 <= k < idx.len() ==> #[trigger] idx@[k] < ratings.len() && ratings@[idx@[k] as int] > 0,
    {
        weighted_draws(ratings, self.max_pop)
    }
}

impl Elitism {
    /// Whether there are `max_pop` individuals to keep.
    pub fn accepts(&self, ratings: &Vec<u64>) -> (r: bool)
        ensures
            r == (self.max_pop <= ratings.len()),
    {
        self.max_pop <= ratings.len()
    }

    /// The `max_pop` best individuals, best first (among equal ratings the
    /// later index first).
    pub fn select_indices(&self, ratings: &Vec<u64>) -> (idx: Vec<usize>)
        requires
            self.max_pop <= ratings.len(),
        ensures
            idx.len() == self.max_pop,
            is_elite(ratings@, idx@),
    {
        elite(ratings, self.max_pop)
    }
}

impl Rank {
    /// The rank of each individual: 1 for the lowest rating up to the
    /// population size for the highest, equal ratings ranked by index.
    pub fn calculate_rank(&self, ratings: &Vec<u64>) -> (ranks: Vec<usize>)
        ensures
            ranks.len() == ratings.len(),
            forall|j: int| 0 <= j < ratings.len() ==> #[trigger] ranks@[j] == rank_of(ratings@, j),
    {
        let mut ranks: Vec<usize> = Vec::with_capacity(ratings.len());
        let mut j: usize = 0;
        while j < ratings.len()
            invariant
                j <= ratings.len(),
                ranks.len() == j,
                forall|i: int| 0 <= i < j ==> #[trigger] ranks@[i] == rank_of(ratings@, i),
            decreases ratings.len() - j,
        {
            let c = count_below_exec(ratings, j);
            ranks.push(c + 1);
            j += 1;
        }
        ranks
    }

    /// Whether the population is non-empty and holds at most `u32::MAX`
    /// individuals, so that the ranks sum to a `u64`.
    pub fn accepts(&self, ratings: &Vec<u64>) -> (r: bool)
        ensures
            r == (0 < ratings.len() <= u32::MAX),
    {
        0 < ratings.len() && ratings.len() <= u32::MAX as usize
    }

    /// `max_pop` independent draws, each individual in proportion to its
    /// rank.
    pub fn select_indices(&self, ratings: &Vec<u64>) -> (idx: Vec<usize>)
        requires
            0 < ratings.len() <= u32::MAX,
        ensures
            idx.len() == self.max_pop,
            forall|k: int| 0 <= k < idx.len() ==> #[trigger] idx@[k] < ratings.len(),
    {
        let n = ratings.len();
        let ranks = self.calculate_rank(ratings);
        let mut w: Vec<u64> = Vec::with_capacity(n);
        let mut j: usize = 0;
        while j < n
            invariant
                n == ratings.len() == ranks.len(),
                forall|i: int| 0 <= i < n ==> #[trigger] ranks@[i] == rank_of(ratings@, i),
                j <= n,
                w.len() == j,
                forall|i: int| 0 <= i < j ==> 1 <= #[trigger] w@[i] <= n,
            decreases n - j,
        {
            proof {
                assert(ranks@[j as int] == rank_of(ratings@, j as int));
                lemma_count_below_le(ratings@, j as int, n as int);
            }
            w.push(ranks[j] as u64);
            j += 1;
        }
        proof {
            lemma_total_bounds(w@, 1, n as int);
            assert(n * n <= u64::MAX) by (nonlinear_arith)
                requires
                    n <= u32::MAX,
            ;
        }
        let idx = weighted_draws(&w, self.max_pop);
        idx
    }
}

impl Tournament {
    /// Whether a tournament holds at least one and at most as many
    /// individuals as the population.
    pub fn accepts(&self, ratings: &Vec<u64>) -> (r: bool)
        ensures
            r == (1 <= self.max_pop <= ratings.len()),
    {
        1 <= self.max_pop && self.max_pop <= ratings.len()
    }

    /// `max_pop - 1` tournaments, each among `max_pop` distinct random
    /// individuals, won by the first of the group with its highest rating.
    pub fn select_indices(&self, ratings: &Vec<u64>) -> (idx: Vec<usize>)
        requires
            1 <= self.max_pop <= ratings.len(),
        ensures
            idx.len() == self.max_pop - 1,
            forall|k: int|
                0 <= k < idx.len() ==> tournament_winner(ratings@, self.max_pop as nat, #[trigger] idx@[k]),
    {
        let n = ratings.len();
        let m = self.max_pop;
        let all = all_indices(n);
        let mut selected: Vec<usize> = Vec::with_capacity(m);
        while selected.len() < m - 1
            invariant
                1 <= m <= n == ratings.len() == all.len(),
                forall|i: int| 0 <= i < n ==> all@[i] == i,
                selected.len() <= m - 1,
                forall|k: int|
                    0 <= k < selected.len() ==> tournament_winner(ratings@, m as nat, #[trigger] selected@[k]),
            decreases m - 1 - selected.len(),
        {
            let group = choose_multiple(&all, m);
            proof {
                let pos = choose|pos: Seq<int>|
                    pos.len() == group.len() && pos.no_duplicates() && forall|k: int|
                        0 <= k < group.len() ==> 0 <= #[trigger] pos[k] < all.len() && group@[k] == all@[pos[k]];
                assert forall|a: int, b: int|
                    0 <= a < group.len() && 0 <= b < group.len() && a != b implies group@[a] != group@[b] by {
                    assert(pos[a] != pos[b]);
                    assert(group@[a] == all@[pos[a]]);
                    assert(group@[b] == all@[pos[b]]);
                }
                assert forall|q: int| 0 <= q < group.len() implies group@[q] < n by {
                    assert(group@[q] == all@[pos[q]]);
                }
            }
            let w = group_winner(ratings, &group);
            assert(is_group(n as nat, m as nat, group@));
            selected.push(w);
            assert(tournament_winner(ratings@, m as nat, w));
        }
        selected
    }
}

impl BestAndRand {
    /// Whether the two parts together are fewer than the population.
    pub fn accepts(&self, ratings: &Vec<u64>) -> (r: bool)
        ensures
            r == (self.best_pop + self.rand_pop < ratings.len()),
    {
        self.best_pop < ratings.len() && self.rand_pop < ratings.len() - self.best_pop
    }

    /// The `best_pop` best individuals as `Elitism` lists them, then
    /// `rand_pop` distinct individuals drawn from the whole population.
    pub fn select_indices(&self, ratings: &Vec<u64>) -> (idx: Vec<usize>)
        requires
            self.best_pop + self.rand_pop < ratings.len(),
        ensures
            best_then_random(ratings@, self.best_pop as nat, self.rand_pop as nat, idx@),
    {
        let mut idx = elite(ratings, self.best_pop);
        let all = all_indices(ratings.len());
        let mut rest = choose_multiple(&all, self.rand_pop);
        let ghost head = idx@;
        proof {
            let pos = choose|pos: Seq<int>|
                pos.len() == rest.len() && pos.no_duplicates() && forall|k: int|
                    0 <= k < rest.len() ==> 0 <= #[trigger] pos[k] < all.len() && rest@[k] == all@[pos[k]];
            assert forall|a: int, b: int|
                0 <= a < rest.len() && 0 <= b < rest.len() && a != b implies rest@[a] != rest@[b] by {
                assert(pos[a] != pos[b]);
                assert(rest@[a] == all@[pos[a]]);
                assert(rest@[b] == all@[pos[b]]);
            }
            assert forall|q: int| 0 <= q < rest.len() implies rest@[q] < ratings.len() by {
                assert(rest@[q] == all@[pos[q]]);
            }
        }
        let ghost tail = rest@;
        idx.append(&mut rest);
        proof {
            assert(idx@.take(self.best_pop as int) =~= head);
            assert(idx@.skip(self.best_pop as int) =~= tail);
        }
        idx
    }
}

/// `idx` is `best` indices in elite order, then `rand` distinct indices of
/// the population.
pub open spec fn best_then_random(r: Seq<u64>, best: nat, rand: nat, idx: Seq<usize>) -> bool {
    &&& idx.len() == best + rand
    &&& is_elite(r, idx.take(best as int))
    &&& idx.skip(best as int).no_duplicates()
    &&& forall|k: int| 0 <= k < idx.len() ==> #[trigger] idx[k] < r.len()
}

/// Selects in proportion to rank rather than to rating.
pub struct Rank {
    pub max_pop: usize,
}

/// Selects the winners of tournaments among `max_pop` random individuals.
///
/// Each tournament is won by the member with the highest rating, the first
/// of them in draw order on ties: the running best is always compared with
/// the rating of the member that holds it. The pool has `max_pop - 1`
/// winners, one fewer than the group size.
pub struct Tournament {
    pub max_pop: usize,
}

/// Selects the `best_pop` best individuals, then `rand_pop` at random.
pub struct BestAndRand {
    pub best_pop: usize,
    pub rand_pop: usize,
}

impl<T: Clone> Selector<T> for Rating {
    open spec fn admits(&self, ratings: Seq<u64>) -> bool {
        ratings.len() > 0 && 0 < crate::rng::total(ratings) <= u64::MAX
    }

    open spec fn picks(&self, ratings: Seq<u64>, idx: Seq<usize>) -> bool {
        &&& idx.len() == self.max_pop
        &&& forall|k: int| 0 <= k < idx.len() ==> #[trigger] idx[k] < ratings.len() && ratings[idx[k] as int] > 0
    }

    open spec fn pool_size(&self, n: nat) -> nat {
        self.max_pop as nat
    }

    fn can_select(&self, ratings: &Vec<u64>) -> (r: bool) {
        self.accepts(ratings)
    }

    fn selector(&self, pop: &Vec<T>, ratings: &Vec<u64>) -> (v: Vec<T>) {
        let idx = self.select_indices(ratings);
        let v = copies(pop, &idx);
        assert(<Rating as Selector<T>>::picks(self, ratings@, idx@));
        v
    }
}

impl<T: Clone> Selector<T> for Elitism {
    open spec fn admits(&self, ratings: Seq<u64>) -> bool {
        self.max_pop <= ratings.len()
    }

    open spec fn picks(&self, ratings: Seq<u64>, idx: Seq<usize>) -> bool {
        idx.len() == self.max_pop && is_elite(ratings, idx)
    }

    open spec fn pool_size(&self, n: nat) -> nat {
        self.max_pop as nat
    }

    fn can_select(&self, ratings: &Vec<u64>) -> (r: bool) {
        self.accepts(ratings)
    }

    fn selector(&self, pop: &Vec<T>, ratings: &Vec<u64>) -> (v: Vec<T>) {
        let idx = self.select_indices(ratings);
        let v = copies(pop, &idx);
        assert(<Elitism as Selector<T>>::picks(self, ratings@, idx@));
        v
    }
}

impl<T: Clone> Selector<T> for Rank {
    open spec fn admits(&self, ratings: Seq<u64>) -> bool {
        0 < ratings.len() <= u32::MAX
    }

    open spec fn picks(&self, ratings: Seq<u64>, idx: Seq<usize>) -> bool {
        &&& idx.len() == self.max_pop
        &&& forall|k: int| 0 <= k < idx.len() ==> #[trigger] idx[k] < ratings.len()
    }

    open spec fn pool_size(&self, n: nat) -> nat {
        self.max_pop as nat
    }

    fn can_select(&self, ratings: &Vec<u64>) -> (r: bool) {
        self.accepts(ratings)
    }

    fn selector(&self, pop: &Vec<T>, ratings: &Vec<u64>) -> (v: Vec<T>) {
        let idx = self.select_indices(ratings);
        let v = copies(pop, &idx);
        assert(<Rank as Selector<T>>::picks(self, ratings@, idx@));
        v
    }
}

impl<T: Clone> Selector<T> for Tournament {
    open spec fn admits(&self, ratings: Seq<u64>) -> bool {
        1 <= self.max_pop <= ratings.len()
    }

    open spec fn picks(&self, ratings: Seq<u64>, idx: Seq<usize>) -> bool {
        &&& idx.len() == self.max_pop - 1
        &&& forall|k: int| 0 <= k < idx.len() ==> tournament_winner(ratings, self.max_pop as nat, #[trigger] idx[k])
    }

    open spec fn pool_size(&self, n: nat) -> nat {
        (self.max_pop - 1) as nat
    }

    fn can_select(&self, ratings: &Vec<u64>) -> (r: bool) {
        self.accepts(ratings)
    }

    fn selector(&self, pop: &Vec<T>, ratings: &Vec<u64>) -> (v: Vec<T>) {
        let idx = self.select_indices(ratings);
        proof {
            assert forall|k: int| 0 <= k < idx.len() implies idx@[k] < pop.len() by {
                let g = choose|g: Seq<usize>|
                    is_group(ratings.len() as nat, self.max_pop as nat, g) && wins(ratings@, g, idx@[k]);
                let p = choose|p: int| 0 <= p < g.len() && g[p] == idx@[k];
            }
        }
        let v = copies(pop, &idx);
        assert(<Tournament as Selector<T>>::picks(self, ratings@, idx@));
        v
    }
}

impl<T: Clone> Selector<T> for BestAndRand {
    open spec fn admits(&self, ratings: Seq<u64>) -> bool {
        self.best_pop + self.rand_pop < ratings.len()
    }

    open spec fn picks(&self, ratings: Seq<u64>, idx: Seq<usize>) -> bool {
        best_then_random(ratings, self.best_pop as nat, self.rand_pop as nat, idx)
    }

    open spec fn pool_size(&self, n: nat) -> nat {
        (self.best_pop + self.rand_pop) as nat
    }

    fn can_select(&self, ratings: &Vec<u64>) -> (r: bool) {
        self.accepts(ratings)
    }

    fn selector(&self, pop: &Vec<T>, ratings: &Vec<u64>) -> (v: Vec<T>) {
        let idx = self.select_indices(ratings);
        let v = copies(pop, &idx);
        assert(<BestAndRand as Selector<T>>::picks(self, ratings@, idx@));
        v
    }
}

} // verus!
