use vstd::prelude::*;
use vstd::string::StrSliceExecFns;
use crate::crossover::Crossover;
use crate::evaluator::Evaluator;
use crate::rng::{random_range, replace_all};

pub use crate::generator::BasicGenerator;
pub use crate::mutation::BasicMutation;

verus! {

/// The smaller of three numbers.
pub open spec fn min3(a: nat, b: nat, c: nat) -> nat {
    if a <= b && a <= c {
        a
    } else if b <= c {
        b
    } else {
        c
    }
}

/// The edit distance between `a` and `b`: the fewest insertions, deletions
/// and substitutions of single characters that turn one into the other.
pub open spec fn lev(a: Seq<char>, b: Seq<char>) -> nat
    decreases a.len() + b.len(),
{
    if a.len() == 0 {
        b.len()
    } else if b.len() == 0 {
        a.len()
    } else {
        min3(
            lev(a.drop_last(), b.drop_last()) + if a.last() == b.last() {
                0nat
            } else {
                1nat
            },
            lev(a.drop_last(), b) + 1,
            lev(a, b.drop_last()) + 1,
        )
    }
}

/// The edit distance is at most the longer length.
proof fn lemma_lev_bound(a: Seq<char>, b: Seq<char>)
    ensures
        lev(a, b) <= if a.len() >= b.len() { a.len() } else { b.len() },
    decreases a.len() + b.len(),
{
    if a.len() > 0 && b.len() > 0 {
        lemma_lev_bound(a.drop_last(), b.drop_last());
    }
}

/// Rates a guess by how few edits separate it from the solution.
pub struct LevensteinEvaluation {
    pub solution: String,
}

impl LevensteinEvaluation {
    /// The edit distance between `lhs` and `rhs`, one row of the table per
    /// character of `lhs`.
    pub fn levenshtein_distance(&self, lhs: &String, rhs: &String) -> (d: usize)
        requires
            lhs@.len() < usize::MAX,
            rhs@.len() < usize::MAX,
        ensures
            d == lev(lhs@, rhs@),
    {
        let m = lhs.as_str().unicode_len();
        let n = rhs.as_str().unicode_len();
        let mut row: Vec<usize> = Vec::with_capacity(n + 1);
        let mut i: usize = 0;
        while i <= n
            invariant
                n == rhs@.len(),
                i <= n + 1,
                n < usize::MAX,
                row.len() == i,
                forall|k: int| 0 <= k < i ==> #[trigger] row@[k] == lev(lhs@.take(0), rhs@.take(k)),
            decreases n + 1 - i,
        {
            proof {
                assert(lhs@.take(0).len() == 0);
            }
            row.push(i);
            i += 1;
        }
        let mut j: usize = 1;
        while j <= m
            invariant
                m == lhs@.len(),
                n == rhs@.len(),
                m < usize::MAX,
                n < usize::MAX,
                1 <= j <= m + 1,
                row.len() == n + 1,
                forall|k: int| 0 <= k <= n ==> #[trigger] row@[k] == lev(lhs@.take(j - 1), rhs@.take(k)),
            decreases m + 1 - j,
        {
            let lchar = lhs.as_str().get_char(j - 1);
            let ghost a = lhs@.take(j as int);
            let ghost prev = row@;
            let mut cur: Vec<usize> = Vec::with_capacity(n + 1);
            proof {
                assert(a.len() > 0);
                assert(rhs@.take(0).len() == 0);
            }
            cur.push(j);
            let mut i: usize = 1;
            while i <= n
                invariant
                    m == lhs@.len(),
                    n == rhs@.len(),
                    m < usize::MAX,
                    n < usize::MAX,
                    1 <= j <= m,
                    1 <= i <= n + 1,
                    a == lhs@.take(j as int),
                    lchar == lhs@[j - 1],
                    prev.len() == n + 1,
                    row@ == prev,
                    forall|k: int| 0 <= k <= n ==> #[trigger] prev[k] == lev(lhs@.take(j - 1), rhs@.take(k)),
                    cur.len() == i,
                    forall|k: int| 0 <= k < i ==> #[trigger] cur@[k] == lev(a, rhs@.take(k)),
                decreases n + 1 - i,
            {
                let rchar = rhs.as_str().get_char(i - 1);
                let cost: usize = if lchar == rchar {
                    0
                } else {
                    1
                };
                proof {
                    let b = rhs@.take(i as int);
                    assert(a.drop_last() =~= lhs@.take(j - 1));
                    assert(b.drop_last() =~= rhs@.take(i - 1));
                    assert(a.last() == lchar);
                    assert(b.last() == rchar);
                    lemma_lev_bound(lhs@.take(j - 1), rhs@.take(i - 1));
                    lemma_lev_bound(lhs@.take(j - 1), b);
                    lemma_lev_bound(a, rhs@.take(i - 1));
                }
                let diag = row[i - 1] + cost;
                let up = row[i] + 1;
                let left = cur[i - 1] + 1;
                let mut d = diag;
                if up < d {
                    d = up;
                }
                if left < d {
                    d = left;
                }
                cur.push(d);
                i += 1;
            }
            row = cur;
            j += 1;
        }
        proof {
            assert(lhs@.take(m as int) =~= lhs@);
            assert(rhs@.take(n as int) =~= rhs@);
        }
        row[n]
    }
}

/// The rating of a guess: the solution's length less the edit distance, or
/// 0 where the distance is larger (or where a length fills a `usize`, which
/// no string in memory does).
pub open spec fn closeness(solution: Seq<char>, guess: Seq<char>) -> u64 {
    if solution.len() >= usize::MAX || guess.len() >= usize::MAX {
        0
    } else if lev(solution, guess) <= solution.len() {
        (solution.len() - lev(solution, guess)) as u64
    } else {
        0
    }
}

impl Evaluator<String> for LevensteinEvaluation {
    open spec fn rating(&self, x: String) -> u64 {
        closeness(self.solution@, x@)
    }

    fn evaluator(&self, pop: &String) -> (r: u64) {
        let len = self.solution.as_str().unicode_len();
        let other = pop.as_str().unicode_len();
        if len == usize::MAX || other == usize::MAX {
            return 0;
        }
        let d = self.levenshtein_distance(&self.solution, pop);
        if d <= len {
            (len - d) as u64
        } else {
            0
        }
    }
}

/// `r` is `parent1` with every match of its run `pos..pos + len` replaced by
/// the same run of `parent2`.
pub open spec fn swaps_run(parent1: Seq<char>, parent2: Seq<char>, pos: int, len: int, r: Seq<char>) -> bool {
    &&& 0 <= pos
    &&& 1 <= len
    &&& pos + len <= parent1.len()
    &&& r == crate::rng::replaced(
        parent1,
        parent1.subrange(pos, pos + len),
        parent2.subrange(pos, pos + len),
    )
}

/// `r` comes of crossing `parent1` with `parent2` at some run; an empty
/// first parent, or a second parent shorter than the first, gives a copy of
/// the first.
pub open spec fn run_crossed(parent1: Seq<char>, parent2: Seq<char>, r: Seq<char>) -> bool {
    &&& parent1.len() == 0 || parent2.len() < parent1.len() ==> r == parent1
    &&& parent1.len() > 0 && parent2.len() >= parent1.len() ==> exists|pos: int, len: int|
        #[trigger] swaps_run(parent1, parent2, pos, len, r)
}

/// Crosses two strings: a random run of the first is replaced, wherever it
/// occurs in the first, by the run of the second at the same place.
pub struct BasicCrossover;

impl BasicCrossover {
    /// The child of two strings. An empty first parent, or a second parent
    /// shorter than the first, gives a copy of the first.
    pub fn cross(&self, parent1: &String, parent2: &String) -> (r: String)
        ensures
            run_crossed(parent1@, parent2@, r@),
    {
        let n = parent1.as_str().unicode_len();
        if n == 0 || parent2.as_str().unicode_len() < n {
            return parent1.clone();
        }
        let pos = random_range(0, n);
        let replace_len = random_range(0, n - pos) + 1;
        let from = parent1.as_str().substring_char(pos, pos + replace_len);
        let to = parent2.as_str().substring_char(pos, pos + replace_len);
        let r = replace_all(parent1.as_str(), from, to);
        assert(swaps_run(parent1@, parent2@, pos as int, replace_len as int, r@));
        r
    }
}

impl Crossover<String> for BasicCrossover {
    open spec fn crosses(&self, parent1: String, parent2: String, child: String) -> bool {
        run_crossed(parent1@, parent2@, child@)
    }

    fn crossover(&self, parent1: &String, parent2: &String) -> (child: String) {
        self.cross(parent1, parent2)
    }
}

/// How many leading positions `a` and `b` agree on.
pub open spec fn common_prefix(a: Seq<char>, b: Seq<char>) -> nat
    decreases a.len(),
{
    if a.len() == 0 || b.len() == 0 || a[0] != b[0] {
        0
    } else {
        1 + common_prefix(a.drop_first(), b.drop_first())
    }
}

/// The first position from `p` on where `s` holds `c`, or `s.len()`.
pub open spec fn first_from(s: Seq<char>, p: int, c: char) -> int
    decreases s.len() - p,
{
    if p < 0 || p >= s.len() {
        s.len() as int
    } else if s[p] == c {
        p
    } else {
        first_from(s, p + 1, c)
    }
}

/// How many characters of `guess`, from `i` on, are found in turn in
/// `solution` from position `p` on, each after the one before; the search
/// ends at the first character not found.
pub open spec fn found_in_turn(guess: Seq<char>, solution: Seq<char>, p: int, i: int) -> nat
    decreases guess.len() - i,
{
    if i < 0 || i >= guess.len() || first_from(solution, p, guess[i]) >= solution.len() {
        0
    } else {
        1 + found_in_turn(guess, solution, first_from(solution, p, guess[i]) + 1, i + 1)
    }
}

/// The score of a guess in half points: two for each leading character in
/// place and, where the whole guess starts the solution, one for each
/// character then found in turn in the rest of the solution.
pub open spec fn motus_score(solution: Seq<char>, guess: Seq<char>) -> nat {
    let placed = common_prefix(guess, solution);
    2 * placed + if placed == guess.len() {
        found_in_turn(guess, solution, placed as int, 0)
    } else {
        0
    }
}

/// `n`, or `u64::MAX` where `n` is larger.
pub open spec fn capped(n: nat) -> u64 {
    if n > u64::MAX {
        u64::MAX
    } else {
        n as u64
    }
}

/// Rates a guess as the word game does: a full point for each letter in its
/// place, half a point for each letter found elsewhere. Ratings count half
/// points.
pub struct MotusEvaluation {
    pub solution: String,
}

/// The characters of `s`.
fn chars_of(s: &String) -> (r: Vec<char>)
    ensures
        r@ == s@,
{
    let n = s.as_str().unicode_len();
    let mut r: Vec<char> = Vec::with_capacity(n);
    let mut i: usize = 0;
    while i < n
        invariant
            i <= n == s@.len(),
            r@ == s@.take(i as int),
        decreases n - i,
    {
        r.push(s.as_str().get_char(i));
        i += 1;
        assert(r@ =~= s@.take(i as int));
    }
    assert(s@.take(n as int) =~= s@);
    r
}

proof fn lemma_common_prefix(a: Seq<char>, b: Seq<char>, k: int)
    requires
        0 <= k <= a.len(),
        k <= b.len(),
        forall|j: int| 0 <= j < k ==> a[j] == b[j],
    ensures
        common_prefix(a, b) >= k,
        k < a.len() && k < b.len() && a[k] != b[k] ==> common_prefix(a, b) == k,
        (k == a.len() || k == b.len()) ==> common_prefix(a, b) == k,
    decreases k,
{
    if k > 0 {
        assert forall|j: int| 0 <= j < k - 1 implies a.drop_first()[j] == b.drop_first()[j] by {
            assert(a[j + 1] == b[j + 1]);
        }
        lemma_common_prefix(a.drop_first(), b.drop_first(), k - 1);
    }
}

proof fn lemma_first_from(s: Seq<char>, p: int, c: char)
    requires
        0 <= p,
    ensures
        p <= first_from(s, p, c) <= s.len() || (p > s.len() && first_from(s, p, c) == s.len()),
        first_from(s, p, c) < s.len() ==> s[first_from(s, p, c)] == c,
        forall|k: int| p <= k < first_from(s, p, c) && k < s.len() ==> s[k] != c,
    decreases s.len() - p,
{
    if p < s.len() && s[p] != c {
        lemma_first_from(s, p + 1, c);
    }
}

/// The first position from `p` on where `s` holds `c`, or `s.len()`.
fn find_from(s: &Vec<char>, p: usize, c: char) -> (r: usize)
    requires
        p <= s.len(),
    ensures
        r == first_from(s@, p as int, c),
{
    let mut k: usize = p;
    proof {
        lemma_first_from(s@, p as int, c);
    }
    while k < s.len()
        invariant
            p <= k <= s.len(),
            first_from(s@, k as int, c) == first_from(s@, p as int, c),
        decreases s.len() - k,
    {
        if s[k] == c {
            return k;
        }
        k += 1;
    }
    k
}

impl MotusEvaluation {
    /// The score of `guess` against the solution, in half points (capped at
    /// `u64::MAX`).
    pub fn score(&self, guess: &String) -> (r: u64)
        ensures
            r == capped(motus_score(self.solution@, guess@)),
    {
        let sol = chars_of(&self.solution);
        let pop = chars_of(guess);
        let mut placed: usize = 0;
        while placed < pop.len() && placed < sol.len() && pop[placed] == sol[placed]
            invariant
                placed <= pop.len(),
                placed <= sol.len(),
                forall|j: int| 0 <= j < placed ==> pop@[j] == sol@[j],
            decreases pop.len() - placed,
        {
            placed += 1;
        }
        proof {
            lemma_common_prefix(pop@, sol@, placed as int);
        }
        let mut found: u64 = 0;
        if placed == pop.len() {
            let mut p: usize = placed;
            let mut i: usize = 0;
            while i < pop.len()
                invariant
                    placed == pop.len() <= sol.len(),
                    i <= pop.len(),
                    p <= sol.len(),
                    found <= i,
                    found + found_in_turn(pop@, sol@, p as int, i as int) == found_in_turn(
                        pop@,
                        sol@,
                        placed as int,
                        0,
                    ),
                ensures
                    found == found_in_turn(pop@, sol@, placed as int, 0),
                decreases pop.len() - i,
            {
                let k = find_from(&sol, p, pop[i]);
                if k >= sol.len() {
                    break;
                }
                proof {
                    assert(found_in_turn(pop@, sol@, p as int, i as int) == 1 + found_in_turn(
                        pop@,
                        sol@,
                        k + 1,
                        i + 1,
                    ));
                }
                found += 1;
                p = k + 1;
                i += 1;
            }
        }
        let total: u128 = 2 * (placed as u128) + (found as u128);
        if total > u64::MAX as u128 {
            u64::MAX
        } else {
            total as u64
        }
    }
}

impl Evaluator<String> for MotusEvaluation {
    open spec fn rating(&self, x: String) -> u64 {
        capped(motus_score(self.solution@, x@))
    }

    fn evaluator(&self, pop: &String) -> (r: u64) {
        self.score(pop)
    }
}

} // verus!
