use vstd::prelude::*;
use crate::crossover::Crossover;
use crate::evaluator::Evaluator;
use crate::generator::Generator;
use crate::mutation::Mutation;
use crate::rng::{random_range, random_ratio};
use crate::sudoku::grid::{Cell, Distance, Sudoku};

verus! {

/// `c` is block `a` with the values of block `b`.
pub open spec fn takes_values(c: Cell, a: Cell, b: Cell) -> bool {
    &&& c.data@ == b.data@
    &&& c.row == a.row
    &&& c.col == a.col
    &&& c.immutables@ == a.immutables@
}

/// Block `a`, with the values of block `b` where `from_b` holds.
fn mixed_cell(a: &Cell, b: &Cell, from_b: bool) -> (r: Cell)
    ensures
        takes_values(r, *a, if from_b { *b } else { *a }),
{
    let mut r = a.duplicate();
    if from_b {
        r.data = b.data;
    }
    r
}

/// Grid `a` agrees with grid `b` block by block, on values, labels and
/// givens.
pub open spec fn same_grid(a: Sudoku, b: Sudoku) -> bool {
    forall|k: int| 0 <= k < 9 ==> takes_values(#[trigger] a.cells[k], b.cells[k], b.cells[k])
}

/// `r` is the first parent's blocks, each with the values of the same block
/// of one parent or the other.
pub open spec fn block_mix(parent1: Sudoku, parent2: Sudoku, r: Sudoku) -> bool {
    forall|k: int|
        0 <= k < 9 ==> takes_values(#[trigger] r.cells[k], parent1.cells[k], parent1.cells[k])
            || takes_values(r.cells[k], parent1.cells[k], parent2.cells[k])
}

/// `r` is the child of a cut at some block from 1 to 7.
pub open spec fn cut_somewhere(parent1: Sudoku, parent2: Sudoku, r: Sudoku) -> bool {
    exists|half: int| 1 <= half < 8 && #[trigger] cut_at(parent1, parent2, half, r)
}

/// Crossing a grid with itself block by block gives that grid back: a child
/// that `BasicCrossover::crossover` may make of two equal parents agrees with
/// them in every block.
pub proof fn lemma_basic_cross_of_twins(parent1: Sudoku, parent2: Sudoku, r: Sudoku)
    requires
        parent1 == parent2,
        BasicCrossover.crosses(parent1, parent2, r),
    ensures
        same_grid(r, parent1),
{
}

/// Crossing a grid with itself at any cut gives that grid back: a child
/// that `HalfCrossover::crossover` may make of two equal parents agrees with
/// them in every block.
pub proof fn lemma_half_cross_of_twins(parent1: Sudoku, parent2: Sudoku, r: Sudoku)
    requires
        parent1 == parent2,
        HalfCrossover.crosses(parent1, parent2, r),
    ensures
        same_grid(r, parent1),
{
    let half = choose|half: int| 1 <= half < 8 && #[trigger] cut_at(parent1, parent2, half, r);
    assert forall|k: int| 0 <= k < 9 implies takes_values(
        #[trigger] r.cells[k],
        parent1.cells[k],
        parent1.cells[k],
    ) by {
        assert(takes_values(
            r.cells[k],
            parent1.cells[k],
            if k >= half { parent2.cells[k] } else { parent1.cells[k] },
        ));
    }
}

/// Crosses two grids block by block: each block keeps the first parent's
/// values or takes the second's, with even chances.
pub struct BasicCrossover;

impl BasicCrossover {
    /// The child whose block `k` takes the second parent's values exactly
    /// where `from_second[k]` holds.
    pub fn cross_choosing(&self, parent1: &Sudoku, parent2: &Sudoku, from_second: &[bool; 9]) -> (r: Sudoku)
        ensures
            forall|k: int|
                0 <= k < 9 ==> takes_values(
                    #[trigger] r.cells[k],
                    parent1.cells[k],
                    if from_second@[k] { parent2.cells[k] } else { parent1.cells[k] },
                ),
    {
        Sudoku {
            cells: [
                mixed_cell(&parent1.cells[0], &parent2.cells[0], from_second[0]),
                mixed_cell(&parent1.cells[1], &parent2.cells[1], from_second[1]),
                mixed_cell(&parent1.cells[2], &parent2.cells[2], from_second[2]),
                mixed_cell(&parent1.cells[3], &parent2.cells[3], from_second[3]),
                mixed_cell(&parent1.cells[4], &parent2.cells[4], from_second[4]),
                mixed_cell(&parent1.cells[5], &parent2.cells[5], from_second[5]),
                mixed_cell(&parent1.cells[6], &parent2.cells[6], from_second[6]),
                mixed_cell(&parent1.cells[7], &parent2.cells[7], from_second[7]),
                mixed_cell(&parent1.cells[8], &parent2.cells[8], from_second[8]),
            ],
        }
    }

    /// The child: each block takes the second parent's values with a chance
    /// of one in two.
    pub fn cross(&self, parent1: &Sudoku, parent2: &Sudoku) -> (r: Sudoku)
        ensures
            block_mix(*parent1, *parent2, r),
    {
        let mut from_second = [false; 9];
        let mut k: usize = 0;
        while k < 9
            invariant
                k <= 9,
            decreases 9 - k,
        {
            from_second[k] = random_ratio(1, 2);
            k += 1;
        }
        let r = self.cross_choosing(parent1, parent2, &from_second);
        assert forall|k: int| 0 <= k < 9 implies takes_values(#[trigger] r.cells[k], parent1.cells[k], parent1.cells[k])
            || takes_values(r.cells[k], parent1.cells[k], parent2.cells[k]) by {
            assert(takes_values(
                r.cells[k],
                parent1.cells[k],
                if from_second@[k] { parent2.cells[k] } else { parent1.cells[k] },
            ));
        }
        r
    }
}

impl Crossover<Sudoku> for BasicCrossover {
    open spec fn crosses(&self, parent1: Sudoku, parent2: Sudoku, child: Sudoku) -> bool {
        block_mix(parent1, parent2, child)
    }

    fn crossover(&self, parent1: &Sudoku, parent2: &Sudoku) -> (child: Sudoku) {
        self.cross(parent1, parent2)
    }
}

/// `r` is the child of a cut at block `half`: the first parent's blocks, with
/// the values of the second from block `half` on.
pub open spec fn cut_at(parent1: Sudoku, parent2: Sudoku, half: int, r: Sudoku) -> bool {
    forall|k: int|
        0 <= k < 9 ==> takes_values(
            #[trigger] r.cells[k],
            parent1.cells[k],
            if k >= half { parent2.cells[k] } else { parent1.cells[k] },
        )
}

/// Crosses two grids at a random block: the blocks before it keep the first
/// parent's values, the others take the second's.
pub struct HalfCrossover;

impl HalfCrossover {
    /// The child of a cut at block `half`, 1 to 7.
    pub fn cross_at(&self, parent1: &Sudoku, parent2: &Sudoku, half: usize) -> (r: Sudoku)
        ensures
            cut_at(*parent1, *parent2, half as int, r),
    {
        Sudoku {
            cells: [
                mixed_cell(&parent1.cells[0], &parent2.cells[0], 0 >= half),
                mixed_cell(&parent1.cells[1], &parent2.cells[1], 1 >= half),
                mixed_cell(&parent1.cells[2], &parent2.cells[2], 2 >= half),
                mixed_cell(&parent1.cells[3], &parent2.cells[3], 3 >= half),
                mixed_cell(&parent1.cells[4], &parent2.cells[4], 4 >= half),
                mixed_cell(&parent1.cells[5], &parent2.cells[5], 5 >= half),
                mixed_cell(&parent1.cells[6], &parent2.cells[6], 6 >= half),
                mixed_cell(&parent1.cells[7], &parent2.cells[7], 7 >= half),
                mixed_cell(&parent1.cells[8], &parent2.cells[8], 8 >= half),
            ],
        }
    }

    /// The child of a cut at a random block from 1 to 7.
    pub fn cross(&self, parent1: &Sudoku, parent2: &Sudoku) -> (r: Sudoku)
        ensures
            cut_somewhere(*parent1, *parent2, r),
    {
        let half = random_range(1, 8);
        self.cross_at(parent1, parent2, half)
    }
}

impl Crossover<Sudoku> for HalfCrossover {
    open spec fn crosses(&self, parent1: Sudoku, parent2: Sudoku, child: Sudoku) -> bool {
        cut_somewhere(parent1, parent2, child)
    }

    fn crossover(&self, parent1: &Sudoku, parent2: &Sudoku) -> (child: Sudoku) {
        self.cross(parent1, parent2)
    }
}

/// Rates a grid by how few faults it has: 255 less its faults.
pub struct BasicEvaluation;

impl Evaluator<Sudoku> for BasicEvaluation {
    open spec fn rating(&self, x: Sudoku) -> u64 {
        (255 - crate::sudoku::grid::grid_faults(x)) as u64
    }

    fn evaluator(&self, pop: &Sudoku) -> (r: u64) {
        let mut val: u8 = 0;
        if let Err(Distance(d)) = pop.validate() {
            val += d;
        }
        (255 - val) as u64
    }
}

/// Block `d` holds the values of block `c` filled, in some order, with the
/// given positions, labels and givens of `c` kept.
pub open spec fn filled_block_of(c: Cell, d: Cell) -> bool {
    let f = crate::sudoku::grid::filled(c.data@);
    &&& d.data@.to_multiset() == f.to_multiset()
    &&& forall|q: int| 0 <= q < 9 && c.immutables@.contains(q as usize) ==> d.data@[q] == f[q]
    &&& d.row == c.row
    &&& d.col == c.col
    &&& d.immutables@ == c.immutables@
}

/// Each block of `x` is the block of the puzzle `p`, filled and shuffled.
pub open spec fn solves_from(p: Sudoku, x: Sudoku) -> bool {
    forall|k: int| 0 <= k < 9 ==> #[trigger] filled_block_of(p.cells[k], x.cells[k])
}

/// Generates grids from a puzzle: fills each block with the digits it lacks,
/// then shuffles the values the puzzle does not give.
pub struct BasicGenerator {
    pub sudoku: Sudoku,
}

impl Generator<Sudoku> for BasicGenerator {
    open spec fn can_generate(&self) -> bool {
        forall|k: int| 0 <= k < 9 ==> crate::sudoku::grid::fillable(#[trigger] self.sudoku.cells[k].data@)
    }

    open spec fn yields(&self, x: Sudoku) -> bool {
        solves_from(self.sudoku, x)
    }

    fn generator(&self) -> (x: Sudoku) {
        let filled = self.sudoku.fill();
        let x = filled.randomize();
        assert forall|k: int| 0 <= k < 9 implies #[trigger] filled_block_of(self.sudoku.cells[k], x.cells[k]) by {
            assert(crate::sudoku::grid::keeps_givens(filled.cells[k], x.cells[k]));
        }
        x
    }
}

/// Swaps random pairs of the movable values of `cell`: as many rounds as it
/// has movable positions, each swapping the next two with a chance of one in
/// five.
fn shake_cell(cell: &mut Cell)
    ensures
        crate::sudoku::grid::keeps_givens(*old(cell), *final(cell)),
{
    let mut to_permute = cell.shuffled_movable();
    let rounds = to_permute.len();
    let ghost start = *cell;
    let mut i: usize = 0;
    while i < rounds
        invariant
            forall|k: int| 0 <= k < to_permute.len() ==> #[trigger] to_permute@[k] < 9
                && !cell.immutables@.contains(to_permute@[k]),
            crate::sudoku::grid::keeps_givens(start, *cell),
            start == *old(cell),
        decreases rounds - i,
    {
        if random_ratio(1, 5) && to_permute.len() > 1 {
            let n = to_permute.len();
            let a = to_permute[n - 1];
            let b = to_permute[n - 2];
            to_permute.truncate(n - 2);
            cell.swap_movable(a, b);
        }
        i += 1;
    }
}

/// Every block of `after` keeps the values and givens of that block of
/// `before`.
pub open spec fn all_blocks_keep_givens(before: Sudoku, after: Sudoku) -> bool {
    forall|k: int| 0 <= k < 9 ==> crate::sudoku::grid::keeps_givens(before.cells[k], #[trigger] after.cells[k])
}

/// One block of `after` keeps the values and givens of that block of
/// `before`, and the others are unchanged.
pub open spec fn one_block_keeps_givens(before: Sudoku, after: Sudoku) -> bool {
    exists|m: int|
        0 <= m < 9 && crate::sudoku::grid::keeps_givens(before.cells[m], #[trigger] after.cells[m])
            && forall|j: int| 0 <= j < 9 && j != m ==> after.cells[j] == before.cells[j]
}

/// Mutates every block by swapping random pairs of its movable values.
pub struct BasicMutation;

impl BasicMutation {
    /// Each block keeps its values, in some order, and its given positions.
    pub fn shake(&self, pop: &mut Sudoku)
        ensures
            all_blocks_keep_givens(*old(pop), *final(pop)),
    {
        let mut k: usize = 0;
        while k < 9
            invariant
                k <= 9,
                forall|j: int| 0 <= j < k ==> crate::sudoku::grid::keeps_givens(old(pop).cells[j], #[trigger] pop.cells[j]),
                forall|j: int| k <= j < 9 ==> #[trigger] pop.cells[j] == old(pop).cells[j],
            decreases 9 - k,
        {
            shake_cell(&mut pop.cells[k]);
            k += 1;
        }
    }
}

impl Mutation<Sudoku> for BasicMutation {
    open spec fn mutates(&self, before: Sudoku, after: Sudoku) -> bool {
        all_blocks_keep_givens(before, after)
    }

    fn mutation(&self, pop: &mut Sudoku) {
        self.shake(pop)
    }
}

/// Mutates one random block by swapping two of its movable values.
pub struct SingleMutation;

impl SingleMutation {
    /// One block has two of its movable values swapped, and the grid is
    /// otherwise unchanged; a block with fewer than two movable positions
    /// stays as it is.
    pub fn swap_one(&self, pop: &mut Sudoku)
        ensures
            one_block_keeps_givens(*old(pop), *final(pop)),
    {
        let m = random_range(0, 9);
        let to_permute = pop.cells[m].shuffled_movable();
        let n = to_permute.len();
        if n >= 2 {
            let a = to_permute[n - 1];
            let b = to_permute[n - 2];
            self.swap_in_block(pop, m, a, b);
        }
        assert(crate::sudoku::grid::keeps_givens(old(pop).cells[m as int], pop.cells[m as int]));
    }

    /// Swaps the values at positions `a` and `b` of block `m`, neither of
    /// them given by the puzzle; the rest of the grid is unchanged.
    pub fn swap_in_block(&self, pop: &mut Sudoku, m: usize, a: usize, b: usize)
        requires
            m < 9,
            a < 9,
            b < 9,
            !old(pop).cells[m as int].immutables@.contains(a),
            !old(pop).cells[m as int].immutables@.contains(b),
        ensures
            crate::sudoku::grid::keeps_givens(old(pop).cells[m as int], final(pop).cells[m as int]),
            final(pop).cells[m as int].data@ == old(pop).cells[m as int].data@.update(
                a as int,
                old(pop).cells[m as int].data@[b as int],
            ).update(b as int, old(pop).cells[m as int].data@[a as int]),
            forall|j: int| 0 <= j < 9 && j != m ==> final(pop).cells[j] == old(pop).cells[j],
    {
        pop.cells[m].swap_movable(a, b);
    }
}

impl Mutation<Sudoku> for SingleMutation {
    open spec fn mutates(&self, before: Sudoku, after: Sudoku) -> bool {
        one_block_keeps_givens(before, after)
    }

    fn mutation(&self, pop: &mut Sudoku) {
        self.swap_one(pop)
    }
}

} // verus!
