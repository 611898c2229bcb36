use vstd::prelude::*;
use crate::rng::shuffle;

verus! {

/// A block column of the grid, or a column within a block.
#[derive(Debug, Clone, Copy, PartialEq, Eq, Structural)]
pub enum Col {
    Left,
    Center,
    Right,
}

/// A block row of the grid, or a row within a block.
#[derive(Debug, Clone, Copy, PartialEq, Eq, Structural)]
pub enum Row {
    Up,
    Center,
    Down,
}

/// How far a group of values is from being valid: the number of faults.
#[derive(Debug, Clone, Copy, PartialEq, Eq, Structural)]
pub struct Distance(pub u8);

/// The column numbered `x`; any number past 2 reads as the first.
pub open spec fn col_of(x: u8) -> Col {
    if x == 1 {
        Col::Center
    } else if x == 2 {
        Col::Right
    } else {
        Col::Left
    }
}

/// The row numbered `x`; any number past 2 reads as the first.
pub open spec fn row_of(x: u8) -> Row {
    if x == 1 {
        Row::Center
    } else if x == 2 {
        Row::Down
    } else {
        Row::Up
    }
}

impl Col {
    pub open spec fn num(self) -> int {
        match self {
            Col::Left => 0,
            Col::Center => 1,
            Col::Right => 2,
        }
    }

    pub fn from(x: u8) -> (c: Col)
        ensures
            c == col_of(x),
    {
        match x {
            1 => Col::Center,
            2 => Col::Right,
            _ => Col::Left,
        }
    }

    /// The number of the column, 0 to 2.
    pub fn index(self) -> (i: usize)
        ensures
            i == self.num(),
    {
        match self {
            Col::Left => 0,
            Col::Center => 1,
            Col::Right => 2,
        }
    }
}

impl Row {
    pub open spec fn num(self) -> int {
        match self {
            Row::Up => 0,
            Row::Center => 1,
            Row::Down => 2,
        }
    }

    pub fn from(x: u8) -> (r: Row)
        ensures
            r == row_of(x),
    {
        match x {
            1 => Row::Center,
            2 => Row::Down,
            _ => Row::Up,
        }
    }

    /// The number of the row, 0 to 2.
    pub fn index(self) -> (i: usize)
        ensures
            i == self.num(),
    {
        match self {
            Row::Up => 0,
            Row::Center => 1,
            Row::Down => 2,
        }
    }
}

/// Position `i` of `d` is at fault: its predecessor occurs again from `i` on,
/// or it holds no digit from 1 to 9.
pub open spec fn fault_at(d: Seq<u8>, i: int) -> bool {
    d.subrange(i, d.len() as int).contains(d[i - 1]) || !(1 <= d[i] <= 9)
}

/// The faults at positions `1..k` of `d`.
pub open spec fn faults_upto(d: Seq<u8>, k: int) -> nat
    decreases k,
{
    if k <= 1 {
        0
    } else {
        faults_upto(d, k - 1) + if fault_at(d, k - 1) {
            1nat
        } else {
            0nat
        }
    }
}

/// The faults of a group of nine values.
pub open spec fn faults(d: Seq<u8>) -> nat {
    faults_upto(d, d.len() as int)
}

/// A group of `k` values has at most `k - 1` faults.
proof fn lemma_faults_bound(d: Seq<u8>, k: int)
    ensures
        faults_upto(d, k) <= if k <= 1 { 0 } else { k - 1 },
    decreases k,
{
    if k > 1 {
        lemma_faults_bound(d, k - 1);
    }
}

/// The verdict on a number of faults.
pub open spec fn verdict(e: nat) -> Result<(), Distance> {
    if e == 0 {
        Ok(())
    } else {
        Err(Distance(e as u8))
    }
}

/// The positions of `d[0..k]` that hold a digit from 1 to 9.
pub open spec fn fixed_upto(d: Seq<u8>, k: int) -> Seq<usize>
    decreases k,
{
    if k <= 0 {
        Seq::empty()
    } else if 1 <= d[k - 1] <= 9 {
        fixed_upto(d, k - 1).push((k - 1) as usize)
    } else {
        fixed_upto(d, k - 1)
    }
}

/// The digits from 1 to `v` that `d` lacks, in ascending order.
pub open spec fn missing_upto(d: Seq<u8>, v: int) -> Seq<u8>
    decreases v,
{
    if v <= 0 {
        Seq::empty()
    } else if d.contains(v as u8) {
        missing_upto(d, v - 1)
    } else {
        missing_upto(d, v - 1).push(v as u8)
    }
}

/// The digits that `d` lacks, in ascending order.
pub open spec fn missing(d: Seq<u8>) -> Seq<u8> {
    missing_upto(d, 9)
}

/// How many of `d[0..i]` are empty (zero).
pub open spec fn zeros_before(d: Seq<u8>, i: int) -> nat
    decreases i,
{
    if i <= 0 {
        0
    } else {
        zeros_before(d, i - 1) + if d[i - 1] == 0 {
            1nat
        } else {
            0nat
        }
    }
}

/// Counting zeros over a longer prefix gives no fewer.
proof fn lemma_zeros_before_mono(d: Seq<u8>, i: int, j: int)
    requires
        i <= j,
    ensures
        zeros_before(d, i) <= zeros_before(d, j),
    decreases j - i,
{
    if i < j {
        lemma_zeros_before_mono(d, i, j - 1);
    }
}

/// `d` has no more empty positions than digits it lacks.
pub open spec fn fillable(d: Seq<u8>) -> bool {
    zeros_before(d, d.len() as int) <= missing(d).len()
}

/// `d` with its empty positions filled, in order, by the digits it lacks,
/// the largest first.
pub open spec fn filled(d: Seq<u8>) -> Seq<u8> {
    Seq::new(
        d.len(),
        |i: int|
            if d[i] == 0 {
                missing(d)[missing(d).len() - 1 - zeros_before(d, i)]
            } else {
                d[i]
            },
    )
}

/// The positions below `k` that `imm` does not list, ascending.
pub open spec fn movable_upto(imm: Seq<usize>, k: int) -> Seq<usize>
    decreases k,
{
    if k <= 0 {
        Seq::empty()
    } else if imm.contains((k - 1) as usize) {
        movable_upto(imm, k - 1)
    } else {
        movable_upto(imm, k - 1).push((k - 1) as usize)
    }
}

proof fn lemma_movable(imm: Seq<usize>, k: int)
    requires
        0 <= k <= 9,
    ensures
        forall|j: int|
            0 <= j < movable_upto(imm, k).len() ==> #[trigger] movable_upto(imm, k)[j] < k
                && !imm.contains(movable_upto(imm, k)[j]),
    decreases k,
{
    if k > 0 {
        lemma_movable(imm, k - 1);
        let prev = movable_upto(imm, k - 1);
        assert forall|j: int| 0 <= j < movable_upto(imm, k).len() implies #[trigger] movable_upto(imm, k)[j]
            < k && !imm.contains(movable_upto(imm, k)[j]) by {
            if j < prev.len() {
                assert(movable_upto(imm, k)[j] == prev[j]);
            }
        }
    }
}

/// Swapping two values keeps the values a sequence holds.
proof fn lemma_swap_multiset(d: Seq<u8>, a: int, b: int)
    requires
        0 <= a < d.len(),
        0 <= b < d.len(),
    ensures
        d.update(a, d[b]).update(b, d[a]).to_multiset() == d.to_multiset(),
{
    broadcast use vstd::seq_lib::to_multiset_update;
    broadcast use vstd::multiset::group_multiset_properties;
    let d1 = d.update(a, d[b]);
    assert(d1.to_multiset() == d.to_multiset().insert(d[b]).remove(d[a]));
    if a == b {
        assert(d1 =~= d);
        assert(d1.update(b, d[a]) =~= d);
    } else {
        assert(d1[b] == d[b]);
        assert(d1.update(b, d[a]).to_multiset() == d1.to_multiset().insert(d[a]).remove(d[b]));
        broadcast use vstd::seq_lib::to_multiset_contains;
        assert(d.contains(d[a]));
        assert(d.to_multiset().count(d[a]) > 0);
        assert(d.to_multiset().insert(d[b]).remove(d[a]).insert(d[a]).remove(d[b]) =~= d.to_multiset());
    }
}

/// `after` holds the values of `before`, in some order, with the immutable
/// positions unchanged and the rest of the block as it was.
pub open spec fn keeps_givens(before: Cell, after: Cell) -> bool {
    &&& after.data@.to_multiset() == before.data@.to_multiset()
    &&& forall|p: int| 0 <= p < 9 && before.immutables@.contains(p as usize) ==> after.data@[p] == before.data@[p]
    &&& after.row == before.row
    &&& after.col == before.col
    &&& after.immutables@ == before.immutables@
}

/// One of the nine blocks of a grid.
#[derive(Debug, Clone, PartialEq)]
pub struct Cell {
    pub data: [u8; 9],
    pub row: Row,
    pub col: Col,
    /// The positions given by the puzzle, which stay as they are.
    pub immutables: Vec<usize>,
}

/// `v` occurs in `d[from..]`.
fn occurs(d: &[u8; 9], from: usize, v: u8) -> (r: bool)
    requires
        from <= 9,
    ensures
        r == d@.subrange(from as int, 9).contains(v),
{
    let mut j: usize = from;
    while j < 9
        invariant
            from <= j <= 9,
            forall|k: int| from <= k < j ==> d@[k] != v,
        decreases 9 - j,
    {
        if d[j] == v {
            assert(d@.subrange(from as int, 9)[j - from] == v);
            return true;
        }
        j += 1;
    }
    assert forall|k: int| 0 <= k < 9 - from implies d@.subrange(from as int, 9)[k] != v by {
        assert(d@.subrange(from as int, 9)[k] == d@[from + k]);
    }
    false
}

/// `v` occurs in `s`.
fn listed(s: &Vec<usize>, v: usize) -> (r: bool)
    ensures
        r == s@.contains(v),
{
    let mut j: usize = 0;
    while j < s.len()
        invariant
            j <= s.len(),
            forall|k: int| 0 <= k < j ==> s@[k] != v,
        decreases s.len() - j,
    {
        if s[j] == v {
            return true;
        }
        j += 1;
    }
    false
}

/// The faults of nine values, as a verdict.
pub fn judge(data: &[u8; 9]) -> (r: Result<(), Distance>)
    ensures
        r == verdict(faults(data@)),
        faults(data@) <= 8,
{
    let mut error: u8 = 0;
    let mut i: usize = 1;
    while i < 9
        invariant
            1 <= i <= 9,
            error == faults_upto(data@, i as int),
            error < i,
        decreases 9 - i,
    {
        if occurs(data, i, data[i - 1]) || !(1 <= data[i] && data[i] <= 9) {
            error += 1;
        }
        i += 1;
    }
    if error > 0 {
        Err(Distance(error))
    } else {
        Ok(())
    }
}

impl Cell {
    /// A block holding `data`, at block row `row` and block column `col`; its
    /// positions that hold a digit from 1 to 9 become immutable.
    pub fn new(data: &[u8; 9], row: u8, col: u8) -> (r: Self)
        ensures
            r.data@ == data@,
            r.row == row_of(row),
            r.col == col_of(col),
            r.immutables@ == fixed_upto(data@, 9),
    {
        let new_data: [u8; 9] = *data;
        let mut immutables: Vec<usize> = Vec::with_capacity(9);
        let mut i: usize = 0;
        while i < 9
            invariant
                i <= 9,
                immutables@ == fixed_upto(data@, i as int),
            decreases 9 - i,
        {
            if 1 <= data[i] && data[i] <= 9 {
                immutables.push(i);
            }
            i += 1;
        }
        Cell { data: new_data, row: Row::from(row), col: Col::from(col), immutables }
    }

    /// The faults of the block: `Ok` where there is none.
    pub fn validate(&self) -> (r: Result<(), Distance>)
        ensures
            r == verdict(faults(self.data@)),
    {
        judge(&self.data)
    }

    /// Fills the empty positions, in order, with the digits the block lacks,
    /// the largest first. There must be no more empty positions than missing
    /// digits.
    pub fn fill(&mut self)
        requires
            fillable(old(self).data@),
        ensures
            final(self).data@ == filled(old(self).data@),
            final(self).row == old(self).row,
            final(self).col == old(self).col,
            final(self).immutables@ == old(self).immutables@,
    {
        let ghost d = self.data@;
        let mut missing_vals: Vec<u8> = Vec::with_capacity(9);
        let mut v: u8 = 1;
        while v <= 9
            invariant
                1 <= v <= 10,
                d == self.data@,
                missing_vals@ == missing_upto(d, v - 1),
            decreases 10 - v,
        {
            if !occurs(&self.data, 0, v) {
                missing_vals.push(v);
            }
            proof {
                assert(d.subrange(0, 9) =~= d);
            }
            v += 1;
        }
        let ghost m = missing(d);
        let mut i: usize = 0;
        while i < 9
            invariant
                i <= 9,
                d.len() == 9,
                fillable(d),
                m == missing(d),
                zeros_before(d, i as int) <= m.len(),
                missing_vals@ == m.take(m.len() - zeros_before(d, i as int)),
                forall|j: int| 0 <= j < i ==> self.data@[j] == filled(d)[j],
                forall|j: int| i <= j < 9 ==> self.data@[j] == d[j],
                self.row == old(self).row,
                self.col == old(self).col,
                self.immutables@ == old(self).immutables@,
            decreases 9 - i,
        {
            proof {
                lemma_zeros_before_mono(d, i as int + 1, 9);
            }
            if self.data[i] == 0 {
                let last = missing_vals.len() - 1;
                let x = missing_vals[last];
                missing_vals.truncate(last);
                self.data[i] = x;
                proof {
                    assert(missing_vals@ =~= m.take(m.len() - zeros_before(d, i as int + 1)));
                }
            } else {
                proof {
                    assert(missing_vals@ =~= m.take(m.len() - zeros_before(d, i as int + 1)));
                }
            }
            i += 1;
        }
        assert(self.data@ =~= filled(d));
    }

    /// The positions of the block that are not immutable, ascending.
    pub fn movable(&self) -> (r: Vec<usize>)
        ensures
            r@ == movable_upto(self.immutables@, 9),
    {
        let mut r: Vec<usize> = Vec::with_capacity(9);
        let mut i: usize = 0;
        while i < 9
            invariant
                i <= 9,
                r@ == movable_upto(self.immutables@, i as int),
            decreases 9 - i,
        {
            if !listed(&self.immutables, i) {
                r.push(i);
            }
            i += 1;
        }
        r
    }

    /// Swaps the values at two positions that are not immutable.
    pub fn swap_movable(&mut self, a: usize, b: usize)
        requires
            a < 9,
            b < 9,
            !old(self).immutables@.contains(a),
            !old(self).immutables@.contains(b),
        ensures
            keeps_givens(*old(self), *final(self)),
            final(self).data@ == old(self).data@.update(a as int, old(self).data@[b as int]).update(
                b as int,
                old(self).data@[a as int],
            ),
    {
        let ghost d = self.data@;
        let x = self.data[a];
        let y = self.data[b];
        self.data[a] = y;
        self.data[b] = x;
        proof {
            lemma_swap_multiset(d, a as int, b as int);
            assert(self.data@ =~= d.update(a as int, d[b as int]).update(b as int, d[a as int]));
        }
    }

    /// The positions that are not immutable, in a random order.
    pub fn shuffled_movable(&self) -> (r: Vec<usize>)
        ensures
            forall|k: int| 0 <= k < r.len() ==> #[trigger] r@[k] < 9 && !self.immutables@.contains(r@[k]),
    {
        let mut to_permute = self.movable();
        proof {
            lemma_movable(self.immutables@, 9);
        }
        let ghost before = to_permute@;
        shuffle(&mut to_permute);
        proof {
            broadcast use vstd::seq_lib::to_multiset_contains;
            assert forall|k: int| 0 <= k < to_permute.len() implies #[trigger] to_permute@[k] < 9
                && !self.immutables@.contains(to_permute@[k]) by {
                assert(to_permute@.contains(to_permute@[k]));
                assert(to_permute@.to_multiset().count(to_permute@[k]) > 0);
                assert(before.to_multiset().count(to_permute@[k]) > 0);
                assert(before.contains(to_permute@[k]));
            }
        }
        to_permute
    }

    /// Shuffles the values at the positions that are not immutable.
    pub fn randomize(&mut self)
        ensures
            keeps_givens(*old(self), *final(self)),
    {
        let mut to_permute = self.shuffled_movable();
        if to_permute.len() < 2 {
            return;
        }
        let ghost start = *self;
        while to_permute.len() > 1
            invariant
                forall|k: int| 0 <= k < to_permute.len() ==> #[trigger] to_permute@[k] < 9
                    && !self.immutables@.contains(to_permute@[k]),
                keeps_givens(start, *self),
                start == *old(self),
            decreases to_permute.len(),
        {
            let n = to_permute.len();
            let a = to_permute[n - 1];
            let b = to_permute[n - 2];
            to_permute.truncate(n - 2);
            self.swap_movable(a, b);
        }
    }

    /// Whether the block has no more empty positions than missing digits, as
    /// `fill` needs.
    pub fn can_fill(&self) -> (r: bool)
        ensures
            r == fillable(self.data@),
    {
        let mut zeros: usize = 0;
        let mut i: usize = 0;
        while i < 9
            invariant
                i <= 9,
                zeros == zeros_before(self.data@, i as int),
                zeros <= i,
            decreases 9 - i,
        {
            if self.data[i] == 0 {
                zeros += 1;
            }
            i += 1;
        }
        let mut lacking: usize = 0;
        let mut v: u8 = 1;
        while v <= 9
            invariant
                1 <= v <= 10,
                lacking == missing_upto(self.data@, v - 1).len(),
                lacking < v,
            decreases 10 - v,
        {
            if !occurs(&self.data, 0, v) {
                lacking += 1;
            }
            proof {
                assert(self.data@.subrange(0, 9) =~= self.data@);
            }
            v += 1;
        }
        zeros <= lacking
    }

    /// A copy of the block.
    pub fn duplicate(&self) -> (r: Self)
        ensures
            r.data@ == self.data@,
            r.row == self.row,
            r.col == self.col,
            r.immutables@ == self.immutables@,
    {
        let immutables = self.immutables.clone();
        assert(immutables@ =~= self.immutables@);
        Cell { data: self.data, row: self.row, col: self.col, immutables }
    }
}

impl Default for Cell {
    fn default() -> (r: Self)
        ensures
            r.data@ == Seq::new(9, |i: int| 0u8),
            r.row == Row::Up,
            r.col == Col::Left,
            r.immutables@ == Seq::<usize>::empty(),
    {
        let r = Cell { data: [0; 9], row: Row::Up, col: Col::Left, immutables: Vec::new() };
        assert(r.data@ =~= Seq::new(9, |i: int| 0u8));
        r
    }
}

/// The nine values of a column within blocks: column `sc` of each block of
/// `cells` in turn, then zeros where there are fewer than three blocks.
pub open spec fn stacked_col(cells: Seq<Cell>, sc: int) -> Seq<u8> {
    Seq::new(9, |i: int| if i < 3 * cells.len() { cells[i / 3].data@[sc + 3 * (i % 3)] } else { 0 })
}

/// The nine values of a row within blocks: row `sr` of each block of `cells`
/// in turn, then zeros where there are fewer than three blocks.
pub open spec fn stacked_row(cells: Seq<Cell>, sr: int) -> Seq<u8> {
    Seq::new(9, |i: int| if i < 3 * cells.len() { cells[i / 3].data@[3 * sr + i % 3] } else { 0 })
}

/// A grid of nine blocks; block `k` sits at block row `k / 3` and block
/// column `k % 3`.
#[derive(Debug, Clone, PartialEq)]
pub struct Sudoku {
    pub cells: [Cell; 9],
}

/// The blocks of block column `c`, top to bottom.
pub open spec fn col_cells(s: Sudoku, c: int) -> Seq<Cell> {
    seq![s.cells[c], s.cells[c + 3], s.cells[c + 6]]
}

/// The blocks of block row `r`, left to right.
pub open spec fn row_cells(s: Sudoku, r: int) -> Seq<Cell> {
    seq![s.cells[3 * r], s.cells[3 * r + 1], s.cells[3 * r + 2]]
}

/// The blocks that `cells` refer to.
pub open spec fn blocks(cells: Seq<&Cell>) -> Seq<Cell> {
    cells.map_values(|c: &Cell| *c)
}

/// The faults of the first `k` blocks.
pub open spec fn block_faults(s: Sudoku, k: int) -> nat
    decreases k,
{
    if k <= 0 {
        0
    } else {
        block_faults(s, k - 1) + faults(s.cells[k - 1].data@)
    }
}

/// The faults of the first `k` grid columns (`k / 3` full block columns).
pub open spec fn col_faults(s: Sudoku, k: int) -> nat
    decreases k,
{
    if k <= 0 {
        0
    } else {
        col_faults(s, k - 1) + faults(stacked_col(col_cells(s, (k - 1) / 3), (k - 1) % 3))
    }
}

/// The faults of the first `k` grid rows.
pub open spec fn row_faults(s: Sudoku, k: int) -> nat
    decreases k,
{
    if k <= 0 {
        0
    } else {
        row_faults(s, k - 1) + faults(stacked_row(row_cells(s, (k - 1) / 3), (k - 1) % 3))
    }
}

/// All the faults of a grid: in its blocks, its columns and its rows.
pub open spec fn grid_faults(s: Sudoku) -> nat {
    block_faults(s, 9) + col_faults(s, 9) + row_faults(s, 9)
}

/// Block `c` with its empty positions filled.
fn filled_cell(c: &Cell) -> (r: Cell)
    requires
        fillable(c.data@),
    ensures
        r.data@ == filled(c.data@),
        r.row == c.row,
        r.col == c.col,
        r.immutables@ == c.immutables@,
{
    let mut r = c.duplicate();
    r.fill();
    r
}

/// Block `c` with its movable values shuffled.
fn randomized_cell(c: &Cell) -> (r: Cell)
    ensures
        keeps_givens(*c, r),
{
    let mut r = c.duplicate();
    r.randomize();
    r
}

impl Sudoku {
    /// The grid whose block `k` holds `data[k]`, at block row `k / 3` and
    /// block column `k % 3`.
    pub fn new(data: [[u8; 9]; 9]) -> (r: Self)
        ensures
            forall|k: int|
                0 <= k < 9 ==> {
                    &&& (#[trigger] r.cells[k]).data@ == data[k]@
                    &&& r.cells[k].row == row_of((k / 3) as u8)
                    &&& r.cells[k].col == col_of((k % 3) as u8)
                    &&& r.cells[k].immutables@ == fixed_upto(data[k]@, 9)
                },
    {
        let cells = [
            Cell::new(&data[0], 0, 0),
            Cell::new(&data[1], 0, 1),
            Cell::new(&data[2], 0, 2),
            Cell::new(&data[3], 1, 0),
            Cell::new(&data[4], 1, 1),
            Cell::new(&data[5], 1, 2),
            Cell::new(&data[6], 2, 0),
            Cell::new(&data[7], 2, 1),
            Cell::new(&data[8], 2, 2),
        ];
        Sudoku { cells }
    }

    /// The faults of nine values.
    pub fn validate_data(&self, data: [u8; 9]) -> (r: Result<(), Distance>)
        ensures
            r == verdict(faults(data@)),
    {
        judge(&data)
    }

    /// The faults of column `sub_col` within the blocks `cells`, stacked.
    pub fn validate_col(&self, cells: Vec<&Cell>, sub_col: Col) -> (r: Result<(), Distance>)
        requires
            cells.len() <= 3,
        ensures
            r == verdict(faults(stacked_col(blocks(cells@), sub_col.num()))),
    {
        let sc = sub_col.index();
        let mut datas = [0u8; 9];
        let mut t: usize = 0;
        while t < cells.len()
            invariant
                cells.len() <= 3,
                t <= cells.len(),
                sc == sub_col.num(),
                forall|i: int| 0 <= i < 9 ==> #[trigger] datas@[i] == if i < 3 * t {
                    stacked_col(blocks(cells@), sc as int)[i]
                } else {
                    0
                },
            decreases cells.len() - t,
        {
            let mut x: usize = 0;
            while x < 3
                invariant
                    cells.len() <= 3,
                    t < cells.len(),
                    x <= 3,
                    sc == sub_col.num(),
                    forall|i: int| 0 <= i < 9 ==> #[trigger] datas@[i] == if i < 3 * t + x {
                        stacked_col(blocks(cells@), sc as int)[i]
                    } else {
                        0
                    },
                decreases 3 - x,
            {
                datas[3 * t + x] = cells[t].data[sc + x * 3];
                proof {
                    let i = 3 * t + x;
                    assert(i / 3 == t && i % 3 == x);
                }
                x += 1;
            }
            t += 1;
        }
        assert(datas@ =~= stacked_col(blocks(cells@), sc as int));
        self.validate_data(datas)
    }

    /// The faults of row `sub_row` within the blocks `cells`, side by side.
    pub fn validate_row(&self, cells: Vec<&Cell>, sub_row: Row) -> (r: Result<(), Distance>)
        requires
            cells.len() <= 3,
        ensures
            r == verdict(faults(stacked_row(blocks(cells@), sub_row.num()))),
    {
        let sr = sub_row.index();
        let mut datas = [0u8; 9];
        let mut t: usize = 0;
        while t < cells.len()
            invariant
                cells.len() <= 3,
                t <= cells.len(),
                sr == sub_row.num(),
                forall|i: int| 0 <= i < 9 ==> #[trigger] datas@[i] == if i < 3 * t {
                    stacked_row(blocks(cells@), sr as int)[i]
                } else {
                    0
                },
            decreases cells.len() - t,
        {
            let mut x: usize = 0;
            while x < 3
                invariant
                    cells.len() <= 3,
                    t < cells.len(),
                    x <= 3,
                    sr == sub_row.num(),
                    forall|i: int| 0 <= i < 9 ==> #[trigger] datas@[i] == if i < 3 * t + x {
                        stacked_row(blocks(cells@), sr as int)[i]
                    } else {
                        0
                    },
                decreases 3 - x,
            {
                datas[3 * t + x] = cells[t].data[sr * 3 + x];
                proof {
                    let i = 3 * t + x;
                    assert(i / 3 == t && i % 3 == x);
                }
                x += 1;
            }
            t += 1;
        }
        assert(datas@ =~= stacked_row(blocks(cells@), sr as int));
        self.validate_data(datas)
    }

    /// Every fault of the grid, in its blocks, in each column within the
    /// blocks of a block column and in each row within the blocks of a block
    /// row: `Ok` where there is none.
    pub fn validate(&self) -> (r: Result<(), Distance>)
        ensures
            r == verdict(grid_faults(*self)),
            grid_faults(*self) <= 216,
    {
        let mut error: u8 = 0;
        let mut k: usize = 0;
        while k < 9
            invariant
                k <= 9,
                error == block_faults(*self, k as int),
                error <= 8 * k,
            decreases 9 - k,
        {
            proof {
                lemma_faults_bound(self.cells[k as int].data@, 9);
            }
            if let Err(Distance(d)) = self.cells[k].validate() {
                error += d;
            }
            k += 1;
        }
        let mut k: usize = 0;
        while k < 9
            invariant
                k <= 9,
                error == block_faults(*self, 9) + col_faults(*self, k as int),
                error <= 72 + 8 * k,
            decreases 9 - k,
        {
            let c = k / 3;
            let cells: Vec<&Cell> = vec![&self.cells[c], &self.cells[c + 3], &self.cells[c + 6]];
            let sub_col = Col::from((k % 3) as u8);
            proof {
                assert(blocks(cells@) =~= col_cells(*self, c as int));
                lemma_faults_bound(stacked_col(blocks(cells@), sub_col.num()), 9);
            }
            if let Err(Distance(d)) = self.validate_col(cells, sub_col) {
                error += d;
            }
            k += 1;
        }
        let mut k: usize = 0;
        while k < 9
            invariant
                k <= 9,
                error == block_faults(*self, 9) + col_faults(*self, 9) + row_faults(*self, k as int),
                error <= 144 + 8 * k,
            decreases 9 - k,
        {
            let r = k / 3;
            let cells: Vec<&Cell> = vec![&self.cells[3 * r], &self.cells[3 * r + 1], &self.cells[3 * r + 2]];
            let sub_row = Row::from((k % 3) as u8);
            proof {
                assert(blocks(cells@) =~= row_cells(*self, r as int));
                lemma_faults_bound(stacked_row(blocks(cells@), sub_row.num()), 9);
            }
            if let Err(Distance(d)) = self.validate_row(cells, sub_row) {
                error += d;
            }
            k += 1;
        }
        if error > 0 {
            Err(Distance(error))
        } else {
            Ok(())
        }
    }

    /// Whether every block can be filled, as `fill` needs.
    pub fn can_fill(&self) -> (r: bool)
        ensures
            r == forall|k: int| 0 <= k < 9 ==> fillable(#[trigger] self.cells[k].data@),
    {
        let mut k: usize = 0;
        while k < 9
            invariant
                k <= 9,
                forall|j: int| 0 <= j < k ==> fillable(#[trigger] self.cells[j].data@),
            decreases 9 - k,
        {
            if !self.cells[k].can_fill() {
                return false;
            }
            k += 1;
        }
        true
    }

    /// A copy of the grid with the empty positions of each block filled, in
    /// order, with the digits the block lacks, the largest first. No block
    /// may have more empty positions than missing digits.
    pub fn fill(&self) -> (r: Sudoku)
        requires
            forall|k: int| 0 <= k < 9 ==> fillable(#[trigger] self.cells[k].data@),
        ensures
            forall|k: int|
                0 <= k < 9 ==> {
                    &&& (#[trigger] r.cells[k]).data@ == filled(self.cells[k].data@)
                    &&& r.cells[k].row == self.cells[k].row
                    &&& r.cells[k].col == self.cells[k].col
                    &&& r.cells[k].immutables@ == self.cells[k].immutables@
                },
    {
        Sudoku {
            cells: [
                filled_cell(&self.cells[0]),
                filled_cell(&self.cells[1]),
                filled_cell(&self.cells[2]),
                filled_cell(&self.cells[3]),
                filled_cell(&self.cells[4]),
                filled_cell(&self.cells[5]),
                filled_cell(&self.cells[6]),
                filled_cell(&self.cells[7]),
                filled_cell(&self.cells[8]),
            ],
        }
    }

    /// A copy of the grid with the movable values of each block shuffled.
    pub fn randomize(&self) -> (r: Sudoku)
        ensures
            forall|k: int| 0 <= k < 9 ==> keeps_givens(self.cells[k], #[trigger] r.cells[k]),
    {
        Sudoku {
            cells: [
                randomized_cell(&self.cells[0]),
                randomized_cell(&self.cells[1]),
                randomized_cell(&self.cells[2]),
                randomized_cell(&self.cells[3]),
                randomized_cell(&self.cells[4]),
                randomized_cell(&self.cells[5]),
                randomized_cell(&self.cells[6]),
                randomized_cell(&self.cells[7]),
                randomized_cell(&self.cells[8]),
            ],
        }
    }

    /// The grid as nine rows of nine values, top to bottom.
    pub fn rows(&self) -> (r: Vec<[u8; 9]>)
        ensures
            r.len() == 9,
            forall|i: int, j: int|
                0 <= i < 9 && 0 <= j < 9 ==> (#[trigger] r@[i]@[j]) == self.cells[(i / 3) * 3 + j
                    / 3].data@[(i % 3) * 3 + j % 3],
    {
        let mut r: Vec<[u8; 9]> = Vec::with_capacity(9);
        let mut i: usize = 0;
        while i < 9
            invariant
                i <= 9,
                r.len() == i,
                forall|a: int, j: int|
                    0 <= a < i && 0 <= j < 9 ==> (#[trigger] r@[a]@[j]) == self.cells[(a / 3) * 3 + j
                        / 3].data@[(a % 3) * 3 + j % 3],
            decreases 9 - i,
        {
            let mut line = [0u8; 9];
            let mut j: usize = 0;
            while j < 9
                invariant
                    i < 9,
                    j <= 9,
                    forall|b: int|
                        0 <= b < j ==> #[trigger] line@[b] == self.cells[(i / 3) * 3 + b / 3].data@[(i % 3) * 3 + b
                            % 3],
                decreases 9 - j,
            {
                line[j] = self.cells[(i / 3) * 3 + j / 3].data[(i % 3) * 3 + j % 3];
                j += 1;
            }
            r.push(line);
            i += 1;
        }
        r
    }
}

} // verus!
