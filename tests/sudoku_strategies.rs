use genetic_rs::crossover::Crossover;
use genetic_rs::evaluator::Evaluator;
use genetic_rs::generator::Generator;
use genetic_rs::mutation::Mutation;
use genetic_rs::sudoku::grid::{Cell, Col, Row, Sudoku};
use genetic_rs::sudoku::strategies::{
    BasicCrossover, BasicEvaluation, BasicGenerator, BasicMutation, HalfCrossover, SingleMutation,
};

fn solved() -> [[u8; 9]; 9] {
    [
        [7, 3, 5, 8, 4, 2, 9, 6, 1],
        [6, 1, 4, 9, 7, 3, 2, 8, 5],
        [8, 9, 2, 5, 6, 1, 3, 7, 4],
        [2, 8, 6, 4, 1, 3, 5, 7, 9],
        [3, 4, 9, 8, 5, 7, 1, 2, 6],
        [1, 5, 7, 9, 2, 6, 4, 3, 8],
        [1, 5, 7, 6, 9, 4, 3, 2, 8],
        [4, 9, 2, 7, 3, 8, 5, 6, 1],
        [6, 8, 3, 2, 1, 5, 7, 4, 9],
    ]
}

fn puzzle() -> [[u8; 9]; 9] {
    [
        [0, 0, 4, 0, 6, 0, 8, 2, 0],
        [9, 6, 2, 1, 0, 0, 3, 7, 0],
        [3, 0, 0, 4, 0, 0, 0, 0, 6],
        [0, 0, 1, 0, 0, 2, 0, 9, 3],
        [4, 0, 6, 7, 5, 0, 2, 0, 0],
        [0, 2, 0, 0, 0, 0, 7, 0, 4],
        [2, 7, 0, 1, 0, 0, 9, 0, 0],
        [0, 3, 0, 0, 0, 0, 8, 2, 0],
        [9, 4, 0, 2, 7, 5, 0, 0, 1],
    ]
}

fn is_permutation_of_digits(data: &[u8; 9]) -> bool {
    let mut d = data.to_vec();
    d.sort();
    d == vec![1, 2, 3, 4, 5, 6, 7, 8, 9]
}

#[test]
fn evaluation_is_255_less_the_faults() {
    assert_eq!(255, BasicEvaluation.evaluator(&Sudoku::new(solved())));
    let mut data = solved();
    data[8] = [6, 8, 9, 2, 1, 5, 7, 4, 3];
    assert_eq!(253, BasicEvaluation.evaluator(&Sudoku::new(data)));
}

#[test]
fn generator_fills_and_keeps_the_givens() {
    let generator = BasicGenerator { sudoku: Sudoku::new(puzzle()) };
    let grid = generator.generator();
    for (k, cell) in grid.cells.iter().enumerate() {
        assert!(is_permutation_of_digits(&cell.data));
        for &p in &cell.immutables {
            assert_eq!(puzzle()[k][p], cell.data[p]);
        }
        assert_eq!(Ok(()), cell.validate());
    }
}

#[test]
fn crossovers_of_identical_parents_give_the_parent() {
    let p = BasicGenerator { sudoku: Sudoku::new(puzzle()) }.generator();
    for _ in 0..20 {
        assert_eq!(p, BasicCrossover.crossover(&p, &p));
        assert_eq!(p, HalfCrossover.crossover(&p, &p));
    }
}

#[test]
fn half_crossover_cuts_between_blocks() {
    let a = Sudoku::new([[1; 9]; 9]);
    let b = Sudoku::new([[2; 9]; 9]);
    for _ in 0..20 {
        let child = HalfCrossover.crossover(&a, &b);
        let firsts: Vec<u8> = child.cells.iter().map(|c| c.data[0]).collect();
        let cut = firsts.iter().position(|&v| v == 2).unwrap();
        assert!(cut >= 1 && cut < 8);
        assert!(firsts[..cut].iter().all(|&v| v == 1));
        assert!(firsts[cut..].iter().all(|&v| v == 2));
    }
}

#[test]
fn basic_crossover_takes_whole_blocks() {
    let a = Sudoku::new([[1; 9]; 9]);
    let b = Sudoku::new([[2; 9]; 9]);
    let child = BasicCrossover.crossover(&a, &b);
    for cell in &child.cells {
        assert!(cell.data == [1; 9] || cell.data == [2; 9]);
    }
}

#[test]
fn mutations_keep_givens_and_values() {
    let mut grid = BasicGenerator { sudoku: Sudoku::new(puzzle()) }.generator();
    for _ in 0..20 {
        BasicMutation.mutation(&mut grid);
        SingleMutation.mutation(&mut grid);
    }
    for (k, cell) in grid.cells.iter().enumerate() {
        assert!(is_permutation_of_digits(&cell.data));
        for &p in &cell.immutables {
            assert_eq!(puzzle()[k][p], cell.data[p]);
        }
    }
}

#[test]
fn single_mutation_leaves_a_fixed_block_alone() {
    let mut grid = Sudoku::new(solved());
    let before = grid.clone();
    SingleMutation.mutation(&mut grid);
    assert_eq!(before, grid);
}

#[test]
fn rows_lay_out_the_blocks() {
    let grid = Sudoku::new(solved());
    let rows = grid.rows();
    assert_eq!([7, 3, 5, 6, 1, 4, 8, 9, 2], rows[0]);
    assert_eq!([9, 6, 1, 2, 8, 5, 3, 7, 4], rows[2]);
    assert_eq!([6, 9, 4, 7, 3, 8, 2, 1, 5], rows[7]);
}

#[test]
fn default_cell_is_empty() {
    let cell = Cell::default();
    assert_eq!([0; 9], cell.data);
    assert_eq!(Row::Up, cell.row);
    assert_eq!(Col::Left, cell.col);
    assert!(cell.immutables.is_empty());
}

#[test]
fn labels_past_two_read_as_the_first() {
    assert_eq!(Row::Up, Row::from(7));
    assert_eq!(Col::Right, Col::from(2));
    assert_eq!(Col::Left, Col::from(3));
}

#[test]
fn cross_choosing_takes_the_chosen_blocks() {
    let a = Sudoku::new([[1; 9]; 9]);
    let b = Sudoku::new([[2; 9]; 9]);
    let choice = [true, false, false, true, false, false, false, false, true];
    let child = BasicCrossover.cross_choosing(&a, &b, &choice);
    for k in 0..9 {
        assert_eq!(if choice[k] { [2; 9] } else { [1; 9] }, child.cells[k].data);
        assert_eq!(a.cells[k].immutables, child.cells[k].immutables);
    }
}

#[test]
fn swap_in_block_swaps_two_values() {
    let mut grid = Sudoku::new(puzzle());
    let before = grid.clone();
    // block 0 is [0, 0, 4, 0, 6, 0, 8, 2, 0]: positions 0 and 5 are free
    grid.cells[0].data[0] = 7;
    grid.cells[0].data[5] = 3;
    let mid = grid.clone();
    SingleMutation.swap_in_block(&mut grid, 0, 0, 5);
    assert_eq!(3, grid.cells[0].data[0]);
    assert_eq!(7, grid.cells[0].data[5]);
    assert_eq!(mid.cells[1..], grid.cells[1..]);
    assert_eq!(before.cells[0].immutables, grid.cells[0].immutables);
}
