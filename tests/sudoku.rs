use genetic_rs::sudoku::grid::{Cell, Col, Distance, Row, Sudoku};

#[test]
fn test_cell() {
    let cell = Cell {
        data: [1, 2, 3, 4, 5, 6 ,7, 8, 9],
        row: Row::Center,
        col: Col::Right,
        immutables: vec![0, 1, 2, 3, 4, 5, 6, 7, 8],
    };

    let new_cell = Cell::new(&[1, 2, 3,
                                4, 5, 6,
                                7, 8, 9], 1, 2);
    assert_eq!(cell, new_cell);

    let cell = Cell {
        data: [1, 0, 0, 0, 0, 0, 0, 0, 0],
        row: Row::Center,
        col: Col::Right,
        immutables: vec![0],
    };

    let new_cell = Cell::new(&[1, 0, 0, 0, 0, 0, 0, 0, 0], 1, 2);
    assert_eq!(cell, new_cell);
}

#[test]
fn test_cell_validate() {
    let cell = Cell {
        data: [1, 2, 3, 4, 5, 6 ,7, 8, 9],
        row: Row::Center,
        col: Col::Right,
        immutables: vec![],
    };
    assert_eq!(cell.validate(), Ok(()));

    let cell = Cell {
        data: [1, 2, 3, 4, 3, 6 ,2, 8, 9],
        row: Row::Center,
        col: Col::Right,
        immutables: vec![],
    };
    assert_eq!(cell.validate(), Err(Distance(2)));


    let cell = Cell {
        data: [1, 2, 3, 4, 0, 6 ,7, 8, 9],
        row: Row::Center,
        col: Col::Right,
        immutables: vec![],
    };
    assert_eq!(cell.validate(), Err(Distance(1)));
}

#[test]
fn test_fill() {
    let mut cell = Cell {
        data: [1, 2, 3, 0, 5, 0 ,7, 8, 9],
        row: Row::Center,
        col: Col::Right,
        immutables: vec![0,1,2,4,6,7,8],
    };

    assert_eq!(cell.validate(), Err(Distance(3)));
    cell.fill();
    assert_eq!(cell.data, [1, 2, 3, 6, 5, 4 ,7, 8, 9]);
    assert_eq!(cell.validate(), Ok(()));
}

#[test]
fn test_randomize() {
    let mut cell = Cell {
        data: [1, 0, 3, 0, 5, 0 ,7, 0, 9],
        row: Row::Center,
        col: Col::Right,
        immutables: vec![0,2,4,6,8],
    };

    assert_eq!(cell.validate(), Err(Distance(7)));
    cell.fill();
    assert_eq!(cell.data, [1, 8, 3, 6, 5, 4 ,7, 2, 9]);
    assert_eq!(cell.validate(), Ok(()));
    cell.randomize();
    assert_eq!(cell.validate(), Ok(()));
}

#[test]
fn test_sudoku_validate_col_ok() {

    let cell1 = [1, 2, 3,
        4, 5, 6,
        7, 8, 9];
    let cell2 = [0;9];
    let cell3 = [0;9];
    let cell4 = [2, 3, 1,
        5, 6, 4,
        8, 9, 7];
    let cell5 = [0;9];
    let cell6 = [0;9];
    let cell7 = [3, 1, 2,
        6, 4, 5,
        9, 7, 8];
    let cell8 = [0;9];
    let cell9 = [0;9];
    let sudoku = Sudoku::new([cell1, cell2, cell3, cell4, cell5, cell6, cell7, cell8, cell9]);

    let cells: Vec<_> = sudoku.cells.iter().filter(|c| c.col == Col::Left).collect();
    assert_eq!(sudoku.validate_col(cells, Col::Right), Ok(()));
}

#[test]
fn test_sudoku_validate_col_nok() {

    let cell1 = [1, 2, 1,
        4, 5, 6,
        7, 8, 9];
    let cell2 = [0;9];
    let cell3 = [0;9];
    let cell4 = [1, 3, 1,
        5, 6, 4,
        8, 9, 7];
    let cell5 = [0;9];
    let cell6 = [0;9];
    let cell7 = [0;9];
    let cell8 = [0;9];
    let cell9 = [0;9];
    let sudoku = Sudoku::new([cell1, cell2, cell3, cell4, cell5, cell6, cell7, cell8, cell9]);

    let cells: Vec<_> = sudoku.cells.iter().filter(|c| c.col == Col::Left).collect();
    assert_eq!(sudoku.validate_col(cells, Col::Right), Err(Distance(4)));
}

#[test]
fn test_sudoku_validate_row_ok() {

    let cell1 = [1, 2, 3,
        4, 5, 6,
        7, 8, 9];
    let cell2 = [4, 5, 6,
        7, 8, 9,
        1, 2, 3];
    let cell3 = [7, 8, 9,
        1, 2, 3,
        4, 5, 6];
    let cell4 = [0;9];
    let cell5 = [0;9];
    let cell6 = [0;9];
    let cell7 = [0;9];
    let cell8 = [0;9];
    let cell9 = [0;9];
    let sudoku = Sudoku::new([cell1, cell2, cell3, cell4, cell5, cell6, cell7, cell8, cell9]);

    let cells: Vec<_> = sudoku.cells.iter().filter(|c| c.row == Row::Up).collect();
    assert_eq!(sudoku.validate_row(cells, Row::Center), Ok(()));
}

#[test]
fn test_sudoku_validate_row_nok() {

    let cell1 = [1, 2, 3,
        4, 5, 6,
        7, 8, 9];
    let cell2 = [4, 5, 6,
        7, 8, 9,
        1, 2, 3];
    let cell3 = [7, 8, 9,
        1, 2, 3,
        4, 5, 6];
    let cell4 = [0;9];
    let cell5 = [0;9];
    let cell6 = [0;9];
    let cell7 = [0;9];
    let cell8 = [0;9];
    let cell9 = [0;9];
    let sudoku = Sudoku::new([cell1, cell2, cell3, cell4, cell5, cell6, cell7, cell8, cell9]);

    let cells: Vec<_> = sudoku.cells.iter().filter(|c| c.row == Row::Up).collect();
    assert_eq!(sudoku.validate_row(cells, Row::Center), Ok(()));
}

#[test]
fn test_sudoku_validate() {

    let cell1 = [7, 3, 5,
        8, 4, 2,
        9, 6, 1];
    let cell2 = [6, 1, 4,
        9, 7, 3,
        2, 8, 5];
    let cell3 = [8, 9, 2,
        5, 6, 1,
        3, 7, 4];
    let cell4 = [2, 8, 6,
        4, 1, 3,
        5, 7, 9];
    let cell5 = [3, 4, 9,
        8, 5, 7,
        1, 2, 6];
    let cell6 = [1, 5, 7,
        9, 2, 6,
        4, 3, 8];
    let cell7 = [1, 5, 7,
        6, 9, 4,
        3, 2, 8];
    let cell8 = [4, 9, 2,
        7, 3, 8,
        5, 6, 1];
    let cell9 = [6, 8, 3,
        2, 1, 5,
        7, 4, 9];
    let sudoku = Sudoku::new([cell1, cell2, cell3, cell4, cell5, cell6, cell7, cell8, cell9]);

    assert_eq!(sudoku.validate(), Ok(()));
}

#[test]
fn test_sudoku_validate_fail() {

    let cell1 = [7, 3, 5,
        8, 4, 2,
        9, 6, 1];
    let cell2 = [6, 1, 4,
        9, 7, 3,
        2, 8, 5];
    let cell3 = [8, 9, 2,
        5, 6, 1,
        3, 7, 4];
    let cell4 = [2, 8, 6,
        4, 1, 3,
        5, 7, 9];
    let cell5 = [3, 4, 9,
        8, 5, 7,
        1, 2, 6];
    let cell6 = [1, 5, 7,
        9, 2, 6,
        4, 3, 8];
    let cell7 = [1, 5, 7,
        6, 9, 4,
        3, 2, 8];
    let cell8 = [4, 9, 2,
        7, 3, 8,
        5, 6, 1];
    let cell9 = [6, 8, 9,
        2, 1, 5,
        7, 4, 3];
    let sudoku = Sudoku::new([cell1, cell2, cell3, cell4, cell5, cell6, cell7, cell8, cell9]);

    assert_eq!(sudoku.validate(), Err(Distance(2)));
}
