use tetris_core::grid::{Block, Color, GridPosition};
use tetris_core::lines::{clear_lines, is_occupied, is_row_full};

fn b(x: i32, y: i32) -> Block {
    Block { position: GridPosition { x, y }, color: Color { r: 9, g: 9, b: 9, a: 9 } }
}

fn full_row(board: &mut Vec<Block>, y: i32) {
    for x in 0..10 {
        board.push(b(x, y));
    }
}

#[test]
fn row_detection() {
    let mut board: Vec<Block> = Vec::new();
    full_row(&mut board, 0);
    board.push(b(3, 1));
    assert!(is_row_full(&board, 0));
    assert!(!is_row_full(&board, 1));
    assert!(!is_row_full(&board, 2));
    assert!(is_occupied(&board, 3, 1));
    assert!(!is_occupied(&board, 4, 1));
}

#[test]
fn clearing_empty_board_is_noop() {
    let mut board: Vec<Block> = Vec::new();
    assert_eq!(clear_lines(&mut board), 0);
    assert!(board.is_empty());
}

#[test]
fn clearing_without_full_rows_is_noop() {
    let mut board = vec![b(0, 0), b(5, 2), b(9, 7)];
    assert_eq!(clear_lines(&mut board), 0);
    assert_eq!(board.len(), 3);
    assert!(is_occupied(&board, 0, 0));
    assert!(is_occupied(&board, 5, 2));
    assert!(is_occupied(&board, 9, 7));
}

#[test]
fn clearing_two_rows_compacts_the_rest() {
    // rows 0 and 2 full, row 1 holds three blocks, row 5 holds one
    let mut board: Vec<Block> = Vec::new();
    full_row(&mut board, 0);
    full_row(&mut board, 2);
    board.push(b(0, 1));
    board.push(b(4, 1));
    board.push(b(9, 1));
    board.push(b(7, 5));
    assert_eq!(clear_lines(&mut board), 2);
    assert_eq!(board.len(), 4);
    // blocks of row 1 land on the floor: one full row was below them
    assert!(is_occupied(&board, 0, 0));
    assert!(is_occupied(&board, 4, 0));
    assert!(is_occupied(&board, 9, 0));
    // the block of row 5 falls past both cleared rows
    assert!(is_occupied(&board, 7, 3));
    assert!(!is_occupied(&board, 7, 5));
}

#[test]
fn clearing_keeps_colors() {
    let mut board: Vec<Block> = Vec::new();
    full_row(&mut board, 0);
    let marked = Block {
        position: GridPosition { x: 2, y: 4 },
        color: Color { r: 1, g: 2, b: 3, a: 4 },
    };
    board.push(marked);
    assert_eq!(clear_lines(&mut board), 1);
    assert_eq!(board.len(), 1);
    assert_eq!(board[0].position, GridPosition { x: 2, y: 3 });
    assert_eq!(board[0].color, marked.color);
}

#[test]
fn clearing_four_rows_at_once() {
    let mut board: Vec<Block> = Vec::new();
    for y in 0..4 {
        full_row(&mut board, y);
    }
    board.push(b(1, 4));
    assert_eq!(clear_lines(&mut board), 4);
    assert_eq!(board.len(), 1);
    assert_eq!(board[0].position, GridPosition { x: 1, y: 0 });
}
