use tetris_core::grid::{Block, Color, GridPosition};
use tetris_core::movement::{hard_drop, rotate, translate};
use tetris_core::tetromino::{
    get_rotation_center_index, get_tetromino_blocks, get_tetromino_color, spawn_tetromino, Shape,
};

fn piece_block(x: i32, y: i32) -> Block {
    Block { position: GridPosition { x, y }, color: Color { r: 1, g: 2, b: 3, a: 4 } }
}

fn cells_of(blocks: &Vec<GridPosition>) -> Vec<(i32, i32)> {
    let mut v: Vec<(i32, i32)> = blocks.iter().map(|p| (p.x, p.y)).collect();
    v.sort();
    v
}

#[test]
fn catalog_offsets() {
    assert_eq!(
        cells_of(&get_tetromino_blocks(Shape::I)),
        vec![(-1, 0), (0, 0), (1, 0), (2, 0)]
    );
    assert_eq!(
        cells_of(&get_tetromino_blocks(Shape::O)),
        vec![(0, 0), (0, 1), (1, 0), (1, 1)]
    );
    assert_eq!(
        cells_of(&get_tetromino_blocks(Shape::T)),
        vec![(-1, 0), (0, 0), (0, 1), (1, 0)]
    );
}

#[test]
fn catalog_centers() {
    assert_eq!(get_rotation_center_index(Shape::I), Some(1));
    assert_eq!(get_rotation_center_index(Shape::O), None);
    for s in [Shape::T, Shape::L, Shape::J, Shape::S, Shape::Z] {
        assert_eq!(get_rotation_center_index(s), Some(0));
    }
}

#[test]
fn catalog_colors_distinct() {
    let shapes = [Shape::I, Shape::O, Shape::T, Shape::L, Shape::J, Shape::S, Shape::Z];
    for a in shapes {
        for b in shapes {
            if a != b {
                assert_ne!(get_tetromino_color(a), get_tetromino_color(b));
            }
        }
    }
}

#[test]
fn spawn_places_piece_at_origin() {
    let board: Vec<Block> = Vec::new();
    let p = spawn_tetromino(&board, Shape::T).unwrap();
    assert_eq!(p.shape, Shape::T);
    assert_eq!(cells_of(&p.blocks), vec![(3, 19), (4, 19), (4, 20), (5, 19)]);
    assert_eq!(p.pivot, Some(0));
    assert_eq!(p.blocks[0], GridPosition { x: 4, y: 19 });
}

#[test]
fn spawn_collides_reports_none() {
    let board = vec![piece_block(4, 19)];
    assert!(spawn_tetromino(&board, Shape::T).is_none());
    // a shape that misses the occupied cell spawns fine
    let board2 = vec![piece_block(0, 0)];
    assert!(spawn_tetromino(&board2, Shape::T).is_some());
}

#[test]
fn rotate_square_is_noop_success() {
    let board: Vec<Block> = Vec::new();
    let mut p = spawn_tetromino(&board, Shape::O).unwrap();
    let before = cells_of(&p.blocks);
    assert!(rotate(&mut p, &board));
    assert_eq!(cells_of(&p.blocks), before);
}

#[test]
fn rotate_turns_quarter_clockwise() {
    let board: Vec<Block> = Vec::new();
    let mut p = spawn_tetromino(&board, Shape::I).unwrap();
    // horizontal I at rows 19, pivot at (4, 19)
    assert_eq!(cells_of(&p.blocks), vec![(3, 19), (4, 19), (5, 19), (6, 19)]);
    assert!(rotate(&mut p, &board));
    // vertical I through the pivot column
    assert_eq!(cells_of(&p.blocks), vec![(4, 17), (4, 18), (4, 19), (4, 20)]);
}

#[test]
fn rotate_blocked_changes_nothing() {
    // a block right where the rotated I would land
    let board = vec![piece_block(4, 17)];
    let mut p = spawn_tetromino(&board, Shape::I).unwrap();
    let before = cells_of(&p.blocks);
    assert!(!rotate(&mut p, &board));
    assert_eq!(cells_of(&p.blocks), before);
}

#[test]
fn translate_moves_all_four_blocks() {
    let board: Vec<Block> = Vec::new();
    let mut p = spawn_tetromino(&board, Shape::I).unwrap();
    assert!(translate(&mut p, &board, -1, 0));
    assert_eq!(cells_of(&p.blocks), vec![(2, 19), (3, 19), (4, 19), (5, 19)]);
    assert!(translate(&mut p, &board, 0, -1));
    assert_eq!(cells_of(&p.blocks), vec![(2, 18), (3, 18), (4, 18), (5, 18)]);
}

#[test]
fn translate_blocked_is_atomic() {
    // one block in the way: even though three cells are free, nothing moves
    let board = vec![piece_block(2, 19)];
    let mut p = spawn_tetromino(&board, Shape::I).unwrap();
    let before = cells_of(&p.blocks);
    assert!(!translate(&mut p, &board, -1, 0));
    assert_eq!(cells_of(&p.blocks), before);
}

#[test]
fn translate_stops_at_walls() {
    let board: Vec<Block> = Vec::new();
    let mut p = spawn_tetromino(&board, Shape::I).unwrap();
    // I occupies x 3..=6; three moves right reach the wall
    assert!(translate(&mut p, &board, 1, 0));
    assert!(translate(&mut p, &board, 1, 0));
    assert!(translate(&mut p, &board, 1, 0));
    assert_eq!(cells_of(&p.blocks), vec![(6, 19), (7, 19), (8, 19), (9, 19)]);
    assert!(!translate(&mut p, &board, 1, 0));
    assert_eq!(cells_of(&p.blocks), vec![(6, 19), (7, 19), (8, 19), (9, 19)]);
}

#[test]
fn hard_drop_on_empty_board_reaches_floor() {
    let board: Vec<Block> = Vec::new();
    let mut p = spawn_tetromino(&board, Shape::I).unwrap();
    // lowest block of the fresh I sits on row 19
    let steps = hard_drop(&mut p, &board);
    assert_eq!(steps, 19);
    assert_eq!(cells_of(&p.blocks), vec![(3, 0), (4, 0), (5, 0), (6, 0)]);
}

#[test]
fn hard_drop_rests_on_static_blocks() {
    let board = vec![piece_block(4, 3)];
    let mut p = spawn_tetromino(&board, Shape::I).unwrap();
    let steps = hard_drop(&mut p, &board);
    // the column-4 block keeps the piece one row above it
    assert_eq!(steps, 15);
    assert_eq!(cells_of(&p.blocks), vec![(3, 4), (4, 4), (5, 4), (6, 4)]);
}
