use tetris_core::grid::{check_collision, Block, Color, GridPosition};

fn gray() -> Color {
    Color { r: 100, g: 100, b: 100, a: 100 }
}

fn block_at(x: i32, y: i32) -> Block {
    Block { position: GridPosition { x, y }, color: gray() }
}

#[test]
fn collision_left_wall() {
    let board: Vec<Block> = Vec::new();
    assert!(check_collision(GridPosition { x: -1, y: 5 }, &board));
}

#[test]
fn collision_right_wall() {
    let board: Vec<Block> = Vec::new();
    assert!(check_collision(GridPosition { x: 10, y: 5 }, &board));
    assert!(!check_collision(GridPosition { x: 9, y: 5 }, &board));
}

#[test]
fn collision_floor() {
    let board: Vec<Block> = Vec::new();
    assert!(check_collision(GridPosition { x: 3, y: -1 }, &board));
    assert!(!check_collision(GridPosition { x: 3, y: 0 }, &board));
}

#[test]
fn collision_no_upper_bound() {
    let board: Vec<Block> = Vec::new();
    assert!(!check_collision(GridPosition { x: 0, y: 1_000_000 }, &board));
}

#[test]
fn collision_with_static_block() {
    let board = vec![block_at(4, 7)];
    assert!(check_collision(GridPosition { x: 4, y: 7 }, &board));
    assert!(!check_collision(GridPosition { x: 4, y: 8 }, &board));
    assert!(!check_collision(GridPosition { x: 5, y: 7 }, &board));
}
