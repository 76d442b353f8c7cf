//! Grid positions, block colors, the static board, and the collision rule.
//!
//! The board is a set of settled blocks on a grid of width ten, with the
//! floor at row zero and no upper bound. A position is legal when it lies
//! inside the walls, at or above the floor, and on no settled block.

use vstd::prelude::*;

verus! {

/// Width of the playing field, in columns.
pub const GRID_SIZE_X: i32 = 10;

/// Height of the visible playing field, in rows. Pieces spawn near the top
/// of this range; rows above it exist but are only reachable transiently.
pub const GRID_SIZE_Y: i32 = 20;

/// A cell of the game grid. `x` grows to the right, `y` grows upward;
/// the floor is at `y == 0`.
#[derive(Clone, Copy, Debug, PartialEq, Eq, Structural)]
pub struct GridPosition {
    pub x: i32,
    pub y: i32,
}

/// A display color with red, green, blue and alpha channels, each stored
/// in hundredths (so `200` means a channel value of `2.0` on a
/// high-dynamic-range display).
#[derive(Clone, Copy, Debug, PartialEq, Eq, Structural)]
pub struct Color {
    pub r: u16,
    pub g: u16,
    pub b: u16,
    pub a: u16,
}

/// A settled block of the static board: a grid cell plus its color.
#[derive(Clone, Copy, Debug, PartialEq, Eq, Structural)]
pub struct Block {
    pub position: GridPosition,
    pub color: Color,
}

/// Whether some block of `board` occupies the cell `(x, y)`.
pub open spec fn occupied(board: Seq<Block>, x: int, y: int) -> bool {
    exists|i: int|
        0 <= i < board.len() && (#[trigger] board[i]).position.x == x && board[i].position.y == y
}

/// Whether the cell `(x, y)` is illegal for a piece block: outside a wall,
/// below the floor, or on a settled block. There is no upper bound on `y`.
pub open spec fn hit(board: Seq<Block>, x: int, y: int) -> bool {
    x < 0 || x >= GRID_SIZE_X as int || y < 0 || occupied(board, x, y)
}

/// A well-formed board: every settled block lies inside the walls and at
/// or above the floor, and no two settled blocks share a position.
pub open spec fn board_wf(board: Seq<Block>) -> bool {
    &&& forall|i: int|
        0 <= i < board.len() ==> 0 <= (#[trigger] board[i]).position.x < GRID_SIZE_X as int && 0
            <= board[i].position.y
    &&& forall|i: int, j: int|
        0 <= i < j < board.len() ==> !((#[trigger] board[i]).position.x == (
        #[trigger] board[j]).position.x && board[i].position.y == board[j].position.y)
}

/// Checks a candidate position against the board boundaries and the
/// settled blocks: true exactly when the position is blocked.
pub fn check_collision(new_pos: GridPosition, static_blocks: &Vec<Block>) -> (blocked: bool)
    ensures
        blocked == hit(static_blocks@, new_pos.x as int, new_pos.y as int),
{
    if new_pos.x < 0 || new_pos.x >= GRID_SIZE_X || new_pos.y < 0 {
        return true;
    }
    let n = static_blocks.len();
    let mut i: usize = 0;
    while i < n
        invariant
            n == static_blocks.len(),
            i <= n,
            forall|k: int|
                0 <= k < i ==> !((#[trigger] static_blocks@[k]).position.x == new_pos.x
                    && static_blocks@[k].position.y == new_pos.y),
        decreases n - i,
    {
        let p = static_blocks[i].position;
        if p.x == new_pos.x && p.y == new_pos.y {
            return true;
        }
        i = i + 1;
    }
    false
}

} // verus!
