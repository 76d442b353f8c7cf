//! The seven piece shapes: their block offsets, rotation centers and
//! colors, and the active (falling) piece built from them.

use vstd::prelude::*;

use crate::grid::{Block, Color, GridPosition, occupied, hit, GRID_SIZE_X};

verus! {

/// The seven tetromino shapes.
#[derive(Clone, Copy, Debug, PartialEq, Eq, Structural)]
pub enum Shape {
    I,
    O,
    T,
    L,
    J,
    S,
    Z,
}

/// Column of the grid cell that anchors a freshly spawned piece: one left
/// of the horizontal center of the grid.
pub const SPAWN_OFFSET_X: i32 = 4;

/// Row of the grid cell that anchors a freshly spawned piece: the top row
/// of the visible grid.
pub const SPAWN_OFFSET_Y: i32 = 19;

/// The four block offsets of a shape, relative to the piece origin.
pub open spec fn spec_blocks(shape: Shape) -> Seq<GridPosition> {
    match shape {
        Shape::I => seq![
            GridPosition { x: -1i32, y: 0 },
            GridPosition { x: 0, y: 0 },
            GridPosition { x: 1, y: 0 },
            GridPosition { x: 2, y: 0 },
        ],
        Shape::O => seq![
            GridPosition { x: 0, y: 0 },
            GridPosition { x: 0, y: 1 },
            GridPosition { x: 1, y: 0 },
            GridPosition { x: 1, y: 1 },
        ],
        Shape::T => seq![
            GridPosition { x: 0, y: 0 },
            GridPosition { x: -1i32, y: 0 },
            GridPosition { x: 1, y: 0 },
            GridPosition { x: 0, y: 1 },
        ],
        Shape::L => seq![
            GridPosition { x: 0, y: 0 },
            GridPosition { x: -1i32, y: 0 },
            GridPosition { x: 1, y: 0 },
            GridPosition { x: 1, y: 1 },
        ],
        Shape::J => seq![
            GridPosition { x: 0, y: 0 },
            GridPosition { x: -1i32, y: 0 },
            GridPosition { x: 1, y: 0 },
            GridPosition { x: -1i32, y: 1 },
        ],
        Shape::S => seq![
            GridPosition { x: 0, y: 0 },
            GridPosition { x: 1, y: 0 },
            GridPosition { x: 0, y: 1 },
            GridPosition { x: -1i32, y: 1 },
        ],
        Shape::Z => seq![
            GridPosition { x: 0, y: 0 },
            GridPosition { x: -1i32, y: 0 },
            GridPosition { x: 0, y: 1 },
            GridPosition { x: 1, y: 1 },
        ],
    }
}

/// The index, among a shape's four blocks, of the block a rotation pivots
/// around. The square has none: it does not rotate.
pub open spec fn spec_center(shape: Shape) -> Option<usize> {
    match shape {
        Shape::I => Some(1usize),
        Shape::O => None,
        Shape::T => Some(0usize),
        Shape::L => Some(0usize),
        Shape::J => Some(0usize),
        Shape::S => Some(0usize),
        Shape::Z => Some(0usize),
    }
}

/// The display color of a shape.
pub open spec fn spec_color(shape: Shape) -> Color {
    match shape {
        Shape::I => Color { r: 0, g: 200, b: 200, a: 80 },
        Shape::O => Color { r: 200, g: 200, b: 0, a: 80 },
        Shape::T => Color { r: 150, g: 0, b: 150, a: 80 },
        Shape::L => Color { r: 200, g: 165, b: 0, a: 80 },
        Shape::J => Color { r: 0, g: 0, b: 200, a: 80 },
        Shape::S => Color { r: 0, g: 200, b: 0, a: 80 },
        Shape::Z => Color { r: 200, g: 0, b: 0, a: 80 },
    }
}

/// Basic facts about every shape's offsets: there are four of them, they
/// stay within a small box around the origin, no two coincide, and the
/// rotation center, when there is one, is a valid index whose offset is
/// the origin itself.
pub proof fn lemma_shape_table(shape: Shape)
    ensures
        spec_blocks(shape).len() == 4,
        forall|i: int|
            0 <= i < 4 ==> -1 <= (#[trigger] spec_blocks(shape)[i]).x <= 2 && 0 <= spec_blocks(
                shape,
            )[i].y <= 1,
        forall|i: int, j: int|
            #![trigger spec_blocks(shape)[i], spec_blocks(shape)[j]]
            0 <= i < j < 4 ==> !(spec_blocks(shape)[i].x == spec_blocks(shape)[j].x && spec_blocks(
                shape,
            )[i].y == spec_blocks(shape)[j].y),
        match spec_center(shape) {
            Some(c) => 0 <= c < 4 && spec_blocks(shape)[c as int] == (GridPosition { x: 0, y: 0 }),
            None => shape == Shape::O,
        },
{
}

fn vec4(a: GridPosition, b: GridPosition, c: GridPosition, d: GridPosition) -> (v: Vec<
    GridPosition,
>)
    ensures
        v@ == seq![a, b, c, d],
{
    let mut v: Vec<GridPosition> = Vec::new();
    v.push(a);
    v.push(b);
    v.push(c);
    v.push(d);
    proof {
        assert(v@ =~= seq![a, b, c, d]);
    }
    v
}

/// The block positions for a given shape, relative to the piece's origin.
pub fn get_tetromino_blocks(shape: Shape) -> (v: Vec<GridPosition>)
    ensures
        v@ == spec_blocks(shape),
{
    match shape {
        Shape::I => vec4(
            GridPosition { x: -1, y: 0 },
            GridPosition { x: 0, y: 0 },
            GridPosition { x: 1, y: 0 },
            GridPosition { x: 2, y: 0 },
        ),
        Shape::O => vec4(
            GridPosition { x: 0, y: 0 },
            GridPosition { x: 0, y: 1 },
            GridPosition { x: 1, y: 0 },
            GridPosition { x: 1, y: 1 },
        ),
        Shape::T => vec4(
            GridPosition { x: 0, y: 0 },
            GridPosition { x: -1, y: 0 },
            GridPosition { x: 1, y: 0 },
            GridPosition { x: 0, y: 1 },
        ),
        Shape::L => vec4(
            GridPosition { x: 0, y: 0 },
            GridPosition { x: -1, y: 0 },
            GridPosition { x: 1, y: 0 },
            GridPosition { x: 1, y: 1 },
        ),
        Shape::J => vec4(
            GridPosition { x: 0, y: 0 },
            GridPosition { x: -1, y: 0 },
            GridPosition { x: 1, y: 0 },
            GridPosition { x: -1, y: 1 },
        ),
        Shape::S => vec4(
            GridPosition { x: 0, y: 0 },
            GridPosition { x: 1, y: 0 },
            GridPosition { x: 0, y: 1 },
            GridPosition { x: -1, y: 1 },
        ),
        Shape::Z => vec4(
            GridPosition { x: 0, y: 0 },
            GridPosition { x: -1, y: 0 },
            GridPosition { x: 0, y: 1 },
            GridPosition { x: 1, y: 1 },
        ),
    }
}

/// The display color for a given shape.
pub fn get_tetromino_color(shape: Shape) -> (c: Color)
    ensures
        c == spec_color(shape),
{
    match shape {
        Shape::I => Color { r: 0, g: 200, b: 200, a: 80 },
        Shape::O => Color { r: 200, g: 200, b: 0, a: 80 },
        Shape::T => Color { r: 150, g: 0, b: 150, a: 80 },
        Shape::L => Color { r: 200, g: 165, b: 0, a: 80 },
        Shape::J => Color { r: 0, g: 0, b: 200, a: 80 },
        Shape::S => Color { r: 0, g: 200, b: 0, a: 80 },
        Shape::Z => Color { r: 200, g: 0, b: 0, a: 80 },
    }
}

/// The index of the rotation center block for a given shape.
pub fn get_rotation_center_index(shape: Shape) -> (c: Option<usize>)
    ensures
        c == spec_center(shape),
{
    match shape {
        Shape::I => Some(1),
        Shape::O => None,
        Shape::T => Some(0),
        Shape::L => Some(0),
        Shape::J => Some(0),
        Shape::S => Some(0),
        Shape::Z => Some(0),
    }
}

/// The currently falling piece: its shape, the absolute grid positions of
/// its four blocks, and the index of its rotation center block, if any.
#[derive(Debug)]
pub struct ActivePiece {
    pub shape: Shape,
    pub blocks: Vec<GridPosition>,
    pub pivot: Option<usize>,
}

impl ActivePiece {
    /// A well-formed active piece: exactly four blocks, all inside the
    /// walls and at or above the floor, no two on the same cell, never
    /// farther than three cells apart on either axis, and a rotation
    /// center index that agrees with the shape table.
    pub open spec fn wf(self) -> bool {
        &&& self.blocks.len() == 4
        &&& self.pivot == spec_center(self.shape)
        &&& forall|i: int|
            0 <= i < 4 ==> 0 <= (#[trigger] self.blocks@[i]).x < GRID_SIZE_X as int
                && self.blocks@[i].y >= 0
        &&& forall|i: int, j: int|
            #![trigger self.blocks@[i], self.blocks@[j]]
            0 <= i < j < 4 ==> !(self.blocks@[i].x == self.blocks@[j].x && self.blocks@[i].y
                == self.blocks@[j].y)
        &&& forall|i: int, j: int|
            #![trigger self.blocks@[i], self.blocks@[j]]
            0 <= i < 4 && 0 <= j < 4 ==> -3 <= self.blocks@[i].x - self.blocks@[j].x <= 3 && -3
                <= self.blocks@[i].y - self.blocks@[j].y <= 3
    }

    /// Whether none of the piece's blocks sits on a settled block.
    pub open spec fn clear_of(self, board: Seq<Block>) -> bool {
        forall|i: int|
            0 <= i < self.blocks@.len() ==> !occupied(
                board,
                (#[trigger] self.blocks@[i]).x as int,
                self.blocks@[i].y as int,
            )
    }
}

/// The absolute cells a shape would occupy when spawned at the fixed
/// spawn origin near the top center of the grid.
pub open spec fn spec_spawn_cells(shape: Shape) -> Seq<GridPosition> {
    spec_blocks(shape).map_values(
        |p: GridPosition|
            GridPosition {
                x: (p.x + SPAWN_OFFSET_X) as i32,
                y: (p.y + SPAWN_OFFSET_Y) as i32,
            },
    )
}

/// Attempts to spawn a piece of the given shape at the spawn origin.
///
/// If any of the four computed cells is blocked by the static board, no
/// piece materializes and `None` is returned (the game-over outcome);
/// otherwise the new active piece is returned, its rotation center taken
/// from the shape table. The static board is never modified.
pub fn spawn_tetromino(static_blocks: &Vec<Block>, shape: Shape) -> (r: Option<ActivePiece>)
    ensures
        r is Some <==> (forall|i: int|
            0 <= i < 4 ==> !hit(
                static_blocks@,
                (#[trigger] spec_spawn_cells(shape)[i]).x as int,
                spec_spawn_cells(shape)[i].y as int,
            )),
        r matches Some(p) ==> p.shape == shape && p.blocks@ == spec_spawn_cells(shape) && p.pivot
            == spec_center(shape) && p.wf() && p.clear_of(static_blocks@),
{
    let offsets = get_tetromino_blocks(shape);
    let mut cells: Vec<GridPosition> = Vec::new();
    let mut i: usize = 0;
    proof {
        lemma_shape_table(shape);
    }
    while i < 4
        invariant
            offsets@ == spec_blocks(shape),
            spec_blocks(shape).len() == 4,
            forall|k: int|
                0 <= k < 4 ==> -1 <= (#[trigger] spec_blocks(shape)[k]).x <= 2 && 0 <= spec_blocks(
                    shape,
                )[k].y <= 1,
            i <= 4,
            cells@.len() == i,
            forall|k: int| 0 <= k < i ==> cells@[k] == #[trigger] spec_spawn_cells(shape)[k],
        decreases 4 - i,
    {
        let o = offsets[i];
        let cell = GridPosition { x: o.x + SPAWN_OFFSET_X, y: o.y + SPAWN_OFFSET_Y };
        cells.push(cell);
        i = i + 1;
    }
    proof {
        assert(cells@ =~= spec_spawn_cells(shape));
    }
    let mut blocked = false;
    let mut j: usize = 0;
    while j < 4
        invariant
            cells@ == spec_spawn_cells(shape),
            cells@.len() == 4,
            j <= 4,
            blocked == exists|k: int|
                0 <= k < j && hit(
                    static_blocks@,
                    (#[trigger] cells@[k]).x as int,
                    cells@[k].y as int,
                ),
        decreases 4 - j,
    {
        if crate::grid::check_collision(cells[j], static_blocks) {
            blocked = true;
        }
        j = j + 1;
    }
    if blocked {
        proof {
            let k = choose|k: int|
                0 <= k < 4 && hit(static_blocks@, (cells@[k]).x as int, cells@[k].y as int);
            assert(hit(
                static_blocks@,
                (spec_spawn_cells(shape)[k]).x as int,
                spec_spawn_cells(shape)[k].y as int,
            ));
        }
        None
    } else {
        proof {
            assert forall|i: int|
                0 <= i < 4 implies !hit(
                static_blocks@,
                (#[trigger] spec_spawn_cells(shape)[i]).x as int,
                spec_spawn_cells(shape)[i].y as int,
            ) by {
                assert(!hit(static_blocks@, (cells@[i]).x as int, cells@[i].y as int));
            }
        }
        let piece = ActivePiece { shape, blocks: cells, pivot: get_rotation_center_index(shape) };
        proof {
            lemma_shape_table(shape);
            assert forall|i: int, j: int|
                #![trigger piece.blocks@[i], piece.blocks@[j]]
                0 <= i < j < 4 implies !(piece.blocks@[i].x == piece.blocks@[j].x
                && piece.blocks@[i].y == piece.blocks@[j].y) by {
                assert(spec_blocks(shape)[i].x + SPAWN_OFFSET_X == piece.blocks@[i].x);
            }
        }
        Some(piece)
    }
}

} // verus!
