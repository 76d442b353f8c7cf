//! Translation, rotation and hard drop of the active piece, each an
//! all-or-nothing move: the four candidate cells are tested against the
//! static board, and either all four blocks commit or none changes.

use vstd::prelude::*;

use crate::grid::{Block, GridPosition, check_collision, hit};
use crate::tetromino::ActivePiece;

verus! {

/// Whether every block of `p`, shifted by `(dx, dy)`, lands on a legal
/// cell of `board`.
pub open spec fn can_translate(p: Seq<GridPosition>, dx: int, dy: int, board: Seq<Block>) -> bool {
    forall|i: int| 0 <= i < p.len() ==> !hit(board, (#[trigger] p[i]).x + dx, p[i].y + dy)
}

/// Whether every block of `p`, rotated a quarter turn clockwise around
/// the center cell `c`, lands on a legal cell of `board`.
pub open spec fn can_rotate(p: Seq<GridPosition>, c: GridPosition, board: Seq<Block>) -> bool {
    forall|i: int|
        0 <= i < p.len() ==> !hit(
            board,
            c.x + ((#[trigger] p[i]).y - c.y),
            c.y - (p[i].x - c.x),
        )
}

/// Shifts the active piece by `(dx, dy)` if all four shifted cells are
/// legal; otherwise leaves it exactly as it was. Returns whether the
/// piece moved.
pub fn translate(piece: &mut ActivePiece, static_blocks: &Vec<Block>, dx: i32, dy: i32) -> (moved:
    bool)
    requires
        old(piece).wf(),
        forall|i: int|
            0 <= i < 4 ==> i32::MIN <= (#[trigger] old(piece).blocks@[i]).x + dx <= i32::MAX
                && i32::MIN <= old(piece).blocks@[i].y + dy <= i32::MAX,
    ensures
        moved == can_translate(old(piece).blocks@, dx as int, dy as int, static_blocks@),
        moved ==> forall|i: int|
            0 <= i < 4 ==> (#[trigger] final(piece).blocks@[i]).x == old(piece).blocks@[i].x + dx
                && final(piece).blocks@[i].y == old(piece).blocks@[i].y + dy,
        !moved ==> *final(piece) == *old(piece),
        final(piece).shape == old(piece).shape,
        final(piece).pivot == old(piece).pivot,
        final(piece).wf(),
        moved ==> final(piece).clear_of(static_blocks@),
{
    let mut ok = true;
    let mut i: usize = 0;
    while i < 4
        invariant
            *piece == *old(piece),
            piece.wf(),
            forall|k: int|
                0 <= k < 4 ==> i32::MIN <= (#[trigger] piece.blocks@[k]).x + dx <= i32::MAX
                    && i32::MIN <= piece.blocks@[k].y + dy <= i32::MAX,
            i <= 4,
            ok == (forall|k: int|
                0 <= k < i ==> !hit(
                    static_blocks@,
                    (#[trigger] piece.blocks@[k]).x + dx,
                    piece.blocks@[k].y + dy,
                )),
        decreases 4 - i,
    {
        let b = piece.blocks[i];
        let candidate = GridPosition { x: b.x + dx, y: b.y + dy };
        if check_collision(candidate, static_blocks) {
            ok = false;
        }
        i = i + 1;
    }
    if ok {
        let mut j: usize = 0;
        while j < 4
            invariant
                piece.blocks@.len() == 4,
                piece.shape == old(piece).shape,
                piece.pivot == old(piece).pivot,
                j <= 4,
                forall|k: int|
                    0 <= k < 4 ==> i32::MIN <= (#[trigger] old(piece).blocks@[k]).x + dx
                        <= i32::MAX && i32::MIN <= old(piece).blocks@[k].y + dy <= i32::MAX,
                forall|k: int|
                    j <= k < 4 ==> #[trigger] piece.blocks@[k] == old(piece).blocks@[k],
                forall|k: int|
                    0 <= k < j ==> (#[trigger] piece.blocks@[k]).x == old(piece).blocks@[k].x + dx
                        && piece.blocks@[k].y == old(piece).blocks@[k].y + dy,
            decreases 4 - j,
        {
            let b = piece.blocks[j];
            piece.blocks[j] = GridPosition { x: b.x + dx, y: b.y + dy };
            j = j + 1;
        }
        proof {
            assert forall|i: int, j: int|
                #![trigger piece.blocks@[i], piece.blocks@[j]]
                0 <= i < 4 && 0 <= j < 4 implies piece.blocks@[i].x - piece.blocks@[j].x
                == old(piece).blocks@[i].x - old(piece).blocks@[j].x && piece.blocks@[i].y
                - piece.blocks@[j].y == old(piece).blocks@[i].y - old(piece).blocks@[j].y by {}
        }
        true
    } else {
        false
    }
}

/// Rotates the active piece a quarter turn clockwise around its rotation
/// center if all four rotated cells are legal; otherwise leaves it
/// exactly as it was. A piece without a rotation center (the square)
/// never changes: for it, rotation is a successful no-op. Returns whether
/// the rotation was accepted.
pub fn rotate(piece: &mut ActivePiece, static_blocks: &Vec<Block>) -> (rotated: bool)
    requires
        old(piece).wf(),
        old(piece).pivot matches Some(c) ==> old(piece).blocks@[c as int].y <= i32::MAX - 3,
    ensures
        old(piece).pivot is None ==> rotated && *final(piece) == *old(piece),
        old(piece).pivot matches Some(c) ==> {
            let center = old(piece).blocks@[c as int];
            &&& rotated == can_rotate(old(piece).blocks@, center, static_blocks@)
            &&& (rotated ==> forall|i: int|
                0 <= i < 4 ==> (#[trigger] final(piece).blocks@[i]).x == center.x + (old(
                    piece,
                ).blocks@[i].y - center.y) && final(piece).blocks@[i].y == center.y - (old(
                    piece,
                ).blocks@[i].x - center.x))
            &&& (!rotated ==> *final(piece) == *old(piece))
        },
        final(piece).shape == old(piece).shape,
        final(piece).pivot == old(piece).pivot,
        final(piece).wf(),
        rotated && old(piece).pivot is Some ==> final(piece).clear_of(static_blocks@),
{
    let c_idx = match piece.pivot {
        Some(c) => c,
        None => {
            return true;
        },
    };
    proof {
        crate::tetromino::lemma_shape_table(piece.shape);
    }
    let center = piece.blocks[c_idx];
    let mut ok = true;
    let mut i: usize = 0;
    while i < 4
        invariant
            *piece == *old(piece),
            piece.wf(),
            piece.pivot == Some(c_idx),
            0 <= c_idx < 4,
            center == piece.blocks@[c_idx as int],
            center.y <= i32::MAX - 3,
            i <= 4,
            ok == (forall|k: int|
                0 <= k < i ==> !hit(
                    static_blocks@,
                    center.x + ((#[trigger] piece.blocks@[k]).y - center.y),
                    center.y - (piece.blocks@[k].x - center.x),
                )),
        decreases 4 - i,
    {
        let b = piece.blocks[i];
        let candidate = GridPosition { x: center.x + (b.y - center.y), y: center.y - (b.x
            - center.x) };
        if check_collision(candidate, static_blocks) {
            ok = false;
        }
        i = i + 1;
    }
    if ok {
        let mut j: usize = 0;
        while j < 4
            invariant
                piece.blocks@.len() == 4,
                piece.shape == old(piece).shape,
                piece.pivot == old(piece).pivot,
                j <= 4,
                0 <= c_idx < 4,
                center == old(piece).blocks@[c_idx as int],
                center.y <= i32::MAX - 3,
                old(piece).wf(),
                forall|k: int|
                    j <= k < 4 ==> #[trigger] piece.blocks@[k] == old(piece).blocks@[k],
                forall|k: int|
                    0 <= k < j ==> (#[trigger] piece.blocks@[k]).x == center.x + (old(
                        piece,
                    ).blocks@[k].y - center.y) && piece.blocks@[k].y == center.y - (old(
                        piece,
                    ).blocks@[k].x - center.x),
            decreases 4 - j,
        {
            let b = piece.blocks[j];
            piece.blocks[j] = GridPosition { x: center.x + (b.y - center.y), y: center.y - (b.x
                - center.x) };
            j = j + 1;
        }
        proof {
            assert forall|i: int, j: int|
                #![trigger piece.blocks@[i], piece.blocks@[j]]
                0 <= i < 4 && 0 <= j < 4 implies piece.blocks@[i].x - piece.blocks@[j].x == old(
                piece,
            ).blocks@[i].y - old(piece).blocks@[j].y && piece.blocks@[i].y - piece.blocks@[j].y
                == old(piece).blocks@[j].x - old(piece).blocks@[i].x by {}
        }
        true
    } else {
        false
    }
}

/// The smallest row among a four-block cell sequence.
pub open spec fn lowest_y(p: Seq<GridPosition>) -> int
    recommends
        p.len() == 4,
{
    let a = if p[0].y <= p[1].y {
        p[0].y as int
    } else {
        p[1].y as int
    };
    let b = if p[2].y <= p[3].y {
        p[2].y as int
    } else {
        p[3].y as int
    };
    if a <= b {
        a
    } else {
        b
    }
}

/// Drops the active piece straight down, one row at a time, until the
/// next row down is blocked, and returns how many rows it fell. Every
/// intermediate placement is legal; one more step down would not be. On
/// an empty board the piece falls exactly as far as its lowest block was
/// above the floor, which ends at row zero.
pub fn hard_drop(piece: &mut ActivePiece, static_blocks: &Vec<Block>) -> (steps: u32)
    requires
        old(piece).wf(),
    ensures
        forall|i: int|
            0 <= i < 4 ==> (#[trigger] final(piece).blocks@[i]).x == old(piece).blocks@[i].x
                && final(piece).blocks@[i].y == old(piece).blocks@[i].y - steps,
        forall|d: int|
            1 <= d <= steps ==> #[trigger] can_translate(old(piece).blocks@, 0, -d, static_blocks@),
        !can_translate(old(piece).blocks@, 0, -(steps + 1), static_blocks@),
        final(piece).shape == old(piece).shape,
        final(piece).pivot == old(piece).pivot,
        final(piece).wf(),
        steps > 0 ==> final(piece).clear_of(static_blocks@),
        static_blocks@.len() == 0 ==> steps == lowest_y(old(piece).blocks@) && lowest_y(
            final(piece).blocks@,
        ) == 0,
{
    let ghost orig: ActivePiece = *piece;
    let mut steps: u32 = 0;
    loop
        invariant
            orig.wf(),
            piece.wf(),
            piece.shape == orig.shape,
            piece.pivot == orig.pivot,
            steps <= orig.blocks@[0].y,
            forall|i: int|
                0 <= i < 4 ==> (#[trigger] piece.blocks@[i]).x == orig.blocks@[i].x
                    && piece.blocks@[i].y == orig.blocks@[i].y - steps,
            forall|d: int| 1 <= d <= steps ==> #[trigger] can_translate(orig.blocks@, 0, -d, static_blocks@),
            steps > 0 ==> piece.clear_of(static_blocks@),
        ensures
            orig.wf(),
            piece.wf(),
            piece.shape == orig.shape,
            piece.pivot == orig.pivot,
            forall|i: int|
                0 <= i < 4 ==> (#[trigger] piece.blocks@[i]).x == orig.blocks@[i].x
                    && piece.blocks@[i].y == orig.blocks@[i].y - steps,
            forall|d: int| 1 <= d <= steps ==> #[trigger] can_translate(orig.blocks@, 0, -d, static_blocks@),
            !can_translate(orig.blocks@, 0, -(steps + 1), static_blocks@),
            steps > 0 ==> piece.clear_of(static_blocks@),
        decreases piece.blocks@[0].y,
    {
        let ghost before: ActivePiece = *piece;
        let moved = translate(piece, static_blocks, 0, -1);
        if !moved {
            proof {
                assert(!can_translate(before.blocks@, 0, -1, static_blocks@));
                let k = choose|k: int|
                    0 <= k < 4 && hit(
                        static_blocks@,
                        (before.blocks@[k]).x + 0,
                        before.blocks@[k].y - 1,
                    );
                assert(hit(
                    static_blocks@,
                    orig.blocks@[k].x + 0,
                    orig.blocks@[k].y + (-(steps + 1)),
                ));
            }
            break ;
        }
        proof {
            assert forall|i: int|
                0 <= i < 4 implies !hit(
                static_blocks@,
                (#[trigger] orig.blocks@[i]).x + 0,
                orig.blocks@[i].y + (-(steps + 1)),
            ) by {
                assert(!hit(static_blocks@, before.blocks@[i].x + 0, before.blocks@[i].y + (-1)));
            }
            assert(can_translate(orig.blocks@, 0, -(steps + 1), static_blocks@));
        }
        steps = steps + 1;
    }
    proof {
        if static_blocks@.len() == 0 {
            // One more step down was refused; on an empty board the only way
            // to be blocked is a row below the floor, so some block was
            // already no higher than `steps`.
            let k = choose|k: int|
                0 <= k < 4 && hit(
                    static_blocks@,
                    (orig.blocks@[k]).x + 0,
                    orig.blocks@[k].y + (-(steps + 1)),
                );
            assert(orig.blocks@[k].y - (steps + 1) < 0);
            assert(lowest_y(orig.blocks@) <= orig.blocks@[k].y);
            // Every step taken was legal, so every block started at least
            // `steps` rows above the floor.
            if steps > 0 {
                assert forall|i: int|
                    0 <= i < 4 implies (#[trigger] orig.blocks@[i]).y >= steps by {
                    assert(!hit(
                        static_blocks@,
                        orig.blocks@[i].x + 0,
                        orig.blocks@[i].y + (-(steps as int)),
                    ));
                }
            }
            assert(steps == lowest_y(orig.blocks@));
            assert(lowest_y(piece.blocks@) == lowest_y(orig.blocks@) - steps);
        }
    }
    steps
}

} // verus!
