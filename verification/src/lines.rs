//! Line clearing: detecting completely occupied rows, removing their
//! blocks, and shifting every block above a removed row downward, in one
//! ascending sweep.

use vstd::prelude::*;

use crate::grid::{Block, GridPosition, board_wf, occupied, GRID_SIZE_X};

verus! {

/// Whether row `y` of the board is occupied in every one of its ten
/// columns.
pub open spec fn row_full(board: Seq<Block>, y: int) -> bool {
    forall|x: int| 0 <= x < GRID_SIZE_X as int ==> occupied(board, x, y)
}

/// How many rows among `0 .. n` are full. A block in a row that is not
/// removed moves down by the number of full rows below it.
pub open spec fn full_rows_below(board: Seq<Block>, n: int) -> nat
    decreases n,
{
    if n <= 0 {
        0
    } else {
        full_rows_below(board, n - 1) + (if row_full(board, n - 1) {
            1nat
        } else {
            0nat
        })
    }
}

/// One more than the highest occupied row, and zero for an empty board:
/// every block's row lies below it.
pub open spec fn row_bound(board: Seq<Block>) -> int
    decreases board.len(),
{
    if board.len() == 0 {
        0
    } else {
        let rest = row_bound(board.drop_last());
        if board.last().position.y + 1 > rest {
            board.last().position.y + 1
        } else {
            rest
        }
    }
}

/// Where a surviving block ends up: same column and color, its row lowered
/// by the number of full rows below it.
pub open spec fn shifted(board: Seq<Block>, b: Block) -> Block {
    Block {
        position: GridPosition {
            x: b.position.x,
            y: (b.position.y - full_rows_below(board, b.position.y as int)) as i32,
        },
        color: b.color,
    }
}

/// The blocks of `prefix` that survive the clearing pass over `board`, in
/// order, each moved to its final cell.
pub open spec fn compacted(board: Seq<Block>, prefix: Seq<Block>) -> Seq<Block>
    decreases prefix.len(),
{
    if prefix.len() == 0 {
        Seq::empty()
    } else {
        let rest = compacted(board, prefix.drop_last());
        if row_full(board, prefix.last().position.y as int) {
            rest
        } else {
            rest.push(shifted(board, prefix.last()))
        }
    }
}

/// The whole board after one clearing pass: blocks of full rows are gone,
/// every other block has moved down past the removed rows.
pub open spec fn after_clear(board: Seq<Block>) -> Seq<Block> {
    compacted(board, board)
}

/// At most `n` of the rows `0 .. n` can be full.
pub proof fn lemma_full_rows_below_le(board: Seq<Block>, n: int)
    ensures
        full_rows_below(board, n) <= if n >= 0 {
            n
        } else {
            0
        },
    decreases n,
{
    if n > 0 {
        lemma_full_rows_below_le(board, n - 1);
    }
}

/// Counting full rows is monotone, gains at most one per row, and skips
/// a row known not to be full.
pub proof fn lemma_full_rows_below_mono(board: Seq<Block>, a: int, b: int)
    requires
        a <= b,
    ensures
        full_rows_below(board, a) <= full_rows_below(board, b),
        full_rows_below(board, b) - full_rows_below(board, a) <= b - a,
        0 <= a && a < b && !row_full(board, a) ==> full_rows_below(board, b) - full_rows_below(
            board,
            a,
        ) <= b - a - 1,
    decreases b - a,
{
    if a < b {
        lemma_full_rows_below_mono(board, a + 1, b);
    }
}

/// A board without a full row has a full-row count of zero below any
/// bound.
pub proof fn lemma_no_full_rows_count(board: Seq<Block>, n: int)
    requires
        forall|y: int| !row_full(board, y),
    ensures
        full_rows_below(board, n) == 0,
    decreases n,
{
    if n > 0 {
        lemma_no_full_rows_count(board, n - 1);
    }
}

/// Two distinct rows that both survive a clearing pass still end on
/// distinct rows: the downward shift keeps their order strictly.
pub proof fn lemma_shift_injective(board: Seq<Block>, y1: int, y2: int)
    requires
        0 <= y1,
        0 <= y2,
        !row_full(board, y1),
        !row_full(board, y2),
        y1 - full_rows_below(board, y1) == y2 - full_rows_below(board, y2),
    ensures
        y1 == y2,
{
    if y1 < y2 {
        lemma_full_rows_below_mono(board, y1, y2);
    } else if y2 < y1 {
        lemma_full_rows_below_mono(board, y2, y1);
    }
}

/// Every full row lies between the floor and the board's row bound.
pub proof fn lemma_full_row_in_bound(board: Seq<Block>, y: int)
    requires
        board_wf(board),
        row_full(board, y),
    ensures
        0 <= y < row_bound(board),
{
    assert(occupied(board, 0, y));
    let i = choose|i: int|
        0 <= i < board.len() && (#[trigger] board[i]).position.x == 0 && board[i].position.y == y;
    lemma_row_bound_covers(board, i);
}

/// Each block's row lies strictly below the board's row bound, which is
/// itself nonnegative.
pub proof fn lemma_row_bound_covers(board: Seq<Block>, i: int)
    requires
        0 <= i < board.len(),
    ensures
        board[i].position.y < row_bound(board),
        row_bound(board) >= 0,
    decreases board.len(),
{
    if i + 1 == board.len() {
        if board.len() > 1 {
            lemma_row_bound_covers(board.drop_last(), 0);
        }
    } else {
        lemma_row_bound_covers(board.drop_last(), i);
        assert(board.drop_last()[i] == board[i]);
    }
}

/// Whether `b` is the shifted image of one of the first `k` blocks of
/// the board whose row is not full.
pub open spec fn from_source(board: Seq<Block>, k: int, b: Block) -> bool {
    exists|i: int|
        0 <= i < k && !row_full(board, (#[trigger] board[i]).position.y as int) && b == shifted(
            board,
            board[i],
        )
}

/// What survives a clearing pass over the first `k` blocks: every block
/// of a row that is not full, moved to its shifted cell, and nothing
/// else; the result is again a well-formed board.
pub proof fn lemma_compacted_take(board: Seq<Block>, k: int)
    requires
        board_wf(board),
        0 <= k <= board.len(),
    ensures
        compacted(board, board.take(k)).len() <= k,
        forall|j: int|
            0 <= j < compacted(board, board.take(k)).len() ==> from_source(
                board,
                k,
                #[trigger] compacted(board, board.take(k))[j],
            ),
        forall|i: int|
            0 <= i < k && !row_full(board, (#[trigger] board[i]).position.y as int) ==> compacted(
                board,
                board.take(k),
            ).contains(shifted(board, board[i])),
        board_wf(compacted(board, board.take(k))),
    decreases k,
{
    if k == 0 {
        assert(board.take(0) =~= Seq::<Block>::empty());
    } else {
        lemma_compacted_take(board, k - 1);
        assert(board.take(k).drop_last() =~= board.take(k - 1));
        assert(board.take(k).last() == board[k - 1]);
        let prev = compacted(board, board.take(k - 1));
        let cur = compacted(board, board.take(k));
        let b = board[k - 1];
        if row_full(board, b.position.y as int) {
            assert(cur == prev);
            assert forall|i: int|
                0 <= i < k && !row_full(
                    board,
                    (#[trigger] board[i]).position.y as int,
                ) implies cur.contains(shifted(board, board[i])) by {
                assert(i < k - 1);
            }
            assert forall|j: int| 0 <= j < cur.len() implies from_source(board, k, cur[j]) by {
                assert(from_source(board, k - 1, prev[j]));
                let i = choose|i: int|
                    0 <= i < k - 1 && !row_full(board, (#[trigger] board[i]).position.y as int)
                        && prev[j] == shifted(board, board[i]);
                assert(0 <= i < k && !row_full(board, board[i].position.y as int) && cur[j]
                    == shifted(board, board[i]));
            }
        } else {
            lemma_full_rows_below_le(board, b.position.y as int);
            let e = shifted(board, b);
            assert(cur == prev.push(e));
            assert(cur[prev.len() as int] == e);
            assert(cur.contains(e));
            assert forall|i: int|
                0 <= i < k && !row_full(
                    board,
                    (#[trigger] board[i]).position.y as int,
                ) implies cur.contains(shifted(board, board[i])) by {
                if i < k - 1 {
                    let j = choose|j: int|
                        0 <= j < prev.len() && prev[j] == shifted(board, board[i]);
                    assert(cur[j] == shifted(board, board[i]));
                }
            }
            assert forall|j: int| 0 <= j < cur.len() implies from_source(board, k, cur[j]) by {
                if j < prev.len() {
                    assert(from_source(board, k - 1, prev[j]));
                    let i = choose|i: int|
                        0 <= i < k - 1 && !row_full(board, (#[trigger] board[i]).position.y as int)
                            && prev[j] == shifted(board, board[i]);
                    assert(0 <= i < k && !row_full(board, board[i].position.y as int) && cur[j]
                        == shifted(board, board[i]));
                } else {
                    assert(0 <= k - 1 < k && !row_full(board, b.position.y as int) && cur[j]
                        == shifted(board, board[k - 1]));
                }
            }
            assert forall|j: int|
                0 <= j < prev.len() implies !((#[trigger] prev[j]).position.x == e.position.x
                && prev[j].position.y == e.position.y) by {
                assert(from_source(board, k - 1, prev[j]));
                let i = choose|i: int|
                    0 <= i < k - 1 && !row_full(board, (#[trigger] board[i]).position.y as int)
                        && prev[j] == shifted(board, board[i]);
                lemma_full_rows_below_le(board, board[i].position.y as int);
                if board[i].position.x == b.position.x && prev[j].position.y == e.position.y {
                    assert(board[i].position.y as int - full_rows_below(
                        board,
                        board[i].position.y as int,
                    ) == b.position.y as int - full_rows_below(board, b.position.y as int));
                    lemma_shift_injective(board, board[i].position.y as int, b.position.y as int);
                    assert(false);
                }
            }
            assert forall|j1: int, j2: int|
                0 <= j1 < j2 < cur.len() implies !((#[trigger] cur[j1]).position.x == (
            #[trigger] cur[j2]).position.x && cur[j1].position.y == cur[j2].position.y) by {
                if j2 < prev.len() {
                    assert(cur[j1] == prev[j1] && cur[j2] == prev[j2]);
                } else {
                    assert(cur[j2] == e);
                    assert(cur[j1] == prev[j1]);
                }
            }
        }
    }
}

/// The clearing pass, applied to the whole board: what remains is exactly
/// the shifted image of the rows that were not full, it is a well-formed
/// board again, and no row of it is full.
pub proof fn lemma_after_clear_props(board: Seq<Block>)
    requires
        board_wf(board),
    ensures
        after_clear(board).len() <= board.len(),
        forall|j: int|
            0 <= j < after_clear(board).len() ==> from_source(
                board,
                board.len() as int,
                #[trigger] after_clear(board)[j],
            ),
        forall|i: int|
            0 <= i < board.len() && !row_full(board, (#[trigger] board[i]).position.y as int)
                ==> after_clear(board).contains(shifted(board, board[i])),
        board_wf(after_clear(board)),
        forall|y: int| !row_full(after_clear(board), y),
{
    lemma_compacted_take(board, board.len() as int);
    assert(board.take(board.len() as int) =~= board);
    let after = after_clear(board);
    assert forall|y2: int| !row_full(after, y2) by {
        if row_full(after, y2) {
            assert(occupied(after, 0, y2));
            let j0 = choose|j: int|
                0 <= j < after.len() && (#[trigger] after[j]).position.x == 0 && after[j].position.y
                    == y2;
            assert(from_source(board, board.len() as int, after[j0]));
            let i0 = choose|i: int|
                0 <= i < board.len() && !row_full(board, (#[trigger] board[i]).position.y as int)
                    && after[j0] == shifted(board, board[i]);
            let y0 = board[i0].position.y as int;
            lemma_full_rows_below_le(board, y0);
            assert forall|x: int| 0 <= x < GRID_SIZE_X as int implies occupied(board, x, y0) by {
                assert(occupied(after, x, y2));
                let jx = choose|j: int|
                    0 <= j < after.len() && (#[trigger] after[j]).position.x == x
                        && after[j].position.y == y2;
                assert(from_source(board, board.len() as int, after[jx]));
                let ix = choose|i: int|
                    0 <= i < board.len() && !row_full(
                        board,
                        (#[trigger] board[i]).position.y as int,
                    ) && after[jx] == shifted(board, board[i]);
                let yx = board[ix].position.y as int;
                lemma_full_rows_below_le(board, yx);
                lemma_shift_injective(board, yx, y0);
                assert(board[ix].position.x == x && board[ix].position.y == y0);
            }
            assert(row_full(board, y0));
            assert(false);
        }
    }
}

/// Whether some block of the board occupies the cell `(x, y)`.
pub fn is_occupied(static_blocks: &Vec<Block>, x: i32, y: i32) -> (r: bool)
    ensures
        r == occupied(static_blocks@, x as int, y as int),
{
    let n = static_blocks.len();
    let mut i: usize = 0;
    while i < n
        invariant
            n == static_blocks.len(),
            i <= n,
            forall|k: int|
                0 <= k < i ==> !((#[trigger] static_blocks@[k]).position.x == x
                    && static_blocks@[k].position.y == y),
        decreases n - i,
    {
        let p = static_blocks[i].position;
        if p.x == x && p.y == y {
            return true;
        }
        i = i + 1;
    }
    false
}

/// Whether row `y` is full: occupied in every column of the grid.
pub fn is_row_full(static_blocks: &Vec<Block>, y: i32) -> (r: bool)
    ensures
        r == row_full(static_blocks@, y as int),
{
    let mut x: i32 = 0;
    let mut full = true;
    while x < GRID_SIZE_X
        invariant
            0 <= x <= GRID_SIZE_X,
            full == (forall|c: int| 0 <= c < x ==> occupied(static_blocks@, c, y as int)),
        decreases GRID_SIZE_X - x,
    {
        if !is_occupied(static_blocks, x, y) {
            full = false;
        }
        x = x + 1;
    }
    full
}

/// How many rows among `0 .. y` are full.
fn count_full_below(static_blocks: &Vec<Block>, y: i32) -> (count: u32)
    requires
        y >= 0,
    ensures
        count == full_rows_below(static_blocks@, y as int),
        count <= y,
{
    let mut count: u32 = 0;
    let mut r: i32 = 0;
    while r < y
        invariant
            0 <= r <= y,
            count == full_rows_below(static_blocks@, r as int),
            count <= r,
        decreases y - r,
    {
        if is_row_full(static_blocks, r) {
            count = count + 1;
        }
        r = r + 1;
    }
    count
}

/// Removes every full row from the board and moves each remaining block
/// down by the number of full rows that were below it, in one ascending
/// sweep. Returns how many rows were cleared. Afterwards the board is
/// exactly the shifted image of its rows that were not full, it is
/// well formed again, and no full row remains.
pub fn clear_lines(static_blocks: &mut Vec<Block>) -> (cleared: u32)
    requires
        board_wf(old(static_blocks)@),
        forall|i: int| 0 <= i < old(static_blocks)@.len() ==> (#[trigger] old(
            static_blocks,
        )@[i]).position.y < i32::MAX,
    ensures
        final(static_blocks)@ == after_clear(old(static_blocks)@),
        cleared == full_rows_below(old(static_blocks)@, row_bound(old(static_blocks)@)),
        forall|y: int|
            #[trigger] row_full(old(static_blocks)@, y) ==> 0 <= y < row_bound(
                old(static_blocks)@,
            ),
        board_wf(final(static_blocks)@),
        forall|y: int| !row_full(final(static_blocks)@, y),
        final(static_blocks)@.len() <= old(static_blocks)@.len(),
{
    let ghost orig: Seq<Block> = static_blocks@;
    let n = static_blocks.len();

    // One more than the highest occupied row.
    let mut bound: i32 = 0;
    let mut i: usize = 0;
    while i < n
        invariant
            static_blocks@ == orig,
            n == orig.len(),
            i <= n,
            forall|k: int| 0 <= k < orig.len() ==> (#[trigger] orig[k]).position.y < i32::MAX,
            bound == row_bound(orig.take(i as int)),
            bound >= 0,
        decreases n - i,
    {
        proof {
            assert(orig.take(i + 1).drop_last() =~= orig.take(i as int));
            assert(orig.take(i + 1).last() == orig[i as int]);
        }
        let y1 = static_blocks[i].position.y;
        if y1 + 1 > bound {
            bound = y1 + 1;
        }
        i = i + 1;
    }
    proof {
        assert(orig.take(n as int) =~= orig);
    }

    // Count the full rows below the bound.
    let mut cleared: u32 = 0;
    let mut y: i32 = 0;
    while y < bound
        invariant
            static_blocks@ == orig,
            0 <= y <= bound,
            cleared == full_rows_below(orig, y as int),
            cleared <= y,
        decreases bound - y,
    {
        if is_row_full(static_blocks, y) {
            cleared = cleared + 1;
        }
        y = y + 1;
    }

    // Rebuild the board: drop blocks of full rows, shift the others down.
    let mut result: Vec<Block> = Vec::new();
    let mut i: usize = 0;
    while i < n
        invariant
            static_blocks@ == orig,
            board_wf(orig),
            n == orig.len(),
            i <= n,
            result@ == compacted(orig, orig.take(i as int)),
        decreases n - i,
    {
        proof {
            assert(orig.take(i + 1).drop_last() =~= orig.take(i as int));
            assert(orig.take(i + 1).last() == orig[i as int]);
        }
        let b = static_blocks[i];
        if !is_row_full(static_blocks, b.position.y) {
            proof {
                lemma_full_rows_below_le(orig, b.position.y as int);
            }
            let k = count_full_below(static_blocks, b.position.y);
            let nb = Block {
                position: GridPosition { x: b.position.x, y: b.position.y - (k as i32) },
                color: b.color,
            };
            proof {
                assert(nb == shifted(orig, b));
            }
            result.push(nb);
        }
        i = i + 1;
    }
    proof {
        assert(orig.take(n as int) =~= orig);
        lemma_after_clear_props(orig);
        assert forall|fy: int| #[trigger] row_full(orig, fy) implies 0 <= fy < row_bound(
            orig,
        ) by {
            lemma_full_row_in_bound(orig, fy);
        }
    }
    *static_blocks = result;
    cleared
}

} // verus!
