//! Legal-move computation: a cell is a legal target for a player when
//! it is empty and placing there would capture at least one disc.

use vstd::prelude::*;
use crate::board::{Board, board_wf, cell_index, in_range};
use crate::capture::{capture_count, capture_count_dir, lemma_capture_changes_board,
    lemma_no_capture_keeps_board, reversed};

verus! {

/// A disc of `stone` may be placed at (x, y): the cell is empty and
/// some direction captures at least one opponent disc.
pub open spec fn can_put(b: Seq<u8>, x: int, y: int, stone: u8) -> bool {
    b[cell_index(x, y)] == 0 && exists|d: int|
        0 <= d < 8 && #[trigger] capture_count(b, x, y, stone, d) >= 1
}

/// Legality can equally be read as: the cell is empty and resolving the
/// capture there would change the board.
pub proof fn lemma_can_put_iff_board_changes(b: Seq<u8>, x: int, y: int, stone: u8)
    requires
        board_wf(b),
        in_range(x, y),
        stone == 1 || stone == 2,
    ensures
        can_put(b, x, y, stone) <==> (b[cell_index(x, y)] == 0 && reversed(b, x, y, stone) != b),
{
    if can_put(b, x, y, stone) {
        let d = choose|d: int| 0 <= d < 8 && #[trigger] capture_count(b, x, y, stone, d) >= 1;
        lemma_capture_changes_board(b, x, y, stone, d);
    } else {
        if b[cell_index(x, y)] == 0 {
            assert forall|d: int| 0 <= d < 8 implies #[trigger] capture_count(b, x, y, stone, d)
                <= 0 by {
                if capture_count(b, x, y, stone, d) >= 1 {
                    assert(can_put(b, x, y, stone));
                }
            }
            lemma_no_capture_keeps_board(b, x, y, stone);
        }
    }
}

/// Decides whether a disc of `stone` may be placed at (x, y).
#[verifier::loop_isolation(false)]
pub fn can_put_at(board: &Board, x: usize, y: usize, stone: u8) -> (r: bool)
    requires
        board.wf(),
        x < 8,
        y < 8,
        stone == 1 || stone == 2,
    ensures
        r == can_put(board@, x as int, y as int, stone),
{
    if board.get(x, y) != 0 {
        return false;
    }
    let mut d: usize = 0;
    while d < 8
        invariant
            d <= 8,
            forall|dd: int| 0 <= dd < d ==> #[trigger] capture_count(
                board@,
                x as int,
                y as int,
                stone,
                dd,
            ) <= 0,
        decreases 8 - d,
    {
        let n = capture_count_dir(board, x, y, stone, d);
        if n > 0 {
            return true;
        }
        d = d + 1;
    }
    false
}

/// The legal-move map for `stone` over the given board: an 8x8 grid of
/// flags, flat in row-major order, holding 1 exactly on the cells where
/// the player may place. An occupied cell is never marked.
#[verifier::loop_isolation(false)]
pub fn get_positions_can_put(stone: u8, board: &Board) -> (p: Vec<u8>)
    requires
        board.wf(),
        stone == 1 || stone == 2,
    ensures
        p@.len() == 64,
        forall|i: int| 0 <= i < 64 ==> p@[i] == 0 || p@[i] == 1,
        forall|x: int, y: int|
            in_range(x, y) ==> (p@[cell_index(x, y)] == 1 <==> can_put(board@, x, y, stone)),
        forall|x: int, y: int|
            in_range(x, y) && board@[cell_index(x, y)] != 0 ==> p@[cell_index(x, y)] == 0,
{
    let mut p: Vec<u8> = Vec::new();
    let mut y: usize = 0;
    while y < 8
        invariant
            y <= 8,
            p@.len() == y * 8,
            forall|i: int| 0 <= i < y * 8 ==> p@[i] == 0 || p@[i] == 1,
            forall|xx: int, yy: int|
                in_range(xx, yy) && yy < y ==> (p@[cell_index(xx, yy)] == 1 <==> can_put(
                    board@,
                    xx,
                    yy,
                    stone,
                )),
        decreases 8 - y,
    {
        let mut x: usize = 0;
        while x < 8
            invariant
                y < 8,
                x <= 8,
                p@.len() == y * 8 + x,
                forall|i: int| 0 <= i < y * 8 + x ==> p@[i] == 0 || p@[i] == 1,
                forall|xx: int, yy: int|
                    in_range(xx, yy) && (yy < y || (yy == y && xx < x)) ==> (p@[cell_index(xx, yy)]
                        == 1 <==> can_put(board@, xx, yy, stone)),
            decreases 8 - x,
        {
            let legal = can_put_at(board, x, y, stone);
            if legal {
                p.push(1);
            } else {
                p.push(0);
            }
            x = x + 1;
        }
        y = y + 1;
    }
    p
}

} // verus!
