//! Capture resolution: the eight-direction outward scan that finds
//! bracketed runs of opponent discs and flips them.

use vstd::prelude::*;
use crate::board::{Board, board_wf, cell_index, in_range, place};

verus! {

/// The other player's disc value.
pub open spec fn opponent(stone: u8) -> u8 {
    if stone == 1 {
        2
    } else {
        1
    }
}

/// The column offset of compass direction `d` (0 through 7).
pub open spec fn dx_of(d: int) -> int {
    if d == 0 {
        0
    } else if d == 1 {
        -1
    } else if d == 2 {
        -1
    } else if d == 3 {
        -1
    } else if d == 4 {
        0
    } else if d == 5 {
        1
    } else if d == 6 {
        1
    } else {
        1
    }
}

/// The row offset of compass direction `d` (0 through 7).
pub open spec fn dy_of(d: int) -> int {
    if d == 0 {
        1
    } else if d == 1 {
        1
    } else if d == 2 {
        0
    } else if d == 3 {
        -1
    } else if d == 4 {
        -1
    } else if d == 5 {
        -1
    } else if d == 6 {
        0
    } else {
        1
    }
}

/// The column of the cell `k` steps from (x, y) along direction `d`.
pub open spec fn ray_x(x: int, d: int, k: int) -> int {
    x + k * dx_of(d)
}

/// The row of the cell `k` steps from (x, y) along direction `d`.
pub open spec fn ray_y(y: int, d: int, k: int) -> int {
    y + k * dy_of(d)
}

/// The outward scan along direction `d`, starting at step `i`: the
/// number of opponent discs bracketed in that direction, provided steps
/// 1 through i - 1 already held opponent discs. The scan yields 0 when
/// it runs off the board or reaches an empty cell, and i - 1 when it
/// reaches one of the acting player's own discs. A step of 8 or more is
/// always off the board, so the scan is cut off there.
pub open spec fn scan_from(b: Seq<u8>, x: int, y: int, stone: u8, d: int, i: int) -> int
    decreases 8 - i,
{
    if i >= 8 || !in_range(ray_x(x, d, i), ray_y(y, d, i)) {
        0
    } else if b[cell_index(ray_x(x, d, i), ray_y(y, d, i))] == stone {
        i - 1
    } else if b[cell_index(ray_x(x, d, i), ray_y(y, d, i))] == opponent(stone) {
        scan_from(b, x, y, stone, d, i + 1)
    } else {
        0
    }
}

/// The number of opponent discs that a disc placed at (x, y) captures
/// along direction `d`: the length of the unbroken run of opponent
/// discs starting one step out, provided the run ends at one of the
/// acting player's own discs; 0 otherwise.
pub open spec fn capture_count(b: Seq<u8>, x: int, y: int, stone: u8, d: int) -> int {
    scan_from(b, x, y, stone, d, 1)
}

/// Cell `i` lies on the ray from (x, y) along direction `d`, within the
/// first `kmax` steps and on the board.
pub open spec fn on_ray(x: int, y: int, d: int, kmax: int, i: int) -> bool {
    exists|k: int|
        1 <= k <= kmax && in_range(#[trigger] ray_x(x, d, k), ray_y(y, d, k)) && i == cell_index(
            ray_x(x, d, k),
            ray_y(y, d, k),
        )
}

/// Cell `i` is captured by a disc of `stone` placed at (x, y), in one
/// of the directions below `dmax`.
pub open spec fn flips_in_dirs(b: Seq<u8>, x: int, y: int, stone: u8, dmax: int, i: int) -> bool {
    exists|d: int, k: int|
        0 <= d < dmax && 1 <= k <= capture_count(b, x, y, stone, d) && in_range(
            #[trigger] ray_x(x, d, k),
            ray_y(y, d, k),
        ) && i == cell_index(ray_x(x, d, k), ray_y(y, d, k))
}

/// Cell `i` is captured by a disc of `stone` placed at (x, y).
pub open spec fn flips(b: Seq<u8>, x: int, y: int, stone: u8, i: int) -> bool {
    flips_in_dirs(b, x, y, stone, 8, i)
}

/// The board after a disc of `stone` placed at (x, y) has captured in
/// all eight directions: every bracketed opponent disc now shows
/// `stone`; every other cell keeps its value. The scan reads only cells
/// away from (x, y), so the result does not depend on what (x, y)
/// itself holds.
pub open spec fn reversed(b: Seq<u8>, x: int, y: int, stone: u8) -> Seq<u8> {
    Seq::new(
        64,
        |i: int|
            if flips(b, x, y, stone, i) {
                stone
            } else {
                b[i]
            },
    )
}

/// The board after a full move of `stone` at the empty cell (x, y):
/// the disc is written first, then its captures are resolved on the
/// board so obtained.
pub open spec fn move_result(b: Seq<u8>, x: int, y: int, stone: u8) -> Seq<u8> {
    reversed(place(b, x, y, stone), x, y, stone)
}

/// A captured cell held an opponent disc before the capture.
pub proof fn lemma_flip_cell_opponent(b: Seq<u8>, x: int, y: int, stone: u8, i: int)
    requires
        flips(b, x, y, stone, i),
    ensures
        b[i] == opponent(stone),
{
    let (dd, k) = choose|dd: int, k: int|
        0 <= dd < 8 && 1 <= k <= capture_count(b, x, y, stone, dd) && in_range(
            #[trigger] ray_x(x, dd, k),
            ray_y(y, dd, k),
        ) && i == cell_index(ray_x(x, dd, k), ray_y(y, dd, k));
    lemma_capture_cells(b, x, y, stone, dd, k);
}

proof fn lemma_scan_opponent(b: Seq<u8>, x: int, y: int, stone: u8, d: int, i: int, k: int)
    requires
        1 <= i <= k,
        k <= scan_from(b, x, y, stone, d, i),
    ensures
        in_range(ray_x(x, d, k), ray_y(y, d, k)),
        b[cell_index(ray_x(x, d, k), ray_y(y, d, k))] == opponent(stone),
    decreases k - i,
{
    // scan_from(.., i) is at least k, hence positive, so the scan neither
    // failed at step i (which yields 0) nor ended there on an own disc
    // (which yields i - 1 < k): step i is on the board and holds the
    // opponent's disc, and the scan continues from step i + 1.
    assert(scan_from(b, x, y, stone, d, i) == scan_from(b, x, y, stone, d, i + 1));
    if i < k {
        lemma_scan_opponent(b, x, y, stone, d, i + 1, k);
    }
}

/// Every step of a captured run is on the board and holds an opponent
/// disc.
pub proof fn lemma_capture_cells(b: Seq<u8>, x: int, y: int, stone: u8, d: int, k: int)
    requires
        1 <= k <= capture_count(b, x, y, stone, d),
    ensures
        in_range(ray_x(x, d, k), ray_y(y, d, k)),
        b[cell_index(ray_x(x, d, k), ray_y(y, d, k))] == opponent(stone),
{
    lemma_scan_opponent(b, x, y, stone, d, 1, k);
}

/// Extending the set of directions by one adds exactly the cells of
/// that direction's captured run.
proof fn lemma_flips_step(b: Seq<u8>, x: int, y: int, stone: u8, d: int, i: int)
    requires
        0 <= d,
    ensures
        flips_in_dirs(b, x, y, stone, d + 1, i) <==> (flips_in_dirs(b, x, y, stone, d, i)
            || on_ray(x, y, d, capture_count(b, x, y, stone, d), i)),
{
    let n = capture_count(b, x, y, stone, d);
    if flips_in_dirs(b, x, y, stone, d + 1, i) {
        let (dd, k) = choose|dd: int, k: int|
            0 <= dd < d + 1 && 1 <= k <= capture_count(b, x, y, stone, dd) && in_range(
                #[trigger] ray_x(x, dd, k),
                ray_y(y, dd, k),
            ) && i == cell_index(ray_x(x, dd, k), ray_y(y, dd, k));
        if dd < d {
            assert(flips_in_dirs(b, x, y, stone, d, i));
        } else {
            assert(on_ray(x, y, d, n, i));
        }
    }
    if flips_in_dirs(b, x, y, stone, d, i) {
        let (dd, k) = choose|dd: int, k: int|
            0 <= dd < d && 1 <= k <= capture_count(b, x, y, stone, dd) && in_range(
                #[trigger] ray_x(x, dd, k),
                ray_y(y, dd, k),
            ) && i == cell_index(ray_x(x, dd, k), ray_y(y, dd, k));
        assert(flips_in_dirs(b, x, y, stone, d + 1, i));
    }
    if on_ray(x, y, d, n, i) {
        let k = choose|k: int|
            1 <= k <= n && in_range(#[trigger] ray_x(x, d, k), ray_y(y, d, k)) && i == cell_index(
                ray_x(x, d, k),
                ray_y(y, d, k),
            );
        assert(flips_in_dirs(b, x, y, stone, d + 1, i));
    }
}

/// When no direction captures anything, resolving the capture leaves
/// the board exactly as it was.
pub proof fn lemma_no_capture_keeps_board(b: Seq<u8>, x: int, y: int, stone: u8)
    requires
        b.len() == 64,
        forall|d: int| 0 <= d < 8 ==> #[trigger] capture_count(b, x, y, stone, d) <= 0,
    ensures
        reversed(b, x, y, stone) == b,
{
    assert forall|i: int| 0 <= i < 64 implies !flips(b, x, y, stone, i) by {
        if flips(b, x, y, stone, i) {
            let (dd, k) = choose|dd: int, k: int|
                0 <= dd < 8 && 1 <= k <= capture_count(b, x, y, stone, dd) && in_range(
                    #[trigger] ray_x(x, dd, k),
                    ray_y(y, dd, k),
                ) && i == cell_index(ray_x(x, dd, k), ray_y(y, dd, k));
            assert(capture_count(b, x, y, stone, dd) >= 1);
        }
    }
    assert(reversed(b, x, y, stone) =~= b);
}

/// When some direction captures at least one disc, resolving the
/// capture changes the board: the first disc of that run flips.
pub proof fn lemma_capture_changes_board(b: Seq<u8>, x: int, y: int, stone: u8, d: int)
    requires
        board_wf(b),
        0 <= d < 8,
        stone == 1 || stone == 2,
        capture_count(b, x, y, stone, d) >= 1,
    ensures
        reversed(b, x, y, stone) != b,
{
    lemma_capture_cells(b, x, y, stone, d, 1);
    let j = cell_index(ray_x(x, d, 1), ray_y(y, d, 1));
    assert(0 <= j < 64);
    assert(flips(b, x, y, stone, j));
    assert(reversed(b, x, y, stone)[j] == stone);
    assert(b[j] == opponent(stone));
}

fn dir_step_x(d: usize) -> (r: i32)
    requires
        d < 8,
    ensures
        r as int == dx_of(d as int),
{
    if d == 0 {
        0
    } else if d == 1 {
        -1
    } else if d == 2 {
        -1
    } else if d == 3 {
        -1
    } else if d == 4 {
        0
    } else if d == 5 {
        1
    } else if d == 6 {
        1
    } else {
        1
    }
}

fn dir_step_y(d: usize) -> (r: i32)
    requires
        d < 8,
    ensures
        r as int == dy_of(d as int),
{
    if d == 0 {
        1
    } else if d == 1 {
        1
    } else if d == 2 {
        0
    } else if d == 3 {
        -1
    } else if d == 4 {
        -1
    } else if d == 5 {
        -1
    } else if d == 6 {
        0
    } else {
        1
    }
}

/// The capture count along one direction, computed by the outward scan.
#[verifier::loop_isolation(false)]
pub fn capture_count_dir(board: &Board, x: usize, y: usize, stone: u8, d: usize) -> (n: u32)
    requires
        board.wf(),
        x < 8,
        y < 8,
        stone == 1 || stone == 2,
        d < 8,
    ensures
        n as int == capture_count(board@, x as int, y as int, stone, d as int),
        n <= 6,
{
    let dxv = dir_step_x(d);
    let dyv = dir_step_y(d);
    let opp: u8 = if stone == 1 {
        2
    } else {
        1
    };
    let mut i: u32 = 1;
    let mut px: i32 = x as i32 + dxv;
    let mut py: i32 = y as i32 + dyv;
    while i < 8
        invariant
            1 <= i <= 8,
            -8 <= px <= 15,
            -8 <= py <= 15,
            px as int == ray_x(x as int, d as int, i as int),
            py as int == ray_y(y as int, d as int, i as int),
            capture_count(board@, x as int, y as int, stone, d as int) == scan_from(
                board@,
                x as int,
                y as int,
                stone,
                d as int,
                i as int,
            ),
        decreases 8 - i,
    {
        if px < 0 || px > 7 || py < 0 || py > 7 {
            return 0;
        }
        let c = board.get(px as usize, py as usize);
        if c == stone {
            return i - 1;
        }
        if c != opp {
            return 0;
        }
        proof {
            assert(-1 <= dx_of(d as int) <= 1 && -1 <= dy_of(d as int) <= 1);
            assert((i + 1) as int * dx_of(d as int) == i as int * dx_of(d as int) + dx_of(d as int))
                by (nonlinear_arith);
            assert((i + 1) as int * dy_of(d as int) == i as int * dy_of(d as int) + dy_of(d as int))
                by (nonlinear_arith);
            assert(-8 <= (i + 1) as int * dx_of(d as int) <= 8) by (nonlinear_arith)
                requires
                    1 <= i + 1 <= 8,
                    -1 <= dx_of(d as int) <= 1,
            ;
            assert(-8 <= (i + 1) as int * dy_of(d as int) <= 8) by (nonlinear_arith)
                requires
                    1 <= i + 1 <= 8,
                    -1 <= dy_of(d as int) <= 1,
            ;
        }
        i = i + 1;
        px = px + dxv;
        py = py + dyv;
    }
    0
}

/// Resolves the capture of a disc of `stone` placed at (x, y): scans
/// each of the eight directions over the given board and flips every
/// bracketed run of opponent discs, returning the new board. The given
/// board is left untouched.
#[verifier::loop_isolation(false)]
pub fn get_reversed_board(x: usize, y: usize, stone: u8, board: &Board) -> (r: Board)
    requires
        board.wf(),
        x < 8,
        y < 8,
        stone == 1 || stone == 2,
    ensures
        r.wf(),
        r@ == reversed(board@, x as int, y as int, stone),
{
    let mut nb = board.duplicate();
    let mut d: usize = 0;
    while d < 8
        invariant
            d <= 8,
            nb.wf(),
            forall|i: int|
                0 <= i < 64 ==> nb@[i] == (if flips_in_dirs(
                    board@,
                    x as int,
                    y as int,
                    stone,
                    d as int,
                    i,
                ) {
                    stone
                } else {
                    board@[i]
                }),
        decreases 8 - d,
    {
        let n = capture_count_dir(board, x, y, stone, d);
        let dxv = dir_step_x(d);
        let dyv = dir_step_y(d);
        let mut k: u32 = 0;
        let mut px: i32 = x as i32;
        let mut py: i32 = y as i32;
        while k < n
            invariant
                k <= n,
                n as int == capture_count(board@, x as int, y as int, stone, d as int),
                n <= 6,
                d < 8,
                px as int == ray_x(x as int, d as int, k as int),
                py as int == ray_y(y as int, d as int, k as int),
                -8 <= px <= 15,
                -8 <= py <= 15,
                nb.wf(),
                forall|i: int|
                    0 <= i < 64 ==> nb@[i] == (if flips_in_dirs(
                        board@,
                        x as int,
                        y as int,
                        stone,
                        d as int,
                        i,
                    ) || on_ray(x as int, y as int, d as int, k as int, i) {
                        stone
                    } else {
                        board@[i]
                    }),
            decreases n - k,
        {
            proof {
                lemma_capture_cells(board@, x as int, y as int, stone, d as int, k as int + 1);
                assert(-1 <= dx_of(d as int) <= 1 && -1 <= dy_of(d as int) <= 1);
                assert((k + 1) as int * dx_of(d as int) == k as int * dx_of(d as int) + dx_of(
                    d as int,
                )) by (nonlinear_arith);
                assert((k + 1) as int * dy_of(d as int) == k as int * dy_of(d as int) + dy_of(
                    d as int,
                )) by (nonlinear_arith);
            }
            px = px + dxv;
            py = py + dyv;
            k = k + 1;
            let ghost prev = nb@;
            nb.set_cell(px as usize, py as usize, stone);
            proof {
                let xi = x as int;
                let yi = y as int;
                let di = d as int;
                let ki = k as int;
                let j = cell_index(ray_x(xi, di, ki), ray_y(yi, di, ki));
                assert forall|i: int|
                    0 <= i < 64 implies nb@[i] == (if flips_in_dirs(board@, xi, yi, stone, di, i)
                    || on_ray(xi, yi, di, ki, i) {
                    stone
                } else {
                    board@[i]
                }) by {
                    if i == j {
                        assert(on_ray(xi, yi, di, ki, i));
                    } else {
                        assert(nb@[i] == prev[i]);
                        if on_ray(xi, yi, di, ki, i) {
                            let kk = choose|kk: int|
                                1 <= kk <= ki && in_range(
                                    #[trigger] ray_x(xi, di, kk),
                                    ray_y(yi, di, kk),
                                ) && i == cell_index(ray_x(xi, di, kk), ray_y(yi, di, kk));
                            assert(kk < ki);
                            assert(on_ray(xi, yi, di, ki - 1, i));
                        }
                        if on_ray(xi, yi, di, ki - 1, i) {
                            let kk = choose|kk: int|
                                1 <= kk <= ki - 1 && in_range(
                                    #[trigger] ray_x(xi, di, kk),
                                    ray_y(yi, di, kk),
                                ) && i == cell_index(ray_x(xi, di, kk), ray_y(yi, di, kk));
                            assert(on_ray(xi, yi, di, ki, i));
                        }
                    }
                }
            }
        }
        proof {
            assert forall|i: int|
                0 <= i < 64 implies nb@[i] == (if flips_in_dirs(
                board@,
                x as int,
                y as int,
                stone,
                d as int + 1,
                i,
            ) {
                stone
            } else {
                board@[i]
            }) by {
                lemma_flips_step(board@, x as int, y as int, stone, d as int, i);
            }
        }
        d = d + 1;
    }
    proof {
        assert(nb@ =~= reversed(board@, x as int, y as int, stone));
    }
    nb
}

} // verus!
