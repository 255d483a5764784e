//! The 8x8 board: cell values, well-formedness, construction, updates,
//! and disc counting.

use vstd::prelude::*;

verus! {

/// An empty cell.
pub const EMPTY: u8 = 0;

/// A white disc (the second player's colour).
pub const WHITE: u8 = 1;

/// A black disc (the first player's colour).
pub const BLACK: u8 = 2;

/// The flat, row-major index of the cell at column `x`, row `y`.
pub open spec fn cell_index(x: int, y: int) -> int {
    y * 8 + x
}

/// Both coordinates lie on the 8x8 grid.
pub open spec fn in_range(x: int, y: int) -> bool {
    0 <= x < 8 && 0 <= y < 8
}

/// A well-formed board holds exactly 64 cells, each empty or a disc of
/// one of the two players.
pub open spec fn board_wf(b: Seq<u8>) -> bool {
    &&& b.len() == 64
    &&& forall|i: int| 0 <= i < 64 ==> b[i] == 0 || b[i] == 1 || b[i] == 2
}

/// The board with every cell empty.
pub open spec fn empty_board() -> Seq<u8> {
    Seq::new(64, |i: int| 0u8)
}

/// The opening position: white discs at (3,3) and (4,4), black discs at
/// (4,3) and (3,4).
pub open spec fn initial_board() -> Seq<u8> {
    Seq::new(
        64,
        |i: int|
            if i == cell_index(3, 3) || i == cell_index(4, 4) {
                1u8
            } else if i == cell_index(4, 3) || i == cell_index(3, 4) {
                2u8
            } else {
                0u8
            },
    )
}

/// The board `b` with `stone` written at cell (x, y).
pub open spec fn place(b: Seq<u8>, x: int, y: int, stone: u8) -> Seq<u8> {
    b.update(cell_index(x, y), stone)
}

/// An 8x8 grid of cells, stored flat in row-major order: the cell at
/// column `x`, row `y` sits at index `y * 8 + x`.
pub struct Board {
    cells: Vec<u8>,
}

impl View for Board {
    type V = Seq<u8>;

    closed spec fn view(&self) -> Seq<u8> {
        self.cells@
    }
}

impl Board {
    /// The board's internal invariant: see `board_wf`.
    pub open spec fn wf(self) -> bool {
        board_wf(self@)
    }

    /// A board with every cell empty.
    #[verifier::loop_isolation(false)]
    pub fn new_empty() -> (b: Board)
        ensures
            b.wf(),
            b@ == empty_board(),
    {
        let mut cells: Vec<u8> = Vec::new();
        let mut i: usize = 0;
        while i < 64
            invariant
                i <= 64,
                cells@.len() == i,
                forall|j: int| 0 <= j < i ==> cells@[j] == 0,
            decreases 64 - i,
        {
            cells.push(0);
            i = i + 1;
        }
        let b = Board { cells };
        proof {
            assert(b@ =~= empty_board());
        }
        b
    }

    /// The opening position: two discs of each player on the four
    /// central cells.
    pub fn new() -> (b: Board)
        ensures
            b.wf(),
            b@ == initial_board(),
    {
        let mut b = Board::new_empty();
        b.set_cell(3, 3, 1);
        b.set_cell(4, 3, 2);
        b.set_cell(3, 4, 2);
        b.set_cell(4, 4, 1);
        proof {
            assert(b@ =~= initial_board());
        }
        b
    }

    /// The value of the cell at column `x`, row `y`.
    pub fn get(&self, x: usize, y: usize) -> (v: u8)
        requires
            self.wf(),
            x < 8,
            y < 8,
        ensures
            v == self@[cell_index(x as int, y as int)],
    {
        self.cells[y * 8 + x]
    }

    /// Writes `v` at column `x`, row `y`, leaving every other cell as it
    /// was.
    pub fn set_cell(&mut self, x: usize, y: usize, v: u8)
        requires
            old(self).wf(),
            x < 8,
            y < 8,
            v <= 2,
        ensures
            final(self).wf(),
            final(self)@ == place(old(self)@, x as int, y as int, v),
    {
        self.cells.set(y * 8 + x, v);
    }

    /// A fresh board holding the same position.
    #[verifier::loop_isolation(false)]
    pub fn duplicate(&self) -> (b: Board)
        requires
            self.wf(),
        ensures
            b.wf(),
            b@ == self@,
    {
        let mut cells: Vec<u8> = Vec::new();
        let mut i: usize = 0;
        while i < 64
            invariant
                i <= 64,
                cells@.len() == i,
                forall|j: int| 0 <= j < i ==> cells@[j] == self@[j],
            decreases 64 - i,
        {
            let v = self.cells[i];
            cells.push(v);
            i = i + 1;
        }
        let b = Board { cells };
        proof {
            assert(b@ =~= self@);
        }
        b
    }

    /// True exactly when the two boards hold the same position.
    #[verifier::loop_isolation(false)]
    pub fn same_as(&self, other: &Board) -> (r: bool)
        requires
            self.wf(),
            other.wf(),
        ensures
            r <==> self@ == other@,
    {
        let mut i: usize = 0;
        while i < 64
            invariant
                i <= 64,
                forall|j: int| 0 <= j < i ==> self@[j] == other@[j],
            decreases 64 - i,
        {
            if self.cells[i] != other.cells[i] {
                return false;
            }
            i = i + 1;
        }
        proof {
            assert(self@ =~= other@);
        }
        true
    }
}

/// The number of cells among the first `n` of `b` that hold the value
/// `v`.
pub open spec fn count_in(b: Seq<u8>, v: u8, n: int) -> int
    decreases n,
{
    if n <= 0 {
        0
    } else {
        count_in(b, v, n - 1) + if b[n - 1] == v {
            1int
        } else {
            0int
        }
    }
}

/// The number of cells of the whole board that hold the value `v`.
pub open spec fn count_stone(b: Seq<u8>, v: u8) -> int {
    count_in(b, v, 64)
}

/// Tallies the discs of each player: the first component counts white
/// discs (value 1), the second black discs (value 2).
#[verifier::loop_isolation(false)]
pub fn count_stones(board: &Board) -> (r: (usize, usize))
    requires
        board.wf(),
    ensures
        r.0 == count_stone(board@, 1),
        r.1 == count_stone(board@, 2),
{
    let mut white: usize = 0;
    let mut black: usize = 0;
    let mut i: usize = 0;
    while i < 64
        invariant
            i <= 64,
            white <= i,
            black <= i,
            white == count_in(board@, 1, i as int),
            black == count_in(board@, 2, i as int),
        decreases 64 - i,
    {
        let v = board.cells[i];
        if v == 1 {
            white = white + 1;
        } else if v == 2 {
            black = black + 1;
        }
        i = i + 1;
    }
    (white, black)
}

/// Every cell counts towards exactly one of the three values, so the
/// three counts over any prefix sum to its length.
pub proof fn lemma_count_partition(b: Seq<u8>, n: int)
    requires
        0 <= n <= b.len(),
        forall|i: int| 0 <= i < n ==> b[i] == 0 || b[i] == 1 || b[i] == 2,
    ensures
        count_in(b, 0, n) + count_in(b, 1, n) + count_in(b, 2, n) == n,
    decreases n,
{
    if n > 0 {
        lemma_count_partition(b, n - 1);
    }
}

/// The two disc counts together equal the number of occupied cells: the
/// board's 64 cells less the empty ones.
pub proof fn lemma_discs_match_occupied(b: Seq<u8>)
    requires
        board_wf(b),
    ensures
        count_stone(b, 1) + count_stone(b, 2) == 64 - count_in(b, 0, 64),
{
    lemma_count_partition(b, 64);
}

} // verus!
