//! The turn controller: whose move it is, forced skips, game end, and
//! the handling of a player's click on a grid cell.

use vstd::prelude::*;
use crate::board::{Board, cell_index, in_range, initial_board};
use crate::capture::{get_reversed_board, move_result};
use crate::moves::{can_put, can_put_at, get_positions_can_put};

verus! {

/// What became of a click on a grid cell.
#[derive(Clone, Copy, Debug, PartialEq, Eq, Structural)]
pub enum ClickOutcome {
    /// The disc was placed and its captures resolved.
    Placed,
    /// The cell was occupied or the move would capture nothing: the
    /// player is told so and nothing changes.
    Rejected,
    /// The click fell outside the grid, or the game is over: nothing
    /// changes and nothing is said.
    Ignored,
}

/// A game in progress: the board, whose turn it is, how many
/// consecutive forced skips just happened, and whether the game is
/// over. Black (disc value 2) moves first; white plays disc value 1.
pub struct Game {
    pub board: Board,
    pub is_black_turn: bool,
    pub skip_count: u8,
    pub is_game_end: bool,
}

impl Game {
    /// The game's invariant: the board is well-formed, the skip count
    /// never exceeds two, and a second consecutive skip has ended the
    /// game.
    pub open spec fn wf(self) -> bool {
        &&& self.board.wf()
        &&& self.skip_count <= 2
        &&& self.skip_count == 2 ==> self.is_game_end
    }

    /// The disc value of the player to move.
    pub open spec fn current_stone(self) -> u8 {
        if self.is_black_turn {
            2
        } else {
            1
        }
    }

    /// The player to move has at least one legal move.
    pub open spec fn has_any_move(self) -> bool {
        exists|x: int, y: int|
            in_range(x, y) && #[trigger] can_put(self.board@, x, y, self.current_stone())
    }

    /// A fresh game: the opening position, black to move, no skips.
    pub fn new() -> (g: Game)
        ensures
            g.wf(),
            g.board@ == initial_board(),
            g.is_black_turn,
            g.skip_count == 0,
            !g.is_game_end,
    {
        Game { board: Board::new(), is_black_turn: true, skip_count: 0, is_game_end: false }
    }

    /// One tick of the turn controller, run before input is accepted:
    /// computes the legal-move map for the player to move and returns
    /// it for display. If a legal move exists, the skip count resets
    /// and play goes on. If none exists, the turn passes; a first
    /// consecutive skip records itself, a second ends the game. Once
    /// the game has ended the state is frozen and the map is all
    /// zeroes. The board itself never changes.
    #[verifier::loop_isolation(false)]
    pub fn tick(&mut self) -> (positions: Vec<u8>)
        requires
            old(self).wf(),
        ensures
            final(self).wf(),
            final(self).board == old(self).board,
            final(self).is_game_end == (old(self).is_game_end || (!old(self).has_any_move()
                && old(self).skip_count == 1)),
            positions@.len() == 64,
            forall|i: int| 0 <= i < 64 ==> positions@[i] == 0 || positions@[i] == 1,
            forall|x: int, y: int|
                in_range(x, y) ==> (positions@[cell_index(x, y)] == 1 <==> (!old(
                    self,
                ).is_game_end && can_put(old(self).board@, x, y, old(self).current_stone()))),
            old(self).is_game_end ==> *final(self) == *old(self),
            !old(self).is_game_end && old(self).has_any_move() ==> (final(self).is_black_turn
                == old(self).is_black_turn && final(self).skip_count == 0),
            !old(self).is_game_end && !old(self).has_any_move() ==> (final(self).is_black_turn
                == !old(self).is_black_turn && final(self).skip_count == old(self).skip_count
                + 1),
    {
        if self.is_game_end {
            let mut p: Vec<u8> = Vec::new();
            let mut i: usize = 0;
            while i < 64
                invariant
                    i <= 64,
                    p@.len() == i,
                    forall|j: int| 0 <= j < i ==> p@[j] == 0,
                decreases 64 - i,
            {
                p.push(0);
                i = i + 1;
            }
            return p;
        }
        let stone: u8 = if self.is_black_turn {
            2
        } else {
            1
        };
        let p = get_positions_can_put(stone, &self.board);
        let mut any: bool = false;
        let mut i: usize = 0;
        while i < 64
            invariant
                i <= 64,
                any <==> exists|j: int| 0 <= j < i && p@[j] == 1,
            decreases 64 - i,
        {
            if p[i] == 1 {
                any = true;
            }
            i = i + 1;
        }
        proof {
            assert(stone == self.current_stone());
            if any {
                let j = choose|j: int| 0 <= j < 64 && p@[j] == 1;
                let xx = j % 8;
                let yy = j / 8;
                assert(in_range(xx, yy));
                assert(j == cell_index(xx, yy));
                assert(p@[cell_index(xx, yy)] == 1);
                assert(can_put(self.board@, xx, yy, stone));
                assert(can_put(self.board@, xx, yy, self.current_stone()));
                assert(self.has_any_move());
            }
            if !any && self.has_any_move() {
                let (xx, yy) = choose|xx: int, yy: int|
                    in_range(xx, yy) && #[trigger] can_put(self.board@, xx, yy, stone);
                assert(p@[cell_index(xx, yy)] == 1);
                assert(0 <= cell_index(xx, yy) < 64);
                assert(false);
            }
            assert(any == self.has_any_move());
            assert(self.has_any_move() == old(self).has_any_move());
        }
        if any {
            self.skip_count = 0;
        } else {
            self.is_black_turn = !self.is_black_turn;
            if self.skip_count == 1 {
                self.skip_count = 2;
                self.is_game_end = true;
            } else {
                self.skip_count = 1;
            }
        }
        p
    }

    /// A click on grid cell (x, y) by the player to move. A click
    /// outside the grid, or after the game has ended, is ignored. A
    /// click on an occupied cell, or on an empty cell where nothing
    /// would be captured, is rejected; both leave the state unchanged.
    /// A legal click places the disc, resolves its captures, and passes
    /// the turn. The skip count is left to the next tick.
    pub fn click(&mut self, x: usize, y: usize) -> (outcome: ClickOutcome)
        requires
            old(self).wf(),
        ensures
            final(self).wf(),
            final(self).is_game_end == old(self).is_game_end,
            final(self).skip_count == old(self).skip_count,
            (old(self).is_game_end || x >= 8 || y >= 8) ==> (*final(self) == *old(self)
                && outcome == ClickOutcome::Ignored),
            (!old(self).is_game_end && x < 8 && y < 8 && old(self).board@[cell_index(
                x as int,
                y as int,
            )] != 0) ==> (*final(self) == *old(self) && outcome == ClickOutcome::Rejected),
            (!old(self).is_game_end && x < 8 && y < 8 && old(self).board@[cell_index(
                x as int,
                y as int,
            )] == 0 && !can_put(old(self).board@, x as int, y as int, old(self).current_stone()))
                ==> (*final(self) == *old(self) && outcome == ClickOutcome::Rejected),
            (!old(self).is_game_end && x < 8 && y < 8 && can_put(
                old(self).board@,
                x as int,
                y as int,
                old(self).current_stone(),
            )) ==> (outcome == ClickOutcome::Placed && final(self).is_black_turn == !old(
                self,
            ).is_black_turn && final(self).board@ == move_result(
                old(self).board@,
                x as int,
                y as int,
                old(self).current_stone(),
            )),
    {
        if self.is_game_end || x >= 8 || y >= 8 {
            return ClickOutcome::Ignored;
        }
        if self.board.get(x, y) != 0 {
            return ClickOutcome::Rejected;
        }
        let stone: u8 = if self.is_black_turn {
            2
        } else {
            1
        };
        if !can_put_at(&self.board, x, y, stone) {
            return ClickOutcome::Rejected;
        }
        self.board.set_cell(x, y, stone);
        let nb = get_reversed_board(x, y, stone, &self.board);
        self.board = nb;
        self.is_black_turn = !self.is_black_turn;
        ClickOutcome::Placed
    }
}

} // verus!
