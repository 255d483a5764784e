use reversi::board::{count_stones, Board};
use reversi::game::{ClickOutcome, Game};
use reversi::judge::{get_judgement, Judgement};

#[test]
fn new_game_starts_with_black() {
    let g = Game::new();
    assert!(g.is_black_turn);
    assert_eq!(g.skip_count, 0);
    assert!(!g.is_game_end);
    let (white, black) = count_stones(&g.board);
    assert_eq!(white, 2);
    assert_eq!(black, 2);
}

#[test]
fn opening_click_flips_one_disc() {
    // Black opens at (2,3): exactly the white disc at (3,3) flips, so
    // black holds four discs to white's one, and white is to move.
    let mut g = Game::new();
    let outcome = g.click(2, 3);
    assert_eq!(outcome, ClickOutcome::Placed);
    let (white, black) = count_stones(&g.board);
    assert_eq!(white, 1);
    assert_eq!(black, 4);
    assert_eq!(g.board.get(3, 3), 2);
    assert_eq!(g.board.get(2, 3), 2);
    assert_eq!(g.board.get(4, 4), 1);
    assert!(!g.is_black_turn);
    assert!(!g.is_game_end);
}

#[test]
fn click_outside_the_grid_is_ignored() {
    let mut g = Game::new();
    let before = g.board.duplicate();
    let outcome = g.click(9, 2);
    assert_eq!(outcome, ClickOutcome::Ignored);
    assert!(g.board.same_as(&before));
    assert!(g.is_black_turn);
    assert_eq!(g.skip_count, 0);
    assert!(!g.is_game_end);
    let outcome = g.click(2, 8);
    assert_eq!(outcome, ClickOutcome::Ignored);
    assert!(g.board.same_as(&before));
}

#[test]
fn click_on_occupied_cell_is_rejected() {
    let mut g = Game::new();
    let before = g.board.duplicate();
    let outcome = g.click(3, 3);
    assert_eq!(outcome, ClickOutcome::Rejected);
    assert!(g.board.same_as(&before));
    assert!(g.is_black_turn);
    assert_eq!(g.skip_count, 0);
    assert!(!g.is_game_end);
}

#[test]
fn click_that_captures_nothing_is_rejected() {
    let mut g = Game::new();
    let before = g.board.duplicate();
    let outcome = g.click(0, 0);
    assert_eq!(outcome, ClickOutcome::Rejected);
    assert!(g.board.same_as(&before));
    assert!(g.is_black_turn);
}

#[test]
fn tick_with_moves_available_keeps_the_turn() {
    let mut g = Game::new();
    let positions = g.tick();
    assert!(g.is_black_turn);
    assert_eq!(g.skip_count, 0);
    assert!(!g.is_game_end);
    let ones = positions.iter().filter(|&&v| v == 1).count();
    assert_eq!(ones, 4);
}

#[test]
fn tick_resets_the_skip_count_when_a_move_exists() {
    let mut g = Game { board: Board::new(), is_black_turn: true, skip_count: 1, is_game_end: false };
    g.tick();
    assert_eq!(g.skip_count, 0);
    assert!(g.is_black_turn);
    assert!(!g.is_game_end);
}

#[test]
fn stalemate_skips_once_then_ends() {
    // On an empty board neither player has a legal move: the first tick
    // passes the turn with one skip, the second ends the game.
    let mut g = Game {
        board: Board::new_empty(),
        is_black_turn: true,
        skip_count: 0,
        is_game_end: false,
    };
    let positions = g.tick();
    assert!(positions.iter().all(|&v| v == 0));
    assert!(!g.is_black_turn);
    assert_eq!(g.skip_count, 1);
    assert!(!g.is_game_end);

    g.tick();
    assert!(g.is_black_turn);
    assert_eq!(g.skip_count, 2);
    assert!(g.is_game_end);

    let (white, black) = count_stones(&g.board);
    assert_eq!(get_judgement(white, black), Judgement::Draw);
}

#[test]
fn full_board_ends_after_double_skip() {
    let mut b = Board::new_empty();
    for y in 0..8 {
        for x in 0..8 {
            b.set_cell(x, y, 1);
        }
    }
    let mut g = Game { board: b, is_black_turn: true, skip_count: 0, is_game_end: false };
    g.tick();
    assert!(!g.is_game_end);
    g.tick();
    assert!(g.is_game_end);
    let (white, black) = count_stones(&g.board);
    assert_eq!(white, 64);
    assert_eq!(black, 0);
    assert_eq!(get_judgement(white, black), Judgement::WhiteWon);
}

#[test]
fn ended_game_is_frozen() {
    let mut g = Game {
        board: Board::new_empty(),
        is_black_turn: true,
        skip_count: 0,
        is_game_end: false,
    };
    g.tick();
    g.tick();
    assert!(g.is_game_end);
    let turn = g.is_black_turn;
    let positions = g.tick();
    assert!(positions.iter().all(|&v| v == 0));
    assert_eq!(g.is_black_turn, turn);
    assert_eq!(g.skip_count, 2);
    let before = g.board.duplicate();
    let outcome = g.click(3, 2);
    assert_eq!(outcome, ClickOutcome::Ignored);
    assert!(g.board.same_as(&before));
}

#[test]
fn turns_alternate_between_placements() {
    let mut g = Game::new();
    g.tick();
    assert_eq!(g.click(2, 3), ClickOutcome::Placed);
    assert!(!g.is_black_turn);
    g.tick();
    // White answers at (2,2): the black disc at (3,3) is bracketed
    // diagonally against the white disc at (4,4).
    assert_eq!(g.click(2, 2), ClickOutcome::Placed);
    assert!(g.is_black_turn);
    let (white, black) = count_stones(&g.board);
    assert_eq!(white + black, 6);
    assert_eq!(white, 3);
    assert_eq!(black, 3);
}
