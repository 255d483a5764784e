use reversi::board::{count_stones, Board};
use reversi::capture::get_reversed_board;
use reversi::judge::{get_judgement, Judgement};
use reversi::moves::{can_put_at, get_positions_can_put};

#[test]
fn initial_board_layout() {
    let b = Board::new();
    assert_eq!(b.get(3, 3), 1);
    assert_eq!(b.get(4, 4), 1);
    assert_eq!(b.get(4, 3), 2);
    assert_eq!(b.get(3, 4), 2);
    assert_eq!(b.get(0, 0), 0);
    assert_eq!(b.get(7, 7), 0);
    assert_eq!(b.get(2, 3), 0);
    let (white, black) = count_stones(&b);
    assert_eq!(white, 2);
    assert_eq!(black, 2);
}

#[test]
fn empty_board_has_no_discs() {
    let b = Board::new_empty();
    let (white, black) = count_stones(&b);
    assert_eq!(white, 0);
    assert_eq!(black, 0);
    for y in 0..8 {
        for x in 0..8 {
            assert_eq!(b.get(x, y), 0);
        }
    }
}

#[test]
fn count_stones_tallies_each_player() {
    let mut b = Board::new_empty();
    b.set_cell(0, 0, 1);
    b.set_cell(7, 0, 1);
    b.set_cell(3, 5, 1);
    b.set_cell(7, 7, 2);
    b.set_cell(1, 6, 2);
    let (white, black) = count_stones(&b);
    assert_eq!(white, 3);
    assert_eq!(black, 2);
}

#[test]
fn duplicate_and_same_as_agree() {
    let mut b = Board::new();
    let c = b.duplicate();
    assert!(b.same_as(&c));
    b.set_cell(0, 0, 2);
    assert!(!b.same_as(&c));
}

#[test]
fn capture_flips_single_bracketed_disc() {
    // Black plays the opening move at (2,3): the white disc at (3,3) is
    // bracketed against the black disc at (4,3) and flips.
    let mut b = Board::new();
    b.set_cell(2, 3, 2);
    let r = get_reversed_board(2, 3, 2, &b);
    assert_eq!(r.get(2, 3), 2);
    assert_eq!(r.get(3, 3), 2);
    assert_eq!(r.get(4, 3), 2);
    assert_eq!(r.get(3, 4), 2);
    assert_eq!(r.get(4, 4), 1);
    let (white, black) = count_stones(&r);
    assert_eq!(white, 1);
    assert_eq!(black, 4);
}

#[test]
fn capture_without_bracket_changes_nothing() {
    // A lone disc in a corner of the opening position captures nothing.
    let mut b = Board::new();
    b.set_cell(0, 0, 2);
    let r = get_reversed_board(0, 0, 2, &b);
    assert!(r.same_as(&b));
}

#[test]
fn capture_flips_in_two_directions_at_once() {
    // Black at (3,3) brackets one white disc to the left and one above.
    let mut b = Board::new_empty();
    b.set_cell(2, 3, 1);
    b.set_cell(1, 3, 2);
    b.set_cell(3, 2, 1);
    b.set_cell(3, 1, 2);
    assert!(can_put_at(&b, 3, 3, 2));
    b.set_cell(3, 3, 2);
    let r = get_reversed_board(3, 3, 2, &b);
    assert_eq!(r.get(2, 3), 2);
    assert_eq!(r.get(3, 2), 2);
    let (white, black) = count_stones(&r);
    assert_eq!(white, 0);
    assert_eq!(black, 5);
}

#[test]
fn capture_flips_a_whole_run() {
    // Three white discs in a row, bracketed along the top edge.
    let mut b = Board::new_empty();
    b.set_cell(1, 0, 1);
    b.set_cell(2, 0, 1);
    b.set_cell(3, 0, 1);
    b.set_cell(4, 0, 2);
    assert!(can_put_at(&b, 0, 0, 2));
    b.set_cell(0, 0, 2);
    let r = get_reversed_board(0, 0, 2, &b);
    let (white, black) = count_stones(&r);
    assert_eq!(white, 0);
    assert_eq!(black, 5);
}

#[test]
fn run_broken_by_empty_cell_is_no_bracket() {
    // The scan reaches an empty cell before a black disc: illegal.
    let mut b = Board::new_empty();
    b.set_cell(1, 0, 1);
    b.set_cell(3, 0, 2);
    assert!(!can_put_at(&b, 0, 0, 2));
}

#[test]
fn adjacent_own_disc_is_no_bracket() {
    let mut b = Board::new_empty();
    b.set_cell(1, 1, 2);
    b.set_cell(2, 2, 1);
    b.set_cell(3, 3, 2);
    // (0,0) touches only the own disc at (1,1): nothing would flip.
    assert!(!can_put_at(&b, 0, 0, 2));
}

#[test]
fn occupied_cell_is_never_legal() {
    let b = Board::new();
    assert!(!can_put_at(&b, 3, 3, 2));
    assert!(!can_put_at(&b, 4, 3, 2));
    assert!(!can_put_at(&b, 3, 3, 1));
    assert!(!can_put_at(&b, 4, 3, 1));
}

#[test]
fn opening_moves_for_black() {
    let b = Board::new();
    let p = get_positions_can_put(2, &b);
    assert_eq!(p.len(), 64);
    let mut marked = Vec::new();
    for y in 0..8 {
        for x in 0..8 {
            if p[y * 8 + x] == 1 {
                marked.push((x, y));
            }
        }
    }
    assert_eq!(marked, vec![(3, 2), (2, 3), (5, 4), (4, 5)]);
}

#[test]
fn opening_moves_for_white() {
    let b = Board::new();
    let p = get_positions_can_put(1, &b);
    let mut marked = Vec::new();
    for y in 0..8 {
        for x in 0..8 {
            if p[y * 8 + x] == 1 {
                marked.push((x, y));
            }
        }
    }
    assert_eq!(marked, vec![(4, 2), (5, 3), (2, 4), (3, 5)]);
}

#[test]
fn legal_move_map_never_marks_occupied_cells() {
    let mut b = Board::new();
    b.set_cell(0, 0, 1);
    b.set_cell(7, 7, 2);
    for stone in [1, 2] {
        let p = get_positions_can_put(stone, &b);
        for y in 0..8 {
            for x in 0..8 {
                if b.get(x, y) != 0 {
                    assert_eq!(p[y * 8 + x], 0);
                }
            }
        }
    }
}

#[test]
fn judgement_of_counts() {
    assert_eq!(get_judgement(2, 2), Judgement::Draw);
    assert_eq!(get_judgement(0, 0), Judgement::Draw);
    assert_eq!(get_judgement(33, 31), Judgement::WhiteWon);
    assert_eq!(get_judgement(1, 63), Judgement::BlackWon);
}

#[test]
fn judgement_swaps_with_its_counts() {
    assert_eq!(get_judgement(40, 24), Judgement::WhiteWon);
    assert_eq!(get_judgement(24, 40), Judgement::BlackWon);
    assert_eq!(get_judgement(32, 32), Judgement::Draw);
}

#[test]
fn judgement_text_labels() {
    assert_eq!(Judgement::Draw.text(), "DRAW");
    assert_eq!(Judgement::WhiteWon.text(), "WHITE WON!");
    assert_eq!(Judgement::BlackWon.text(), "BLACK WON");
}
